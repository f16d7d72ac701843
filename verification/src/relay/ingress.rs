//! What is turned away before the rules of the game see it. It learns what
//! became of an input by reading the effects that came of it, rather than
//! working admission out a second time on its own.

use vstd::prelude::*;

use crate::clock;
use crate::clock::Time;
use crate::network_message::Ipv4Addr;
use crate::network_message::PeerID;
use crate::relay::ledger::Allowances;
use crate::relay::messages::items;
use crate::relay::messages::AuthenticateResultCode;
use crate::relay::messages::AuthenticateResultView;
use crate::relay::messages::WireMessage;
use crate::relay::messages::WireMessageView;
use crate::relay::server_fsm::config::Config;
use crate::relay::server_fsm::event::Effect;
use crate::relay::server_fsm::event::EffectView;
use crate::relay::server_fsm::event::Input;
use crate::relay::server_fsm::event::InputView;
use crate::relay::server_fsm::event::Phase;
use crate::relay::server_fsm::reason::DisconnectReason;
use crate::relay::session::Session;
use crate::relay::session::SessionView;
use crate::table;
use crate::table::Table;
use crate::utils;

pub use crate::relay::ledger::Ledger;

verus! {

pub const PASSWORD_FAILURES: &'static str = "password failures";

pub const JOIN_RATE: &'static str = "join rate";

/// What [`Gate`] lets through to the rules of the game. A refusal names its
/// cause so that a log line can say which layer turned the peer away.
#[derive(Debug, Clone, Copy, PartialEq, Eq)]
pub enum Decision {
    Pass,
    Drop,
    Refuse { reason: DisconnectReason, cause: &'static str },
}

/// Runs before the rules of the game and filters what they get to see, so
/// each can assume its input already passed every limit that is not a rule.
///
/// Every join costs whoever is serving the snapshot, a player freezing to
/// serialize or a replay, so rejoining in a loop is charged to the address
/// and, in lobby mode, to the verified lobby name as well, since one lobby
/// account can come from many addresses. Wrong passwords are charged the same
/// two ways. Loopback is never charged for those, because the AI host dials in
/// from there and a local process failing a few guesses must not keep it out.
#[derive(Debug)]
pub struct Gate {
    pub join_by_addr: Ledger<Ipv4Addr>,
    pub join_by_lobby_name: Ledger<String>,
    pub auth_fail_by_addr: Ledger<Ipv4Addr>,
    pub auth_fail_by_lobby_name: Ledger<String>,
}

/// What [`Gate`] is.
pub struct GateView {
    pub join_by_addr: Allowances<Ipv4Addr>,
    pub join_by_lobby_name: Allowances<Seq<char>>,
    pub auth_fail_by_addr: Allowances<Ipv4Addr>,
    pub auth_fail_by_lobby_name: Allowances<Seq<char>>,
}

impl View for Gate {
    type V = GateView;

    open spec fn view(&self) -> GateView {
        GateView {
            join_by_addr: self.join_by_addr@,
            join_by_lobby_name: self.join_by_lobby_name@,
            auth_fail_by_addr: self.auth_fail_by_addr@,
            auth_fail_by_lobby_name: self.auth_fail_by_lobby_name@,
        }
    }
}

/// The key a lobby account is charged under.
pub open spec fn lobby_key(s: SessionView) -> Option<Seq<char>> {
    match s.lobby_name {
        Some(name) => Some(utils::lowercase(name)),
        None => None,
    }
}

/// Whether a key may spend; nobody is held to an account there is none of.
pub open spec fn may<A>(held: Allowances<A>, key: Option<A>, now: Time) -> bool {
    match key {
        Some(k) => held.may_spend(k, now),
        None => true,
    }
}

pub open spec fn asking<A>(held: Allowances<A>, key: Option<A>, now: Time) -> Allowances<A> {
    match key {
        Some(k) => held.asked(k, now),
        None => held,
    }
}

pub open spec fn spending<A>(held: Allowances<A>, key: Option<A>, now: Time) -> Allowances<A> {
    match key {
        Some(k) => held.spent(k, now),
        None => held,
    }
}

/// The address a wrong password is charged to.
pub open spec fn guesser(s: SessionView) -> Option<Ipv4Addr> {
    if s.addr.loopback() {
        None
    } else {
        Some(s.addr)
    }
}

/// The session whose credentials are about to be looked at: one that is there
/// and has not been admitted.
pub open spec fn asks_in(input: InputView, sessions: Seq<(PeerID, SessionView)>) -> Option<
    SessionView,
> {
    match input {
        InputView::Received { peer, msg: WireMessageView::Authenticate(_) } => match table::lookup(
            sessions,
            peer,
        ) {
            Some(s) if s.admitted is None => Some(s),
            _ => None,
        },
        _ => None,
    }
}

/// Someone is told that they are let in.
pub open spec fn welcomed(peer: PeerID, result: AuthenticateResultView) -> EffectView {
    EffectView::Send { peer, msg: WireMessageView::AuthenticateResult(result) }
}

impl GateView {
    pub open spec fn new(config: Config) -> GateView {
        GateView {
            join_by_addr: Allowances::new(config.join_burst, config.join_interval),
            join_by_lobby_name: Allowances::new(config.join_burst, config.join_interval),
            auth_fail_by_addr: Allowances::new(
                config.auth_fail_burst_per_addr,
                config.auth_fail_interval,
            ),
            auth_fail_by_lobby_name: Allowances::new(
                config.auth_fail_burst,
                config.auth_fail_interval,
            ),
        }
    }

    pub open spec fn pruned(self, now: Time) -> GateView {
        GateView {
            join_by_addr: self.join_by_addr.pruned(now),
            join_by_lobby_name: self.join_by_lobby_name.pruned(now),
            auth_fail_by_addr: self.auth_fail_by_addr.pruned(now),
            auth_fail_by_lobby_name: self.auth_fail_by_lobby_name.pruned(now),
        }
    }

    /// Whether someone has guessed too often, by address or by account.
    pub open spec fn guessed_out(self, s: SessionView, now: Time) -> bool {
        ||| !may(self.auth_fail_by_addr, guesser(s), now)
        ||| !may(self.auth_fail_by_lobby_name, lobby_key(s), now)
    }

    /// Whether someone has joined too often, by address or by account.
    pub open spec fn joined_out(self, s: SessionView, now: Time) -> bool {
        ||| !self.join_by_addr.may_spend(s.addr, now)
        ||| !may(self.join_by_lobby_name, lobby_key(s), now)
    }

    /// What is decided of an input. Only credentials are ever refused, before
    /// the password is hashed and before a client is numbered, so a refused
    /// peer costs nothing but the handshake. Before the first tick no
    /// allowance has been spent and there is nothing to hold anyone to.
    pub open spec fn decision(
        self,
        phase: Phase,
        input: InputView,
        sessions: Seq<(PeerID, SessionView)>,
        now: Option<Time>,
    ) -> Decision {
        match (asks_in(input, sessions), now) {
            (Some(s), Some(now)) => if self.guessed_out(s, now) {
                Decision::Refuse { reason: DisconnectReason::Banned, cause: PASSWORD_FAILURES }
            } else if (phase == Phase::InGame || phase == Phase::PostGame) && self.joined_out(
                s,
                now,
            ) {
                Decision::Refuse { reason: DisconnectReason::Refused, cause: JOIN_RATE }
            } else {
                Decision::Pass
            },
            _ => Decision::Pass,
        }
    }

    /// [`Gate`] once an input has been checked: a tick forgets what is full
    /// again, and asking brings up to date what was asked.
    pub open spec fn checked(
        self,
        phase: Phase,
        input: InputView,
        sessions: Seq<(PeerID, SessionView)>,
        now: Option<Time>,
    ) -> GateView {
        match input {
            InputView::Tick { now, .. } => self.pruned(now),
            _ => match (asks_in(input, sessions), now) {
                (Some(s), Some(now)) => {
                    let guesses = GateView {
                        auth_fail_by_addr: asking(self.auth_fail_by_addr, guesser(s), now),
                        auth_fail_by_lobby_name: asking(
                            self.auth_fail_by_lobby_name,
                            lobby_key(s),
                            now,
                        ),
                        ..self
                    };
                    if self.guessed_out(s, now) || !(phase == Phase::InGame || phase
                        == Phase::PostGame) {
                        guesses
                    } else {
                        GateView {
                            join_by_addr: self.join_by_addr.asked(s.addr, now),
                            join_by_lobby_name: asking(
                                self.join_by_lobby_name,
                                lobby_key(s),
                                now,
                            ),
                            ..guesses
                        }
                    }
                },
                _ => self,
            },
        }
    }

    /// What an effect is charged for: a rejoin to whoever was let in, a wrong
    /// password to whoever gave it.
    pub open spec fn charged(
        self,
        effect: EffectView,
        sessions: Seq<(PeerID, SessionView)>,
        now: Time,
    ) -> GateView {
        match effect {
            EffectView::Send { peer, msg: WireMessageView::AuthenticateResult(result) } => match (
                result.code,
                table::lookup(sessions, peer),
            ) {
                (AuthenticateResultCode::OkRejoining, Some(s)) => GateView {
                    join_by_addr: self.join_by_addr.spent(s.addr, now),
                    join_by_lobby_name: spending(self.join_by_lobby_name, lobby_key(s), now),
                    ..self
                },
                _ => self,
            },
            EffectView::PasswordRejected { peer } => match table::lookup(sessions, peer) {
                Some(s) => GateView {
                    auth_fail_by_addr: spending(self.auth_fail_by_addr, guesser(s), now),
                    auth_fail_by_lobby_name: spending(
                        self.auth_fail_by_lobby_name,
                        lobby_key(s),
                        now,
                    ),
                    ..self
                },
                None => self,
            },
            _ => self,
        }
    }

    pub open spec fn all_charged(
        self,
        effects: Seq<EffectView>,
        sessions: Seq<(PeerID, SessionView)>,
        now: Time,
    ) -> GateView
        decreases effects.len(),
    {
        if effects.len() == 0 {
            self
        } else {
            self.all_charged(effects.drop_last(), sessions, now).charged(
                effects.last(),
                sessions,
                now,
            )
        }
    }

    /// Someone at loopback is never charged for a wrong password, and so never
    /// kept out by the address they come from.
    pub proof fn loopback_may_guess(
        self,
        effects: Seq<EffectView>,
        sessions: Seq<(PeerID, SessionView)>,
        now: Time,
    )
        requires
            forall|i: int, peer: PeerID|
                0 <= i < effects.len() && #[trigger] effects[i] == (EffectView::PasswordRejected {
                    peer,
                }) ==> (#[trigger] table::lookup(sessions, peer) matches Some(s)
                    ==> s.addr.loopback()),
        ensures
            self.all_charged(effects, sessions, now).auth_fail_by_addr == self.auth_fail_by_addr,
            forall|s: SessionView|
                s.addr.loopback() ==> may(self.auth_fail_by_addr, #[trigger] guesser(s), now),
        decreases effects.len(),
    {
        if effects.len() > 0 {
            let before = effects.drop_last();
            assert forall|i: int, peer: PeerID|
                0 <= i < before.len() && #[trigger] before[i] == (EffectView::PasswordRejected {
                    peer,
                }) implies (#[trigger] table::lookup(sessions, peer) matches Some(s)
                ==> s.addr.loopback()) by {
                assert(effects[i] == before[i]);
            }
            self.loopback_may_guess(before, sessions, now);
            let last = effects.last();
            if let EffectView::PasswordRejected { peer } = last {
                assert(effects[effects.len() - 1] == (EffectView::PasswordRejected { peer }));
                assert(table::lookup(sessions, peer) matches Some(s) ==> s.addr.loopback());
            }
        }
    }

    /// Whoever has given as many wrong passwords as the burst allows is
    /// refused, whatever the phase and whatever credentials they send, until
    /// an interval has passed.
    pub proof fn guessing_is_cut_off(
        self,
        peer: PeerID,
        s: SessionView,
        sessions: Seq<(PeerID, SessionView)>,
        phase: Phase,
        input: InputView,
        n: nat,
        now: Time,
        later: Time,
    )
        requires
            self.auth_fail_by_addr.interval matches Some(i) && i > 0 && later.instant()
                - now.instant() < clock::ms(i),
            table::lookup(self.auth_fail_by_addr.rows, s.addr) is None,
            table::lookup(sessions, peer) == Some(s),
            !s.addr.loopback(),
            n >= 1,
            n >= self.auth_fail_by_addr.burst,
            asks_in(input, sessions) == Some(s),
        ensures
            self.all_charged(
                Seq::new(n, |i: int| EffectView::PasswordRejected { peer }),
                sessions,
                now,
            ).decision(phase, input, sessions, Some(later)) == (Decision::Refuse {
                reason: DisconnectReason::Banned,
                cause: PASSWORD_FAILURES,
            }),
    {
        self.lemma_guesses(peer, s, sessions, n, now);
        self.auth_fail_by_addr.spending_runs_out(s.addr, now, n, later);
    }

    proof fn lemma_guesses(
        self,
        peer: PeerID,
        s: SessionView,
        sessions: Seq<(PeerID, SessionView)>,
        n: nat,
        now: Time,
    )
        requires
            table::lookup(sessions, peer) == Some(s),
            !s.addr.loopback(),
        ensures
            self.all_charged(
                Seq::new(n, |i: int| EffectView::PasswordRejected { peer }),
                sessions,
                now,
            ).auth_fail_by_addr == self.auth_fail_by_addr.spent_times(s.addr, now, n),
        decreases n,
    {
        let all = Seq::new(n, |i: int| EffectView::PasswordRejected { peer });
        if n > 0 {
            let before = Seq::new(
                (n - 1) as nat,
                |i: int| EffectView::PasswordRejected { peer },
            );
            assert(all.drop_last() =~= before);
            self.lemma_guesses(peer, s, sessions, (n - 1) as nat, now);
        }
    }

    /// Whoever has come back into a running match as often as the burst allows
    /// is kept out of it until an interval has passed.
    pub proof fn rejoining_is_cut_off(
        self,
        peer: PeerID,
        s: SessionView,
        sessions: Seq<(PeerID, SessionView)>,
        phase: Phase,
        input: InputView,
        result: AuthenticateResultView,
        n: nat,
        now: Time,
        later: Time,
    )
        requires
            phase == Phase::InGame || phase == Phase::PostGame,
            result.code == AuthenticateResultCode::OkRejoining,
            self.join_by_addr.interval matches Some(i) && i > 0 && later.instant() - now.instant()
                < clock::ms(i),
            table::lookup(self.join_by_addr.rows, s.addr) is None,
            table::lookup(sessions, peer) == Some(s),
            n >= 1,
            n >= self.join_by_addr.burst,
            asks_in(input, sessions) == Some(s),
        ensures
            self.all_charged(
                Seq::new(n, |i: int| welcomed(peer, result)),
                sessions,
                now,
            ).decision(phase, input, sessions, Some(later)) is Refuse,
    {
        self.lemma_rejoins(peer, s, sessions, result, n, now);
        self.join_by_addr.spending_runs_out(s.addr, now, n, later);
    }

    proof fn lemma_rejoins(
        self,
        peer: PeerID,
        s: SessionView,
        sessions: Seq<(PeerID, SessionView)>,
        result: AuthenticateResultView,
        n: nat,
        now: Time,
    )
        requires
            table::lookup(sessions, peer) == Some(s),
            result.code == AuthenticateResultCode::OkRejoining,
        ensures
            self.all_charged(
                Seq::new(n, |i: int| welcomed(peer, result)),
                sessions,
                now,
            ).join_by_addr == self.join_by_addr.spent_times(s.addr, now, n),
        decreases n,
    {
        let all = Seq::new(n, |i: int| welcomed(peer, result));
        if n > 0 {
            let before = Seq::new((n - 1) as nat, |i: int| welcomed(peer, result));
            assert(all.drop_last() =~= before);
            self.lemma_rejoins(peer, s, sessions, result, (n - 1) as nat, now);
        }
    }

    /// Who has not been charged for anything passes, whatever others did.
    pub proof fn the_uncharged_pass(
        self,
        phase: Phase,
        input: InputView,
        sessions: Seq<(PeerID, SessionView)>,
        now: Time,
        s: SessionView,
    )
        requires
            asks_in(input, sessions) == Some(s),
            table::lookup(self.join_by_addr.rows, s.addr) is None,
            table::lookup(self.auth_fail_by_addr.rows, s.addr) is None,
            s.lobby_name matches Some(name) ==> table::lookup(
                self.join_by_lobby_name.rows,
                utils::lowercase(name),
            ) is None && table::lookup(
                self.auth_fail_by_lobby_name.rows,
                utils::lowercase(name),
            ) is None,
        ensures
            self.decision(phase, input, sessions, Some(now)) == Decision::Pass,
    {
    }

    /// Joins are only counted while a match runs: before one, nobody is ever
    /// refused for joining too often.
    pub proof fn joins_are_free_before_a_match(
        self,
        phase: Phase,
        input: InputView,
        sessions: Seq<(PeerID, SessionView)>,
        now: Option<Time>,
    )
        requires
            phase == Phase::Setup || phase == Phase::Loading,
        ensures
            self.decision(phase, input, sessions, now) != (Decision::Refuse {
                reason: DisconnectReason::Refused,
                cause: JOIN_RATE,
            }),
    {
        if let (Some(s), Some(t)) = (asks_in(input, sessions), now) {
            if self.guessed_out(s, t) {
                assert(DisconnectReason::Banned != DisconnectReason::Refused);
            }
        }
    }
}

fn key_of(s: &Session) -> (r: Option<String>)
    ensures
        utils::seen(r) == lobby_key(s@),
{
    match &s.lobby_name {
        Some(name) => Some(utils::lower_text(name.as_str())),
        None => None,
    }
}

impl Gate {
    pub open spec fn wf(self) -> bool {
        &&& self.join_by_addr.wf()
        &&& self.join_by_lobby_name.wf()
        &&& self.auth_fail_by_addr.wf()
        &&& self.auth_fail_by_lobby_name.wf()
    }

    pub fn new(config: &Config) -> (r: Self)
        ensures
            r@ == GateView::new(*config),
            r.wf(),
    {
        Gate {
            join_by_addr: Ledger::new(config.join_burst, config.join_interval),
            join_by_lobby_name: Ledger::new(config.join_burst, config.join_interval),
            auth_fail_by_addr: Ledger::new(
                config.auth_fail_burst_per_addr,
                config.auth_fail_interval,
            ),
            auth_fail_by_lobby_name: Ledger::new(config.auth_fail_burst, config.auth_fail_interval),
        }
    }

    fn prune(&mut self, now: Time)
        requires
            old(self).wf(),
        ensures
            final(self)@ == old(self)@.pruned(now),
            final(self).wf(),
    {
        self.join_by_addr.prune(now);
        self.join_by_lobby_name.prune(now);
        self.auth_fail_by_addr.prune(now);
        self.auth_fail_by_lobby_name.prune(now);
    }

    fn guessing(&mut self, s: &Session, key: &Option<String>, now: Time) -> (r: bool)
        requires
            old(self).wf(),
            utils::seen(*key) == lobby_key(s@),
        ensures
            r == old(self)@.guessed_out(s@, now),
            final(self)@ == (GateView {
                auth_fail_by_addr: asking(old(self)@.auth_fail_by_addr, guesser(s@), now),
                auth_fail_by_lobby_name: asking(
                    old(self)@.auth_fail_by_lobby_name,
                    lobby_key(s@),
                    now,
                ),
                ..old(self)@
            }),
            final(self).wf(),
    {
        let by_addr = !s.addr.is_loopback() && !self.auth_fail_by_addr.has_token(&s.addr, now);
        let by_name = match key {
            Some(k) => !self.auth_fail_by_lobby_name.has_token(k, now),
            None => false,
        };
        by_addr || by_name
    }

    fn rejoining(&mut self, s: &Session, key: &Option<String>, now: Time) -> (r: bool)
        requires
            old(self).wf(),
            utils::seen(*key) == lobby_key(s@),
        ensures
            r == old(self)@.joined_out(s@, now),
            final(self)@ == (GateView {
                join_by_addr: old(self)@.join_by_addr.asked(s@.addr, now),
                join_by_lobby_name: asking(old(self)@.join_by_lobby_name, lobby_key(s@), now),
                ..old(self)@
            }),
            final(self).wf(),
    {
        let addr_ok = self.join_by_addr.has_token(&s.addr, now);
        let name_ok = match key {
            Some(k) => self.join_by_lobby_name.has_token(k, now),
            None => true,
        };
        !(addr_ok && name_ok)
    }

    /// Whether an input goes through. `now` is none before the first tick.
    pub fn check(
        &mut self,
        phase: Phase,
        input: &Input,
        sessions: &Table<PeerID, Session>,
        now: Option<Time>,
    ) -> (r: Decision)
        requires
            old(self).wf(),
        ensures
            r == old(self)@.decision(phase, input@, sessions@, now),
            final(self)@ == old(self)@.checked(phase, input@, sessions@, now),
            final(self).wf(),
    {
        match input {
            Input::Tick { now, .. } => {
                self.prune(*now);
                Decision::Pass
            },
            Input::Received { peer, msg: WireMessage::Authenticate(_) } => {
                let now = match now {
                    Some(now) => now,
                    None => return Decision::Pass,
                };
                let session = match sessions.get(peer) {
                    Some(session) => session,
                    None => return Decision::Pass,
                };
                if session.admitted.is_some() {
                    return Decision::Pass;
                }
                let key = key_of(session);
                if self.guessing(session, &key, now) {
                    return Decision::Refuse {
                        reason: DisconnectReason::Banned,
                        cause: PASSWORD_FAILURES,
                    };
                }
                if !matches!(phase, Phase::InGame | Phase::PostGame) {
                    return Decision::Pass;
                }
                if self.rejoining(session, &key, now) {
                    Decision::Refuse { reason: DisconnectReason::Refused, cause: JOIN_RATE }
                } else {
                    Decision::Pass
                }
            },
            _ => Decision::Pass,
        }
    }

    fn charge_join(&mut self, s: &Session, now: Time)
        requires
            old(self).wf(),
        ensures
            final(self)@ == (GateView {
                join_by_addr: old(self)@.join_by_addr.spent(s@.addr, now),
                join_by_lobby_name: spending(old(self)@.join_by_lobby_name, lobby_key(s@), now),
                ..old(self)@
            }),
            final(self).wf(),
    {
        self.join_by_addr.spend(s.addr, now);
        if let Some(key) = key_of(s) {
            self.join_by_lobby_name.spend(key, now);
        }
    }

    fn charge_guess(&mut self, s: &Session, now: Time)
        requires
            old(self).wf(),
        ensures
            final(self)@ == (GateView {
                auth_fail_by_addr: spending(old(self)@.auth_fail_by_addr, guesser(s@), now),
                auth_fail_by_lobby_name: spending(
                    old(self)@.auth_fail_by_lobby_name,
                    lobby_key(s@),
                    now,
                ),
                ..old(self)@
            }),
            final(self).wf(),
    {
        if !s.addr.is_loopback() {
            self.auth_fail_by_addr.spend(s.addr, now);
        }
        if let Some(key) = key_of(s) {
            self.auth_fail_by_lobby_name.spend(key, now);
        }
    }

    fn charge(&mut self, effect: &Effect, sessions: &Table<PeerID, Session>, now: Time)
        requires
            old(self).wf(),
        ensures
            final(self)@ == old(self)@.charged(effect@, sessions@, now),
            final(self).wf(),
    {
        match effect {
            Effect::Send { peer, msg: WireMessage::AuthenticateResult(result) } => {
                if let AuthenticateResultCode::OkRejoining = result.code {
                    if let Some(session) = sessions.get(peer) {
                        self.charge_join(session, now);
                    }
                }
            },
            Effect::PasswordRejected { peer } => {
                if let Some(session) = sessions.get(peer) {
                    self.charge_guess(session, now);
                }
            },
            _ => {},
        }
    }

    /// Takes note of what came of the input just checked.
    pub fn observe(
        &mut self,
        effects: &Vec<Effect>,
        sessions: &Table<PeerID, Session>,
        now: Option<Time>,
    )
        requires
            old(self).wf(),
        ensures
            final(self)@ == match now {
                Some(now) => old(self)@.all_charged(items::views(effects@), sessions@, now),
                None => old(self)@,
            },
            final(self).wf(),
    {
        let now = match now {
            Some(now) => now,
            None => return ,
        };
        let ghost before = self@;
        let ghost all = items::views(effects@);
        let mut i: usize = 0;
        assert(all.take(0) =~= Seq::empty());
        while i < effects.len()
            invariant
                self.wf(),
                all == items::views(effects@),
                i <= effects@.len(),
                self@ == before.all_charged(all.take(i as int), sessions@, now),
            decreases effects@.len() - i,
        {
            proof {
                assert(all.take(i + 1).drop_last() =~= all.take(i as int));
                assert(all.take(i + 1).last() == effects@[i as int]@);
            }
            self.charge(&effects[i], sessions, now);
            i += 1;
        }
        assert(all.take(i as int) =~= all);
    }
}

} // verus!
