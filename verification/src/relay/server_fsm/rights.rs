//! Who may do what in a match.

use vstd::prelude::*;

use crate::network_message::Ipv4Addr;
use crate::network_message::PeerID;
use crate::relay::auth;
use crate::relay::messages::AuthenticateView;
use crate::relay::messages::ChatView;
use crate::relay::messages::FlareView;
use crate::relay::messages::KickedView;
use crate::relay::messages::PlayerCommandView;
use crate::relay::messages::WireMessageView;
use crate::relay::server_fsm::admission;
use crate::relay::server_fsm::admission::AuthVerdictView;
use crate::relay::server_fsm::context;
use crate::relay::server_fsm::context::Audience;
use crate::relay::server_fsm::context::Ctx;
use crate::relay::server_fsm::event::EffectView;
use crate::relay::server_fsm::event::Phase;
use crate::relay::server_fsm::phases::AnyView;
use crate::relay::server_fsm::reason::DisconnectReason;
use crate::relay::server_fsm::settings::Frozen;
use crate::relay::server_fsm::InputView;
use crate::relay::session::SessionView;
use crate::table;

verus! {

/// Whether an effect is a chat line or a flare in someone's name.
pub open spec fn speaks_as(effect: EffectView, uuid: Seq<char>) -> bool {
    match effect {
        EffectView::Send { msg: WireMessageView::Chat(c), .. } => c.sender_guid == uuid,
        EffectView::Send { msg: WireMessageView::Flare(f), .. } => f.guid == uuid,
        _ => false,
    }
}

impl Ctx {
    /// Whoever is let in was connected, had an identity and was not in yet;
    /// the match was neither loading nor over; the name is free, not banned
    /// and not kept for the relay. And the password was right and the lobby
    /// agreed, unless it is the AI host this very match has started, which
    /// comes from this machine and under the name it was given.
    pub proof fn only_the_entitled_get_in(self, phase: Phase, peer: PeerID, m: AuthenticateView)
        ensures
            self.verdict(
                phase,
                peer,
                m,
                self.lobby_right(peer, m),
                self.password_right(m),
            ) matches AuthVerdictView::Admit { uuid, name, joining, ai_host } ==> {
                &&& table::lookup(self.sessions, peer) matches Some(s)
                &&& s.uuid == Some(uuid)
                &&& s.admitted is None
                &&& phase == Phase::Setup || phase == Phase::InGame
                &&& joining == (phase == Phase::InGame)
                &&& !admission::admitted_names(self.sessions).contains(name)
                &&& !self.banned_names.contains(self.ban_key(name))
                &&& !auth::is_reserved(auth::sanitized(m.name))
                &&& if ai_host {
                    &&& s.addr.loopback()
                    &&& self.ai_host is Some
                    &&& self.ai_peer() is None
                    &&& m.name == self.ai_host_name
                } else {
                    &&& self.password_right(m)
                    &&& self.config.lobby_mode ==> self.lobby_right(peer, m)
                }
            },
    {
        reveal(Ctx::verdict);
        auth::found_names(
            auth::sanitized(m.name),
            admission::admitted_names(self.sessions),
        );
    }

    /// A wrong password admits nobody: no session changes, no number is given
    /// out, and nobody becomes controller.
    pub proof fn wrong_passwords_let_nobody_in(
        self,
        phase: Phase,
        settings: Option<Frozen>,
        peer: PeerID,
        m: AuthenticateView,
    )
        requires
            !self.password_right(m),
            table::lookup(self.sessions, peer) matches Some(s) ==> !self.claims_ai_host(s, m.name),
        ensures
            ({
                let later = self.authenticated(phase, settings, peer, m);
                &&& later.sessions == self.sessions
                &&& later.controller == self.controller
                &&& later.next_client_id == self.next_client_id
            }),
    {
        reveal(Ctx::authenticated);
        reveal(Ctx::verdict);
        reveal(Ctx::dropped);
        reveal(Ctx::slots_told);
        reveal(Ctx::listed);
    }

    /// A banned address gets no session and no handshake.
    pub proof fn banned_addresses_are_turned_away(self, peer: PeerID, addr: Ipv4Addr)
        requires
            self.banned_ips.contains(addr),
        ensures
            self.connected(peer, addr) == self.doing(
                EffectView::Disconnect { peer, reason: DisconnectReason::Banned },
            ),
    {
        reveal(Ctx::connected);
    }

    /// A ban is by name and by address at once.
    pub proof fn bans_take_name_and_address(
        self,
        phase: Phase,
        peer: PeerID,
        m: KickedView,
        target: PeerID,
        s: SessionView,
    )
        requires
            self.controlled_by(peer) is Ok,
            m.ban,
            context::session_named(self.sessions, m.name) == Some((target, s)),
            table::lookup(self.sessions, target) == Some(s),
            target != peer,
            !self.is_ai_host(target),
        ensures
            ({
                let later = self.kicked(phase, peer, m);
                &&& later.banned_names.contains(self.ban_key(m.name))
                &&& later.banned_ips.contains(s.addr)
            }),
    {
        reveal(Ctx::kicked);
        reveal(Ctx::dropped);
        reveal(Ctx::slots_told);
        reveal(Ctx::listed);
        let marked = self.banned(target, m);
        lemma_member(self.banned_names, self.ban_key(m.name));
        lemma_member(self.banned_ips, s.addr);
        assert(marked.banned_names.contains(self.ban_key(m.name)));
        assert(marked.banned_ips.contains(s.addr));
    }

    /// Nobody but the controller can change the setup of a match, start it or
    /// remove anyone: from anyone else all of it is ignored.
    pub proof fn only_the_controller_rules(
        self,
        phase: Phase,
        peer: PeerID,
        msg: WireMessageView,
        kick: KickedView,
        start: Seq<u8>,
    )
        requires
            self.controlled_by(peer) is Err,
            !(msg is PreGameStatus),
        ensures
            self.setup_message(phase, peer, msg) == self,
            self.kicked(phase, peer, kick) == self,
            self.start_asked(phase, peer, start) == self,
    {
        reveal(Ctx::unreadied);
        reveal(Ctx::reconfigured);
        reveal(Ctx::assigned);
        reveal(Ctx::kicked);
    }

    /// Not even the controller can remove itself or the AI host.
    pub proof fn some_are_never_kicked(
        self,
        phase: Phase,
        peer: PeerID,
        m: KickedView,
        target: PeerID,
        s: SessionView,
    )
        requires
            context::session_named(self.sessions, m.name) == Some((target, s)),
            target == peer || self.is_ai_host(target),
        ensures
            self.kicked(phase, peer, m) == self,
    {
        reveal(Ctx::kicked);
    }

    /// Whatever identity a chat line or a flare claims, what is relayed carries
    /// the sender's own.
    pub proof fn nobody_speaks_as_another(self, peer: PeerID, m: ChatView, f: FlareView)
        ensures
            ({
                let later = self.chatted(peer, m);
                forall|i: int|
                    self.effects.len() <= i < later.effects.len() ==> (self.uuid_of(
                        peer,
                    ) matches Some(uuid) && speaks_as(#[trigger] later.effects[i], uuid))
            }),
            ({
                let later = self.flared(peer, f);
                forall|i: int|
                    self.effects.len() <= i < later.effects.len() ==> (self.uuid_of(
                        peer,
                    ) matches Some(uuid) && speaks_as(#[trigger] later.effects[i], uuid))
            }),
    {
        reveal(Ctx::chatted);
        reveal(Ctx::flared);
    }

    /// A command is relayed unchanged to everyone who sees the match as it is
    /// played, its sender among them, and kept for those who come later.
    pub proof fn commands_come_back(
        self,
        settings: Frozen,
        peer: PeerID,
        uuid: Seq<char>,
        m: PlayerCommandView,
    )
        requires
            self.speaker(peer, Audience::InGame) == Ok::<
                Seq<char>,
                crate::relay::fault::PeerFault,
            >(uuid),
            self.may_command(settings, peer, uuid, m.player),
        ensures
            ({
                let later = self.commanded(settings, peer, m);
                &&& later.log.commands == self.log.commands.push(m)
                &&& later.effects == self.effects + context::sends(
                    self.live_peers(),
                    WireMessageView::PlayerCommand(m),
                )
                &&& self.turns.is_delayed(peer) || self.live_peers().contains(peer)
            }),
    {
        reveal(Ctx::commanded);
        if !self.turns.is_delayed(peer) {
            let live = |row: (PeerID, SessionView)|
                row.1.is_in_game() && !self.turns.is_delayed(row.0);
            table::lemma_index_of(self.sessions, peer);
            let at = table::index_of(self.sessions, peer)->0;
            let row = self.sessions[at];
            let rows = self.sessions.filter(live);
            broadcast use vstd::seq_lib::group_filter_ensures;
            assert(live(row));
            assert(self.sessions.contains(row));
            assert(rows.contains(row));
            let i = choose|i: int| 0 <= i < rows.len() && rows[i] == row;
            assert(self.live_peers()[i] == peer);
        }
    }

    /// Without cheats nobody commands a player that is neither their own nor,
    /// for the AI host, one it plays: such a command is lost without a trace.
    pub proof fn only_own_players_are_commanded(
        self,
        settings: Frozen,
        peer: PeerID,
        uuid: Seq<char>,
        m: PlayerCommandView,
    )
        requires
            !settings.cheats_enabled,
            self.uuid_of(peer) == Some(uuid),
            !self.speaks_for_self(uuid, m.player),
            !self.speaks_for_ai(peer, m.player),
        ensures
            self.commanded(settings, peer, m) == self,
    {
        reveal(Ctx::commanded);
    }

    /// Nobody resigns for another, cheats or not.
    pub proof fn only_own_players_resign(
        self,
        settings: Frozen,
        peer: PeerID,
        uuid: Seq<char>,
        m: PlayerCommandView,
    )
        requires
            self.uuid_of(peer) == Some(uuid),
            !self.speaks_for_self(uuid, m.player),
            !self.speaks_for_ai(peer, m.player),
        ensures
            self.commanded(settings, peer, m).resigned == self.resigned,
    {
        reveal(Ctx::commanded);
    }

    /// A pause by someone who plays nobody charges nothing and reaches nobody
    /// else.
    pub proof fn observers_cannot_pause(self, peer: PeerID, uuid: Seq<char>)
        requires
            self.speaker(peer, Audience::InGame) == Ok::<
                Seq<char>,
                crate::relay::fault::PeerFault,
            >(uuid),
            !self.owns_player(uuid),
        ensures
            ({
                let later = self.pause_asked(peer, true);
                &&& later.pause_budget == self.pause_budget
                &&& forall|i: int|
                    self.effects.len() <= i < later.effects.len() ==> (
                    #[trigger] later.effects[i] matches EffectView::Send { peer: to, .. } && to
                        == peer)
            }),
    {
        reveal(Ctx::pause_asked);
        reveal(Ctx::said);
    }
}

impl AnyView {
    /// As long as an address is banned, whoever connects from it is dropped
    /// before anything else is done and gets no session, in every phase.
    pub proof fn the_banned_stay_out(
        self,
        peer: PeerID,
        addr: Ipv4Addr,
        issued: Option<Seq<char>>,
    )
        requires
            self.ctx().banned_ips.contains(addr),
        ensures
            self.handled(InputView::Connected { peer, addr }, issued).ctx().sessions
                == self.ctx().sessions,
            !(self is Idle) ==> {
                let done = self.handled(InputView::Connected { peer, addr }, issued).ctx().effects;
                let n = self.ctx().effects.len() as int;
                n < done.len() && done[n] == (EffectView::Disconnect {
                    peer,
                    reason: DisconnectReason::Banned,
                })
            },
    {
        reveal(Ctx::common_input);
        reveal(Ctx::connected);
        reveal(Ctx::ended);
        reveal(Ctx::said);
        reveal(Ctx::checkpointing);
    }
}

proof fn lemma_member<A>(s: Seq<A>, x: A)
    ensures
        crate::utils::with_member(s, x).contains(x),
{
    if !s.contains(x) {
        assert(s.push(x)[s.len() as int] == x);
    }
}

} // verus!
