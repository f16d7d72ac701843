//! Everything a server knows, whatever phase it is in, and what all phases do
//! with it.

use vstd::prelude::*;

use crate::clock::Time;
use crate::lobby::link;
use crate::lobby::link::LobbyMap;
use crate::lobby::link::LobbyMapView;
use crate::network_message::Ipv4Addr;
use crate::network_message::PeerID;
use crate::relay::auth;
use crate::relay::fault::PeerFault;
use crate::relay::gamestate_transfer::Transfers;
use crate::relay::gamestate_transfer::TransfersView;
use crate::relay::messages::chat::ChatView;
use crate::relay::messages::host::HostView;
use crate::relay::messages::items;
use crate::relay::messages::player_slots::PlayerSlotsView;
use crate::relay::messages::Chat;
use crate::relay::messages::Guid;
use crate::relay::messages::Host;
use crate::relay::messages::WireMessage;
use crate::relay::messages::WireMessageView;
use crate::relay::monitor;
use crate::relay::monitor::Monitor;
use crate::relay::observer_feed::Feed;
use crate::relay::observer_feed::ObserverFeed;
use crate::relay::pause_budget;
use crate::relay::pause_budget::PauseBudget;
use crate::relay::pause_budget::Quotas;
use crate::relay::server_fsm::config::Config;
use crate::relay::server_fsm::event::Effect;
use crate::relay::server_fsm::event::EffectView;
use crate::relay::server_fsm::event::Phase;
use crate::relay::server_fsm::reason::DisconnectReason;
use crate::relay::session::Session;
use crate::relay::session::SessionView;
use crate::relay::slots;
use crate::relay::slots::SlotView;
use crate::relay::slots::Slots;
use crate::relay::slots::STATUS_NOT_READY;
use crate::relay::slots::UNASSIGNED;
use crate::relay::turn::Log;
use crate::relay::turn::MatchLog;
use crate::relay::turn::TurnManager;
use crate::relay::turn::Turns;
use crate::sidecar::BaseState;
use crate::sidecar::BaseStateView;
use crate::table;
use crate::table::Table;
use crate::utils;

verus! {

/// Everything a server knows, whatever phase it is in.
#[derive(Debug)]
pub struct Context {
    pub config: Config,
    /// In the order in which they connected.
    pub sessions: Table<PeerID, Session>,
    pub slots: Slots,
    pub controller: Option<Guid>,
    /// The relay's own identity as a chat sender. Issued once per game and
    /// never reused for a session, so it names the server and nothing else.
    pub server_uuid: Guid,
    pub next_client_id: u16,
    pub banned_ips: Vec<Ipv4Addr>,
    pub banned_names: Vec<String>,
    /// Players whose leaving the match does not wait for, because they were
    /// removed on purpose and are not coming back.
    pub forfeited: Vec<Guid>,
    pub resigned: Vec<i32>,
    pub transfers: Transfers,
    pub monitor: Monitor,
    pub pause_budget: PauseBudget,
    pub turns: TurnManager,
    pub log: MatchLog,
    pub feed: ObserverFeed,
    /// The one state dump under way, if any. One run at a time bounds how many
    /// engine processes a game can accumulate, and joiners asking together
    /// share its cost.
    pub dump: Option<PendingDump>,
    pub next_dump_id: u32,
    pub checkpoints: CheckpointChain,
    /// Set on the first tick.
    pub created_at: Option<Time>,
    /// Set only once the game has held a player and lost every one again.
    pub empty_since: Option<Time>,
    /// The name the AI host authenticates under. Only honoured from loopback
    /// while an AI host is expected, so a remote client that copies it off the
    /// slot list gains nothing.
    pub ai_host_name: String,
    /// Present from the moment a start with AI slots is requested until the AI
    /// host is gone.
    pub ai_host: Option<AiHost>,
    /// The controller's latest settings, decoded for the lobby listing. None
    /// until the controller has sent any; what does not decode keeps whatever
    /// was last decoded.
    pub lobby_map: Option<LobbyMap>,
    pub effects: Vec<Effect>,
}

#[derive(Debug)]
pub struct AiHost {
    /// None until it is admitted.
    pub peer: Option<PeerID>,
    /// The AI players it may send commands for.
    pub players: Vec<i32>,
}

/// What [`AiHost`] is.
pub struct AiHostView {
    pub peer: Option<PeerID>,
    pub players: Seq<i32>,
}

impl View for AiHost {
    type V = AiHostView;

    open spec fn view(&self) -> AiHostView {
        AiHostView { peer: self.peer, players: self.players@ }
    }
}

/// The one state dump under way: the turn it rebuilds and every joiner waiting
/// on it. Joiners asking while it runs attach to it whatever turn they asked
/// for, instead of starting a second engine process.
#[derive(Debug)]
pub struct PendingDump {
    pub id: u32,
    pub turn: u32,
    pub waiting: Vec<PeerID>,
}

/// What [`PendingDump`] is.
pub struct PendingDumpView {
    pub id: u32,
    pub turn: u32,
    pub waiting: Seq<PeerID>,
}

impl View for PendingDump {
    type V = PendingDumpView;

    open spec fn view(&self) -> PendingDumpView {
        PendingDumpView { id: self.id, turn: self.turn, waiting: self.waiting@ }
    }
}

#[derive(Debug, Clone, Copy, PartialEq, Eq, Structural)]
pub struct PendingCheckpoint {
    pub id: u32,
    pub turn: u32,
    pub from_scratch: bool,
}

/// Two failures in a row are not a one-off: a run that times out on a loaded
/// host has already been retried once from the same base.
pub const CHECKPOINT_FAILURE_LIMIT: u8 = 2;

/// The rolling checkpoint chain: the states already built, ascending by turn,
/// and the one run that extends it, if any. Only the newest state at or before
/// the delayed feed and the ones after it are kept, since nothing ever asks
/// for an older one.
#[derive(Debug)]
pub struct CheckpointChain {
    pub states: Vec<BaseState>,
    pub pending: Option<PendingCheckpoint>,
    pub next_id: u32,
    /// Failed runs in a row that resumed from a checkpoint. A bad state would
    /// fail every run after it, so enough of them drop the chain and the next
    /// run starts over from the beginning.
    pub failures: u8,
    /// Set when a run from the beginning fails. It would fail again at the
    /// next interval, paying for the whole match every time, so the match goes
    /// without checkpoints instead.
    pub disabled: bool,
    /// Set while the match is held for an absent player: the turn is frozen,
    /// so a run now lands on exactly the state the returning player needs.
    pub prefetch: bool,
    /// Set when something suggests the match may just have been decided: a
    /// player resigned or left. The next run is due once the ready turn has
    /// passed this turn, rather than at the next interval.
    pub probe: Option<u32>,
}

/// What [`CheckpointChain`] is.
pub struct Chain {
    pub states: Seq<BaseStateView>,
    pub pending: Option<PendingCheckpoint>,
    pub next_id: u32,
    pub failures: u8,
    pub disabled: bool,
    pub prefetch: bool,
    pub probe: Option<u32>,
}

impl View for CheckpointChain {
    type V = Chain;

    open spec fn view(&self) -> Chain {
        Chain {
            states: items::views(self.states@),
            pending: self.pending,
            next_id: self.next_id,
            failures: self.failures,
            disabled: self.disabled,
            prefetch: self.prefetch,
            probe: self.probe,
        }
    }
}

/// The newest of these states that is not past the turn.
pub open spec fn newest_at(states: Seq<BaseStateView>, turn: u32) -> Option<BaseStateView>
    decreases states.len(),
{
    if states.len() == 0 {
        None
    } else if states.last().turn <= turn {
        Some(states.last())
    } else {
        newest_at(states.drop_last(), turn)
    }
}

impl Chain {
    pub open spec fn new() -> Chain {
        Chain {
            states: Seq::empty(),
            pending: None,
            next_id: 0,
            failures: 0,
            disabled: false,
            prefetch: false,
            probe: None,
        }
    }

    /// The earliest hint wins, so a later one cannot push back a check that is
    /// already due.
    pub open spec fn probed(self, turn: u32) -> Chain {
        Chain {
            probe: match self.probe {
                Some(p) if p < turn => Some(p),
                _ => Some(turn),
            },
            ..self
        }
    }
}

impl CheckpointChain {
    pub fn new() -> (r: Self)
        ensures
            r@ == Chain::new(),
    {
        let r = CheckpointChain {
            states: Vec::new(),
            pending: None,
            next_id: 0,
            failures: 0,
            disabled: false,
            prefetch: false,
            probe: None,
        };
        assert(items::views(r.states@) =~= Seq::empty());
        r
    }

    pub fn at_or_before(&self, turn: u32) -> (r: Option<&BaseState>)
        ensures
            match r {
                Some(b) => newest_at(self@.states, turn) == Some(b@),
                None => newest_at(self@.states, turn) is None,
            },
    {
        let ghost all = self@.states;
        let mut i: usize = self.states.len();
        assert(all.take(all.len() as int) =~= all);
        while i > 0
            invariant
                all == self@.states,
                i <= self.states@.len(),
                newest_at(all, turn) == newest_at(all.take(i as int), turn),
            decreases i,
        {
            proof {
                assert(all.take(i as int).last() == self.states@[i - 1]@);
                assert(all.take(i as int).drop_last() =~= all.take(i - 1));
            }
            if self.states[i - 1].turn <= turn {
                return Some(&self.states[i - 1]);
            }
            i -= 1;
        }
        None
    }

    pub fn probe_at(&mut self, turn: u32)
        ensures
            final(self)@ == old(self)@.probed(turn),
    {
        self.probe = match self.probe {
            Some(p) if p < turn => Some(p),
            _ => Some(turn),
        };
    }
}

/// What [`Context`] is.
pub struct Ctx {
    pub config: Config,
    pub sessions: Seq<(PeerID, SessionView)>,
    pub slots: Seq<(Seq<char>, SlotView)>,
    pub controller: Option<Seq<char>>,
    pub server_uuid: Seq<char>,
    pub next_client_id: u16,
    pub banned_ips: Seq<Ipv4Addr>,
    pub banned_names: Seq<Seq<char>>,
    pub forfeited: Seq<Seq<char>>,
    pub resigned: Seq<i32>,
    pub transfers: TransfersView,
    pub monitor: Monitor,
    pub pause_budget: Quotas,
    pub turns: Turns,
    pub log: Log,
    pub feed: Feed,
    pub dump: Option<PendingDumpView>,
    pub next_dump_id: u32,
    pub checkpoints: Chain,
    pub created_at: Option<Time>,
    pub empty_since: Option<Time>,
    pub ai_host_name: Seq<char>,
    pub ai_host: Option<AiHostView>,
    pub lobby_map: Option<LobbyMapView>,
    pub effects: Seq<EffectView>,
}

impl View for Context {
    type V = Ctx;

    open spec fn view(&self) -> Ctx {
        Ctx {
            config: self.config,
            sessions: self.sessions@,
            slots: self.slots@,
            controller: utils::seen(self.controller),
            server_uuid: self.server_uuid@,
            next_client_id: self.next_client_id,
            banned_ips: self.banned_ips@,
            banned_names: items::views(self.banned_names@),
            forfeited: items::views(self.forfeited@),
            resigned: self.resigned@,
            transfers: self.transfers@,
            monitor: self.monitor,
            pause_budget: self.pause_budget@,
            turns: self.turns@,
            log: self.log@,
            feed: self.feed@,
            dump: utils::seen(self.dump),
            next_dump_id: self.next_dump_id,
            checkpoints: self.checkpoints@,
            created_at: self.created_at,
            empty_since: self.empty_since,
            ai_host_name: self.ai_host_name@,
            ai_host: utils::seen(self.ai_host),
            lobby_map: utils::seen(self.lobby_map),
            effects: items::views(self.effects@),
        }
    }
}

/// Who is told something.
#[derive(Debug, Clone, Copy, PartialEq, Eq, Structural)]
pub enum Audience {
    /// Everyone taking part, whichever phase they are in.
    Admitted,
    Setup,
    InGame,
    /// Everyone but joiners still fetching their snapshot.
    SetupOrInGame,
}

impl Audience {
    pub open spec fn hears(self, s: SessionView) -> bool {
        match self {
            Audience::Admitted => s.admitted is Some,
            Audience::Setup => s.is_setup(),
            Audience::InGame => s.is_in_game(),
            Audience::SetupOrInGame => s.is_setup() || s.is_in_game(),
        }
    }

    pub fn includes(self, s: &Session) -> (r: bool)
        ensures
            r == self.hears(s@),
    {
        match self {
            Audience::Admitted => s.admitted.is_some(),
            Audience::Setup => s.is_setup(),
            Audience::InGame => s.is_in_game(),
            Audience::SetupOrInGame => s.is_setup() || s.is_in_game(),
        }
    }
}

/// The peers of an audience, without one where given.
pub open spec fn hearing(
    sessions: Seq<(PeerID, SessionView)>,
    who: Audience,
    except: Option<PeerID>,
) -> Seq<PeerID> {
    sessions.filter(
        |row: (PeerID, SessionView)| except != Some(row.0) && who.hears(row.1),
    ).map_values(|row: (PeerID, SessionView)| row.0)
}

/// One message to each of these.
pub open spec fn sends(peers: Seq<PeerID>, msg: WireMessageView) -> Seq<EffectView> {
    peers.map_values(|peer: PeerID| EffectView::Send { peer, msg })
}

/// The session with this identity.
pub open spec fn session_with(sessions: Seq<(PeerID, SessionView)>, uuid: Seq<char>) -> Option<
    (PeerID, SessionView),
>
    decreases sessions.len(),
{
    if sessions.len() == 0 {
        None
    } else if sessions[0].1.uuid == Some(uuid) {
        Some(sessions[0])
    } else {
        session_with(sessions.drop_first(), uuid)
    }
}

/// The session admitted under this name.
pub open spec fn session_named(sessions: Seq<(PeerID, SessionView)>, name: Seq<char>) -> Option<
    (PeerID, SessionView),
>
    decreases sessions.len(),
{
    if sessions.len() == 0 {
        None
    } else if sessions[0].1.name() == Some(name) {
        Some(sessions[0])
    } else {
        session_named(sessions.drop_first(), name)
    }
}

impl Ctx {
    /// Everything in it is as it can be.
    pub open spec fn wf(self) -> bool {
        &&& self.config.wf()
        &&& self.transfers.wf()
        &&& self.pause_budget.wf()
        &&& self.turns.wf()
        &&& self.feed.head <= self.turns.ready
        &&& self.checkpoints.failures < CHECKPOINT_FAILURE_LIMIT
    }

    pub open spec fn doing(self, effect: EffectView) -> Ctx {
        Ctx { effects: self.effects.push(effect), ..self }
    }

    pub open spec fn sent(self, peer: PeerID, msg: WireMessageView) -> Ctx {
        self.doing(EffectView::Send { peer, msg })
    }

    pub open spec fn sent_to(self, peers: Seq<PeerID>, msg: WireMessageView) -> Ctx {
        Ctx { effects: self.effects + sends(peers, msg), ..self }
    }

    pub open spec fn broadcast(self, msg: WireMessageView, who: Audience) -> Ctx {
        self.sent_to(hearing(self.sessions, who, None), msg)
    }

    pub open spec fn broadcast_except(
        self,
        except: PeerID,
        msg: WireMessageView,
        who: Audience,
    ) -> Ctx {
        self.sent_to(hearing(self.sessions, who, Some(except)), msg)
    }

    /// The slot list as clients are told it. A client resolves a chat sender's
    /// name out of this list, and faults on a sender it cannot find there, so
    /// the relay has a row of its own at the end; the slot table never holds
    /// it.
    pub open spec fn slot_list(self) -> PlayerSlotsView {
        PlayerSlotsView {
            hosts: slots::listed(self.slots).hosts.push(
                HostView {
                    guid: self.server_uuid,
                    name: auth::display_name(self.config.server_name@),
                    player_id: UNASSIGNED,
                    status: STATUS_NOT_READY,
                },
            ),
        }
    }

    #[verifier::opaque]
    pub open spec fn slots_told(self) -> Ctx {
        self.broadcast(WireMessageView::PlayerSlots(self.slot_list()), Audience::Admitted)
    }

    /// How many players are here, and their names: an observer holds no slot
    /// and is never counted.
    pub open spec fn lobby_counts(self) -> (u32, Seq<char>) {
        let names = slots::player_names(self.slots);
        (names.len() as u32, link::separated(names, ", "@))
    }

    /// The controller's name once one is admitted, else who asked for the
    /// game.
    pub open spec fn lobby_host(self) -> Seq<char> {
        match self.controller {
            Some(c) => match self.name_of(c) {
                Some(name) => name,
                None => self.config.lobby_host_name@,
            },
            None => self.config.lobby_host_name@,
        }
    }

    #[verifier::opaque]
    pub open spec fn listed(self) -> Ctx {
        let (nbp, players) = self.lobby_counts();
        self.doing(
            EffectView::LobbyListing {
                host_username: self.lobby_host(),
                nbp,
                players,
                map: self.lobby_map,
                mods: items::views(self.config.enabled_mods@),
            },
        )
    }

    pub open spec fn chat_line(self, text: Seq<char>) -> WireMessageView {
        WireMessageView::Chat(
            ChatView { sender_guid: self.server_uuid, message: text, receivers: Seq::empty() },
        )
    }

    /// A line in the stock chat box, spoken by the relay itself, to one client
    /// or to everyone admitted. The receiver list is empty exactly as a relayed
    /// copy of player chat is.
    #[verifier::opaque]
    pub open spec fn said(self, to: Option<PeerID>, text: Seq<char>) -> Ctx {
        match to {
            Some(peer) => self.sent(peer, self.chat_line(text)),
            None => self.broadcast(self.chat_line(text), Audience::Admitted),
        }
    }

    /// The updated slot list goes out before the peer is dropped, so the
    /// departing client still sees itself leave.
    #[verifier::opaque]
    pub open spec fn dropped(self, peer: PeerID, reason: DisconnectReason) -> Ctx {
        let before = match table::lookup(self.sessions, peer) {
            Some(s) if s.admitted is Some => {
                let marked = match s.uuid {
                    Some(uuid) => Ctx {
                        slots: slots::with_departure(self.slots, uuid),
                        ..self
                    },
                    None => self,
                };
                marked.slots_told()
            },
            _ => self,
        };
        before.doing(EffectView::Disconnect { peer, reason })
    }

    /// A listing rides along whenever the slot table changes during setup.
    pub open spec fn listed_in(self, phase: Phase) -> Ctx {
        if phase == Phase::Setup {
            self.listed()
        } else {
            self
        }
    }

    pub open spec fn slots_told_in(self, phase: Phase) -> Ctx {
        self.slots_told().listed_in(phase)
    }

    pub open spec fn dropped_in(self, phase: Phase, peer: PeerID, reason: DisconnectReason) -> Ctx {
        self.dropped(peer, reason).listed_in(phase)
    }

    pub open spec fn faulted(self, peer: PeerID, fault: PeerFault) -> Ctx {
        match fault.consequence() {
            Some(reason) => self.dropped(peer, reason),
            None => self,
        }
    }

    pub open spec fn uuid_of(self, peer: PeerID) -> Option<Seq<char>> {
        match table::lookup(self.sessions, peer) {
            Some(s) => s.uuid,
            None => None,
        }
    }

    pub open spec fn ai_peer(self) -> Option<PeerID> {
        match self.ai_host {
            Some(h) => h.peer,
            None => None,
        }
    }

    pub open spec fn is_ai_host(self, peer: PeerID) -> bool {
        self.ai_peer() == Some(peer)
    }

    pub open spec fn is_ai_host_uuid(self, uuid: Seq<char>) -> bool {
        match self.ai_peer() {
            Some(p) => self.uuid_of(p) == Some(uuid),
            None => false,
        }
    }

    /// The AI host is launched on this machine and dials loopback, so only a
    /// loopback session can be it, and only before it has been admitted.
    pub open spec fn ai_host_expected(self, addr: Ipv4Addr) -> bool {
        addr.loopback() && self.ai_host is Some && self.ai_peer() is None
    }

    /// Which messages a session may send depends on the session's own phase,
    /// not the server's.
    pub open spec fn speaker(self, peer: PeerID, who: Audience) -> Result<Seq<char>, PeerFault> {
        match table::lookup(self.sessions, peer) {
            None => Err(PeerFault::NoSession),
            Some(s) => if !who.hears(s) {
                Err(PeerFault::WrongPhase)
            } else {
                match s.uuid {
                    Some(uuid) => Ok(uuid),
                    None => Err(PeerFault::NoSession),
                }
            },
        }
    }

    /// Whether the match should be held for the player of a row. A reclaimed
    /// slot counts until its client is back in the match, so a rejoiner cannot
    /// stall the others for free, and a player whose quota is spent is let go.
    pub open spec fn is_absent(self, row: (Seq<char>, SlotView)) -> bool {
        &&& slots::plays(row)
        &&& !self.forfeited.contains(row.0)
        &&& !self.resigned.contains(row.1.slot as i32)
        &&& self.pause_budget.remaining(row.0) > 0
        &&& match session_with(self.sessions, row.0) {
            None => true,
            Some((_, s)) => !row.1.connected || !s.is_in_game() || s.since_last_received
                > monitor::AFK_SILENCE_LIMIT,
        }
    }

    /// The players the match should be held for.
    pub open spec fn absent(self) -> Seq<Seq<char>> {
        self.slots.filter(|row: (Seq<char>, SlotView)| self.is_absent(row)).map_values(
            |row: (Seq<char>, SlotView)| row.0,
        )
    }

    /// The slot table outlives the session, so it still has a name for a
    /// player who has left.
    pub open spec fn absent_name(self, uuid: Seq<char>) -> Seq<char> {
        match slots::name_of(self.slots, uuid) {
            Some(name) => name,
            None => uuid,
        }
    }

    pub open spec fn peer_of(self, uuid: Seq<char>) -> Option<PeerID> {
        match session_with(self.sessions, uuid) {
            Some((peer, _)) => Some(peer),
            None => None,
        }
    }

    /// The name a client would show for this identity. None once they have
    /// left.
    pub open spec fn name_of(self, uuid: Seq<char>) -> Option<Seq<char>> {
        match session_with(self.sessions, uuid) {
            Some((_, s)) => s.name(),
            None => None,
        }
    }

    /// A message from anyone but the controller is silently ignored.
    pub open spec fn controlled_by(self, peer: PeerID) -> Result<Seq<char>, PeerFault> {
        match self.uuid_of(peer) {
            None => Err(PeerFault::NoSession),
            Some(uuid) => if self.controller == Some(uuid) {
                Ok(uuid)
            } else {
                Err(PeerFault::NotController)
            },
        }
    }

    /// An observer for turn release only. The controller keeps blocking even
    /// when it holds no slot, and the AI host holds none but plays every AI
    /// slot.
    pub open spec fn is_observer(self, uuid: Seq<char>) -> bool {
        &&& slots::slot_of(self.slots, uuid) == Some(UNASSIGNED)
        &&& self.controller != Some(uuid)
        &&& !self.is_ai_host_uuid(uuid)
    }

    pub open spec fn is_delayed_observer(self, uuid: Seq<char>) -> bool {
        self.config.observer_delay_turns > 0 && self.is_observer(uuid)
    }

    /// Whether a peer is an observer on the delayed feed, or about to be.
    pub open spec fn is_delayed_peer(self, peer: PeerID) -> bool {
        match self.uuid_of(peer) {
            Some(uuid) => self.is_delayed_observer(uuid),
            None => false,
        }
    }

    /// Whether anyone but the AI host is admitted.
    pub open spec fn anyone_admitted(self) -> bool {
        exists|i: int|
            0 <= i < self.sessions.len() && (#[trigger] self.sessions[i]).1.admitted is Some
                && !self.is_ai_host(self.sessions[i].0)
    }
}

impl Context {
    pub open spec fn wf(self) -> bool {
        self@.wf()
    }

    pub fn push_effect(&mut self, effect: Effect)
        ensures
            final(self)@ == old(self)@.doing(effect@),
    {
        let ghost e = effect@;
        let ghost before = self@.effects;
        self.effects.push(effect);
        assert(items::views(self.effects@) =~= before.push(e));
    }

    pub fn send(&mut self, peer: PeerID, msg: WireMessage)
        ensures
            final(self)@ == old(self)@.sent(peer, msg@),
    {
        self.push_effect(Effect::Send { peer, msg });
    }

    /// Fan-out is expanded here because the transport moves one packet per
    /// peer.
    pub fn send_to(&mut self, peers: &Vec<PeerID>, msg: &WireMessage)
        ensures
            final(self)@ == old(self)@.sent_to(peers@, msg@),
    {
        let ghost c = self@;
        let mut i: usize = 0;
        assert(c.effects + sends(peers@.take(0), msg@) =~= c.effects);
        while i < peers.len()
            invariant
                c == old(self)@,
                i <= peers@.len(),
                self@ == c.sent_to(peers@.take(i as int), msg@),
            decreases peers@.len() - i,
        {
            self.send(peers[i], msg.clone());
            proof {
                let more = sends(peers@.take(i + 1), msg@);
                assert(more =~= sends(peers@.take(i as int), msg@).push(
                    EffectView::Send { peer: peers@[i as int], msg: msg@ },
                ));
                assert(self@.effects =~= c.effects + more);
            }
            i += 1;
        }
        assert(peers@.take(i as int) =~= peers@);
    }

    pub fn peers_hearing(&self, who: Audience, except: Option<PeerID>) -> (r: Vec<PeerID>)
        ensures
            r@ == hearing(self@.sessions, who, except),
    {
        let ghost all = self.sessions@;
        let ghost hears = |row: (PeerID, SessionView)| except != Some(row.0) && who.hears(row.1);
        let ghost peer = |row: (PeerID, SessionView)| row.0;
        let mut out: Vec<PeerID> = Vec::new();
        let mut i: usize = 0;
        proof {
            utils::lemma_filter_ends(all, hears);
            assert(out@ =~= all.take(0).filter(hears).map_values(peer));
        }
        while i < self.sessions.rows.len()
            invariant
                all == self.sessions@,
                hears == (|row: (PeerID, SessionView)|
                    except != Some(row.0) && who.hears(row.1)),
                peer == (|row: (PeerID, SessionView)| row.0),
                i <= self.sessions.rows@.len(),
                out@ == all.take(i as int).filter(hears).map_values(peer),
            decreases self.sessions.rows@.len() - i,
        {
            let ghost before = all.take(i as int).filter(hears);
            proof {
                utils::lemma_filter_step(all, i as int, hears);
                assert(all[i as int] == table::row_view(self.sessions.rows@[i as int]));
                assert(before.push(all[i as int]).map_values(peer) =~= before.map_values(
                    peer,
                ).push(peer(all[i as int])));
            }
            let p = self.sessions.rows[i].0;
            let excepted = match except {
                Some(e) => e.0 == p.0,
                None => false,
            };
            if !excepted && who.includes(&self.sessions.rows[i].1) {
                out.push(p);
            }
            i += 1;
        }
        out
    }

    pub fn broadcast(&mut self, msg: &WireMessage, who: Audience)
        ensures
            final(self)@ == old(self)@.broadcast(msg@, who),
    {
        let peers = self.peers_hearing(who, None);
        self.send_to(&peers, msg);
    }

    pub fn broadcast_except(&mut self, except: PeerID, msg: &WireMessage, who: Audience)
        ensures
            final(self)@ == old(self)@.broadcast_except(except, msg@, who),
    {
        let peers = self.peers_hearing(who, Some(except));
        self.send_to(&peers, msg);
    }

    pub fn broadcast_player_slots(&mut self)
        ensures
            final(self)@ == old(self)@.slots_told(),
            final(self)@ == (Ctx { effects: final(self)@.effects, ..old(self)@ }),
            old(self).wf() ==> final(self).wf(),
    {
        proof {
            reveal(Ctx::slots_told);
        }
        let mut list = self.slots.to_message();
        let ghost before = items::views(list.hosts@);
        let row = Host {
            guid: self.server_uuid.clone(),
            name: auth::server_display_name(self.config.server_name.as_str()),
            player_id: UNASSIGNED,
            status: STATUS_NOT_READY,
        };
        let ghost r = row@;
        list.hosts.push(row);
        assert(items::views(list.hosts@) =~= before.push(r));
        let msg = WireMessage::PlayerSlots(list);
        self.broadcast(&msg, Audience::Admitted);
    }

    fn position_with(&self, uuid: &Guid) -> (r: Option<usize>)
        ensures
            match r {
                Some(i) => i < self@.sessions.len() && session_with(self@.sessions, uuid@) == Some(
                    self@.sessions[i as int],
                ),
                None => session_with(self@.sessions, uuid@) is None,
            },
    {
        let ghost all = self@.sessions;
        let mut i: usize = 0;
        assert(all.skip(0) =~= all);
        while i < self.sessions.rows.len()
            invariant
                all == self@.sessions,
                i <= self.sessions.rows@.len(),
                session_with(all, uuid@) == session_with(all.skip(i as int), uuid@),
            decreases self.sessions.rows@.len() - i,
        {
            proof {
                assert(all.skip(i as int)[0] == all[i as int]);
                assert(all.skip(i as int).drop_first() =~= all.skip(i + 1));
                assert(all[i as int] == table::row_view(self.sessions.rows@[i as int]));
            }
            if self.sessions.rows[i].1.has_uuid(uuid) {
                return Some(i);
            }
            i += 1;
        }
        None
    }

    /// The peer admitted under this name.
    pub fn peer_named(&self, name: &str) -> (r: Option<PeerID>)
        ensures
            r == match session_named(self@.sessions, name@) {
                Some((peer, _)) => Some(peer),
                None => None,
            },
    {
        let ghost all = self@.sessions;
        let mut i: usize = 0;
        assert(all.skip(0) =~= all);
        while i < self.sessions.rows.len()
            invariant
                all == self@.sessions,
                i <= self.sessions.rows@.len(),
                session_named(all, name@) == session_named(all.skip(i as int), name@),
            decreases self.sessions.rows@.len() - i,
        {
            proof {
                assert(all.skip(i as int)[0] == all[i as int]);
                assert(all.skip(i as int).drop_first() =~= all.skip(i + 1));
                assert(all[i as int] == table::row_view(self.sessions.rows@[i as int]));
            }
            if self.sessions.rows[i].1.is_named(name) {
                return Some(self.sessions.rows[i].0);
            }
            i += 1;
        }
        None
    }

    pub fn peer_of(&self, uuid: &Guid) -> (r: Option<PeerID>)
        ensures
            r == self@.peer_of(uuid@),
    {
        match self.position_with(uuid) {
            Some(i) => {
                assert(self@.sessions[i as int] == table::row_view(
                    self.sessions.rows@[i as int],
                ));
                Some(self.sessions.rows[i].0)
            },
            None => None,
        }
    }

    pub fn name_of(&self, uuid: &Guid) -> (r: Option<String>)
        ensures
            utils::seen(r) == self@.name_of(uuid@),
    {
        match self.position_with(uuid) {
            Some(i) => {
                assert(self@.sessions[i as int] == table::row_view(
                    self.sessions.rows@[i as int],
                ));
                match self.sessions.rows[i].1.name() {
                    Some(name) => Some(utils::copy_text(name)),
                    None => None,
                }
            },
            None => None,
        }
    }

    pub fn lobby_counts(&self) -> (r: (u32, String))
        ensures
            (r.0, r.1@) == self@.lobby_counts(),
    {
        let names = self.slots.connected_player_names();
        (names.len() as u32, link::join_texts(&names, ", "))
    }

    pub fn lobby_host_username(&self) -> (r: String)
        ensures
            r@ == self@.lobby_host(),
    {
        match &self.controller {
            Some(c) => match self.name_of(c) {
                Some(name) => name,
                None => utils::copy_text(self.config.lobby_host_name.as_str()),
            },
            None => utils::copy_text(self.config.lobby_host_name.as_str()),
        }
    }

    pub fn push_lobby_listing(&mut self)
        ensures
            final(self)@ == old(self)@.listed(),
            final(self)@ == (Ctx { effects: final(self)@.effects, ..old(self)@ }),
            old(self).wf() ==> final(self).wf(),
    {
        proof {
            reveal(Ctx::listed);
        }
        let (nbp, players) = self.lobby_counts();
        let host_username = self.lobby_host_username();
        let map = match &self.lobby_map {
            Some(m) => Some(m.clone()),
            None => None,
        };
        let mods = items::copy_items(&self.config.enabled_mods);
        self.push_effect(Effect::LobbyListing { host_username, nbp, players, map, mods });
    }

    pub fn server_chat(&mut self, to: Option<PeerID>, text: &str)
        ensures
            final(self)@ == old(self)@.said(to, text@),
            final(self)@ == (Ctx { effects: final(self)@.effects, ..old(self)@ }),
            old(self).wf() ==> final(self).wf(),
    {
        proof {
            reveal(Ctx::said);
        }
        let receivers: Vec<Guid> = Vec::new();
        assert(items::views(receivers@) =~= Seq::empty());
        let msg = WireMessage::Chat(
            Chat {
                sender_guid: self.server_uuid.clone(),
                message: utils::copy_text(text),
                receivers,
            },
        );
        match to {
            Some(peer) => self.send(peer, msg),
            None => self.broadcast(&msg, Audience::Admitted),
        }
    }

    pub fn uuid_of(&self, peer: PeerID) -> (r: Option<Guid>)
        ensures
            utils::seen(r) == self@.uuid_of(peer),
    {
        match self.sessions.get(&peer) {
            Some(s) => match &s.uuid {
                Some(uuid) => Some(uuid.clone()),
                None => None,
            },
            None => None,
        }
    }

    pub fn disconnect(&mut self, peer: PeerID, reason: DisconnectReason)
        ensures
            final(self)@ == old(self)@.dropped(peer, reason),
            final(self)@ == (Ctx {
                effects: final(self)@.effects,
                slots: final(self)@.slots,
                ..old(self)@
            }),
            old(self).wf() ==> final(self).wf(),
    {
        proof {
            reveal(Ctx::dropped);
        }
        let admitted = match self.sessions.get(&peer) {
            Some(s) => s.admitted.is_some(),
            None => false,
        };
        if admitted {
            if let Some(uuid) = self.uuid_of(peer) {
                self.slots.mark_disconnected(&uuid);
            }
            self.broadcast_player_slots();
        }
        self.push_effect(Effect::Disconnect { peer, reason });
    }

    pub fn list_in(&mut self, phase: Phase)
        ensures
            final(self)@ == old(self)@.listed_in(phase),
            final(self)@ == (Ctx { effects: final(self)@.effects, ..old(self)@ }),
            old(self).wf() ==> final(self).wf(),
    {
        if phase == Phase::Setup {
            self.push_lobby_listing();
        }
    }

    pub fn tell_slots(&mut self, phase: Phase)
        ensures
            final(self)@ == old(self)@.slots_told_in(phase),
            final(self)@ == (Ctx { effects: final(self)@.effects, ..old(self)@ }),
            old(self).wf() ==> final(self).wf(),
    {
        self.broadcast_player_slots();
        self.list_in(phase);
    }

    pub fn drop_peer(&mut self, phase: Phase, peer: PeerID, reason: DisconnectReason)
        ensures
            final(self)@ == old(self)@.dropped_in(phase, peer, reason),
            final(self)@ == (Ctx {
                effects: final(self)@.effects,
                slots: final(self)@.slots,
                ..old(self)@
            }),
            old(self).wf() ==> final(self).wf(),
    {
        self.disconnect(peer, reason);
        self.list_in(phase);
    }

    pub fn fault(&mut self, peer: PeerID, fault: PeerFault)
        ensures
            final(self)@ == old(self)@.faulted(peer, fault),
            final(self)@ == (Ctx {
                effects: final(self)@.effects,
                slots: final(self)@.slots,
                ..old(self)@
            }),
            old(self).wf() ==> final(self).wf(),
    {
        match fault.reason() {
            Some(reason) => self.disconnect(peer, reason),
            None => {},
        }
    }

    pub fn ai_peer(&self) -> (r: Option<PeerID>)
        ensures
            r == self@.ai_peer(),
    {
        match &self.ai_host {
            Some(h) => h.peer,
            None => None,
        }
    }

    pub fn is_ai_host(&self, peer: PeerID) -> (r: bool)
        ensures
            r == self@.is_ai_host(peer),
    {
        match self.ai_peer() {
            Some(p) => p.0 == peer.0,
            None => false,
        }
    }

    pub fn is_ai_host_uuid(&self, uuid: &Guid) -> (r: bool)
        ensures
            r == self@.is_ai_host_uuid(uuid@),
    {
        match self.ai_peer() {
            Some(p) => match self.sessions.get(&p) {
                Some(s) => s.has_uuid(uuid),
                None => false,
            },
            None => false,
        }
    }

    pub fn ai_host_expected(&self, addr: Ipv4Addr) -> (r: bool)
        ensures
            r == self@.ai_host_expected(addr),
    {
        addr.is_loopback() && self.ai_host.is_some() && self.ai_peer().is_none()
    }

    pub fn speaker(&self, peer: PeerID, who: Audience) -> (r: Result<Guid, PeerFault>)
        ensures
            match r {
                Ok(uuid) => self@.speaker(peer, who) == Ok::<Seq<char>, PeerFault>(uuid@),
                Err(e) => self@.speaker(peer, who) == Err::<Seq<char>, PeerFault>(e),
            },
    {
        match self.sessions.get(&peer) {
            None => Err(PeerFault::NoSession),
            Some(s) => if !who.includes(s) {
                Err(PeerFault::WrongPhase)
            } else {
                match &s.uuid {
                    Some(uuid) => Ok(uuid.clone()),
                    None => Err(PeerFault::NoSession),
                }
            },
        }
    }

    /// Whether the match should be held for the player of a row.
    fn is_absent(&self, at: usize) -> (r: bool)
        requires
            self.wf(),
            at < self@.slots.len(),
        ensures
            r == self@.is_absent(self@.slots[at as int]),
    {
        let row = &self.slots.entries.rows[at];
        assert(self@.slots[at as int] == table::row_view(*row));
        if row.1.slot == UNASSIGNED {
            return false;
        }
        if pause_budget::holds(&self.forfeited, &row.0) {
            return false;
        }
        let player: i32 = row.1.slot as i32;
        if has_number(&self.resigned, player) {
            return false;
        }
        if self.pause_budget.remaining(&row.0) <= 0 {
            return false;
        }
        match self.position_with(&row.0) {
            None => true,
            Some(i) => {
                assert(self@.sessions[i as int] == table::row_view(
                    self.sessions.rows@[i as int],
                ));
                let s = &self.sessions.rows[i].1;
                !row.1.connected || !s.is_in_game() || s.since_last_received
                    > monitor::AFK_SILENCE_LIMIT
            },
        }
    }

    pub fn afk_absent(&self) -> (r: Vec<Guid>)
        requires
            self.wf(),
        ensures
            items::views(r@) == self@.absent(),
    {
        let ghost c = self@;
        let ghost all = self@.slots;
        let ghost away = |row: (Seq<char>, SlotView)| c.is_absent(row);
        let ghost uuid = |row: (Seq<char>, SlotView)| row.0;
        let mut out: Vec<Guid> = Vec::new();
        let mut i: usize = 0;
        proof {
            utils::lemma_filter_ends(all, away);
            assert(items::views(out@) =~= all.take(0).filter(away).map_values(uuid));
        }
        while i < self.slots.entries.rows.len()
            invariant
                self.wf(),
                c == self@,
                all == self@.slots,
                away == (|row: (Seq<char>, SlotView)| c.is_absent(row)),
                uuid == (|row: (Seq<char>, SlotView)| row.0),
                i <= self.slots.entries.rows@.len(),
                items::views(out@) == all.take(i as int).filter(away).map_values(uuid),
            decreases self.slots.entries.rows@.len() - i,
        {
            let ghost so_far = items::views(out@);
            let ghost before = all.take(i as int).filter(away);
            proof {
                utils::lemma_filter_step(all, i as int, away);
                assert(all[i as int] == table::row_view(self.slots.entries.rows@[i as int]));
                assert(before.push(all[i as int]).map_values(uuid) =~= before.map_values(
                    uuid,
                ).push(uuid(all[i as int])));
            }
            if self.is_absent(i) {
                let u = self.slots.entries.rows[i].0.clone();
                let ghost v = u@;
                out.push(u);
                assert(items::views(out@) =~= so_far.push(v));
            }
            i += 1;
        }
        out
    }

    pub fn absent_name(&self, uuid: &Guid) -> (r: String)
        ensures
            r@ == self@.absent_name(uuid@),
    {
        match self.slots.name_of(uuid) {
            Some(name) => utils::copy_text(name),
            None => uuid.to_string(),
        }
    }

    pub fn require_controller(&self, peer: PeerID) -> (r: Result<Guid, PeerFault>)
        ensures
            match r {
                Ok(uuid) => self@.controlled_by(peer) == Ok::<Seq<char>, PeerFault>(uuid@),
                Err(e) => self@.controlled_by(peer) == Err::<Seq<char>, PeerFault>(e),
            },
    {
        match self.uuid_of(peer) {
            None => Err(PeerFault::NoSession),
            Some(uuid) => match &self.controller {
                Some(c) => if c.same(&uuid) {
                    Ok(uuid)
                } else {
                    Err(PeerFault::NotController)
                },
                None => Err(PeerFault::NotController),
            },
        }
    }

    pub fn is_observer(&self, uuid: &Guid) -> (r: bool)
        ensures
            r == self@.is_observer(uuid@),
    {
        let unassigned = match self.slots.slot_of(uuid) {
            Some(slot) => slot == UNASSIGNED,
            None => false,
        };
        let controls = match &self.controller {
            Some(c) => c.same(uuid),
            None => false,
        };
        unassigned && !controls && !self.is_ai_host_uuid(uuid)
    }

    pub fn is_delayed_observer(&self, uuid: &Guid) -> (r: bool)
        ensures
            r == self@.is_delayed_observer(uuid@),
    {
        self.config.observer_delay_turns > 0 && self.is_observer(uuid)
    }

    pub fn is_delayed_peer(&self, peer: PeerID) -> (r: bool)
        ensures
            r == self@.is_delayed_peer(peer),
    {
        match self.uuid_of(peer) {
            Some(uuid) => self.is_delayed_observer(&uuid),
            None => false,
        }
    }

    pub fn anyone_admitted(&self) -> (r: bool)
        ensures
            r == self@.anyone_admitted(),
    {
        let mut i: usize = 0;
        while i < self.sessions.rows.len()
            invariant
                i <= self.sessions.rows@.len(),
                forall|j: int|
                    0 <= j < i ==> (#[trigger] self@.sessions[j]).1.admitted is None
                        || self@.is_ai_host(self@.sessions[j].0),
            decreases self.sessions.rows@.len() - i,
        {
            assert(self@.sessions[i as int] == table::row_view(self.sessions.rows@[i as int]));
            if self.sessions.rows[i].1.admitted.is_some() && !self.is_ai_host(
                self.sessions.rows[i].0,
            ) {
                return true;
            }
            i += 1;
        }
        false
    }
}

/// Whether a number is among these.
pub fn has_number(numbers: &Vec<i32>, n: i32) -> (r: bool)
    ensures
        r == numbers@.contains(n),
{
    let mut i: usize = 0;
    while i < numbers.len()
        invariant
            i <= numbers@.len(),
            forall|j: int| 0 <= j < i ==> numbers@[j] != n,
        decreases numbers@.len() - i,
    {
        if numbers[i] == n {
            return true;
        }
        i += 1;
    }
    false
}

} // verus!
