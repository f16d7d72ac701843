//! What drives one match: what becomes of everything that arrives, what is to
//! be done about what the match decided, and how it ends. Every clock read and
//! every channel is outside, so this is a function of what it is handed.

use vstd::prelude::*;

use crate::clock;
use crate::clock::Time;
use crate::lobby::link::GameToLobby;
use crate::lobby::link::GameToLobbyView;
use crate::lobby::link::LobbyToGame;
use crate::lobby::link::LobbyToGameView;
use crate::network_message::InboundNetworkMessage;
use crate::network_message::InboundView;
use crate::network_message::OutboundNetworkMessage;
use crate::network_message::OutboundView;
use crate::network_message::PeerID;
use crate::relay::messages::items;
use crate::relay::messages::Guid;
use crate::relay::messages::WireMessage;
use crate::relay::messages::WireMessageView;
use crate::relay::monitor::PeerStats;
use crate::relay::server_fsm::admission;
use crate::relay::server_fsm::delivery;
use crate::relay::server_fsm::event::Effect;
use crate::relay::server_fsm::event::EffectView;
use crate::relay::server_fsm::event::Input;
use crate::relay::server_fsm::event::InputView;
use crate::relay::server_fsm::phases;
use crate::relay::server_fsm::phases::AnyServer;
use crate::relay::server_fsm::phases::AnyView;
use crate::relay::server_fsm::reason::DisconnectReason;
use crate::relay::session::SessionView;
use crate::sidecar::DumpRequest;
use crate::sidecar::DumpRequestView;
use crate::utils;

verus! {

/// Milliseconds between ticks. A match only needs one often enough to drive
/// the connection warnings, which come at most once a second.
pub const TICK_INTERVAL: i64 = 100;

/// What a finished checkpoint run hands back. The result stays on this side of
/// the match, which only needs the players' states to judge itself.
#[derive(Debug)]
pub struct CheckpointDone {
    pub state: Vec<u8>,
    pub players: Vec<String>,
    pub turn: u32,
    pub json: String,
}

/// What [`CheckpointDone`] is.
pub struct CheckpointDoneView {
    pub state: Seq<u8>,
    pub players: Seq<Seq<char>>,
    pub turn: u32,
    pub json: Seq<char>,
}

impl View for CheckpointDone {
    type V = CheckpointDoneView;

    open spec fn view(&self) -> CheckpointDoneView {
        CheckpointDoneView {
            state: self.state@,
            players: items::views(self.players@),
            turn: self.turn,
            json: self.json@,
        }
    }
}

/// A checkpoint's result.
#[derive(Debug)]
pub struct RunResult {
    pub id: u32,
    pub turn: u32,
    pub json: String,
}

/// What [`RunResult`] is.
pub struct RunResultView {
    pub id: u32,
    pub turn: u32,
    pub json: Seq<char>,
}

impl View for RunResult {
    type V = RunResultView;

    open spec fn view(&self) -> RunResultView {
        RunResultView { id: self.id, turn: self.turn, json: self.json@ }
    }
}

/// What is to be done outside.
#[derive(Debug)]
pub enum Action {
    /// For the socket. Once it is gone there is nothing left to send to.
    Outbound(OutboundNetworkMessage),
    /// For the lobby account, where there is one.
    Lobby(GameToLobby),
    /// The deciding run already wrote this result as progress; now it is
    /// final, and no replay has to follow.
    Resolve { turn: u32, json: String },
    StartDump { id: u32, turn: u32, request: DumpRequest },
    CancelDump { id: u32 },
    StartCheckpoint { id: u32, turn: u32, request: DumpRequest },
    SpawnAiHost { name: String },
    StopAiHost,
    GameOver,
}

/// What [`Action`] is.
pub enum ActionView {
    Outbound(OutboundView),
    Lobby(GameToLobbyView),
    Resolve { turn: u32, json: Seq<char> },
    StartDump { id: u32, turn: u32, request: DumpRequestView },
    CancelDump { id: u32 },
    StartCheckpoint { id: u32, turn: u32, request: DumpRequestView },
    SpawnAiHost { name: Seq<char> },
    StopAiHost,
    GameOver,
}

impl View for Action {
    type V = ActionView;

    open spec fn view(&self) -> ActionView {
        match *self {
            Action::Outbound(message) => ActionView::Outbound(message@),
            Action::Lobby(message) => ActionView::Lobby(message@),
            Action::Resolve { turn, json } => ActionView::Resolve { turn, json: json@ },
            Action::StartDump { id, turn, request } => ActionView::StartDump {
                id,
                turn,
                request: request@,
            },
            Action::CancelDump { id } => ActionView::CancelDump { id },
            Action::StartCheckpoint { id, turn, request } => ActionView::StartCheckpoint {
                id,
                turn,
                request: request@,
            },
            Action::SpawnAiHost { name } => ActionView::SpawnAiHost { name: name@ },
            Action::StopAiHost => ActionView::StopAiHost,
            Action::GameOver => ActionView::GameOver,
        }
    }
}

/// The one-shot runs of a game: the newest dump, of which there is only ever
/// one at a time, and the newest checkpoint's result, kept in case the match
/// finds that this run decided it.
#[derive(Debug)]
pub struct Runs {
    pub dump: Option<u32>,
    pub last_result: Option<RunResult>,
}

/// What [`Runs`] is.
pub struct RunsView {
    pub dump: Option<u32>,
    pub last_result: Option<RunResultView>,
}

impl View for Runs {
    type V = RunsView;

    open spec fn view(&self) -> RunsView {
        RunsView { dump: self.dump, last_result: utils::seen(self.last_result) }
    }
}

impl RunsView {
    pub open spec fn none() -> RunsView {
        RunsView { dump: None, last_result: None }
    }

    /// The runs after an effect.
    pub open spec fn after(self, effect: EffectView) -> RunsView {
        match effect {
            EffectView::StateDump { id, .. } => RunsView { dump: Some(id), ..self },
            EffectView::MatchEnded { .. } => RunsView { last_result: None, ..self },
            _ => self,
        }
    }

    /// What an effect asks for. A dump is cancelled only while it is the
    /// newest; a result is final only for the run that decided the match.
    pub open spec fn actions(self, effect: EffectView) -> Seq<ActionView> {
        match effect {
            EffectView::Send { peer, msg } => seq![
                ActionView::Outbound(OutboundView::Message { peer, data: msg.bytes() }),
            ],
            EffectView::Disconnect { peer, reason } => seq![
                ActionView::Outbound(OutboundView::Disconnect { peer, reason: reason.number() }),
            ],
            EffectView::DisconnectNow { peer, reason } => seq![
                ActionView::Outbound(
                    OutboundView::DisconnectNow { peer, reason: reason.number() },
                ),
            ],
            EffectView::PasswordRejected { .. } => Seq::empty(),
            EffectView::LobbyListing { host_username, nbp, players, map, mods } => seq![
                ActionView::Lobby(
                    GameToLobbyView::Listing { host_username, nbp, players, map, mods },
                ),
            ],
            EffectView::LobbyStarted { nbp, players } => seq![
                ActionView::Lobby(GameToLobbyView::Started { nbp, players }),
            ],
            EffectView::GameOver => seq![ActionView::GameOver],
            EffectView::MatchEnded { checkpoint } => {
                let ended = seq![ActionView::Lobby(GameToLobbyView::Ended)];
                match self.last_result {
                    Some(result) if checkpoint == Some(result.id) => seq![
                        ActionView::Resolve { turn: result.turn, json: result.json },
                    ] + ended,
                    _ => ended,
                }
            },
            EffectView::StateDump { id, turn, request } => seq![
                ActionView::StartDump { id, turn, request },
            ],
            EffectView::CancelStateDump { id } => if self.dump == Some(id) {
                seq![ActionView::CancelDump { id }]
            } else {
                Seq::empty()
            },
            EffectView::Checkpoint { id, turn, request } => seq![
                ActionView::StartCheckpoint { id, turn, request },
            ],
            EffectView::SpawnAiHost { name } => seq![ActionView::SpawnAiHost { name }],
            EffectView::StopAiHost => seq![ActionView::StopAiHost],
        }
    }

    pub open spec fn after_all(self, effects: Seq<EffectView>) -> RunsView
        decreases effects.len(),
    {
        if effects.len() == 0 {
            self
        } else {
            self.after_all(effects.drop_last()).after(effects.last())
        }
    }

    /// What all of these ask for, in their order.
    pub open spec fn all_actions(self, effects: Seq<EffectView>) -> Seq<ActionView>
        decreases effects.len(),
    {
        if effects.len() == 0 {
            Seq::empty()
        } else {
            self.all_actions(effects.drop_last()) + self.after_all(effects.drop_last()).actions(
                effects.last(),
            )
        }
    }

    /// Everything sent to a peer leaves in the order in which it was decided,
    /// and nothing is left out: what is decided in two goes is what is decided
    /// in one.
    pub proof fn order_is_kept(self, first: Seq<EffectView>, then: Seq<EffectView>)
        ensures
            self.all_actions(first + then) == self.all_actions(first) + self.after_all(
                first,
            ).all_actions(then),
            self.after_all(first + then) == self.after_all(first).after_all(then),
        decreases then.len(),
    {
        if then.len() == 0 {
            assert(first + then =~= first);
            assert(self.all_actions(first) + Seq::<ActionView>::empty() =~= self.all_actions(first));
        } else {
            let all = first + then;
            assert(all.drop_last() =~= first + then.drop_last());
            assert(all.last() == then.last());
            self.order_is_kept(first, then.drop_last());
            let head = self.all_actions(first);
            let mid = self.after_all(first).all_actions(then.drop_last());
            let end = self.after_all(all.drop_last()).actions(then.last());
            assert((head + mid) + end =~= head + (mid + end));
        }
    }
}

/// The packets for a peer among these actions, in order.
pub open spec fn sent_out(actions: Seq<ActionView>, peer: PeerID) -> Seq<Seq<u8>>
    decreases actions.len(),
{
    if actions.len() == 0 {
        Seq::empty()
    } else {
        let before = sent_out(actions.drop_last(), peer);
        match actions.last() {
            ActionView::Outbound(OutboundView::Message { peer: to, data }) => if to == peer {
                before.push(data)
            } else {
                before
            },
            _ => before,
        }
    }
}

proof fn lemma_sent_out(a: Seq<ActionView>, b: Seq<ActionView>, peer: PeerID)
    ensures
        sent_out(a + b, peer) == sent_out(a, peer) + sent_out(b, peer),
    decreases b.len(),
{
    if b.len() == 0 {
        assert(a + b =~= a);
        assert(sent_out(a, peer) + sent_out(b, peer) =~= sent_out(a, peer));
    } else {
        lemma_sent_out(a, b.drop_last(), peer);
        assert((a + b).drop_last() =~= a + b.drop_last());
        assert((a + b).last() == b.last());
        assert(sent_out(a + b, peer) =~= sent_out(a, peer) + sent_out(b, peer));
    }
}

impl RunsView {
    /// What is decided to be sent to a peer is what leaves for it, each message
    /// in one packet of its own, in order, and nothing besides.
    pub proof fn all_that_is_sent_leaves(self, effects: Seq<EffectView>, peer: PeerID)
        ensures
            ({
                let packets = sent_out(self.all_actions(effects), peer);
                let msgs = delivery::told(effects, peer);
                &&& packets.len() == msgs.len()
                &&& forall|i: int|
                    0 <= i < msgs.len() ==> #[trigger] packets[i] == msgs[i].bytes()
            }),
        decreases effects.len(),
    {
        if effects.len() > 0 {
            let before = effects.drop_last();
            self.all_that_is_sent_leaves(before, peer);
            let here = self.after_all(before).actions(effects.last());
            lemma_sent_out(self.all_actions(before), here, peer);
            reveal_with_fuel(sent_out, 4);
            assert(sent_out(here, peer) =~= (match effects.last() {
                EffectView::Send { peer: to, msg } if to == peer => seq![msg.bytes()],
                _ => Seq::empty(),
            })) by {
                if here.len() > 0 {
                    assert(here.drop_last().len() + 1 == here.len());
                    if here.len() > 1 {
                        assert(here.drop_last().drop_last() =~= Seq::empty());
                    } else {
                        assert(here.drop_last() =~= Seq::empty());
                    }
                }
            }
            let msgs = delivery::told(effects, peer);
            let packets = sent_out(self.all_actions(effects), peer);
            assert forall|i: int| 0 <= i < msgs.len() implies #[trigger] packets[i]
                == msgs[i].bytes() by {
                if i < delivery::told(before, peer).len() {
                    assert(packets[i] == sent_out(self.all_actions(before), peer)[i]);
                }
            }
        }
    }

    /// Whatever is decided is carried out: whoever is to be disconnected is,
    /// with the number of the reason, what the lobby is to list is handed on
    /// just as it was decided, and runs are started as they were asked for.
    pub proof fn effects_are_carried_out(self, effects: Seq<EffectView>, i: int)
        requires
            0 <= i < effects.len(),
        ensures
            asked_by(effects[i]) matches Some(action) ==> self.all_actions(effects).contains(
                action,
            ),
        decreases effects.len(),
    {
        let before = effects.drop_last();
        let first = self.all_actions(before);
        let here = self.after_all(before).actions(effects.last());
        let all = self.all_actions(effects);
        assert(all == first + here);
        if let Some(action) = asked_by(effects[i]) {
            if i < before.len() {
                self.effects_are_carried_out(before, i);
                assert(before[i] == effects[i]);
                let k = choose|k: int| 0 <= k < first.len() && first[k] == action;
                assert(all[k] == action);
            } else {
                assert(effects[i] == effects.last());
                assert(here.len() > 0);
                assert(here[here.len() - 1] == action);
                assert(all[all.len() - 1] == action);
            }
        }
    }
}

/// What an effect asks for whatever went before it, but for what is sent.
pub open spec fn asked_by(effect: EffectView) -> Option<ActionView> {
    match effect {
        EffectView::Disconnect { peer, reason } => Some(
            ActionView::Outbound(OutboundView::Disconnect { peer, reason: reason.number() }),
        ),
        EffectView::DisconnectNow { peer, reason } => Some(
            ActionView::Outbound(OutboundView::DisconnectNow { peer, reason: reason.number() }),
        ),
        EffectView::LobbyListing { host_username, nbp, players, map, mods } => Some(
            ActionView::Lobby(
                GameToLobbyView::Listing { host_username, nbp, players, map, mods },
            ),
        ),
        EffectView::LobbyStarted { nbp, players } => Some(
            ActionView::Lobby(GameToLobbyView::Started { nbp, players }),
        ),
        EffectView::MatchEnded { .. } => Some(ActionView::Lobby(GameToLobbyView::Ended)),
        EffectView::GameOver => Some(ActionView::GameOver),
        EffectView::StateDump { id, turn, request } => Some(
            ActionView::StartDump { id, turn, request },
        ),
        EffectView::Checkpoint { id, turn, request } => Some(
            ActionView::StartCheckpoint { id, turn, request },
        ),
        EffectView::SpawnAiHost { name } => Some(ActionView::SpawnAiHost { name }),
        EffectView::StopAiHost => Some(ActionView::StopAiHost),
        _ => None,
    }
}

impl Runs {
    pub fn new() -> (r: Self)
        ensures
            r@ == RunsView::none(),
    {
        Runs { dump: None, last_result: None }
    }

    /// The match has been decided.
    fn match_ended(&mut self, checkpoint: Option<u32>, out: &mut Vec<Action>)
        ensures
            final(self)@ == old(self)@.after(EffectView::MatchEnded { checkpoint }),
            items::views(final(out)@) == items::views(old(out)@) + old(self)@.actions(
                EffectView::MatchEnded { checkpoint },
            ),
    {
        let ghost before = items::views(out@);
        let ghost ended = ActionView::Lobby(GameToLobbyView::Ended);
        let mut result: Option<RunResult> = None;
        std::mem::swap(&mut result, &mut self.last_result);
        if let Some(result) = result {
            let decided = match checkpoint {
                Some(id) => id == result.id,
                None => false,
            };
            if decided {
                let ghost resolve = ActionView::Resolve { turn: result.turn, json: result.json@ };
                out.push(Action::Resolve { turn: result.turn, json: result.json });
                assert(items::views(out@) =~= before.push(resolve));
                out.push(Action::Lobby(GameToLobby::Ended));
                assert(items::views(out@) =~= before.push(resolve).push(ended));
                assert(before.push(resolve).push(ended) =~= before + (seq![resolve] + seq![ended]));
                return ;
            }
        }
        out.push(Action::Lobby(GameToLobby::Ended));
        assert(items::views(out@) =~= before + seq![ended]);
    }

    /// What an effect that asks for one thing asks for.
    fn one_action(effect: Effect) -> (r: Option<Action>)
        requires
            !(effect is MatchEnded),
            !(effect is CancelStateDump),
        ensures
            forall|runs: RunsView|
                (match r {
                    Some(a) => seq![a@],
                    None => Seq::<ActionView>::empty(),
                }) =~= #[trigger] runs.actions(effect@),
    {
        match effect {
            Effect::Send { peer, msg } => Some(
                Action::Outbound(OutboundNetworkMessage::Message { peer, data: msg.to_bytes() }),
            ),
            Effect::Disconnect { peer, reason } => Some(
                Action::Outbound(OutboundNetworkMessage::Disconnect { peer, reason: reason.code() }),
            ),
            Effect::DisconnectNow { peer, reason } => Some(
                Action::Outbound(
                    OutboundNetworkMessage::DisconnectNow { peer, reason: reason.code() },
                ),
            ),
            Effect::LobbyListing { host_username, nbp, players, map, mods } => Some(
                Action::Lobby(GameToLobby::Listing { host_username, nbp, players, map, mods }),
            ),
            Effect::LobbyStarted { nbp, players } => Some(
                Action::Lobby(GameToLobby::Started { nbp, players }),
            ),
            Effect::GameOver => Some(Action::GameOver),
            Effect::StateDump { id, turn, request } => Some(
                Action::StartDump { id, turn, request },
            ),
            Effect::Checkpoint { id, turn, request } => Some(
                Action::StartCheckpoint { id, turn, request },
            ),
            Effect::SpawnAiHost { name } => Some(Action::SpawnAiHost { name }),
            Effect::StopAiHost => Some(Action::StopAiHost),
            _ => None,
        }
    }

    fn act(&mut self, effect: Effect, out: &mut Vec<Action>)
        ensures
            final(self)@ == old(self)@.after(effect@),
            items::views(final(out)@) == items::views(old(out)@) + old(self)@.actions(effect@),
    {
        let ghost before = items::views(out@);
        let ghost runs = self@;
        let ghost e = effect@;
        match effect {
            Effect::MatchEnded { checkpoint } => {
                self.match_ended(checkpoint, out);
            },
            Effect::CancelStateDump { id } => {
                let newest = match self.dump {
                    Some(d) => d == id,
                    None => false,
                };
                if newest {
                    out.push(Action::CancelDump { id });
                    assert(items::views(out@) =~= before + seq![ActionView::CancelDump { id }]);
                } else {
                    assert(items::views(out@) =~= before + Seq::<ActionView>::empty());
                }
            },
            other => {
                if let Effect::StateDump { id, .. } = &other {
                    self.dump = Some(*id);
                }
                let asked = Self::one_action(other);
                let ghost actions = runs.actions(e);
                match asked {
                    Some(action) => {
                        let ghost a = action@;
                        out.push(action);
                        assert(seq![a] =~= actions);
                        assert(items::views(out@) =~= before + seq![a]);
                    },
                    None => {
                        assert(actions =~= Seq::<ActionView>::empty());
                        assert(items::views(out@) =~= before + Seq::<ActionView>::empty());
                    },
                }
            },
        }
    }

    /// What these effects ask for, in their order.
    pub fn drain(&mut self, effects: Vec<Effect>) -> (r: Vec<Action>)
        ensures
            final(self)@ == old(self)@.after_all(items::views(effects@)),
            items::views(r@) == old(self)@.all_actions(items::views(effects@)),
    {
        let ghost runs = self@;
        let ghost all = items::views(effects@);
        let mut rest = effects;
        let mut out: Vec<Action> = Vec::new();
        let mut i: usize = 0;
        proof {
            assert(all.take(0) =~= Seq::empty());
            assert(items::views(out@) =~= Seq::empty());
        }
        while i < rest.len()
            invariant
                i <= rest@.len(),
                rest@.len() == all.len(),
                forall|j: int| i <= j < all.len() ==> (#[trigger] rest@[j])@ == all[j],
                self@ == runs.after_all(all.take(i as int)),
                items::views(out@) == runs.all_actions(all.take(i as int)),
            decreases rest@.len() - i,
        {
            let mut effect = Effect::GameOver;
            assert(rest@[i as int]@ == all[i as int]);
            std::mem::swap(&mut effect, &mut rest[i]);
            proof {
                assert(effect@ == all[i as int]);
                assert(all.take(i + 1).drop_last() =~= all.take(i as int));
                assert(all.take(i + 1).last() == all[i as int]);
            }
            self.act(effect, &mut out);
            i += 1;
        }
        assert(all.take(i as int) =~= all);
        out
    }
}

/// Something that happened to a game.
#[derive(Debug)]
pub enum GameEvent {
    Lobby(LobbyToGame),
    AiHostExited,
    Dumped { id: u32, state: Option<Vec<u8>> },
    Checkpointed { id: u32, done: Option<CheckpointDone> },
    Network(InboundNetworkMessage),
    /// The clock was read.
    Clock(Time),
}

/// What [`GameEvent`] is.
pub enum GameEventView {
    Lobby(LobbyToGameView),
    AiHostExited,
    Dumped { id: u32, state: Option<Seq<u8>> },
    Checkpointed { id: u32, done: Option<CheckpointDoneView> },
    Network(InboundView),
    Clock(Time),
}

impl View for GameEvent {
    type V = GameEventView;

    open spec fn view(&self) -> GameEventView {
        match *self {
            GameEvent::Lobby(message) => GameEventView::Lobby(message@),
            GameEvent::AiHostExited => GameEventView::AiHostExited,
            GameEvent::Dumped { id, state } => GameEventView::Dumped {
                id,
                state: utils::seen(state),
            },
            GameEvent::Checkpointed { id, done } => GameEventView::Checkpointed {
                id,
                done: utils::seen(done),
            },
            GameEvent::Network(message) => GameEventView::Network(message@),
            GameEvent::Clock(now) => GameEventView::Clock(now),
        }
    }
}

/// What of an event is counted.
#[derive(Debug, Clone, Copy, PartialEq, Eq)]
pub enum Noted {
    Nothing,
    Connected,
    Disconnected,
    /// A message of this name was decoded.
    Received(&'static str),
    /// One bad packet is dropped and the connection stays open.
    Undecodable,
    /// The transport's running totals.
    Bytes { received: u32, sent: u32 },
}

/// A game as it runs. The peers' timing is held rather than fed straight in,
/// so the match sees timing only on a tick and does not depend on how often
/// the socket's side samples.
#[derive(Debug)]
pub struct GameLoop {
    pub server: AnyServer,
    pub runs: Runs,
    pub stats: Vec<PeerStats>,
    pub loss: Vec<(PeerID, u32)>,
    pub last_tick: Time,
}

/// What [`GameLoop`] is.
pub struct LoopView {
    pub server: AnyView,
    pub runs: RunsView,
    pub stats: Seq<PeerStats>,
    pub loss: Seq<(PeerID, u32)>,
    pub last_tick: Time,
}

impl View for GameLoop {
    type V = LoopView;

    open spec fn view(&self) -> LoopView {
        LoopView {
            server: self.server@,
            runs: self.runs@,
            stats: self.stats@,
            loss: self.loss@,
            last_tick: self.last_tick,
        }
    }
}

/// How a game came to its end.
#[derive(Debug, Clone, Copy, PartialEq, Eq, Structural)]
pub enum Ending {
    /// The game ended itself.
    GameOver,
    /// The pool tore it down.
    Shutdown,
    /// The socket's side sends nothing any more.
    Closed,
    /// The socket's side takes nothing any more.
    SendClosed,
}

impl Ending {
    /// What an ending is counted as. That nothing comes in any more is only odd
    /// where nobody asked for it; that nothing goes out any more always is.
    pub open spec fn label(self, shutdown_requested: bool) -> Seq<char> {
        match self {
            Ending::GameOver => "game_over"@,
            Ending::Shutdown => "shutdown"@,
            Ending::Closed => if shutdown_requested {
                "shutdown"@
            } else {
                "enet_closed"@
            },
            Ending::SendClosed => "enet_closed"@,
        }
    }

    pub fn counted_as(self, shutdown_requested: bool) -> (r: &'static str)
        ensures
            r@ == self.label(shutdown_requested),
    {
        match self {
            Ending::GameOver => "game_over",
            Ending::Shutdown => "shutdown",
            Ending::Closed => if shutdown_requested {
                "shutdown"
            } else {
                "enet_closed"
            },
            Ending::SendClosed => "enet_closed",
        }
    }
}

impl LoopView {
    /// What the match is told of an event. A packet that does not decode, and
    /// a clock reading before the next tick, tell it nothing.
    pub open spec fn told(self, event: GameEventView) -> Option<InputView> {
        match event {
            GameEventView::Lobby(LobbyToGameView::Auth(t)) => Some(
                InputView::LobbyAuth { username: t.username, token: t.token },
            ),
            GameEventView::Lobby(LobbyToGameView::JoinerExpected) => None,
            GameEventView::AiHostExited => Some(InputView::AiHostExited),
            GameEventView::Dumped { id, state } => Some(InputView::StateDumped { id, state }),
            GameEventView::Checkpointed { id, done } => Some(
                match done {
                    Some(d) => InputView::Checkpointed {
                        id,
                        state: Some(d.state),
                        players: d.players,
                    },
                    None => InputView::Checkpointed { id, state: None, players: Seq::empty() },
                },
            ),
            GameEventView::Network(InboundView::Connect { peer, addr }) => Some(
                InputView::Connected { peer, addr },
            ),
            GameEventView::Network(InboundView::Disconnect { peer, .. }) => Some(
                InputView::Disconnected { peer },
            ),
            GameEventView::Network(InboundView::Message { peer, data, .. }) => {
                match WireMessageView::parse(data) {
                    Ok(msg) => Some(InputView::Received { peer, msg }),
                    Err(_) => None,
                }
            },
            GameEventView::Network(InboundView::Stats { .. }) => None,
            GameEventView::Clock(now) => if clock::interval_due(
                Some(self.last_tick),
                now,
                clock::ms(TICK_INTERVAL),
            ) {
                Some(InputView::Tick { now, stats: self.stats })
            } else {
                None
            },
        }
    }

    pub open spec fn counted(self, event: GameEventView) -> Noted {
        match event {
            GameEventView::Network(InboundView::Connect { .. }) => Noted::Connected,
            GameEventView::Network(InboundView::Disconnect { .. }) => Noted::Disconnected,
            GameEventView::Network(InboundView::Message { data, .. }) => {
                match WireMessageView::parse(data) {
                    Ok(msg) => Noted::Received(msg.name()),
                    Err(_) => Noted::Undecodable,
                }
            },
            GameEventView::Network(InboundView::Stats { bytes_received, bytes_sent, .. }) => {
                Noted::Bytes { received: bytes_received, sent: bytes_sent }
            },
            _ => Noted::Nothing,
        }
    }

    /// What the game itself keeps of an event.
    pub open spec fn keeping(self, event: GameEventView) -> LoopView {
        match event {
            GameEventView::Checkpointed { id, done: Some(d) } => LoopView {
                runs: RunsView {
                    last_result: Some(RunResultView { id, turn: d.turn, json: d.json }),
                    ..self.runs
                },
                ..self
            },
            GameEventView::Network(InboundView::Stats { stats, packet_loss, .. }) => LoopView {
                stats,
                loss: packet_loss,
                ..self
            },
            GameEventView::Clock(now) => if self.told(event) is Some {
                LoopView { last_tick: now, ..self }
            } else {
                self
            },
            _ => self,
        }
    }

    /// The game after an event, given the identity that is issued should the
    /// event ask for one.
    pub open spec fn fed(self, event: GameEventView, issued: Option<Seq<char>>) -> LoopView {
        LoopView {
            server: match self.told(event) {
                Some(input) => self.server.handled(input, issued),
                None => self.server,
            },
            ..self.keeping(event)
        }
    }

    /// What a game that ends does last. With the socket gone there is nobody
    /// left to tell; every other ending disconnects everyone.
    pub open spec fn farewell(self, how: Ending) -> Seq<ActionView> {
        if how == Ending::Closed || how == Ending::SendClosed {
            Seq::empty()
        } else {
            self.runs.all_actions(self.server.ctx().shut_down())
        }
    }

    /// However a game ends while its socket is there, nobody is left
    /// connected: everyone who had a session is disconnected, and told why.
    pub proof fn nobody_is_left_behind(self, how: Ending, peer: PeerID)
        requires
            how != Ending::Closed,
            how != Ending::SendClosed,
            crate::table::has_key(self.server.ctx().sessions, peer),
        ensures
            self.farewell(how).contains(
                ActionView::Outbound(
                    OutboundView::DisconnectNow {
                        peer,
                        reason: DisconnectReason::ServerShuttingDown.number(),
                    },
                ),
            ),
    {
        let sessions = self.server.ctx().sessions;
        crate::table::lemma_index_of(sessions, peer);
        let at = crate::table::index_of(sessions, peer)->0;
        let line = |row: (PeerID, SessionView)|
            EffectView::DisconnectNow {
                peer: row.0,
                reason: DisconnectReason::ServerShuttingDown,
            };
        let effects = self.server.ctx().shut_down();
        let i = self.server.ctx().effects.len() + at;
        assert(effects[i] == sessions.map_values(line)[at]);
        assert(effects[i] == (EffectView::DisconnectNow {
            peer,
            reason: DisconnectReason::ServerShuttingDown,
        }));
        self.runs.lemma_action_of(effects, i);
        let asked = self.runs.after_all(effects.take(i)).actions(effects[i]);
        assert(asked[0] == ActionView::Outbound(
            OutboundView::DisconnectNow {
                peer,
                reason: DisconnectReason::ServerShuttingDown.number(),
            },
        ));
        assert(asked.contains(asked[0]));
    }
}

impl RunsView {
    /// What one effect asks for is among what all of them ask for.
    pub proof fn lemma_action_of(self, effects: Seq<EffectView>, i: int)
        requires
            0 <= i < effects.len(),
        ensures
            forall|a: ActionView|
                self.after_all(effects.take(i)).actions(effects[i]).contains(a)
                    ==> #[trigger] self.all_actions(effects).contains(a),
        decreases effects.len(),
    {
        let before = self.all_actions(effects.drop_last());
        let last = self.after_all(effects.drop_last()).actions(effects.last());
        if i == effects.len() - 1 {
            assert(effects.take(i) =~= effects.drop_last());
            assert forall|a: ActionView| last.contains(a) implies #[trigger] self.all_actions(
                effects,
            ).contains(a) by {
                let j = last.index_of(a);
                assert((before + last)[before.len() + j] == a);
            }
        } else {
            self.lemma_action_of(effects.drop_last(), i);
            assert(effects.drop_last().take(i) =~= effects.take(i));
            assert forall|a: ActionView|
                self.after_all(effects.take(i)).actions(effects[i]).contains(
                    a,
                ) implies #[trigger] self.all_actions(effects).contains(a) by {
                assert(before.contains(a));
                let j = before.index_of(a);
                assert((before + last)[j] == a);
            }
        }
    }
}

impl GameLoop {
    pub fn new(server: AnyServer, now: Time) -> (r: Self)
        ensures
            r@ == (LoopView {
                server: server@,
                runs: RunsView::none(),
                stats: Seq::empty(),
                loss: Seq::empty(),
                last_tick: now,
            }),
    {
        GameLoop {
            server,
            runs: Runs::new(),
            stats: Vec::new(),
            loss: Vec::new(),
            last_tick: now,
        }
    }

    fn of_checkpoint(&mut self, id: u32, done: Option<CheckpointDone>) -> (r: Input)
        ensures
            Some(r@) == old(self)@.told(
                GameEventView::Checkpointed { id, done: utils::seen(done) },
            ),
            final(self)@ == old(self)@.keeping(
                GameEventView::Checkpointed { id, done: utils::seen(done) },
            ),
            final(self).server == old(self).server,
    {
        match done {
            Some(d) => {
                self.runs.last_result = Some(RunResult { id, turn: d.turn, json: d.json });
                Input::Checkpointed { id, state: Some(d.state), players: d.players }
            },
            None => {
                let players: Vec<String> = Vec::new();
                assert(items::views(players@) =~= Seq::empty());
                Input::Checkpointed { id, state: None, players }
            },
        }
    }

    /// What the match is told of what came from the socket's side.
    pub fn to_input(&mut self, message: InboundNetworkMessage) -> (r: (Option<Input>, Noted))
        ensures
            utils::seen(r.0) == old(self)@.told(GameEventView::Network(message@)),
            r.1 == old(self)@.counted(GameEventView::Network(message@)),
            final(self)@ == old(self)@.keeping(GameEventView::Network(message@)),
            final(self).server == old(self).server,
    {
        match message {
            InboundNetworkMessage::Connect { peer, addr } => (
                Some(Input::Connected { peer, addr }),
                Noted::Connected,
            ),
            InboundNetworkMessage::Disconnect { peer, addr: _, reason: _ } => (
                Some(Input::Disconnected { peer }),
                Noted::Disconnected,
            ),
            InboundNetworkMessage::Message { peer, data, credit: _ } => {
                match WireMessage::from_bytes(data.as_slice()) {
                    Ok(msg) => {
                        let name = msg.name();
                        (Some(Input::Received { peer, msg }), Noted::Received(name))
                    },
                    Err(_) => (None, Noted::Undecodable),
                }
            },
            InboundNetworkMessage::Stats { stats, packet_loss, bytes_received, bytes_sent } => {
                self.stats = stats;
                self.loss = packet_loss;
                (None, Noted::Bytes { received: bytes_received, sent: bytes_sent })
            },
        }
    }

    fn of_clock(&mut self, now: Time) -> (r: Option<Input>)
        ensures
            utils::seen(r) == old(self)@.told(GameEventView::Clock(now)),
            final(self)@ == old(self)@.keeping(GameEventView::Clock(now)),
            final(self).server == old(self).server,
    {
        if clock::due_again(Some(self.last_tick), now, TICK_INTERVAL) {
            self.last_tick = now;
            Some(Input::Tick { now, stats: self.stats.clone() })
        } else {
            None
        }
    }

    fn take_in(&mut self, event: GameEvent) -> (r: (Option<Input>, Noted))
        ensures
            utils::seen(r.0) == old(self)@.told(event@),
            r.1 == old(self)@.counted(event@),
            final(self)@ == old(self)@.keeping(event@),
            final(self).server == old(self).server,
    {
        match event {
            GameEvent::Lobby(LobbyToGame::Auth(t)) => (
                Some(Input::LobbyAuth { username: t.username, token: t.token }),
                Noted::Nothing,
            ),
            GameEvent::Lobby(LobbyToGame::JoinerExpected) => (None, Noted::Nothing),
            GameEvent::AiHostExited => (Some(Input::AiHostExited), Noted::Nothing),
            GameEvent::Dumped { id, state } => (
                Some(Input::StateDumped { id, state }),
                Noted::Nothing,
            ),
            GameEvent::Checkpointed { id, done } => (
                Some(self.of_checkpoint(id, done)),
                Noted::Nothing,
            ),
            GameEvent::Network(message) => self.to_input(message),
            GameEvent::Clock(now) => (self.of_clock(now), Noted::Nothing),
        }
    }

    /// The game after an event, with the identity to issue should the event
    /// ask for one.
    pub fn feed_with(self, event: GameEvent, issued: Option<Guid>) -> (r: (GameLoop, Noted))
        requires
            self.server.wf(),
        ensures
            r.0@ == self@.fed(event@, utils::seen(issued)),
            r.1 == self@.counted(event@),
            r.0.server.wf(),
    {
        let mut game = self;
        let (input, noted) = game.take_in(event);
        match input {
            Some(input) => {
                let server = game.server.handle_with(input, issued);
                (GameLoop { server, ..game }, noted)
            },
            None => (game, noted),
        }
    }

    /// The game after an event. A client that asks for an identity is issued
    /// the first free one of those drawn for it.
    pub fn feed(self, event: GameEvent) -> (r: (GameLoop, Noted))
        requires
            self.server.wf(),
        ensures
            match self@.told(event@) {
                Some(input) if phases::asks_identity(input) => exists|drawn: Seq<Seq<char>>|
                    admission::was_drawn(drawn) && r.0@ == self@.fed(
                        event@,
                        #[trigger] self@.server.ctx().first_free(drawn),
                    ),
                _ => r.0@ == self@.fed(event@, None),
            },
            r.1 == self@.counted(event@),
            r.0.server.wf(),
    {
        let ghost before = self@;
        let ghost e = event@;
        let mut game = self;
        let (input, noted) = game.take_in(event);
        match input {
            Some(input) => {
                let ghost i = input@;
                let ghost s = game.server@;
                let server = game.server.handle(input);
                proof {
                    if phases::asks_identity(i) {
                        let drawn = choose|drawn: Seq<Seq<char>>|
                            admission::was_drawn(drawn) && server@ == s.handled(
                                i,
                                #[trigger] s.ctx().first_free(drawn),
                            );
                        assert(server@ == before.fed(e, s.ctx().first_free(drawn)).server);
                    }
                }
                (GameLoop { server, ..game }, noted)
            },
            None => (game, noted),
        }
    }

    /// What is to be done about what the match decided since the last time.
    pub fn drain(&mut self) -> (r: Vec<Action>)
        ensures
            items::views(r@) == old(self)@.runs.all_actions(old(self)@.server.ctx().effects),
            final(self)@ == (LoopView {
                server: old(self)@.server.with_effects(Seq::empty()),
                runs: old(self)@.runs.after_all(old(self)@.server.ctx().effects),
                ..old(self)@
            }),
            old(self).server.wf() ==> final(self).server.wf(),
    {
        let effects = self.server.take_effects();
        self.runs.drain(effects)
    }

    /// Ends the game: what is still to be done, and what a replay for the
    /// match's outcome needs, where there is one to be worked out.
    pub fn finish(self, how: Ending) -> (r: (Vec<Action>, Option<DumpRequest>))
        ensures
            items::views(r.0@) == self@.farewell(how),
            utils::seen(r.1) == self@.server.outcome_record(),
    {
        let outcome = self.server.outcome_request();
        match how {
            Ending::Closed | Ending::SendClosed => {
                let actions: Vec<Action> = Vec::new();
                assert(items::views(actions@) =~= Seq::empty());
                (actions, outcome)
            },
            _ => {
                let mut runs = self.runs;
                let effects = self.server.shutdown();
                (runs.drain(effects), outcome)
            },
        }
    }
}

/// What the outcome file holds: the engine's result wrapped with the turn it
/// describes and whether the match is over, since checkpoints rewrite the same
/// file while the match runs. The result is JSON already, so it is put in as
/// it is.
pub open spec fn outcome_json(turn: u32, is_final: bool, result: Seq<char>) -> Seq<char> {
    "{\"turn\":"@ + utils::decimal(turn as nat) + ",\"final\":"@ + (if is_final {
        "true"@
    } else {
        "false"@
    }) + ",\"result\":"@ + result + "}"@
}

pub fn outcome_text(turn: u32, is_final: bool, result: &str) -> (r: String)
    ensures
        r@ == outcome_json(turn, is_final, result@),
{
    let mut out = utils::copy_text("{\"turn\":");
    let number = utils::decimal_text(turn as u64);
    out.append(number.as_str());
    out.append(",\"final\":");
    out.append(
        if is_final {
            "true"
        } else {
            "false"
        },
    );
    out.append(",\"result\":");
    out.append(result);
    out.append("}");
    out
}

} // verus!
