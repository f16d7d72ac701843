//! When a match ends, and what is done once it has.

use vstd::prelude::*;

use crate::clock;
use crate::network_message::PeerID;
use crate::relay::messages::ChatView;
use crate::relay::messages::WireMessageView;
use crate::relay::server_fsm::context::Ctx;
use crate::relay::server_fsm::delivery;
use crate::relay::server_fsm::event::EffectView;
use crate::relay::server_fsm::event::InputView;
use crate::relay::server_fsm::event::Phase;
use crate::relay::server_fsm::laws;
use crate::relay::server_fsm::phases::AnyView;
use crate::relay::server_fsm::playing::MATCH_OVER;
use crate::relay::server_fsm::playing::OR_ONCE_LEFT;
use crate::relay::server_fsm::settings;
use crate::relay::server_fsm::settings::Frozen;
use crate::relay::server_fsm::setup::StartView;
use crate::table;
use crate::utils;

verus! {

/// Whether two different players have not resigned.
pub open spec fn two_play_on(player_ids: Seq<i32>, resigned: Seq<i32>) -> bool {
    exists|a: int, b: int|
        0 <= a < b < player_ids.len() && player_ids[a] != player_ids[b] && !resigned.contains(
            #[trigger] player_ids[a],
        ) && !resigned.contains(#[trigger] player_ids[b])
}

/// Whether everyone but gaia, who comes first, has won or lost.
pub open spec fn nobody_undecided(players: Seq<Seq<char>>) -> bool {
    &&& players.len() >= 2
    &&& forall|i: int|
        0 < i < players.len() ==> (#[trigger] players[i]) == "won"@ || players[i] == "defeated"@
}

proof fn lemma_left(ids: Seq<i32>, plays: spec_fn(i32) -> bool)
    requires
        ids.no_duplicates(),
    ensures
        ids.filter(plays).no_duplicates(),
        forall|p: i32| #[trigger] ids.filter(plays).contains(p) == (ids.contains(p) && plays(p)),
    decreases ids.len(),
{
    reveal(Seq::filter);
    if ids.len() > 0 {
        let before = ids.drop_last();
        let last = ids.last();
        lemma_left(before, plays);
        let was = before.filter(plays);
        let now = ids.filter(plays);
        assert(ids =~= before.push(last));
        assert(!before.contains(last)) by {
            if before.contains(last) {
                let k = choose|k: int| 0 <= k < before.len() && before[k] == last;
                assert(ids[k] == ids[ids.len() - 1]);
            }
        }
        if plays(last) {
            assert(now == was.push(last));
            assert(!was.contains(last));
            assert forall|i: int, j: int| 0 <= i < now.len() && 0 <= j < now.len() && i
                != j implies now[i] != now[j] by {
                if i < was.len() {
                    assert(was.contains(was[i]));
                }
                if j < was.len() {
                    assert(was.contains(was[j]));
                }
            }
        }
        assert forall|p: i32| #[trigger] now.contains(p) == (ids.contains(p) && plays(p)) by {
            utils::lemma_pushed(before, last, p);
            utils::lemma_pushed(was, last, p);
            assert(was.contains(p) == (before.contains(p) && plays(p)));
        }
    }
}

impl Ctx {
    proof fn lemma_resigned_out(self, settings: Frozen)
        requires
            settings.player_ids.no_duplicates(),
        ensures
            self.resigned_out(settings) == (!settings.endless && settings.player_ids.len() > 0
                && self.resigned.len() > 0 && !two_play_on(settings.player_ids, self.resigned)),
    {
        let ids = settings.player_ids;
        let plays = |p: i32| !self.resigned.contains(p);
        lemma_left(ids, plays);
        let left = ids.filter(plays);
        if left.len() > 1 {
            assert(left.contains(left[0]) && left.contains(left[1]));
            let a = choose|a: int| 0 <= a < ids.len() && ids[a] == left[0];
            let b = choose|b: int| 0 <= b < ids.len() && ids[b] == left[1];
            if a < b {
                assert(!self.resigned.contains(ids[a]) && !self.resigned.contains(ids[b]));
            } else {
                assert(!self.resigned.contains(ids[b]) && !self.resigned.contains(ids[a]));
            }
            assert(two_play_on(ids, self.resigned));
        }
        if two_play_on(ids, self.resigned) {
            let (a, b) = choose|a: int, b: int|
                0 <= a < b < ids.len() && ids[a] != ids[b] && !self.resigned.contains(
                    #[trigger] ids[a],
                ) && !self.resigned.contains(#[trigger] ids[b]);
            assert(left.contains(ids[a]) && left.contains(ids[b]));
            let i = choose|i: int| 0 <= i < left.len() && left[i] == ids[a];
            let j = choose|j: int| 0 <= j < left.len() && left[j] == ids[b];
            assert(i != j);
        }
    }

    /// The players of a match that is started, now or once its AI host is in,
    /// are numbered from one on, each with a number of its own, one for every
    /// player the attributes list.
    pub proof fn players_are_numbered(self, peer: PeerID, start: Seq<u8>)
        ensures
            match self.start_outcome(peer, start) {
                StartView::Ignored => true,
                StartView::Started(settings) => is_numbered(settings.player_ids),
                StartView::Held(held) => is_numbered(held.settings.player_ids),
            },
    {
    }

    proof fn lemma_ended(self, resolved_by: Option<u32>, p: PeerID)
        requires
            table::distinct(self.sessions),
        ensures
            ({
                let later = self.ended(resolved_by);
                &&& later.resigned == self.resigned
                &&& later.config == self.config
                &&& later.sessions == self.sessions
                &&& laws::grows(self.effects, later.effects)
                &&& later.effects.len() > self.effects.len()
                &&& later.effects[self.effects.len() as int] == (EffectView::MatchEnded {
                    checkpoint: resolved_by,
                })
                &&& self.hears(later, p) == (if table::lookup(self.sessions, p) matches Some(s)
                    && s.admitted is Some {
                    seq![
                        WireMessageView::Chat(
                            ChatView {
                                sender_guid: self.server_uuid,
                                message: MATCH_OVER@ + settings::span_text(
                                    settings::shown_secs(self.config.post_game_linger),
                                ) + OR_ONCE_LEFT@,
                                receivers: Seq::empty(),
                            },
                        ),
                    ]
                } else {
                    Seq::empty()
                })
            }),
    {
        reveal(Ctx::ended);
        let mid = self.doing(EffectView::MatchEnded { checkpoint: resolved_by });
        let text = MATCH_OVER@ + settings::span_text(
            settings::shown_secs(self.config.post_game_linger),
        ) + OR_ONCE_LEFT@;
        mid.lemma_said_heard(None, text, p);
        let e = EffectView::MatchEnded { checkpoint: resolved_by };
        assert(mid.effects.skip(self.effects.len() as int) =~= Seq::empty().push(e));
        delivery::lemma_told_push(Seq::empty(), e, p);
        self.lemma_hears_then(mid, mid.said(None, text), p);
        assert(Seq::<WireMessageView>::empty() + mid.hears(mid.said(None, text), p)
            =~= mid.hears(mid.said(None, text), p));
    }
}

/// Whether the players of a match are numbered from one on.
pub open spec fn is_numbered(player_ids: Seq<i32>) -> bool {
    &&& forall|i: int| 0 <= i < player_ids.len() ==> #[trigger] player_ids[i] == i + 1
    &&& player_ids.no_duplicates()
}

impl AnyView {
    proof fn lemma_played_on(c: Ctx, settings: Frozen)
        requires
            settings.player_ids.no_duplicates(),
        ensures
            ({
                let later = Self::played_on(c, settings);
                let out = !settings.endless && settings.player_ids.len() > 0 && c.resigned.len() > 0
                    && !two_play_on(settings.player_ids, c.resigned);
                &&& later.ctx().resigned == c.resigned
                &&& out ==> (later matches AnyView::PostGame { resolved_by, ended_at, .. }
                    && resolved_by is None && ended_at is None)
                &&& !out ==> later is InGame
            }),
    {
        c.lemma_resigned_out(settings);
        reveal(Ctx::ended);
        reveal(Ctx::said);
        reveal(Ctx::checkpointing);
    }

    /// The frozen settings, once there are any.
    pub open spec fn frozen(self) -> Option<Frozen> {
        match self {
            AnyView::AwaitAiHost { held, .. } => Some(held.settings),
            AnyView::Loading { settings, .. } => Some(settings),
            AnyView::InGame { settings, .. } => Some(settings),
            AnyView::PostGame { settings, .. } => Some(settings),
            _ => None,
        }
    }

    /// Whatever happens, the players of a match have a number each, from one
    /// on: it starts that way, and stays so.
    pub proof fn players_stay_numbered(self, input: InputView, issued: Option<Seq<char>>)
        requires
            self.frozen() matches Some(settings) ==> is_numbered(settings.player_ids),
        ensures
            self.handled(input, issued).frozen() matches Some(settings) ==> is_numbered(
                settings.player_ids,
            ),
    {
    }

    /// Whatever a client sends while turns are released is dealt with as a
    /// message of the match, before and after it is decided alike, and all that
    /// can come behind it is the line that the match is over.
    pub proof fn matches_take_messages(
        self,
        peer: PeerID,
        msg: WireMessageView,
        issued: Option<Seq<char>>,
        p: PeerID,
    )
        requires
            self is InGame || self is PostGame,
            table::distinct(self.handled(InputView::Received { peer, msg }, issued).ctx().sessions),
        ensures
            ({
                let settings = self.frozen()->0;
                let phase = if self is InGame {
                    Phase::InGame
                } else {
                    Phase::PostGame
                };
                let mid = self.ctx().match_message(phase, settings, peer, msg, issued);
                let later = self.handled(InputView::Received { peer, msg }, issued).ctx();
                let (first, all) = (
                    delivery::told(mid.effects, p),
                    delivery::told(later.effects, p),
                );
                &&& later == (Ctx {
                    effects: later.effects,
                    checkpoints: later.checkpoints,
                    ..mid
                })
                &&& laws::grows(mid.effects, later.effects)
                &&& first.len() <= all.len() <= first.len() + 1
                &&& first == all.take(first.len() as int)
                &&& all.len() > first.len() ==> (all.last() matches WireMessageView::Chat(line)
                    && line.sender_guid == mid.server_uuid)
            }),
    {
        let settings = self.frozen()->0;
        if self is InGame {
            let mid = self.ctx().match_message(Phase::InGame, settings, peer, msg, issued);
            let n = mid.effects.len() as int;
            let later = Self::played_on(mid, settings).ctx();
            assert(mid.sessions == later.sessions) by {
                reveal(Ctx::ended);
                reveal(Ctx::said);
                reveal(Ctx::checkpointing);
            }
            let all = later.effects;
            if mid.resigned_out(settings) {
                mid.lemma_ended(None, p);
                reveal(Ctx::ended);
                reveal(Ctx::said);
            } else {
                reveal(Ctx::checkpointing);
                if mid.checkpoint_due() {
                    let e = all.last();
                    assert(all =~= mid.effects.push(e));
                    assert(all.skip(n) =~= Seq::empty().push(e));
                    delivery::lemma_told_push(Seq::empty(), e, p);
                } else {
                    assert(all.skip(n) =~= Seq::empty());
                }
            }
            assert(mid.effects + all.skip(n) =~= all);
            delivery::lemma_told_add(mid.effects, all.skip(n), p);
            assert(delivery::told(all, p).take(delivery::told(mid.effects, p).len() as int)
                =~= delivery::told(mid.effects, p));
        } else {
            let mid = self.ctx().match_message(Phase::PostGame, settings, peer, msg, issued);
            assert(delivery::told(mid.effects, p).take(
                delivery::told(mid.effects, p).len() as int,
            ) =~= delivery::told(mid.effects, p));
        }
    }

    /// While a match is set up what clients say of it is dealt with the same
    /// way whatever its start waits for, and none of it starts the match.
    pub proof fn setups_take_messages(
        self,
        peer: PeerID,
        msg: WireMessageView,
        issued: Option<Seq<char>>,
    )
        requires
            self is Setup || self is AwaitSavegame || self is AwaitAiHost,
            msg is PreGameStatus || msg is ResetPregameStatus || msg is GameSettings
                || msg is MapPlayerIdToSlot,
        ensures
            ({
                let later = self.handled(InputView::Received { peer, msg }, issued);
                &&& later.ctx() == self.ctx().setup_message(Phase::Setup, peer, msg)
                &&& later.frozen() == self.frozen()
                &&& later is Setup == self is Setup
                &&& later is AwaitSavegame == self is AwaitSavegame
            }),
    {
    }

    /// A match never ends by resignation while two different players have not
    /// resigned, nor if it is endless; and one that is not ends as soon as
    /// someone has resigned and at most one player has not.
    pub proof fn resigning_ends_a_match(self, input: InputView, issued: Option<Seq<char>>)
        requires
            self matches AnyView::InGame { settings, .. } && settings.player_ids.no_duplicates(),
        ensures
            ({
                let settings = self->InGame_settings;
                let later = self.handled(input, issued);
                let resigned = later.ctx().resigned;
                let left = two_play_on(settings.player_ids, resigned);
                &&& later is InGame || later is PostGame
                &&& (later matches AnyView::PostGame { resolved_by: None, .. }) ==> !left
                    && !settings.endless && resigned.len() > 0
                &&& !left && !settings.endless && settings.player_ids.len() > 0 && resigned.len()
                    > 0 ==> later is PostGame
            }),
    {
        let c = self.ctx();
        let settings = self->InGame_settings;
        let p = Phase::InGame;
        match input {
            InputView::Received { peer, msg } => {
                Self::lemma_played_on(c.match_message(p, settings, peer, msg, issued), settings);
            },
            InputView::StateDumped { id, state } => {
                Self::lemma_played_on(c.state_dumped(Some(settings), id, state), settings);
            },
            InputView::Checkpointed { id, state, players } => {
                Self::lemma_played_on(c.checkpointed(id, state), settings);
                reveal(Ctx::ended);
                reveal(Ctx::said);
            },
            InputView::Disconnected { peer } => {
                let left = c.departure_probed(peer);
                Self::lemma_played_on(
                    left.common_input(p, Some(settings), input, issued),
                    settings,
                );
            },
            _ => Self::lemma_played_on(c.common_input(p, Some(settings), input, issued), settings),
        }
    }

    /// A checkpoint run ends a match exactly if it is the one that was asked
    /// for, it came through, and it shows everyone but gaia to have won or
    /// lost; nothing else is ever named as what decided it.
    pub proof fn checkpoints_end_a_match(self, input: InputView, issued: Option<Seq<char>>)
        requires
            self is InGame,
        ensures
            (self.handled(input, issued) matches AnyView::PostGame { resolved_by: Some(by), .. }
                ==> {
                &&& input matches InputView::Checkpointed { id, state, players }
                &&& id == by
                &&& self.ctx().checkpoints.pending matches Some(asked)
                &&& asked.id == id
                &&& state is Some
                &&& nobody_undecided(players)
            }),
            (input matches InputView::Checkpointed { id, state, players } ==> (
            self.ctx().checkpoints.pending matches Some(asked) ==> (asked.id == id && state is Some
                && nobody_undecided(players) ==> (self.handled(
                input,
                issued,
            ) matches AnyView::PostGame { resolved_by, .. } && resolved_by == Some(id))))),
    {
    }

    /// As a match ends it is handed on as ended, with what decided it, and
    /// everyone admitted is told that it is over and when the server closes.
    pub proof fn endings_are_announced(
        self,
        input: InputView,
        issued: Option<Seq<char>>,
        p: PeerID,
    )
        requires
            self is InGame,
            table::distinct(self.handled(input, issued).ctx().sessions),
            self.handled(input, issued) is PostGame,
        ensures
            ({
                let later = self.handled(input, issued);
                let c = later.ctx();
                &&& c.effects.contains(
                    EffectView::MatchEnded { checkpoint: later->resolved_by },
                )
                &&& (table::lookup(c.sessions, p) matches Some(s) && s.admitted is Some)
                    ==> delivery::told(c.effects, p).len() > 0 && delivery::told(
                    c.effects,
                    p,
                ).last() == WireMessageView::Chat(
                    ChatView {
                        sender_guid: c.server_uuid,
                        message: MATCH_OVER@ + settings::span_text(
                            settings::shown_secs(c.config.post_game_linger),
                        ) + OR_ONCE_LEFT@,
                        receivers: Seq::empty(),
                    },
                )
            }),
    {
        let c = self.ctx();
        let settings = self->InGame_settings;
        let f = Phase::InGame;
        let last = match input {
            InputView::Received { peer, msg } => c.match_message(f, settings, peer, msg, issued),
            InputView::StateDumped { id, state } => c.state_dumped(Some(settings), id, state),
            InputView::Checkpointed { id, state, players } => c.checkpointed(id, state),
            InputView::Disconnected { peer } => c.departure_probed(peer).common_input(
                f,
                Some(settings),
                input,
                issued,
            ),
            _ => c.common_input(f, Some(settings), input, issued),
        };
        let later = self.handled(input, issued);
        assert(later.ctx() == last.ended(later->resolved_by));
        assert(last.sessions == later.ctx().sessions && last.server_uuid == later.ctx().server_uuid
            && last.config == later.ctx().config) by {
            reveal(Ctx::ended);
            reveal(Ctx::said);
        }
        last.lemma_ended(later->resolved_by, p);
        let n = last.effects.len() as int;
        let all = later.ctx().effects;
        assert(all[n] == (EffectView::MatchEnded { checkpoint: later->resolved_by }));
        assert(last.effects + all.skip(n) =~= all);
        delivery::lemma_told_add(last.effects, all.skip(n), p);
    }

    /// A decided match closes once nobody but the AI host is left in it, or
    /// once the linger has passed since the first tick after its end, and not
    /// before.
    pub proof fn decided_matches_close(self, input: InputView, issued: Option<Seq<char>>)
        requires
            self is PostGame,
            input is Tick,
        ensures
            ({
                let now = input->Tick_now;
                let ticked = self.ctx().ticked(Phase::PostGame, now, input->stats);
                let later = self.handled(input, issued);
                let watched = exists|i: int|
                    0 <= i < ticked.sessions.len() && (#[trigger] ticked.sessions[i]).1.admitted
                        is Some && !(ticked.ai_host matches Some(ai) && ai.peer == Some(
                        ticked.sessions[i].0,
                    ));
                let lingered = self->ended_at matches Some(t) && now.instant() >= t.instant()
                    && now.instant() - t.instant() >= clock::ms(ticked.config.post_game_linger);
                let at_once = self->ended_at is None && 0 >= clock::ms(
                    ticked.config.post_game_linger,
                );
                &&& later is PostGame
                &&& !watched || lingered || at_once ==> later.ctx().effects
                    == ticked.effects.push(EffectView::GameOver)
                &&& watched && !lingered && !at_once ==> later.ctx().effects == ticked.effects
                &&& watched && self->ended_at is None ==> later->ended_at == Some(now)
                &&& watched && (self->ended_at matches Some(t) && now.instant() >= t.instant())
                    ==> later->ended_at == self->ended_at
            }),
    {
        let ticked = self.ctx().ticked(Phase::PostGame, input->Tick_now, input->stats);
        assert(ticked.anyone_admitted() == exists|i: int|
            0 <= i < ticked.sessions.len() && (#[trigger] ticked.sessions[i]).1.admitted is Some
                && !(ticked.ai_host matches Some(ai) && ai.peer == Some(ticked.sessions[i].0)))
            by {
            if ticked.anyone_admitted() {
                let i = choose|i: int|
                    0 <= i < ticked.sessions.len() && (#[trigger] ticked.sessions[i]).1.admitted
                        is Some && !ticked.is_ai_host(ticked.sessions[i].0);
                assert(ticked.sessions[i].1.admitted is Some);
            }
        }
    }
}

} // verus!
