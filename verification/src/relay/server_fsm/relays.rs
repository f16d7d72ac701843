//! What becomes of what a client says in a match: who hears it, and what they
//! hear.

use vstd::prelude::*;

use crate::network_message::PeerID;
use crate::relay::messages::ChatView;
use crate::relay::messages::FlareView;
use crate::relay::messages::JoinedView;
use crate::relay::messages::PlayerCommandView;
use crate::relay::messages::PlayerPauseView;
use crate::relay::messages::StateHashView;
use crate::relay::messages::TurnSealed;
use crate::relay::messages::WireMessageView;
use crate::relay::messages::WrongHashPlayersView;
use crate::relay::server_fsm::context;
use crate::relay::server_fsm::context::Audience;
use crate::relay::server_fsm::context::Ctx;
use crate::relay::server_fsm::delivery;
use crate::relay::server_fsm::event::EffectView;
use crate::relay::server_fsm::event::Phase;
use crate::relay::server_fsm::laws;
use crate::relay::server_fsm::order;
use crate::relay::server_fsm::playing;
use crate::relay::server_fsm::reason::DisconnectReason;
use crate::relay::server_fsm::settings::Frozen;
use crate::relay::server_fsm::stream;
use crate::relay::session::Role;
use crate::relay::session::SessionView;
use crate::relay::turn;
use crate::relay::turn::HashMismatchView;
use crate::relay::turn::TurnClient;
use crate::relay::turn::COMMAND_DELAY;
use crate::table;

verus! {

/// Whether a peer is in the match under this identity.
pub open spec fn is_in_as(
    sessions: Seq<(PeerID, SessionView)>,
    peer: PeerID,
    uuid: Seq<char>,
) -> bool {
    delivery::in_match(sessions, peer) && (table::lookup(sessions, peer)->0).uuid == Some(uuid)
}

/// Whether a player is the sender's own: the one of its slot, or for the AI
/// host one of those it plays.
pub open spec fn plays_as(c: Ctx, peer: PeerID, uuid: Seq<char>, player: i32) -> bool {
    ||| player != -1 && (table::lookup(c.slots, uuid) matches Some(e) && e.slot == player)
    ||| c.ai_host matches Some(ai) && ai.peer == Some(peer) && ai.players.contains(player)
}

/// Whether these messages say that someone pauses, or no longer does.
pub open spec fn says_pause(msgs: Seq<WireMessageView>, guid: Seq<char>, pause: bool) -> bool {
    msgs.contains(WireMessageView::PlayerPause(PlayerPauseView { guid, pause }))
}

/// Whether a report names exactly those of these peers who are admitted, and
/// says of which turn and which hash was expected.
pub open spec fn accuses(
    w: WrongHashPlayersView,
    sessions: Seq<(PeerID, SessionView)>,
    m: HashMismatchView,
) -> bool {
    &&& w.turn == m.turn
    &&& w.hash_expected == m.reference
    &&& forall|peer: PeerID, s: SessionView|
        #![trigger m.mismatched.contains(peer), s.admitted]
        m.mismatched.contains(peer) && table::lookup(sessions, peer) == Some(s) ==> (
        s.admitted matches Some(a) ==> w.player_names.contains(a.name))
    &&& forall|name: Seq<char>| #[trigger]
        w.player_names.contains(name) ==> exists|peer: PeerID|
            #![trigger m.mismatched.contains(peer)]
            m.mismatched.contains(peer) && (table::lookup(sessions, peer) matches Some(s)
                && s.admitted matches Some(a) && a.name == name)
}

impl Ctx {
    /// Who is told something that is told to an audience.
    pub proof fn lemma_heard(
        self,
        who: Audience,
        except: Option<PeerID>,
        msg: WireMessageView,
        p: PeerID,
    )
        requires
            table::distinct(self.sessions),
        ensures
            ({
                let later = self.sent_to(context::hearing(self.sessions, who, except), msg);
                &&& self.hears(later, p) == (if except != Some(p) && (table::lookup(
                    self.sessions,
                    p,
                ) matches Some(s) && who.hears(s)) {
                    seq![msg]
                } else {
                    Seq::empty()
                })
                &&& laws::grows(self.effects, later.effects)
            }),
    {
        let pick = |row: (PeerID, SessionView)| except != Some(row.0) && who.hears(row.1);
        order::lemma_keys(self.sessions, pick, p);
        let peers = context::hearing(self.sessions, who, except);
        delivery::lemma_told_sends(peers, msg, p);
        assert(self.sent_to(peers, msg).effects.skip(self.effects.len() as int)
            =~= context::sends(peers, msg));
    }

    pub proof fn lemma_sent_heard(self, to: PeerID, msg: WireMessageView, p: PeerID)
        ensures
            self.hears(self.sent(to, msg), p) == (if to == p {
                seq![msg]
            } else {
                Seq::empty()
            }),
            laws::grows(self.effects, self.sent(to, msg).effects),
    {
        let e = EffectView::Send { peer: to, msg };
        let later = self.sent(to, msg).effects.skip(self.effects.len() as int);
        assert(later =~= Seq::<EffectView>::empty().push(e));
        delivery::lemma_told_push(Seq::empty(), e, p);
        assert(Seq::<WireMessageView>::empty().push(msg) =~= seq![msg]);
    }

    pub proof fn lemma_said_heard(self, to: Option<PeerID>, text: Seq<char>, p: PeerID)
        requires
            table::distinct(self.sessions),
        ensures
            laws::grows(self.effects, self.said(to, text).effects),
            self.said(to, text) == (Ctx { effects: self.said(to, text).effects, ..self }),
            self.hears(self.said(to, text), p) == (if (match to {
                Some(q) => p == q,
                None => table::lookup(self.sessions, p) matches Some(s) && s.admitted is Some,
            }) {
                seq![
                    WireMessageView::Chat(
                        ChatView {
                            sender_guid: self.server_uuid,
                            message: text,
                            receivers: Seq::empty(),
                        },
                    ),
                ]
            } else {
                Seq::empty()
            }),
    {
        reveal(Ctx::said);
        match to {
            Some(q) => self.lemma_sent_heard(q, self.chat_line(text), p),
            None => self.lemma_heard(Audience::Admitted, None, self.chat_line(text), p),
        }
    }

    /// When someone in the match who sees it as it is played asks to resume,
    /// everyone else in the match is told, in the sender's own name, that they
    /// resume; nobody is told anything else, and the sender no longer pauses.
    pub proof fn resuming_is_relayed(
        self,
        phase: Phase,
        settings: Frozen,
        peer: PeerID,
        uuid: Seq<char>,
        claimed: Seq<char>,
        issued: Option<Seq<char>>,
        p: PeerID,
    )
        requires
            table::distinct(self.sessions),
            is_in_as(self.sessions, peer, uuid),
            !delivery::on_feed(self.turns.clients, peer),
        ensures
            ({
                let later = self.match_message(
                    phase,
                    settings,
                    peer,
                    WireMessageView::PlayerPause(PlayerPauseView { guid: claimed, pause: false }),
                    issued,
                );
                &&& self.hears(later, p) == (if p != peer && delivery::in_match(
                    self.sessions,
                    p,
                ) {
                    seq![
                        WireMessageView::PlayerPause(
                            PlayerPauseView { guid: uuid, pause: false },
                        ),
                    ]
                } else {
                    Seq::empty()
                })
                &&& !later.pause_budget.pausing.contains(uuid)
                &&& forall|u: Seq<char>|
                    u != uuid && #[trigger] self.pause_budget.pausing.contains(u)
                        ==> later.pause_budget.pausing.contains(u)
            }),
    {
        reveal(Ctx::match_message);
        reveal(Ctx::pause_asked);
        let lifted = Ctx { pause_budget: self.pause_budget.resumed(uuid), ..self };
        let msg = WireMessageView::PlayerPause(PlayerPauseView { guid: uuid, pause: false });
        lifted.lemma_heard(Audience::InGame, Some(peer), msg, p);
        let later = self.match_message(
            phase,
            settings,
            peer,
            WireMessageView::PlayerPause(PlayerPauseView { guid: claimed, pause: false }),
            issued,
        );
        assert(self.hears(later, p) == lifted.hears(later, p));
        self.pause_budget.lemma_resumed(uuid);
    }

    /// When a player with something left of their quota asks to pause, everyone
    /// else in the match is told so, first and in the player's own name; nobody
    /// is told that anyone resumes, or that anyone else pauses, and the player
    /// pauses from then on. Anyone else who asks is told to lift their own
    /// pause, nobody else hears of it, and nothing changes.
    pub proof fn pauses_are_granted_or_refused(
        self,
        phase: Phase,
        settings: Frozen,
        peer: PeerID,
        uuid: Seq<char>,
        claimed: Seq<char>,
        issued: Option<Seq<char>>,
        p: PeerID,
    )
        requires
            table::distinct(self.sessions),
            is_in_as(self.sessions, peer, uuid),
            !delivery::on_feed(self.turns.clients, peer),
        ensures
            ({
                let later = self.match_message(
                    phase,
                    settings,
                    peer,
                    WireMessageView::PlayerPause(PlayerPauseView { guid: claimed, pause: true }),
                    issued,
                );
                let sent = self.hears(later, p);
                let plays = table::lookup(self.slots, uuid) matches Some(e) && e.slot != -1;
                let left = match table::lookup(self.pause_budget.left, uuid) {
                    Some(x) => x,
                    None => self.pause_budget.budget,
                };
                &&& plays && left > 0 ==> {
                    &&& p != peer && delivery::in_match(self.sessions, p) ==> sent.len() > 0
                        && sent[0] == WireMessageView::PlayerPause(
                        PlayerPauseView { guid: uuid, pause: true },
                    )
                    &&& forall|i: int|
                        0 <= i < sent.len() ==> ((#[trigger] sent[i]) is Chat || i == 0 && p
                            != peer && sent[i] == WireMessageView::PlayerPause(
                            PlayerPauseView { guid: uuid, pause: true },
                        ))
                    &&& later.pause_budget.pausing.contains(uuid)
                }
                &&& !(plays && left > 0) ==> {
                    &&& later.pause_budget == self.pause_budget
                    &&& p != peer ==> sent == Seq::<WireMessageView>::empty()
                    &&& p == peer ==> sent.len() == 2 && sent[0] is Chat && sent[1]
                        == WireMessageView::PlayerPause(
                        PlayerPauseView { guid: uuid, pause: false },
                    )
                }
            }),
    {
        reveal(Ctx::match_message);
        reveal(Ctx::pause_asked);
        let asked = WireMessageView::PlayerPause(PlayerPauseView { guid: claimed, pause: true });
        let later = self.match_message(phase, settings, peer, asked, issued);
        let msg = WireMessageView::PlayerPause(PlayerPauseView { guid: uuid, pause: true });
        if !self.owns_player(uuid) || self.pause_budget.remaining(uuid) <= 0 {
            let why = if !self.owns_player(uuid) {
                playing::ONLY_PLAYERS_PAUSE@
            } else {
                playing::OUT_OF_BUDGET@
            };
            let said = self.said(Some(peer), why);
            self.lemma_said_heard(Some(peer), why, p);
            let lift = WireMessageView::PlayerPause(PlayerPauseView { guid: uuid, pause: false });
            said.lemma_sent_heard(peer, lift, p);
            assert(later == said.sent(peer, lift));
            self.lemma_hears_then(said, later, p);
        } else {
            let paused = Ctx { pause_budget: self.pause_budget.paused(uuid), ..self };
            let relayed = paused.pause_relayed(peer, uuid, true);
            paused.lemma_heard(Audience::InGame, Some(peer), msg, p);
            assert(self.hears(relayed, p) == paused.hears(relayed, p));
            self.pause_budget.lemma_paused(uuid);
            if let Some(name) = relayed.name_of(uuid) {
                let text = crate::relay::server_fsm::timing::left_line(
                    ""@,
                    name,
                    " paused. "@,
                    self.pause_budget.remaining(uuid) as int,
                );
                relayed.lemma_said_heard(None, text, p);
                assert(later == relayed.said(None, text));
                self.lemma_hears_then(relayed, later, p);
            } else {
                assert(later == relayed);
            }
        }
    }

    /// A command that its sender may give reaches everyone who sees the match
    /// as it is played, unchanged and once, its sender among them; nobody else
    /// is told anything, and it is recorded behind every other.
    pub proof fn commands_reach_everyone(
        self,
        phase: Phase,
        settings: Frozen,
        peer: PeerID,
        uuid: Seq<char>,
        m: PlayerCommandView,
        issued: Option<Seq<char>>,
        p: PeerID,
    )
        requires
            table::distinct(self.sessions),
            table::distinct(self.turns.clients),
            is_in_as(self.sessions, peer, uuid),
            settings.cheats_enabled || plays_as(self, peer, uuid, m.player),
        ensures
            ({
                let later = self.match_message(
                    phase,
                    settings,
                    peer,
                    WireMessageView::PlayerCommand(m),
                    issued,
                );
                &&& self.hears(later, p) == (if delivery::in_match(self.sessions, p)
                    && !delivery::on_feed(self.turns.clients, p) {
                    seq![WireMessageView::PlayerCommand(m)]
                } else {
                    Seq::empty()
                })
                &&& later.log.commands == self.log.commands.push(m)
            }),
    {
        reveal(Ctx::match_message);
        reveal(Ctx::commanded);
        let later = self.match_message(
            phase,
            settings,
            peer,
            WireMessageView::PlayerCommand(m),
            issued,
        );
        self.lemma_each_once(p);
        let msg = WireMessageView::PlayerCommand(m);
        delivery::lemma_told_sends(self.live_peers(), msg, p);
        let mid = Ctx { resigned: later.resigned, checkpoints: later.checkpoints, ..self };
        assert(mid.live_peers() == self.live_peers());
        assert(later.effects.skip(self.effects.len() as int) =~= context::sends(
            self.live_peers(),
            msg,
        ));
    }

    /// Without cheats a command for a player that is not the sender's own, nor
    /// one the AI host plays, is lost without a trace; and with or without
    /// them, nobody resigns for another.
    pub proof fn foreign_commands_are_lost(
        self,
        phase: Phase,
        settings: Frozen,
        peer: PeerID,
        uuid: Seq<char>,
        m: PlayerCommandView,
        issued: Option<Seq<char>>,
    )
        requires
            is_in_as(self.sessions, peer, uuid),
            !plays_as(self, peer, uuid, m.player),
            m.player != -1,
        ensures
            ({
                let later = self.match_message(
                    phase,
                    settings,
                    peer,
                    WireMessageView::PlayerCommand(m),
                    issued,
                );
                &&& !settings.cheats_enabled ==> later == self
                &&& later.resigned == self.resigned
            }),
    {
        reveal(Ctx::match_message);
        reveal(Ctx::commanded);
    }

    /// A resignation of the sender's own player counts.
    pub proof fn resignations_count(
        self,
        phase: Phase,
        settings: Frozen,
        peer: PeerID,
        uuid: Seq<char>,
        m: PlayerCommandView,
        issued: Option<Seq<char>>,
    )
        requires
            is_in_as(self.sessions, peer, uuid),
            plays_as(self, peer, uuid, m.player),
        ensures
            ({
                let later = self.match_message(
                    phase,
                    settings,
                    peer,
                    WireMessageView::PlayerCommand(m),
                    issued,
                );
                let resigns = crate::relay::messages::player_command::command_type(m.data) == Some(
                    "resign"@,
                );
                &&& resigns ==> later.resigned.contains(m.player)
                &&& !resigns ==> later.resigned == self.resigned
                &&& forall|player: i32| #[trigger]
                    later.resigned.contains(player) ==> self.resigned.contains(player) || player
                        == m.player
            }),
    {
        reveal(Ctx::match_message);
        reveal(Ctx::commanded);
        let all = crate::utils::with_member(self.resigned, m.player);
        if !self.resigned.contains(m.player) {
            assert(all[self.resigned.len() as int] == m.player);
        }
        assert forall|player: i32| #[trigger] all.contains(player) implies self.resigned.contains(
            player,
        ) || player == m.player by {
            let k = choose|k: int| 0 <= k < all.len() && all[k] == player;
            if k < self.resigned.len() {
                assert(self.resigned[k] == player);
            }
        }
    }

    /// A chat line reaches everyone who is in setup or in the match, or exactly
    /// those it is for, once, in the sender's own name and as it was written;
    /// nobody else is told anything.
    pub proof fn chat_reaches_its_readers(
        self,
        phase: Phase,
        settings: Option<Frozen>,
        peer: PeerID,
        uuid: Seq<char>,
        m: ChatView,
        issued: Option<Seq<char>>,
        p: PeerID,
    )
        requires
            table::distinct(self.sessions),
            table::lookup(self.sessions, peer) matches Some(s) && s.uuid == Some(uuid) && (
            s.admitted matches Some(a) && a.role != Role::Syncing),
        ensures
            ({
                let later = self.common_message(
                    phase,
                    settings,
                    peer,
                    WireMessageView::Chat(m),
                    issued,
                );
                let reads = table::lookup(self.sessions, p) matches Some(s) && (
                if m.receivers.len() == 0 {
                    s.admitted matches Some(a) && a.role != Role::Syncing
                } else {
                    s.uuid matches Some(u) && m.receivers.contains(u)
                });
                self.hears(later, p) == (if reads {
                    seq![
                        WireMessageView::Chat(
                            ChatView {
                                sender_guid: uuid,
                                message: m.message,
                                receivers: Seq::empty(),
                            },
                        ),
                    ]
                } else {
                    Seq::empty()
                })
            }),
    {
        reveal(Ctx::common_message);
        reveal(Ctx::chatted);
        let msg = WireMessageView::Chat(
            ChatView { sender_guid: uuid, message: m.message, receivers: Seq::empty() },
        );
        if m.receivers.len() == 0 {
            self.lemma_heard(Audience::SetupOrInGame, None, msg, p);
        } else {
            let pick = |row: (PeerID, SessionView)|
                row.1.uuid matches Some(u) && m.receivers.contains(u);
            order::lemma_keys(self.sessions, pick, p);
            let peers = crate::relay::server_fsm::admission::addressed(self.sessions, m.receivers);
            delivery::lemma_told_sends(peers, msg, p);
            assert(self.sent_to(peers, msg).effects.skip(self.effects.len() as int)
                =~= context::sends(peers, msg));
        }
    }

    /// A flare reaches everyone who sees the match as it is played at once, in
    /// the sender's own name and where it was raised. Those on the delayed feed
    /// see it at once only where their feed has got as far; else it is kept for
    /// them, for the turn at which it was raised.
    pub proof fn flares_reach_everyone(
        self,
        phase: Phase,
        settings: Frozen,
        peer: PeerID,
        uuid: Seq<char>,
        m: FlareView,
        issued: Option<Seq<char>>,
        p: PeerID,
    )
        requires
            table::distinct(self.sessions),
            table::distinct(self.turns.clients),
            is_in_as(self.sessions, peer, uuid),
        ensures
            ({
                let later = self.match_message(
                    phase,
                    settings,
                    peer,
                    WireMessageView::Flare(m),
                    issued,
                );
                let flare = FlareView { guid: uuid, ..m };
                let raised = if delivery::on_feed(self.turns.clients, peer) {
                    self.feed.head
                } else {
                    self.turns.ready
                };
                let now = raised <= self.feed.head;
                let late = delivery::on_feed(self.turns.clients, p);
                &&& self.hears(later, p) == (if !late && delivery::in_match(self.sessions, p)
                    || late && now {
                    seq![WireMessageView::Flare(flare)]
                } else {
                    Seq::empty()
                })
                &&& now ==> later.feed == self.feed
                &&& !now ==> later.feed.flares.contains((raised, flare))
                &&& forall|f: (u32, FlareView)| #[trigger]
                    self.feed.flares.contains(f) ==> later.feed.flares.contains(f)
            }),
    {
        reveal(Ctx::match_message);
        reveal(Ctx::flared);
        let flare = FlareView { guid: uuid, ..m };
        let msg = WireMessageView::Flare(flare);
        self.lemma_each_once(p);
        let told = self.told_live(msg);
        delivery::lemma_told_sends(self.live_peers(), msg, p);
        delivery::lemma_told_sends(self.turns.delayed_peers(), msg, p);
        assert(told.effects.skip(self.effects.len() as int) =~= context::sends(
            self.live_peers(),
            msg,
        ));
        let all = told.told_delayed(msg);
        assert(all.effects.skip(told.effects.len() as int) =~= context::sends(
            self.turns.delayed_peers(),
            msg,
        ));
        self.lemma_hears_then(told, all, p);
        let turn = if self.turns.is_delayed(peer) {
            self.feed.head
        } else {
            self.turns.ready
        };
        self.feed.lemma_with_flare(turn, flare);
        let one = seq![msg];
        assert(one + Seq::<WireMessageView>::empty() =~= one);
        assert(Seq::<WireMessageView>::empty() + one =~= one);
        assert(Seq::<WireMessageView>::empty() + Seq::<WireMessageView>::empty()
            =~= Seq::empty());
    }

    /// Everyone in the match hears of a joiner that has come in, first and
    /// once; the joiner is told of everyone who pauses, and that the relay
    /// holds the match where it does.
    pub proof fn arrivals_are_announced(
        self,
        phase: Phase,
        settings: Frozen,
        peer: PeerID,
        uuid: Seq<char>,
        m: JoinedView,
        issued: Option<Seq<char>>,
        p: PeerID,
    )
        requires
            table::distinct(self.sessions),
            is_in_as(self.sessions, peer, uuid),
        ensures
            ({
                let later = self.match_message(
                    phase,
                    settings,
                    peer,
                    WireMessageView::Joined(m),
                    issued,
                );
                let sent = self.hears(later, p);
                let joined = WireMessageView::Joined(JoinedView { guid: uuid });
                &&& p != peer ==> sent == (if delivery::in_match(self.sessions, p) {
                    seq![joined]
                } else {
                    Seq::empty()
                })
                &&& p == peer ==> {
                    &&& sent.len() > 0 && sent[0] == joined
                    &&& forall|guid: Seq<char>| #[trigger]
                        says_pause(sent, guid, true) == (self.pause_budget.pausing.contains(guid)
                            || self.pause_budget.held && guid == self.server_uuid)
                    &&& forall|i: int|
                        0 < i < sent.len() ==> (
                        #[trigger] sent[i] matches WireMessageView::PlayerPause(x) && x.pause)
                }
            }),
    {
        reveal(Ctx::match_message);
        reveal(Ctx::came_in);
        let joined = WireMessageView::Joined(JoinedView { guid: uuid });
        let announced = self.broadcast(joined, Audience::InGame);
        self.lemma_heard(Audience::InGame, None, joined, p);
        let pausing = self.pause_budget.pausing;
        let msgs = playing::pause_messages(pausing);
        let told = announced.sent_each(peer, msgs);
        delivery::lemma_told_sends_to(peer, msgs, p);
        assert(told.effects.skip(announced.effects.len() as int)
            =~= playing::sends_to(peer, msgs));
        self.lemma_hears_then(announced, told, p);
        let later = self.match_message(phase, settings, peer, WireMessageView::Joined(m), issued);
        let hold = WireMessageView::PlayerPause(
            PlayerPauseView { guid: self.server_uuid, pause: true },
        );
        if self.pause_budget.held {
            told.lemma_sent_heard(peer, hold, p);
            assert(later == told.sent(peer, hold));
            self.lemma_hears_then(told, later, p);
        } else {
            assert(later == told);
        }
        let sent = self.hears(later, p);
        if p == peer {
            let held = if self.pause_budget.held {
                seq![hold]
            } else {
                Seq::empty()
            };
            assert(sent =~= seq![joined] + msgs + held);
            assert forall|guid: Seq<char>| #[trigger] says_pause(sent, guid, true) == (
            pausing.contains(guid) || self.pause_budget.held && guid == self.server_uuid) by {
                let x = WireMessageView::PlayerPause(PlayerPauseView { guid, pause: true });
                if sent.contains(x) {
                    let k = choose|k: int| 0 <= k < sent.len() && sent[k] == x;
                    if 0 < k <= msgs.len() {
                        assert(sent[k] == msgs[k - 1]);
                        assert(pausing[k - 1] == guid);
                    }
                }
                if pausing.contains(guid) {
                    let k = choose|k: int| 0 <= k < pausing.len() && pausing[k] == guid;
                    assert(sent[k + 1] == msgs[k]);
                }
                if self.pause_budget.held && guid == self.server_uuid {
                    assert(sent[(msgs.len() + 1) as int] == x);
                }
            }
        } else {
            assert(sent =~= self.hears(announced, p));
        }
    }

    /// What a mismatch is told as.
    proof fn lemma_mismatch_told(self, m: HashMismatchView, p: PeerID)
        requires
            table::distinct(self.sessions),
        ensures
            ({
                let later = self.mismatch_told(m);
                let sent = self.hears(later, p);
                &&& laws::grows(self.effects, later.effects)
                &&& later == (Ctx { effects: later.effects, ..self })
                &&& (match m.recipient {
                    Some(q) => q == p,
                    None => delivery::in_match(self.sessions, p),
                }) ==> sent.len() == 1 && (sent[0] matches WireMessageView::WrongHashPlayers(w)
                    && accuses(w, self.sessions, m))
                &&& !(match m.recipient {
                    Some(q) => q == p,
                    None => delivery::in_match(self.sessions, p),
                }) ==> sent == Seq::<WireMessageView>::empty()
            }),
    {
        let names = stream::names_of(self.sessions, m.mismatched);
        let w = WrongHashPlayersView {
            turn: m.turn,
            hash_expected: m.reference,
            player_names: names,
        };
        lemma_names(self.sessions, m.mismatched);
        assert(accuses(w, self.sessions, m));
        let msg = WireMessageView::WrongHashPlayers(w);
        match m.recipient {
            Some(q) => self.lemma_sent_heard(q, msg, p),
            None => self.lemma_heard(Audience::InGame, None, msg, p),
        }
    }

    /// Each of these mismatches is told to whom it concerns: everyone in the
    /// match, or the one it is only for. It names every admitted client whose
    /// hash differs, and nobody else. Nobody is told anything more.
    pub proof fn mismatches_name_who_differs(self, found: Seq<HashMismatchView>, p: PeerID)
        requires
            table::distinct(self.sessions),
        ensures
            ({
                let later = self.mismatches_told(found);
                let sent = self.hears(later, p);
                &&& laws::grows(self.effects, later.effects)
                &&& later == (Ctx { effects: later.effects, ..self })
                &&& forall|k: int|
                    0 <= k < found.len() && (match (#[trigger] found[k]).recipient {
                        Some(q) => q == p,
                        None => delivery::in_match(self.sessions, p),
                    }) ==> reported(sent, self.sessions, found[k])
                &&& forall|i: int|
                    0 <= i < sent.len() ==> (
                    #[trigger] sent[i] matches WireMessageView::WrongHashPlayers(w) && exists|
                        k: int,
                    |
                        0 <= k < found.len() && accuses(w, self.sessions, #[trigger] found[k]))
            }),
        decreases found.len(),
    {
        let later = self.mismatches_told(found);
        if found.len() == 0 {
            assert(later.effects.skip(self.effects.len() as int) =~= Seq::empty());
        } else {
            let before = found.drop_last();
            let last = found.last();
            self.mismatches_name_who_differs(before, p);
            let mid = self.mismatches_told(before);
            mid.lemma_mismatch_told(last, p);
            self.lemma_hears_then(mid, later, p);
            let was = self.hears(mid, p);
            let more = mid.hears(later, p);
            let sent = self.hears(later, p);
            assert forall|k: int|
                0 <= k < found.len() && (match (#[trigger] found[k]).recipient {
                    Some(q) => q == p,
                    None => delivery::in_match(self.sessions, p),
                }) implies reported(sent, self.sessions, found[k]) by {
                if k < before.len() {
                    assert(before[k] == found[k]);
                    let i = choose|i: int|
                        0 <= i < was.len() && (
                        #[trigger] was[i] matches WireMessageView::WrongHashPlayers(w) && accuses(
                            w,
                            self.sessions,
                            found[k],
                        ));
                    assert(sent[i] == was[i]);
                } else {
                    assert(sent[was.len() as int] == more[0]);
                }
            }
            assert forall|i: int| 0 <= i < sent.len() implies (
            #[trigger] sent[i] matches WireMessageView::WrongHashPlayers(w) && exists|k: int|
                0 <= k < found.len() && accuses(w, self.sessions, #[trigger] found[k])) by {
                if i < was.len() {
                    assert(sent[i] == was[i]);
                    let w = was[i]->WrongHashPlayers_0;
                    let k = choose|k: int|
                        0 <= k < before.len() && accuses(w, self.sessions, #[trigger] before[k]);
                    assert(found[k] == before[k]);
                } else {
                    assert(sent[i] == more[i - was.len()]);
                    assert(found[found.len() - 1] == last);
                }
            }
        }
    }

    /// A state hash that is in order is compared, and whatever differs is told.
    pub proof fn differing_hashes_are_told(
        self,
        phase: Phase,
        settings: Frozen,
        peer: PeerID,
        m: StateHashView,
        issued: Option<Seq<char>>,
        p: PeerID,
    )
        requires
            table::distinct(self.sessions),
            self.turns.hash_fault(peer, m.turn) is None,
        ensures
            ({
                let later = self.match_message(
                    phase,
                    settings,
                    peer,
                    WireMessageView::StateHash(m),
                    issued,
                );
                let sent = self.hears(later, p);
                let found = self.turns.hashed(peer, m.turn, m.hash).1;
                &&& later.turns == self.turns.hashed(peer, m.turn, m.hash).0
                &&& forall|k: int|
                    0 <= k < found.len() && (match (#[trigger] found[k]).recipient {
                        Some(q) => q == p,
                        None => delivery::in_match(self.sessions, p),
                    }) ==> reported(sent, self.sessions, found[k])
                &&& forall|i: int|
                    0 <= i < sent.len() ==> (
                    #[trigger] sent[i] matches WireMessageView::WrongHashPlayers(w) && exists|
                        k: int,
                    |
                        0 <= k < found.len() && accuses(w, self.sessions, #[trigger] found[k]))
            }),
    {
        reveal(Ctx::match_message);
        reveal(Ctx::hash_taken);
        let (turns, found) = self.turns.hashed(peer, m.turn, m.hash);
        let noted = Ctx { turns, ..self };
        noted.mismatches_name_who_differs(found, p);
        let later = self.match_message(
            phase,
            settings,
            peer,
            WireMessageView::StateHash(m),
            issued,
        );
        assert(self.hears(later, p) == noted.hears(later, p));
    }
}

impl Ctx {
    /// A seal or a state hash out of order, or for a turn that cannot be due
    /// yet, is not taken: its client is disconnected for it, and the turns stay
    /// as they are.
    pub proof fn out_of_order_is_punished(
        self,
        phase: Phase,
        settings: Frozen,
        peer: PeerID,
        c: TurnClient,
        seal: TurnSealed,
        hash: StateHashView,
        issued: Option<Seq<char>>,
    )
        requires
            table::lookup(self.turns.clients, peer) == Some(c),
        ensures
            ({
                let a = self.match_message(
                    phase,
                    settings,
                    peer,
                    WireMessageView::TurnSealed(seal),
                    issued,
                );
                let b = self.match_message(
                    phase,
                    settings,
                    peer,
                    WireMessageView::StateHash(hash),
                    issued,
                );
                &&& seal.turn != c.sealed + 1 || seal.turn > self.turns.ready + COMMAND_DELAY ==> {
                    &&& a.turns == self.turns
                    &&& a.effects.last() == (EffectView::Disconnect {
                        peer,
                        reason: DisconnectReason::OutOfSequenceTurnSeal,
                    })
                }
                &&& hash.turn != c.simulated + 1 || hash.turn > self.turns.ready ==> {
                    &&& b.turns == self.turns
                    &&& b.effects.last() == (EffectView::Disconnect {
                        peer,
                        reason: DisconnectReason::OutOfSequenceStateHash,
                    })
                }
            }),
    {
        reveal(Ctx::match_message);
        reveal(Ctx::seal_taken);
        reveal(Ctx::hash_taken);
        reveal(Ctx::dropped);
        reveal(Ctx::slots_told);
    }
}

/// Whether a report of a mismatch is among these messages.
pub open spec fn reported(
    msgs: Seq<WireMessageView>,
    sessions: Seq<(PeerID, SessionView)>,
    m: HashMismatchView,
) -> bool {
    exists|i: int|
        0 <= i < msgs.len() && (#[trigger] msgs[i] matches WireMessageView::WrongHashPlayers(w)
            && accuses(w, sessions, m))
}

proof fn lemma_names(sessions: Seq<(PeerID, SessionView)>, peers: Seq<PeerID>)
    ensures
        ({
            let names = stream::names_of(sessions, peers);
            &&& forall|peer: PeerID, s: SessionView|
                #![trigger peers.contains(peer), s.admitted]
                peers.contains(peer) && table::lookup(sessions, peer) == Some(s) ==> (
                s.admitted matches Some(a) ==> names.contains(a.name))
            &&& forall|name: Seq<char>| #[trigger]
                names.contains(name) ==> exists|peer: PeerID|
                    #![trigger peers.contains(peer)]
                    peers.contains(peer) && (table::lookup(sessions, peer) matches Some(s)
                        && s.admitted matches Some(a) && a.name == name)
        }),
    decreases peers.len(),
{
    if peers.len() > 0 {
        let before = peers.drop_last();
        let last = peers.last();
        lemma_names(sessions, before);
        let was = stream::names_of(sessions, before);
        let names = stream::names_of(sessions, peers);
        assert(peers[peers.len() - 1] == last);
        assert(peers.contains(last));
        assert forall|name: Seq<char>| was.contains(name) implies #[trigger] names.contains(
            name,
        ) by {
            let k = choose|k: int| 0 <= k < was.len() && was[k] == name;
            assert(names[k] == name);
        }
        assert forall|peer: PeerID, s: SessionView|
            #![trigger peers.contains(peer), s.admitted]
            peers.contains(peer) && table::lookup(sessions, peer) == Some(s) implies (
        s.admitted matches Some(a) ==> names.contains(a.name)) by {
            let k = choose|k: int| 0 <= k < peers.len() && peers[k] == peer;
            if k < before.len() {
                assert(before[k] == peer);
                assert(before.contains(peer));
            } else if s.admitted is Some {
                assert(names[was.len() as int] == (s.admitted->0).name);
            }
        }
        assert forall|name: Seq<char>| #[trigger] names.contains(name) implies exists|peer: PeerID|
            #![trigger peers.contains(peer)]
            peers.contains(peer) && (table::lookup(sessions, peer) matches Some(s)
                && s.admitted matches Some(a) && a.name == name) by {
            let k = choose|k: int| 0 <= k < names.len() && names[k] == name;
            if k < was.len() {
                assert(was[k] == name);
                assert(was.contains(name));
                let peer = choose|peer: PeerID|
                    #![trigger before.contains(peer)]
                    before.contains(peer) && (table::lookup(sessions, peer) matches Some(s)
                        && s.admitted matches Some(a) && a.name == name);
                let j = choose|j: int| 0 <= j < before.len() && before[j] == peer;
                assert(peers[j] == peer);
                assert(peers.contains(peer));
            } else {
                assert(peers.contains(last));
            }
        }
    }
}

} // verus!
