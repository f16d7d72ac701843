//! What those who come, those who go and everyone else see of it.

use vstd::prelude::*;

use crate::network_message::Ipv4Addr;
use crate::network_message::PeerID;
use crate::relay::auth;
use crate::relay::auth::LateObserverPolicy;
use crate::relay::gamestate_transfer;
use crate::relay::messages::items;
use crate::relay::messages::AckView;
use crate::relay::messages::AuthenticateResultCode;
use crate::relay::messages::AuthenticateResultView;
use crate::relay::messages::AuthenticateView;
use crate::relay::messages::ChatView;
use crate::relay::messages::HostView;
use crate::relay::messages::JoinView;
use crate::relay::messages::KickedView;
use crate::relay::messages::PlayerSlotsView;
use crate::relay::messages::SynAckView;
use crate::relay::messages::SynView;
use crate::relay::messages::WireMessageView;
use crate::relay::observer_feed::DueJoinView;
use crate::relay::server_fsm::admission;
use crate::relay::server_fsm::admission::AuthVerdictView;
use crate::relay::server_fsm::admission::ACK_FLAG_LOBBY_AUTH;
use crate::relay::server_fsm::admission::GAME_VERSION;
use crate::relay::server_fsm::admission::LOGIN_MESSAGE;
use crate::relay::server_fsm::admission::SYN_CHALLENGE;
use crate::relay::server_fsm::config::SIMULATION_VERSION;
use crate::relay::server_fsm::context;
use crate::relay::server_fsm::context::Audience;
use crate::relay::server_fsm::context::Ctx;
use crate::relay::server_fsm::event::EffectView;
use crate::relay::server_fsm::event::InputView;
use crate::relay::server_fsm::event::Phase;
use crate::relay::server_fsm::laws;
use crate::relay::server_fsm::preparing;
use crate::relay::server_fsm::reason::DisconnectReason;
use crate::relay::server_fsm::settings::Frozen;
use crate::relay::server_fsm::stream;
use crate::relay::session::AdmittedView;
use crate::relay::session::Role;
use crate::relay::session::SessionView;
use crate::relay::slots;
use crate::relay::slots::SlotView;
use crate::relay::turn::HashMismatchView;
use crate::table;
use crate::utils;

verus! {

impl Ctx {
    /// Whoever connects from an address that is not banned has a session with
    /// nothing in it yet, and is challenged with the protocol, the engine and
    /// the mods the match is played with; nobody else notices.
    pub proof fn newcomers_are_challenged(
        self,
        phase: Phase,
        settings: Option<Frozen>,
        peer: PeerID,
        addr: Ipv4Addr,
        issued: Option<Seq<char>>,
        p: PeerID,
    )
        requires
            !self.banned_ips.contains(addr),
        ensures
            ({
                let input = InputView::Connected { peer, addr };
                let later = self.common_input(phase, settings, input, issued);
                &&& table::lookup(later.sessions, peer) matches Some(s) && s.addr == addr
                    && s.uuid is None && s.admitted is None && s.lobby_name is None
                &&& p != peer ==> table::lookup(later.sessions, p) == table::lookup(
                    self.sessions,
                    p,
                )
                &&& self.hears(later, p) == (if p == peer {
                    seq![
                        WireMessageView::Syn(
                            SynView {
                                magic: SYN_CHALLENGE,
                                protocol_version: GAME_VERSION,
                                engine_version: SIMULATION_VERSION@,
                                enabled_mods: items::views(self.config.enabled_mods@),
                            },
                        ),
                    ]
                } else {
                    Seq::empty()
                })
            }),
    {
        reveal(Ctx::common_input);
        reveal(Ctx::connected);
        let fresh = SessionView::fresh(addr);
        table::lemma_with_row_lookup(self.sessions, peer, fresh, p);
        let mid = Ctx { sessions: table::with_row(self.sessions, peer, fresh), ..self };
        mid.lemma_sent_heard(
            peer,
            WireMessageView::Syn(
                SynView {
                    magic: SYN_CHALLENGE,
                    protocol_version: GAME_VERSION,
                    engine_version: SIMULATION_VERSION@,
                    enabled_mods: items::views(self.config.enabled_mods@),
                },
            ),
            p,
        );
    }

    /// A client that answers the challenge with the same protocol, engine and
    /// mods has the identity that is issued, and is told it; in lobby mode it
    /// is told to go through the lobby, unless it may be the AI host. One whose
    /// answer differs keeps no identity and is sent away.
    pub proof fn handshakes_give_an_identity(
        self,
        phase: Phase,
        settings: Option<Frozen>,
        peer: PeerID,
        m: SynAckView,
        uuid: Seq<char>,
        p: PeerID,
    )
        requires
            table::lookup(self.sessions, peer) matches Some(s) && s.uuid is None && s.admitted
                is None,
        ensures
            ({
                let s = table::lookup(self.sessions, peer)->0;
                let later = self.common_message(
                    phase,
                    settings,
                    peer,
                    WireMessageView::SynAck(m),
                    Some(uuid),
                );
                let agrees = m.protocol_version == GAME_VERSION && auth::same_setup(
                    SIMULATION_VERSION@,
                    items::views(self.config.enabled_mods@),
                    m.engine_version,
                    m.enabled_mods,
                );
                let may_be_ai = s.addr.loopback() && (self.ai_host matches Some(ai) && ai.peer
                    is None);
                &&& p != peer ==> table::lookup(later.sessions, p) == table::lookup(
                    self.sessions,
                    p,
                )
                &&& agrees ==> {
                    &&& table::lookup(later.sessions, peer) == Some(
                        SessionView { uuid: Some(uuid), ..s },
                    )
                    &&& self.hears(later, p) == (if p == peer {
                        seq![
                            WireMessageView::Ack(
                                AckView {
                                    use_protocol_version: GAME_VERSION,
                                    flags: if self.config.lobby_mode && !may_be_ai {
                                        ACK_FLAG_LOBBY_AUTH
                                    } else {
                                        0
                                    },
                                    guid: uuid,
                                },
                            ),
                        ]
                    } else {
                        Seq::empty()
                    })
                }
                &&& !agrees ==> {
                    &&& later.sessions == self.sessions
                    &&& later.effects == self.effects.push(
                        EffectView::Disconnect {
                            peer,
                            reason: if m.protocol_version == GAME_VERSION {
                                DisconnectReason::SimulationOrModMismatch
                            } else {
                                DisconnectReason::GameVersionMismatch
                            },
                        },
                    )
                }
            }),
    {
        reveal(Ctx::common_message);
        reveal(Ctx::handshaken);
        reveal(Ctx::dropped);
        let s = table::lookup(self.sessions, peer)->0;
        let known = SessionView { uuid: Some(uuid), ..s };
        table::lemma_with_row_lookup(self.sessions, peer, known, p);
        let mid = Ctx { sessions: table::with_row(self.sessions, peer, known), ..self };
        mid.lemma_sent_heard(
            peer,
            WireMessageView::Ack(
                AckView {
                    use_protocol_version: GAME_VERSION,
                    flags: if self.config.lobby_mode && !self.ai_host_expected(s.addr) {
                        ACK_FLAG_LOBBY_AUTH
                    } else {
                        0
                    },
                    guid: uuid,
                },
            ),
            p,
        );
    }

    /// During setup whoever has the right password, and in lobby mode the
    /// lobby's word, is let in under the name they gave, as long as it is
    /// nobody else's, not reserved and not banned, and there is room; where
    /// there is none they are told so.
    pub proof fn the_entitled_get_in(self, peer: PeerID, m: AuthenticateView, uuid: Seq<char>)
        requires
            table::lookup(self.sessions, peer) matches Some(s) && s.uuid == Some(uuid)
                && s.admitted is None && (self.config.lobby_mode ==> s.lobby_name is Some
                && admission::lobby_agrees(m.name, s.lobby_name)) && !self.claims_ai_host(
                s,
                m.name,
            ),
            self.password_right(m),
            !auth::is_reserved(auth::sanitized(m.name)),
            forall|i: int|
                0 <= i < self.sessions.len() ==> ((#[trigger] self.sessions[i]).1.admitted
                    matches Some(a) ==> a.name != auth::sanitized(m.name)),
            !self.banned_names.contains(self.ban_key(auth::sanitized(m.name))),
        ensures
            self.verdict(
                Phase::Setup,
                peer,
                m,
                self.lobby_right(peer, m),
                self.password_right(m),
            ) == (if self.sessions.len() < self.config.max_sessions {
                AuthVerdictView::Admit {
                    uuid,
                    name: auth::sanitized(m.name),
                    joining: false,
                    ai_host: false,
                }
            } else {
                AuthVerdictView::Refuse(DisconnectReason::ServerFull)
            }),
    {
        reveal(Ctx::verdict);
        let name = auth::sanitized(m.name);
        lemma_names_taken(self.sessions, name);
        auth::found_names(name, admission::admitted_names(self.sessions));
    }

    /// During a match someone who left under the name they give now is let
    /// back in, however full it is; anyone else only where the policy has room
    /// for observers. Once it is over nobody is.
    pub proof fn those_who_left_may_return(
        self,
        phase: Phase,
        peer: PeerID,
        m: AuthenticateView,
        uuid: Seq<char>,
        i: int,
    )
        requires
            phase == Phase::InGame || phase == Phase::PostGame,
            table::lookup(self.sessions, peer) matches Some(s) && s.uuid == Some(uuid)
                && s.admitted is None && (self.config.lobby_mode ==> s.lobby_name is Some
                && admission::lobby_agrees(m.name, s.lobby_name)) && !self.claims_ai_host(
                s,
                m.name,
            ),
            self.password_right(m),
            !auth::is_reserved(auth::sanitized(m.name)),
            forall|i: int|
                0 <= i < self.sessions.len() ==> ((#[trigger] self.sessions[i]).1.admitted
                    matches Some(a) ==> a.name != auth::sanitized(m.name)),
            !self.banned_names.contains(self.ban_key(auth::sanitized(m.name))),
            0 <= i < self.slots.len(),
            !self.slots[i].1.connected,
            self.slots[i].1.name == auth::sanitized(m.name),
        ensures
            ({
                let verdict = self.verdict(
                    phase,
                    peer,
                    m,
                    self.lobby_right(peer, m),
                    self.password_right(m),
                );
                &&& phase == Phase::InGame ==> verdict == (AuthVerdictView::Admit {
                    uuid,
                    name: auth::sanitized(m.name),
                    joining: true,
                    ai_host: false,
                })
                &&& phase == Phase::PostGame ==> verdict == AuthVerdictView::Refuse(
                    DisconnectReason::MatchInProgress,
                )
            }),
    {
        reveal(Ctx::verdict);
        let name = auth::sanitized(m.name);
        lemma_names_taken(self.sessions, name);
        auth::found_names(name, admission::admitted_names(self.sessions));
        slots::lemma_left_by(self.slots, name);
    }

    /// Into a running match someone new only comes as an observer, if the
    /// policy lets them and there is room: no more observers than the limit,
    /// and a place kept for every player who left.
    pub proof fn latecomers_need_leave(self, peer: PeerID, m: AuthenticateView, uuid: Seq<char>)
        requires
            table::lookup(self.sessions, peer) matches Some(s) && s.uuid == Some(uuid)
                && s.admitted is None && (self.config.lobby_mode ==> s.lobby_name is Some
                && admission::lobby_agrees(m.name, s.lobby_name)) && !self.claims_ai_host(
                s,
                m.name,
            ),
            self.password_right(m),
            !auth::is_reserved(auth::sanitized(m.name)),
            forall|i: int|
                0 <= i < self.sessions.len() ==> ((#[trigger] self.sessions[i]).1.admitted
                    matches Some(a) ==> a.name != auth::sanitized(m.name)),
            !self.banned_names.contains(self.ban_key(auth::sanitized(m.name))),
            forall|i: int|
                0 <= i < self.slots.len() ==> (#[trigger] self.slots[i]).1.connected
                    || self.slots[i].1.name != auth::sanitized(m.name),
        ensures
            ({
                let name = auth::sanitized(m.name);
                let welcome = match self.config.late_observer_policy {
                    LateObserverPolicy::Deny => false,
                    LateObserverPolicy::Buddies => items::views(self.config.buddies@).contains(
                        auth::without_suffix(name),
                    ),
                    LateObserverPolicy::Everyone => true,
                };
                let room = self.sessions.len() - preparing::players_present(self.slots)
                    <= self.config.observer_limit && self.sessions.len()
                    + preparing::players_missing(self.slots) < self.config.max_sessions;
                self.verdict(
                    Phase::InGame,
                    peer,
                    m,
                    self.lobby_right(peer, m),
                    self.password_right(m),
                ) == (if !welcome {
                    AuthVerdictView::Refuse(DisconnectReason::MatchInProgress)
                } else if !room {
                    AuthVerdictView::Refuse(DisconnectReason::ServerFull)
                } else {
                    AuthVerdictView::Admit { uuid, name, joining: true, ai_host: false }
                })
            }),
    {
        reveal(Ctx::verdict);
        let name = auth::sanitized(m.name);
        lemma_names_taken(self.sessions, name);
        auth::found_names(name, admission::admitted_names(self.sessions));
        slots::lemma_left_by(self.slots, name);
        preparing::lemma_players_counted(self.slots);
    }

    /// A name that someone here has is not given twice: it is refused, or where
    /// doubled names are allowed, given with a number that makes it another.
    pub proof fn names_are_not_doubled(
        self,
        phase: Phase,
        peer: PeerID,
        m: AuthenticateView,
        uuid: Seq<char>,
        i: int,
    )
        requires
            phase == Phase::Setup || phase == Phase::InGame,
            table::lookup(self.sessions, peer) matches Some(s) && s.uuid == Some(uuid)
                && s.admitted is None && (self.config.lobby_mode ==> s.lobby_name is Some
                && admission::lobby_agrees(m.name, s.lobby_name)) && !self.claims_ai_host(
                s,
                m.name,
            ),
            self.password_right(m),
            !auth::is_reserved(auth::sanitized(m.name)),
            0 <= i < self.sessions.len(),
            self.sessions[i].1.admitted matches Some(a) && a.name == auth::sanitized(m.name),
        ensures
            ({
                let verdict = self.verdict(
                    phase,
                    peer,
                    m,
                    self.lobby_right(peer, m),
                    self.password_right(m),
                );
                &&& self.config.lobby_mode || !self.config.allow_duplicate_names ==> verdict
                    == AuthVerdictView::Refuse(DisconnectReason::NameInUse)
                &&& verdict matches AuthVerdictView::Admit { name, .. } ==> forall|j: int|
                    0 <= j < self.sessions.len() ==> ((#[trigger] self.sessions[j]).1.admitted
                        matches Some(a) ==> a.name != name)
            }),
    {
        reveal(Ctx::verdict);
        let taken = admission::admitted_names(self.sessions);
        auth::found_names(auth::sanitized(m.name), taken);
        assert forall|j: int| 0 <= j < self.sessions.len() implies ((
        #[trigger] self.sessions[j]).1.admitted matches Some(a) ==> taken.contains(a.name)) by {
            lemma_name_taken(self.sessions, j);
        }
    }

    proof fn lemma_placed(
        self,
        phase: Phase,
        peer: PeerID,
        uuid: Seq<char>,
        name: Seq<char>,
        joining: bool,
        secret: Seq<char>,
        p: PeerID,
    ) -> (placed: Ctx)
        requires
            table::distinct(self.sessions),
            table::lookup(self.sessions, peer) is Some,
        ensures
            forall|settings: Option<Frozen>| #[trigger]
                self.let_in(phase, settings, peer, uuid, name, joining, secret) == (if joining {
                    placed.snapshot_sought(settings, peer, true)
                } else {
                    placed
                }),
            placed.server_uuid == self.server_uuid,
            placed.slots == slots::with_newcomer(
                self.slots,
                uuid,
                name,
                phase == Phase::InGame,
            ),
            placed.pause_budget == (match slots::displaced_by(
                self.slots,
                name,
                phase == Phase::InGame,
            ) {
                Some(before) => self.pause_budget.inherited(before, uuid),
                None => self.pause_budget,
            }),
            placed.controller == (if self.becomes_controller(peer, secret) {
                Some(uuid)
            } else {
                self.controller
            }),
            placed.next_client_id == (if self.next_client_id == u16::MAX {
                u16::MAX
            } else {
                (self.next_client_id + 1) as u16
            }),
            table::lookup(placed.sessions, peer) == Some(
                SessionView {
                    admitted: Some(
                        AdmittedView {
                            client_id: self.next_client_id,
                            name,
                            role: if joining {
                                Role::Syncing
                            } else {
                                Role::Setup
                            },
                        },
                    ),
                    ..table::lookup(self.sessions, peer)->0
                },
            ),
            p != peer ==> table::lookup(placed.sessions, p) == table::lookup(self.sessions, p),
            laws::grows(self.effects, placed.effects),
            ({
                let heard = self.hears(placed, p);
                let greeted = self.config.welcome_message@.len() > 0;
                &&& p == peer ==> {
                    &&& heard.len() == (if greeted {
                        3int
                    } else {
                        2
                    })
                    &&& heard[0] == WireMessageView::AuthenticateResult(
                        AuthenticateResultView {
                            code: if joining {
                                AuthenticateResultCode::OkRejoining
                            } else {
                                AuthenticateResultCode::Okay
                            },
                            host_id: self.next_client_id,
                            is_controller: self.becomes_controller(peer, secret),
                            message: LOGIN_MESSAGE@,
                        },
                    )
                    &&& preparing::shows_slots(seq![heard[1]], placed)
                    &&& greeted ==> heard[2] == WireMessageView::Chat(
                        ChatView {
                            sender_guid: self.server_uuid,
                            message: self.config.welcome_message@,
                            receivers: Seq::empty(),
                        },
                    )
                }
                &&& p != peer && preparing::is_admitted(self.sessions, p)
                    ==> preparing::shows_slots(heard, placed)
            }),
    {
        reveal(Ctx::let_in);
        reveal(Ctx::numbered_in);
        reveal(Ctx::with_admitted);
        reveal(Ctx::with_slot);
        reveal(Ctx::welcomed);
        let s = table::lookup(self.sessions, peer)->0;
        let answer = WireMessageView::AuthenticateResult(
            AuthenticateResultView {
                code: if joining {
                    AuthenticateResultCode::OkRejoining
                } else {
                    AuthenticateResultCode::Okay
                },
                host_id: self.next_client_id,
                is_controller: self.becomes_controller(peer, secret),
                message: LOGIN_MESSAGE@,
            },
        );
        let numbered = self.numbered_in(peer, uuid, secret);
        let told = numbered.sent(peer, answer);
        numbered.lemma_sent_heard(peer, answer, p);
        assert(self.hears(told, p) == numbered.hears(told, p));
        let row = SessionView {
            admitted: Some(
                AdmittedView {
                    client_id: self.next_client_id,
                    name,
                    role: if joining {
                        Role::Syncing
                    } else {
                        Role::Setup
                    },
                },
            ),
            ..s
        };
        table::lemma_with_row_lookup(self.sessions, peer, row, p);
        table::lemma_with_row_distinct(self.sessions, peer, row);
        let slotted = told.with_admitted(peer, self.next_client_id, name, joining).with_slot(
            phase,
            uuid,
            name,
        );
        assert(slotted.effects == told.effects);
        slotted.lemma_slots_heard(phase, p);
        let shown = slotted.slots_told_in(phase);
        assert(self.hears(slotted, p) == self.hears(told, p));
        self.lemma_hears_then(slotted, shown, p);
        let placed = shown.welcomed(peer);
        shown.lemma_said_heard(Some(peer), self.config.welcome_message@, p);
        if self.config.welcome_message@.len() > 0 {
            self.lemma_hears_then(shown, placed, p);
        }
        let heard = self.hears(placed, p);
        if p == peer {
            assert(preparing::is_admitted(slotted.sessions, p));
            assert(seq![heard[1]] =~= slotted.hears(shown, p));
        } else if preparing::is_admitted(self.sessions, p) {
            assert(preparing::is_admitted(slotted.sessions, p));
            assert(heard =~= slotted.hears(shown, p));
        }
        placed
    }

    /// A client that is let in has the next number, the name it goes by and a
    /// row of its own, and is told first its number and whether it is the
    /// controller, then the table with itself in it, then the greeting, if
    /// there is one. The role of controller goes to whoever knows the secret
    /// while nobody has it. Everyone else is shown the table.
    pub proof fn the_admitted_are_told(
        self,
        phase: Phase,
        settings: Option<Frozen>,
        peer: PeerID,
        uuid: Seq<char>,
        name: Seq<char>,
        secret: Seq<char>,
        p: PeerID,
    )
        requires
            table::distinct(self.sessions),
            table::lookup(self.sessions, peer) is Some,
        ensures
            ({
                let verdict = AuthVerdictView::Admit { uuid, name, joining: false, ai_host: false };
                let later = self.judged(phase, settings, peer, verdict, secret);
                let is_ai = self.ai_host matches Some(ai) && ai.peer == Some(peer);
                let leads = self.controller is None && secret == self.config.controller_secret@
                    && !is_ai;
                let heard = self.hears(later, p);
                let greeted = self.config.welcome_message@.len() > 0;
                &&& table::lookup(later.sessions, peer) == Some(
                    SessionView {
                        admitted: Some(
                            AdmittedView {
                                client_id: self.next_client_id,
                                name,
                                role: Role::Setup,
                            },
                        ),
                        ..table::lookup(self.sessions, peer)->0
                    },
                )
                &&& p != peer ==> table::lookup(later.sessions, p) == table::lookup(
                    self.sessions,
                    p,
                )
                &&& self.next_client_id < u16::MAX ==> later.next_client_id == self.next_client_id
                    + 1
                &&& later.controller == (if leads {
                    Some(uuid)
                } else {
                    self.controller
                })
                &&& phase != Phase::InGame ==> table::lookup(later.slots, uuid) == Some(
                    SlotView { name, slot: -1i8, status: 0, connected: true },
                )
                &&& p == peer ==> {
                    &&& heard.len() == (if greeted {
                        3int
                    } else {
                        2
                    })
                    &&& heard[0] == WireMessageView::AuthenticateResult(
                        AuthenticateResultView {
                            code: AuthenticateResultCode::Okay,
                            host_id: self.next_client_id,
                            is_controller: leads,
                            message: LOGIN_MESSAGE@,
                        },
                    )
                    &&& preparing::shows_slots(seq![heard[1]], later)
                    &&& greeted ==> heard[2] == WireMessageView::Chat(
                        ChatView {
                            sender_guid: self.server_uuid,
                            message: self.config.welcome_message@,
                            receivers: Seq::empty(),
                        },
                    )
                }
                &&& p != peer && preparing::is_admitted(self.sessions, p)
                    ==> preparing::shows_slots(heard, later)
            }),
    {
        let placed = self.lemma_placed(phase, peer, uuid, name, false, secret, p);
        assert(self.let_in(phase, settings, peer, uuid, name, false, secret) == placed);
        table::lemma_with_row_lookup(self.slots, uuid, slots::fresh(name), uuid);
    }

    /// A client that joins a match in progress is told so, with its number, and
    /// fetches a snapshot before it is in the match. Coming back under the name
    /// they left with, it has the player they left behind.
    pub proof fn joiners_are_told(
        self,
        settings: Option<Frozen>,
        peer: PeerID,
        uuid: Seq<char>,
        name: Seq<char>,
        secret: Seq<char>,
    )
        requires
            table::distinct(self.sessions),
            table::lookup(self.sessions, peer) is Some,
        ensures
            ({
                let phase = Phase::InGame;
                let verdict = AuthVerdictView::Admit { uuid, name, joining: true, ai_host: false };
                let later = self.judged(phase, settings, peer, verdict, secret);
                let heard = self.hears(later, peer);
                &&& table::lookup(later.sessions, peer) == Some(
                    SessionView {
                        admitted: Some(
                            AdmittedView {
                                client_id: self.next_client_id,
                                name,
                                role: Role::Syncing,
                            },
                        ),
                        ..table::lookup(self.sessions, peer)->0
                    },
                )
                &&& heard.len() >= 2
                &&& heard[0] matches WireMessageView::AuthenticateResult(r)
                &&& r.code == AuthenticateResultCode::OkRejoining
                &&& r.host_id == self.next_client_id
                &&& heard[1] matches WireMessageView::PlayerSlots(list)
                &&& shows_row(list.hosts, uuid, name)
            }),
    {
        let phase = Phase::InGame;
        let placed = self.lemma_placed(phase, peer, uuid, name, true, secret, peer);
        let later = placed.snapshot_sought(settings, peer, true);
        assert(self.let_in(phase, settings, peer, uuid, name, true, secret) == later);
        placed.lemma_sought_remembers(settings, peer, true);
        placed.lemma_sought_keeps(settings, peer, true);
        self.lemma_hears_then(placed, later, peer);
        let heard = self.hears(placed, peer);
        assert(self.hears(later, peer)[0] == heard[0]);
        assert(self.hears(later, peer)[1] == heard[1]);
        let list = heard[1]->PlayerSlots_0;
        assert(seq![heard[1]][0] == heard[1]);
        assert(preparing::shows(list, placed.slots, placed.server_uuid));
        slots::lemma_left_by(self.slots, name);
        table::lemma_index_of(self.slots, uuid);
        let at = match slots::left_by(self.slots, name) {
            Some(i) => i,
            None => match table::index_of(self.slots, uuid) {
                Some(i) => i,
                None => self.slots.len() as int,
            },
        };
        let e = placed.slots[at].1;
        assert(placed.slots[at] == (uuid, e) && e.connected && e.name == name);
        assert(placed.slots.contains((uuid, e)));
        let h = HostView {
            guid: uuid,
            name: e.name,
            player_id: e.slot,
            status: e.status,
        };
        let k = choose|k: int|
            0 <= k < list.hosts.drop_last().len() && list.hosts.drop_last()[k] == h;
        assert(list.hosts[k] == h);
    }

    /// Whoever comes back under the name they left with has what was left of
    /// their pause quota, and no more.
    pub proof fn returning_keeps_the_quota(
        self,
        settings: Option<Frozen>,
        peer: PeerID,
        uuid: Seq<char>,
        name: Seq<char>,
        secret: Seq<char>,
        i: int,
    )
        requires
            table::distinct(self.sessions),
            table::lookup(self.sessions, peer) is Some,
            0 <= i < self.slots.len(),
            !self.slots[i].1.connected,
            self.slots[i].1.name == name,
            forall|j: int|
                0 <= j < i ==> (#[trigger] self.slots[j]).1.connected || self.slots[j].1.name
                    != name,
            table::has_key(self.pause_budget.left, self.slots[i].0),
        ensures
            ({
                let verdict = AuthVerdictView::Admit { uuid, name, joining: true, ai_host: false };
                let later = self.judged(Phase::InGame, settings, peer, verdict, secret);
                later.pause_budget.remaining(uuid) == self.pause_budget.remaining(self.slots[i].0)
            }),
    {
        let phase = Phase::InGame;
        let placed = self.lemma_placed(phase, peer, uuid, name, true, secret, peer);
        let later = placed.snapshot_sought(settings, peer, true);
        assert(self.let_in(phase, settings, peer, uuid, name, true, secret) == later);
        placed.lemma_sought_keeps(settings, peer, true);
        slots::lemma_left_by(self.slots, name);
        let at = slots::left_by(self.slots, name)->0;
        assert(at == i) by {
            if at < i {
                assert(self.slots[at].1.connected || self.slots[at].1.name != name);
            } else if i < at {
                assert(self.slots[i].1.connected || self.slots[i].1.name != name);
            }
        }
        self.pause_budget.returning_restores_nothing(self.slots[i].0, uuid);
    }

    proof fn lemma_joins_keep(self, joins: Seq<DueJoinView>)
        ensures
            ({
                let later = self.joins_released(joins);
                later == (Ctx { effects: later.effects, transfers: later.transfers, ..self })
            }),
        decreases joins.len(),
    {
        if joins.len() > 0 {
            self.lemma_joins_keep(joins.drop_last());
        }
    }

    /// What the feed leaves alone.
    pub proof fn lemma_feed_keeps(self)
        ensures
            ({
                let later = self.feed_advanced();
                later == (Ctx {
                    effects: later.effects,
                    transfers: later.transfers,
                    feed: later.feed,
                    ..self
                })
            }),
    {
        let moved = Ctx {
            feed: self.feed.advanced(self.turns.ready, !self.players_remain()),
            ..self
        };
        moved.lemma_fed_grows(self.feed.head, moved.feed.head);
        let fed = moved.fed_turns(self.feed.head, moved.feed.head);
        let cleared = Ctx { feed: fed.feed.flares_sent(), ..fed };
        let msgs = stream::flare_messages(fed.feed.due_flares());
        cleared.lemma_delayed_grows(msgs);
        let flared = cleared.told_delayed_all(msgs);
        Ctx { feed: flared.feed.joins_sent(), ..flared }.lemma_joins_keep(flared.feed.due_joins());
    }

    /// What looking for a snapshot leaves alone.
    pub proof fn lemma_sought_keeps(
        self,
        settings: Option<Frozen>,
        joiner: PeerID,
        allow_dump: bool,
    )
        ensures
            ({
                let later = self.snapshot_sought(settings, joiner, allow_dump);
                &&& later.sessions == self.sessions
                &&& later.controller == self.controller
                &&& later.ai_host == self.ai_host
                &&& later.pause_budget == self.pause_budget
                &&& later.config == self.config
                &&& later.server_uuid == self.server_uuid
                &&& later.slots == self.slots || exists|uuid: Seq<char>|
                    later.slots == #[trigger] slots::with_departure(self.slots, uuid)
            }),
    {
        reveal(Ctx::snapshot_sought);
        reveal(Ctx::delivered);
        reveal(Ctx::dropped);
        reveal(Ctx::slots_told);
        let delayed = self.is_delayed_peer(joiner);
        let usable = if delayed {
            self.feed.head
        } else {
            u32::MAX
        };
        if let (Some(base), Some(f)) = (
            context::newest_at(self.checkpoints.states, usable),
            settings,
        ) {
            let join = JoinView { init_attributes: f.json };
            let held = Ctx {
                feed: self.feed.with_join(joiner, base.turn, join, base.state),
                ..self
            };
            held.lemma_feed_keeps();
        }
    }
}

impl Ctx {
    proof fn lemma_dropped_heard(
        self,
        phase: Phase,
        target: PeerID,
        uuid: Seq<char>,
        reason: DisconnectReason,
        p: PeerID,
    )
        requires
            table::distinct(self.sessions),
            preparing::is_admitted(self.sessions, target),
            preparing::goes_by(self.sessions, target, uuid),
        ensures
            ({
                let later = self.dropped_in(phase, target, reason);
                let marked = Ctx { slots: slots::with_departure(self.slots, uuid), ..self };
                &&& later == (Ctx { effects: later.effects, ..marked })
                &&& laws::grows(self.effects, later.effects)
                &&& preparing::is_admitted(self.sessions, p) ==> preparing::shows_slots(
                    self.hears(later, p),
                    marked,
                )
                &&& later.effects.skip(self.effects.len() as int).contains(
                    EffectView::Disconnect { peer: target, reason },
                )
            }),
    {
        reveal(Ctx::dropped);
        reveal(Ctx::listed);
        let n = self.effects.len() as int;
        let marked = Ctx { slots: slots::with_departure(self.slots, uuid), ..self };
        let told = marked.slots_told();
        let e = EffectView::Disconnect { peer: target, reason };
        let gone = told.doing(e);
        let later = self.dropped_in(phase, target, reason);
        assert(self.dropped(target, reason) == gone);
        marked.lemma_slots_heard(Phase::InGame, p);
        told.lemma_done_quietly(e, p);
        marked.lemma_hears_then(told, gone, p);
        assert(self.hears(gone, p) =~= marked.hears(told, p));
        assert(gone.effects.skip(n).last() == e);
        if phase == Phase::Setup {
            let l = later.effects.last();
            assert(later.effects =~= gone.effects.push(l));
            gone.lemma_done_quietly(l, p);
            self.lemma_hears_then(gone, later, p);
            assert(self.hears(later, p) =~= self.hears(gone, p));
        }
        assert(later.effects.skip(n)[gone.effects.len() - 1 - n] == e);
    }

    /// Whoever the controller removes is disconnected for it, their player is
    /// forfeited and their place marked as left, and everyone admitted is shown
    /// the table without them and then told who was removed.
    pub proof fn kicks_are_carried_out(
        self,
        phase: Phase,
        settings: Option<Frozen>,
        peer: PeerID,
        m: KickedView,
        issued: Option<Seq<char>>,
        target: int,
        uuid: Seq<char>,
        p: PeerID,
    )
        requires
            table::distinct(self.sessions),
            table::distinct(self.slots),
            preparing::controls(self, peer),
            uuid != self.server_uuid,
            0 <= target < self.sessions.len(),
            self.sessions[target].0 != peer,
            !(self.ai_host matches Some(ai) && ai.peer == Some(self.sessions[target].0)),
            self.sessions[target].1.uuid == Some(uuid),
            self.sessions[target].1.admitted matches Some(a) && a.name == m.name,
            forall|j: int|
                0 <= j < target ==> ((#[trigger] self.sessions[j]).1.admitted matches Some(a)
                    ==> a.name != m.name),
        ensures
            ({
                let later = self.common_message(
                    phase,
                    settings,
                    peer,
                    WireMessageView::Kicked(m),
                    issued,
                );
                let heard = self.hears(later, p);
                &&& later.effects.skip(self.effects.len() as int).contains(
                    EffectView::Disconnect {
                        peer: self.sessions[target].0,
                        reason: if m.ban {
                            DisconnectReason::Banned
                        } else {
                            DisconnectReason::Kicked
                        },
                    },
                )
                &&& later.forfeited.contains(uuid)
                &&& preparing::is_admitted(self.sessions, p) ==> {
                    &&& heard.len() == 2
                    &&& heard[0] matches WireMessageView::PlayerSlots(list)
                    &&& lacks(list.hosts, uuid)
                    &&& heard[1] == WireMessageView::Kicked(m)
                }
            }),
    {
        reveal(Ctx::common_message);
        reveal(Ctx::kicked);
        let n = self.effects.len() as int;
        let who = self.sessions[target].0;
        lemma_named(self.sessions, m.name, target);
        table::lemma_index_is(self.sessions, who, target);
        let reason = if m.ban {
            DisconnectReason::Banned
        } else {
            DisconnectReason::Kicked
        };
        let mid = self.banned(who, m).forfeits(who);
        utils::lemma_pushed(self.forfeited, uuid, uuid);
        mid.lemma_dropped_heard(phase, who, uuid, reason, p);
        let gone = mid.dropped_in(phase, who, reason);
        gone.lemma_heard(Audience::Admitted, None, WireMessageView::Kicked(m), p);
        let later = gone.broadcast(WireMessageView::Kicked(m), Audience::Admitted);
        mid.lemma_hears_then(gone, later, p);
        let e = EffectView::Disconnect { peer: who, reason };
        let k = choose|k: int|
            0 <= k < gone.effects.skip(n).len() && gone.effects.skip(n)[k] == e;
        assert(later.effects.skip(n)[k] == e);
        assert(self.hears(later, p) == mid.hears(later, p));
        if preparing::is_admitted(self.sessions, p) {
            let marked = Ctx { slots: slots::with_departure(mid.slots, uuid), ..mid };
            let heard = mid.hears(gone, p);
            lemma_lacks(self.slots, heard[0]->PlayerSlots_0, uuid, self.server_uuid);
        }
    }

    /// Who is not let in hears no more than why: a wrong password is noted and
    /// refused, anything else has its own reason, and nothing else changes.
    pub proof fn refusals_say_why(
        self,
        phase: Phase,
        settings: Option<Frozen>,
        peer: PeerID,
        reason: DisconnectReason,
        secret: Seq<char>,
    )
        requires
            table::lookup(self.sessions, peer) matches Some(s) ==> s.admitted is None,
        ensures
            ({
                let refused = self.judged(
                    phase,
                    settings,
                    peer,
                    AuthVerdictView::Refuse(reason),
                    secret,
                );
                let wrong = self.judged(
                    phase,
                    settings,
                    peer,
                    AuthVerdictView::WrongPassword,
                    secret,
                );
                let n = self.effects.len() as int;
                &&& refused == (Ctx { effects: refused.effects, ..self })
                &&& refused.effects.len() > n
                &&& refused.effects[n] == (EffectView::Disconnect { peer, reason })
                &&& wrong == (Ctx { effects: wrong.effects, ..self })
                &&& wrong.effects.len() > n + 1
                &&& wrong.effects[n] == (EffectView::PasswordRejected { peer })
                &&& wrong.effects[n + 1] == (EffectView::Disconnect {
                    peer,
                    reason: DisconnectReason::Refused,
                })
            }),
    {
        reveal(Ctx::dropped);
        reveal(Ctx::listed);
    }

    /// When the lobby says whose session an identity is, that session and no
    /// other has the name, and is prompted for its credentials.
    pub proof fn the_lobby_vouches(
        self,
        phase: Phase,
        settings: Option<Frozen>,
        username: Seq<char>,
        token: Seq<char>,
        issued: Option<Seq<char>>,
        i: int,
        p: PeerID,
    )
        requires
            table::distinct(self.sessions),
            0 <= i < self.sessions.len(),
            self.sessions[i].1.uuid == Some(token),
            forall|j: int| 0 <= j < i ==> (#[trigger] self.sessions[j]).1.uuid != Some(token),
        ensures
            ({
                let input = InputView::LobbyAuth { username, token };
                let later = self.common_input(phase, settings, input, issued);
                let (peer, s) = self.sessions[i];
                &&& table::lookup(later.sessions, peer) == Some(
                    SessionView { lobby_name: Some(username), ..s },
                )
                &&& p != peer ==> table::lookup(later.sessions, p) == table::lookup(
                    self.sessions,
                    p,
                )
                &&& self.hears(later, p) == (if p == peer {
                    seq![
                        WireMessageView::Authenticate(
                            AuthenticateView {
                                name: Seq::empty(),
                                password: Seq::empty(),
                                controller_secret: Seq::empty(),
                            },
                        ),
                    ]
                } else {
                    Seq::empty()
                })
            }),
    {
        reveal(Ctx::common_input);
        reveal(Ctx::lobby_vouched);
        let (peer, s) = self.sessions[i];
        lemma_with_uuid(self.sessions, token, i);
        table::lemma_index_is(self.sessions, peer, i);
        let row = SessionView { lobby_name: Some(username), ..s };
        table::lemma_with_row_lookup(self.sessions, peer, row, p);
        let mid = Ctx { sessions: table::with_row(self.sessions, peer, row), ..self };
        mid.lemma_sent_heard(
            peer,
            WireMessageView::Authenticate(
                AuthenticateView {
                    name: Seq::empty(),
                    password: Seq::empty(),
                    controller_secret: Seq::empty(),
                },
            ),
            p,
        );
    }

    proof fn lemma_live_keeps(self, from: u32, to: u32, length: u16)
        ensures
            ({
                let later = self.all_sealed_live(from, to, length);
                later == (Ctx { effects: later.effects, log: later.log, ..self })
            }),
        decreases to,
    {
        if to > from {
            self.lemma_live_keeps(from, (to - 1) as u32, length);
        }
    }

    proof fn lemma_mismatches_keep(self, found: Seq<HashMismatchView>)
        ensures
            self.mismatches_told(found) == (Ctx {
                effects: self.mismatches_told(found).effects,
                ..self
            }),
        decreases found.len(),
    {
        if found.len() > 0 {
            self.lemma_mismatches_keep(found.drop_last());
        }
    }

    /// What the release of turns leaves alone.
    pub proof fn lemma_release_keeps(self, turn_length_ms: u32)
        ensures
            ({
                let later = self.turns_released(turn_length_ms);
                later == (Ctx {
                    effects: later.effects,
                    transfers: later.transfers,
                    feed: later.feed,
                    turns: later.turns,
                    log: later.log,
                    ..self
                })
            }),
    {
        let after = Ctx { turns: self.turns.released(self.config.observer_lag_limit), ..self };
        after.lemma_live_keeps(self.turns.ready, after.turns.ready, turn_length_ms as u16);
        after.all_sealed_live(
            self.turns.ready,
            after.turns.ready,
            turn_length_ms as u16,
        ).lemma_feed_keeps();
    }

    proof fn lemma_turns_left_keep(self)
        ensures
            ({
                let later = self.left_turns();
                later == (Ctx {
                    effects: later.effects,
                    transfers: later.transfers,
                    feed: later.feed,
                    turns: later.turns,
                    log: later.log,
                    ..self
                })
            }),
    {
        reveal(Ctx::left_turns);
        self.lemma_release_keeps(self.config.turn_length_ms);
        let released = self.turns_released(self.config.turn_length_ms);
        let (turns, found) = released.turns.rechecked();
        Ctx { turns, ..released }.lemma_mismatches_keep(found);
    }

    proof fn lemma_resought_keeps(
        self,
        settings: Option<Frozen>,
        joiners: Seq<PeerID>,
        uuid: Seq<char>,
    )
        ensures
            ({
                let later = self.all_resought(settings, joiners);
                &&& later.sessions == self.sessions
                &&& later.controller == self.controller
                &&& later.ai_host == self.ai_host
                &&& (table::lookup(self.slots, uuid) matches Some(e) && !e.connected)
                    ==> table::lookup(later.slots, uuid) == table::lookup(self.slots, uuid)
            }),
        decreases joiners.len(),
    {
        reveal_with_fuel(Ctx::all_resought, 2);
        if joiners.len() > 0 {
            let before = self.all_resought(settings, joiners.drop_last());
            self.lemma_resought_keeps(settings, joiners.drop_last(), uuid);
            before.lemma_sought_keeps(settings, joiners.last(), true);
            let later = before.snapshot_sought(settings, joiners.last(), true);
            if later.slots != before.slots {
                let u = choose|u: Seq<char>|
                    later.slots == #[trigger] slots::with_departure(before.slots, u);
                if let Some(e) = table::lookup(before.slots, u) {
                    table::lemma_with_row_lookup(
                        before.slots,
                        u,
                        SlotView { connected: false, ..e },
                        uuid,
                    );
                }
            }
        }
    }

    /// When someone admitted leaves, their session is gone and nobody else's
    /// changes; their place is kept, marked as left; the role of controller is
    /// free again if it was theirs and is not kept for them; an AI host that
    /// leaves is not replaced; and everyone still admitted is shown the table
    /// without them.
    pub proof fn departures_are_shown(
        self,
        phase: Phase,
        settings: Option<Frozen>,
        peer: PeerID,
        issued: Option<Seq<char>>,
        uuid: Seq<char>,
        p: PeerID,
    )
        requires
            table::distinct(self.sessions),
            table::distinct(self.slots),
            preparing::is_admitted(self.sessions, peer),
            preparing::goes_by(self.sessions, peer, uuid),
            uuid != self.server_uuid,
        ensures
            ({
                let input = InputView::Disconnected { peer };
                let later = self.common_input(phase, settings, input, issued);
                let heard = self.hears(later, p);
                &&& table::lookup(later.sessions, peer) is None
                &&& p != peer ==> table::lookup(later.sessions, p) == table::lookup(
                    self.sessions,
                    p,
                )
                &&& table::lookup(self.slots, uuid) matches Some(e) ==> table::lookup(
                    later.slots,
                    uuid,
                ) == Some(SlotView { connected: false, ..e })
                &&& later.controller == (if self.controller == Some(uuid)
                    && self.config.release_controller_on_leave {
                    None
                } else {
                    self.controller
                })
                &&& later.ai_host == (if self.ai_host matches Some(ai) && ai.peer == Some(peer) {
                    None
                } else {
                    self.ai_host
                })
                &&& p != peer && preparing::is_admitted(self.sessions, p) ==> exists|k: int|
                    0 <= k < heard.len() && (#[trigger] heard[k] matches
                        WireMessageView::PlayerSlots(list) && lacks(list.hosts, uuid))
            }),
    {
        reveal(Ctx::common_input);
        reveal(Ctx::departed);
        reveal(Ctx::left_dump);
        reveal(Ctx::left_ai_host);
        reveal(Ctx::left_identity);
        let s = table::lookup(self.sessions, peer)->0;
        let base = Ctx {
            sessions: table::without_row(self.sessions, peer),
            transfers: self.transfers.forgotten(peer),
            turns: self.turns.forgotten(peer),
            feed: self.feed.forgotten(peer),
            ..self
        };
        table::lemma_without_row_distinct(self.sessions, peer);
        if p != peer {
            table::lemma_without_row_lookup(self.sessions, peer, p);
        }
        let a = base.left_dump(peer);
        if let Some(d) = self.dump {
            Ctx { dump: None, ..base }.lemma_done_quietly(
                EffectView::CancelStateDump { id: d.id },
                p,
            );
        }
        let b = a.left_ai_host(peer);
        if a.is_ai_host(peer) {
            let stopped = Ctx { ai_host: None, ..a }.doing(EffectView::StopAiHost);
            stopped.lemma_said_heard(None, admission::AI_HOST_LEFT@, p);
        }
        assert(laws::grows(self.effects, b.effects));
        assert(b.sessions == base.sessions && b.slots == self.slots && b.config == self.config);
        let c = b.left_identity(phase, s);
        let lifted = Ctx { pause_budget: b.pause_budget.resumed(uuid), ..b };
        let released = if lifted.controller == Some(uuid)
            && lifted.config.release_controller_on_leave {
            Ctx { controller: None, ..lifted }
        } else {
            lifted
        };
        let marked = Ctx { slots: slots::with_departure(released.slots, uuid), ..released };
        marked.lemma_slots_heard(phase, p);
        assert(c == marked.slots_told_in(phase));
        c.lemma_turns_left_keep();
        c.lemma_turns_left_remembers();
        let d = c.left_turns();
        let orphans = gamestate_transfer::orphans(self.transfers.incoming, peer);
        d.lemma_resought_remembers(settings, orphans);
        d.lemma_resought_keeps(settings, orphans, uuid);
        let later = d.all_resought(settings, orphans);
        if let Some(e) = table::lookup(self.slots, uuid) {
            table::lemma_with_row_lookup(
                self.slots,
                uuid,
                SlotView { connected: false, ..e },
                uuid,
            );
        }
        self.lemma_hears_then(b, c, p);
        c.lemma_hears_then(d, later, p);
        self.lemma_hears_then(c, later, p);
        if p != peer && preparing::is_admitted(self.sessions, p) {
            let heard = self.hears(later, p);
            let first = b.hears(c, p);
            assert(b.hears(c, p) == marked.hears(c, p));
            let k = self.hears(b, p).len() as int;
            assert(heard[k] == first[0]);
            lemma_lacks(self.slots, first[0]->PlayerSlots_0, uuid, self.server_uuid);
        }
    }
}

/// Whether a slot list has nobody of this identity.
pub open spec fn lacks(hosts: Seq<HostView>, uuid: Seq<char>) -> bool {
    forall|k: int| 0 <= k < hosts.len() ==> (#[trigger] hosts[k]).guid != uuid
}

proof fn lemma_lacks(
    rows: slots::SlotRows,
    list: PlayerSlotsView,
    uuid: Seq<char>,
    relay: Seq<char>,
)
    requires
        table::distinct(rows),
        uuid != relay,
        preparing::shows(list, slots::with_departure(rows, uuid), relay),
    ensures
        lacks(list.hosts, uuid),
{
    let marked = slots::with_departure(rows, uuid);
    table::lemma_index_of(rows, uuid);
    assert forall|k: int| 0 <= k < list.hosts.len() implies (#[trigger] list.hosts[k]).guid
        != uuid by {
        if k < list.hosts.len() - 1 {
            let h = list.hosts[k];
            assert(list.hosts.drop_last()[k] == h);
            assert(list.hosts.drop_last().contains(h));
            let e = choose|e: SlotView|
                #![trigger marked.contains((h.guid, e))]
                marked.contains((h.guid, e)) && e.connected && h.name == e.name && h.player_id
                    == e.slot && h.status == e.status;
            let i = choose|i: int| 0 <= i < marked.len() && marked[i] == (h.guid, e);
            if h.guid == uuid {
                let at = table::index_of(rows, uuid)->0;
                assert(rows[i].0 == uuid);
                assert(i == at);
            }
        } else {
            assert(list.hosts[k] == list.hosts.last());
        }
    }
}

proof fn lemma_named(sessions: Seq<(PeerID, SessionView)>, name: Seq<char>, i: int)
    requires
        0 <= i < sessions.len(),
        sessions[i].1.admitted matches Some(a) && a.name == name,
        forall|j: int|
            0 <= j < i ==> ((#[trigger] sessions[j]).1.admitted matches Some(a) ==> a.name != name),
    ensures
        context::session_named(sessions, name) == Some(sessions[i]),
    decreases sessions.len(),
{
    if i > 0 {
        let rest = sessions.drop_first();
        assert(sessions[0].1.name() != Some(name));
        assert forall|j: int| 0 <= j < i - 1 implies ((#[trigger] rest[j]).1.admitted matches Some(
            a,
        ) ==> a.name != name) by {
            assert(rest[j] == sessions[j + 1]);
        }
        lemma_named(rest, name, i - 1);
    }
}

proof fn lemma_with_uuid(sessions: Seq<(PeerID, SessionView)>, uuid: Seq<char>, i: int)
    requires
        0 <= i < sessions.len(),
        sessions[i].1.uuid == Some(uuid),
        forall|j: int| 0 <= j < i ==> (#[trigger] sessions[j]).1.uuid != Some(uuid),
    ensures
        context::session_with(sessions, uuid) == Some(sessions[i]),
    decreases sessions.len(),
{
    if i > 0 {
        let rest = sessions.drop_first();
        assert(sessions[0].1.uuid != Some(uuid));
        assert forall|j: int| 0 <= j < i - 1 implies (#[trigger] rest[j]).1.uuid != Some(uuid) by {
            assert(rest[j] == sessions[j + 1]);
        }
        lemma_with_uuid(rest, uuid, i - 1);
    }
}

proof fn lemma_name_taken(sessions: Seq<(PeerID, SessionView)>, j: int)
    requires
        0 <= j < sessions.len(),
    ensures
        sessions[j].1.admitted matches Some(a) ==> admission::admitted_names(sessions).contains(
            a.name,
        ),
    decreases sessions.len(),
{
    if let Some(a) = sessions[j].1.admitted {
        let rest = sessions.drop_last();
        if j < rest.len() {
            lemma_name_taken(rest, j);
            assert(rest[j] == sessions[j]);
        }
        if let Some(n) = sessions.last().1.name() {
            utils::lemma_pushed(admission::admitted_names(rest), n, a.name);
        }
    }
}

/// Whether a slot list has someone of this identity under this name.
pub open spec fn shows_row(
    hosts: Seq<HostView>,
    uuid: Seq<char>,
    name: Seq<char>,
) -> bool {
    exists|k: int|
        0 <= k < hosts.len() && (#[trigger] hosts[k]).guid == uuid && hosts[k].name == name
}

proof fn lemma_names_taken(sessions: Seq<(PeerID, SessionView)>, name: Seq<char>)
    ensures
        admission::admitted_names(sessions).contains(name) ==> exists|i: int|
            0 <= i < sessions.len() && ((#[trigger] sessions[i]).1.admitted matches Some(a)
                && a.name == name),
    decreases sessions.len(),
{
    if sessions.len() > 0 {
        let rest = sessions.drop_last();
        lemma_names_taken(rest, name);
        let last = sessions.last();
        if let Some(n) = last.1.name() {
            utils::lemma_pushed(admission::admitted_names(rest), n, name);
            if n == name {
                assert(sessions[sessions.len() - 1].1.name() == Some(name));
            }
        }
        if admission::admitted_names(rest).contains(name) {
            let i = choose|i: int|
                0 <= i < rest.len() && ((#[trigger] rest[i]).1.admitted matches Some(a) && a.name
                    == name);
            assert(sessions[i] == rest[i]);
        }
    }
}

} // verus!
