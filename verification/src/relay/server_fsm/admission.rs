//! Who is let in, and what becomes of those who leave.

use vstd::prelude::*;

use crate::network_message::Ipv4Addr;
use crate::network_message::PeerID;
use crate::relay::auth;
use crate::relay::auth::LateObserverPolicy;
use crate::relay::fault::PeerFault;
use crate::relay::gamestate_transfer;
use crate::relay::messages::ack::AckView;
use crate::relay::messages::authenticate::AuthenticateView;
use crate::relay::messages::authenticate_result::AuthenticateResultView;
use crate::relay::messages::chat::ChatView;
use crate::relay::messages::guid;
use crate::relay::messages::items;
use crate::relay::messages::kicked::KickedView;
use crate::relay::messages::syn::SynView;
use crate::relay::messages::syn_ack::SynAckView;
use crate::relay::messages::Ack;
use crate::relay::messages::Authenticate;
use crate::relay::messages::AuthenticateResult;
use crate::relay::messages::AuthenticateResultCode;
use crate::relay::messages::Chat;
use crate::relay::messages::Guid;
use crate::relay::messages::Kicked;
use crate::relay::messages::Syn;
use crate::relay::messages::SynAck;
use crate::relay::messages::WireMessage;
use crate::relay::messages::WireMessageView;
use crate::relay::password;
use crate::relay::pause_budget;
use crate::relay::server_fsm::config::SIMULATION_VERSION;
use crate::relay::server_fsm::context;
use crate::relay::server_fsm::context::Audience;
use crate::relay::server_fsm::context::Context;
use crate::relay::server_fsm::context::Ctx;
use crate::relay::server_fsm::context::PendingDump;
use crate::relay::server_fsm::context::PendingDumpView;
use crate::relay::server_fsm::context::AiHostView;
use crate::relay::server_fsm::event::Effect;
use crate::relay::server_fsm::event::EffectView;
use crate::relay::server_fsm::event::Phase;
use crate::relay::server_fsm::reason::DisconnectReason;
use crate::relay::server_fsm::settings::Frozen;
use crate::relay::server_fsm::settings::FrozenSettings;
use crate::relay::server_fsm::snapshot;
use crate::relay::session::Admitted;
use crate::relay::session::AdmittedView;
use crate::relay::session::Role;
use crate::relay::session::Session;
use crate::relay::session::SessionView;
use crate::relay::slots;
use crate::table;
use crate::utils;

verus! {

pub const SYN_CHALLENGE: u32 = 0x5073013F;

pub const GAME_VERSION: u32 = 0x01010019;

/// The one flag the acknowledgement carries, telling the client to
/// authenticate over the lobby instead of answering straight away.
pub const ACK_FLAG_LOBBY_AUTH: u32 = 0x1;

pub const LOGIN_MESSAGE: &'static str = "Logged in";

/// How many fresh identities to try before giving up on a unique one.
pub const UUID_ATTEMPTS: usize = 8;

/// As many fresh identities as are drawn for one client.
pub open spec fn was_drawn(drawn: Seq<Seq<char>>) -> bool {
    &&& drawn.len() == UUID_ATTEMPTS
    &&& forall|i: int| 0 <= i < drawn.len() ==> guid::uuid_shaped(#[trigger] drawn[i])
}

pub const AI_HOST_LEFT: &'static str = "The AI host left; AI players will stand idle.";

/// What comes of a client's credentials.
#[derive(Debug)]
pub enum AuthVerdict {
    Fault(PeerFault),
    Refuse(DisconnectReason),
    WrongPassword,
    Admit { uuid: Guid, name: String, joining: bool, ai_host: bool },
}

/// What [`AuthVerdict`] is.
pub enum AuthVerdictView {
    Fault(PeerFault),
    Refuse(DisconnectReason),
    WrongPassword,
    Admit { uuid: Seq<char>, name: Seq<char>, joining: bool, ai_host: bool },
}

impl View for AuthVerdict {
    type V = AuthVerdictView;

    open spec fn view(&self) -> AuthVerdictView {
        match *self {
            AuthVerdict::Fault(fault) => AuthVerdictView::Fault(fault),
            AuthVerdict::Refuse(reason) => AuthVerdictView::Refuse(reason),
            AuthVerdict::WrongPassword => AuthVerdictView::WrongPassword,
            AuthVerdict::Admit { uuid, name, joining, ai_host } => AuthVerdictView::Admit {
                uuid: uuid@,
                name: name@,
                joining,
                ai_host,
            },
        }
    }
}

/// Everyone but one.
pub open spec fn other_than(peer: PeerID) -> spec_fn(PeerID) -> bool {
    |p: PeerID| p != peer
}

/// These peers without one.
pub open spec fn but(peers: Seq<PeerID>, peer: PeerID) -> Seq<PeerID> {
    peers.filter(other_than(peer))
}

/// The names everyone is admitted under.
pub open spec fn admitted_names(sessions: Seq<(PeerID, SessionView)>) -> Seq<Seq<char>>
    decreases sessions.len(),
{
    if sessions.len() == 0 {
        Seq::empty()
    } else {
        let before = admitted_names(sessions.drop_last());
        match sessions.last().1.name() {
            Some(name) => before.push(name),
            None => before,
        }
    }
}

/// Whether the lobby's word and the name agree, whatever number is behind it.
pub open spec fn lobby_agrees(name: Seq<char>, lobby_name: Option<Seq<char>>) -> bool {
    utils::lowercase(auth::without_suffix(auth::sanitized(name))) == utils::lowercase(
        match lobby_name {
            Some(n) => n,
            None => Seq::empty(),
        },
    )
}

/// Sessions that were given one of these identities.
pub open spec fn addressed(
    sessions: Seq<(PeerID, SessionView)>,
    uuids: Seq<Seq<char>>,
) -> Seq<PeerID> {
    sessions.filter(
        |row: (PeerID, SessionView)|
            row.1.uuid matches Some(u) && uuids.contains(u),
    ).map_values(|row: (PeerID, SessionView)| row.0)
}

impl Ctx {
    /// A client connects. The ban is checked before anything else, so a banned
    /// address never gets a session or a handshake.
    #[verifier::opaque]
    pub open spec fn connected(self, peer: PeerID, addr: Ipv4Addr) -> Ctx {
        if self.banned_ips.contains(addr) {
            self.doing(EffectView::Disconnect { peer, reason: DisconnectReason::Banned })
        } else {
            Ctx {
                sessions: table::with_row(self.sessions, peer, SessionView::fresh(addr)),
                ..self
            }.sent(
                peer,
                WireMessageView::Syn(
                    SynView {
                        magic: SYN_CHALLENGE,
                        protocol_version: GAME_VERSION,
                        engine_version: SIMULATION_VERSION@,
                        enabled_mods: items::views(self.config.enabled_mods@),
                    },
                ),
            )
        }
    }

    /// A departed joiner no longer waits for the dump under way, and with
    /// nobody left to wait for it the run is cancelled.
    #[verifier::opaque]
    pub open spec fn left_dump(self, peer: PeerID) -> Ctx {
        match self.dump {
            None => self,
            Some(d) => {
                let waiting = but(d.waiting, peer);
                if waiting.len() == 0 {
                    Ctx { dump: None, ..self }.doing(EffectView::CancelStateDump { id: d.id })
                } else {
                    Ctx { dump: Some(PendingDumpView { waiting, ..d }), ..self }
                }
            },
        }
    }

    /// An AI host that left is not started again: a new one would have to
    /// rebuild the match state first, so its players simply stop acting.
    #[verifier::opaque]
    pub open spec fn left_ai_host(self, peer: PeerID) -> Ctx {
        if self.is_ai_host(peer) {
            Ctx { ai_host: None, ..self }.doing(EffectView::StopAiHost).said(None, AI_HOST_LEFT@)
        } else {
            self
        }
    }

    /// What an identity leaves behind. Without a release of the role the match
    /// is stranded: nobody else could ever be promoted. Losing a session
    /// before admission has no further effect.
    #[verifier::opaque]
    pub open spec fn left_identity(self, phase: Phase, session: SessionView) -> Ctx {
        match session.uuid {
            None => self,
            Some(uuid) => {
                let lifted = Ctx { pause_budget: self.pause_budget.resumed(uuid), ..self };
                let released = if lifted.controller == Some(uuid)
                    && lifted.config.release_controller_on_leave {
                    Ctx { controller: None, ..lifted }
                } else {
                    lifted
                };
                if session.admitted is Some {
                    Ctx {
                        slots: slots::with_departure(released.slots, uuid),
                        ..released
                    }.slots_told_in(phase)
                } else {
                    released
                }
            },
        }
    }

    /// A departed client no longer holds up turns, and hash comparison no
    /// longer waits for it.
    #[verifier::opaque]
    pub open spec fn left_turns(self) -> Ctx {
        let released = self.turns_released(self.config.turn_length_ms);
        let (turns, found) = released.turns.rechecked();
        Ctx { turns, ..released }.mismatches_told(found)
    }

    /// A client is gone. Joiners it was sending a snapshot for are served by
    /// another source.
    #[verifier::opaque]
    pub open spec fn departed(self, phase: Phase, settings: Option<Frozen>, peer: PeerID) -> Ctx {
        match table::lookup(self.sessions, peer) {
            None => self,
            Some(session) => Ctx {
                sessions: table::without_row(self.sessions, peer),
                transfers: self.transfers.forgotten(peer),
                turns: self.turns.forgotten(peer),
                feed: self.feed.forgotten(peer),
                ..self
            }.left_dump(peer).left_ai_host(peer).left_identity(phase, session).left_turns()
                .all_resought(
                settings,
                gamestate_transfer::orphans(self.transfers.incoming, peer),
            ),
        }
    }

    /// The lobby's word on whose session a token is. The empty credentials are
    /// the prompt the client waits for before it sends its real ones.
    #[verifier::opaque]
    pub open spec fn lobby_vouched(self, username: Seq<char>, token: Seq<char>) -> Ctx {
        match session_with_token(self.sessions, token) {
            None => self,
            Some((peer, _)) => match table::lookup(self.sessions, peer) {
                None => self,
                Some(s) => Ctx {
                    sessions: table::with_row(
                        self.sessions,
                        peer,
                        SessionView { lobby_name: Some(username), ..s },
                    ),
                    ..self
                }.sent(
                    peer,
                    WireMessageView::Authenticate(
                        AuthenticateView {
                            name: Seq::empty(),
                            password: Seq::empty(),
                            controller_secret: Seq::empty(),
                        },
                    ),
                ),
            },
        }
    }

    /// Whether an identity is nobody's, not even the relay's own: a session
    /// sharing it would make every slot row and chat line ambiguous.
    pub open spec fn is_free(self, uuid: Seq<char>) -> bool {
        uuid != self.server_uuid && context::session_with(self.sessions, uuid) is None
    }

    /// The first of these identities that nobody has.
    pub open spec fn first_free(self, drawn: Seq<Seq<char>>) -> Option<Seq<char>>
        decreases drawn.len(),
    {
        if drawn.len() == 0 {
            None
        } else if self.is_free(drawn[0]) {
            Some(drawn[0])
        } else {
            self.first_free(drawn.drop_first())
        }
    }

    /// An identity is issued unless every one that was drawn is taken, and the
    /// one that is issued was drawn and is nobody's.
    pub proof fn free_identities_are_issued(self, drawn: Seq<Seq<char>>)
        ensures
            match self.first_free(drawn) {
                Some(uuid) => drawn.contains(uuid) && self.is_free(uuid),
                None => forall|i: int| 0 <= i < drawn.len() ==> !self.is_free(#[trigger] drawn[i]),
            },
        decreases drawn.len(),
    {
        if drawn.len() > 0 && !self.is_free(drawn[0]) {
            let rest = drawn.drop_first();
            self.free_identities_are_issued(rest);
            match self.first_free(rest) {
                Some(uuid) => {
                    let k = choose|k: int| 0 <= k < rest.len() && rest[k] == uuid;
                    assert(drawn[k + 1] == uuid);
                },
                None => {
                    assert forall|i: int| 0 <= i < drawn.len() implies !self.is_free(
                        #[trigger] drawn[i],
                    ) by {
                        if i > 0 {
                            assert(rest[i - 1] == drawn[i]);
                        }
                    }
                },
            }
        }
    }

    /// The handshake is answered, with the identity issued for the session. A
    /// session that already holds one is past the handshake: a second would
    /// strand everything that goes by the first.
    #[verifier::opaque]
    pub open spec fn handshaken(
        self,
        phase: Phase,
        peer: PeerID,
        m: SynAckView,
        issued: Option<Seq<char>>,
    ) -> Ctx {
        match table::lookup(self.sessions, peer) {
            None => self.faulted(peer, PeerFault::NoSession),
            Some(s) => if s.uuid is Some {
                self.faulted(peer, PeerFault::WrongPhase)
            } else if m.protocol_version != GAME_VERSION {
                self.dropped(peer, DisconnectReason::GameVersionMismatch)
            } else if !auth::same_setup(
                SIMULATION_VERSION@,
                items::views(self.config.enabled_mods@),
                m.engine_version,
                m.enabled_mods,
            ) {
                self.dropped(peer, DisconnectReason::SimulationOrModMismatch)
            } else {
                match issued {
                    None => self.dropped_in(phase, peer, DisconnectReason::NoUuid),
                    Some(uuid) => Ctx {
                        sessions: table::with_row(
                            self.sessions,
                            peer,
                            SessionView { uuid: Some(uuid), ..s },
                        ),
                        ..self
                    }.sent(
                        peer,
                        WireMessageView::Ack(
                            AckView {
                                use_protocol_version: GAME_VERSION,
                                flags: if self.config.lobby_mode && !self.ai_host_expected(
                                    s.addr,
                                ) {
                                    ACK_FLAG_LOBBY_AUTH
                                } else {
                                    0
                                },
                                guid: uuid,
                            },
                        ),
                    ),
                }
            },
        }
    }

    /// Whether a match in progress takes a latecomer, by the policy.
    pub open spec fn policy_allows(self, name: Seq<char>) -> bool {
        match self.config.late_observer_policy {
            LateObserverPolicy::Deny => false,
            LateObserverPolicy::Buddies => items::views(self.config.buddies@).contains(
                auth::without_suffix(name),
            ),
            LateObserverPolicy::Everyone => true,
        }
    }

    /// Whether there is room for one more observer. The arriving session is
    /// already counted.
    pub open spec fn is_full(self) -> bool {
        let here = slots::players_here(self.slots).len();
        let gone = slots::players_gone(self.slots).len();
        ||| self.sessions.len() - here > self.config.observer_limit
        ||| self.sessions.len() + gone >= self.config.max_sessions
    }

    /// Whether someone of this name is let in now, and if so whether through
    /// the joining path: a recovered slot and a new late observer both are.
    pub open spec fn admission(self, phase: Phase, name: Seq<char>) -> Result<
        bool,
        DisconnectReason,
    > {
        if phase == Phase::PostGame {
            Err(DisconnectReason::MatchInProgress)
        } else if phase == Phase::Setup {
            if self.sessions.len() >= self.config.max_sessions {
                Err(DisconnectReason::ServerFull)
            } else {
                Ok(false)
            }
        } else if slots::left_by(self.slots, name) is Some {
            Ok(true)
        } else if !self.policy_allows(name) {
            Err(DisconnectReason::MatchInProgress)
        } else if self.is_full() {
            Err(DisconnectReason::ServerFull)
        } else {
            Ok(true)
        }
    }

    /// The name a client goes by. Where doubled names are not allowed there is
    /// none for a name that is taken, and where they are, none once every
    /// number behind it is taken too.
    pub open spec fn name_for(self, sanitized: Seq<char>) -> Option<Seq<char>> {
        let taken = admitted_names(self.sessions);
        if !self.config.lobby_mode && self.config.allow_duplicate_names {
            auth::name_left(sanitized, taken)
        } else if taken.contains(sanitized) {
            None
        } else {
            Some(sanitized)
        }
    }

    /// What a ban goes by.
    pub open spec fn ban_key(self, name: Seq<char>) -> Seq<char> {
        if self.config.lobby_mode {
            auth::without_suffix(name)
        } else {
            name
        }
    }

    /// Whether these credentials are the AI host's. It has no lobby account
    /// and is never handed the game password.
    pub open spec fn claims_ai_host(self, s: SessionView, name: Seq<char>) -> bool {
        self.ai_host_expected(s.addr) && name == self.ai_host_name
    }

    /// What comes of a client's credentials, given whether the lobby's word
    /// and the password are in order. The checks run in the order below and
    /// the first match ends it; the order is seen on the wire: when two
    /// conditions hold at once, the reason tells which check ran first.
    #[verifier::opaque]
    pub open spec fn verdict(
        self,
        phase: Phase,
        peer: PeerID,
        m: AuthenticateView,
        lobby_ok: bool,
        password_ok: bool,
    ) -> AuthVerdictView {
        match table::lookup(self.sessions, peer) {
            None => AuthVerdictView::Fault(PeerFault::NoSession),
            Some(s) => match s.uuid {
                None => AuthVerdictView::Fault(PeerFault::WrongPhase),
                Some(uuid) => {
                    let ai_host = self.claims_ai_host(s, m.name);
                    let sanitized = auth::sanitized(m.name);
                    if s.admitted is Some {
                        AuthVerdictView::Fault(PeerFault::WrongPhase)
                    } else if self.config.lobby_mode && s.lobby_name is None && !ai_host {
                        AuthVerdictView::Fault(PeerFault::WrongPhase)
                    } else if phase == Phase::Loading {
                        AuthVerdictView::Refuse(DisconnectReason::ServerLoading)
                    } else if self.config.lobby_mode && !ai_host && !lobby_ok {
                        AuthVerdictView::Refuse(DisconnectReason::LobbyAuthFailed)
                    } else if !password_ok && !ai_host {
                        AuthVerdictView::WrongPassword
                    } else if auth::is_reserved(sanitized) {
                        AuthVerdictView::Refuse(DisconnectReason::NameInUse)
                    } else {
                        match self.name_for(sanitized) {
                            None => AuthVerdictView::Refuse(DisconnectReason::NameInUse),
                            Some(name) => if self.banned_names.contains(self.ban_key(name)) {
                                AuthVerdictView::Refuse(DisconnectReason::Banned)
                            } else {
                                match self.admission(phase, name) {
                                    Err(reason) => AuthVerdictView::Refuse(reason),
                                    Ok(joining) => AuthVerdictView::Admit {
                                        uuid,
                                        name,
                                        joining,
                                        ai_host,
                                    },
                                }
                            },
                        }
                    }
                },
            },
        }
    }

    /// The role of controller is free, and the newcomer knows the secret.
    pub open spec fn becomes_controller(self, peer: PeerID, secret: Seq<char>) -> bool {
        self.controller is None && secret == self.config.controller_secret@ && !self.is_ai_host(
            peer,
        )
    }

    /// The newcomer numbered, and made controller where it is.
    #[verifier::opaque]
    pub open spec fn numbered_in(self, peer: PeerID, uuid: Seq<char>, secret: Seq<char>) -> Ctx {
        Ctx {
            next_client_id: if self.next_client_id == u16::MAX {
                u16::MAX
            } else {
                (self.next_client_id + 1) as u16
            },
            controller: if self.becomes_controller(peer, secret) {
                Some(uuid)
            } else {
                self.controller
            },
            ..self
        }
    }

    /// The session admitted.
    #[verifier::opaque]
    pub open spec fn with_admitted(
        self,
        peer: PeerID,
        client_id: u16,
        name: Seq<char>,
        joining: bool,
    ) -> Ctx {
        match table::lookup(self.sessions, peer) {
            None => self,
            Some(s) => Ctx {
                sessions: table::with_row(
                    self.sessions,
                    peer,
                    SessionView {
                        admitted: Some(
                            AdmittedView {
                                client_id,
                                name,
                                role: if joining {
                                    Role::Syncing
                                } else {
                                    Role::Setup
                                },
                            },
                        ),
                        ..s
                    },
                ),
                ..self
            },
        }
    }

    /// A slot for the newcomer. One is only reclaimed once the match itself is
    /// running; the returning client has a fresh identity, so its pause quota
    /// follows the slot.
    #[verifier::opaque]
    pub open spec fn with_slot(self, phase: Phase, uuid: Seq<char>, name: Seq<char>) -> Ctx {
        let reclaim = phase == Phase::InGame;
        Ctx {
            slots: slots::with_newcomer(self.slots, uuid, name, reclaim),
            pause_budget: match slots::displaced_by(self.slots, name, reclaim) {
                Some(before) => self.pause_budget.inherited(before, uuid),
                None => self.pause_budget,
            },
            ..self
        }
    }

    #[verifier::opaque]
    pub open spec fn welcomed(self, peer: PeerID) -> Ctx {
        if self.config.welcome_message@.len() > 0 {
            self.said(Some(peer), self.config.welcome_message@)
        } else {
            self
        }
    }

    /// A client is let in. The greeting comes after the slot list, so the name
    /// behind its sender is already known to the client.
    #[verifier::opaque]
    pub open spec fn let_in(
        self,
        phase: Phase,
        settings: Option<Frozen>,
        peer: PeerID,
        uuid: Seq<char>,
        name: Seq<char>,
        joining: bool,
        secret: Seq<char>,
    ) -> Ctx {
        let client_id = self.next_client_id;
        let told = self.numbered_in(peer, uuid, secret).sent(
            peer,
            WireMessageView::AuthenticateResult(
                AuthenticateResultView {
                    code: if joining {
                        AuthenticateResultCode::OkRejoining
                    } else {
                        AuthenticateResultCode::Okay
                    },
                    host_id: client_id,
                    is_controller: self.becomes_controller(peer, secret),
                    message: LOGIN_MESSAGE@,
                },
            ),
        );
        let placed = told.with_admitted(peer, client_id, name, joining).with_slot(
            phase,
            uuid,
            name,
        ).slots_told_in(phase).welcomed(peer);
        if joining {
            placed.snapshot_sought(settings, peer, true)
        } else {
            placed
        }
    }

    pub open spec fn with_ai_peer(self, peer: PeerID) -> Ctx {
        match self.ai_host {
            Some(h) => Ctx { ai_host: Some(AiHostView { peer: Some(peer), ..h }), ..self },
            None => self,
        }
    }

    /// A verdict carried out.
    pub open spec fn judged(
        self,
        phase: Phase,
        settings: Option<Frozen>,
        peer: PeerID,
        verdict: AuthVerdictView,
        secret: Seq<char>,
    ) -> Ctx {
        match verdict {
            AuthVerdictView::Fault(fault) => self.faulted(peer, fault),
            AuthVerdictView::Refuse(reason) => self.dropped_in(phase, peer, reason),
            AuthVerdictView::WrongPassword => self.doing(
                EffectView::PasswordRejected { peer },
            ).dropped_in(phase, peer, DisconnectReason::Refused),
            AuthVerdictView::Admit { uuid, name, joining, ai_host } => {
                let host = if ai_host {
                    self.with_ai_peer(peer)
                } else {
                    self
                };
                host.let_in(phase, settings, peer, uuid, name, joining, secret)
            },
        }
    }

    /// Whether the password is right. It is salted with the name as it was
    /// sent, and always checked: a server without a password asks for the
    /// empty one, which is what a client without a password sends.
    pub open spec fn password_right(self, m: AuthenticateView) -> bool {
        password::hashed(
            self.config.server_password_hash@,
            vstd::utf8::encode_utf8(m.name),
        ) == m.password
    }

    pub open spec fn lobby_right(self, peer: PeerID, m: AuthenticateView) -> bool {
        match table::lookup(self.sessions, peer) {
            Some(s) => lobby_agrees(m.name, s.lobby_name),
            None => false,
        }
    }

    #[verifier::opaque]
    pub open spec fn authenticated(
        self,
        phase: Phase,
        settings: Option<Frozen>,
        peer: PeerID,
        m: AuthenticateView,
    ) -> Ctx {
        self.judged(
            phase,
            settings,
            peer,
            self.verdict(phase, peer, m, self.lobby_right(peer, m), self.password_right(m)),
            m.controller_secret,
        )
    }

    /// A chat line is relayed. The relayed copy carries an empty receiver
    /// list, and the sender's claimed identity is replaced so it cannot speak
    /// as anyone else.
    #[verifier::opaque]
    pub open spec fn chatted(self, peer: PeerID, m: ChatView) -> Ctx {
        match self.speaker(peer, Audience::SetupOrInGame) {
            Err(fault) => self.faulted(peer, fault),
            Ok(uuid) => {
                let msg = WireMessageView::Chat(
                    ChatView { sender_guid: uuid, message: m.message, receivers: Seq::empty() },
                );
                if m.receivers.len() == 0 {
                    self.broadcast(msg, Audience::SetupOrInGame)
                } else {
                    self.sent_to(addressed(self.sessions, m.receivers), msg)
                }
            },
        }
    }

    pub open spec fn banned(self, target: PeerID, m: KickedView) -> Ctx {
        if m.ban {
            Ctx {
                banned_names: utils::with_member(self.banned_names, self.ban_key(m.name)),
                banned_ips: match table::lookup(self.sessions, target) {
                    Some(s) => utils::with_member(self.banned_ips, s.addr),
                    None => self.banned_ips,
                },
                ..self
            }
        } else {
            self
        }
    }

    pub open spec fn forfeits(self, target: PeerID) -> Ctx {
        match self.uuid_of(target) {
            Some(uuid) => Ctx {
                forfeited: utils::with_member(self.forfeited, uuid),
                ..self
            },
            None => self,
        }
    }

    /// The controller removes someone. It can never remove itself or the AI
    /// host, and an unknown name does nothing at all.
    #[verifier::opaque]
    pub open spec fn kicked(self, phase: Phase, peer: PeerID, m: KickedView) -> Ctx {
        match self.controlled_by(peer) {
            Err(fault) => self.faulted(peer, fault),
            Ok(_) => match context::session_named(self.sessions, m.name) {
                Some((target, _)) if target != peer && !self.is_ai_host(target) => {
                    let reason = if m.ban {
                        DisconnectReason::Banned
                    } else {
                        DisconnectReason::Kicked
                    };
                    self.banned(target, m).forfeits(target).dropped_in(
                        phase,
                        target,
                        reason,
                    ).broadcast(WireMessageView::Kicked(m), Audience::Admitted)
                },
                _ => self,
            },
        }
    }
}

/// The session a lobby token names.
pub open spec fn session_with_token(
    sessions: Seq<(PeerID, SessionView)>,
    token: Seq<char>,
) -> Option<(PeerID, SessionView)> {
    context::session_with(sessions, token)
}

impl Context {
    pub fn on_connected(&mut self, peer: PeerID, addr: Ipv4Addr)
        requires
            old(self).wf(),
        ensures
            final(self)@ == old(self)@.connected(peer, addr),
            final(self).wf(),
    {
        proof {
            reveal(Ctx::connected);
        }
        if has_addr(&self.banned_ips, addr) {
            self.push_effect(Effect::Disconnect { peer, reason: DisconnectReason::Banned });
            return ;
        }
        self.sessions.put(peer, Session::new(addr));
        // The client compares its mismatch report against this, so it must
        // list exactly the mods the clients run, in load order.
        let syn = Syn {
            magic: SYN_CHALLENGE,
            protocol_version: GAME_VERSION,
            engine_version: utils::copy_text(SIMULATION_VERSION),
            enabled_mods: items::copy_items(&self.config.enabled_mods),
        };
        self.send(peer, WireMessage::Syn(syn));
    }

    fn leave_dump(&mut self, peer: PeerID)
        requires
            old(self).wf(),
        ensures
            final(self)@ == old(self)@.left_dump(peer),
            final(self).wf(),
    {
        proof {
            reveal(Ctx::left_dump);
        }
        if let Some(dump) = self.dump.take() {
            let waiting = peers_but(&dump.waiting, peer);
            if waiting.len() == 0 {
                self.push_effect(Effect::CancelStateDump { id: dump.id });
            } else {
                self.dump = Some(PendingDump { id: dump.id, turn: dump.turn, waiting });
            }
        }
    }

    fn leave_ai_host(&mut self, peer: PeerID)
        requires
            old(self).wf(),
        ensures
            final(self)@ == old(self)@.left_ai_host(peer),
            final(self).wf(),
    {
        proof {
            reveal(Ctx::left_ai_host);
        }
        if self.is_ai_host(peer) {
            self.ai_host = None;
            self.push_effect(Effect::StopAiHost);
            self.server_chat(None, AI_HOST_LEFT);
        }
    }

    fn leave_identity(&mut self, phase: Phase, session: &Session)
        requires
            old(self).wf(),
        ensures
            final(self)@ == old(self)@.left_identity(phase, session@),
            final(self).wf(),
    {
        proof {
            reveal(Ctx::left_identity);
        }
        let uuid = match &session.uuid {
            Some(uuid) => uuid,
            None => return ,
        };
        self.pause_budget.clear_pausing(uuid);
        let controls = match &self.controller {
            Some(c) => c.same(uuid),
            None => false,
        };
        if controls && self.config.release_controller_on_leave {
            self.controller = None;
        }
        if session.admitted.is_some() {
            self.slots.mark_disconnected(uuid);
            self.tell_slots(phase);
        }
    }

    fn leave_turns(&mut self)
        requires
            old(self).wf(),
        ensures
            final(self)@ == old(self)@.left_turns(),
            final(self).wf(),
    {
        proof {
            reveal(Ctx::left_turns);
        }
        let turn_length: u32 = self.config.turn_length_ms;
        self.release_turns(turn_length);
        let found = self.turns.recheck_pending();
        self.report_mismatches(&found);
    }

    pub fn on_disconnected(
        &mut self,
        phase: Phase,
        settings: Option<&FrozenSettings>,
        peer: PeerID,
    )
        requires
            old(self).wf(),
        ensures
            final(self)@ == old(self)@.departed(phase, snapshot::frozen(settings), peer),
            final(self).wf(),
    {
        proof {
            reveal(Ctx::departed);
        }
        proof {
            table::lemma_index_of(self@.sessions, peer);
        }
        let session = match self.sessions.take(&peer) {
            Some(session) => session,
            None => return ,
        };
        let orphaned = self.transfers.forget(peer);
        self.turns.forget(peer);
        self.feed.forget(peer);
        self.leave_dump(peer);
        self.leave_ai_host(peer);
        self.leave_identity(phase, &session);
        self.leave_turns();
        self.resource(settings, &orphaned);
    }

    pub fn on_lobby_auth(&mut self, username: String, token: String)
        requires
            old(self).wf(),
        ensures
            final(self)@ == old(self)@.lobby_vouched(username@, token@),
            final(self).wf(),
    {
        proof {
            reveal(Ctx::lobby_vouched);
        }
        let peer = match self.peer_of(&Guid(token)) {
            Some(peer) => peer,
            None => return ,
        };
        let ghost before = self@.sessions;
        let ghost u = username@;
        if let Some(at) = self.sessions.position(&peer) {
            assert(before[at as int] == table::row_view(self.sessions.rows@[at as int]));
            let row = &mut self.sessions.rows[at];
            row.1.lobby_name = Some(username);
            proof {
                let s = table::lookup(before, peer)->0;
                assert(self.sessions@ =~= before.update(
                    at as int,
                    (peer, SessionView { lobby_name: Some(u), ..s }),
                ));
                reveal_strlit("");
                assert(""@ =~= Seq::empty());
            }
            self.send(
                peer,
                WireMessage::Authenticate(
                    Authenticate {
                        name: utils::copy_text(""),
                        password: utils::copy_text(""),
                        controller_secret: utils::copy_text(""),
                    },
                ),
            );
        }
    }

    /// The first of these identities that nobody has.
    pub fn issued_from(&self, drawn: &Vec<Guid>) -> (r: Option<Guid>)
        ensures
            utils::seen(r) == self@.first_free(items::views(drawn@)),
    {
        let ghost all = items::views(drawn@);
        let mut i: usize = 0;
        assert(all.skip(0) =~= all);
        while i < drawn.len()
            invariant
                all == items::views(drawn@),
                i <= drawn@.len(),
                self@.first_free(all) == self@.first_free(all.skip(i as int)),
            decreases drawn@.len() - i,
        {
            let candidate = &drawn[i];
            proof {
                assert(all.skip(i as int)[0] == candidate@);
                assert(all.skip(i as int).drop_first() =~= all.skip(i + 1));
            }
            if !candidate.same(&self.server_uuid) && self.peer_of(candidate).is_none() {
                return Some(candidate.clone());
            }
            i += 1;
        }
        None
    }

    /// A fresh identity, unless every attempt was taken. Which identities are
    /// drawn is chance.
    pub fn issue_uuid(&self) -> (r: Option<Guid>)
        ensures
            exists|drawn: Seq<Seq<char>>|
                was_drawn(drawn) && utils::seen(r) == #[trigger] self@.first_free(drawn),
    {
        let mut drawn: Vec<Guid> = Vec::new();
        while drawn.len() < UUID_ATTEMPTS
            invariant
                drawn@.len() <= UUID_ATTEMPTS,
                forall|i: int| 0 <= i < drawn@.len() ==> guid::uuid_shaped(#[trigger] drawn@[i]@),
            decreases UUID_ATTEMPTS - drawn@.len(),
        {
            drawn.push(Guid::new());
        }
        assert(was_drawn(items::views(drawn@)));
        self.issued_from(&drawn)
    }

    pub fn on_syn_ack(&mut self, phase: Phase, peer: PeerID, msg: &SynAck, issued: Option<Guid>)
        requires
            old(self).wf(),
        ensures
            final(self)@ == old(self)@.handshaken(phase, peer, msg@, utils::seen(issued)),
            final(self).wf(),
    {
        proof {
            reveal(Ctx::handshaken);
        }
        let (addr, known) = match self.sessions.get(&peer) {
            Some(s) => (s.addr, s.uuid.is_some()),
            None => {
                self.fault(peer, PeerFault::NoSession);
                return ;
            },
        };
        if known {
            self.fault(peer, PeerFault::WrongPhase);
            return ;
        }
        if msg.protocol_version != GAME_VERSION {
            self.disconnect(peer, DisconnectReason::GameVersionMismatch);
            return ;
        }
        if !auth::compatible(
            SIMULATION_VERSION,
            &self.config.enabled_mods,
            msg.engine_version.as_str(),
            &msg.enabled_mods,
        ) {
            // Only on this reason does the client attach its own mismatch
            // details to the message it shows.
            self.disconnect(peer, DisconnectReason::SimulationOrModMismatch);
            return ;
        }
        let uuid = match issued {
            Some(uuid) => uuid,
            None => {
                self.drop_peer(phase, peer, DisconnectReason::NoUuid);
                return ;
            },
        };
        let ghost before = self@.sessions;
        let ghost u = uuid@;
        // The AI host has no lobby account to authenticate with.
        let flags: u32 = if self.config.lobby_mode && !self.ai_host_expected(addr) {
            ACK_FLAG_LOBBY_AUTH
        } else {
            0
        };
        if let Some(at) = self.sessions.position(&peer) {
            assert(before[at as int] == table::row_view(self.sessions.rows@[at as int]));
            let row = &mut self.sessions.rows[at];
            row.1.uuid = Some(uuid.clone());
            proof {
                let s = table::lookup(before, peer)->0;
                assert(self.sessions@ =~= before.update(
                    at as int,
                    (peer, SessionView { uuid: Some(u), ..s }),
                ));
            }
        }
        self.send(
            peer,
            WireMessage::Ack(Ack { use_protocol_version: GAME_VERSION, flags, guid: uuid }),
        );
    }

    fn taken_names(&self) -> (r: Vec<String>)
        ensures
            items::views(r@) == admitted_names(self@.sessions),
            r@.len() <= self@.sessions.len(),
    {
        let ghost all = self.sessions@;
        let mut out: Vec<String> = Vec::new();
        let mut i: usize = 0;
        proof {
            assert(all.take(0) =~= Seq::empty());
            assert(items::views(out@) =~= Seq::empty());
        }
        while i < self.sessions.rows.len()
            invariant
                all == self.sessions@,
                i <= self.sessions.rows@.len(),
                out@.len() <= i,
                items::views(out@) == admitted_names(all.take(i as int)),
            decreases self.sessions.rows@.len() - i,
        {
            let ghost so_far = items::views(out@);
            proof {
                assert(all[i as int] == table::row_view(self.sessions.rows@[i as int]));
                assert(all.take(i + 1).drop_last() =~= all.take(i as int));
                assert(all.take(i + 1).last() == all[i as int]);
            }
            if let Some(name) = self.sessions.rows[i].1.name() {
                let name = utils::copy_text(name);
                let ghost v = name@;
                out.push(name);
                assert(items::views(out@) =~= so_far.push(v));
            }
            i += 1;
        }
        assert(all.take(i as int) =~= all);
        out
    }

    fn name_for(&self, sanitized: String) -> (r: Option<String>)
        requires
            self.wf(),
        ensures
            utils::seen(r) == self@.name_for(sanitized@),
    {
        let taken = self.taken_names();
        if !self.config.lobby_mode && self.config.allow_duplicate_names {
            auth::free_name(sanitized.as_str(), &taken)
        } else if has_text(&taken, sanitized.as_str()) {
            None
        } else {
            Some(sanitized)
        }
    }

    fn ban_key<'a>(&self, name: &'a str) -> (r: &'a str)
        ensures
            r@ == self@.ban_key(name@),
    {
        if self.config.lobby_mode {
            auth::suffix_stripped(name)
        } else {
            name
        }
    }

    fn is_full(&self) -> (r: bool)
        ensures
            r == self@.is_full(),
    {
        let sessions: usize = self.sessions.len();
        let here: usize = self.slots.connected_players();
        let gone: usize = self.slots.disconnected_players();
        let observers: usize = sessions.saturating_sub(here);
        let limit: usize = self.config.max_sessions;
        observers > self.config.observer_limit || gone >= limit || sessions >= limit - gone
    }

    /// Whether someone of this name is let in now.
    pub fn admits(&self, phase: Phase, name: &str) -> (r: Result<bool, DisconnectReason>)
        ensures
            r == self@.admission(phase, name@),
    {
        // A decided match has nothing left to join, and a joiner would only
        // cost a snapshot for a game that is about to close.
        if phase == Phase::PostGame {
            return Err(DisconnectReason::MatchInProgress);
        }
        if phase == Phase::Setup {
            // The arriving session is already counted, which is what leaves a
            // spare peer to answer a full server with.
            if self.sessions.len() >= self.config.max_sessions {
                return Err(DisconnectReason::ServerFull);
            }
            return Ok(false);
        }
        // Join detection is by name, and only against slots someone left.
        if self.slots.has_disconnected_named(name) {
            return Ok(true);
        }
        let allowed = match self.config.late_observer_policy {
            LateObserverPolicy::Deny => false,
            LateObserverPolicy::Buddies => has_text(
                &self.config.buddies,
                auth::suffix_stripped(name),
            ),
            LateObserverPolicy::Everyone => true,
        };
        if !allowed {
            return Err(DisconnectReason::MatchInProgress);
        }
        if self.is_full() {
            return Err(DisconnectReason::ServerFull);
        }
        Ok(true)
    }

    /// What comes of a client's credentials, given whether the lobby's word and
    /// the password are in order.
    pub fn judge(
        &self,
        phase: Phase,
        peer: PeerID,
        msg: &Authenticate,
        lobby_ok: bool,
        password_ok: bool,
    ) -> (r: AuthVerdict)
        requires
            self.wf(),
        ensures
            r@ == self@.verdict(phase, peer, msg@, lobby_ok, password_ok),
    {
        proof {
            reveal(Ctx::verdict);
        }
        let session = match self.sessions.get(&peer) {
            Some(s) => s,
            None => return AuthVerdict::Fault(PeerFault::NoSession),
        };
        let uuid = match &session.uuid {
            Some(uuid) => uuid.clone(),
            // Still awaiting the handshake, so nothing but its answer counts.
            None => return AuthVerdict::Fault(PeerFault::WrongPhase),
        };
        if session.admitted.is_some() {
            return AuthVerdict::Fault(PeerFault::WrongPhase);
        }
        let ai_host = self.ai_host_expected(session.addr) && utils::same_text(
            msg.name.as_str(),
            self.ai_host_name.as_str(),
        );
        if self.config.lobby_mode && session.lobby_name.is_none() && !ai_host {
            // The client has not been prompted yet, so this cannot be its real
            // answer.
            return AuthVerdict::Fault(PeerFault::WrongPhase);
        }
        if phase == Phase::Loading {
            return AuthVerdict::Refuse(DisconnectReason::ServerLoading);
        }
        if self.config.lobby_mode && !ai_host && !lobby_ok {
            return AuthVerdict::Refuse(DisconnectReason::LobbyAuthFailed);
        }
        if !password_ok && !ai_host {
            return AuthVerdict::WrongPassword;
        }
        let sanitized = auth::sanitize(msg.name.as_str());
        // The relay's own slot row wears the reserved prefix, so a client that
        // claims it would put two rows of one name in the slot list.
        if auth::reserved(sanitized.as_str()) {
            return AuthVerdict::Refuse(DisconnectReason::NameInUse);
        }
        let name = match self.name_for(sanitized) {
            Some(name) => name,
            None => return AuthVerdict::Refuse(DisconnectReason::NameInUse),
        };
        if has_text(&self.banned_names, self.ban_key(name.as_str())) {
            return AuthVerdict::Refuse(DisconnectReason::Banned);
        }
        match self.admits(phase, name.as_str()) {
            Ok(joining) => AuthVerdict::Admit { uuid, name, joining, ai_host },
            Err(reason) => AuthVerdict::Refuse(reason),
        }
    }

    fn admit_session(
        &mut self,
        phase: Phase,
        settings: Option<&FrozenSettings>,
        peer: PeerID,
        uuid: Guid,
        name: String,
        joining: bool,
        controller_secret: &str,
    )
        requires
            old(self).wf(),
        ensures
            final(self)@ == old(self)@.let_in(
                phase,
                snapshot::frozen(settings),
                peer,
                uuid@,
                name@,
                joining,
                controller_secret@,
            ),
            final(self).wf(),
    {
        proof {
            reveal(Ctx::let_in);
        }
        let client_id: u16 = self.next_client_id;
        let is_controller = self.number_in(peer, &uuid, controller_secret);
        let code = if joining {
            AuthenticateResultCode::OkRejoining
        } else {
            AuthenticateResultCode::Okay
        };
        self.send(
            peer,
            WireMessage::AuthenticateResult(
                AuthenticateResult {
                    code,
                    host_id: client_id,
                    is_controller,
                    message: utils::copy_text(LOGIN_MESSAGE),
                },
            ),
        );
        self.enter(peer, client_id, name.as_str(), joining);
        self.take_slot(phase, uuid, name);
        self.tell_slots(phase);
        self.welcome(peer);
        if joining {
            self.start_snapshot_fetch(settings, peer, true);
        }
    }

    /// Numbers a newcomer. The controller flag only ever reaches a client when
    /// it is let in; there is no message that promotes one later.
    fn number_in(&mut self, peer: PeerID, uuid: &Guid, controller_secret: &str) -> (r: bool)
        requires
            old(self).wf(),
        ensures
            final(self)@ == old(self)@.numbered_in(peer, uuid@, controller_secret@),
            r == old(self)@.becomes_controller(peer, controller_secret@),
            final(self).wf(),
    {
        proof {
            reveal(Ctx::numbered_in);
        }
        self.next_client_id = self.next_client_id.saturating_add(1);
        let is_controller = self.controller.is_none() && utils::same_text(
            controller_secret,
            self.config.controller_secret.as_str(),
        ) && !self.is_ai_host(peer);
        if is_controller {
            self.controller = Some(uuid.clone());
        }
        is_controller
    }

    fn welcome(&mut self, peer: PeerID)
        requires
            old(self).wf(),
        ensures
            final(self)@ == old(self)@.welcomed(peer),
            final(self).wf(),
    {
        proof {
            reveal(Ctx::welcomed);
        }
        if utils::chars_of(self.config.welcome_message.as_str()).len() > 0 {
            let text = utils::copy_text(self.config.welcome_message.as_str());
            self.server_chat(Some(peer), text.as_str());
        }
    }

    fn enter(&mut self, peer: PeerID, client_id: u16, name: &str, joining: bool)
        requires
            old(self).wf(),
        ensures
            final(self)@ == old(self)@.with_admitted(peer, client_id, name@, joining),
            final(self).wf(),
    {
        proof {
            reveal(Ctx::with_admitted);
        }
        let ghost before = self@.sessions;
        let role = if joining {
            Role::Syncing
        } else {
            Role::Setup
        };
        if let Some(at) = self.sessions.position(&peer) {
            assert(before[at as int] == table::row_view(self.sessions.rows@[at as int]));
            let admitted = Admitted { client_id, name: utils::copy_text(name), role };
            let ghost a = admitted@;
            let row = &mut self.sessions.rows[at];
            row.1.admitted = Some(admitted);
            proof {
                let s = table::lookup(before, peer)->0;
                assert(self.sessions@ =~= before.update(
                    at as int,
                    (peer, SessionView { admitted: Some(a), ..s }),
                ));
            }
        }
    }

    fn take_slot(&mut self, phase: Phase, uuid: Guid, name: String)
        requires
            old(self).wf(),
        ensures
            final(self)@ == old(self)@.with_slot(phase, uuid@, name@),
            final(self).wf(),
    {
        proof {
            reveal(Ctx::with_slot);
        }
        let displaced = self.slots.add(uuid.clone(), name, phase == Phase::InGame);
        if let Some(before) = displaced {
            self.pause_budget.inherit(&before, &uuid);
        }
    }

    /// Carries a verdict out.
    pub fn carry_out(
        &mut self,
        phase: Phase,
        settings: Option<&FrozenSettings>,
        peer: PeerID,
        verdict: AuthVerdict,
        controller_secret: &str,
    )
        requires
            old(self).wf(),
        ensures
            final(self)@ == old(self)@.judged(
                phase,
                snapshot::frozen(settings),
                peer,
                verdict@,
                controller_secret@,
            ),
            final(self).wf(),
    {
        match verdict {
            AuthVerdict::Fault(fault) => self.fault(peer, fault),
            AuthVerdict::Refuse(reason) => self.drop_peer(phase, peer, reason),
            AuthVerdict::WrongPassword => {
                self.push_effect(Effect::PasswordRejected { peer });
                self.drop_peer(phase, peer, DisconnectReason::Refused);
            },
            AuthVerdict::Admit { uuid, name, joining, ai_host } => {
                if ai_host {
                    if let Some(mut host) = self.ai_host.take() {
                        host.peer = Some(peer);
                        self.ai_host = Some(host);
                    }
                }
                self.admit_session(
                    phase,
                    settings,
                    peer,
                    uuid,
                    name,
                    joining,
                    controller_secret,
                );
            },
        }
    }

    pub fn on_authenticate(
        &mut self,
        phase: Phase,
        settings: Option<&FrozenSettings>,
        peer: PeerID,
        msg: &Authenticate,
    )
        requires
            old(self).wf(),
        ensures
            final(self)@ == old(self)@.authenticated(
                phase,
                snapshot::frozen(settings),
                peer,
                msg@,
            ),
            final(self).wf(),
    {
        proof {
            reveal(Ctx::authenticated);
        }
        let lobby_ok = match self.sessions.get(&peer) {
            Some(s) => {
                let sanitized = auth::sanitize(msg.name.as_str());
                let claimed = utils::lower_text(auth::suffix_stripped(sanitized.as_str()));
                let vouched = match &s.lobby_name {
                    Some(n) => utils::lower_text(n.as_str()),
                    None => {
                        proof {
                            reveal_strlit("");
                            assert(""@ =~= Seq::empty());
                        }
                        utils::lower_text("")
                    },
                };
                utils::same_text(claimed.as_str(), vouched.as_str())
            },
            None => false,
        };
        let expected = password::hash(
            self.config.server_password_hash.as_str(),
            msg.name.as_str().as_bytes(),
        );
        let password_ok = utils::same_text(expected.as_str(), msg.password.as_str());
        let verdict = self.judge(phase, peer, msg, lobby_ok, password_ok);
        self.carry_out(phase, settings, peer, verdict, msg.controller_secret.as_str());
    }

    fn peers_addressed(&self, uuids: &Vec<Guid>) -> (r: Vec<PeerID>)
        ensures
            r@ == addressed(self@.sessions, items::views(uuids@)),
    {
        let ghost all = self.sessions@;
        let ghost wanted = items::views(uuids@);
        let ghost meant = |row: (PeerID, SessionView)|
            row.1.uuid matches Some(u) && wanted.contains(u);
        let ghost peer = |row: (PeerID, SessionView)| row.0;
        let mut out: Vec<PeerID> = Vec::new();
        let mut i: usize = 0;
        proof {
            utils::lemma_filter_ends(all, meant);
            assert(out@ =~= all.take(0).filter(meant).map_values(peer));
        }
        while i < self.sessions.rows.len()
            invariant
                all == self.sessions@,
                wanted == items::views(uuids@),
                meant == (|row: (PeerID, SessionView)|
                    row.1.uuid matches Some(u) && wanted.contains(u)),
                peer == (|row: (PeerID, SessionView)| row.0),
                i <= self.sessions.rows@.len(),
                out@ == all.take(i as int).filter(meant).map_values(peer),
            decreases self.sessions.rows@.len() - i,
        {
            let ghost before = all.take(i as int).filter(meant);
            proof {
                utils::lemma_filter_step(all, i as int, meant);
                assert(all[i as int] == table::row_view(self.sessions.rows@[i as int]));
                assert(before.push(all[i as int]).map_values(peer) =~= before.map_values(
                    peer,
                ).push(peer(all[i as int])));
            }
            let is_meant = match &self.sessions.rows[i].1.uuid {
                Some(u) => pause_budget::holds(uuids, u),
                None => false,
            };
            if is_meant {
                out.push(self.sessions.rows[i].0);
            }
            i += 1;
        }
        assert(addressed(self@.sessions, wanted) =~= out@);
        out
    }

    pub fn on_chat(&mut self, peer: PeerID, msg: &Chat)
        requires
            old(self).wf(),
        ensures
            final(self)@ == old(self)@.chatted(peer, msg@),
            final(self).wf(),
    {
        proof {
            reveal(Ctx::chatted);
        }
        // A joiner still pulling its snapshot receives chat but cannot send it.
        let uuid = match self.speaker(peer, Audience::SetupOrInGame) {
            Ok(uuid) => uuid,
            Err(fault) => {
                self.fault(peer, fault);
                return ;
            },
        };
        let receivers: Vec<Guid> = Vec::new();
        assert(items::views(receivers@) =~= Seq::empty());
        let relayed = WireMessage::Chat(
            Chat {
                sender_guid: uuid,
                message: utils::copy_text(msg.message.as_str()),
                receivers,
            },
        );
        if msg.receivers.len() == 0 {
            self.broadcast(&relayed, Audience::SetupOrInGame);
        } else {
            let peers = self.peers_addressed(&msg.receivers);
            self.send_to(&peers, &relayed);
        }
    }

    fn ban(&mut self, target: PeerID, msg: &Kicked)
        requires
            old(self).wf(),
        ensures
            final(self)@ == old(self)@.banned(target, msg@),
            final(self).wf(),
    {
        if !msg.ban {
            return ;
        }
        let key = utils::copy_text(self.ban_key(msg.name.as_str()));
        let ghost names = items::views(self.banned_names@);
        if !has_text(&self.banned_names, key.as_str()) {
            let ghost k = key@;
            self.banned_names.push(key);
            assert(items::views(self.banned_names@) =~= names.push(k));
        }
        let addr = match self.sessions.get(&target) {
            Some(s) => s.addr,
            None => return ,
        };
        if !has_addr(&self.banned_ips, addr) {
            self.banned_ips.push(addr);
        }
    }

    pub fn on_kicked(&mut self, phase: Phase, peer: PeerID, msg: Kicked)
        requires
            old(self).wf(),
        ensures
            final(self)@ == old(self)@.kicked(phase, peer, msg@),
            final(self).wf(),
    {
        proof {
            reveal(Ctx::kicked);
        }
        if let Err(fault) = self.require_controller(peer) {
            self.fault(peer, fault);
            return ;
        }
        let target = match self.peer_named(msg.name.as_str()) {
            Some(target) => target,
            None => return ,
        };
        if target.0 == peer.0 || self.is_ai_host(target) {
            return ;
        }
        self.ban(target, &msg);
        if let Some(uuid) = self.uuid_of(target) {
            if !pause_budget::holds(&self.forfeited, &uuid) {
                let ghost before = items::views(self.forfeited@);
                let ghost u = uuid@;
                self.forfeited.push(uuid);
                assert(items::views(self.forfeited@) =~= before.push(u));
            }
        }
        let reason = if msg.ban {
            DisconnectReason::Banned
        } else {
            DisconnectReason::Kicked
        };
        self.drop_peer(phase, target, reason);
        let relayed = WireMessage::Kicked(msg);
        self.broadcast(&relayed, Audience::Admitted);
    }
}

/// Whether an address is among these.
pub fn has_addr(addrs: &Vec<Ipv4Addr>, addr: Ipv4Addr) -> (r: bool)
    ensures
        r == addrs@.contains(addr),
{
    let mut i: usize = 0;
    while i < addrs.len()
        invariant
            i <= addrs@.len(),
            forall|j: int| 0 <= j < i ==> addrs@[j] != addr,
        decreases addrs@.len() - i,
    {
        if addrs[i].0 == addr.0 {
            assert(addrs@[i as int] == addr);
            return true;
        }
        i += 1;
    }
    false
}

/// Whether a text is among these.
pub fn has_text(texts: &Vec<String>, text: &str) -> (r: bool)
    ensures
        r == items::views(texts@).contains(text@),
{
    assert(items::views(texts@) =~= texts@.map_values(|s: String| s@));
    utils::is_among(texts, text)
}

fn peers_but(peers: &Vec<PeerID>, peer: PeerID) -> (r: Vec<PeerID>)
    ensures
        r@ == but(peers@, peer),
{
    let ghost other = other_than(peer);
    let mut out: Vec<PeerID> = Vec::new();
    let mut i: usize = 0;
    proof {
        utils::lemma_filter_ends(peers@, other);
    }
    while i < peers.len()
        invariant
            other == other_than(peer),
            i <= peers@.len(),
            out@ == peers@.take(i as int).filter(other),
        decreases peers@.len() - i,
    {
        proof {
            utils::lemma_filter_step(peers@, i as int, other);
        }
        if peers[i].0 != peer.0 {
            out.push(peers[i]);
        }
        i += 1;
    }
    assert(peers@.take(i as int) =~= peers@);
    out
}

} // verus!
