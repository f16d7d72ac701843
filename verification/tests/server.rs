use veredus::clock::Time;
use veredus::network_message::Ipv4Addr;
use veredus::network_message::PeerID;
use veredus::relay::auth::LateObserverPolicy;
use veredus::relay::messages::Authenticate;
use veredus::relay::messages::AuthenticateResultCode;
use veredus::relay::messages::Chat;
use veredus::relay::messages::EnabledMod;
use veredus::relay::messages::Flare;
use veredus::relay::messages::GameSettings;
use veredus::relay::messages::GamestateChunk;
use veredus::relay::messages::GamestateRequest;
use veredus::relay::messages::GamestateResponse;
use veredus::relay::messages::Guid;
use veredus::relay::messages::Joined;
use veredus::relay::messages::Kicked;
use veredus::relay::messages::LoadedGame;
use veredus::relay::messages::MapPlayerIdToSlot;
use veredus::relay::messages::PlayerCommand;
use veredus::relay::messages::PlayerPause;
use veredus::relay::messages::PreGameStatus;
use veredus::relay::messages::StartSavegameSettings;
use veredus::relay::messages::StartSettings;
use veredus::relay::messages::StateHash;
use veredus::relay::messages::SynAck;
use veredus::relay::messages::TurnSealed;
use veredus::relay::messages::WireMessage;
use veredus::relay::monitor::PeerStats;
use veredus::relay::password;
use veredus::relay::server_fsm::AnyServer;
use veredus::relay::server_fsm::Config;
use veredus::relay::server_fsm::DisconnectReason;
use veredus::relay::server_fsm::Effect;
use veredus::relay::server_fsm::Input;
use veredus::relay::server_fsm::Phase;
use veredus::relay::server_fsm::Server;

const HOME: Ipv4Addr = Ipv4Addr(0x7f00_0001);

const AWAY: Ipv4Addr = Ipv4Addr(0x0a00_0001);

/// A server and what it has decided so far.
struct Room {
    server: Option<AnyServer>,
    password: String,
}

fn at(secs: i64) -> Time {
    Time { secs, nanos: 0 }
}

impl Room {
    fn new(config: Config) -> Room {
        let password = config.server_password_hash.clone();
        Room {
            server: Some(AnyServer::from(Server::new(config).listen())),
            password,
        }
    }

    fn feed_with(&mut self, input: Input, issued: Option<&str>) -> Vec<Effect> {
        let server = self.server.take().unwrap();
        let mut server = server.handle_with(input, issued.map(|s| Guid(s.to_string())));
        let effects = server.take_effects();
        self.server = Some(server);
        effects
    }

    fn feed(&mut self, input: Input) -> Vec<Effect> {
        self.feed_with(input, None)
    }

    fn says(&mut self, peer: usize, msg: WireMessage) -> Vec<Effect> {
        self.feed(Input::Received { peer: PeerID(peer), msg })
    }

    fn phase(&self) -> Phase {
        self.server.as_ref().unwrap().phase()
    }

    fn connect(&mut self, peer: usize, addr: Ipv4Addr) -> Vec<Effect> {
        self.feed(Input::Connected { peer: PeerID(peer), addr })
    }

    fn shake(&mut self, peer: usize, uuid: &str) -> Vec<Effect> {
        self.feed_with(
            Input::Received { peer: PeerID(peer), msg: WireMessage::SynAck(hello()) },
            Some(uuid),
        )
    }

    fn credentials(&self, name: &str) -> WireMessage {
        WireMessage::Authenticate(Authenticate {
            name: name.to_string(),
            password: password::hash(&self.password, name.as_bytes()),
            controller_secret: String::new(),
        })
    }

    fn join(&mut self, peer: usize, uuid: &str, name: &str) -> Vec<Effect> {
        self.connect(peer, AWAY);
        self.shake(peer, uuid);
        let msg = self.credentials(name);
        self.says(peer, msg)
    }

    fn tick(&mut self, secs: i64) -> Vec<Effect> {
        self.feed(Input::Tick { now: at(secs), stats: Vec::new() })
    }

    /// Two players, ready and with a player each.
    fn ready_for_two(config: Config) -> Room {
        let mut room = Room::new(config);
        room.join(1, "u1", "Ada");
        room.join(2, "u2", "Bob");
        for (player, uuid) in [(1, "u1"), (2, "u2")] {
            room.says(
                1,
                WireMessage::MapPlayerIdToSlot(MapPlayerIdToSlot {
                    player_id: player,
                    guid: Guid(uuid.to_string()),
                }),
            );
        }
        for peer in [1, 2] {
            room.says(
                peer,
                WireMessage::PreGameStatus(PreGameStatus {
                    guid: Guid("whoever".to_string()),
                    status: 1,
                }),
            );
        }
        room
    }

    fn start(&mut self, attributes: &str) -> Vec<Effect> {
        self.says(
            1,
            WireMessage::StartSettings(StartSettings {
                init_attributes: attributes.as_bytes().to_vec(),
            }),
        )
    }

    fn loaded(&mut self, peer: usize) -> Vec<Effect> {
        self.says(peer, WireMessage::LoadedGame(LoadedGame { current_turn: 0 }))
    }

    fn match_of_two(config: Config, attributes: &str) -> Room {
        let mut room = Room::ready_for_two(config);
        room.start(attributes);
        room.loaded(1);
        room.loaded(2);
        assert_eq!(room.phase(), Phase::InGame);
        room
    }

    fn seal(&mut self, peer: usize, turn: u32) -> Vec<Effect> {
        self.says(peer, WireMessage::TurnSealed(TurnSealed { turn, turn_length: 200 }))
    }
}

const TWO_PLAYERS: &str =
    "{\"settings\":{\"PlayerData\":[{\"AI\":false},{\"AI\":false}],\"VictoryConditions\":[\"conquest\"],\"CheatsEnabled\":false}}";

fn hello() -> SynAck {
    SynAck {
        magic: 0x5073_0000,
        protocol_version: 0x0101_0019,
        engine_version: "0.28.0".to_string(),
        enabled_mods: vec![EnabledMod {
            name: "0ad".to_string(),
            version: "0.28.0".to_string(),
        }],
    }
}

fn sent_to(effects: &[Effect], to: usize) -> Vec<&WireMessage> {
    effects
        .iter()
        .filter_map(|e| match e {
            Effect::Send { peer, msg } if *peer == PeerID(to) => Some(msg),
            _ => None,
        })
        .collect()
}

fn dropped(effects: &[Effect]) -> Vec<(usize, DisconnectReason)> {
    effects
        .iter()
        .filter_map(|e| match e {
            Effect::Disconnect { peer, reason } => Some((peer.0, *reason)),
            _ => None,
        })
        .collect()
}

fn lines(effects: &[Effect], to: usize) -> Vec<String> {
    sent_to(effects, to)
        .into_iter()
        .filter_map(|m| match m {
            WireMessage::Chat(c) => Some(c.message.clone()),
            _ => None,
        })
        .collect()
}

fn line(text: &str, receivers: Vec<&str>) -> WireMessage {
    WireMessage::Chat(Chat {
        sender_guid: Guid("someone else".to_string()),
        message: text.to_string(),
        receivers: receivers.into_iter().map(|r| Guid(r.to_string())).collect(),
    })
}

fn command(player: i32, turn: u32, data: Vec<u8>) -> PlayerCommand {
    PlayerCommand { client: 1, player, turn, data }
}

#[test]
fn a_server_listens_before_it_hears() {
    let idle = AnyServer::from(Server::new(Config::default()));
    let mut idle = idle.handle(Input::Connected { peer: PeerID(1), addr: AWAY });
    assert!(idle.take_effects().is_empty());
    assert!(idle.context().sessions.get(&PeerID(1)).is_none());
}

#[test]
fn a_connection_is_greeted() {
    let mut room = Room::new(Config::default());
    let effects = room.connect(1, AWAY);
    assert_eq!(effects.len(), 1);
    match sent_to(&effects, 1)[0] {
        WireMessage::Syn(syn) => {
            assert_eq!(syn.magic, 0x5073_013f);
            assert_eq!(syn.protocol_version, 0x0101_0019);
            assert_eq!(syn.engine_version, "0.28.0");
            assert_eq!(syn.enabled_mods.len(), 1);
        }
        other => panic!("{:?}", other),
    }
}

#[test]
fn a_handshake_is_answered_with_an_identity() {
    let mut room = Room::new(Config::default());
    room.connect(1, AWAY);
    let effects = room.shake(1, "u1");
    match sent_to(&effects, 1)[0] {
        WireMessage::Ack(ack) => {
            assert_eq!(ack.use_protocol_version, 0x0101_0019);
            assert_eq!(ack.flags, 0);
            assert_eq!(ack.guid, Guid("u1".to_string()));
        }
        other => panic!("{:?}", other),
    }
    // A second one would strand what goes by the first.
    assert!(room.shake(1, "u9").is_empty());
    assert_eq!(
        room.server.as_ref().unwrap().context().uuid_of(PeerID(1)),
        Some(Guid("u1".to_string()))
    );
}

#[test]
fn lobby_games_ask_for_lobby_credentials() {
    let mut config = Config::default();
    config.lobby_mode = true;
    let mut room = Room::new(config);
    room.connect(1, AWAY);
    let effects = room.shake(1, "u1");
    match sent_to(&effects, 1)[0] {
        WireMessage::Ack(ack) => assert_eq!(ack.flags, 1),
        other => panic!("{:?}", other),
    }
}

#[test]
fn identities_are_issued_where_none_is_given() {
    let mut server = AnyServer::from(Server::new(Config::default()).listen());
    for peer in [1, 2] {
        server = server.handle(Input::Connected { peer: PeerID(peer), addr: AWAY });
        server = server.handle(Input::Received {
            peer: PeerID(peer),
            msg: WireMessage::SynAck(hello()),
        });
    }
    let a = server.context().uuid_of(PeerID(1)).unwrap();
    let b = server.context().uuid_of(PeerID(2)).unwrap();
    assert_ne!(a, b);
    assert_ne!(a, server.context().server_uuid);
    assert_eq!(a.to_string().len(), 36);
}

#[test]
fn free_identities_are_issued() {
    let mut room = Room::new(Config::default());
    room.connect(1, AWAY);
    room.shake(1, "u1");
    let context = room.server.as_ref().unwrap().context();
    let taken = Guid("u1".to_string());
    let relay = context.server_uuid.clone();
    let free = Guid("u2".to_string());
    let other = Guid("u3".to_string());
    let drawn = vec![relay.clone(), taken.clone(), free.clone(), other];
    assert_eq!(context.issued_from(&drawn), Some(free));
    assert_eq!(context.issued_from(&vec![taken, relay]), None);
    assert_eq!(context.issued_from(&vec![]), None);
    assert!(context.issue_uuid().is_some());
}

#[test]
fn the_ai_host_goes_by_a_tagged_name() {
    let room = Room::new(Config::default());
    let name = &room.server.as_ref().unwrap().context().ai_host_name;
    let tag = name.strip_prefix("AI host ").unwrap();
    assert_eq!(tag.len(), 8);
    assert!(tag.chars().all(|c| matches!(c, '0'..='9' | 'a'..='f')));
}

#[test]
fn another_version_is_turned_away() {
    let mut room = Room::new(Config::default());
    room.connect(1, AWAY);
    let mut old = hello();
    old.protocol_version = 7;
    let effects = room.says(1, WireMessage::SynAck(old));
    assert_eq!(dropped(&effects), vec![(1, DisconnectReason::GameVersionMismatch)]);
}

#[test]
fn other_mods_are_turned_away() {
    let mut room = Room::new(Config::default());
    room.connect(1, AWAY);
    let mut modded = hello();
    modded.enabled_mods.push(EnabledMod {
        name: "extra".to_string(),
        version: "1".to_string(),
    });
    let effects = room.says(1, WireMessage::SynAck(modded));
    assert_eq!(dropped(&effects), vec![(1, DisconnectReason::SimulationOrModMismatch)]);
}

#[test]
fn without_an_identity_nobody_stays() {
    let mut room = Room::new(Config::default());
    room.connect(1, AWAY);
    let effects = room.says(1, WireMessage::SynAck(hello()));
    assert_eq!(dropped(&effects), vec![(1, DisconnectReason::NoUuid)]);
}

#[test]
fn the_first_one_in_is_controller() {
    let mut room = Room::new(Config::default());
    let first = room.join(1, "u1", "Ada");
    match sent_to(&first, 1)[0] {
        WireMessage::AuthenticateResult(r) => {
            assert_eq!(r.code, AuthenticateResultCode::Okay);
            assert_eq!(r.host_id, 1);
            assert!(r.is_controller);
            assert_eq!(r.message, "Logged in");
        }
        other => panic!("{:?}", other),
    }
    let second = room.join(2, "u2", "Bob");
    match sent_to(&second, 2)[0] {
        WireMessage::AuthenticateResult(r) => {
            assert_eq!(r.host_id, 2);
            assert!(!r.is_controller);
        }
        other => panic!("{:?}", other),
    }
    // Everyone admitted sees the new list, and the lobby the new counts.
    match sent_to(&second, 1)[0] {
        WireMessage::PlayerSlots(slots) => {
            let names: Vec<&str> = slots.hosts.iter().map(|h| h.name.as_str()).collect();
            // The relay is behind the clients, so its chat lines have a name.
            assert_eq!(names, vec!["Ada", "Bob", "* SERVER"]);
            assert!(slots.hosts.iter().all(|h| h.player_id == -1));
        }
        other => panic!("{:?}", other),
    }
    assert!(second.iter().any(|e| matches!(e, Effect::LobbyListing { .. })));
}

#[test]
fn the_controller_secret_is_asked_for() {
    let mut config = Config::default();
    config.controller_secret = "open sesame".to_string();
    let mut room = Room::new(config);
    room.join(1, "u1", "Ada");
    assert!(room.server.as_ref().unwrap().context().controller.is_none());
    room.connect(2, AWAY);
    room.shake(2, "u2");
    room.says(
        2,
        WireMessage::Authenticate(Authenticate {
            name: "Bob".to_string(),
            password: String::new(),
            controller_secret: "open sesame".to_string(),
        }),
    );
    assert_eq!(
        room.server.as_ref().unwrap().context().controller,
        Some(Guid("u2".to_string()))
    );
}

#[test]
fn a_wrong_password_is_refused() {
    let mut config = Config::default();
    config.server_password_hash = "5f4dcc3b".to_string();
    let mut room = Room::new(config);
    room.connect(1, AWAY);
    room.shake(1, "u1");
    let effects = room.says(
        1,
        WireMessage::Authenticate(Authenticate {
            name: "Ada".to_string(),
            password: "5f4dcc3b".to_string(),
            controller_secret: String::new(),
        }),
    );
    assert!(matches!(effects[0], Effect::PasswordRejected { peer: PeerID(1) }));
    assert_eq!(dropped(&effects), vec![(1, DisconnectReason::Refused)]);
    assert!(sent_to(&effects, 1).is_empty());
    // The right one is salted with the name it is sent under.
    room.feed(Input::Disconnected { peer: PeerID(1) });
    let effects = room.join(2, "u2", "Ada");
    assert!(dropped(&effects).is_empty());
    assert_eq!(sent_to(&effects, 2)[0].name(), "AuthenticateResult");
}

#[test]
fn doubled_names_are_refused_or_numbered() {
    let mut room = Room::new(Config::default());
    room.join(1, "u1", "Ada");
    let effects = room.join(2, "u2", "Ada");
    assert_eq!(dropped(&effects), vec![(2, DisconnectReason::NameInUse)]);

    let mut config = Config::default();
    config.allow_duplicate_names = true;
    let mut room = Room::new(config);
    room.join(1, "u1", "Ada");
    room.join(2, "u2", "Ada");
    assert_eq!(
        room.server.as_ref().unwrap().context().name_of(&Guid("u2".to_string())),
        Some("Ada (2)".to_string())
    );
}

#[test]
fn the_relays_names_are_kept_for_it() {
    let mut room = Room::new(Config::default());
    let effects = room.join(1, "u1", "* Admin");
    assert_eq!(dropped(&effects), vec![(1, DisconnectReason::NameInUse)]);
}

#[test]
fn lobby_names_have_to_agree() {
    let mut config = Config::default();
    config.lobby_mode = true;
    let mut room = Room::new(config);
    room.connect(1, AWAY);
    room.shake(1, "u1");
    // Before the lobby has vouched for anyone nothing is heard.
    let msg = room.credentials("Ada");
    assert!(room.says(1, msg).is_empty());
    let prompt = room.feed(Input::LobbyAuth {
        username: "ada".to_string(),
        token: "u1".to_string(),
    });
    assert_eq!(sent_to(&prompt, 1)[0].name(), "Authenticate");
    let msg = room.credentials("Bob");
    let effects = room.says(1, msg);
    assert_eq!(dropped(&effects), vec![(1, DisconnectReason::LobbyAuthFailed)]);
    let msg = room.credentials("Ada (1500)");
    let effects = room.says(1, msg);
    assert!(dropped(&effects).is_empty());
    assert_eq!(sent_to(&effects, 1)[0].name(), "AuthenticateResult");
}

#[test]
fn a_token_of_nobody_changes_nothing() {
    let mut room = Room::new(Config::default());
    room.connect(1, AWAY);
    assert!(room
        .feed(Input::LobbyAuth { username: "x".to_string(), token: "y".to_string() })
        .is_empty());
}

#[test]
fn a_full_game_says_so() {
    let mut config = Config::default();
    config.max_sessions = 2;
    let mut room = Room::new(config);
    room.join(1, "u1", "Ada");
    let effects = room.join(2, "u2", "Bob");
    assert_eq!(dropped(&effects), vec![(2, DisconnectReason::ServerFull)]);
}

#[test]
fn newcomers_are_welcomed() {
    let mut config = Config::default();
    config.welcome_message = "Be kind.".to_string();
    let mut room = Room::new(config);
    let effects = room.join(1, "u1", "Ada");
    assert_eq!(lines(&effects, 1), vec!["Be kind.".to_string()]);
}

#[test]
fn chat_carries_its_senders_own_identity() {
    let mut room = Room::new(Config::default());
    room.join(1, "u1", "Ada");
    room.join(2, "u2", "Bob");
    let effects = room.says(2, line("hi", vec![]));
    for to in [1, 2] {
        match sent_to(&effects, to)[0] {
            WireMessage::Chat(c) => {
                assert_eq!(c.sender_guid, Guid("u2".to_string()));
                assert_eq!(c.message, "hi");
                assert!(c.receivers.is_empty());
            }
            other => panic!("{:?}", other),
        }
    }
    let effects = room.says(2, line("psst", vec!["u1"]));
    assert_eq!(effects.len(), 1);
    assert_eq!(lines(&effects, 1), vec!["psst".to_string()]);
    // Someone who is not in says nothing.
    room.connect(3, AWAY);
    assert!(room.says(3, line("let me in", vec![])).is_empty());
}

#[test]
fn a_ban_is_by_name_and_by_address() {
    let mut room = Room::new(Config::default());
    room.join(1, "u1", "Ada");
    room.join(2, "u2", "Bob");
    let effects = room.says(
        1,
        WireMessage::Kicked(Kicked { name: "Bob".to_string(), ban: true }),
    );
    assert_eq!(dropped(&effects), vec![(2, DisconnectReason::Banned)]);
    assert_eq!(sent_to(&effects, 1).last().unwrap().name(), "Kicked");
    room.feed(Input::Disconnected { peer: PeerID(2) });
    let effects = room.connect(3, AWAY);
    assert_eq!(effects.len(), 1);
    assert_eq!(dropped(&effects), vec![(3, DisconnectReason::Banned)]);
    room.connect(4, HOME);
    room.shake(4, "u4");
    let msg = room.credentials("Bob");
    let effects = room.says(4, msg);
    assert_eq!(dropped(&effects), vec![(4, DisconnectReason::Banned)]);
}

#[test]
fn some_cannot_be_kicked() {
    let mut room = Room::new(Config::default());
    room.join(1, "u1", "Ada");
    room.join(2, "u2", "Bob");
    for (by, name) in [(1, "Ada"), (2, "Ada"), (1, "Nobody")] {
        let effects = room.says(
            by,
            WireMessage::Kicked(Kicked { name: name.to_string(), ban: false }),
        );
        assert!(effects.is_empty());
    }
    let effects = room.says(
        1,
        WireMessage::Kicked(Kicked { name: "Bob".to_string(), ban: false }),
    );
    assert_eq!(dropped(&effects), vec![(2, DisconnectReason::Kicked)]);
}

#[test]
fn only_the_controller_sets_up() {
    let mut room = Room::new(Config::default());
    room.join(1, "u1", "Ada");
    room.join(2, "u2", "Bob");
    let slot = WireMessage::MapPlayerIdToSlot(MapPlayerIdToSlot {
        player_id: 1,
        guid: Guid("u2".to_string()),
    });
    assert!(room.says(2, slot.clone()).is_empty());
    let settings = WireMessage::GameSettings(GameSettings { data: vec![1, 2] });
    assert!(room.says(2, settings.clone()).is_empty());
    assert!(room.says(2, WireMessage::ResetPregameStatus).is_empty());
    let effects = room.says(1, slot);
    assert_eq!(sent_to(&effects, 2)[0].name(), "PlayerSlots");
    let effects = room.says(1, settings.clone());
    // Settings that make no sense are relayed all the same.
    assert_eq!(sent_to(&effects, 1), vec![&settings]);
    assert_eq!(sent_to(&effects, 2), vec![&settings]);
}

#[test]
fn a_readiness_is_relayed_with_its_owners_identity() {
    let mut room = Room::new(Config::default());
    room.join(1, "u1", "Ada");
    let effects = room.says(
        1,
        WireMessage::PreGameStatus(PreGameStatus {
            guid: Guid("u7".to_string()),
            status: 2,
        }),
    );
    assert_eq!(
        sent_to(&effects, 1),
        vec![&WireMessage::PreGameStatus(PreGameStatus {
            guid: Guid("u1".to_string()),
            status: 2,
        })]
    );
}

#[test]
fn a_start_waits_for_everyone() {
    let mut room = Room::new(Config::default());
    room.join(1, "u1", "Ada");
    room.join(2, "u2", "Bob");
    room.says(
        1,
        WireMessage::MapPlayerIdToSlot(MapPlayerIdToSlot {
            player_id: 2,
            guid: Guid("u2".to_string()),
        }),
    );
    assert!(room.start(TWO_PLAYERS).is_empty());
    assert_eq!(room.phase(), Phase::Setup);
}

#[test]
fn a_start_reaches_everyone_and_turns_strangers_away() {
    let mut room = Room::ready_for_two(Config::default());
    room.connect(3, AWAY);
    let effects = room.start(TWO_PLAYERS);
    assert_eq!(room.phase(), Phase::Loading);
    assert_eq!(dropped(&effects), vec![(3, DisconnectReason::ServerLoading)]);
    for to in [1, 2] {
        let names: Vec<&str> = sent_to(&effects, to).into_iter().map(|m| m.name()).collect();
        assert_eq!(names, vec!["PlayerSlots", "StartSettings"]);
    }
    assert!(effects
        .iter()
        .any(|e| matches!(e, Effect::LobbyStarted { nbp: 2, players } if players == "Ada, Bob")));
    // Nobody gets in while the match loads.
    room.connect(4, AWAY);
    room.shake(4, "u4");
    let msg = room.credentials("Cid");
    let effects = room.says(4, msg);
    assert_eq!(dropped(&effects), vec![(4, DisconnectReason::ServerLoading)]);
}

#[test]
fn a_match_begins_once_everyone_has_loaded() {
    let mut room = Room::ready_for_two(Config::default());
    room.start(TWO_PLAYERS);
    room.loaded(1);
    assert_eq!(room.phase(), Phase::Loading);
    let effects = room.loaded(2);
    assert_eq!(room.phase(), Phase::InGame);
    for to in [1, 2] {
        assert!(sent_to(&effects, to).iter().any(|m| m.name() == "LoadedGame"));
    }
}

#[test]
fn saved_games_are_not_played() {
    let mut room = Room::ready_for_two(Config::default());
    let effects = room.says(
        1,
        WireMessage::StartSavegameSettings(StartSavegameSettings {
            init_attributes: "{}".to_string(),
        }),
    );
    assert_eq!(lines(&effects, 1).len(), 1);
    assert_eq!(room.phase(), Phase::Setup);
}

#[test]
fn turns_are_released_once_everyone_has_sealed() {
    let mut room = Room::match_of_two(Config::default(), TWO_PLAYERS);
    assert!(room.seal(1, 4).is_empty());
    let effects = room.seal(2, 4);
    let sealed = WireMessage::TurnSealed(TurnSealed { turn: 4, turn_length: 200 });
    assert_eq!(sent_to(&effects, 1), vec![&sealed]);
    assert_eq!(sent_to(&effects, 2), vec![&sealed]);
    assert_eq!(room.server.as_ref().unwrap().context().turns.ready_turn(), 4);
}

#[test]
fn turns_out_of_order_end_the_connection() {
    let mut room = Room::match_of_two(Config::default(), TWO_PLAYERS);
    let effects = room.seal(1, 6);
    assert_eq!(dropped(&effects), vec![(1, DisconnectReason::OutOfSequenceTurnSeal)]);
}

#[test]
fn turns_too_far_ahead_end_the_connection() {
    let mut room = Room::match_of_two(Config::default(), TWO_PLAYERS);
    for turn in 4..=7 {
        assert!(room.seal(1, turn).is_empty());
    }
    let effects = room.seal(1, 8);
    assert_eq!(dropped(&effects), vec![(1, DisconnectReason::OutOfSequenceTurnSeal)]);
}

#[test]
fn commands_come_back_and_are_kept() {
    let mut room = Room::match_of_two(Config::default(), TWO_PLAYERS);
    let m = command(1, 5, vec![1, 2, 3]);
    let effects = room.says(1, WireMessage::PlayerCommand(m.clone()));
    for to in [1, 2] {
        assert_eq!(sent_to(&effects, to), vec![&WireMessage::PlayerCommand(m.clone())]);
    }
    let kept = room.server.as_ref().unwrap().context().log.commands_for(5);
    assert_eq!(kept, vec![m]);
}

#[test]
fn nobody_commands_another_without_cheats() {
    let mut room = Room::match_of_two(Config::default(), TWO_PLAYERS);
    assert!(room.says(1, WireMessage::PlayerCommand(command(2, 5, vec![]))).is_empty());
    assert!(room.says(1, WireMessage::PlayerCommand(command(-1, 5, vec![]))).is_empty());

    let mut room = Room::match_of_two(
        Config::default(),
        "{\"settings\":{\"PlayerData\":[{\"AI\":false},{\"AI\":false}],\"CheatsEnabled\":true}}",
    );
    let effects = room.says(1, WireMessage::PlayerCommand(command(2, 5, vec![])));
    assert_eq!(effects.len(), 2);
}

#[test]
fn hashes_that_differ_are_told() {
    let mut room = Room::match_of_two(Config::default(), TWO_PLAYERS);
    let hash = |byte: u8| StateHash { turn: 1, hash: vec![byte] };
    let first = room.says(1, WireMessage::StateHash(hash(1)));
    assert!(first.is_empty());
    let effects = room.says(2, WireMessage::StateHash(hash(2)));
    let told: Vec<&Effect> = effects
        .iter()
        .filter(|e| matches!(e, Effect::Send { msg: WireMessage::WrongHashPlayers(_), .. }))
        .collect();
    assert!(!told.is_empty());
    for e in told {
        if let Effect::Send { msg: WireMessage::WrongHashPlayers(w), .. } = e {
            assert_eq!(w.turn, 1);
        }
    }
}

#[test]
fn hashes_out_of_order_end_the_connection() {
    let mut room = Room::match_of_two(Config::default(), TWO_PLAYERS);
    let effects = room.says(
        1,
        WireMessage::StateHash(StateHash { turn: 3, hash: vec![] }),
    );
    assert_eq!(dropped(&effects), vec![(1, DisconnectReason::OutOfSequenceStateHash)]);
}

#[test]
fn flares_carry_their_senders_own_identity() {
    let mut room = Room::match_of_two(Config::default(), TWO_PLAYERS);
    let effects = room.says(
        2,
        WireMessage::Flare(Flare {
            guid: Guid("u1".to_string()),
            position_x: "1".to_string(),
            position_y: "2".to_string(),
            position_z: "3".to_string(),
        }),
    );
    match sent_to(&effects, 1)[0] {
        WireMessage::Flare(f) => {
            assert_eq!(f.guid, Guid("u2".to_string()));
            assert_eq!(f.position_z, "3");
        }
        other => panic!("{:?}", other),
    }
}

#[test]
fn a_pause_is_charged_and_runs_out() {
    let mut config = Config::default();
    config.pause_budget = 10_000;
    config.afk_pause = false;
    let mut room = Room::match_of_two(config, TWO_PLAYERS);
    room.tick(100);
    let pause = |pause: bool| {
        WireMessage::PlayerPause(PlayerPause { guid: Guid("u9".to_string()), pause })
    };
    let effects = room.says(1, pause(true));
    assert_eq!(sent_to(&effects, 2)[0], &WireMessage::PlayerPause(PlayerPause {
        guid: Guid("u1".to_string()),
        pause: true,
    }));
    assert!(lines(&effects, 2)[0].starts_with("Ada paused. "));
    room.tick(105);
    let effects = room.tick(111);
    assert!(lines(&effects, 2).iter().any(|l| l == "Ada is out of pause budget."));
    assert!(sent_to(&effects, 1).contains(&&WireMessage::PlayerPause(PlayerPause {
        guid: Guid("u1".to_string()),
        pause: false,
    })));
    let effects = room.says(1, pause(true));
    assert_eq!(lines(&effects, 1), vec!["You are out of pause budget.".to_string()]);
    assert!(sent_to(&effects, 2).is_empty());
}

#[test]
fn a_controller_who_leaves_makes_room() {
    let mut room = Room::new(Config::default());
    room.join(1, "u1", "Ada");
    room.join(2, "u2", "Bob");
    let effects = room.feed(Input::Disconnected { peer: PeerID(1) });
    assert!(room.server.as_ref().unwrap().context().controller.is_none());
    assert_eq!(sent_to(&effects, 2)[0].name(), "PlayerSlots");
    room.join(3, "u3", "Cid");
    assert_eq!(
        room.server.as_ref().unwrap().context().controller,
        Some(Guid("u3".to_string()))
    );
}

#[test]
fn a_departure_lets_turns_go_on() {
    let mut room = Room::match_of_two(Config::default(), TWO_PLAYERS);
    room.seal(1, 4);
    let effects = room.feed(Input::Disconnected { peer: PeerID(2) });
    assert!(sent_to(&effects, 1)
        .contains(&&WireMessage::TurnSealed(TurnSealed { turn: 4, turn_length: 200 })));
}

#[test]
fn a_player_returns_to_their_slot_through_a_snapshot() {
    let mut config = Config::default();
    config.afk_pause = false;
    let mut room = Room::match_of_two(config, TWO_PLAYERS);
    room.feed(Input::Disconnected { peer: PeerID(2) });
    let effects = room.join(3, "u3", "Bob");
    match sent_to(&effects, 3)[0] {
        WireMessage::AuthenticateResult(r) => {
            assert_eq!(r.code, AuthenticateResultCode::OkRejoining);
        }
        other => panic!("{:?}", other),
    }
    // The player who stayed is asked for the state of the match.
    let request = sent_to(&effects, 1)
        .into_iter()
        .find_map(|m| match m {
            WireMessage::GamestateRequest(r) => Some(*r),
            _ => None,
        })
        .unwrap();
    assert_eq!(request.request_type, 1);
    room.says(
        1,
        WireMessage::GamestateResponse(GamestateResponse {
            request_id: request.request_id,
            length: 5,
        }),
    );
    let effects = room.says(
        1,
        WireMessage::GamestateChunk(GamestateChunk {
            request_id: request.request_id,
            data: vec![1, 2, 3, 4, 5],
        }),
    );
    match sent_to(&effects, 3)[0] {
        WireMessage::Join(j) => assert_eq!(j.init_attributes, TWO_PLAYERS.as_bytes()),
        other => panic!("{:?}", other),
    }
    let effects = room.says(
        3,
        WireMessage::GamestateRequest(GamestateRequest { request_type: 1, request_id: 9 }),
    );
    let names: Vec<&str> = sent_to(&effects, 3).into_iter().map(|m| m.name()).collect();
    assert_eq!(names, vec!["GamestateResponse", "GamestateChunk"]);
    let effects = room.says(3, WireMessage::LoadedGame(LoadedGame { current_turn: 3 }));
    assert_eq!(
        sent_to(&effects, 3),
        vec![&WireMessage::LoadedGame(LoadedGame { current_turn: 3 })]
    );
    let effects = room.says(
        3,
        WireMessage::Joined(Joined { guid: Guid("x".to_string()) }),
    );
    assert_eq!(
        sent_to(&effects, 1)[0],
        &WireMessage::Joined(Joined { guid: Guid("u3".to_string()) })
    );
    let slots = &room.server.as_ref().unwrap().context().slots;
    assert_eq!(slots.slot_of(&Guid("u3".to_string())), Some(2));
    assert_eq!(slots.slot_of(&Guid("u2".to_string())), None);
}

#[test]
fn a_joiner_without_a_source_is_dropped() {
    let mut room = Room::match_of_two(Config::default(), TWO_PLAYERS);
    room.feed(Input::Disconnected { peer: PeerID(1) });
    room.feed(Input::Disconnected { peer: PeerID(2) });
    let effects = room.join(3, "u3", "Bob");
    assert_eq!(dropped(&effects), vec![(3, DisconnectReason::MatchInProgress)]);
}

#[test]
fn an_engine_run_serves_where_no_client_can() {
    let mut config = Config::default();
    config.sidecar_dumps = true;
    let mut room = Room::match_of_two(config, TWO_PLAYERS);
    room.feed(Input::Disconnected { peer: PeerID(1) });
    room.feed(Input::Disconnected { peer: PeerID(2) });
    let effects = room.join(3, "u3", "Bob");
    let id = effects
        .iter()
        .find_map(|e| match e {
            Effect::StateDump { id, request, .. } => {
                assert_eq!(request.init_attributes, TWO_PLAYERS.as_bytes());
                assert_eq!(request.engine_version, "0.28.0");
                Some(*id)
            }
            _ => None,
        })
        .unwrap();
    let effects = room.feed(Input::StateDumped { id, state: Some(vec![7; 10]) });
    assert_eq!(sent_to(&effects, 3)[0].name(), "Join");
}

#[test]
fn a_failed_engine_run_drops_who_waited() {
    let mut config = Config::default();
    config.sidecar_dumps = true;
    let mut room = Room::match_of_two(config, TWO_PLAYERS);
    room.feed(Input::Disconnected { peer: PeerID(1) });
    room.feed(Input::Disconnected { peer: PeerID(2) });
    let effects = room.join(3, "u3", "Bob");
    let id = effects
        .iter()
        .find_map(|e| match e {
            Effect::StateDump { id, .. } => Some(*id),
            _ => None,
        })
        .unwrap();
    let effects = room.feed(Input::StateDumped { id, state: None });
    assert_eq!(dropped(&effects), vec![(3, DisconnectReason::MatchInProgress)]);
}

#[test]
fn late_observers_go_by_the_policy() {
    let mut config = Config::default();
    config.late_observer_policy = LateObserverPolicy::Deny;
    let mut room = Room::match_of_two(config, TWO_PLAYERS);
    let effects = room.join(3, "u3", "Cid");
    assert_eq!(dropped(&effects), vec![(3, DisconnectReason::MatchInProgress)]);

    let mut config = Config::default();
    config.late_observer_policy = LateObserverPolicy::Buddies;
    config.buddies = vec!["Cid".to_string()];
    let mut room = Room::match_of_two(config, TWO_PLAYERS);
    let effects = room.join(3, "u3", "Dan");
    assert_eq!(dropped(&effects), vec![(3, DisconnectReason::MatchInProgress)]);
    room.feed(Input::Disconnected { peer: PeerID(3) });
    let effects = room.join(4, "u4", "Cid");
    assert!(dropped(&effects).is_empty());
}

#[test]
fn an_empty_room_closes_in_time() {
    let mut config = Config::default();
    config.idle_shutdown = Some(60_000);
    let mut room = Room::new(config);
    assert!(room.tick(0).is_empty());
    assert!(room.tick(59).is_empty());
    let effects = room.tick(61);
    assert!(effects.iter().any(|e| matches!(e, Effect::GameOver)));
}

#[test]
fn a_held_start_waits_for_the_ai_host() {
    let mut config = Config::default();
    config.hosted_ai = true;
    let mut room = Room::new(config);
    room.join(1, "u1", "Ada");
    room.says(
        1,
        WireMessage::MapPlayerIdToSlot(MapPlayerIdToSlot {
            player_id: 1,
            guid: Guid("u1".to_string()),
        }),
    );
    room.says(
        1,
        WireMessage::PreGameStatus(PreGameStatus { guid: Guid("u1".to_string()), status: 1 }),
    );
    let attributes =
        "{\"settings\":{\"PlayerData\":[{\"AI\":false},{\"AI\":\"petra\",\"AIDiff\":3}]}}";
    let effects = room.start(attributes);
    assert_eq!(room.phase(), Phase::Setup);
    let name = effects
        .iter()
        .find_map(|e| match e {
            Effect::SpawnAiHost { name } => Some(name.clone()),
            _ => None,
        })
        .unwrap();
    assert!(sent_to(&effects, 1).is_empty());
    // It comes from this machine, and needs no password.
    room.connect(2, HOME);
    room.shake(2, "u2");
    let effects = room.says(
        2,
        WireMessage::Authenticate(Authenticate {
            name,
            password: "whatever".to_string(),
            controller_secret: String::new(),
        }),
    );
    assert_eq!(room.phase(), Phase::Loading);
    let start_of = |to: usize| -> String {
        sent_to(&effects, to)
            .into_iter()
            .find_map(|m| match m {
                WireMessage::StartSettings(s) => {
                    Some(String::from_utf8(s.init_attributes.clone()).unwrap())
                }
                _ => None,
            })
            .unwrap()
    };
    assert!(!start_of(1).contains("petra"));
    assert!(start_of(2).contains("petra"));
}

#[test]
fn a_held_start_is_given_up() {
    let mut config = Config::default();
    config.hosted_ai = true;
    let mut room = Room::new(config);
    room.join(1, "u1", "Ada");
    room.says(
        1,
        WireMessage::PreGameStatus(PreGameStatus { guid: Guid("u1".to_string()), status: 1 }),
    );
    room.start("{\"settings\":{\"PlayerData\":[{\"AI\":\"petra\"}]}}");
    room.tick(10);
    assert!(room.tick(39).is_empty());
    let effects = room.tick(41);
    assert!(effects.iter().any(|e| matches!(e, Effect::StopAiHost)));
    assert_eq!(
        lines(&effects, 1),
        vec!["The AI host failed to start; the game was not started.".to_string()]
    );
    assert!(matches!(room.server, Some(AnyServer::Setup(_))));
}

#[test]
fn resigning_ends_a_match() {
    let mut room = Room::match_of_two(Config::default(), TWO_PLAYERS);
    // {"type": "resign"} as a client writes it.
    let mut data = vec![3, 1, 0, 0, 0];
    data.extend_from_slice(&[1, 4, 0, 0, 0]);
    data.extend_from_slice(b"type");
    data.push(4);
    data.extend_from_slice(&[1, 6, 0, 0, 0]);
    data.extend_from_slice(b"resign");
    // Nobody resigns for another.
    room.says(1, WireMessage::PlayerCommand(command(2, 5, data.clone())));
    assert_eq!(room.phase(), Phase::InGame);
    let effects = room.says(1, WireMessage::PlayerCommand(command(1, 5, data)));
    assert_eq!(room.phase(), Phase::PostGame);
    assert!(effects.iter().any(|e| matches!(e, Effect::MatchEnded { checkpoint: None })));
    assert_eq!(
        lines(&effects, 2),
        vec![
            "The match is over. This server closes in 5 minutes, or once everyone has left."
                .to_string()
        ]
    );
    // Turns go on for whoever stays, and the server closes in time.
    room.seal(1, 4);
    assert_eq!(sent_to(&room.seal(2, 4), 1).len(), 1);
    room.tick(10);
    assert!(!room.tick(309).iter().any(|e| matches!(e, Effect::GameOver)));
    assert!(room.tick(311).iter().any(|e| matches!(e, Effect::GameOver)));
}

#[test]
fn silent_and_lagging_clients_are_told_about() {
    let mut room = Room::new(Config::default());
    room.join(1, "u1", "Ada");
    room.join(2, "u2", "Bob");
    room.tick(10);
    let effects = room.feed(Input::Tick {
        now: at(12),
        stats: vec![
            PeerStats { peer: PeerID(1), mean_rtt: 900, since_last_received: 10 },
            PeerStats { peer: PeerID(2), mean_rtt: 20, since_last_received: 5000 },
        ],
    });
    match sent_to(&effects, 2)[0] {
        WireMessage::LaggingClients(l) => {
            assert_eq!(l.clients[0].guid, Guid("u1".to_string()));
            assert_eq!(l.clients[0].mean_rtt, 900);
        }
        other => panic!("{:?}", other),
    }
    match sent_to(&effects, 1)[0] {
        WireMessage::LastSeen(l) => {
            assert_eq!(l.guid, Guid("u2".to_string()));
            assert_eq!(l.last_received_time, 5000);
        }
        other => panic!("{:?}", other),
    }
}

#[test]
fn a_shutdown_leaves_nobody_behind() {
    let mut room = Room::new(Config::default());
    room.join(1, "u1", "Ada");
    room.connect(2, AWAY);
    let effects = room.server.take().unwrap().shutdown();
    let gone: Vec<usize> = effects
        .iter()
        .filter_map(|e| match e {
            Effect::DisconnectNow { peer, reason: DisconnectReason::ServerShuttingDown } => {
                Some(peer.0)
            }
            _ => None,
        })
        .collect();
    assert_eq!(gone, vec![1, 2]);
}

fn seals(effects: &[Effect], to: usize) -> Vec<u32> {
    sent_to(effects, to)
        .into_iter()
        .filter_map(|m| match m {
            WireMessage::TurnSealed(t) => Some(t.turn),
            _ => None,
        })
        .collect()
}

#[test]
fn everyone_is_told_of_turns_one_by_one_and_observers_later() {
    let mut config = Config::default();
    config.observer_delay_turns = 3;
    let mut room = Room::ready_for_two(config);
    room.join(3, "u3", "Eve");
    room.start(TWO_PLAYERS);
    for peer in [1, 2, 3] {
        room.loaded(peer);
    }
    assert_eq!(room.phase(), Phase::InGame);
    let mut effects = Vec::new();
    for turn in 4..=12 {
        let m = command(1, turn, vec![7]);
        let told = room.says(1, WireMessage::PlayerCommand(m.clone()));
        assert_eq!(sent_to(&told, 2), vec![&WireMessage::PlayerCommand(m)]);
        assert!(sent_to(&told, 3).is_empty());
        room.seal(1, turn);
        let told = room.seal(2, turn);
        let head = room.server.as_ref().unwrap().context().feed.head();
        for m in sent_to(&told, 3) {
            match m {
                WireMessage::PlayerCommand(m) => assert!(m.turn <= head),
                WireMessage::TurnSealed(m) => assert!(m.turn <= head),
                other => panic!("{:?}", other),
            }
        }
        effects.extend(told);
    }
    assert_eq!(seals(&effects, 1), (4..=12).collect::<Vec<u32>>());
    assert_eq!(seals(&effects, 2), (4..=12).collect::<Vec<u32>>());
    assert_eq!(seals(&effects, 3), (4..=9).collect::<Vec<u32>>());
}

#[test]
fn a_joiner_is_told_of_every_turn_it_missed() {
    let mut config = Config::default();
    config.afk_pause = false;
    let mut room = Room::match_of_two(config, TWO_PLAYERS);
    for turn in 4..=6 {
        room.seal(1, turn);
        room.seal(2, turn);
    }
    room.feed(Input::Disconnected { peer: PeerID(2) });
    room.join(3, "u3", "Bob");
    let effects = room.says(3, WireMessage::LoadedGame(LoadedGame { current_turn: 4 }));
    assert_eq!(seals(&effects, 3), vec![5, 6]);
    let ready = room.server.as_ref().unwrap().context().turns.ready_turn();
    assert_eq!(ready, 6);
}
