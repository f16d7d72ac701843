use veredus::cli;
use veredus::cli::Overrides;
use veredus::clock::Time;
use veredus::config;
use veredus::config::AccountEntry;
use veredus::config::FileConfig;
use veredus::config::LobbySection;
use veredus::config::ObserverPolicy;
use veredus::config::SidecarSection;
use veredus::game_pool::GameId;
use veredus::game_pool::GamePool;
use veredus::hosting::Asked;
use veredus::hosting::HostOutcome;
use veredus::hosting::Hosting;
use veredus::lobby::link::GameToLobby;
use veredus::lobby::link::LobbyAuthToken;
use veredus::lobby::link::LobbyToGame;
use veredus::lobby::LobbyManager;
use veredus::metrics;
use veredus::metrics::GameSnapshot;
use veredus::metrics::Tally;
use veredus::network_message::InboundCredit;
use veredus::network_message::InboundNetworkMessage;
use veredus::network_message::Ipv4Addr;
use veredus::network_message::OutboundNetworkMessage;
use veredus::network_message::PeerID;
use veredus::relay::enet_task::EnetLimits;
use veredus::relay::game_server;
use veredus::relay::game_server::Action;
use veredus::relay::game_server::CheckpointDone;
use veredus::relay::game_server::Ending;
use veredus::relay::game_server::GameEvent;
use veredus::relay::game_server::GameLoop;
use veredus::relay::game_server::Noted;
use veredus::relay::game_server::Runs;
use veredus::relay::messages::Guid;
use veredus::relay::messages::SynAck;
use veredus::relay::messages::EnabledMod;
use veredus::relay::messages::WireMessage;
use veredus::relay::password;
use veredus::relay::server_fsm::AnyServer;
use veredus::relay::server_fsm::Config;
use veredus::relay::server_fsm::DisconnectReason;
use veredus::relay::server_fsm::Effect;
use veredus::relay::server_fsm::Phase;
use veredus::relay::server_fsm::Server;
use veredus::sidecar::DumpRequest;

const AWAY: Ipv4Addr = Ipv4Addr(0x0a00_0001);

fn at(secs: i64) -> Time {
    Time { secs, nanos: 0 }
}

fn pool() -> GamePool {
    GamePool::new(
        Ipv4Addr(0),
        EnetLimits { max_packet_bytes: 65535, max_waiting_bytes: 262_144 },
    )
}

#[test]
fn ports_are_not_shared_and_come_back() {
    let mut pool = pool();
    let ports = pool.ports(None).unwrap();
    assert_eq!(ports.len(), 101);
    assert_eq!(ports[0], 20595);
    assert_eq!(pool.ports(Some(3000)).unwrap(), vec![3000]);
    let id = GameId::new();
    let key = GameId(id.0.clone());
    pool.create_game(id, 20595);
    assert_eq!(pool.ports(None).unwrap()[0], 20596);
    assert!(pool.ports(Some(20595)).is_err());
    assert_eq!(pool.destroy_game(&key), Some(20595));
    assert_eq!(pool.destroy_game(&key), None);
    assert_eq!(pool.ports(None).unwrap()[0], 20595);
}

#[test]
fn games_have_names_of_their_own() {
    let a = GameId::new();
    let b = GameId::new();
    assert_ne!(a, b);
    assert!(a.0.starts_with("gid_"));
    assert!(a.outcome_file().contains(&a.0));
}

#[test]
fn an_ai_host_connects_to_this_machine() {
    assert_eq!(pool().ai_host_connect(20600), Some((Ipv4Addr(0x7f00_0001), 20600)));
}

fn hosting(n: usize, game_password: &str) -> Hosting {
    let mut section = LobbySection::example();
    section.accounts = (0..n)
        .map(|i| AccountEntry {
            jid: format!("host{}@lobby.example", i),
            password: "pw".to_string(),
        })
        .collect();
    section.game_password = game_password.to_string();
    section.public_ip = "203.0.113.5".to_string();
    let mut manager = LobbyManager::new(section.to_lobby_config().unwrap());
    manager.start();
    Hosting::new(manager)
}

#[test]
fn a_sender_has_one_game() {
    let mut h = hosting(2, "");
    assert_eq!(h.on_request(0, "ada"), Asked::Host);
    let (outcome, refused) = h.on_created(0, "ada".to_string(), GameId("g1".to_string()), true);
    assert_eq!(outcome, HostOutcome::Hosted);
    assert!(refused.is_none());
    assert_eq!(h.on_request(1, "ada"), Asked::Duplicate);
    assert_eq!(h.on_request(0, "bob"), Asked::Busy);
    assert_eq!(h.on_request(1, "bob"), Asked::Host);
    assert_eq!(h.on_failed(1), HostOutcome::Failed);
    assert_eq!(h.on_ended(0), Some(GameId("g1".to_string())));
    assert_eq!(h.on_ended(0), None);
    assert_eq!(h.on_request(0, "ada"), Asked::Host);
    assert_eq!(HostOutcome::Duplicate.counted_as(), "duplicate_sender");
}

#[test]
fn a_game_its_account_never_hears_of_is_given_up() {
    let mut h = hosting(1, "");
    assert_eq!(h.on_request(0, "ada"), Asked::Host);
    let (outcome, refused) = h.on_created(0, "ada".to_string(), GameId("g1".to_string()), false);
    assert_eq!(outcome, HostOutcome::Failed);
    assert_eq!(refused, Some(GameId("g1".to_string())));
    // The account can no longer host anything, so it stays taken.
    assert_eq!(h.on_request(0, "ada"), Asked::Busy);
}

#[test]
fn a_hosted_game_is_under_its_senders_name() {
    let h = hosting(1, "secret");
    let hash = h.password_hash("host0@lobby.example/0ad-1");
    assert_eq!(hash, password::hash("secret", b"host0@lobby.example/0ad-1secret0.28.0"));
    let config = h.game_config(Config::default(), hash.clone(), "ada");
    assert_eq!(config.server_password_hash, hash);
    assert!(config.lobby_mode);
    assert_eq!(config.lobby_host_name, "ada");
}

#[test]
fn spans_read_back() {
    assert_eq!(config::secs_to_delta(3), 3000);
    assert_eq!(config::delta_to_secs(3000), 3);
    assert_eq!(config::delta_to_secs(-5), 0);
    assert_eq!(config::secs_to_delta(u64::MAX), i64::MAX);
    assert_eq!(config::secs_to_opt_delta(0), None);
    assert_eq!(config::opt_delta_to_secs(Some(9000)), 9);
    assert_eq!(config::opt_delta_to_secs(None), 0);
}

#[test]
fn the_defaults_are_valid() {
    let file = FileConfig::default();
    assert_eq!(file.validate(), Ok(()));
    let rules = file.server_config(false);
    let defaults = Config::default();
    assert_eq!(rules.turn_length_ms, defaults.turn_length_ms);
    assert_eq!(rules.server_name, defaults.server_name);
    assert_eq!(rules.observer_delay_turns, defaults.observer_delay_turns);
    assert!(!rules.sidecar_dumps);
    assert!(file.server_config(true).sidecar_dumps);
}

#[test]
fn every_section_has_its_defaults() {
    let file = FileConfig::default();
    assert_eq!(file.server.port, config::DEFAULT_PORT);
    assert_eq!(file.server.pyrogenesis_path, "../0ad/binaries/system/pyrogenesis");
    assert!(!file.server.exit_after_game);
    assert!(!file.lobby.enabled);
    assert!(file.lobby.accounts.is_empty());
    assert_eq!(file.game_match.server_name, "SERVER");
    assert_eq!(file.game_match.post_game_linger_secs, 300);
    assert_eq!(file.observers.limit, 8);
    assert!(file.observers.buddies.is_empty());
    assert_eq!(file.pause.budget_secs, 180);
    assert!(file.pause.afk);
    assert_eq!(file.saves.dir, config::DEFAULT_SAVE_DIR);
    assert!(file.saves.resume);
    assert_eq!(file.metrics.host, config::DEFAULT_METRICS_HOST);
    assert_eq!(file.metrics.port, config::DEFAULT_METRICS_PORT);
    assert_eq!(file.log.loki_env, "dev");
}

#[test]
fn what_makes_no_sense_is_refused() {
    let mut f = FileConfig::default();
    f.advanced.turn_length_ms = 0;
    assert_eq!(
        f.validate(),
        Err("[advanced] turn_length_ms must be at least 1".to_string())
    );
    let mut f = FileConfig::default();
    f.advanced.max_sessions = 1;
    assert_eq!(
        f.validate(),
        Err("[advanced] max_sessions must be between 2 and 200, got 1".to_string())
    );
    let mut f = FileConfig::default();
    f.limits.chat_per_sec = 5;
    f.limits.chat_burst = 0;
    assert!(f.validate().unwrap_err().contains("chat_burst"));
    let mut f = FileConfig::default();
    f.limits.flare_per_sec = 5;
    f.limits.flare_burst = 0;
    assert!(f.validate().unwrap_err().contains("flare_burst"));
    let mut f = FileConfig::default();
    f.limits.join_interval_secs = 5;
    f.limits.join_burst = 0;
    assert!(f.validate().unwrap_err().contains("join_burst"));
    let mut f = FileConfig::default();
    f.limits.auth_fail_interval_secs = 5;
    f.limits.auth_fail_burst = 0;
    assert!(f.validate().unwrap_err().contains("auth_fail_burst"));
    let mut f = FileConfig::default();
    f.advanced.enet_max_packet_bytes = 10;
    assert!(f.validate().unwrap_err().ends_with("must be at least 65535, got 10"));
    let mut f = FileConfig::default();
    f.advanced.enet_max_waiting_bytes = 0;
    assert!(f.validate().unwrap_err().contains("enet_max_waiting_bytes"));
}

#[test]
fn a_lobby_section_says_what_is_missing() {
    let mut section = LobbySection::default();
    assert_eq!(
        section.to_lobby_config().unwrap_err(),
        "[lobby] is enabled but lists no accounts"
    );
    section.accounts.push(AccountEntry {
        jid: "a@b".to_string(),
        password: String::new(),
    });
    assert_eq!(
        section.to_lobby_config().unwrap_err(),
        "[lobby] account 'a@b' has no password"
    );
    section.accounts[0].password = "x".to_string();
    section.muc_room = String::new();
    assert_eq!(
        section.to_lobby_config().unwrap_err(),
        "[lobby] is enabled but muc_room is empty"
    );
    let example = LobbySection::example();
    assert!(!example.accounts.is_empty());
}

#[test]
fn intervals_are_counted_in_turns() {
    assert_eq!(SidecarSection::for_cores(1).max_runs, 1);
    assert_eq!(SidecarSection::for_cores(8).max_runs, 8);
    assert_eq!(config::ai_state_interval_turns(0, 600), 600);
    assert_eq!(config::ai_state_interval_turns(7, 600), 7);
    assert_eq!(config::ai_state_interval_turns(7, 0), 7);
    assert_eq!(config::ai_state_interval_turns(0, 50), 50);
    assert_eq!(
        config::ai_state_interval_turns(0, 0),
        Config::default().ai_state_interval_turns
    );
    assert_ne!(config::ai_state_interval_turns(0, 0), 0);
    assert_eq!(config::client_state_interval_turns(false, 120, 200), 600);
    assert_eq!(config::client_state_interval_turns(true, 120, 200), 0);
    assert_eq!(config::client_state_interval_turns(false, 1, 5000), 1);
    assert_eq!(config::comment_text("a \nb"), "# a\n# b\n");
}

#[test]
fn flags_override_the_file() {
    let overrides = Overrides {
        host: Some(Ipv4Addr(0x7f00_0001)),
        port: Some(4000),
        pyrogenesis_path: None,
        outcome_dir: None,
        checkpoint_interval_turns: Some(7),
        metrics_host: None,
        metrics_port: Some(1),
        save_dir: Some("s".to_string()),
    };
    let file = overrides.apply(FileConfig::default());
    assert_eq!(file.server.host, Ipv4Addr(0x7f00_0001));
    assert_eq!(file.server.port, 4000);
    assert_eq!(file.sidecar.checkpoint_interval_turns, 7);
    assert_eq!(file.metrics.port, 1);
    assert_eq!(file.metrics.host, "127.0.0.1");
    assert_eq!(file.saves.dir, "s");
    assert_eq!(file.save_setup("acc").unwrap().root, "s");
}

#[test]
fn a_run_without_a_lobby_needs_none() {
    let mode = cli::run_mode(FileConfig::default(), None).unwrap();
    assert!(mode.lobby.is_none());
    let mut file = FileConfig::default();
    file.lobby.enabled = true;
    assert!(cli::run_mode(file, None).is_err());
}

#[test]
fn policies_convert_both_ways() {
    for policy in [ObserverPolicy::Everyone, ObserverPolicy::Buddies, ObserverPolicy::Deny] {
        let there = veredus::relay::auth::LateObserverPolicy::from(policy);
        assert_eq!(ObserverPolicy::from(there), policy);
    }
}

#[test]
fn environment_comes_before_the_file() {
    assert_eq!(config::env_or(Some("e".to_string()), "f"), Some("e".to_string()));
    assert_eq!(config::env_or(None, "f"), Some("f".to_string()));
    assert_eq!(config::env_or(None, ""), None);
    assert_eq!(
        config::stream_instance(None, Some("host".to_string()), None),
        "host"
    );
}

#[test]
fn labels_are_short_and_printable() {
    assert_eq!(metrics::sanitize_label("Ada"), "Ada");
    assert!(metrics::sanitize_label(&"x".repeat(100)).chars().count() <= 64);
    assert_ne!(metrics::phase_value(Phase::Setup), metrics::phase_value(Phase::InGame));
}

fn snapshot(phase: Phase, ready_turn: u32, names: &[&str]) -> GameSnapshot {
    GameSnapshot {
        phase,
        sessions: names.len(),
        players: names.len(),
        paused: 0,
        ready_turn,
        feed_lag: 0,
        clients: names
            .iter()
            .enumerate()
            .map(|(i, n)| (PeerID(i), n.to_string()))
            .collect(),
    }
}

#[test]
fn reports_add_up() {
    let mut tally = Tally::new();
    let first = tally.bytes(100, 10);
    let second = tally.bytes(150, 30);
    assert_eq!(first.0 + second.0, 150);
    assert_eq!(second, (50, 20));
    // The counters wrap.
    let mut tally = Tally::new();
    tally.bytes(u32::MAX - 4, 0);
    assert_eq!(tally.bytes(5, 0).0, 10);
}

#[test]
fn a_match_is_timed_from_its_start() {
    let mut tally = Tally::new();
    tally.observe(&snapshot(Phase::Setup, 3, &["Ada"]), at(5));
    tally.observe(&snapshot(Phase::InGame, 3, &["Ada"]), at(10));
    let gone = tally.observe(&snapshot(Phase::InGame, 9, &[]), at(20));
    assert_eq!(gone, vec!["Ada".to_string()]);
    let (length, turn) = tally.finish(at(40)).unwrap();
    assert_eq!(turn, 9);
    assert_eq!(length, Some(30_000_000_000));
    assert!(tally.end());
    assert!(!tally.end());
}

fn request() -> DumpRequest {
    DumpRequest {
        init_attributes: vec![],
        engine_version: "0.28.0".to_string(),
        mods: vec![],
        base: None,
        turn_lengths: vec![200, 200],
        commands: vec![],
        hashes: vec![],
    }
}

#[test]
fn effects_become_actions_in_order() {
    let mut runs = Runs::new();
    let actions = runs.drain(vec![
        Effect::Send { peer: PeerID(1), msg: WireMessage::ResetPregameStatus },
        Effect::Disconnect { peer: PeerID(1), reason: DisconnectReason::Kicked },
        Effect::StateDump { id: 3, turn: 2, request: request() },
        Effect::CancelStateDump { id: 3 },
        Effect::GameOver,
    ]);
    assert!(matches!(
        &actions[0],
        Action::Outbound(OutboundNetworkMessage::Message { peer: PeerID(1), data }) if data == &[8, 0, 3]
    ));
    match &actions[1] {
        Action::Outbound(OutboundNetworkMessage::Disconnect { reason, .. }) => {
            assert_eq!(*reason, DisconnectReason::Kicked.code());
        }
        other => panic!("{:?}", other),
    }
    assert!(matches!(actions[2], Action::StartDump { id: 3, turn: 2, .. }));
    assert!(matches!(actions[3], Action::CancelDump { id: 3 }));
    assert!(matches!(actions[4], Action::GameOver));
    assert_eq!(request().first_turn(), 0);
    assert_eq!(request().last_turn(), 2);
}

fn opened() -> GameLoop {
    GameLoop::new(AnyServer::from(Server::new(Config::default()).listen()), at(0))
}

#[test]
fn a_packet_that_cannot_be_read_is_noted() {
    let mut outstanding = 0;
    let credit = InboundCredit::new(&mut outstanding, 1);
    let (_, noted) = opened().feed(GameEvent::Network(InboundNetworkMessage::Message {
        peer: PeerID(1),
        data: vec![99],
        credit,
    }));
    assert!(matches!(noted, Noted::Undecodable));
}

#[test]
fn a_loop_carries_a_handshake() {
    let (game, noted) = opened().feed(GameEvent::Network(InboundNetworkMessage::Connect {
        peer: PeerID(1),
        addr: AWAY,
    }));
    assert!(matches!(noted, Noted::Connected));
    let mut game = game;
    assert_eq!(game.drain().len(), 1);
    let hello = WireMessage::SynAck(SynAck {
        magic: 0,
        protocol_version: 0x0101_0019,
        engine_version: "0.28.0".to_string(),
        enabled_mods: vec![EnabledMod {
            name: "0ad".to_string(),
            version: "0.28.0".to_string(),
        }],
    });
    let data = hello.to_bytes();
    let mut outstanding = 0;
    let credit = InboundCredit::new(&mut outstanding, data.len());
    let (mut game, noted) = game.feed_with(
        GameEvent::Network(InboundNetworkMessage::Message { peer: PeerID(1), data, credit }),
        Some(Guid("u1".to_string())),
    );
    assert!(matches!(noted, Noted::Received("SynAck")));
    match &game.drain()[..] {
        [Action::Outbound(OutboundNetworkMessage::Message { data, .. })] => {
            assert_eq!(WireMessage::from_bytes(data).unwrap().name(), "Ack");
        }
        other => panic!("{:?}", other),
    }
    let (mut game, _) = game.feed(GameEvent::Lobby(LobbyToGame::Auth(LobbyAuthToken {
        username: "ada".to_string(),
        token: "u1".to_string(),
    })));
    assert_eq!(game.drain().len(), 1);
    let (actions, outcome) = game.finish(Ending::Shutdown);
    assert!(actions.iter().any(|a| matches!(
        a,
        Action::Outbound(OutboundNetworkMessage::DisconnectNow { peer: PeerID(1), .. })
    )));
    assert!(outcome.is_none());
}

#[test]
fn a_tick_comes_when_it_is_due() {
    let mut config = Config::default();
    config.idle_shutdown = Some(1);
    let game = GameLoop::new(AnyServer::from(Server::new(config).listen()), at(0));
    let (mut game, _) = game.feed(GameEvent::Clock(Time { secs: 0, nanos: 50_000_000 }));
    assert!(game.drain().is_empty());
    let (mut game, _) = game.feed(GameEvent::Clock(at(1)));
    assert!(game.drain().is_empty());
    let (mut game, _) = game.feed(GameEvent::Clock(at(2)));
    assert!(game.drain().iter().any(|a| matches!(a, Action::GameOver)));
}

#[test]
fn endings_are_counted() {
    assert_eq!(Ending::GameOver.counted_as(false), "game_over");
    assert_eq!(Ending::Shutdown.counted_as(true), "shutdown");
    assert_eq!(Ending::Closed.counted_as(false), "enet_closed");
    assert_eq!(Ending::Closed.counted_as(true), "shutdown");
    assert_eq!(Ending::SendClosed.counted_as(false), "enet_closed");
    assert_eq!(Ending::SendClosed.counted_as(true), "enet_closed");
    let done = CheckpointDone {
        state: vec![1],
        players: vec!["gaia".to_string()],
        turn: 4,
        json: "{}".to_string(),
    };
    let (mut game, _) = opened().feed(GameEvent::Checkpointed { id: 1, done: Some(done) });
    assert!(game.drain().is_empty());
}

#[test]
fn an_outcome_is_written_as_json() {
    let text = game_server::outcome_text(12, true, "{\"a\":1}");
    let value: serde_json::Value = serde_json::from_str(&text).unwrap();
    assert_eq!(value["turn"], 12);
    assert_eq!(value["final"], true);
}

#[test]
fn a_listing_goes_to_the_lobby() {
    let mut runs = Runs::new();
    let actions = runs.drain(vec![Effect::LobbyStarted { nbp: 2, players: "a, b".to_string() }]);
    assert!(matches!(
        &actions[0],
        Action::Lobby(GameToLobby::Started { nbp: 2, players }) if players == "a, b"
    ));
}
