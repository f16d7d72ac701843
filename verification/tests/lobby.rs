use veredus::lobby::account::Account;
use veredus::lobby::account::AccountAction;
use veredus::lobby::account::AccountConfig;
use veredus::lobby::account::AccountEvent;
use veredus::lobby::account::RoomMessage;
use veredus::lobby::auth;
use veredus::lobby::connection_data;
use veredus::lobby::connection_data::Assignment;
use veredus::lobby::connection_data::Reply;
use veredus::lobby::game_report;
use veredus::lobby::gamelist;
use veredus::lobby::gamelist::Query;
use veredus::lobby::gamelist::RegisterAttrs;
use veredus::lobby::link::GameReport;
use veredus::lobby::link::GameToLobby;
use veredus::lobby::link::LobbyMap;
use veredus::lobby::manager;
use veredus::lobby::rating;
use veredus::lobby::sasl;
use veredus::lobby::terms;
use veredus::lobby::LobbyConfig;
use veredus::lobby::LobbyEvent;
use veredus::lobby::LobbyManager;
use veredus::lobby::PersonalLobby;
use veredus::lobby::XmppCredentials;
use veredus::relay::messages::EnabledMod;
use veredus::relay::password;
use veredus::relay::script_value;
use veredus::table::Table;

fn base_mod() -> Vec<EnabledMod> {
    vec![EnabledMod {
        name: "0ad".to_string(),
        version: "0.28.0".to_string(),
    }]
}

fn pair<'a>(attrs: &'a [(String, String)], name: &str) -> Option<&'a str> {
    attrs.iter().find(|(n, _)| n == name).map(|(_, v)| v.as_str())
}

fn listing(players: &str) -> GameToLobby {
    GameToLobby::Listing {
        host_username: "ada".to_string(),
        nbp: 1,
        players: players.to_string(),
        map: None,
        mods: base_mod(),
    }
}

fn account(personal: Option<&str>) -> Account {
    Account::new(AccountConfig {
        account: 4,
        jid: "host@lobby/0ad".to_string(),
        muc_room: "arena@conference.lobby".to_string(),
        muc_bare: "arena@conference.lobby".to_string(),
        server_name: "Veredus".to_string(),
        has_password: false,
        personal: personal.map(|p| p.to_string()),
    })
}

fn online(a: &mut Account) -> Vec<AccountAction> {
    a.step(AccountEvent::Online {
        bound: "host@lobby/0ad-1".to_string(),
        resumed: false,
    })
}

fn command(action: &AccountAction) -> &str {
    match action {
        AccountAction::Gamelist(q) => q.command.unwrap_or(""),
        _ => "",
    }
}

fn commands(actions: &[AccountAction]) -> Vec<&str> {
    actions.iter().map(command).filter(|c| !c.is_empty()).collect()
}

#[test]
fn a_lobby_password_is_the_one_the_client_makes() {
    assert_eq!(
        sasl::sasl_password("secret", "ada"),
        "098586B8EA48F1E71FCB2858CE7A7E9815731481CF8BA560865355482390B0AC"
    );
    assert_eq!(
        sasl::sasl_password(&"p".repeat(40), "bob"),
        "BD0783776EF359A559EC97C9E1F65C194627C2CE521876429B3F28C0FFB60B54"
    );
}

#[test]
fn the_keyed_digest_pads_to_half_a_block() {
    assert_eq!(
        hex::encode(sasl::hmac_sha256_nonstandard(b"text", b"key")),
        "f72031b260c8b02ff7967959e7a67543f9ec61f390234177d96862f1e5155341"
    );
    assert_eq!(
        hex::encode(sasl::hmac_sha256_nonstandard(b"text", &[b'k'; 40])),
        "a815c759e0aabb3896c24851b8aa64e95eda65660fd358d45a4206cdec1b5ced"
    );
}

#[test]
fn a_game_is_listed_with_everything_once() {
    let attrs = gamelist::register_attrs(RegisterAttrs {
        server_name: "Veredus",
        mods: &base_mod(),
        host_username: "ada",
        host_jid: "host@lobby/0ad-1",
        nbp: 2,
        players: "Ada, Bob",
        has_password: true,
        map: None,
    });
    assert_eq!(pair(&attrs, "name"), Some("Veredus"));
    assert_eq!(pair(&attrs, "nbp"), Some("2"));
    assert_eq!(pair(&attrs, "players"), Some("Ada, Bob"));
    assert_eq!(pair(&attrs, "niceMapName"), Some("Alpine Valleys (2)"));
    assert_eq!(
        pair(&attrs, "mods"),
        Some(
            "[{\"ignoreInCompatibilityChecks\":false,\"mod\":\"public\",\"name\":\"0ad\",\"version\":\"0.28.0\"}]"
        )
    );
    for (i, (name, _)) in attrs.iter().enumerate() {
        assert!(attrs.iter().skip(i + 1).all(|(other, _)| other != name));
    }
    let query = gamelist::register(attrs);
    assert_eq!(query.root, "query");
    assert_eq!(query.ns, "jabber:iq:gamelist");
    assert_eq!(query.command, Some("register"));
}

#[test]
fn a_map_takes_the_place_of_the_fixed_one() {
    let map = LobbyMap {
        map_name: "maps/random/islands".to_string(),
        nice_map_name: "Islands".to_string(),
        map_type: "random".to_string(),
        map_size: "256".to_string(),
        victory_conditions: "conquest".to_string(),
        max_players: 4,
    };
    let attrs = gamelist::register_attrs(RegisterAttrs {
        server_name: "Veredus",
        mods: &vec![],
        host_username: "ada",
        host_jid: "j",
        nbp: 0,
        players: "",
        has_password: false,
        map: Some(&map),
    });
    assert_eq!(pair(&attrs, "niceMapName"), Some("Islands"));
    assert_eq!(pair(&attrs, "mapSize"), Some("256"));
    assert_eq!(pair(&attrs, "mods"), Some("[]"));
}

#[test]
fn a_started_match_changes_its_listing() {
    let query = gamelist::changestate(2, "Ada, Bob");
    assert_eq!(query.command, Some("changestate"));
    let game = query.game.unwrap();
    assert_eq!(pair(&game, "nbp"), Some("2"));
    assert_eq!(pair(&game, "players"), Some("Ada, Bob"));
    assert_eq!(gamelist::unregister().command, Some("unregister"));
}

#[test]
fn a_report_holds_what_can_be_an_attribute() {
    let query = rating::report(&GameReport {
        attrs: vec![
            ("playerID".to_string(), "1".to_string()),
            ("not a name".to_string(), "x".to_string()),
            ("".to_string(), "y".to_string()),
        ],
    });
    let game = query.game.unwrap();
    assert_eq!(game.len(), 1);
    assert_eq!(pair(&game, "playerID"), Some("1"));
    let board = rating::get_leaderboard();
    assert_eq!(board.ns, "jabber:iq:boardlist");
    assert_eq!(board.command, Some("getleaderboard"));
}

#[test]
fn a_token_needs_a_name_and_a_token() {
    let token = auth::handle(Some("t".to_string()), Some("ada".to_string())).unwrap();
    assert_eq!(token.username, "ada");
    assert_eq!(token.token, "t");
    assert!(auth::handle(None, Some("ada".to_string())).is_none());
    assert!(auth::handle(Some("t".to_string()), None).is_none());
}

#[test]
fn three_strikes_end_the_answers() {
    let assignment = Assignment {
        port: 20600,
        password_hash: "stored".to_string(),
    };
    let mut failures: Table<String, u32> = Table::new();
    let right = password::hash("stored", b"salt");
    assert_eq!(
        connection_data::handle(&assignment, &mut failures, "ada", &right, "salt"),
        Reply::Address(20600)
    );
    for _ in 0..3 {
        assert_eq!(
            connection_data::handle(&assignment, &mut failures, "ada", "wrong", "salt"),
            Reply::InvalidPassword
        );
    }
    assert_eq!(
        connection_data::handle(&assignment, &mut failures, "ada", &right, "salt"),
        Reply::Banned
    );
    assert_eq!(
        connection_data::handle(&assignment, &mut failures, "bob", &right, "salt"),
        Reply::Address(20600)
    );
    assert_eq!(Reply::Banned.error(), Some("banned"));
    assert_eq!(Reply::Address(1).counted_as(), "ok");
}

#[test]
fn an_idle_account_knows_no_game() {
    let mut a = account(None);
    assert_eq!(a.on_connection_data("ada", "", "salt"), Reply::NotServer);
    a.step(AccountEvent::Assign { port: 20600, password_hash: String::new() });
    assert_eq!(a.on_connection_data("ada", "", "salt"), Reply::Address(20600));
}

#[test]
fn a_burst_of_changes_costs_one_register() {
    let mut a = account(None);
    online(&mut a);
    a.step(AccountEvent::Assign { port: 20600, password_hash: String::new() });
    let first = a.step(AccountEvent::Game(listing("")));
    assert!(matches!(first[..], [AccountAction::Gather]));
    assert!(a.step(AccountEvent::Game(listing("Ada"))).is_empty());
    assert!(a.step(AccountEvent::Game(listing("Ada, Bob"))).is_empty());
    let sent = a.step(AccountEvent::Gathered);
    assert_eq!(commands(&sent), vec!["register"]);
    match &sent[0] {
        AccountAction::Gamelist(Query { game: Some(game), .. }) => {
            assert_eq!(pair(game, "players"), Some("Ada, Bob"));
            assert_eq!(pair(game, "hostJID"), Some("host@lobby/0ad-1"));
        }
        other => panic!("{:?}", other),
    }
    // What is listed already is not listed again.
    a.step(AccountEvent::Game(listing("Ada, Bob")));
    assert!(commands(&a.step(AccountEvent::Gathered)).is_empty());
}

#[test]
fn a_new_session_lists_again() {
    let mut a = account(None);
    online(&mut a);
    a.step(AccountEvent::Assign { port: 20600, password_hash: String::new() });
    a.step(AccountEvent::Game(listing("Ada")));
    a.step(AccountEvent::Gathered);
    a.step(AccountEvent::Game(GameToLobby::Started { nbp: 1, players: "Ada".to_string() }));
    let again = online(&mut a);
    assert!(matches!(again[0], AccountAction::JoinRoom));
    assert_eq!(commands(&again), vec!["register", "changestate"]);
    let kept = a.step(AccountEvent::Online {
        bound: "host@lobby/0ad-1".to_string(),
        resumed: true,
    });
    assert!(commands(&kept).is_empty());
}

#[test]
fn a_listing_is_withdrawn_once() {
    let mut a = account(None);
    online(&mut a);
    a.step(AccountEvent::Assign { port: 20600, password_hash: String::new() });
    a.step(AccountEvent::Game(listing("Ada")));
    a.step(AccountEvent::Gathered);
    let ended = a.step(AccountEvent::Game(GameToLobby::Ended));
    assert_eq!(commands(&ended), vec!["unregister"]);
    let gone = a.step(AccountEvent::GameGone);
    assert!(commands(&gone).is_empty());
    assert!(gone
        .iter()
        .any(|x| matches!(x, AccountAction::Tell(LobbyEvent::GameEnded { account: 4 }))));
}

#[test]
fn a_players_own_account_shows_and_reports() {
    let mut a = account(Some("Ada"));
    a.step(AccountEvent::Report(GameReport {
        attrs: vec![("playerID".to_string(), "1".to_string())],
    }));
    let first = online(&mut a);
    assert!(first.iter().any(|x| matches!(x, AccountAction::Leaderboard(_))));
    assert!(first.iter().any(|x| matches!(x, AccountAction::Rating(_))));
    let second = online(&mut a);
    assert!(!second.iter().any(|x| matches!(x, AccountAction::Leaderboard(_))));
    assert!(!second.iter().any(|x| matches!(x, AccountAction::Rating(_))));
    a.step(AccountEvent::Assign { port: 1, password_hash: String::new() });
    let shown = a.step(AccountEvent::Game(listing("Ada")));
    assert!(shown.iter().any(|x| matches!(x, AccountAction::Show { playing: true })));
    let hidden = a.step(AccountEvent::Release);
    assert!(hidden.iter().any(|x| matches!(x, AccountAction::Show { playing: false })));
    assert_eq!(a.config.muc_occupant(Some("host")), "arena@conference.lobby/Ada");
    assert_eq!(account(None).config.muc_occupant(None), "arena@conference.lobby/dedicated");
}

#[test]
fn a_game_is_asked_for_in_the_room() {
    let mut a = account(None);
    online(&mut a);
    let ask = |body: &str, delayed: bool, groupchat: bool| RoomMessage {
        groupchat,
        from_bare: Some("arena@conference.lobby".to_string()),
        from_resource: Some("Ada (1500)".to_string()),
        delayed,
        body: Some(body.to_string()),
    };
    match a.on_room_message(&ask(" hostme ", false, true)) {
        Some(LobbyEvent::HostRequested { account, host_jid, .. }) => {
            assert_eq!(account, 4);
            assert_eq!(host_jid, "host@lobby/0ad-1");
        }
        other => panic!("{:?}", other),
    }
    assert!(a.on_room_message(&ask("hello", false, true)).is_none());
    assert!(a.on_room_message(&ask("hostme", true, true)).is_none());
    assert!(a.on_room_message(&ask("hostme", false, false)).is_none());
    a.step(AccountEvent::Assign { port: 1, password_hash: String::new() });
    assert!(a.on_room_message(&ask("hostme", false, true)).is_none());
}

fn lobby(n: usize) -> LobbyConfig {
    LobbyConfig {
        accounts: (0..n)
            .map(|i| XmppCredentials {
                jid: format!("host{}@lobby.example", i),
                password: "pw".to_string(),
            })
            .collect(),
        muc_room: "arena@conference.lobby.example".to_string(),
        bot_jid: "wfgbot@lobby.example/CC".to_string(),
        public_ip: "203.0.113.5".to_string(),
        server_name: "Veredus".to_string(),
        engine_version: "0.28.0".to_string(),
        game_password: String::new(),
        personal: None,
    }
}

#[test]
fn an_account_hosts_one_game() {
    let mut m = LobbyManager::new(lobby(2));
    m.start();
    assert!(m.reserve(0));
    assert!(!m.reserve(0));
    assert!(!m.reserve(7));
    assert_eq!(m.reserve_free(Some(0)), Some(1));
    assert_eq!(m.reserve_free(None), None);
    assert!(m.release(0));
    assert!(!m.release(0));
    assert_eq!(m.reserve_free(Some(0)), Some(0));
    let jid = m.host_jid(1).unwrap();
    assert!(jid.starts_with("host1@lobby.example/0ad-"));
    assert_eq!(jid.len(), "host1@lobby.example/0ad-".len() + 36);
    assert!(m.host_jid(2).is_none());
}

#[test]
fn accounts_are_opened_behind_those_there() {
    let mut m = LobbyManager::new(lobby(2));
    m.start();
    assert!(m.reserve(1));
    let first = m.host_jid(0).unwrap().to_string();
    m.start();
    assert_eq!(m.host_jid(0), Some(first.as_str()));
    assert!(!m.reserve(1));
    assert!(m.host_jid(2).unwrap().starts_with("host0@lobby.example/0ad-"));
    assert!(m.host_jid(3).unwrap().starts_with("host1@lobby.example/0ad-"));
    assert!(m.host_jid(4).is_none());
    assert!(m.reserve(3));
}

#[test]
fn accounts_log_in_under_their_name() {
    let mut m = LobbyManager::new(lobby(1));
    m.start();
    let c = m.account_config(0, "arena@bare".to_string()).unwrap();
    assert_eq!(c.account, 0);
    assert_eq!(Some(c.jid.as_str()), m.host_jid(0));
    assert_eq!(c.muc_bare, "arena@bare");
    assert_eq!(c.server_name, "Veredus");
    assert!(!c.has_password);
    assert_eq!(c.login_name(Some("host0")), "host0");
    assert_eq!(c.login_name(None), "");
    assert!(m.account_config(1, String::new()).is_none());
    let mut config = lobby(1);
    config.game_password = "secret".to_string();
    config.personal = Some(PersonalLobby {
        name: "Ada".to_string(),
        rating_bot_jid: "echelon@lobby.example/CC".to_string(),
    });
    let mut m = LobbyManager::new(config);
    m.start();
    let c = m.account_config(0, "arena@bare".to_string()).unwrap();
    assert!(c.has_password);
    assert_eq!(c.personal.as_deref(), Some("Ada"));
    assert_eq!(c.login_name(Some("ada")), "Ada");
}

#[test]
fn accounts_come_up_one_by_one() {
    assert_eq!(LobbyManager::spawn_delay(0), 0);
    assert_eq!(LobbyManager::spawn_delay(3), 4500);
    assert_eq!(LobbyManager::new(lobby(2)).reconnect_spread(), 3000);
    assert_eq!(LobbyManager::new(lobby(40)).reconnect_spread(), 30_000);
    assert_eq!(manager::jitter_of(0, 99), 0);
    for _ in 0..20 {
        assert!(manager::reconnect_jitter(3000) <= 3000);
    }
}

#[test]
fn jids_are_looked_at() {
    assert!(lobby(1).validate().is_ok());
    let mut bad = lobby(1);
    bad.accounts[0].jid = "no spaces allowed@@".to_string();
    assert!(bad.validate().is_err());
    let mut bad = lobby(1);
    bad.muc_room = "@".to_string();
    assert!(bad.validate().is_err());
    let mut bad = lobby(1);
    bad.bot_jid = "".to_string();
    assert!(bad.validate().is_err());
    let mut own = lobby(1);
    own.personal = Some(PersonalLobby {
        name: "Ada".to_string(),
        rating_bot_jid: "@@".to_string(),
    });
    assert!(own.validate().is_err());
    assert_eq!(manager::full_jid("a@b", "c"), "a@b/c");
}

#[test]
fn ratings_are_asked_for_in_the_settings() {
    assert!(game_report::is_rated(
        b"{\"settings\":{\"RatingEnabled\":true,\"PlayerData\":[{},{}]}}"
    ));
    assert!(!game_report::is_rated(b"{\"settings\":{\"RatingEnabled\":false}}"));
    assert!(!game_report::is_rated(b"{"));
}

#[test]
fn a_report_is_for_a_finished_match() {
    let done = "{\"playerStates\":\"won,defeated,\",\"timeElapsed\":\"1000\"}";
    let report = game_report::for_player(done, 2).unwrap();
    assert_eq!(report.attrs[0], ("playerID".to_string(), "2".to_string()));
    assert_eq!(pair(&report.attrs, "timeElapsed"), Some("1000"));
    let going = "{\"playerStates\":\"active,defeated,\"}";
    assert!(game_report::for_player(going, 2).is_none());
    assert!(game_report::for_player("[]", 2).is_none());
    assert!(game_report::for_player("{\"playerStates\":5}", 2).is_none());
    assert!(game_report::any_part("a,active,b", "active"));
    assert!(!game_report::any_part("inactive", "active"));
}

#[test]
fn terms_have_to_be_accepted() {
    assert_eq!(terms::urls().len(), 3);
    assert!(terms::urls()[0].ends_with("Terms_of_Service.txt"));
    assert!(terms::is_accepting("YES"));
    assert!(terms::is_accepting("YES\n"));
    assert!(!terms::is_accepting("yes"));
    assert!(!terms::is_accepting(""));
    assert!(terms::must_accept("config.toml").contains("config.toml"));
}

#[test]
fn markup_is_stripped_and_text_is_kept() {
    assert_eq!(terms::strip_markup("no tags here"), "no tags here");
    assert_eq!(terms::strip_markup("[font=\"sans-bold-18\"]Title[/font] text"), "Title text");
    assert_eq!(terms::strip_markup("a [note] b"), "a [note] b");
}

#[test]
fn a_map_is_read_from_the_settings() {
    let text = |s: &str| {
        let mut out = vec![1];
        out.extend_from_slice(&(s.len() as u32).to_le_bytes());
        out.extend_from_slice(s.as_bytes());
        out
    };
    let mut settings = vec![3, 1, 0, 0, 0];
    settings.extend(text("mapName"));
    settings.push(4);
    settings.extend(text("Islands"));
    let mut bytes = vec![3, 1, 0, 0, 0];
    bytes.extend(text("initAttribs"));
    bytes.extend([3, 3, 0, 0, 0]);
    bytes.extend(text("map"));
    bytes.push(4);
    bytes.extend(text("maps/random/islands"));
    bytes.extend(text("mapType"));
    bytes.push(4);
    bytes.extend(text("random"));
    bytes.extend(text("settings"));
    bytes.extend(settings);
    let root = script_value::decode(&bytes).unwrap();
    let map = LobbyMap::from_settings(&root).unwrap();
    assert_eq!(map.map_name, "maps/random/islands");
    assert_eq!(map.nice_map_name, "Islands");
    assert_eq!(map.map_type, "random");
    assert_eq!(map.map_size, "0");
    assert_eq!(map.max_players, 0);
    assert!(map.same(&map));
}
