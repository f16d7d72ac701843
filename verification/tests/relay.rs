use std::sync::Arc;

use argon2::Algorithm;
use argon2::Argon2;
use argon2::Params;
use argon2::Version;
use blake2::digest::consts::U16;
use blake2::digest::KeyInit;
use blake2::digest::Mac;
use blake2::Blake2bMac;

use veredus::clock;
use veredus::clock::Time;
use veredus::network_message::Ipv4Addr;
use veredus::network_message::PeerID;
use veredus::relay::auth;
use veredus::relay::enet_task;
use veredus::relay::enet_task::HostEvent;
use veredus::relay::enet_task::HostStep;
use veredus::relay::enet_task::Meters;
use veredus::relay::enet_task::SlowPeers;
use veredus::relay::enet_task::Taken;
use veredus::relay::fault::PeerFault;
use veredus::relay::gamestate_transfer::Purpose;
use veredus::relay::gamestate_transfer::Transfers;
use veredus::relay::ingress::Decision;
use veredus::relay::ingress::Gate;
use veredus::relay::ledger::Ledger;
use veredus::relay::messages::Authenticate;
use veredus::relay::messages::AuthenticateResult;
use veredus::relay::messages::AuthenticateResultCode;
use veredus::relay::messages::EnabledMod;
use veredus::relay::messages::Flare;
use veredus::relay::messages::Guid;
use veredus::relay::messages::Join;
use veredus::relay::messages::PlayerCommand;
use veredus::relay::messages::WireMessage;
use veredus::relay::monitor::Monitor;
use veredus::relay::monitor::Warning;
use veredus::relay::observer_feed::ObserverFeed;
use veredus::relay::password;
use veredus::relay::pause_budget::BudgetEvent;
use veredus::relay::pause_budget::PauseBudget;
use veredus::relay::rate_limit::Limits;
use veredus::relay::rate_limit::TokenBucket;
use veredus::relay::rate_limit::TurnQuota;
use veredus::relay::rate_limit::Verdict;
use veredus::relay::script_value;
use veredus::relay::script_value::ScriptNumber;
use veredus::relay::script_value::ScriptValue;
use veredus::relay::script_value::ScriptValueError;
use veredus::relay::server_fsm::settings;
use veredus::relay::server_fsm::Config;
use veredus::relay::server_fsm::DisconnectReason;
use veredus::relay::server_fsm::Effect;
use veredus::relay::server_fsm::Input;
use veredus::relay::server_fsm::Phase;
use veredus::relay::session::Session;
use veredus::relay::slots::Slots;
use veredus::relay::turn::MatchLog;
use veredus::relay::turn::TurnManager;
use veredus::relay::turn::LAST_TURN;
use veredus::network_message::InboundCredit;
use veredus::network_message::InboundNetworkMessage;
use veredus::network_message::OutboundNetworkMessage;
use veredus::table::Table;

const AWAY: Ipv4Addr = Ipv4Addr(0x0a00_0001);

const HOME: Ipv4Addr = Ipv4Addr(0x7f00_0001);

const SECOND: i128 = 1_000_000_000;

fn at(secs: i64) -> Time {
    Time { secs, nanos: 0 }
}

fn uuid(name: &str) -> Guid {
    Guid(name.to_string())
}

#[test]
fn a_wait_begins_when_it_is_first_looked_at() {
    let (over, anchor) = clock::wait_over(None, at(100), 5_000);
    assert!(!over);
    assert_eq!(anchor, at(100));
    assert!(!clock::wait_over(Some(anchor), at(104), 5_000).0);
    assert!(clock::wait_over(Some(anchor), at(105), 5_000).0);
    assert_eq!(clock::millis(3), 3_000_000);
    assert_eq!(at(7).since(at(5)), 2 * SECOND);
}

#[test]
fn names_are_made_presentable() {
    assert_eq!(auth::sanitize("  Ada  "), "Ada");
    assert_eq!(auth::sanitize(""), "Anonymous");
    assert_eq!(auth::sanitize(&"x".repeat(40)), "x".repeat(32));
    assert_eq!(auth::suffix_stripped("Ada (1500)"), "Ada");
    assert_eq!(auth::suffix_stripped("Ada"), "Ada");
    assert!(auth::reserved("* Veredus"));
    assert!(!auth::reserved("Ada"));
    assert_eq!(auth::server_display_name("Veredus"), "* Veredus");
}

#[test]
fn found_names() {
    let taken = vec!["Ada".to_string(), "Ada (2)".to_string(), "Ada (4)".to_string()];
    assert_eq!(auth::deduplicate("Ada", &taken), "Ada (3)");
    assert_eq!(auth::deduplicate("Bob", &taken), "Bob");
    assert_eq!(auth::suffix_stripped(&auth::deduplicate("Ada", &taken)), "Ada");
}

#[test]
fn mods_are_compared_in_order() {
    let m = |name: &str, version: &str| EnabledMod {
        name: name.to_string(),
        version: version.to_string(),
    };
    let a = vec![m("0ad", "1"), m("x", "2")];
    let b = vec![m("x", "2"), m("0ad", "1")];
    assert!(auth::compatible("v", &a, "v", &vec![m("0ad", "1"), m("x", "2")]));
    assert!(!auth::compatible("v", &a, "v", &b));
    assert!(!auth::compatible("v", &a, "w", &a));
}

#[test]
fn a_password_hash_is_the_one_the_client_makes() {
    let mut mac = <Blake2bMac<U16> as KeyInit>::new_from_slice(&password::SALT_KEY).unwrap();
    Mac::update(&mut mac, b"Ada");
    let salt = mac.finalize().into_bytes();
    let params = Params::new(32, 2, 1, Some(32)).unwrap();
    let argon = Argon2::new(Algorithm::Argon2id, Version::V0x13, params);
    let mut out = [0u8; 32];
    argon.hash_password_into(b"secret", &salt, &mut out).unwrap();
    assert_eq!(password::hash("secret", b"Ada"), hex::encode_upper(out));
    assert_ne!(password::hash("secret", b"Bob"), hex::encode_upper(out));
}

#[test]
fn no_password_is_the_empty_one() {
    assert_eq!(password::hash("", b"Ada"), "");
    assert_eq!(password::hash("", b""), "");
}

#[test]
fn a_bucket_passes_drops_and_kicks() {
    let mut bucket = TokenBucket::new(1, 2);
    assert_eq!(bucket.take(Some(at(0)), 3), Verdict::Pass);
    assert_eq!(bucket.take(Some(at(0)), 3), Verdict::Pass);
    assert_eq!(bucket.take(Some(at(0)), 3), Verdict::Drop);
    assert_eq!(bucket.take(Some(at(0)), 3), Verdict::Drop);
    assert_eq!(bucket.take(Some(at(0)), 3), Verdict::Drop);
    assert_eq!(bucket.take(Some(at(0)), 3), Verdict::Kick);
    let mut gentle = TokenBucket::new(1, 1);
    assert_eq!(gentle.take(Some(at(0)), 0), Verdict::Pass);
    assert_eq!(gentle.take(Some(at(0)), 0), Verdict::Drop);
    assert_eq!(gentle.take(Some(at(1)), 0), Verdict::Pass);
    let mut off = TokenBucket::new(0, 0);
    assert_eq!(off.take(None, 3), Verdict::Pass);
}

#[test]
fn a_turn_has_room_for_so_much() {
    let mut quota = TurnQuota::default();
    assert_eq!(quota.charge(5, 10, 4, 2, 100, 2), Verdict::Pass);
    assert_eq!(quota.charge(5, 10, 4, 2, 100, 2), Verdict::Pass);
    assert_eq!(quota.charge(5, 10, 4, 2, 100, 2), Verdict::Drop);
    assert_eq!(quota.charge(6, 10, 4, 2, 100, 2), Verdict::Pass);
    let limits = Limits::new(&Config::default());
    assert_eq!(limits.chat.rate_per_sec, 0);
}

#[test]
fn bursts_pass_then_drop_then_kick() {
    let mut bucket = TokenBucket::new(5, 3);
    for n in 1..=12 {
        let expected = match n {
            1..=3 => Verdict::Pass,
            4..=8 => Verdict::Drop,
            _ => Verdict::Kick,
        };
        assert_eq!(bucket.take(Some(at(7)), 3), expected, "{n}");
    }
    let mut patient = TokenBucket::new(5, 1);
    assert_eq!(patient.take(Some(at(7)), 0), Verdict::Pass);
    for _ in 0..100 {
        assert_eq!(patient.take(Some(at(7)), 0), Verdict::Drop);
    }
}

#[test]
fn charges_add_up() {
    let mut quota = TurnQuota::default();
    for n in 1..=6 {
        let expected = match n {
            1..=2 => Verdict::Pass,
            3..=4 => Verdict::Drop,
            _ => Verdict::Kick,
        };
        assert_eq!(quota.charge(5, 1, 4, 2, 0, 2), expected, "{n}");
        assert_eq!(quota.charge(10 + n, 1, 4, 2, 0, 2), Verdict::Pass);
    }
    let mut bytes = TurnQuota::default();
    assert_eq!(bytes.charge(5, 60, 4, 0, 100, 2), Verdict::Pass);
    assert_eq!(bytes.charge(6, 60, 4, 0, 100, 2), Verdict::Pass);
    assert_eq!(bytes.charge(5, 60, 4, 0, 100, 2), Verdict::Drop);
    assert_eq!(bytes.charge(5, 81, 4, 0, 100, 2), Verdict::Kick);
}

#[test]
fn spending_runs_out_and_comes_back() {
    let mut ledger: Ledger<Ipv4Addr> = Ledger::new(2, Some(10_000));
    assert!(ledger.has_token(&AWAY, at(0)));
    ledger.spend(AWAY, at(0));
    ledger.spend(AWAY, at(0));
    assert!(!ledger.has_token(&AWAY, at(0)));
    assert!(!ledger.has_token(&AWAY, at(9)));
    assert!(ledger.has_token(&HOME, at(9)));
    assert!(ledger.has_token(&AWAY, at(10)));
    ledger.prune(at(30));
    assert_eq!(ledger.buckets.len(), 0);
    assert!(ledger.has_token(&AWAY, at(30)));
    let mut off: Ledger<Ipv4Addr> = Ledger::new(0, None);
    off.spend(AWAY, at(0));
    assert!(off.has_token(&AWAY, at(0)));
}

#[test]
fn a_monitor_looks_once_a_second() {
    let mut monitor = Monitor::default();
    assert!(monitor.due(at(1)));
    assert!(!monitor.due(Time { secs: 1, nanos: 900_000_000 }));
    assert!(monitor.due(at(2)));
    assert_eq!(Monitor::classify(100, 100), None);
    assert_eq!(Monitor::classify(900, 100), Some(Warning::Lagging(900)));
    assert_eq!(Monitor::classify(900, 5000), Some(Warning::Silent(5000)));
}

#[test]
fn pauses_drain_who_makes_them() {
    let mut budget = PauseBudget::new(10_000, 0);
    assert_eq!(budget.remaining(&uuid("a")), 10 * SECOND);
    budget.check(at(0), 2, &vec![]);
    assert!(budget.set_pausing(&uuid("a"), true));
    budget.check(at(4), 2, &vec![]);
    assert_eq!(budget.remaining(&uuid("a")), 6 * SECOND);
    assert_eq!(budget.remaining(&uuid("b")), 10 * SECOND);
    let events = budget.check(at(11), 2, &vec![]);
    assert!(events
        .iter()
        .any(|e| matches!(e, BudgetEvent::Expired { uuid } if uuid.0 == "a")));
    assert!(budget.pausing().is_empty());
    assert_eq!(budget.remaining(&uuid("a")), 0);
}

#[test]
fn passes_charge_fairly() {
    let mut budget = PauseBudget::new(10_000, 0);
    budget.set_pausing(&uuid("a"), true);
    budget.check(at(5), 3, &vec![uuid("b")]);
    assert_eq!(budget.remaining(&uuid("a")), 10 * SECOND);
    assert_eq!(budget.remaining(&uuid("b")), 10 * SECOND);
    assert!(budget.auto_paused());
    budget.check(at(3), 3, &vec![uuid("b")]);
    assert_eq!(budget.remaining(&uuid("a")), 10 * SECOND);
    let events = budget.check(at(9), 3, &vec![uuid("b")]);
    assert_eq!(budget.remaining(&uuid("a")), 4 * SECOND);
    assert_eq!(budget.remaining(&uuid("b")), 4 * SECOND);
    assert_eq!(budget.remaining(&uuid("c")), 10 * SECOND);
    assert!(!events.iter().any(|e| matches!(e, BudgetEvent::Expired { .. })));
    let events = budget.check(at(19), 3, &vec![uuid("b"), uuid("c")]);
    assert_eq!(budget.remaining(&uuid("a")), 0);
    assert_eq!(budget.remaining(&uuid("b")), 0);
    assert_eq!(budget.remaining(&uuid("c")), 0);
    let expired: Vec<&Guid> = events
        .iter()
        .filter_map(|e| match e {
            BudgetEvent::Expired { uuid } => Some(uuid),
            _ => None,
        })
        .collect();
    assert_eq!(expired, vec![&uuid("a")]);
    assert!(budget.pausing().is_empty());
    assert!(!budget.auto_paused());
}

#[test]
fn quotas_stay_sound() {
    let mut budget = PauseBudget::new(1_000, 5_000);
    budget.check(at(0), 2, &vec![]);
    budget.set_pausing(&uuid("a"), true);
    budget.set_pausing(&uuid("a"), true);
    assert_eq!(budget.pausing(), vec![uuid("a")]);
    budget.set_pausing(&uuid("a"), false);
    assert_eq!(budget.remaining(&uuid("a")), 0);
    budget.inherit(&uuid("a"), &uuid("b"));
    budget.check(at(9), 2, &vec![uuid("b")]);
    assert_eq!(budget.remaining(&uuid("b")), 0);
    assert_eq!(budget.remaining(&uuid("a")), SECOND);
}

#[test]
fn pausing_together_costs_nothing() {
    let mut budget = PauseBudget::new(10_000, 0);
    budget.check(at(0), 2, &vec![]);
    budget.set_pausing(&uuid("a"), true);
    budget.set_pausing(&uuid("b"), true);
    let events = budget.check(at(4), 2, &vec![]);
    assert!(events.iter().any(|e| matches!(e, BudgetEvent::CoordinatedStarted)));
    assert_eq!(budget.remaining(&uuid("a")), 10 * SECOND);
}

#[test]
fn toggling_costs_the_least_charge() {
    let mut budget = PauseBudget::new(10_000, 3_000);
    budget.check(at(0), 2, &vec![]);
    budget.set_pausing(&uuid("a"), true);
    budget.set_pausing(&uuid("a"), false);
    assert_eq!(budget.remaining(&uuid("a")), 7 * SECOND);
}

#[test]
fn a_returning_player_gets_nothing_back() {
    let mut budget = PauseBudget::new(10_000, 0);
    budget.check(at(0), 2, &vec![]);
    budget.set_pausing(&uuid("a"), true);
    budget.check(at(4), 2, &vec![]);
    budget.inherit(&uuid("a"), &uuid("b"));
    assert_eq!(budget.remaining(&uuid("b")), 6 * SECOND);
}

#[test]
fn a_match_is_held_for_the_absent_while_they_can_pay() {
    let mut budget = PauseBudget::new(5_000, 0);
    budget.check(at(0), 2, &vec![]);
    let events = budget.check(at(1), 2, &vec![uuid("a")]);
    assert!(events.iter().any(|e| matches!(e, BudgetEvent::AutoPauseStarted { .. })));
    assert!(budget.auto_paused());
    let events = budget.check(at(7), 2, &vec![uuid("a")]);
    assert!(events.iter().any(|e| matches!(e, BudgetEvent::AbsentExpired { .. })));
    assert!(events.iter().any(|e| matches!(e, BudgetEvent::AutoPauseEnded)));
    assert!(!budget.auto_paused());
}

#[test]
fn the_feed_stays_behind() {
    let mut feed = ObserverFeed::new(10);
    assert_eq!(feed.advance(5, false), (3, 3));
    assert_eq!(feed.advance(25, false), (3, 15));
    assert_eq!(feed.head(), 15);
    assert_eq!(feed.advance(20, false), (15, 15));
    assert_eq!(feed.advance(25, true), (15, 25));
}

#[test]
fn what_is_queued_waits_for_the_feed() {
    let mut feed = ObserverFeed::new(10);
    feed.queue_flare(
        8,
        Flare {
            guid: uuid("a"),
            position_x: "1".to_string(),
            position_y: "2".to_string(),
            position_z: "3".to_string(),
        },
    );
    feed.hold_join(
        PeerID(1),
        9,
        Join { init_attributes: vec![1] },
        Arc::new(vec![7]),
    );
    feed.advance(17, false);
    assert!(feed.due_flares().is_empty());
    assert!(feed.due_joins().is_empty());
    feed.advance(18, false);
    assert_eq!(feed.due_flares().len(), 1);
    assert!(feed.due_flares().is_empty());
    feed.advance(19, false);
    let due = feed.due_joins();
    assert_eq!(due.len(), 1);
    assert_eq!(due[0].joiner, PeerID(1));
    assert_eq!(*due[0].snapshot, vec![7]);
    assert!(feed.due_joins().is_empty());
}

#[test]
fn what_is_sent_arrives() {
    let data: Vec<u8> = (0..50_000u32).map(|i| i as u8).collect();
    let mut source = Transfers::default();
    let mut sink = Transfers::default();
    let id = sink.allocate();
    sink.expect(PeerID(1), id, Purpose::JoinSnapshot { joiner: PeerID(9) });
    let (length, first) =
        source.begin_send(PeerID(2), id, Arc::new(data.clone())).unwrap();
    assert_eq!(length, 50_000);
    assert_eq!(first.len(), 32);
    assert!(sink.on_response(PeerID(1), id, length).is_ok());
    let mut waiting = first;
    let mut arrived = None;
    while !waiting.is_empty() {
        let mut next = Vec::new();
        for chunk in waiting {
            match sink.on_chunk(PeerID(1), id, &chunk.data) {
                Ok(Some((purpose, bytes))) => {
                    assert_eq!(purpose, Purpose::JoinSnapshot { joiner: PeerID(9) });
                    arrived = Some(bytes);
                }
                Ok(None) => {}
                Err(fault) => panic!("{:?}", fault),
            }
            next.extend(source.on_ack(PeerID(2), id, 1));
        }
        waiting = next;
    }
    assert_eq!(arrived, Some(data));
    assert!(!sink.knows_incoming(PeerID(1), id));
}

#[test]
fn acks_draw_out_the_data() {
    let data: Vec<u8> = (0..40 * 1024 + 7).map(|i: u32| (i % 251) as u8).collect();
    let mut t = Transfers::default();
    let (length, first) = t.begin_send(PeerID(2), 5, Arc::new(data.clone())).unwrap();
    assert_eq!(length as usize, data.len());
    let mut unacked = first.len() as u32;
    let mut out = first;
    for step in [1, 7, 32].iter().cycle() {
        assert!(unacked <= 32);
        if unacked == 0 {
            break;
        }
        let count = unacked.min(*step);
        let more = t.on_ack(PeerID(2), 5, count);
        unacked = unacked - count + more.len() as u32;
        out.extend(more);
    }
    assert!(out.iter().all(|c| c.request_id == 5));
    assert_eq!(out.len(), 41);
    assert!(out[..40].iter().all(|c| c.data.len() == 1024));
    assert_eq!(out[40].data.len(), 7);
    let joined: Vec<u8> = out.iter().flat_map(|c| c.data.clone()).collect();
    assert_eq!(joined, data);
}

#[test]
fn bad_acks_change_nothing() {
    let mut t = Transfers::default();
    let (_, first) = t.begin_send(PeerID(2), 5, Arc::new(vec![1; 40 * 1024])).unwrap();
    assert_eq!(first.len(), 32);
    assert!(t.on_ack(PeerID(2), 5, 0).is_empty());
    assert!(t.on_ack(PeerID(2), 5, 33).is_empty());
    assert!(t.on_ack(PeerID(3), 5, 1).is_empty());
    assert!(t.on_ack(PeerID(2), 6, 1).is_empty());
    assert_eq!(t.on_ack(PeerID(2), 5, 32).len(), 8);
    assert!(t.on_ack(PeerID(2), 5, 8).is_empty());
    assert!(t.on_ack(PeerID(2), 5, 1).is_empty());
}

#[test]
fn totals_decide() {
    let mut t = Transfers::default();
    t.expect(PeerID(1), 3, Purpose::Savegame);
    assert!(t.on_response(PeerID(1), 3, 4).is_ok());
    assert!(matches!(t.on_chunk(PeerID(1), 3, &[]), Ok(None)));
    assert!(matches!(t.on_chunk(PeerID(1), 3, &[1, 2]), Ok(None)));
    assert!(matches!(t.on_chunk(PeerID(1), 3, &[]), Ok(None)));
    assert!(t.knows_incoming(PeerID(1), 3));
    assert_eq!(
        t.on_chunk(PeerID(1), 3, &[3, 4]),
        Ok(Some((Purpose::Savegame, vec![1, 2, 3, 4])))
    );
    assert!(!t.knows_incoming(PeerID(1), 3));
    assert_eq!(t.on_chunk(PeerID(1), 3, &[]), Err(PeerFault::WrongPhase));
    t.expect(PeerID(1), 3, Purpose::Savegame);
    assert!(t.on_response(PeerID(1), 3, 4).is_ok());
    assert!(matches!(t.on_chunk(PeerID(1), 3, &[1, 2, 3]), Ok(None)));
    assert_eq!(t.on_chunk(PeerID(1), 3, &[4, 5]), Err(PeerFault::TransferOverrun));
    assert!(!t.knows_incoming(PeerID(1), 3));
    assert_eq!(t.on_chunk(PeerID(1), 3, &[4]), Err(PeerFault::WrongPhase));
}

#[test]
fn a_transfer_keeps_to_its_length() {
    let mut t = Transfers::default();
    let id = t.allocate();
    t.expect(PeerID(1), id, Purpose::Savegame);
    assert_eq!(t.purpose(PeerID(1), id), Some(Purpose::Savegame));
    assert!(t.on_response(PeerID(1), id, 4).is_ok());
    assert!(matches!(
        t.on_chunk(PeerID(1), id, &[1, 2, 3, 4, 5]),
        Err(PeerFault::TransferOverrun)
    ));
    let other = t.allocate();
    assert_ne!(other, id);
    t.expect(PeerID(1), other, Purpose::Savegame);
    assert!(matches!(
        t.on_response(PeerID(1), other, 9_000_000),
        Err(PeerFault::TransferOverrun)
    ));
}

#[test]
fn grants_are_used_once() {
    let mut t = Transfers::default();
    t.grant(PeerID(1), Arc::new(vec![1, 2]));
    assert_eq!(t.take_grant(PeerID(1)).map(|d| d.to_vec()), Some(vec![1, 2]));
    assert!(t.take_grant(PeerID(1)).is_none());
}

#[test]
fn departures_leave_nothing() {
    let mut t = Transfers::default();
    let id = t.allocate();
    t.expect(PeerID(1), id, Purpose::JoinSnapshot { joiner: PeerID(9) });
    t.grant(PeerID(1), Arc::new(vec![1]));
    assert_eq!(t.forget(PeerID(1)), vec![PeerID(9)]);
    assert!(!t.knows_incoming(PeerID(1), id));
    assert!(t.take_grant(PeerID(1)).is_none());
}

#[test]
fn a_source_that_sits_idle_is_noticed() {
    let mut t = Transfers::default();
    let id = t.allocate();
    t.expect(PeerID(1), id, Purpose::JoinSnapshot { joiner: PeerID(9) });
    assert!(t.stalled(at(0), 5_000).is_empty());
    assert!(t.stalled(at(4), 5_000).is_empty());
    let stalls = t.stalled(at(6), 5_000);
    assert_eq!(stalls.len(), 1);
    assert_eq!(stalls[0].source, PeerID(1));
    assert_eq!(stalls[0].joiner, PeerID(9));
}

#[test]
fn players_are_not_shared() {
    let mut slots = Slots::default();
    slots.add(uuid("a"), "Ada".to_string(), false);
    slots.add(uuid("b"), "Bob".to_string(), false);
    slots.assign(1, &uuid("a"));
    slots.assign(1, &uuid("b"));
    assert_eq!(slots.slot_of(&uuid("a")), Some(-1));
    assert_eq!(slots.slot_of(&uuid("b")), Some(1));
    assert_eq!(slots.connected_player_names(), vec!["Bob".to_string()]);
    assert_eq!(slots.connected_players(), 1);
}

#[test]
fn readiness_is_reset_but_for_who_stays_ready() {
    let mut slots = Slots::default();
    slots.add(uuid("a"), "Ada".to_string(), false);
    slots.add(uuid("b"), "Bob".to_string(), false);
    slots.assign(1, &uuid("a"));
    slots.assign(2, &uuid("b"));
    slots.set_status(&uuid("a"), 1);
    assert!(!slots.all_ready());
    slots.set_status(&uuid("b"), 2);
    assert!(slots.all_ready());
    slots.reset_pregame();
    let status: Vec<u8> = slots.to_message().hosts.iter().map(|h| h.status).collect();
    assert_eq!(status, vec![0, 2]);
}

#[test]
fn a_returning_player_keeps_their_player() {
    let mut slots = Slots::default();
    slots.add(uuid("a"), "Ada".to_string(), false);
    slots.assign(3, &uuid("a"));
    slots.mark_disconnected(&uuid("a"));
    assert!(slots.has_disconnected_named("Ada"));
    assert_eq!(slots.disconnected_players(), 1);
    assert_eq!(slots.add(uuid("z"), "Ada".to_string(), true), Some(uuid("a")));
    assert_eq!(slots.slot_of(&uuid("z")), Some(3));
    assert_eq!(slots.slot_of(&uuid("a")), None);
}

#[test]
fn a_turn_waits_for_every_player() {
    let mut turns = TurnManager::default();
    assert_eq!(turns.ready_turn(), 3);
    turns.register(PeerID(1), 1, 3, 0, false, false);
    turns.register(PeerID(2), 2, 3, 0, false, false);
    assert!(turns.on_turn_sealed(PeerID(1), 4).is_ok());
    assert_eq!(turns.release(None), (3, 3));
    assert!(turns.on_turn_sealed(PeerID(2), 4).is_ok());
    assert_eq!(turns.release(None), (3, 4));
    assert!(matches!(
        turns.on_turn_sealed(PeerID(1), 4),
        Err(PeerFault::TurnSealOutOfSequence { got: 4, want: 5 })
    ));
    assert!(matches!(turns.on_turn_sealed(PeerID(9), 4), Err(PeerFault::NoSession)));
}

#[test]
fn hashes_are_compared_once_everyone_has_reported() {
    let mut turns = TurnManager::default();
    for peer in [1usize, 2, 3] {
        turns.register(PeerID(peer), peer as u16, 3, 0, false, false);
    }
    assert!(turns.on_state_hash(PeerID(1), 1, vec![1]).unwrap().is_empty());
    assert!(turns.on_state_hash(PeerID(2), 1, vec![1]).unwrap().is_empty());
    let found = turns.on_state_hash(PeerID(3), 1, vec![2]).unwrap();
    assert_eq!(found.len(), 1);
    assert_eq!(found[0].turn, 1);
    assert_eq!(found[0].mismatched, vec![PeerID(3)]);
    assert_eq!(found[0].reference, vec![1]);
    assert!(turns.is_out_of_sync(PeerID(3)));
    assert_eq!(turns.reference(1), Some(&vec![1]));
    assert!(matches!(
        turns.on_state_hash(PeerID(1), 4, vec![]),
        Err(PeerFault::StateHashOutOfSequence { got: 4, want: 2 })
    ));
}

#[test]
fn a_log_keeps_what_was_played() {
    let mut log = MatchLog::default();
    log.record_turn_length(4, 250);
    assert_eq!(log.turn_length(4), Some(250));
    assert_eq!(log.length_or(5, 200), 200);
    let c = |turn: u32| PlayerCommand { client: 1, player: 1, turn, data: vec![turn as u8] };
    log.record_command(c(7));
    log.record_command(c(6));
    assert_eq!(log.commands_for(6), vec![c(6)]);
    assert_eq!(log.last_command_turn(), Some(7));
}

#[test]
fn script_values_are_read() {
    // { "n": 5, "l": ["x"] }
    let bytes = [
        3, 2, 0, 0, 0, 1, 1, 0, 0, 0, b'n', 5, 5, 0, 0, 0, 1, 1, 0, 0, 0, b'l', 2, 1, 0, 0, 0, 1,
        0, 0, 0, 1, 1, 0, 0, 0, b'0', 4, 1, 1, 0, 0, 0, b'x',
    ];
    let value = script_value::decode(&bytes).unwrap();
    assert_eq!(value.get("n").unwrap().as_number(), Some(ScriptNumber::Int(5)));
    let list = value.get("l").unwrap();
    assert_eq!(list.array_len(), Some(1));
    assert_eq!(list.array_get(0).unwrap().as_str(), Some("x"));
    assert!(value.get("missing").is_none());
}

#[test]
fn script_values_that_are_wrong_are_refused() {
    assert_eq!(script_value::decode(&[]), Err(ScriptValueError::Truncated));
    assert_eq!(script_value::decode(&[5, 1, 0]), Err(ScriptValueError::Truncated));
    assert_eq!(script_value::decode(&[0x7f]), Err(ScriptValueError::UnknownTag(0x7f)));
    assert_eq!(script_value::decode(&[11, 0]), Err(ScriptValueError::Unsupported(11)));
    assert_eq!(script_value::decode(&[7, 9]), Err(ScriptValueError::BadBoolean(9)));
    assert_eq!(
        script_value::decode(&[8, 1, 0, 0, 0]),
        Err(ScriptValueError::BadBackref(1))
    );
    assert_eq!(script_value::decode(&[1, 1]), Err(ScriptValueError::TrailingBytes(1)));
    assert_eq!(script_value::decode(&[7, 1]), Ok(ScriptValue::Bool(true)));
    let mut deep: Vec<u8> = Vec::new();
    for _ in 0..70 {
        deep.extend_from_slice(&[3, 1, 0, 0, 0, 1, 1, 0, 0, 0, b'a']);
    }
    deep.push(1);
    assert_eq!(script_value::decode(&deep), Err(ScriptValueError::TooDeep));
}

#[test]
fn settings_tell_cheats_and_players() {
    let text = 
        b"{\"settings\":{\"CheatsEnabled\":true,\"PlayerData\":[{},{}],\"VictoryConditions\":[\"conquest\"]}}";
    assert!(settings::cheats_enabled(text));
    assert!(!settings::cheats_enabled(b"{\"settings\":{\"CheatsEnabled\":false}}"));
    let (players, endless) = settings::match_players(text);
    assert_eq!(players, vec![1, 2]);
    assert!(!endless);
    assert_eq!(settings::match_players(b"not json"), (Vec::new(), true));
    assert_eq!(settings::match_players(b"{\"settings\":{\"PlayerData\":[{}]}}"), (vec![1], true));
}

#[test]
fn values_fill_their_packet() {
    let value = [3, 1, 0, 0, 0, 1, 1, 0, 0, 0, b'a', 5, 7, 0, 0, 0];
    assert!(script_value::decode(&value).is_ok());
    for q in 0..value.len() {
        assert_eq!(
            script_value::decode(&value[..q]),
            Err(ScriptValueError::Truncated),
            "{q}"
        );
    }
    let mut longer = value.to_vec();
    for extra in 1..4 {
        longer.push(9);
        assert_eq!(
            script_value::decode(&longer),
            Err(ScriptValueError::TrailingBytes(extra))
        );
    }
}

#[test]
fn ai_slots_are_split_off() {
    let text =
        b"{\"settings\":{\"PlayerData\":[{\"AI\":false},{\"AI\":\"petra\",\"AIDiff\":3}]}}";
    let split = settings::split_ai_settings(text).unwrap();
    assert_eq!(split.players, vec![2]);
    assert_eq!(
        String::from_utf8(split.stock).unwrap(),
        "{\"settings\":{\"ExploreMap\":true,\"PlayerData\":[{\"AI\":false},{}]}}"
    );
    assert_eq!(
        String::from_utf8(split.ai_host).unwrap(),
        "{\"settings\":{\"ExploreMap\":true,\"PlayerData\":[{\"AI\":false},{\"AI\":\"petra\",\"AIDiff\":3}]}}"
    );
    assert!(settings::split_ai_settings(b"{\"settings\":{\"PlayerData\":[{}]}}").is_none());
    assert!(settings::split_ai_settings(b"nonsense").is_none());
}

#[test]
fn splitting_changes_only_the_ai() {
    let text = b"{\"map\":\"m\",\"settings\":{\"Seed\":7,\"ExploreMap\":false,\"PlayerData\":[{\"AI\":\"petra\",\"AIBehavior\":\"random\",\"Civ\":\"gaul\"}]}}";
    let attribs: serde_json::Value = serde_json::from_slice(text).unwrap();
    let (stock, ai_host, players) = settings::split_values(&attribs).unwrap();
    assert_eq!(players, vec![1]);
    for split in [&stock, &ai_host] {
        assert_eq!(split["map"], attribs["map"]);
        assert_eq!(split["settings"]["Seed"], attribs["settings"]["Seed"]);
        assert_eq!(split["settings"]["ExploreMap"], serde_json::Value::Bool(true));
    }
    assert_eq!(ai_host["settings"]["PlayerData"], attribs["settings"]["PlayerData"]);
    let slot = stock["settings"]["PlayerData"][0].as_object().unwrap();
    assert_eq!(slot.len(), 1);
    assert_eq!(slot["Civ"], attribs["settings"]["PlayerData"][0]["Civ"]);
}

#[test]
fn every_reason_has_its_own_number() {
    let all = [
        DisconnectReason::ServerShuttingDown,
        DisconnectReason::GameVersionMismatch,
        DisconnectReason::ServerLoading,
        DisconnectReason::MatchInProgress,
        DisconnectReason::Kicked,
        DisconnectReason::Banned,
        DisconnectReason::NameInUse,
        DisconnectReason::ServerFull,
        DisconnectReason::LobbyAuthFailed,
        DisconnectReason::NoUuid,
        DisconnectReason::OutOfSequenceTurnSeal,
        DisconnectReason::OutOfSequenceStateHash,
        DisconnectReason::Refused,
        DisconnectReason::SimulationOrModMismatch,
    ];
    for (i, a) in all.iter().enumerate() {
        for b in all.iter().skip(i + 1) {
            assert_ne!(a.code(), b.code());
        }
    }
}

fn in_name(name: Option<&str>, addr: Ipv4Addr) -> Table<PeerID, Session> {
    let mut sessions = Table::new();
    let mut session = Session::new(addr);
    session.lobby_name = name.map(|n| n.to_string());
    sessions.put(PeerID(1), session);
    sessions
}

fn guessing() -> Config {
    let mut config = Config::default();
    config.auth_fail_burst = 2;
    config.auth_fail_burst_per_addr = 2;
    config.auth_fail_interval = Some(60_000);
    config.join_burst = 1;
    config.join_interval = Some(60_000);
    config
}

fn asking() -> Input {
    Input::Received {
        peer: PeerID(1),
        msg: WireMessage::Authenticate(Authenticate {
            name: "Ada".to_string(),
            password: String::new(),
            controller_secret: String::new(),
        }),
    }
}

#[test]
fn guessing_passwords_is_cut_off() {
    let mut gate = Gate::new(&guessing());
    let sessions = in_name(None, AWAY);
    let rejected = vec![Effect::PasswordRejected { peer: PeerID(1) }];
    let now = Some(at(10));
    assert_eq!(gate.check(Phase::Setup, &asking(), &sessions, now), Decision::Pass);
    gate.observe(&rejected, &sessions, now);
    gate.observe(&rejected, &sessions, now);
    assert_eq!(
        gate.check(Phase::Setup, &asking(), &sessions, now),
        Decision::Refuse { reason: DisconnectReason::Banned, cause: "password failures" }
    );
    assert_eq!(gate.check(Phase::Setup, &asking(), &sessions, Some(at(71))), Decision::Pass);
}

#[test]
fn an_account_is_held_to_its_guesses_wherever_it_comes_from() {
    let mut gate = Gate::new(&guessing());
    let rejected = vec![Effect::PasswordRejected { peer: PeerID(1) }];
    let now = Some(at(10));
    gate.observe(&rejected, &in_name(Some("ada"), AWAY), now);
    gate.observe(&rejected, &in_name(Some("ada"), HOME), now);
    let elsewhere = in_name(Some("ada"), Ipv4Addr(0x0b00_0001));
    assert!(matches!(
        gate.check(Phase::Setup, &asking(), &elsewhere, now),
        Decision::Refuse { .. }
    ));
}

#[test]
fn this_machine_may_guess() {
    let mut gate = Gate::new(&guessing());
    let sessions = in_name(None, HOME);
    let rejected = vec![Effect::PasswordRejected { peer: PeerID(1) }];
    for _ in 0..5 {
        gate.observe(&rejected, &sessions, Some(at(10)));
    }
    assert_eq!(gate.check(Phase::Setup, &asking(), &sessions, Some(at(10))), Decision::Pass);
}

#[test]
fn joins_are_only_limited_in_a_match() {
    let mut gate = Gate::new(&guessing());
    let sessions = in_name(None, AWAY);
    let joined = vec![Effect::Send {
        peer: PeerID(1),
        msg: WireMessage::AuthenticateResult(AuthenticateResult {
            code: AuthenticateResultCode::OkRejoining,
            host_id: 1,
            is_controller: false,
            message: String::new(),
        }),
    }];
    let now = Some(at(10));
    assert_eq!(gate.check(Phase::InGame, &asking(), &sessions, now), Decision::Pass);
    gate.observe(&joined, &sessions, now);
    assert_eq!(
        gate.check(Phase::InGame, &asking(), &sessions, now),
        Decision::Refuse { reason: DisconnectReason::Refused, cause: "join rate" }
    );
    assert_eq!(gate.check(Phase::Setup, &asking(), &sessions, now), Decision::Pass);
}

#[test]
fn inbound_bytes_have_a_budget() {
    let receive = |n: usize| HostEvent::Receive { peer: PeerID(1), data: vec![0; n] };
    match enet_task::take_in(receive(10), Some(AWAY), 0) {
        Taken::Forward(InboundNetworkMessage::Message { peer, data, credit }) => {
            assert_eq!(peer, PeerID(1));
            assert_eq!(data.len(), 10);
            assert_eq!(credit.bytes, 10);
        }
        other => panic!("{:?}", other),
    }
    assert!(matches!(
        enet_task::take_in(receive(10), Some(AWAY), 262_144),
        Taken::Dropped | Taken::Refused { .. }
    ));
    match enet_task::take_in(HostEvent::Connect { peer: PeerID(1) }, Some(AWAY), 0) {
        Taken::Forward(InboundNetworkMessage::Connect { addr, .. }) => assert_eq!(addr, AWAY),
        other => panic!("{:?}", other),
    }
}

#[test]
fn credit_is_given_back() {
    let mut outstanding = 5;
    let credit = InboundCredit::new(&mut outstanding, 10);
    assert_eq!(outstanding, 15);
    credit.release(&mut outstanding);
    assert_eq!(outstanding, 5);
    let first = InboundCredit::new(&mut outstanding, usize::MAX);
    assert_eq!(outstanding, 4);
    let second = InboundCredit::new(&mut outstanding, 3);
    first.release(&mut outstanding);
    assert_eq!(outstanding, 8);
    second.release(&mut outstanding);
    assert_eq!(outstanding, 5);
}

#[test]
fn outbound_messages_become_steps() {
    let steps = enet_task::host_steps(OutboundNetworkMessage::Message {
        peer: PeerID(1),
        data: vec![1, 2],
    });
    assert!(matches!(&steps[0], HostStep::Send { peer: PeerID(1), data } if data == &[1, 2]));
    let steps = enet_task::host_steps(OutboundNetworkMessage::DisconnectNow {
        peer: PeerID(1),
        reason: 4,
    });
    assert!(steps
        .iter()
        .any(|s| matches!(s, HostStep::DisconnectNow { peer: PeerID(1), reason: 4 })));
}

#[test]
fn slow_peers_are_dropped_in_the_end() {
    let mut slow = SlowPeers::new();
    let over = vec![(PeerID(1), 2_000_000), (PeerID(2), 10)];
    for _ in 0..29 {
        assert!(slow.pass(&over).is_empty());
    }
    assert_eq!(slow.pass(&over), vec![PeerID(1)]);
    // A burst that drains in time is forgiven.
    let mut slow = SlowPeers::new();
    for _ in 0..20 {
        slow.pass(&over);
    }
    slow.pass(&vec![(PeerID(1), 0)]);
    for _ in 0..29 {
        assert!(slow.pass(&over).is_empty());
    }
}

#[test]
fn meters_follow_the_totals() {
    let mut meters = Meters::new();
    meters.read(PeerID(1), 100, 0, 0);
    assert_eq!(meters.last_heard(PeerID(1), 900), 100);
    assert_eq!(meters.last_heard(PeerID(2), 900), 900);
    meters.load(PeerID(1), 150, 70);
    meters.load(PeerID(1), 150, 30);
    assert_eq!(meters.queued(PeerID(1)), 100);
    assert_eq!(meters.queued(PeerID(2)), 0);
    meters.read(PeerID(1), 200, 0, 60);
    assert_eq!(meters.queued(PeerID(1)), 40);
    assert_eq!(meters.last_heard(PeerID(1), 900), 100);
    meters.read(PeerID(1), 300, 5, 60);
    assert_eq!(meters.last_heard(PeerID(1), 900), 300);
    // The totals start over.
    meters.read(PeerID(1), 400, 2, 10);
    assert_eq!(meters.queued(PeerID(1)), 30);
    assert_eq!(meters.last_heard(PeerID(1), 900), 400);
    meters.read(PeerID(1), 500, 2, 1000);
    assert_eq!(meters.queued(PeerID(1)), 0);
    assert_eq!((meters.received, meters.sent), (7, 1060));
    meters.forget(PeerID(1));
    assert_eq!(meters.last_heard(PeerID(1), 900), 900);
}

#[test]
fn turns_are_released_to_the_last() {
    let mut turns = TurnManager::default();
    turns.ready = LAST_TURN - 1;
    turns.register(PeerID(1), 1, LAST_TURN + 3, LAST_TURN - 1, false, false);
    assert_eq!(turns.release(None), (LAST_TURN - 1, LAST_TURN));
    assert!(turns.on_turn_sealed(PeerID(1), LAST_TURN + 4).is_ok());
    assert_eq!(turns.release(None), (LAST_TURN, LAST_TURN));
    assert_eq!(
        turns.on_turn_sealed(PeerID(1), u32::MAX),
        Err(PeerFault::TurnSealAhead { got: u32::MAX, ready: LAST_TURN })
    );
}

#[test]
fn statistics_are_in_milliseconds() {
    assert!(enet_task::stats_due(at(1), at(2)));
    assert!(!enet_task::stats_due(at(1), Time { secs: 1, nanos: 5 }));
    let stats = enet_task::peer_stats(PeerID(3), 40, 1000, 400);
    assert_eq!(stats.peer, PeerID(3));
    assert_eq!(stats.mean_rtt, 40);
    assert_eq!(stats.since_last_received, 600);
}

#[test]
fn being_away_costs_what_pausing_costs() {
    let uuid = Guid("u".to_string());
    let mut pausing = PauseBudget::new(60_000, 0);
    pausing.check(at(0), 1, &Vec::new());
    pausing.set_pausing(&uuid, true);
    pausing.check(at(10), 1, &Vec::new());
    let mut away = PauseBudget::new(60_000, 0);
    away.check(at(0), 1, &Vec::new());
    away.check(at(10), 1, &vec![uuid.clone()]);
    assert_eq!(pausing.remaining(&uuid), 50_000_000_000);
    assert_eq!(away.remaining(&uuid), 50_000_000_000);
}
