use veredus::relay::fault::ParseError;
use veredus::relay::messages::Ack;
use veredus::relay::messages::Chat;
use veredus::relay::messages::Flare;
use veredus::relay::messages::GamestateChunk;
use veredus::relay::messages::GamestateChunkAck;
use veredus::relay::messages::GamestateRequest;
use veredus::relay::messages::GamestateResponse;
use veredus::relay::messages::Guid;
use veredus::relay::messages::Host;
use veredus::relay::messages::Kicked;
use veredus::relay::messages::LoadedGame;
use veredus::relay::messages::MapPlayerIdToSlot;
use veredus::relay::messages::PerformanceEntry;
use veredus::relay::messages::player_command;
use veredus::relay::messages::PlayerCommand;
use veredus::relay::messages::PlayerPause;
use veredus::relay::messages::PlayerSlots;
use veredus::relay::messages::StartSettings;
use veredus::relay::messages::StateHash;
use veredus::relay::messages::TurnSealed;
use veredus::relay::messages::WireMessage;
use veredus::relay::messages::WrongHashPlayers;
use veredus::relay::messages::ALL_NAMES;

fn make_host(guid: &str, name: &str, player_id: i8, status: u8) -> Host {
    Host {
        guid: Guid(guid.to_string()),
        name: name.to_string(),
        player_id,
        status,
    }
}

#[test]
fn roundtrip_server_handshake_response() {
    let msg = Ack {
        use_protocol_version: 1,
        flags: 0,
        guid: Guid("abc123".to_string()),
    };
    let bytes = msg.to_bytes();
    let decoded = Ack::from_bytes(&bytes).unwrap();
    assert_eq!(decoded, msg);
}

#[test]
fn roundtrip_chat_with_receivers() {
    let msg = Chat {
        sender_guid: Guid("sender1".to_string()),
        message: "Hello".to_string(),
        receivers: vec![Guid("recv1".to_string()), Guid("recv2".to_string())],
    };
    let bytes = msg.to_bytes();
    let decoded = Chat::from_bytes(&bytes).unwrap();
    assert_eq!(decoded, msg);
}

#[test]
fn roundtrip_chat_no_receivers() {
    let msg = Chat {
        sender_guid: Guid("sender1".to_string()),
        message: "Hello".to_string(),
        receivers: vec![],
    };
    let bytes = msg.to_bytes();
    let decoded = Chat::from_bytes(&bytes).unwrap();
    assert_eq!(decoded, msg);
}

#[test]
fn roundtrip_flare() {
    let msg = Flare {
        guid: Guid("abc123".to_string()),
        position_x: "1.5".to_string(),
        position_y: "2.5".to_string(),
        position_z: "3.5".to_string(),
    };
    let bytes = msg.to_bytes();
    let decoded = Flare::from_bytes(&bytes).unwrap();
    assert_eq!(decoded, msg);
}

#[test]
fn roundtrip_file_transfer_data() {
    let msg = GamestateChunk {
        request_id: 5,
        data: vec![10, 20, 30],
    };
    let bytes = msg.to_bytes();
    let decoded = GamestateChunk::from_bytes(&bytes).unwrap();
    assert_eq!(decoded, msg);
}

#[test]
fn roundtrip_file_transfer_ack() {
    let msg = GamestateChunkAck {
        request_id: 7,
        num_packets: 3,
    };
    let bytes = msg.to_bytes();
    let decoded = GamestateChunkAck::from_bytes(&bytes).unwrap();
    assert_eq!(decoded, msg);
}

#[test]
fn roundtrip_file_transfer_request() {
    let msg = GamestateRequest {
        request_type: -1,
        request_id: 42,
    };
    let bytes = msg.to_bytes();
    let decoded = GamestateRequest::from_bytes(&bytes).unwrap();
    assert_eq!(decoded, msg);
}

#[test]
fn roundtrip_file_transfer_response() {
    let msg = GamestateResponse {
        request_id: 7,
        length: 1024,
    };
    let bytes = msg.to_bytes();
    let decoded = GamestateResponse::from_bytes(&bytes).unwrap();
    assert_eq!(decoded, msg);
}

#[test]
fn roundtrip_host() {
    let host = make_host("abc123", "TestPlayer", 1, 2);
    let bytes = host.to_bytes();
    let (decoded, bytes_consumed) = Host::from_bytes(&bytes).unwrap();

    assert_eq!(decoded, host);
    assert_eq!(bytes_consumed, bytes.len());
}

#[test]
fn roundtrip_host_empty_name() {
    let host = make_host("abc123", "", 1, 2);
    let bytes = host.to_bytes();
    let (decoded, bytes_consumed) = Host::from_bytes(&bytes).unwrap();

    assert_eq!(decoded, host);
    assert_eq!(bytes_consumed, bytes.len());
}

#[test]
fn roundtrip_host_negative_player_id() {
    let host = make_host("abc123", "TestPlayer", -1, 0);
    let bytes = host.to_bytes();
    let (decoded, bytes_consumed) = Host::from_bytes(&bytes).unwrap();

    assert_eq!(decoded, host);
    assert_eq!(bytes_consumed, bytes.len());
}

#[test]
fn roundtrip_loaded_game() {
    let msg = LoadedGame { current_turn: 42 };
    let bytes = msg.to_bytes();
    let decoded = LoadedGame::from_bytes(&bytes).unwrap();
    assert_eq!(decoded, msg);
}

#[test]
fn roundtrip_assign_player() {
    let msg = MapPlayerIdToSlot {
        player_id: 2,
        guid: Guid("abc123".to_string()),
    };
    let bytes = msg.to_bytes();
    let decoded = MapPlayerIdToSlot::from_bytes(&bytes).unwrap();
    assert_eq!(decoded, msg);
}

#[test]
fn roundtrip_performance_entry() {
    let msg = PerformanceEntry {
        guid: Guid("abc123".to_string()),
        mean_rtt: 50,
    };
    let bytes = msg.to_bytes();
    let (decoded, pos) = PerformanceEntry::from_bytes(&bytes, 0).unwrap();
    assert_eq!(decoded, msg);
    assert_eq!(pos, bytes.len());
}

#[test]
fn roundtrip_simulation() {
    let msg = PlayerCommand {
        client: 1,
        player: -1,
        turn: 42,
        data: vec![0x03, 0x01],
    };
    let bytes = msg.to_bytes();
    let decoded = PlayerCommand::from_bytes(&bytes).unwrap();
    assert_eq!(decoded, msg);
}

#[test]
fn roundtrip_client_paused() {
    let msg = PlayerPause {
        guid: Guid("abc123".to_string()),
        pause: true,
    };
    let bytes = msg.to_bytes();
    let decoded = PlayerPause::from_bytes(&bytes).unwrap();
    assert_eq!(decoded, msg);
}

#[test]
fn roundtrip_game_start() {
    let msg = StartSettings {
        init_attributes: vec![0xDE, 0xAD],
    };
    let bytes = msg.to_bytes();
    let decoded = StartSettings::from_bytes(&bytes).unwrap();
    assert_eq!(decoded, msg);
}

#[test]
fn roundtrip_sync_check() {
    let msg = StateHash {
        turn: 10,
        hash: vec![0xAA, 0xBB, 0xCC],
    };
    let bytes = msg.to_bytes();
    let decoded = StateHash::from_bytes(&bytes).unwrap();
    assert_eq!(decoded, msg);
}

#[test]
fn roundtrip_sync_error() {
    let msg = WrongHashPlayers {
        turn: 10,
        hash_expected: vec![0xAA],
        player_names: vec!["Alice".to_string(), "Bob".to_string()],
    };
    let bytes = msg.to_bytes();
    let decoded = WrongHashPlayers::from_bytes(&bytes).unwrap();
    assert_eq!(decoded, msg);
}

#[test]
fn roundtrip_sync_error_empty_names() {
    let msg = WrongHashPlayers {
        turn: 10,
        hash_expected: vec![0xAA],
        player_names: vec![],
    };
    let bytes = msg.to_bytes();
    let decoded = WrongHashPlayers::from_bytes(&bytes).unwrap();
    assert_eq!(decoded, msg);
}

#[test]
fn a_packet_is_type_size_and_body() {
    let msg = WireMessage::TurnSealed(TurnSealed {
        turn: 0x0102_0304,
        turn_length: 200,
    });
    let bytes = msg.to_bytes();
    assert_eq!(bytes[0], 26);
    assert_eq!(&bytes[1..3], &[0, 9]);
    assert_eq!(&bytes[3..], &[1, 2, 3, 4, 0, 200]);
    assert_eq!(WireMessage::from_bytes(&bytes), Ok(msg));
}

#[test]
fn an_empty_body_is_three_bytes_long() {
    let bytes = WireMessage::ResetPregameStatus.to_bytes();
    assert_eq!(bytes, vec![8, 0, 3]);
    assert_eq!(WireMessage::from_bytes(&bytes), Ok(WireMessage::ResetPregameStatus));
}

#[test]
fn a_chat_line_reads_back_from_its_packet() {
    let msg = WireMessage::Chat(Chat {
        sender_guid: Guid("me".to_string()),
        message: "gl hf \u{1F389}".to_string(),
        receivers: vec![Guid("you".to_string())],
    });
    assert_eq!(WireMessage::from_bytes(&msg.to_bytes()), Ok(msg));
}

#[test]
fn names_go_by_number() {
    let msg = WireMessage::Kicked(Kicked {
        name: "troll".to_string(),
        ban: true,
    });
    assert_eq!(msg.id(), 18);
    assert_eq!(msg.name(), "Kicked");
    assert_eq!(ALL_NAMES[msg.id() as usize - 1], msg.name());
    assert_eq!(ALL_NAMES.len(), 33);
}

#[test]
fn short_packets_are_truncated() {
    assert!(matches!(
        WireMessage::from_bytes(&[]),
        Err(ParseError::Truncated { .. })
    ));
    assert!(matches!(
        WireMessage::from_bytes(&[26, 0]),
        Err(ParseError::Truncated { .. })
    ));
    let whole = WireMessage::TurnSealed(TurnSealed { turn: 7, turn_length: 200 }).to_bytes();
    let mut cut = whole[..whole.len() - 1].to_vec();
    cut[2] -= 1;
    assert!(matches!(
        WireMessage::from_bytes(&cut),
        Err(ParseError::Truncated { .. })
    ));
}

#[test]
fn a_wrong_size_is_noticed() {
    assert_eq!(
        WireMessage::from_bytes(&[8, 0, 4]),
        Err(ParseError::SizeMismatch { declared: 4, actual: 3 })
    );
}

#[test]
fn unknown_types_are_refused() {
    assert_eq!(WireMessage::from_bytes(&[0, 0, 3]), Err(ParseError::UnknownType(0)));
    assert_eq!(WireMessage::from_bytes(&[31, 0, 3]), Err(ParseError::UnknownType(31)));
}

#[test]
fn text_that_is_not_utf8_is_refused() {
    let good = MapPlayerIdToSlot {
        player_id: 1,
        guid: Guid("ab".to_string()),
    };
    let mut bytes = good.to_bytes();
    let last = bytes.len() - 1;
    bytes[last] = 0xff;
    assert!(matches!(
        MapPlayerIdToSlot::from_bytes(&bytes),
        Err(ParseError::BadUtf8 { .. })
    ));
}

#[test]
fn bytes_behind_the_last_field_are_ignored() {
    let mut bytes = LoadedGame { current_turn: 42 }.to_bytes();
    bytes.push(9);
    assert_eq!(LoadedGame::from_bytes(&bytes), Ok(LoadedGame { current_turn: 42 }));
}

#[test]
fn identities_are_told_apart() {
    let a = Guid::new();
    let b = Guid::new();
    assert_ne!(a, b);
    assert_eq!(a.to_string().len(), 36);
    assert!(a.same(&a));
    assert!(!a.same(&b));
}

#[test]
fn tails_speak_for_themselves() {
    let rows = PlayerSlots {
        hosts: vec![make_host("a", "Ada", 1, 0), make_host("b", "Bob", 2, 1)],
    };
    let bytes = rows.to_bytes();
    assert_eq!(PlayerSlots::from_bytes(&bytes), Ok(rows.clone()));
    let tails: [&[u8]; 5] = [
        &[0],
        &[0, 0, 0, 1],
        &[0, 0, 0, 1, 0xff],
        &[0, 0, 0, 1, b'c', 0],
        &[0, 0, 0, 1, b'c', 0, b'd', 0, 0, 3],
    ];
    for tail in tails {
        let mut both = bytes.clone();
        both.extend_from_slice(tail);
        let alone = PlayerSlots::from_bytes(tail);
        assert!(alone.is_err());
        assert_eq!(PlayerSlots::from_bytes(&both), alone);
    }
    let mut doubled = bytes.clone();
    doubled.extend_from_slice(&bytes);
    assert_eq!(PlayerSlots::from_bytes(&doubled).unwrap().hosts.len(), 4);
}

#[test]
fn values_are_their_bytes() {
    let value = [3, 1, 0, 0, 0, 1, 1, 0, 0, 0, b'a', 5, 7, 0, 0, 0];
    assert_eq!(player_command::skip_script_val(&value, 0, 0), Some(16));
    assert_eq!(player_command::skip_script_val(&value, 11, 64), Some(16));
    assert_eq!(player_command::skip_script_val(&value, 11, 65), None);
    for q in 0..value.len() {
        assert_eq!(player_command::skip_script_val(&value[..q], 0, 0), None, "{q}");
    }
    let mut longer = value.to_vec();
    longer.extend_from_slice(&[0xff, 0xff]);
    assert_eq!(player_command::skip_script_val(&longer, 0, 0), Some(16));
    assert_eq!(player_command::skip_script_val(&longer, 16, 0), None);
}

#[test]
fn reading_past_the_end_finds_nothing() {
    let value = [1, 1, 0, 0, 0, b'a'];
    assert_eq!(player_command::skip_script_val(&value, 6, 0), None);
    assert_eq!(player_command::skip_script_val(&value, 9, 0), None);
    assert_eq!(player_command::skip_script_val(&value, usize::MAX, 0), None);
    let mut pos: usize = 9;
    assert_eq!(player_command::read_script_string(&value, &mut pos), None);
    assert_eq!(player_command::read_u32(&value, &mut pos), None);
    assert_eq!(pos, 9);
    let mut pos: usize = 0;
    assert_eq!(
        player_command::read_script_string(&value, &mut pos),
        Some(("a".to_string(), 6))
    );
    assert_eq!(pos, 6);
    assert!(matches!(
        PerformanceEntry::from_bytes(&value, 7),
        Err(ParseError::Truncated { .. })
    ));
    assert!(matches!(
        PerformanceEntry::from_bytes(&value, usize::MAX),
        Err(ParseError::Truncated { .. })
    ));
}
