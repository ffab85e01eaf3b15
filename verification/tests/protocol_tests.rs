use session_server::protocol::{ClientMessage, Endpoint, Request, ServerMessage};

#[test]
fn login_encodes_with_separator() {
    let bytes = ClientMessage::Login(3, "Ari".to_string(), "Mage".to_string()).toRaw();
    assert_eq!(bytes, vec![1u8, 3, b'A', b'r', b'i', 0, b'M', b'a', b'g', b'e']);
}

#[test]
fn login_round_trip_recovers_fields() {
    let bytes = ClientMessage::Login(3, "Ari".to_string(), "Mage".to_string()).toRaw();
    let msg = ServerMessage::fromRaw(&bytes);
    match msg {
        ServerMessage::Register(s) => {
            let raw = s.as_bytes();
            assert_eq!(raw[0], 3);
            let sep = raw.iter().position(|b| *b == 0).unwrap();
            assert_eq!(&raw[1..sep], b"Ari");
            assert_eq!(&raw[sep + 1..], b"Mage");
            assert_eq!(s, "\u{3}Ari\u{0}Mage");
        },
        _ => panic!("expected Register"),
    }
}

#[test]
fn disconnected_encodes_two_bytes() {
    assert_eq!(ClientMessage::Disconnected(5).toRaw(), vec![2u8, 5]);
}

#[test]
fn chat_encodes_text() {
    assert_eq!(
        ClientMessage::Chat("hi".to_string()).toRaw(),
        vec![3u8, b'h', b'i']
    );
}

#[test]
fn set_position_encodes_little_endian() {
    assert_eq!(
        ClientMessage::SetPosition(258, 1).toRaw(),
        vec![4u8, 2, 1, 1, 0]
    );
}

#[test]
fn get_info_encodes_port_rate_count_checkpoint() {
    let bytes = ClientMessage::GetInfo(2018, 30, "cp".to_string(), 4).toRaw();
    assert_eq!(bytes, vec![5u8, 0xe2, 0x07, 30, 4, b'c', b'p']);
}

#[test]
fn decode_register() {
    match ServerMessage::fromRaw(&[1, b'A']) {
        ServerMessage::Register(s) => assert_eq!(s, "A"),
        _ => panic!("expected Register"),
    }
}

#[test]
fn decode_chat() {
    match ServerMessage::fromRaw(&[2, b'h', b'i']) {
        ServerMessage::Chat(s, _) => assert_eq!(s, "hi"),
        _ => panic!("expected Chat"),
    }
}

#[test]
fn decode_save_game() {
    match ServerMessage::fromRaw(&[3, b'c']) {
        ServerMessage::SaveGame(s) => assert_eq!(s, "c"),
        _ => panic!("expected SaveGame"),
    }
}

#[test]
fn decode_unknown_opcode_is_invalid() {
    assert!(matches!(ServerMessage::fromRaw(&[9]), ServerMessage::Invalid(_)));
    assert!(matches!(ServerMessage::fromRaw(&[0, 1, 2]), ServerMessage::Invalid(_)));
    assert!(matches!(ServerMessage::fromRaw(&[255]), ServerMessage::Invalid(_)));
}

#[test]
fn decode_is_total_on_arbitrary_bytes() {
    for first in 0u8..=255 {
        let _ = ServerMessage::fromRaw(&[first]);
        let _ = ServerMessage::fromRaw(&[first, 0xff, 0xfe, 0x80]);
    }
}

#[test]
fn decode_truncated_payload_is_empty_text() {
    match ServerMessage::fromRaw(&[2]) {
        ServerMessage::Chat(s, _) => assert_eq!(s, ""),
        _ => panic!("expected Chat"),
    }
}

#[test]
fn decode_invalid_utf8_replaces_characters() {
    match ServerMessage::fromRaw(&[2, 0xff, b'a']) {
        ServerMessage::Chat(s, _) => assert_eq!(s, "\u{fffd}a"),
        _ => panic!("expected Chat"),
    }
}

#[test]
fn legacy_request_codes() {
    assert!(Request::isValid(0));
    assert!(Request::isValid(4));
    assert!(!Request::isValid(5));
    assert!(!Request::isValid(254));
    assert!(Request::isValid(255));
}

#[test]
fn endpoint_none_is_zero() {
    let e = Endpoint::none();
    assert_eq!(e.ip, 0);
    assert_eq!(e.port, 0);
}
