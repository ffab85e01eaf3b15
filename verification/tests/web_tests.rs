use session_server::protocol::{Endpoint, ServerMessage};
use session_server::web::{parsePost, FieldValue, WebRequest, WebResponse};

fn sink() -> Endpoint {
    Endpoint { ip: 9, port: 80 }
}

#[test]
fn request_get_takes_second_token() {
    let raw = "GET /index.html HTTP/1.1\r\nHost: x\r\n\r\n".to_string();
    match WebRequest::build(raw) {
        WebRequest::Get(p) => assert_eq!(p, "/index.html"),
        _ => panic!("expected Get"),
    }
}

#[test]
fn request_post_takes_body_after_blank_line() {
    let raw = "POST /x HTTP/1.1\r\nH: y\r\n\r\n{\"a\":1}".to_string();
    match WebRequest::build(raw) {
        WebRequest::Post(b) => assert_eq!(b, "{\"a\":1}"),
        _ => panic!("expected Post"),
    }
}

#[test]
fn request_without_blank_line_is_invalid() {
    assert!(matches!(
        WebRequest::build("GET /x HTTP/1.1\r\nHost: y".to_string()),
        WebRequest::Invalid
    ));
}

#[test]
fn request_get_without_path_is_invalid() {
    assert!(matches!(WebRequest::build("GET\r\n\r\n".to_string()), WebRequest::Invalid));
}

#[test]
fn request_unknown_method_is_invalid() {
    assert!(matches!(
        WebRequest::build("PATCH /x HTTP/1.1\r\n\r\n".to_string()),
        WebRequest::Invalid
    ));
}

#[test]
fn response_text_bytes() {
    let bytes = WebResponse::Text("hi".to_string(), "text/json".to_string()).build();
    let expected = b"HTTP/1.1 200 OK\r\nContent-Type: text/json; charset=UTF-8\r\nContent-Length: 2\r\n\r\nhi";
    assert_eq!(bytes, expected.to_vec());
}

#[test]
fn response_length_counts_bytes_not_characters() {
    let bytes = WebResponse::Text("\u{e9}".to_string(), "text/plain".to_string()).build();
    let text = String::from_utf8(bytes).unwrap();
    assert!(text.contains("Content-Length: 2\r\n"));
}

#[test]
fn response_raw_appends_payload() {
    let bytes = WebResponse::Raw(vec![1, 2], "image/png".to_string()).build();
    let mut expected =
        b"HTTP/1.1 200 OK\r\nContent-Type: image/png\r\nContent-Length: 2\r\n\r\n".to_vec();
    expected.extend_from_slice(&[1, 2]);
    assert_eq!(bytes, expected);
}

#[test]
fn response_redirect_and_miss() {
    assert_eq!(
        WebResponse::MovedPermanently("/index.html".to_string()).build(),
        b"HTTP/1.1 301 Moved Permanently\r\nLocation: /index.html".to_vec()
    );
    assert_eq!(WebResponse::NotFound.build(), b"HTTP/1.1 404 Not Found".to_vec());
}

#[test]
fn post_players_and_simple_queries() {
    assert!(matches!(
        parsePost(sink(), "players".to_string(), Some(vec![])),
        ServerMessage::PlayersList(_)
    ));
    assert!(matches!(
        parsePost(sink(), "state".to_string(), Some(vec![])),
        ServerMessage::GameState(_)
    ));
    assert!(matches!(
        parsePost(sink(), "chatLength".to_string(), Some(vec![])),
        ServerMessage::ChatLength(_)
    ));
    assert!(matches!(
        parsePost(sink(), "getSettings".to_string(), Some(vec![])),
        ServerMessage::GetSettings(_)
    ));
}

#[test]
fn post_chat_takes_msg_field() {
    let fields = vec![("msg".to_string(), FieldValue::Text("hi".to_string()))];
    match parsePost(sink(), "chat".to_string(), Some(fields)) {
        ServerMessage::Chat(t, w) => {
            assert_eq!(t, "hi");
            assert_eq!(w, sink());
        },
        _ => panic!("expected Chat"),
    }
    assert!(matches!(
        parsePost(sink(), "chat".to_string(), Some(vec![])),
        ServerMessage::Invalid(_)
    ));
}

#[test]
fn post_get_chat_takes_length_field() {
    let fields = vec![("messagesLength".to_string(), FieldValue::Num(5))];
    match parsePost(sink(), "getChat".to_string(), Some(fields)) {
        ServerMessage::ChatHistory(n, _) => assert_eq!(n, 5),
        _ => panic!("expected ChatHistory"),
    }
    let fields = vec![("messagesLength".to_string(), FieldValue::Text("x".to_string()))];
    match parsePost(sink(), "getChat".to_string(), Some(fields)) {
        ServerMessage::ChatHistory(n, _) => assert_eq!(n, 0),
        _ => panic!("expected ChatHistory"),
    }
}

#[test]
fn post_save_settings_builds_patch() {
    let fields = vec![
        ("tickRate".to_string(), FieldValue::Num(10)),
        ("port".to_string(), FieldValue::Num(3000)),
        ("port".to_string(), FieldValue::Num(4000)),
        ("maxPlayersCount".to_string(), FieldValue::Num(999)),
    ];
    match parsePost(sink(), "saveSettings".to_string(), Some(fields)) {
        ServerMessage::SaveSettings(t, _) => {
            assert_eq!(t.tickRate, Some(10));
            // the last occurrence of a repeated key stands
            assert_eq!(t.port, Some(4000));
            // a value out of range falls back as the document format prescribes
            assert_eq!(t.maxPlayersCount, Some(1));
        },
        _ => panic!("expected SaveSettings"),
    }
}

#[test]
fn post_rejects_non_document_and_unknown_commands() {
    assert!(matches!(
        parsePost(sink(), "players".to_string(), None),
        ServerMessage::Invalid(_)
    ));
    assert!(matches!(
        parsePost(sink(), "mystery".to_string(), Some(vec![])),
        ServerMessage::Invalid(_)
    ));
}
