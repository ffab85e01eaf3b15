use session_server::config::{Config, Permission};
use session_server::protocol::{ClientMessage, Endpoint, ServerMessage, Tunables};
use session_server::server::{ReadEvent, Server, ServerEffect, WebReply};
use session_server::state::State;

fn server_with_capacity(capacity: u8) -> Server {
    let mut cfg = Config::default();
    cfg.maxPlayersCount = capacity;
    Server::init(cfg, State::new())
}

fn sink(port: u16) -> Endpoint {
    Endpoint { ip: 9, port }
}

#[test]
fn allocation_takes_lowest_free_slot() {
    let mut s = server_with_capacity(3);
    assert_eq!(s.getAvailablePlayerID(), 1);
    let (id1, _) = s.admitConnection(11).unwrap();
    let (id2, _) = s.admitConnection(12).unwrap();
    assert_eq!((id1, id2), (1, 2));
    assert_eq!(s.getAvailablePlayerID(), 3);
}

#[test]
fn third_connection_on_two_slots_is_refused() {
    let mut s = server_with_capacity(2);
    assert!(s.admitConnection(11).is_some());
    assert!(s.admitConnection(12).is_some());
    // the table is full: no slot, and no login bytes ever exist to send
    assert!(s.admitConnection(13).is_none());
    assert_eq!(s.getAvailablePlayerID(), 0);
}

#[test]
fn admit_sends_login_with_stored_identity() {
    let mut s = server_with_capacity(2);
    s.state.setPlayerInfo(11, "Ari".to_string(), "Mage".to_string());
    let (id, bytes) = s.admitConnection(11).unwrap();
    assert_eq!(id, 1);
    assert_eq!(bytes, vec![1u8, 1, b'A', b'r', b'i', 0, b'M', b'a', b'g', b'e']);
    let (_, bytes2) = s.admitConnection(12).unwrap();
    assert_eq!(
        bytes2,
        vec![1u8, 2, b'n', b'o', b'n', b'a', b'm', b'e', 0, b'u', b'n', b'k', b'n', b'o', b'w', b'n']
    );
}

#[test]
fn register_renames_slot_and_persists() {
    let mut s = server_with_capacity(2);
    s.admitConnection(11).unwrap();
    s.pushRequest(1, ServerMessage::Register("Ari".to_string()));
    let effects = s.handleRequests(0);
    assert_eq!(s.clients[0].name, "Ari");
    let (n, c) = s.state.getPlayerInfo(11);
    assert_eq!((n.as_str(), c.as_str()), ("Ari", "unknown"));
    assert_eq!(effects.len(), 1);
    match &effects[0] {
        ServerEffect::SendTo(id, ClientMessage::Login(lid, name, class)) => {
            assert_eq!((*id, *lid), (1, 1));
            assert_eq!(name, "Ari");
            assert_eq!(class, "unknown");
        },
        _ => panic!("expected a Login for the registering session"),
    }
}

#[test]
fn zero_length_read_disconnects_slot_and_frees_it() {
    let mut s = server_with_capacity(2);
    s.admitConnection(11).unwrap();
    s.admitConnection(12).unwrap();
    s.onControlRead(2, ReadEvent::Data(Vec::new()));
    let effects = s.handleRequests(0);
    assert!(effects.is_empty());
    assert_eq!(s.clients[1].id, 0);
    assert_eq!(s.clients[1].name, "");
    // the disconnect notice is queued for everyone
    let flushed = s.broadcastTCP();
    assert_eq!(flushed, vec![vec![2u8, 2]]);
    // the freed slot is the next one allocated
    let (id, _) = s.admitConnection(13).unwrap();
    assert_eq!(id, 2);
}

#[test]
fn fatal_read_event_also_disconnects() {
    let mut s = server_with_capacity(1);
    s.admitConnection(11).unwrap();
    s.onControlRead(1, ReadEvent::Fatal);
    s.handleRequests(0);
    assert_eq!(s.clients[0].id, 0);
}

#[test]
fn chat_broadcasts_named_line_and_records_history() {
    let mut s = server_with_capacity(2);
    s.admitConnection(11).unwrap();
    s.admitConnection(12).unwrap();
    s.pushRequest(2, ServerMessage::Register("Ari".to_string()));
    s.handleRequests(0);
    s.broadcastTCP();
    s.pushRequest(2, ServerMessage::Chat("hello".to_string(), Endpoint::none()));
    let effects = s.handleRequests(0);
    assert!(effects.is_empty());
    let flushed = s.broadcastTCP();
    let mut expected = vec![3u8];
    expected.extend_from_slice(b"Ari: hello");
    assert_eq!(flushed, vec![expected]);
    assert_eq!(s.state.chatHistory.len(), 1);
    assert_eq!(s.state.chatHistory[0].0, "Ari");
    assert_eq!(s.state.chatHistory[0].1, "hello");
}

#[test]
fn gettime_adds_one_history_entry_and_no_broadcast() {
    let mut s = server_with_capacity(2);
    s.admitConnection(11).unwrap();
    s.pushRequest(1, ServerMessage::Chat("/gettime".to_string(), Endpoint::none()));
    let effects = s.handleRequests(86400 * 40);
    assert!(effects.is_empty());
    assert!(s.broadcastTCP().is_empty());
    assert_eq!(s.state.chatHistory.len(), 1);
    assert_eq!(s.state.chatHistory[0].1, "Current server time: 12 February 1970 - 0:0:0");
}

#[test]
fn setposition_without_permission_does_nothing() {
    let mut s = server_with_capacity(2);
    s.admitConnection(11).unwrap();
    s.pushRequest(1, ServerMessage::Register("Ari".to_string()));
    s.handleRequests(0);
    s.broadcastTCP();
    s.pushRequest(1, ServerMessage::Chat("/setposition foo 10 20".to_string(), Endpoint::none()));
    let effects = s.handleRequests(0);
    assert!(effects.is_empty());
    assert!(s.broadcastTCP().is_empty());
    assert_eq!(s.state.chatHistory.len(), 0);
}

#[test]
fn setposition_as_admin_sends_one_control_message() {
    let mut s = server_with_capacity(2);
    s.admitConnection(11).unwrap();
    s.admitConnection(12).unwrap();
    s.pushRequest(1, ServerMessage::Register("Ari".to_string()));
    s.pushRequest(2, ServerMessage::Register("Bo".to_string()));
    s.handleRequests(0);
    s.broadcastTCP();
    s.config.setPermission("Ari".to_string(), Permission::Admin);
    s.pushRequest(1, ServerMessage::Chat("/setposition bo 10 20".to_string(), Endpoint::none()));
    let effects = s.handleRequests(0);
    assert_eq!(effects.len(), 1);
    match &effects[0] {
        ServerEffect::SendTo(id, ClientMessage::SetPosition(x, y)) => {
            assert_eq!((*id, *x, *y), (2, 10, 20));
        },
        _ => panic!("expected a SetPosition for slot 2"),
    }
    assert_eq!(s.state.chatHistory.len(), 1);
    assert_eq!(s.state.chatHistory[0].1, "[Player bo moved to (10;20)]");
}

#[test]
fn setposition_with_bad_coordinates_changes_nothing() {
    let mut s = server_with_capacity(1);
    s.admitConnection(11).unwrap();
    s.pushRequest(1, ServerMessage::Register("Ari".to_string()));
    s.handleRequests(0);
    s.config.setPermission("Ari".to_string(), Permission::Admin);
    s.pushRequest(1, ServerMessage::Chat("/setposition ari 1x 20".to_string(), Endpoint::none()));
    let effects = s.handleRequests(0);
    assert!(effects.is_empty());
    assert_eq!(s.state.chatHistory.len(), 0);
}

#[test]
fn setposition_unknown_target_logs_not_found() {
    let mut s = server_with_capacity(1);
    s.admitConnection(11).unwrap();
    s.pushRequest(1, ServerMessage::Register("Ari".to_string()));
    s.handleRequests(0);
    s.config.setPermission("Ari".to_string(), Permission::Admin);
    s.pushRequest(1, ServerMessage::Chat("/setposition zed 1 2".to_string(), Endpoint::none()));
    let effects = s.handleRequests(0);
    assert!(effects.is_empty());
    assert_eq!(s.state.chatHistory.len(), 1);
    assert_eq!(s.state.chatHistory[0].1, "[Player zed not moved: not found]");
}

#[test]
fn getposition_reports_live_record() {
    let mut s = server_with_capacity(2);
    s.admitConnection(11).unwrap();
    s.admitConnection(12).unwrap();
    s.pushRequest(1, ServerMessage::Register("Ari".to_string()));
    s.pushRequest(2, ServerMessage::Register("Bo".to_string()));
    s.handleRequests(0);
    s.broadcastTCP();
    // slot 2 reports x=10, y=20 over the state channel
    let datagram = [2u8, 10, 0, 20, 0, 0, 0, 0, 0];
    s.handleDatagram(&datagram, sink(5000));
    s.config.setPermission("Ari".to_string(), Permission::Admin);
    s.pushRequest(1, ServerMessage::Chat("/getposition bo".to_string(), Endpoint::none()));
    s.handleRequests(0);
    assert_eq!(s.state.chatHistory.len(), 1);
    assert_eq!(s.state.chatHistory[0].1, "[Player Ari requested position of bo] 10 20");
    let flushed = s.broadcastTCP();
    assert_eq!(flushed.len(), 1);
}

#[test]
fn short_datagram_leaves_record_unchanged() {
    let mut s = server_with_capacity(2);
    s.admitConnection(11).unwrap();
    let before = s.playersState[0].clone();
    s.handleDatagram(&[1u8, 9, 9, 9], sink(5000));
    assert_eq!(s.playersState[0], before);
    s.handleDatagram(&[1u8, 9, 9, 9, 9, 9, 9, 9, 9, 9], sink(5000));
    assert_eq!(s.playersState[0], before);
    assert!(s.clients[0].udp.is_none());
}

#[test]
fn zero_id_datagram_is_discarded() {
    let mut s = server_with_capacity(2);
    let before = s.playersState.clone();
    s.handleDatagram(&[8u8, 1, 2, 3, 4, 5, 6, 7, 8], sink(5000));
    assert_eq!(s.playersState, before);
}

#[test]
fn valid_datagram_updates_record_and_learns_address() {
    let mut s = server_with_capacity(2);
    s.admitConnection(11).unwrap();
    let datagram = [1u8, 1, 2, 3, 4, 5, 6, 7, 8];
    s.handleDatagram(&datagram, sink(5000));
    assert_eq!(s.playersState[0], datagram.to_vec());
    assert_eq!(s.clients[0].udp, Some(sink(5000)));
    // a later datagram from elsewhere does not rebind the address
    s.handleDatagram(&[1u8, 9, 9, 9, 9, 9, 9, 9, 9], sink(6000));
    assert_eq!(s.clients[0].udp, Some(sink(5000)));
}

#[test]
fn broadcast_excludes_own_record_and_addressless_slots() {
    let mut s = server_with_capacity(3);
    s.admitConnection(11).unwrap();
    s.admitConnection(12).unwrap();
    s.admitConnection(13).unwrap();
    let r1 = [1u8, 1, 1, 1, 1, 1, 1, 1, 1];
    let r2 = [2u8, 2, 2, 2, 2, 2, 2, 2, 2];
    s.handleDatagram(&r1, sink(5001));
    s.handleDatagram(&r2, sink(5002));
    // slot 3 never sent a datagram: no learned address, no record broadcast
    let packets = s.broadcastState();
    assert_eq!(packets.len(), 2);
    assert_eq!(packets[0].0, sink(5001));
    assert_eq!(packets[0].1, r2.to_vec());
    assert_eq!(packets[1].0, sink(5002));
    assert_eq!(packets[1].1, r1.to_vec());
}

#[test]
fn broadcast_skips_empty_payloads() {
    let mut s = server_with_capacity(2);
    s.admitConnection(11).unwrap();
    s.handleDatagram(&[1u8, 1, 1, 1, 1, 1, 1, 1, 1], sink(5001));
    // only slot 1 is known: its packet would hold nothing and is not sent
    assert!(s.broadcastState().is_empty());
}

#[test]
fn web_invalid_gets_error_reply() {
    let mut s = server_with_capacity(1);
    s.pushRequest(0, ServerMessage::Invalid(sink(80)));
    let effects = s.handleRequests(0);
    assert_eq!(effects.len(), 1);
    assert!(matches!(&effects[0], ServerEffect::Reply(w, WebReply::Error) if *w == sink(80)));
}

#[test]
fn slot_invalid_is_silent() {
    let mut s = server_with_capacity(1);
    s.admitConnection(11).unwrap();
    s.pushRequest(1, ServerMessage::Invalid(Endpoint::none()));
    assert!(s.handleRequests(0).is_empty());
}

#[test]
fn web_chat_echoes_to_sink() {
    let mut s = server_with_capacity(1);
    s.pushRequest(0, ServerMessage::Chat("hi all".to_string(), sink(80)));
    let effects = s.handleRequests(0);
    assert_eq!(effects.len(), 1);
    match &effects[0] {
        ServerEffect::Reply(w, WebReply::ChatEcho(t)) => {
            assert_eq!(*w, sink(80));
            assert_eq!(t, "WebClient: hi all");
        },
        _ => panic!("expected a chat echo"),
    }
    assert_eq!(s.state.chatHistory[0].0, "WebClient");
}

#[test]
fn players_list_reports_active_slots() {
    let mut s = server_with_capacity(3);
    s.admitConnection(11).unwrap();
    s.admitConnection(12).unwrap();
    s.pushRequest(1, ServerMessage::Register("Ari".to_string()));
    s.handleRequests(0);
    s.pushRequest(0, ServerMessage::PlayersList(sink(80)));
    let effects = s.handleRequests(0);
    assert_eq!(effects.len(), 1);
    match &effects[0] {
        ServerEffect::Reply(_, WebReply::Roster(entries)) => {
            assert_eq!(entries.len(), 2);
            assert_eq!(entries[0].0, 1);
            assert_eq!(entries[0].2, "Ari");
            assert_eq!(entries[1].0, 2);
            assert_eq!(entries[1].2, "noname");
        },
        _ => panic!("expected a roster"),
    }
}

#[test]
fn chat_history_slice_is_newest_first() {
    let mut s = server_with_capacity(1);
    s.state.chatHistory.push(("a".to_string(), "1".to_string()));
    s.state.chatHistory.push(("b".to_string(), "2".to_string()));
    s.state.chatHistory.push(("c".to_string(), "3".to_string()));
    // from index 1 onward: the two newest entries, newest first
    s.pushRequest(0, ServerMessage::ChatHistory(1, sink(80)));
    let effects = s.handleRequests(0);
    match &effects[0] {
        ServerEffect::Reply(_, WebReply::History(entries)) => {
            assert_eq!(entries.len(), 2);
            assert_eq!(entries[0].1, "3");
            assert_eq!(entries[1].1, "2");
        },
        _ => panic!("expected history"),
    }
    // a start past the end is read as zero: the whole history, newest first
    s.pushRequest(0, ServerMessage::ChatHistory(9, sink(80)));
    let effects = s.handleRequests(0);
    match &effects[0] {
        ServerEffect::Reply(_, WebReply::History(entries)) => {
            assert_eq!(entries.len(), 3);
            assert_eq!(entries[0].1, "3");
            assert_eq!(entries[1].1, "2");
            assert_eq!(entries[2].1, "1");
        },
        _ => panic!("expected history"),
    }
    // the history itself is untouched by the request
    assert_eq!(s.state.chatHistory.len(), 3);
    assert_eq!(s.state.chatHistory[0].1, "1");
}

#[test]
fn single_entry_history_is_returned() {
    let mut s = server_with_capacity(1);
    s.state.chatHistory.push(("a".to_string(), "1".to_string()));
    s.pushRequest(0, ServerMessage::ChatHistory(0, sink(80)));
    let effects = s.handleRequests(0);
    match &effects[0] {
        ServerEffect::Reply(_, WebReply::History(entries)) => {
            assert_eq!(entries.len(), 1);
            assert_eq!(entries[0].1, "1");
        },
        _ => panic!("expected history"),
    }
}

#[test]
fn chat_length_and_game_state_replies() {
    let mut s = server_with_capacity(1);
    s.state.checkpoint = "camp".to_string();
    s.state.date = "today".to_string();
    s.state.chatHistory.push(("a".to_string(), "1".to_string()));
    s.pushRequest(0, ServerMessage::ChatLength(sink(80)));
    s.pushRequest(0, ServerMessage::GameState(sink(81)));
    let effects = s.handleRequests(0);
    assert_eq!(effects.len(), 2);
    assert!(matches!(&effects[0], ServerEffect::Reply(_, WebReply::ChatLen(1))));
    match &effects[1] {
        ServerEffect::Reply(_, WebReply::Info(cp, d)) => {
            assert_eq!(cp, "camp");
            assert_eq!(d, "today");
        },
        _ => panic!("expected game-state info"),
    }
}

#[test]
fn save_game_sets_date_and_requests_persistence() {
    let mut s = server_with_capacity(1);
    s.pushRequest(0, ServerMessage::SaveGame("camp".to_string()));
    let effects = s.handleRequests(86400 * 40);
    assert_eq!(s.state.date, "12 February 1970 - 0:0:0");
    assert_eq!(effects.len(), 1);
    assert!(matches!(&effects[0], ServerEffect::Save(cp) if cp == "camp"));
}

#[test]
fn save_settings_applies_tunables_and_acknowledges() {
    let mut s = server_with_capacity(1);
    let patch = Tunables { maxPlayersCount: Some(7), port: Some(3000), tickRate: Some(10) };
    s.pushRequest(0, ServerMessage::SaveSettings(patch, sink(80)));
    let effects = s.handleRequests(0);
    assert_eq!(s.config.maxPlayersCount, 7);
    assert_eq!(s.config.port, 3000);
    assert_eq!(s.config.tickRate, 10);
    assert_eq!(s.config.sendTime, 100);
    assert_eq!(s.config.recvTime, 50);
    assert!(matches!(&effects[0], ServerEffect::Reply(_, WebReply::Ack)));
}

#[test]
fn get_settings_snapshots_configuration() {
    let mut s = server_with_capacity(1);
    s.config.setPermission("Ari".to_string(), Permission::Admin);
    s.pushRequest(0, ServerMessage::GetSettings(sink(80)));
    let effects = s.handleRequests(0);
    match &effects[0] {
        ServerEffect::Reply(_, WebReply::Settings(m, p, t, perms)) => {
            assert_eq!((*m, *p, *t), (1, 0, 1));
            assert_eq!(perms.len(), 1);
            assert_eq!(perms[0].0, "Ari");
            assert!(matches!(perms[0].1, Permission::Admin));
        },
        _ => panic!("expected settings"),
    }
}

#[test]
fn find_player_is_case_insensitive() {
    let mut s = server_with_capacity(2);
    s.admitConnection(11).unwrap();
    s.pushRequest(1, ServerMessage::Register("Ari".to_string()));
    s.handleRequests(0);
    assert_eq!(s.getPlayerID("ARI"), 1);
    assert_eq!(s.getPlayerID("ari"), 1);
    assert_eq!(s.getPlayerID("zed"), 0);
}

#[test]
fn save_settings_with_zero_tick_rate_keeps_cadence() {
    let mut s = server_with_capacity(1);
    let patch = Tunables { maxPlayersCount: None, port: None, tickRate: Some(0) };
    s.pushRequest(0, ServerMessage::SaveSettings(patch, sink(80)));
    s.handleRequests(0);
    assert_eq!(s.config.tickRate, 0);
    assert_eq!(s.config.sendTime, 1000);
    assert_eq!(s.config.recvTime, 500);
}

#[test]
fn register_replaces_an_existing_name() {
    let mut s = server_with_capacity(1);
    s.admitConnection(11).unwrap();
    s.pushRequest(1, ServerMessage::Register("Ari".to_string()));
    s.handleRequests(0);
    s.pushRequest(1, ServerMessage::Register("Bo".to_string()));
    s.handleRequests(0);
    assert_eq!(s.clients[0].name, "Bo");
    let (n, _) = s.state.getPlayerInfo(11);
    assert_eq!(n, "Bo");
}

#[test]
fn empty_chat_line_changes_nothing() {
    let mut s = server_with_capacity(1);
    s.admitConnection(11).unwrap();
    s.pushRequest(1, ServerMessage::Chat(String::new(), Endpoint::none()));
    assert!(s.handleRequests(0).is_empty());
    assert!(s.broadcastTCP().is_empty());
    assert_eq!(s.state.chatHistory.len(), 0);
}

#[test]
fn unknown_command_changes_nothing() {
    let mut s = server_with_capacity(1);
    s.admitConnection(11).unwrap();
    s.pushRequest(1, ServerMessage::Chat("/frobnicate a b".to_string(), Endpoint::none()));
    assert!(s.handleRequests(0).is_empty());
    assert!(s.broadcastTCP().is_empty());
    assert_eq!(s.state.chatHistory.len(), 0);
}
