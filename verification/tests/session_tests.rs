use chat_hub::hub::ChatServer;
use chat_hub::hub::Connect;
use chat_hub::hub::Disconnect;
use chat_hub::hub::Join;
use chat_hub::session::Frame;
use chat_hub::session::FrameAction;
use chat_hub::session::HeartbeatDecision;
use chat_hub::session::Session;
use chat_hub::session::CLIENT_TIMEOUT_MS;

#[test]
fn ping_gets_pong_with_same_payload() {
    let mut s = Session::start(1, 0);
    match s.on_frame(Frame::Ping(vec![1, 2, 3]), 5) {
        FrameAction::ReplyPong(p) => assert_eq!(p, vec![1, 2, 3]),
        _ => panic!("expected a pong reply"),
    }
    assert_eq!(s.last_activity_ms, 5);
}

#[test]
fn binary_is_echoed_verbatim() {
    let mut s = Session::start(1, 0);
    match s.on_frame(Frame::Binary(vec![9, 8]), 5) {
        FrameAction::EchoBinary(b) => assert_eq!(b, vec![9, 8]),
        _ => panic!("expected a binary echo"),
    }
}

#[test]
fn pressed_command_is_submitted() {
    let mut s = Session::start(1, 0);
    let a = s.on_frame(Frame::Text(String::from("{\"t\":\"pressed\"}")), 5);
    assert!(matches!(a, FrameAction::SubmitPressed));
}

#[test]
fn unrecognized_command_is_ignored() {
    let mut s = Session::start(1, 0);
    let a = s.on_frame(Frame::Text(String::from("{\"t\":\"dance\"}")), 5);
    assert!(matches!(a, FrameAction::NoAction));
}

#[test]
fn malformed_text_is_dropped_and_session_survives() {
    let mut s = Session::start(1, 0);
    let a = s.on_frame(Frame::Text(String::from("not json at all")), 5);
    assert!(matches!(a, FrameAction::DropMalformed));
    // The session is still usable afterwards.
    let b = s.on_frame(Frame::Text(String::from("{\"t\":\"pressed\"}")), 6);
    assert!(matches!(b, FrameAction::SubmitPressed));
    assert!(!s.closed);
}

#[test]
fn pong_records_activity() {
    let mut s = Session::start(1, 0);
    let a = s.on_frame(Frame::Pong(Vec::new()), 7000);
    assert!(matches!(a, FrameAction::NoAction));
    assert_eq!(s.last_activity_ms, 7000);
}

#[test]
fn heartbeat_pings_within_window() {
    let s = Session::start(1, 0);
    assert!(matches!(s.on_heartbeat_tick(CLIENT_TIMEOUT_MS), HeartbeatDecision::SendPing));
}

#[test]
fn heartbeat_times_out_past_window() {
    let s = Session::start(1, 0);
    assert!(matches!(
        s.on_heartbeat_tick(CLIENT_TIMEOUT_MS + 1),
        HeartbeatDecision::Timeout
    ));
}

#[test]
fn activity_resets_timeout_window() {
    let mut s = Session::start(1, 0);
    s.on_frame(Frame::Pong(Vec::new()), 9000);
    assert!(matches!(s.on_heartbeat_tick(15000), HeartbeatDecision::SendPing));
    assert!(matches!(s.on_heartbeat_tick(19001), HeartbeatDecision::Timeout));
}

#[test]
fn close_issues_disconnect_exactly_once() {
    let mut s = Session::start(1, 0);
    assert!(s.close());
    assert!(!s.close());
    assert!(!s.close());
    assert!(s.closed);
}

#[test]
fn silent_session_is_evicted_from_hub() {
    // A session that sends nothing past the timeout window is
    // disconnected and gone from registry and rooms.
    let mut hub = ChatServer::new();
    let id = hub.connect(Connect).unwrap();
    hub.join(Join { id, name: String::from("general") });
    let mut s = Session::start(id, 0);
    let now = CLIENT_TIMEOUT_MS + 500;
    if matches!(s.on_heartbeat_tick(now), HeartbeatDecision::Timeout) {
        if s.close() {
            hub.disconnect(Disconnect { id });
        }
    }
    assert!(!hub.sessions.contains(&id));
    assert!(hub.rooms.iter().all(|r| !r.members.contains(&id)));
}
