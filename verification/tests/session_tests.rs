use signal_hub::codec::Frame;
use signal_hub::json::JsonValue;
use signal_hub::session::{FrameAction, RegisterOutcome, SessionMachine, SessionState};

const TOKEN: &str = "123e4567-e89b-12d3-a456-426614174000";

fn frame(json: &str) -> Frame {
    Frame::Text(json.to_string())
}

fn register_frame(email: &str, device: &str) -> Frame {
    frame(&format!(
        "{{\"from_email\":\"{email}\",\"from_token\":\"{TOKEN}\",\"from_device\":\"{device}\",\
         \"to_email\":\"\",\"to_device\":\"\",\"event\":\"register\",\
         \"payload\":{{\"device_name\":\"laptop\",\"device_type\":\"web\"}}}}"
    ))
}

fn simple_frame(event: &str, email: &str) -> Frame {
    frame(&format!(
        "{{\"from_email\":\"{email}\",\"from_token\":\"\",\"from_device\":\"d1\",\
         \"to_email\":\"\",\"to_device\":\"\",\"event\":\"{event}\",\"payload\":null}}"
    ))
}

#[test]
fn register_then_resolve_ok() {
    let mut s = SessionMachine::new("sock-1".to_string());
    let action = s.on_frame(register_frame("u@x", "d1"), 0);
    let msg = match action {
        FrameAction::Register(m) => m,
        other => panic!("expected a register directive, got {:?}", action_name(&other)),
    };
    let out = s.on_register_resolved(&msg, Some("u@x".to_string()));
    match out {
        RegisterOutcome::Accept { reply, info } => {
            assert_eq!(
                reply,
                "{\"event\":\"register\",\"socket_id\":\"sock-1\",\"status\":\"ok\"}"
            );
            assert_eq!(info.socket_id, "sock-1");
            assert_eq!(info.device_id, "d1");
            assert_eq!(info.device_name.as_deref(), Some("laptop"));
            assert_eq!(info.device_type.as_deref(), Some("web"));
        }
        RegisterOutcome::Fail(t) => panic!("unexpected failure: {t}"),
    }
    assert!(matches!(s.state, SessionState::Registered { .. }));
}

#[test]
fn register_email_mismatch_fails_and_closes() {
    let mut s = SessionMachine::new("sock-1".to_string());
    let action = s.on_frame(register_frame("other@x", "d1"), 0);
    let msg = match action {
        FrameAction::Register(m) => m,
        _ => panic!("expected a register directive"),
    };
    let out = s.on_register_resolved(&msg, Some("u@x".to_string()));
    match out {
        RegisterOutcome::Fail(t) => assert_eq!(
            t,
            "{\"error\":\"Email does not match token\",\"event\":\"register\",\"status\":\"error\"}"
        ),
        RegisterOutcome::Accept { .. } => panic!("must not accept a mismatched email"),
    }
    assert!(matches!(s.state, SessionState::Closed));
}

#[test]
fn register_unresolved_token_fails_and_closes() {
    let mut s = SessionMachine::new("sock-1".to_string());
    let msg = match s.on_frame(register_frame("u@x", "d1"), 0) {
        FrameAction::Register(m) => m,
        _ => panic!("expected a register directive"),
    };
    match s.on_register_resolved(&msg, None) {
        RegisterOutcome::Fail(t) => assert_eq!(
            t,
            "{\"error\":\"Invalid or expired token\",\"event\":\"register\",\"status\":\"error\"}"
        ),
        RegisterOutcome::Accept { .. } => panic!("must not accept an unresolved token"),
    }
    assert!(matches!(s.state, SessionState::Closed));
}

#[test]
fn register_bad_token_format_closes() {
    let mut s = SessionMachine::new("sock-1".to_string());
    let f = frame(
        "{\"from_email\":\"u@x\",\"from_token\":\"not-a-uuid\",\"from_device\":\"d1\",\
         \"to_email\":\"\",\"to_device\":\"\",\"event\":\"register\",\"payload\":{}}",
    );
    match s.on_frame(f, 0) {
        FrameAction::ReplyClose(t) => assert_eq!(
            t,
            "{\"error\":\"Invalid token format\",\"event\":\"register\",\"status\":\"error\"}"
        ),
        _ => panic!("expected a closing reply"),
    }
    assert!(matches!(s.state, SessionState::Closed));
}

#[test]
fn second_register_is_protocol_error() {
    let mut s = registered_session();
    match s.on_frame(register_frame("u@x", "d1"), 0) {
        FrameAction::Reply(t) => {
            assert_eq!(t, "{\"error\":\"Already registered\",\"event\":\"error\"}")
        }
        _ => panic!("expected an error reply"),
    }
    assert!(matches!(s.state, SessionState::Registered { .. }));
}

#[test]
fn events_before_register_are_errors() {
    let mut s = SessionMachine::new("sock-1".to_string());
    match s.on_frame(simple_frame("check", "u@x"), 0) {
        FrameAction::Reply(t) => {
            assert_eq!(t, "{\"error\":\"Must register first\",\"event\":\"error\"}")
        }
        _ => panic!("expected an error reply"),
    }
    assert!(matches!(s.state, SessionState::Unregistered));
}

#[test]
fn parse_error_reply() {
    let mut s = SessionMachine::new("sock-1".to_string());
    match s.on_frame(frame("not json"), 0) {
        FrameAction::Reply(t) => assert_eq!(
            t,
            "{\"error\":\"Failed to parse message: invalid JSON envelope\",\"event\":\"error\"}"
        ),
        _ => panic!("expected an error reply"),
    }
}

#[test]
fn validation_error_reply() {
    let mut s = registered_session();
    let f = frame(
        "{\"from_email\":\"\",\"from_token\":\"\",\"from_device\":\"\",\
         \"to_email\":\"\",\"to_device\":\"\",\"event\":\"check\",\"payload\":null}",
    );
    match s.on_frame(f, 0) {
        FrameAction::Reply(t) => assert_eq!(
            t,
            "{\"error\":\"from_email is required for check\",\"event\":\"error\"}"
        ),
        _ => panic!("expected an error reply"),
    }
}

#[test]
fn connect_is_acknowledged() {
    let mut s = registered_session();
    match s.on_frame(simple_frame("connect", "u@x"), 0) {
        FrameAction::Reply(t) => assert_eq!(t, "{\"event\":\"connected\",\"status\":\"ok\"}"),
        _ => panic!("expected the connect acknowledgment"),
    }
}

#[test]
fn check_yields_registered_email() {
    let mut s = registered_session();
    match s.on_frame(simple_frame("check", "whoever@x"), 0) {
        FrameAction::Check(email) => assert_eq!(email, "u@x"),
        _ => panic!("expected a check directive"),
    }
}

#[test]
fn ping_pong_timestamps_never_decrease() {
    let mut s = registered_session();
    match s.on_frame(simple_frame("ping", "u@x"), 100) {
        FrameAction::Reply(t) => assert_eq!(t, "{\"event\":\"pong\",\"timestamp\":100}"),
        _ => panic!("expected a pong"),
    }
    // the clock stepping backwards does not move the pong backwards
    match s.on_frame(simple_frame("ping", "u@x"), 50) {
        FrameAction::Reply(t) => assert_eq!(t, "{\"event\":\"pong\",\"timestamp\":100}"),
        _ => panic!("expected a pong"),
    }
    match s.on_frame(simple_frame("ping", "u@x"), 170) {
        FrameAction::Reply(t) => assert_eq!(t, "{\"event\":\"pong\",\"timestamp\":170}"),
        _ => panic!("expected a pong"),
    }
}

#[test]
fn forward_events_are_handed_on() {
    let mut s = registered_session();
    let f = frame(
        "{\"from_email\":\"u@x\",\"from_token\":\"\",\"from_device\":\"d1\",\
         \"to_email\":\"p@x\",\"to_device\":\"d2\",\"event\":\"sdp_offer\",\"payload\":\"v=0\"}",
    );
    match s.on_frame(f, 0) {
        FrameAction::Forward(m) => {
            assert_eq!(m.to_email, "p@x");
            assert_eq!(m.to_device, "d2");
        }
        _ => panic!("expected a forward directive"),
    }
}

#[test]
fn pong_event_is_unknown_at_dispatch() {
    let mut s = registered_session();
    match s.on_frame(simple_frame("pong", "u@x"), 0) {
        FrameAction::Reply(t) => {
            assert_eq!(t, "{\"error\":\"Unknown event: pong\",\"event\":\"error\"}")
        }
        _ => panic!("expected an error reply"),
    }
}

#[test]
fn disconnect_closes_and_then_ignores() {
    let mut s = registered_session();
    assert!(matches!(s.on_frame(simple_frame("disconnect", ""), 0), FrameAction::Close));
    assert!(matches!(s.state, SessionState::Closed));
    assert!(matches!(s.on_frame(simple_frame("ping", ""), 0), FrameAction::Ignore));
}

fn registered_session() -> SessionMachine {
    let mut s = SessionMachine::new("sock-1".to_string());
    let msg = match s.on_frame(register_frame("u@x", "d1"), 0) {
        FrameAction::Register(m) => m,
        _ => panic!("expected a register directive"),
    };
    match s.on_register_resolved(&msg, Some("u@x".to_string())) {
        RegisterOutcome::Accept { .. } => {}
        RegisterOutcome::Fail(t) => panic!("registration failed: {t}"),
    }
    s
}

fn action_name(a: &FrameAction) -> &'static str {
    match a {
        FrameAction::Reply(_) => "Reply",
        FrameAction::ReplyClose(_) => "ReplyClose",
        FrameAction::Register(_) => "Register",
        FrameAction::Check(_) => "Check",
        FrameAction::Forward(_) => "Forward",
        FrameAction::Close => "Close",
        FrameAction::Ignore => "Ignore",
    }
}
