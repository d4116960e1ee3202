use ami_logger::framer::read_message;
use ami_logger::message::Message;
use ami_logger::session::{
    login_request, AuthPhase, SessionAction, SessionClient, SessionEvent, SessionState,
};

fn frame(bytes: &[u8]) -> Message {
    let (m, _) = read_message(bytes, 0, false);
    m
}

fn banner_frame() -> Message {
    let (m, _) = read_message(b"Asterisk Call Manager/1.1\r\n", 0, true);
    m
}

fn client() -> SessionClient {
    SessionClient::new(
        String::from("serverA"),
        String::from("admin"),
        String::from("secret"),
    )
}

#[test]
fn login_request_bytes() {
    let r = login_request("admin", "pw");
    assert_eq!(r, b"Action: Login\r\nUsername: admin\r\nSecret: pw\r\n\r\n".to_vec());
}

#[test]
fn handshake_reaches_streaming_and_forwards_event() {
    let mut c = client();
    assert!(matches!(c.step(SessionEvent::Connected), SessionAction::Idle));
    assert!(matches!(c.state(), SessionState::Authenticating(AuthPhase::Banner)));

    let act = c.step(SessionEvent::Frame(banner_frame()));
    match act {
        SessionAction::SendLogin(bytes) => {
            assert_eq!(bytes, b"Action: Login\r\nUsername: admin\r\nSecret: secret\r\n\r\n".to_vec());
        }
        _ => panic!("expected the login command"),
    }

    let act = c.step(SessionEvent::Frame(frame(b"Response: Success\r\n\r\n")));
    assert!(matches!(act, SessionAction::Idle));
    assert!(matches!(c.state(), SessionState::Streaming));

    let act = c.step(SessionEvent::Frame(frame(b"Event: Dial\r\nChannel: SIP/100\r\n\r\n")));
    match act {
        SessionAction::Forward(ev) => {
            assert_eq!(ev.source, "serverA");
            assert_eq!(
                ev.message.get_header(b"Channel").map(|v| v.clone()),
                Some(b"SIP/100".to_vec())
            );
        }
        _ => panic!("expected the event to be forwarded"),
    }
    assert!(matches!(c.state(), SessionState::Streaming));
}

#[test]
fn frame_without_event_header_is_never_forwarded() {
    let mut c = client();
    c.step(SessionEvent::Connected);
    c.step(SessionEvent::Frame(banner_frame()));
    c.step(SessionEvent::Frame(frame(b"Response: Success\r\n\r\n")));

    let act = c.step(SessionEvent::Frame(frame(b"Response: Pong\r\n\r\n")));
    assert!(matches!(act, SessionAction::Idle));
    let act = c.step(SessionEvent::Frame(frame(b"plain text\r\n\r\n")));
    assert!(matches!(act, SessionAction::Idle));
    let act = c.step(SessionEvent::Frame(frame(b"\r\n")));
    assert!(matches!(act, SessionAction::Idle));
    assert!(matches!(c.state(), SessionState::Streaming));
}

#[test]
fn wrong_banner_terminates_session() {
    let mut c = client();
    c.step(SessionEvent::Connected);
    let act = c.step(SessionEvent::Frame(frame(b"Some Other Greeting/9.9\r\n\r\n")));
    assert!(matches!(act, SessionAction::Idle));
    assert!(matches!(c.state(), SessionState::Terminated));
}

#[test]
fn login_reply_missing_response_terminates_without_forwarding() {
    let mut c = client();
    c.step(SessionEvent::Connected);
    c.step(SessionEvent::Frame(banner_frame()));
    let act = c.step(SessionEvent::Frame(frame(b"Message: who knows\r\n\r\n")));
    assert!(matches!(act, SessionAction::Idle));
    assert!(matches!(c.state(), SessionState::Terminated));

    // A later event frame is not forwarded by the dead session.
    let act = c.step(SessionEvent::Frame(frame(b"Event: Dial\r\n\r\n")));
    assert!(matches!(act, SessionAction::Idle));
    assert!(matches!(c.state(), SessionState::Terminated));
}

#[test]
fn failed_login_response_terminates() {
    let mut c = client();
    c.step(SessionEvent::Connected);
    c.step(SessionEvent::Frame(banner_frame()));
    let act = c.step(SessionEvent::Frame(frame(b"Response: Error\r\n\r\n")));
    assert!(matches!(act, SessionAction::Idle));
    assert!(matches!(c.state(), SessionState::Terminated));
}

#[test]
fn connect_failure_terminates_only_this_session() {
    let mut failed = client();
    failed.step(SessionEvent::ConnectFailed);
    assert!(matches!(failed.state(), SessionState::Terminated));

    // Another session is unaffected and still authenticates.
    let mut other = client();
    other.step(SessionEvent::Connected);
    other.step(SessionEvent::Frame(banner_frame()));
    other.step(SessionEvent::Frame(frame(b"Response: Success\r\n\r\n")));
    assert!(matches!(other.state(), SessionState::Streaming));
}

#[test]
fn stream_end_terminates() {
    let mut c = client();
    c.step(SessionEvent::Connected);
    c.step(SessionEvent::Frame(banner_frame()));
    c.step(SessionEvent::Frame(frame(b"Response: Success\r\n\r\n")));
    c.step(SessionEvent::StreamEnded);
    assert!(matches!(c.state(), SessionState::Terminated));
}
