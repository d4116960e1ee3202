use ami_logger::aggregator::Aggregator;
use ami_logger::framer::read_message;
use ami_logger::message::Message;
use ami_logger::rules::SqlValue;
use ami_logger::session::{SessionAction, SessionClient, SessionEvent, SessionState};
use ami_logger::settings::EventClause;

// 2022-03-05T00:00:00Z
const MS_DAY_ONE: i64 = 1_646_438_400_000;

fn frame(bytes: &[u8]) -> Message {
    let (m, _) = read_message(bytes, 0, false);
    m
}

/// A banner, a successful login exchange and one event frame end in one
/// exact log line for the event.
#[test]
fn banner_login_and_event_yield_one_log_line() {
    let mut c = SessionClient::new(
        String::from("serverA"),
        String::from("admin"),
        String::from("secret"),
    );
    c.step(SessionEvent::Connected);

    let (banner, used) = read_message(b"Asterisk Call Manager/1.1\r\n", 0, true);
    assert_eq!(used, 27);
    let act = c.step(SessionEvent::Frame(banner));
    assert!(matches!(act, SessionAction::SendLogin(_)));

    let act = c.step(SessionEvent::Frame(frame(b"Response: Success\r\n\r\n")));
    assert!(matches!(act, SessionAction::Idle));
    assert!(matches!(c.state(), SessionState::Streaming));

    let act = c.step(SessionEvent::Frame(frame(b"Event: Dial\r\nChannel: SIP/100\r\n\r\n")));
    let routed = match act {
        SessionAction::Forward(ev) => ev,
        _ => panic!("the qualifying frame must be forwarded"),
    };

    let mut agg = Aggregator::new(vec![], String::from("logs"), false, vec![]);
    let out = agg.handle_event(&routed.source, &routed.message, MS_DAY_ONE);
    assert!(out.inserts.is_empty());
    assert_eq!(
        String::from_utf8(out.record).unwrap(),
        "serverA::1646438400000::{\"headers\":{\"Event\":\"Dial\",\"Channel\":\"SIP/100\"},\"rest\":\"\"}\r\n"
    );
    assert_eq!(out.file_key, "all");
    assert_eq!(out.opens.len(), 1);
    assert_eq!(out.opens[0].1, b"logs/events_2022-03-05.log".to_vec());
}

/// A rule mapping the reserved token and a header executes the expected
/// parameterized insert.
#[test]
fn mapped_rule_fires_on_the_dial_event() {
    let rule = EventClause {
        event_name: String::from("Dial"),
        db_connection_id: String::from("db1"),
        db_table: String::from("calls"),
        event_data_link: vec![
            (String::from("%SERVER_NAME%"), String::from("server_col")),
            (String::from("Channel"), String::from("chan_col")),
        ],
    };
    let mut agg = Aggregator::new(vec![rule], String::from("logs"), false, vec![]);
    let source = String::from("serverA");
    let m = frame(b"Event: Dial\r\nChannel: SIP/100\r\n\r\n");
    let out = agg.handle_event(&source, &m, MS_DAY_ONE);
    assert_eq!(out.inserts.len(), 1);
    assert_eq!(out.inserts[0].sql, "INSERT INTO calls (server_col,chan_col) VALUES (?,?)");
    assert_eq!(
        out.inserts[0].params,
        vec![
            SqlValue::Bytes(b"serverA".to_vec()),
            SqlValue::Bytes(b"SIP/100".to_vec()),
        ]
    );
}

/// A login reply without a Response header terminates that session while
/// another session keeps streaming.
#[test]
fn missing_login_response_kills_only_that_session() {
    let mut broken = SessionClient::new(
        String::from("serverA"),
        String::from("admin"),
        String::from("secret"),
    );
    broken.step(SessionEvent::Connected);
    let (banner, _) = read_message(b"Asterisk Call Manager/1.1\r\n", 0, true);
    broken.step(SessionEvent::Frame(banner));
    let act = broken.step(SessionEvent::Frame(frame(b"Ping: Pong\r\n\r\n")));
    assert!(matches!(act, SessionAction::Idle));
    assert!(matches!(broken.state(), SessionState::Terminated));
    let act = broken.step(SessionEvent::Frame(frame(b"Event: Dial\r\n\r\n")));
    assert!(matches!(act, SessionAction::Idle));

    let mut healthy = SessionClient::new(
        String::from("serverB"),
        String::from("admin"),
        String::from("secret"),
    );
    healthy.step(SessionEvent::Connected);
    let (banner, _) = read_message(b"Asterisk Call Manager/1.1\r\n", 0, true);
    healthy.step(SessionEvent::Frame(banner));
    healthy.step(SessionEvent::Frame(frame(b"Response: Success\r\n\r\n")));
    let act = healthy.step(SessionEvent::Frame(frame(b"Event: Dial\r\n\r\n")));
    assert!(matches!(act, SessionAction::Forward(_)));
}

/// Events on either side of a UTC midnight go to two distinct files,
/// each named for its own day.
#[test]
fn events_across_midnight_split_into_two_files() {
    let mut agg = Aggregator::new(vec![], String::from("logs"), false, vec![]);
    let source = String::from("serverA");
    let evening = frame(b"Event: Dial\r\n\r\n");
    let morning = frame(b"Event: Hangup\r\n\r\n");

    let out1 = agg.handle_event(&source, &evening, MS_DAY_ONE + 86_399_999);
    let out2 = agg.handle_event(&source, &morning, MS_DAY_ONE + 86_400_000);
    assert_eq!(out1.opens.len(), 1);
    assert_eq!(out2.opens.len(), 1);
    assert_eq!(out1.opens[0].1, b"logs/events_2022-03-05.log".to_vec());
    assert_eq!(out2.opens[0].1, b"logs/events_2022-03-06.log".to_vec());
    assert_ne!(out1.opens[0].1, out2.opens[0].1);

    // A third event later the same day reuses the open handle.
    let out3 = agg.handle_event(&source, &frame(b"Event: Dial\r\n\r\n"), MS_DAY_ONE + 86_500_000);
    assert!(out3.opens.is_empty());
}

/// Per-server mode routes each record under its own source key.
#[test]
fn per_server_aggregation_keys_by_source() {
    let names = vec![String::from("serverA"), String::from("serverB")];
    let mut agg = Aggregator::new(vec![], String::from("logs"), true, names);
    let source = String::from("serverB");
    let out = agg.handle_event(&source, &frame(b"Event: Dial\r\n\r\n"), MS_DAY_ONE);
    assert_eq!(out.file_key, "serverB");
    assert_eq!(out.opens.len(), 2);
    assert_eq!(out.opens[0].1, b"logs/serverA/events_2022-03-05.log".to_vec());
    assert_eq!(out.opens[1].1, b"logs/serverB/events_2022-03-05.log".to_vec());
}
