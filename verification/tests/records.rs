use ami_logger::aggregator::log_record;
use ami_logger::framer::read_message;
use ami_logger::json::json_of_message;
use ami_logger::message::Message;

fn frame(bytes: &[u8]) -> Message {
    let (m, _) = read_message(bytes, 0, false);
    m
}

#[test]
fn json_of_simple_event() {
    let m = frame(b"Event: Dial\r\nChannel: SIP/100\r\n\r\n");
    let j = json_of_message(&m);
    assert_eq!(
        String::from_utf8(j).unwrap(),
        r#"{"headers":{"Event":"Dial","Channel":"SIP/100"},"rest":""}"#
    );
}

#[test]
fn json_escapes_quotes_backslashes_and_controls() {
    let mut m = Message::new();
    m.insert_header(b"Note".to_vec(), b"say \"hi\" \\ bye".to_vec());
    m.append_rest(b"line\r\n\ttab\x01end");
    let j = String::from_utf8(json_of_message(&m)).unwrap();
    assert_eq!(
        j,
        "{\"headers\":{\"Note\":\"say \\\"hi\\\" \\\\ bye\"},\"rest\":\"line\\r\\n\\ttab\\u0001end\"}"
    );
}

#[test]
fn json_agrees_with_a_reference_parser() {
    let m = frame(b"Event: Dial\r\nText: a \"quoted\" value\r\nraw line\r\n\r\n");
    let j = json_of_message(&m);
    let v: serde_json::Value = serde_json::from_slice(&j).unwrap();
    assert_eq!(v["headers"]["Event"], "Dial");
    assert_eq!(v["headers"]["Text"], "a \"quoted\" value");
    assert_eq!(v["rest"], "raw line\r\n");
}

#[test]
fn json_escaping_round_trips_through_a_reference_parser() {
    let mut m = Message::new();
    m.insert_header(b"K".to_vec(), b"\x00\x1f\x08\x0c\"\\".to_vec());
    let j = json_of_message(&m);
    let v: serde_json::Value = serde_json::from_slice(&j).unwrap();
    assert_eq!(v["headers"]["K"], "\u{0}\u{1f}\u{8}\u{c}\"\\");
}

#[test]
fn record_line_has_source_stamp_and_json() {
    let m = frame(b"Event: Dial\r\nChannel: SIP/100\r\n\r\n");
    let r = log_record("serverA", 1_646_438_400_000, &m);
    assert_eq!(
        String::from_utf8(r).unwrap(),
        "serverA::1646438400000::{\"headers\":{\"Event\":\"Dial\",\"Channel\":\"SIP/100\"},\"rest\":\"\"}\r\n"
    );
}

#[test]
fn record_of_zero_stamp() {
    let m = frame(b"\r\n");
    let r = log_record("s", 0, &m);
    assert_eq!(
        String::from_utf8(r).unwrap(),
        "s::0::{\"headers\":{},\"rest\":\"\"}\r\n"
    );
}
