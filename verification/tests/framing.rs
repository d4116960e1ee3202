use ami_logger::framer::{read_message, Framer};
use ami_logger::message::Message;

fn get(m: &Message, name: &str) -> Option<Vec<u8>> {
    m.get_header(name.as_bytes()).map(|v| v.clone())
}

#[test]
fn parses_headers_and_body_before_single_terminator() {
    let input = b"Event: Dial\r\nsome banner line\r\nChannel : SIP/100 \r\n\r\n";
    let (m, used) = read_message(input, 0, false);
    assert_eq!(used, input.len());
    assert_eq!(get(&m, "Event"), Some(b"Dial".to_vec()));
    assert_eq!(get(&m, "Channel"), Some(b"SIP/100".to_vec()));
    assert_eq!(m.header_count(), 2);
    assert_eq!(m.rest().as_slice(), b"some banner line\r\n");
}

#[test]
fn splits_on_first_colon_only() {
    let input = b"Variable: SIP/100: extra\r\n\r\n";
    let (m, _) = read_message(input, 0, false);
    assert_eq!(get(&m, "Variable"), Some(b"SIP/100: extra".to_vec()));
}

#[test]
fn last_duplicate_header_wins() {
    let input = b"Event: First\r\nEvent: Second\r\n\r\n";
    let (m, _) = read_message(input, 0, false);
    assert_eq!(get(&m, "Event"), Some(b"Second".to_vec()));
    assert_eq!(m.header_count(), 1);
}

#[test]
fn stream_end_closes_frame_without_terminator() {
    let input = b"Event: Dial\r\nChannel: SIP/7";
    let (m, used) = read_message(input, 0, false);
    assert_eq!(used, input.len());
    assert_eq!(get(&m, "Event"), Some(b"Dial".to_vec()));
    // The unterminated tail is still a line of its own.
    assert_eq!(get(&m, "Channel"), Some(b"SIP/7".to_vec()));
}

#[test]
fn first_only_consumes_a_single_line() {
    let input = b"Asterisk Call Manager/1.1\r\nEvent: Dial\r\n\r\n";
    let (m, used) = read_message(input, 0, true);
    assert_eq!(used, b"Asterisk Call Manager/1.1\r\n".len());
    assert_eq!(m.header_count(), 0);
    assert_eq!(m.rest().as_slice(), b"Asterisk Call Manager/1.1\r\n");
}

#[test]
fn first_only_on_terminator_consumes_it_and_stays_empty() {
    let input = b"\r\nEvent: X\r\n";
    let (m, used) = read_message(input, 0, true);
    assert_eq!(used, 2);
    assert_eq!(m.header_count(), 0);
    assert_eq!(m.rest().len(), 0);
}

#[test]
fn empty_input_gives_empty_message() {
    let (m, used) = read_message(b"", 0, false);
    assert_eq!(used, 0);
    assert_eq!(m.header_count(), 0);
    assert_eq!(m.rest().len(), 0);
}

#[test]
fn bare_line_feed_is_not_a_terminator() {
    let input = b"\nEvent: A\r\n\r\n";
    let (m, _) = read_message(input, 0, false);
    assert_eq!(get(&m, "Event"), Some(b"A".to_vec()));
    assert_eq!(m.rest().as_slice(), b"\n");
}

#[test]
fn two_frames_read_back_to_back_from_one_buffer() {
    let input = b"Event: One\r\n\r\nEvent: Two\r\n\r\n";
    let (m1, used1) = read_message(input, 0, false);
    let (m2, used2) = read_message(input, used1, false);
    assert_eq!(get(&m1, "Event"), Some(b"One".to_vec()));
    assert_eq!(get(&m2, "Event"), Some(b"Two".to_vec()));
    assert_eq!(used2, input.len());
}

#[test]
fn incremental_framer_matches_whole_buffer_parse() {
    let mut fr = Framer::new(false);
    assert!(!fr.feed_line(b"Event: Dial\r\n"));
    assert!(!fr.feed_line(b"no colon here\r\n"));
    assert!(fr.feed_line(b"\r\n"));
    let m = fr.finish();
    assert_eq!(get(&m, "Event"), Some(b"Dial".to_vec()));
    assert_eq!(m.rest().as_slice(), b"no colon here\r\n");
}

#[test]
fn incremental_framer_ends_on_empty_feed() {
    let mut fr = Framer::new(false);
    assert!(!fr.feed_line(b"Event: Hangup\r\n"));
    assert!(fr.feed_line(b""));
    let m = fr.finish();
    assert_eq!(get(&m, "Event"), Some(b"Hangup".to_vec()));
}

#[test]
fn header_names_and_values_are_trimmed() {
    let input = b"  Spaced Name\t :  spaced value \r\n\r\n";
    let (m, _) = read_message(input, 0, false);
    assert_eq!(get(&m, "Spaced Name"), Some(b"spaced value".to_vec()));
}
