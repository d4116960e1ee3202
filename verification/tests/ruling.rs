use ami_logger::framer::read_message;
use ami_logger::message::Message;
use ami_logger::rules::{build_insert, build_inserts, matches_message, SqlValue};
use ami_logger::settings::EventClause;

fn dial_event() -> Message {
    let (m, _) = read_message(b"Event: Dial\r\nChannel: SIP/100\r\n\r\n", 0, false);
    m
}

fn clause(event: &str, id: &str, table: &str, links: &[(&str, &str)]) -> EventClause {
    EventClause {
        event_name: String::from(event),
        db_connection_id: String::from(id),
        db_table: String::from(table),
        event_data_link: links
            .iter()
            .map(|(a, b)| (String::from(*a), String::from(*b)))
            .collect(),
    }
}

#[test]
fn mapped_rule_builds_expected_statement_and_params() {
    let c = clause(
        "Dial",
        "db1",
        "calls",
        &[("%SERVER_NAME%", "server_col"), ("Channel", "chan_col")],
    );
    let m = dial_event();
    assert!(matches_message(&c, &m));
    let stmt = build_insert(&c, "serverA", &m);
    assert_eq!(stmt.sql, "INSERT INTO calls (server_col,chan_col) VALUES (?,?)");
    assert_eq!(stmt.db_connection_id, "db1");
    assert_eq!(stmt.db_table, "calls");
    assert_eq!(
        stmt.params,
        vec![
            SqlValue::Bytes(b"serverA".to_vec()),
            SqlValue::Bytes(b"SIP/100".to_vec()),
        ]
    );
}

#[test]
fn missing_mapped_header_binds_null_and_keeps_column() {
    let c = clause("Dial", "db1", "calls", &[("Missing", "col_a"), ("Channel", "col_b")]);
    let m = dial_event();
    let stmt = build_insert(&c, "serverA", &m);
    assert_eq!(stmt.sql, "INSERT INTO calls (col_a,col_b) VALUES (?,?)");
    assert_eq!(
        stmt.params,
        vec![SqlValue::Null, SqlValue::Bytes(b"SIP/100".to_vec())]
    );
}

#[test]
fn each_matching_rule_gets_its_own_independent_insert() {
    let c1 = clause("Dial", "db1", "calls", &[("Channel", "chan")]);
    let c2 = clause("Hangup", "db1", "ends", &[("Channel", "chan")]);
    let c3 = clause("Dial", "db2", "audit", &[("%SERVER_NAME%", "origin")]);
    let clauses = vec![c1, c2, c3];
    let m = dial_event();
    let stmts = build_inserts(&clauses, "serverA", &m);
    assert_eq!(stmts.len(), 2);
    assert_eq!(stmts[0].sql, "INSERT INTO calls (chan) VALUES (?)");
    assert_eq!(stmts[0].params, vec![SqlValue::Bytes(b"SIP/100".to_vec())]);
    assert_eq!(stmts[1].db_connection_id, "db2");
    assert_eq!(stmts[1].sql, "INSERT INTO audit (origin) VALUES (?)");
    assert_eq!(stmts[1].params, vec![SqlValue::Bytes(b"serverA".to_vec())]);
}

#[test]
fn event_name_match_is_case_sensitive_and_exact() {
    let c = clause("dial", "db1", "calls", &[("Channel", "chan")]);
    let m = dial_event();
    assert!(!matches_message(&c, &m));
    assert!(build_inserts(&vec![c], "serverA", &m).is_empty());
}

#[test]
fn message_without_event_header_matches_nothing() {
    let (m, _) = read_message(b"Response: Success\r\n\r\n", 0, false);
    let c = clause("Dial", "db1", "calls", &[("Channel", "chan")]);
    assert!(!matches_message(&c, &m));
}

#[test]
fn empty_mapping_builds_degenerate_statement() {
    let c = clause("Dial", "db1", "calls", &[]);
    let m = dial_event();
    let stmt = build_insert(&c, "serverA", &m);
    assert_eq!(stmt.sql, "INSERT INTO calls () VALUES ()");
    assert!(stmt.params.is_empty());
}

#[test]
fn header_literally_named_like_the_token_still_binds_source() {
    // The reserved token is checked before any header lookup.
    let (m, _) = read_message(b"Event: Dial\r\n%SERVER_NAME%: spoofed\r\n\r\n", 0, false);
    let c = clause("Dial", "db1", "calls", &[("%SERVER_NAME%", "origin")]);
    let stmt = build_insert(&c, "serverA", &m);
    assert_eq!(stmt.params, vec![SqlValue::Bytes(b"serverA".to_vec())]);
}
