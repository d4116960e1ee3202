use ami_logger::settings::{
    Basic, DatabaseConnection, EventClause, Server, Settings, SettingsError,
};

#[test]
fn defaults_are_the_documented_example() {
    let s = Settings::default();
    assert_eq!(s.basic.target_directory, "events");
    assert!(!s.basic.directory_per_server);
    assert_eq!(s.servers.len(), 1);
    assert_eq!(s.servers[0].name, "Example");
    assert_eq!(s.servers[0].host, "127.0.0.1");
    assert_eq!(s.servers[0].port, 5038);
    assert_eq!(s.servers[0].username, "admin");
    assert_eq!(s.servers[0].password, "admin");
    assert_eq!(s.databases.len(), 2);
    assert_eq!(s.databases[0].id, "example");
    assert_eq!(s.databases[0].host, "example.com");
    assert_eq!(s.databases[0].port, 3306);
    assert_eq!(s.databases[0].database, "example");
    assert_eq!(s.event_clauses.len(), 2);
    assert_eq!(s.event_clauses[0].event_name, "example");
    assert_eq!(s.event_clauses[0].db_table, "example");
    assert_eq!(
        s.event_clauses[0].event_data_link,
        vec![
            (
                String::from("example_event_property"),
                String::from("example_db_column")
            ),
            (
                String::from("example_event_property_2"),
                String::from("example_db_column_2")
            ),
        ]
    );
}

fn minimal_valid() -> Settings {
    Settings {
        basic: Basic {
            target_directory: String::from("logs"),
            directory_per_server: false,
        },
        servers: vec![Server::default()],
        databases: vec![DatabaseConnection::default()],
        event_clauses: vec![EventClause::default()],
    }
}

#[test]
fn a_consistent_configuration_validates() {
    assert!(minimal_valid().validate());
}

#[test]
fn duplicate_database_ids_are_rejected() {
    let mut s = minimal_valid();
    s.databases.push(DatabaseConnection::default());
    assert!(!s.validate());
}

#[test]
fn a_rule_naming_an_unknown_database_is_rejected() {
    let mut s = minimal_valid();
    s.event_clauses[0].db_connection_id = String::from("nowhere");
    assert!(!s.validate());
}

#[test]
fn an_empty_target_directory_is_rejected() {
    let mut s = minimal_valid();
    s.basic.target_directory = String::new();
    assert!(!s.validate());
}

#[test]
fn the_example_configuration_is_itself_invalid() {
    // The documented example holds two database targets with one id.
    assert!(!Settings::default().validate());
}

#[test]
fn one_trailing_slash_is_stripped() {
    let mut s = minimal_valid();
    s.basic.target_directory = String::from("logs/");
    s.normalize_target_directory();
    assert_eq!(s.basic.target_directory, "logs");

    s.basic.target_directory = String::from("logs//");
    s.normalize_target_directory();
    assert_eq!(s.basic.target_directory, "logs/");

    s.basic.target_directory = String::from("plain");
    s.normalize_target_directory();
    assert_eq!(s.basic.target_directory, "plain");
}

#[test]
fn error_messages_name_the_failure() {
    assert_eq!(
        SettingsError::ParseError(String::from("bad key")).message(),
        "Unable to parse settings file: bad key"
    );
    assert_eq!(
        SettingsError::WriteParseError(String::from("oops")).message(),
        "Unable to write toml to file due to internal parsing error: oops"
    );
    assert_eq!(
        SettingsError::WriteError.message(),
        "Unable to write to settings file."
    );
    assert_eq!(
        SettingsError::ReadError.message(),
        "Unable to read from settings file."
    );
}
