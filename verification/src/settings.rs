//! The configuration surface: upstream servers, database targets, and
//! the event-to-column mapping rules, together with their documented
//! example values and the start-up validity checks.
//!
//! Loading and writing the configuration file is the caller's concern;
//! the types here hold plain values only.

use vstd::prelude::*;
use vstd::string::{StringExecFns, StrSliceExecFns};

verus! {

/// Why the configuration could not be loaded or written.
#[derive(Debug)]
pub enum SettingsError {
    ParseError(String),
    WriteParseError(String),
    WriteError,
    ReadError,
}

impl SettingsError {
    /// The diagnostic line for this error.
    pub fn message(&self) -> (r: String)
        ensures
            r@ == match self {
                SettingsError::ParseError(m) => "Unable to parse settings file: "@ + m@,
                SettingsError::WriteParseError(m) => {
                    "Unable to write toml to file due to internal parsing error: "@ + m@
                },
                SettingsError::WriteError => "Unable to write to settings file."@,
                SettingsError::ReadError => "Unable to read from settings file."@,
            },
    {
        match self {
            SettingsError::ParseError(m) => {
                let mut s = String::from_str("Unable to parse settings file: ");
                s.append(m.as_str());
                s
            },
            SettingsError::WriteParseError(m) => {
                let mut s = String::from_str(
                    "Unable to write toml to file due to internal parsing error: ",
                );
                s.append(m.as_str());
                s
            },
            SettingsError::WriteError => String::from_str("Unable to write to settings file."),
            SettingsError::ReadError => String::from_str("Unable to read from settings file."),
        }
    }
}

/// General collector options: where log files go, and whether each
/// server gets a directory of its own.
pub struct Basic {
    pub target_directory: String,
    pub directory_per_server: bool,
}

/// One upstream management server to be monitored.
#[derive(Clone)]
pub struct Server {
    pub name: String,
    pub host: String,
    pub port: u16,
    pub username: String,
    pub password: String,
}

/// One database target, identified by a unique id.
pub struct DatabaseConnection {
    pub id: String,
    pub host: String,
    pub port: i32,
    pub user: String,
    pub password: String,
    pub database: String,
}

/// One insert rule: events whose name matches are written to the given
/// table of the given database target, with the source fields bound to
/// the destination columns in the declared order.
pub struct EventClause {
    pub event_name: String,
    pub db_connection_id: String,
    pub db_table: String,
    pub event_data_link: Vec<(String, String)>,
}

/// The whole configuration.
pub struct Settings {
    pub basic: Basic,
    pub servers: Vec<Server>,
    pub databases: Vec<DatabaseConnection>,
    pub event_clauses: Vec<EventClause>,
}

impl Default for Basic {
    /// The documented example: a shared `events` directory.
    fn default() -> (r: Basic)
        ensures
            r.target_directory@ == "events"@,
            r.directory_per_server == false,
    {
        Basic { target_directory: String::from_str("events"), directory_per_server: false }
    }
}

/// Whether `s` is the documented example server.
pub open spec fn is_example_server(s: Server) -> bool {
    s.name@ == "Example"@ && s.host@ == "127.0.0.1"@ && s.port == 5038 && s.username@ == "admin"@
        && s.password@ == "admin"@
}

impl Default for Server {
    fn default() -> (r: Server)
        ensures
            is_example_server(r),
    {
        Server {
            name: String::from_str("Example"),
            host: String::from_str("127.0.0.1"),
            port: 5038,
            username: String::from_str("admin"),
            password: String::from_str("admin"),
        }
    }
}

/// Whether `d` is the documented example database target.
pub open spec fn is_example_database(d: DatabaseConnection) -> bool {
    d.id@ == "example"@ && d.host@ == "example.com"@ && d.port == 3306 && d.user@ == "example"@
        && d.password@ == "example"@ && d.database@ == "example"@
}

impl Default for DatabaseConnection {
    fn default() -> (r: DatabaseConnection)
        ensures
            is_example_database(r),
    {
        DatabaseConnection {
            id: String::from_str("example"),
            host: String::from_str("example.com"),
            port: 3306,
            user: String::from_str("example"),
            password: String::from_str("example"),
            database: String::from_str("example"),
        }
    }
}

/// Whether `c` is the documented example mapping rule.
pub open spec fn is_example_clause(c: EventClause) -> bool {
    c.event_name@ == "example"@ && c.db_connection_id@ == "example"@ && c.db_table@ == "example"@
        && c.event_data_link@.len() == 2 && c.event_data_link@[0].0@ == "example_event_property"@
        && c.event_data_link@[0].1@ == "example_db_column"@ && c.event_data_link@[1].0@
        == "example_event_property_2"@ && c.event_data_link@[1].1@ == "example_db_column_2"@
}

impl Default for EventClause {
    fn default() -> (r: EventClause)
        ensures
            is_example_clause(r),
    {
        let mut link: Vec<(String, String)> = Vec::new();
        link.push(
            (String::from_str("example_event_property"), String::from_str("example_db_column")),
        );
        link.push(
            (
                String::from_str("example_event_property_2"),
                String::from_str("example_db_column_2"),
            ),
        );
        EventClause {
            event_name: String::from_str("example"),
            db_connection_id: String::from_str("example"),
            db_table: String::from_str("example"),
            event_data_link: link,
        }
    }
}

impl Default for Settings {
    /// The documented example configuration written on first run: one
    /// example server, two example database targets, two example rules.
    fn default() -> (r: Settings)
        ensures
            r.basic.target_directory@ == "events"@,
            r.basic.directory_per_server == false,
            r.servers@.len() == 1 && is_example_server(r.servers@[0]),
            r.databases@.len() == 2 && is_example_database(r.databases@[0]) && is_example_database(
                r.databases@[1],
            ),
            r.event_clauses@.len() == 2 && is_example_clause(r.event_clauses@[0])
                && is_example_clause(r.event_clauses@[1]),
    {
        let mut servers: Vec<Server> = Vec::new();
        servers.push(Server::default());
        let mut databases: Vec<DatabaseConnection> = Vec::new();
        databases.push(DatabaseConnection::default());
        databases.push(DatabaseConnection::default());
        let mut event_clauses: Vec<EventClause> = Vec::new();
        event_clauses.push(EventClause::default());
        event_clauses.push(EventClause::default());
        Settings { basic: Basic::default(), servers, databases, event_clauses }
    }
}

/// No two database targets share an id.
pub open spec fn unique_database_ids(dbs: Seq<DatabaseConnection>) -> bool {
    forall|i: int, j: int| 0 <= i < j < dbs.len() ==> dbs[i].id@ != dbs[j].id@
}

/// Whether some configured database target carries `id`.
pub open spec fn has_database(dbs: Seq<DatabaseConnection>, id: Seq<char>) -> bool {
    exists|j: int| 0 <= j < dbs.len() && dbs[j].id@ == id
}

/// Every rule names a configured database target.
pub open spec fn clauses_resolvable(
    clauses: Seq<EventClause>,
    dbs: Seq<DatabaseConnection>,
) -> bool {
    forall|i: int|
        0 <= i < clauses.len() ==> has_database(dbs, #[trigger] clauses[i].db_connection_id@)
}

impl Settings {
    /// The start-up validity of a configuration: a target directory is
    /// given, database ids are unique, and every rule's target id names
    /// a configured database.
    pub open spec fn spec_valid(&self) -> bool {
        self.basic.target_directory@.len() > 0 && unique_database_ids(self.databases@)
            && clauses_resolvable(self.event_clauses@, self.databases@)
    }

    /// Checks the start-up validity of this configuration.
    pub fn validate(&self) -> (r: bool)
        ensures
            r == self.spec_valid(),
    {
        if self.basic.target_directory.as_str().is_empty() {
            return false;
        }
        let n = self.databases.len();
        let mut i: usize = 0;
        while i < n
            invariant
                0 <= i <= n,
                n == self.databases@.len(),
                forall|a: int, b: int| 0 <= a < b < i ==> self.databases@[a].id@
                    != self.databases@[b].id@,
            decreases n - i,
        {
            let mut j: usize = 0;
            while j < i
                invariant
                    0 <= j <= i < n,
                    n == self.databases@.len(),
                    forall|b: int| 0 <= b < j ==> self.databases@[b].id@ != self.databases@[
                        i as int
                    ].id@,
                decreases i - j,
            {
                if self.databases[j].id.eq(&self.databases[i].id) {
                    assert(!unique_database_ids(self.databases@));
                    return false;
                }
                j = j + 1;
            }
            i = i + 1;
        }
        let m = self.event_clauses.len();
        let mut i: usize = 0;
        while i < m
            invariant
                0 <= i <= m,
                m == self.event_clauses@.len(),
                unique_database_ids(self.databases@),
                forall|a: int|
                    0 <= a < i ==> has_database(
                        self.databases@,
                        #[trigger] self.event_clauses@[a].db_connection_id@,
                    ),
            decreases m - i,
        {
            let mut j: usize = 0;
            let mut found = false;
            while j < self.databases.len()
                invariant
                    0 <= j <= self.databases@.len(),
                    m == self.event_clauses@.len(),
                    i < m,
                    found ==> has_database(
                        self.databases@,
                        self.event_clauses@[i as int].db_connection_id@,
                    ),
                    !found ==> forall|k: int| 0 <= k < j ==> self.databases@[k].id@
                        != self.event_clauses@[i as int].db_connection_id@,
                decreases self.databases@.len() - j,
            {
                if self.databases[j].id.eq(&self.event_clauses[i].db_connection_id) {
                    found = true;
                }
                j = j + 1;
            }
            if !found {
                proof {
                    if clauses_resolvable(self.event_clauses@, self.databases@) {
                        assert(has_database(
                            self.databases@,
                            self.event_clauses@[i as int].db_connection_id@,
                        ));
                        let k = choose|k: int|
                            0 <= k < self.databases@.len() && self.databases@[k].id@
                                == self.event_clauses@[i as int].db_connection_id@;
                        assert(self.databases@[k].id@ != self.event_clauses@[
                            i as int
                        ].db_connection_id@);
                    }
                }
                return false;
            }
            i = i + 1;
        }
        true
    }

    /// Strips one trailing slash from the target directory, as the
    /// collector does at start-up.
    pub fn normalize_target_directory(&mut self)
        ensures
            old(self).basic.target_directory@.len() > 0 && old(
                self,
            ).basic.target_directory@.last() == '/' ==> final(self).basic.target_directory@ == old(
                self,
            ).basic.target_directory@.drop_last(),
            !(old(self).basic.target_directory@.len() > 0 && old(
                self,
            ).basic.target_directory@.last() == '/') ==> final(self).basic.target_directory@
                == old(self).basic.target_directory@,
            final(self).basic.directory_per_server == old(self).basic.directory_per_server,
            final(self).servers@ == old(self).servers@,
            final(self).databases@ == old(self).databases@,
            final(self).event_clauses@ == old(self).event_clauses@,
    {
        let n = self.basic.target_directory.as_str().unicode_len();
        if n > 0 && self.basic.target_directory.as_str().get_char(n - 1) == '/' {
            let trimmed = self.basic.target_directory.as_str().substring_char(0, n - 1).to_owned();
            proof {
                assert(self.basic.target_directory@.subrange(0, n - 1) =~= self
                    .basic
                    .target_directory@
                    .drop_last());
            }
            self.basic.target_directory = trimmed;
        }
    }
}

} // verus!
