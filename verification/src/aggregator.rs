//! The single consumer of the event bus: for each routed event it
//! builds the inserts of the matching rules, plans the log rotation,
//! and renders the timestamped record line to append.
//!
//! The caller executes the inserts (a failure of one drops only that
//! write), opens the planned files, and appends the record; nothing
//! here blocks or touches a handle.

use vstd::prelude::*;
use vstd::utf8::encode_utf8;
use crate::clock::now_millis;
use crate::date::spec_file_name_for_millis;
use crate::json::{json_message, json_of_message};
use crate::message::{Message, MessageView};
use crate::rules::{InsertStatement, build_inserts, spec_inserts, views_of};
use crate::settings::EventClause;
use crate::sink::{SinkFileManager, opens_views, spec_rotation_opens};
use crate::text::{dec_rep, push_decimal, str_bytes};

verus! {

/// One log line: the source identity, the epoch millisecond stamp and
/// the JSON form of the message, separated by `::` and ended by the
/// protocol line terminator.
pub open spec fn spec_record(source: Seq<char>, millis: int, m: MessageView) -> Seq<u8> {
    encode_utf8(source) + encode_utf8("::"@) + dec_rep(millis as nat) + encode_utf8("::"@)
        + json_message(m) + encode_utf8("\r\n"@)
}

/// Renders the log line for one event.
pub fn log_record(source: &str, millis: i64, m: &Message) -> (r: Vec<u8>)
    requires
        millis >= 0,
    ensures
        r@ == spec_record(source@, millis as int, m@),
{
    let mut out = str_bytes(source);
    let mut part = str_bytes("::");
    out.append(&mut part);
    push_decimal(&mut out, millis as u64);
    let mut part = str_bytes("::");
    out.append(&mut part);
    let mut part = json_of_message(m);
    out.append(&mut part);
    let mut part = str_bytes("\r\n");
    out.append(&mut part);
    proof {
        assert(out@ =~= spec_record(source@, millis as int, m@));
    }
    out
}

/// Everything the caller must do for one event: execute these inserts,
/// open these keyed paths if a rotation is due, then append the record
/// under the key.
pub struct EventOutput {
    pub inserts: Vec<InsertStatement>,
    pub opens: Vec<(String, Vec<u8>)>,
    pub file_key: String,
    pub record: Vec<u8>,
}

/// The aggregator's state: the configured rules and the sink manager.
pub struct Aggregator {
    clauses: Vec<EventClause>,
    sink: SinkFileManager,
}

impl Aggregator {
    pub closed spec fn spec_clauses(&self) -> Seq<EventClause> {
        self.clauses@
    }

    pub closed spec fn spec_current_name(&self) -> Seq<u8> {
        self.sink.spec_current_name()
    }

    pub closed spec fn spec_target_directory(&self) -> Seq<char> {
        self.sink.spec_target_directory()
    }

    pub closed spec fn spec_per_server(&self) -> bool {
        self.sink.spec_per_server()
    }

    pub closed spec fn spec_server_names(&self) -> Seq<Seq<char>> {
        self.sink.spec_server_names()
    }

    /// An aggregator that has written nothing yet.
    pub fn new(
        clauses: Vec<EventClause>,
        target_directory: String,
        per_server: bool,
        server_names: Vec<String>,
    ) -> (r: Aggregator)
        ensures
            r.spec_clauses() == clauses@,
            r.spec_current_name() == Seq::<u8>::empty(),
            r.spec_target_directory() == target_directory@,
            r.spec_per_server() == per_server,
            r.spec_server_names() == crate::sink::names_views(server_names@),
    {
        Aggregator { clauses, sink: SinkFileManager::new(target_directory, per_server, server_names) }
    }

    /// Handles one routed event stamped `millis`: the inserts of every
    /// matching rule, the rotation the stamp's UTC day demands, and the
    /// record line for the file keyed to the event's source.
    pub fn handle_event(&mut self, source: &String, message: &Message, millis: i64) -> (r:
        EventOutput)
        requires
            message.wf(),
            millis >= 0,
        ensures
            views_of(r.inserts@) == spec_inserts(old(self).spec_clauses(), source@, message@),
            r.record@ == spec_record(source@, millis as int, message@),
            final(self).spec_clauses() == old(self).spec_clauses(),
            final(self).spec_current_name() == spec_file_name_for_millis(millis as int),
            final(self).spec_target_directory() == old(self).spec_target_directory(),
            final(self).spec_per_server() == old(self).spec_per_server(),
            final(self).spec_server_names() == old(self).spec_server_names(),
            opens_views(r.opens@) == if old(self).spec_current_name()
                == spec_file_name_for_millis(millis as int) {
                Seq::<(Seq<char>, Seq<u8>)>::empty()
            } else {
                spec_rotation_opens(
                    old(self).spec_target_directory(),
                    old(self).spec_per_server(),
                    old(self).spec_server_names(),
                    spec_file_name_for_millis(millis as int),
                )
            },
            r.file_key@ == if old(self).spec_per_server() {
                source@
            } else {
                "all"@
            },
    {
        let inserts = build_inserts(&self.clauses, source.as_str(), message);
        let plan = self.sink.plan_event(source, millis);
        let record = log_record(source.as_str(), millis, message);
        EventOutput { inserts, opens: plan.opens, file_key: plan.file_key, record }
    }

    /// Handles one routed event stamped with the current time, and
    /// returns the stamp used.
    pub fn handle_event_now(&mut self, source: &String, message: &Message) -> (r: (
        EventOutput,
        i64,
    ))
        requires
            message.wf(),
        ensures
            r.1 >= 0,
            views_of(r.0.inserts@) == spec_inserts(old(self).spec_clauses(), source@, message@),
            r.0.record@ == spec_record(source@, r.1 as int, message@),
            final(self).spec_clauses() == old(self).spec_clauses(),
            final(self).spec_current_name() == spec_file_name_for_millis(r.1 as int),
            final(self).spec_target_directory() == old(self).spec_target_directory(),
            final(self).spec_per_server() == old(self).spec_per_server(),
            final(self).spec_server_names() == old(self).spec_server_names(),
            opens_views(r.0.opens@) == if old(self).spec_current_name()
                == spec_file_name_for_millis(r.1 as int) {
                Seq::<(Seq<char>, Seq<u8>)>::empty()
            } else {
                spec_rotation_opens(
                    old(self).spec_target_directory(),
                    old(self).spec_per_server(),
                    old(self).spec_server_names(),
                    spec_file_name_for_millis(r.1 as int),
                )
            },
            r.0.file_key@ == if old(self).spec_per_server() {
                source@
            } else {
                "all"@
            },
    {
        let millis = now_millis();
        let out = self.handle_event(source, message, millis);
        (out, millis)
    }
}

} // verus!
