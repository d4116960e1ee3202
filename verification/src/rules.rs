//! The rule engine: evaluation of the configured mapping rules against
//! an incoming message, and the parameterized insert statement each
//! match produces.
//!
//! Only column and table names, which come from the trusted
//! configuration, are written into statement text; every value is bound
//! as a parameter.

use vstd::prelude::*;
use vstd::string::StringExecFns;
use vstd::utf8::encode_utf8;
use vstd::slice::slice_to_vec;
use crate::message::{Message, MessageView, lookup, event_key};
use crate::settings::EventClause;
use crate::text::{bytes_eq, str_bytes};

verus! {

/// The reserved source-field token that binds the originating server's
/// identity instead of a header value.
pub open spec fn server_name_token() -> Seq<char> {
    "%SERVER_NAME%"@
}

/// One value bound to a statement placeholder: the bytes of a string,
/// or the SQL null.
#[derive(Debug, PartialEq, Eq)]
pub enum SqlValue {
    Bytes(Vec<u8>),
    Null,
}

impl View for SqlValue {
    type V = Option<Seq<u8>>;

    open spec fn view(&self) -> Option<Seq<u8>> {
        match self {
            SqlValue::Bytes(v) => Some(v@),
            SqlValue::Null => None,
        }
    }
}

/// One parameterized insert, ready to be executed against the pooled
/// connection of its database target.
pub struct InsertStatement {
    pub db_connection_id: String,
    pub db_table: String,
    pub sql: String,
    pub params: Vec<SqlValue>,
}

/// The mathematical content of an [`InsertStatement`].
pub ghost struct InsertView {
    pub db_connection_id: Seq<char>,
    pub db_table: Seq<char>,
    pub sql: Seq<char>,
    pub params: Seq<Option<Seq<u8>>>,
}

impl View for InsertStatement {
    type V = InsertView;

    open spec fn view(&self) -> InsertView {
        InsertView {
            db_connection_id: self.db_connection_id@,
            db_table: self.db_table@,
            sql: self.sql@,
            params: Seq::new(self.params@.len(), |i: int| self.params@[i]@),
        }
    }
}

/// Whether a rule matches a message: the message's event header exists
/// and equals the rule's event name exactly.
pub open spec fn clause_matches(c: EventClause, m: MessageView) -> bool {
    lookup(m.headers, event_key()) == Some(encode_utf8(c.event_name@))
}

/// The destination column names of a rule, in declared order.
pub open spec fn col_views(links: Seq<(String, String)>) -> Seq<Seq<char>> {
    Seq::new(links.len(), |i: int| links[i].1@)
}

/// The columns joined by commas, in order.
pub open spec fn join_commas(cols: Seq<Seq<char>>) -> Seq<char>
    decreases cols.len(),
{
    if cols.len() == 0 {
        Seq::empty()
    } else if cols.len() == 1 {
        cols[0]
    } else {
        join_commas(cols.drop_last()) + ","@ + cols.last()
    }
}

/// `n` placeholders joined by commas.
pub open spec fn placeholders(n: int) -> Seq<char>
    decreases n,
{
    if n <= 0 {
        Seq::empty()
    } else if n == 1 {
        "?"@
    } else {
        placeholders(n - 1) + ",?"@
    }
}

/// The statement text a rule produces: one placeholder per mapped
/// column, in the mapping's declared order.
pub open spec fn spec_sql(table: Seq<char>, cols: Seq<Seq<char>>) -> Seq<char> {
    "INSERT INTO "@ + table + " ("@ + join_commas(cols) + ") VALUES ("@ + placeholders(
        cols.len() as int,
    ) + ")"@
}

/// The value bound for one source field: the server identity for the
/// reserved token, the header's trimmed value when present, and the SQL
/// null otherwise.
pub open spec fn spec_param(key: Seq<char>, m: MessageView, source: Seq<char>) -> Option<Seq<u8>> {
    if key == server_name_token() {
        Some(encode_utf8(source))
    } else {
        lookup(m.headers, encode_utf8(key))
    }
}

/// The parameter list of a rule, one value per mapped column, in
/// declared order.
pub open spec fn spec_params(
    links: Seq<(String, String)>,
    m: MessageView,
    source: Seq<char>,
) -> Seq<Option<Seq<u8>>> {
    Seq::new(links.len(), |i: int| spec_param(links[i].0@, m, source))
}

/// The insert a matching rule produces.
pub open spec fn insert_view_of(c: EventClause, source: Seq<char>, m: MessageView) -> InsertView {
    InsertView {
        db_connection_id: c.db_connection_id@,
        db_table: c.db_table@,
        sql: spec_sql(c.db_table@, col_views(c.event_data_link@)),
        params: spec_params(c.event_data_link@, m, source),
    }
}

/// The inserts of all matching rules, one per match, in rule order.
pub open spec fn spec_inserts(
    clauses: Seq<EventClause>,
    source: Seq<char>,
    m: MessageView,
) -> Seq<InsertView>
    decreases clauses.len(),
{
    if clauses.len() == 0 {
        Seq::empty()
    } else {
        spec_inserts(clauses.drop_last(), source, m) + if clause_matches(clauses.last(), m) {
            seq![insert_view_of(clauses.last(), source, m)]
        } else {
            Seq::empty()
        }
    }
}

/// The views of built statements, in order.
pub open spec fn views_of(stmts: Seq<InsertStatement>) -> Seq<InsertView> {
    Seq::new(stmts.len(), |i: int| stmts[i]@)
}

/// Whether this rule matches the message.
pub fn matches_message(c: &EventClause, m: &Message) -> (r: bool)
    requires
        m.wf(),
    ensures
        r == clause_matches(*c, m@),
{
    match m.get_header(str_bytes("Event").as_slice()) {
        Some(v) => bytes_eq(v.as_slice(), str_bytes(c.event_name.as_str()).as_slice()),
        None => false,
    }
}

/// Builds the statement text for a rule's table and columns.
fn build_sql(table: &str, links: &Vec<(String, String)>) -> (r: String)
    ensures
        r@ == spec_sql(table@, col_views(links@)),
{
    let n = links.len();
    let mut cols = String::new();
    let mut marks = String::new();
    let mut i: usize = 0;
    while i < n
        invariant
            0 <= i <= n,
            n == links@.len(),
            cols@ == join_commas(col_views(links@).take(i as int)),
            marks@ == placeholders(i as int),
        decreases n - i,
    {
        if i > 0 {
            cols.append(",");
            marks.append(",?");
        } else {
            marks.append("?");
        }
        cols.append(links[i].1.as_str());
        proof {
            let cv = col_views(links@);
            assert(cv.take(i + 1).drop_last() =~= cv.take(i as int));
            assert(cv.take(i + 1).last() == cv[i as int]);
            if i == 0 {
                assert(cols@ =~= join_commas(cv.take(i + 1)));
                assert(marks@ =~= placeholders(i + 1));
            }
        }
        i = i + 1;
    }
    proof {
        assert(col_views(links@).take(n as int) =~= col_views(links@));
    }
    let mut sql = String::from_str("INSERT INTO ");
    sql.append(table);
    sql.append(" (");
    sql.append(cols.as_str());
    sql.append(") VALUES (");
    sql.append(marks.as_str());
    sql.append(")");
    sql
}

/// Resolves one source field to the value it binds.
fn resolve_param(key: &String, m: &Message, source: &str) -> (r: SqlValue)
    requires
        m.wf(),
    ensures
        r@ == spec_param(key@, m@, source@),
{
    let token = String::from_str("%SERVER_NAME%");
    if key.eq(&token) {
        SqlValue::Bytes(str_bytes(source))
    } else {
        match m.get_header(str_bytes(key.as_str()).as_slice()) {
            Some(v) => SqlValue::Bytes(slice_to_vec(v.as_slice())),
            None => SqlValue::Null,
        }
    }
}

/// Builds the parameterized insert a matching rule produces for this
/// message and source identity.
pub fn build_insert(c: &EventClause, source: &str, m: &Message) -> (r: InsertStatement)
    requires
        m.wf(),
    ensures
        r@ == insert_view_of(*c, source@, m@),
{
    let n = c.event_data_link.len();
    let mut params: Vec<SqlValue> = Vec::new();
    let mut i: usize = 0;
    while i < n
        invariant
            0 <= i <= n,
            n == c.event_data_link@.len(),
            m.wf(),
            params@.len() == i,
            forall|k: int|
                0 <= k < i ==> params@[k]@ == spec_param(
                    #[trigger] c.event_data_link@[k].0@,
                    m@,
                    source@,
                ),
        decreases n - i,
    {
        let p = resolve_param(&c.event_data_link[i].0, m, source);
        params.push(p);
        i = i + 1;
    }
    let sql = build_sql(c.db_table.as_str(), &c.event_data_link);
    let r = InsertStatement {
        db_connection_id: c.db_connection_id.clone(),
        db_table: c.db_table.clone(),
        sql,
        params,
    };
    proof {
        assert(r@.params =~= spec_params(c.event_data_link@, m@, source@));
        assert(r@ == insert_view_of(*c, source@, m@)) by {
            assert(r@.params == insert_view_of(*c, source@, m@).params);
        }
    }
    r
}

/// Evaluates every rule against the message and returns the insert of
/// each matching rule, in rule order. Rules are independent: each match
/// contributes exactly its own statement, whatever the other rules do.
pub fn build_inserts(clauses: &Vec<EventClause>, source: &str, m: &Message) -> (r: Vec<
    InsertStatement,
>)
    requires
        m.wf(),
    ensures
        views_of(r@) == spec_inserts(clauses@, source@, m@),
{
    let n = clauses.len();
    let mut out: Vec<InsertStatement> = Vec::new();
    let mut i: usize = 0;
    while i < n
        invariant
            0 <= i <= n,
            n == clauses@.len(),
            m.wf(),
            views_of(out@) == spec_inserts(clauses@.take(i as int), source@, m@),
        decreases n - i,
    {
        let ghost pre = out@;
        if matches_message(&clauses[i], m) {
            let stmt = build_insert(&clauses[i], source, m);
            out.push(stmt);
            proof {
                assert(views_of(out@) =~= views_of(pre) + seq![
                    insert_view_of(clauses@[i as int], source@, m@),
                ]);
            }
        }
        proof {
            let t = clauses@.take(i + 1);
            assert(t.drop_last() =~= clauses@.take(i as int));
            assert(t.last() == clauses@[i as int]);
            if !clause_matches(clauses@[i as int], m@) {
                assert(views_of(out@) =~= spec_inserts(clauses@.take(i as int), source@, m@)
                    + Seq::<InsertView>::empty());
            }
        }
        i = i + 1;
    }
    proof {
        assert(clauses@.take(n as int) =~= clauses@);
    }
    out
}

/// Rule matching is independent per rule: the inserts of all rules are
/// exactly the inserts of the matching rules, each built from that rule
/// alone, in rule order.
pub proof fn lemma_rules_independent(clauses: Seq<EventClause>, source: Seq<char>, m: MessageView)
    ensures
        spec_inserts(clauses, source, m) == clauses.filter(
            |c: EventClause| clause_matches(c, m),
        ).map_values(|c: EventClause| insert_view_of(c, source, m)),
    decreases clauses.len(),
{
    let pred = |c: EventClause| clause_matches(c, m);
    let f = |c: EventClause| insert_view_of(c, source, m);
    reveal_with_fuel(Seq::filter, 2);
    if clauses.len() == 0 {
        assert(clauses.filter(pred).map_values(f) =~= Seq::<InsertView>::empty());
    } else {
        lemma_rules_independent(clauses.drop_last(), source, m);
        if pred(clauses.last()) {
            assert(clauses.filter(pred) == clauses.drop_last().filter(pred).push(clauses.last()));
            assert(clauses.filter(pred).map_values(f) =~= clauses.drop_last().filter(
                pred,
            ).map_values(f).push(f(clauses.last())));
            assert(spec_inserts(clauses, source, m) =~= spec_inserts(
                clauses.drop_last(),
                source,
                m,
            ).push(f(clauses.last())));
        } else {
            assert(clauses.filter(pred) == clauses.drop_last().filter(pred));
            assert(spec_inserts(clauses, source, m) =~= spec_inserts(
                clauses.drop_last(),
                source,
                m,
            ));
        }
    }
}

/// A missing mapped header always binds the SQL null: the column is
/// never omitted and no error arises.
pub proof fn lemma_missing_header_binds_null(
    c: EventClause,
    source: Seq<char>,
    m: MessageView,
    j: int,
)
    requires
        0 <= j < c.event_data_link@.len(),
        c.event_data_link@[j].0@ != server_name_token(),
        lookup(m.headers, encode_utf8(c.event_data_link@[j].0@)) is None,
    ensures
        insert_view_of(c, source, m).params.len() == c.event_data_link@.len(),
        insert_view_of(c, source, m).params[j] is None,
{
}

/// The reserved token always binds the originating server's identity.
pub proof fn lemma_reserved_token_binds_source(
    c: EventClause,
    source: Seq<char>,
    m: MessageView,
    j: int,
)
    requires
        0 <= j < c.event_data_link@.len(),
        c.event_data_link@[j].0@ == server_name_token(),
    ensures
        insert_view_of(c, source, m).params[j] == Some(encode_utf8(source)),
{
}

} // verus!
