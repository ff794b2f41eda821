//! Which records a query asks for.

use vstd::prelude::*;

use crate::cache::query::text_view;
use crate::recorder::names::TableNames;
use crate::recorder::template::{fill, filled, var_views};
use crate::text::{
    chars_of, concat, decimal_int, decimal_of_signed, join, join_strings, lower_text, push_text,
    to_lowercase, to_uppercase, upper_text, views,
};

verus! {

/// A number that the database cannot hold or that it should not hold.
#[derive(Debug, Clone, Copy, PartialEq, Eq, Structural)]
pub struct OutOfRange {
    pub value: i64,
}

/// A value for the database.
#[derive(Debug, PartialEq, Eq)]
pub enum SqlValue {
    Null,
    Integer(i64),
    Text(String),
}

/// The mathematical content of an [`SqlValue`].
pub enum SqlView {
    Null,
    Integer(i64),
    Text(Seq<char>),
}

impl View for SqlValue {
    type V = SqlView;

    open spec fn view(&self) -> SqlView {
        match self {
            SqlValue::Null => SqlView::Null,
            SqlValue::Integer(v) => SqlView::Integer(*v),
            SqlValue::Text(t) => SqlView::Text(t@),
        }
    }
}

pub open spec fn sql_views(v: Seq<SqlValue>) -> Seq<SqlView> {
    Seq::new(v.len(), |i: int| v[i]@)
}

/// Which records are asked for by their outcome.
#[derive(Debug, Clone, Copy, PartialEq, Eq, Structural)]
pub enum QueryRecordStatus {
    All,
    Error,
    HasResponse,
    NoResponse,
}

/// Which records are asked for.
#[derive(Debug, PartialEq, Eq)]
pub struct QueryRecordFilter {
    pub matcher_tag: Option<String>,
    pub qname: Option<String>,
    pub qtype: Option<String>,
    pub client_ip: Option<String>,
    pub rcode: Option<String>,
    pub status: QueryRecordStatus,
}

/// The records with a step of a matcher that matched.
pub const MATCHER_CLAUSE: &'static str = "{alias}.id IN (
                SELECT s.record_id
                FROM {steps} s
                WHERE s.kind = 'matcher'
                  AND s.outcome IN (
                      'matched', 'always_true_matched', 'always_false_matched'
                  )
                  AND s.tag = ?
            )";

/// The records with a question whose name is like a pattern.
pub const QNAME_CLAUSE: &'static str = "{alias}.id IN (
                SELECT q.record_id
                FROM {questions} q
                WHERE q.name_lc LIKE ? ESCAPE '\\'
            )";

/// The records with a question of a type.
pub const QTYPE_CLAUSE: &'static str = "{alias}.id IN (
                SELECT q.record_id
                FROM {questions} q
                WHERE q.qtype = ?
            )";

/// The records of clients like a pattern.
pub const CLIENT_CLAUSE: &'static str = "LOWER({alias}.client_ip) LIKE LOWER(?) ESCAPE '\\'";

/// The records with a response code.
pub const RCODE_CLAUSE: &'static str = "{alias}.rcode IS NOT NULL AND UPPER({alias}.rcode) = UPPER(?)";

/// The records without an error and without a response.
pub const NO_RESPONSE_CLAUSE: &'static str = "{alias}.error IS NULL AND {alias}.has_response = 0";

pub open spec fn as_signed(v: u64) -> Option<i64> {
    if v <= i64::MAX {
        Some(v as i64)
    } else {
        None
    }
}

/// A number for the database.
pub fn as_i64(value: u64) -> (r: Result<i64, OutOfRange>)
    ensures
        match r {
            Ok(v) => as_signed(value) == Some(v),
            Err(e) => as_signed(value) is None && e.value == i64::MAX,
        },
{
    if value <= i64::MAX as u64 {
        Ok(value as i64)
    } else {
        Err(OutOfRange { value: i64::MAX })
    }
}

/// The pattern of a text anywhere in another: what has a meaning in patterns is marked.
pub open spec fn escaped(s: Seq<char>) -> Seq<char>
    decreases s.len(),
{
    if s.len() == 0 {
        Seq::empty()
    } else {
        let init = escaped(s.drop_last());
        let c = s.last();
        if c == '\\' || c == '%' || c == '_' {
            init.push('\\').push(c)
        } else {
            init.push(c)
        }
    }
}

pub open spec fn pattern_of(s: Seq<char>) -> Seq<char> {
    seq!['%'] + escaped(s) + seq!['%']
}

/// A pattern for texts that contain the given one.
pub fn like_pattern(raw: &str) -> (r: String)
    ensures
        r@ == pattern_of(raw@),
{
    let v = chars_of(raw);
    let mut out = String::new();
    out.push('%');
    let mut i: usize = 0;
    assert(escaped(v@.take(0)) =~= Seq::empty());
    assert(out@ =~= seq!['%'] + escaped(v@.take(0)));
    while i < v.len()
        invariant
            i <= v@.len(),
            out@ == seq!['%'] + escaped(v@.take(i as int)),
        decreases v@.len() - i,
    {
        let c: char = v[i];
        assert(v@.take(i + 1).drop_last() =~= v@.take(i as int));
        if c == '\\' || c == '%' || c == '_' {
            out.push('\\');
        }
        out.push(c);
        i = i + 1;
        assert(out@ =~= seq!['%'] + escaped(v@.take(i as int)));
    }
    assert(v@.take(i as int) =~= v@);
    out.push('%');
    assert(out@ =~= pattern_of(raw@));
    out
}

/// Conditions and the values for their places, in order.
#[derive(Debug, PartialEq, Eq)]
pub struct Clauses {
    pub texts: Vec<String>,
    pub params: Vec<SqlValue>,
}

/// The mathematical content of [`Clauses`].
pub struct ClausesView {
    pub texts: Seq<Seq<char>>,
    pub params: Seq<SqlView>,
}

impl View for Clauses {
    type V = ClausesView;

    open spec fn view(&self) -> ClausesView {
        ClausesView { texts: views(self.texts@), params: sql_views(self.params@) }
    }
}

/// One more condition, with the value for its place where it has one.
pub open spec fn with_clause(c: ClausesView, text: Seq<char>, param: Option<SqlView>) -> ClausesView {
    ClausesView {
        texts: c.texts.push(text),
        params: match param {
            Some(p) => c.params.push(p),
            None => c.params,
        },
    }
}

impl Clauses {
    fn push(&mut self, text: String, param: Option<SqlValue>)
        ensures
            final(self)@ == with_clause(
                old(self)@,
                text@,
                match param {
                    Some(p) => Some(p@),
                    None => None,
                },
            ),
    {
        self.texts.push(text);
        assert(views(self.texts@) =~= views(old(self).texts@).push(text@));
        if let Some(p) = param {
            self.params.push(p);
            assert(sql_views(self.params@) =~= sql_views(old(self).params@).push(p@));
        }
    }
}

/// The names in the conditions.
pub open spec fn clause_vars(alias: Seq<char>, tables: TableNames) -> Seq<(Seq<char>, Seq<char>)> {
    seq![("alias"@, alias), ("steps"@, tables.steps@), ("questions"@, tables.questions@)]
}

/// A condition on the time of a record.
pub open spec fn time_stage(
    c: ClausesView,
    alias: Seq<char>,
    bound: Option<u64>,
    op: Seq<char>,
) -> ClausesView {
    match bound {
        Some(v) => with_clause(c, alias + op, Some(SqlView::Integer(v as i64))),
        None => c,
    }
}

/// A condition with a text.
pub open spec fn text_stage(
    c: ClausesView,
    vars: Seq<(Seq<char>, Seq<char>)>,
    template: Seq<char>,
    param: Option<Seq<char>>,
) -> ClausesView {
    match param {
        Some(p) => with_clause(c, filled(template, vars), Some(SqlView::Text(p))),
        None => c,
    }
}

pub open spec fn map_text(t: Option<String>, f: spec_fn(Seq<char>) -> Seq<char>) -> Option<
    Seq<char>,
> {
    match t {
        Some(t) => Some(f(t@)),
        None => None,
    }
}

/// The conditions of a filter.
pub open spec fn filter_clauses(
    alias: Seq<char>,
    tables: TableNames,
    since_ms: Option<u64>,
    until_ms: Option<u64>,
    f: QueryRecordFilter,
) -> ClausesView {
    let vars = clause_vars(alias, tables);
    let c = ClausesView { texts: Seq::empty(), params: Seq::empty() };
    let c = time_stage(c, alias, since_ms, ".created_at_ms >= ?"@);
    let c = time_stage(c, alias, until_ms, ".created_at_ms <= ?"@);
    let c = text_stage(c, vars, MATCHER_CLAUSE@, text_view(f.matcher_tag));
    let c = text_stage(
        c,
        vars,
        QNAME_CLAUSE@,
        map_text(f.qname, |s: Seq<char>| pattern_of(lower_text(s))),
    );
    let c = text_stage(c, vars, QTYPE_CLAUSE@, map_text(f.qtype, |s: Seq<char>| upper_text(s)));
    let c = text_stage(c, vars, CLIENT_CLAUSE@, map_text(f.client_ip, |s: Seq<char>| pattern_of(s)));
    let c = text_stage(c, vars, RCODE_CLAUSE@, text_view(f.rcode));
    match f.status {
        QueryRecordStatus::All => c,
        QueryRecordStatus::Error => with_clause(c, alias + ".error IS NOT NULL"@, None),
        QueryRecordStatus::HasResponse => with_clause(c, alias + ".has_response = 1"@, None),
        QueryRecordStatus::NoResponse => with_clause(c, filled(NO_RESPONSE_CLAUSE@, vars), None),
    }
}

fn push_time(c: &mut Clauses, alias: &str, bound: Option<u64>, op: &str) -> (r: Result<(), OutOfRange>)
    ensures
        match r {
            Ok(_) => (bound matches Some(v) ==> v <= i64::MAX) && final(c)@ == time_stage(
                old(c)@,
                alias@,
                bound,
                op@,
            ),
            Err(e) => bound is Some && bound->0 > i64::MAX && e.value == i64::MAX,
        },
{
    if let Some(v) = bound {
        let value: i64 = match as_i64(v) {
            Ok(n) => n,
            Err(e) => return Err(e),
        };
        c.push(concat(alias, op), Some(SqlValue::Integer(value)));
    }
    Ok(())
}

fn push_clause(c: &mut Clauses, vars: &Vec<(&str, &str)>, template: &str, param: Option<String>)
    ensures
        final(c)@ == text_stage(old(c)@, var_views(vars@), template@, text_view(param)),
{
    if let Some(p) = param {
        c.push(fill(template, vars), Some(SqlValue::Text(p)));
    }
}

/// The conditions of a filter, and the values for their places. The error is a time
/// that the database cannot hold.
pub fn record_filter_clauses(
    alias: &str,
    tables: &TableNames,
    since_ms: Option<u64>,
    until_ms: Option<u64>,
    filter: &QueryRecordFilter,
) -> (r: Result<Clauses, OutOfRange>)
    ensures
        ({
            let fits = (since_ms matches Some(v) ==> v <= i64::MAX) && (until_ms matches Some(v)
                ==> v <= i64::MAX);
            match r {
                Ok(c) => {
                    &&& fits
                    &&& c@ == filter_clauses(alias@, *tables, since_ms, until_ms, *filter)
                    &&& filter.status == QueryRecordStatus::Error ==> c@.texts.last() == alias@
                        + ".error IS NOT NULL"@
                    &&& filter.status == QueryRecordStatus::HasResponse ==> c@.texts.last()
                        == alias@ + ".has_response = 1"@
                },
                Err(e) => !fits && e.value == i64::MAX,
            }
        }),
{
    let mut c = Clauses { texts: Vec::new(), params: Vec::new() };
    assert(c@.texts =~= Seq::empty());
    assert(c@.params =~= Seq::empty());
    let mut vars: Vec<(&str, &str)> = Vec::new();
    vars.push(("alias", alias));
    vars.push(("steps", tables.steps.as_str()));
    vars.push(("questions", tables.questions.as_str()));
    assert(var_views(vars@) =~= clause_vars(alias@, *tables));
    if let Err(e) = push_time(&mut c, alias, since_ms, ".created_at_ms >= ?") {
        return Err(e);
    }
    if let Err(e) = push_time(&mut c, alias, until_ms, ".created_at_ms <= ?") {
        return Err(e);
    }
    let matcher_tag = match &filter.matcher_tag {
        Some(t) => Some(t.clone()),
        None => None,
    };
    push_clause(&mut c, &vars, MATCHER_CLAUSE, matcher_tag);
    let qname = match &filter.qname {
        Some(t) => Some(like_pattern(to_lowercase(t.as_str()).as_str())),
        None => None,
    };
    push_clause(&mut c, &vars, QNAME_CLAUSE, qname);
    let qtype = match &filter.qtype {
        Some(t) => Some(to_uppercase(t.as_str())),
        None => None,
    };
    push_clause(&mut c, &vars, QTYPE_CLAUSE, qtype);
    let client_ip = match &filter.client_ip {
        Some(t) => Some(like_pattern(t.as_str())),
        None => None,
    };
    push_clause(&mut c, &vars, CLIENT_CLAUSE, client_ip);
    let rcode = match &filter.rcode {
        Some(t) => Some(t.clone()),
        None => None,
    };
    push_clause(&mut c, &vars, RCODE_CLAUSE, rcode);
    match filter.status {
        QueryRecordStatus::All => {},
        QueryRecordStatus::Error => {
            c.push(concat(alias, ".error IS NOT NULL"), None);
        },
        QueryRecordStatus::HasResponse => {
            c.push(concat(alias, ".has_response = 1"), None);
        },
        QueryRecordStatus::NoResponse => {
            c.push(fill(NO_RESPONSE_CLAUSE, &vars), None);
        },
    }
    Ok(c)
}

/// Conditions put together: all must hold. None holds always.
pub open spec fn joined(texts: Seq<Seq<char>>) -> Seq<char> {
    if texts.len() == 0 {
        "1 = 1"@
    } else {
        join(texts, " AND "@)
    }
}

/// Conditions that hold all together.
pub fn join_clauses(clauses: &Vec<String>) -> (r: String)
    ensures
        r@ == joined(views(clauses@)),
{
    if clauses.len() == 0 {
        "1 = 1".to_owned()
    } else {
        join_strings(clauses, " AND ")
    }
}

/// The place of a record in a list.
#[derive(Debug, Clone, Copy, PartialEq, Eq, Structural)]
pub struct ListCursor {
    pub created_at_ms: i64,
    pub id: i64,
}

pub open spec fn cursor_text(c: ListCursor) -> Seq<char> {
    decimal_int(c.created_at_ms as int) + ":"@ + decimal_int(c.id as int)
}

/// A cursor as a text.
pub fn encode_cursor(cursor: ListCursor) -> (r: String)
    ensures
        r@ == cursor_text(cursor),
{
    let mut out = decimal_of_signed(cursor.created_at_ms);
    push_text(&mut out, ":");
    push_text(&mut out, decimal_of_signed(cursor.id).as_str());
    out
}

/// The plugins that statistics are asked for.
#[derive(Debug, Clone, Copy, PartialEq, Eq, Structural)]
pub enum PluginStatsKind {
    Matcher,
    Executor,
    Builtin,
    All,
}

pub open spec fn kind_text(k: PluginStatsKind) -> Seq<char> {
    match k {
        PluginStatsKind::Matcher => "matcher"@,
        PluginStatsKind::Executor => "executor"@,
        PluginStatsKind::Builtin => "builtin"@,
        PluginStatsKind::All => "all"@,
    }
}

impl PluginStatsKind {
    /// The kind as the database has it.
    pub fn sql_value(self) -> (r: &'static str)
        ensures
            r@ == kind_text(self),
    {
        match self {
            PluginStatsKind::Matcher => "matcher",
            PluginStatsKind::Executor => "executor",
            PluginStatsKind::Builtin => "builtin",
            PluginStatsKind::All => "all",
        }
    }
}

/// The text that a pattern matches, where nothing in it has a meaning of its own.
pub open spec fn unescaped(p: Seq<char>) -> Seq<char>
    decreases p.len(),
{
    if p.len() == 0 {
        Seq::empty()
    } else if p[0] == '\\' && p.len() >= 2 {
        seq![p[1]] + unescaped(p.skip(2))
    } else {
        seq![p[0]] + unescaped(p.skip(1))
    }
}

/// Reading a marked text and something behind it.
proof fn lemma_unescaped_append(s: Seq<char>, rest: Seq<char>)
    ensures
        unescaped(escaped(s) + rest) == s + unescaped(rest),
    decreases s.len(),
{
    if s.len() == 0 {
        assert(escaped(s) + rest =~= rest);
        assert(s + unescaped(rest) =~= unescaped(rest));
    } else {
        let c = s.last();
        let init = s.drop_last();
        let marked = c == '\\' || c == '%' || c == '_';
        let tail = if marked {
            seq!['\\', c] + rest
        } else {
            seq![c] + rest
        };
        assert(escaped(s) + rest =~= escaped(init) + tail);
        lemma_unescaped_append(init, tail);
        if marked {
            assert(tail.skip(2) =~= rest);
        } else {
            assert(tail.skip(1) =~= rest);
        }
        assert(unescaped(tail) =~= seq![c] + unescaped(rest));
        assert(init + (seq![c] + unescaped(rest)) =~= s + unescaped(rest));
    }
}

/// A pattern stands for the very text that it was made of: no character of it has a
/// meaning of its own.
pub proof fn law_pattern_is_literal(s: Seq<char>)
    ensures
        unescaped(escaped(s)) == s,
{
    lemma_unescaped_append(s, Seq::empty());
    assert(escaped(s) + Seq::<char>::empty() =~= escaped(s));
    assert(s + Seq::<char>::empty() =~= s);
}

} // verus!
