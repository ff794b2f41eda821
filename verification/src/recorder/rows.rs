//! Records as rows of the database.

use vstd::prelude::*;

use crate::cache::query::text_view;
use crate::recorder::filter::{as_i64, sql_views, OutOfRange, SqlValue, SqlView};
use crate::text::{lower_text, to_lowercase, to_uppercase, upper_text};

verus! {

/// The number of columns of a record.
pub const RECORD_COLUMNS: usize = 27;

/// A record. The columns whose names end in `json` hold JSON texts.
#[derive(Debug, PartialEq, Eq)]
pub struct RecordRow {
    pub id: i64,
    pub created_at_ms: i64,
    pub elapsed_ms: u64,
    pub request_id: u16,
    pub client_ip: String,
    pub questions_json: String,
    pub req_rd: bool,
    pub req_cd: bool,
    pub req_ad: bool,
    pub req_opcode: String,
    pub req_edns_json: Option<String>,
    pub error: Option<String>,
    pub has_response: bool,
    pub rcode: Option<String>,
    pub resp_aa: Option<bool>,
    pub resp_tc: Option<bool>,
    pub resp_ra: Option<bool>,
    pub resp_ad: Option<bool>,
    pub resp_cd: Option<bool>,
    pub answer_count: u32,
    pub authority_count: u32,
    pub additional_count: u32,
    pub answers_json: String,
    pub authorities_json: String,
    pub additionals_json: String,
    pub signature_json: String,
    pub resp_edns_json: Option<String>,
}

/// The mathematical content of a [`RecordRow`].
pub struct StoredView {
    pub id: i64,
    pub created_at_ms: i64,
    pub elapsed_ms: u64,
    pub request_id: u16,
    pub client_ip: Seq<char>,
    pub questions_json: Seq<char>,
    pub req_rd: bool,
    pub req_cd: bool,
    pub req_ad: bool,
    pub req_opcode: Seq<char>,
    pub req_edns_json: Option<Seq<char>>,
    pub error: Option<Seq<char>>,
    pub has_response: bool,
    pub rcode: Option<Seq<char>>,
    pub resp_aa: Option<bool>,
    pub resp_tc: Option<bool>,
    pub resp_ra: Option<bool>,
    pub resp_ad: Option<bool>,
    pub resp_cd: Option<bool>,
    pub answer_count: u32,
    pub authority_count: u32,
    pub additional_count: u32,
    pub answers_json: Seq<char>,
    pub authorities_json: Seq<char>,
    pub additionals_json: Seq<char>,
    pub signature_json: Seq<char>,
    pub resp_edns_json: Option<Seq<char>>,
}

impl View for RecordRow {
    type V = StoredView;

    open spec fn view(&self) -> StoredView {
        StoredView {
            id: self.id,
            created_at_ms: self.created_at_ms,
            elapsed_ms: self.elapsed_ms,
            request_id: self.request_id,
            client_ip: self.client_ip@,
            questions_json: self.questions_json@,
            req_rd: self.req_rd,
            req_cd: self.req_cd,
            req_ad: self.req_ad,
            req_opcode: self.req_opcode@,
            req_edns_json: text_view(self.req_edns_json),
            error: text_view(self.error),
            has_response: self.has_response,
            rcode: text_view(self.rcode),
            resp_aa: self.resp_aa,
            resp_tc: self.resp_tc,
            resp_ra: self.resp_ra,
            resp_ad: self.resp_ad,
            resp_cd: self.resp_cd,
            answer_count: self.answer_count,
            authority_count: self.authority_count,
            additional_count: self.additional_count,
            answers_json: self.answers_json@,
            authorities_json: self.authorities_json@,
            additionals_json: self.additionals_json@,
            signature_json: self.signature_json@,
            resp_edns_json: text_view(self.resp_edns_json),
        }
    }
}

pub open spec fn bit(b: bool) -> i64 {
    if b {
        1
    } else {
        0
    }
}

/// A flag as the database has it.
pub fn bool_to_i64(value: bool) -> (r: i64)
    ensures
        r == bit(value),
{
    if value {
        1
    } else {
        0
    }
}

pub open spec fn bool_value(b: bool) -> SqlView {
    SqlView::Integer(bit(b))
}

pub open spec fn optional_bool(b: Option<bool>) -> SqlView {
    match b {
        Some(b) => SqlView::Integer(bit(b)),
        None => SqlView::Null,
    }
}

pub open spec fn optional_text(t: Option<Seq<char>>) -> SqlView {
    match t {
        Some(t) => SqlView::Text(t),
        None => SqlView::Null,
    }
}

/// The columns of a record.
pub open spec fn columns(r: StoredView) -> Seq<SqlView> {
    seq![
        SqlView::Integer(r.id),
        SqlView::Integer(r.created_at_ms),
        SqlView::Integer(r.elapsed_ms as i64),
        SqlView::Integer(r.request_id as i64),
        SqlView::Text(r.client_ip),
        SqlView::Text(r.questions_json),
        bool_value(r.req_rd),
        bool_value(r.req_cd),
        bool_value(r.req_ad),
        SqlView::Text(r.req_opcode),
        optional_text(r.req_edns_json),
        optional_text(r.error),
        bool_value(r.has_response),
        optional_text(r.rcode),
        optional_bool(r.resp_aa),
        optional_bool(r.resp_tc),
        optional_bool(r.resp_ra),
        optional_bool(r.resp_ad),
        optional_bool(r.resp_cd),
        SqlView::Integer(r.answer_count as i64),
        SqlView::Integer(r.authority_count as i64),
        SqlView::Integer(r.additional_count as i64),
        SqlView::Text(r.answers_json),
        SqlView::Text(r.authorities_json),
        SqlView::Text(r.additionals_json),
        SqlView::Text(r.signature_json),
        optional_text(r.resp_edns_json),
    ]
}

fn bool_sql(b: bool) -> (r: SqlValue)
    ensures
        r@ == bool_value(b),
{
    SqlValue::Integer(bool_to_i64(b))
}

fn optional_bool_sql(b: Option<bool>) -> (r: SqlValue)
    ensures
        r@ == optional_bool(b),
{
    match b {
        Some(b) => SqlValue::Integer(bool_to_i64(b)),
        None => SqlValue::Null,
    }
}

fn optional_text_sql(t: &Option<String>) -> (r: SqlValue)
    ensures
        r@ == optional_text(text_view(*t)),
{
    match t {
        Some(t) => SqlValue::Text(t.clone()),
        None => SqlValue::Null,
    }
}

/// The values to insert for a record: all columns but the id, which the database gives.
pub fn insert_values(record: &RecordRow) -> (r: Result<Vec<SqlValue>, OutOfRange>)
    ensures
        match r {
            Ok(v) => record.elapsed_ms <= i64::MAX && sql_views(v@) == columns(record@).skip(1),
            Err(e) => record.elapsed_ms > i64::MAX && e.value == i64::MAX,
        },
{
    let elapsed: i64 = match as_i64(record.elapsed_ms) {
        Ok(n) => n,
        Err(e) => return Err(e),
    };
    let mut v: Vec<SqlValue> = Vec::new();
    v.push(SqlValue::Integer(record.created_at_ms));
    v.push(SqlValue::Integer(elapsed));
    v.push(SqlValue::Integer(record.request_id as i64));
    v.push(SqlValue::Text(record.client_ip.clone()));
    v.push(SqlValue::Text(record.questions_json.clone()));
    v.push(bool_sql(record.req_rd));
    v.push(bool_sql(record.req_cd));
    v.push(bool_sql(record.req_ad));
    v.push(SqlValue::Text(record.req_opcode.clone()));
    v.push(optional_text_sql(&record.req_edns_json));
    v.push(optional_text_sql(&record.error));
    v.push(bool_sql(record.has_response));
    v.push(optional_text_sql(&record.rcode));
    v.push(optional_bool_sql(record.resp_aa));
    v.push(optional_bool_sql(record.resp_tc));
    v.push(optional_bool_sql(record.resp_ra));
    v.push(optional_bool_sql(record.resp_ad));
    v.push(optional_bool_sql(record.resp_cd));
    v.push(SqlValue::Integer(record.answer_count as i64));
    v.push(SqlValue::Integer(record.authority_count as i64));
    v.push(SqlValue::Integer(record.additional_count as i64));
    v.push(SqlValue::Text(record.answers_json.clone()));
    v.push(SqlValue::Text(record.authorities_json.clone()));
    v.push(SqlValue::Text(record.additionals_json.clone()));
    v.push(SqlValue::Text(record.signature_json.clone()));
    v.push(optional_text_sql(&record.resp_edns_json));
    assert(sql_views(v@) =~= columns(record@).skip(1));
    Ok(v)
}

/// What a column holds.
#[derive(Debug, Clone, Copy, PartialEq, Eq, Structural)]
pub enum ColumnKind {
    Integer,
    NonNegative,
    SixteenBits,
    ThirtyTwoBits,
    Text,
    OptionalText,
    Json,
    OptionalJson,
    Bool,
    OptionalBool,
}

/// What the columns of a record hold.
pub open spec fn kind_of(i: int) -> ColumnKind {
    if i == 0 || i == 1 {
        ColumnKind::Integer
    } else if i == 2 {
        ColumnKind::NonNegative
    } else if i == 3 {
        ColumnKind::SixteenBits
    } else if i == 4 || i == 9 {
        ColumnKind::Text
    } else if i == 5 || 22 <= i <= 25 {
        ColumnKind::Json
    } else if 6 <= i <= 8 || i == 12 {
        ColumnKind::Bool
    } else if i == 11 || i == 13 {
        ColumnKind::OptionalText
    } else if i == 10 || i == 26 {
        ColumnKind::OptionalJson
    } else if 14 <= i <= 18 {
        ColumnKind::OptionalBool
    } else {
        ColumnKind::ThirtyTwoBits
    }
}

fn column_kind(i: usize) -> (r: ColumnKind)
    ensures
        r == kind_of(i as int),
{
    if i == 0 || i == 1 {
        ColumnKind::Integer
    } else if i == 2 {
        ColumnKind::NonNegative
    } else if i == 3 {
        ColumnKind::SixteenBits
    } else if i == 4 || i == 9 {
        ColumnKind::Text
    } else if i == 5 || (22 <= i && i <= 25) {
        ColumnKind::Json
    } else if (6 <= i && i <= 8) || i == 12 {
        ColumnKind::Bool
    } else if i == 11 || i == 13 {
        ColumnKind::OptionalText
    } else if i == 10 || i == 26 {
        ColumnKind::OptionalJson
    } else if 14 <= i && i <= 18 {
        ColumnKind::OptionalBool
    } else {
        ColumnKind::ThirtyTwoBits
    }
}

/// What keeps a row from being read.
#[derive(Debug, Clone, Copy, PartialEq, Eq, Structural)]
pub enum ReadProblem {
    /// There are not as many columns as a record has.
    MissingColumns,
    /// The column at this place holds another type.
    WrongType(usize),
    /// The column at this place holds a text that is not JSON.
    MalformedJson(usize),
    /// A number is out of range.
    OutOfRange(i64),
    /// The place of a step in its sequence is out of range.
    NodeIndexOutOfRange(i64),
}

/// The largest number that a column can hold, for those that hold numbers from zero on.
pub open spec fn upper_bound(k: ColumnKind) -> Option<i64> {
    match k {
        ColumnKind::NonNegative => Some(i64::MAX),
        ColumnKind::SixteenBits => Some(65535),
        ColumnKind::ThirtyTwoBits => Some(4294967295),
        _ => None,
    }
}

/// Whether `serde_json` takes a text for a JSON value, whatever the value is.
pub uninterp spec fn well_formed_json(text: Seq<char>) -> bool;

/// `serde_json::from_str` into `serde::de::IgnoredAny`, which takes any value and keeps
/// nothing of it: whether the text is one JSON value.
#[verifier::external_body]
fn is_well_formed_json(text: &str) -> (r: bool)
    ensures
        r == well_formed_json(text@),
{
    serde_json::from_str::<serde::de::IgnoredAny>(text).is_ok()
}

/// Whether a column that holds JSON holds a text that is well formed.
pub open spec fn holds_json(k: ColumnKind, v: SqlView) -> bool {
    match (k, v) {
        (ColumnKind::Json, SqlView::Text(t)) => well_formed_json(t),
        (ColumnKind::OptionalJson, SqlView::Text(t)) => well_formed_json(t),
        _ => false,
    }
}

/// For each column whether it holds JSON that is well formed.
pub open spec fn json_flags(v: Seq<SqlView>) -> Seq<bool> {
    Seq::new(v.len(), |i: int| holds_json(kind_of(i), v[i]))
}

/// For each column whether it holds JSON that is well formed.
fn json_flags_of(v: &Vec<SqlValue>) -> (r: Vec<bool>)
    ensures
        r@ == json_flags(sql_views(v@)),
{
    let ghost all = sql_views(v@);
    let mut flags: Vec<bool> = Vec::new();
    let mut i: usize = 0;
    while i < v.len()
        invariant
            i <= v@.len(),
            all == sql_views(v@),
            flags@ == json_flags(all).take(i as int),
        decreases v@.len() - i,
    {
        assert(all[i as int] == v@[i as int]@);
        let flag = match (column_kind(i), &v[i]) {
            (ColumnKind::Json, SqlValue::Text(t)) => is_well_formed_json(t.as_str()),
            (ColumnKind::OptionalJson, SqlValue::Text(t)) => is_well_formed_json(t.as_str()),
            _ => false,
        };
        assert(json_flags(all).take(i + 1) =~= json_flags(all).take(i as int).push(
            json_flags(all)[i as int],
        ));
        flags.push(flag);
        i = i + 1;
    }
    assert(json_flags(all).take(i as int) =~= json_flags(all));
    flags
}

/// What is wrong with a column, if anything. Of a column that holds JSON, `well_formed`
/// says whether the text is.
pub open spec fn column_problem(
    k: ColumnKind,
    v: SqlView,
    i: usize,
    well_formed: bool,
) -> Option<ReadProblem> {
    match (k, v) {
        (ColumnKind::Json, SqlView::Text(_)) => if well_formed {
            None
        } else {
            Some(ReadProblem::MalformedJson(i))
        },
        (ColumnKind::OptionalJson, SqlView::Text(_)) => if well_formed {
            None
        } else {
            Some(ReadProblem::MalformedJson(i))
        },
        (ColumnKind::OptionalJson, SqlView::Null) => None,
        (ColumnKind::Text, SqlView::Text(_)) => None,
        (ColumnKind::OptionalText, SqlView::Text(_)) => None,
        (ColumnKind::OptionalText, SqlView::Null) => None,
        (ColumnKind::OptionalBool, SqlView::Null) => None,
        (ColumnKind::OptionalBool, SqlView::Integer(_)) => None,
        (ColumnKind::Bool, SqlView::Integer(_)) => None,
        (ColumnKind::Integer, SqlView::Integer(_)) => None,
        (_, SqlView::Integer(n)) if upper_bound(k) is Some => if 0 <= n <= upper_bound(k)->0 {
            None
        } else {
            Some(ReadProblem::OutOfRange(n))
        },
        _ => Some(ReadProblem::WrongType(i)),
    }
}

fn problem_of(k: ColumnKind, v: &SqlValue, i: usize, well_formed: bool) -> (r: Option<
    ReadProblem,
>)
    ensures
        r == column_problem(k, v@, i, well_formed),
{
    match (k, v) {
        (ColumnKind::Json, SqlValue::Text(_)) => {
            if well_formed {
                None
            } else {
                Some(ReadProblem::MalformedJson(i))
            }
        },
        (ColumnKind::OptionalJson, SqlValue::Text(_)) => {
            if well_formed {
                None
            } else {
                Some(ReadProblem::MalformedJson(i))
            }
        },
        (ColumnKind::OptionalJson, SqlValue::Null) => None,
        (ColumnKind::Text, SqlValue::Text(_)) => None,
        (ColumnKind::OptionalText, SqlValue::Text(_)) => None,
        (ColumnKind::OptionalText, SqlValue::Null) => None,
        (ColumnKind::OptionalBool, SqlValue::Null) => None,
        (ColumnKind::OptionalBool, SqlValue::Integer(_)) => None,
        (ColumnKind::Bool, SqlValue::Integer(_)) => None,
        (ColumnKind::Integer, SqlValue::Integer(_)) => None,
        (ColumnKind::NonNegative, SqlValue::Integer(n)) => {
            if *n >= 0 {
                None
            } else {
                Some(ReadProblem::OutOfRange(*n))
            }
        },
        (ColumnKind::SixteenBits, SqlValue::Integer(n)) => {
            if *n >= 0 && *n <= 65535 {
                None
            } else {
                Some(ReadProblem::OutOfRange(*n))
            }
        },
        (ColumnKind::ThirtyTwoBits, SqlValue::Integer(n)) => {
            if *n >= 0 && *n <= 4294967295 {
                None
            } else {
                Some(ReadProblem::OutOfRange(*n))
            }
        },
        _ => Some(ReadProblem::WrongType(i)),
    }
}

pub open spec fn integer_of(v: SqlView) -> i64 {
    match v {
        SqlView::Integer(n) => n,
        _ => 0,
    }
}

pub open spec fn text_of(v: SqlView) -> Seq<char> {
    match v {
        SqlView::Text(t) => t,
        _ => Seq::empty(),
    }
}

pub open spec fn optional_text_of(v: SqlView) -> Option<Seq<char>> {
    match v {
        SqlView::Text(t) => Some(t),
        _ => None,
    }
}

pub open spec fn optional_bool_of(v: SqlView) -> Option<bool> {
    match v {
        SqlView::Integer(n) => Some(n != 0),
        _ => None,
    }
}

/// The record of some columns.
pub open spec fn record_of(v: Seq<SqlView>) -> StoredView {
    StoredView {
        id: integer_of(v[0]),
        created_at_ms: integer_of(v[1]),
        elapsed_ms: integer_of(v[2]) as u64,
        request_id: integer_of(v[3]) as u16,
        client_ip: text_of(v[4]),
        questions_json: text_of(v[5]),
        req_rd: integer_of(v[6]) != 0,
        req_cd: integer_of(v[7]) != 0,
        req_ad: integer_of(v[8]) != 0,
        req_opcode: text_of(v[9]),
        req_edns_json: optional_text_of(v[10]),
        error: optional_text_of(v[11]),
        has_response: integer_of(v[12]) != 0,
        rcode: optional_text_of(v[13]),
        resp_aa: optional_bool_of(v[14]),
        resp_tc: optional_bool_of(v[15]),
        resp_ra: optional_bool_of(v[16]),
        resp_ad: optional_bool_of(v[17]),
        resp_cd: optional_bool_of(v[18]),
        answer_count: integer_of(v[19]) as u32,
        authority_count: integer_of(v[20]) as u32,
        additional_count: integer_of(v[21]) as u32,
        answers_json: text_of(v[22]),
        authorities_json: text_of(v[23]),
        additionals_json: text_of(v[24]),
        signature_json: text_of(v[25]),
        resp_edns_json: optional_text_of(v[26]),
    }
}

/// Whether the columns before `n` can be read.
pub open spec fn readable(v: Seq<SqlView>, well_formed: Seq<bool>, n: int) -> bool {
    forall|j: int|
        0 <= j < n ==> column_problem(
            kind_of(j),
            #[trigger] v[j],
            j as usize,
            well_formed[j],
        ) is None
}

/// Whether this is what reading a row gives: the record, or the first problem.
pub open spec fn row_read(
    v: Seq<SqlView>,
    well_formed: Seq<bool>,
    r: Result<RecordRow, ReadProblem>,
) -> bool {
    match r {
        Ok(row) => v.len() == RECORD_COLUMNS && readable(v, well_formed, RECORD_COLUMNS as int)
            && row@ == record_of(v),
        Err(p) => if v.len() != RECORD_COLUMNS {
            p == ReadProblem::MissingColumns
        } else {
            exists|i: int|
                0 <= i < RECORD_COLUMNS && #[trigger] readable(v, well_formed, i)
                    && column_problem(kind_of(i), v[i], i as usize, well_formed[i]) == Some(p)
        },
    }
}

fn integer_at(v: &Vec<SqlValue>, i: usize) -> (r: i64)
    requires
        i < v@.len(),
    ensures
        r == integer_of(v@[i as int]@),
{
    match &v[i] {
        SqlValue::Integer(n) => *n,
        _ => 0,
    }
}

fn text_at(v: &Vec<SqlValue>, i: usize) -> (r: String)
    requires
        i < v@.len(),
    ensures
        r@ == text_of(v@[i as int]@),
{
    match &v[i] {
        SqlValue::Text(t) => t.clone(),
        _ => {
            let empty = String::new();
            assert(empty@ =~= Seq::empty());
            empty
        },
    }
}

fn optional_text_at(v: &Vec<SqlValue>, i: usize) -> (r: Option<String>)
    requires
        i < v@.len(),
    ensures
        text_view(r) == optional_text_of(v@[i as int]@),
{
    match &v[i] {
        SqlValue::Text(t) => Some(t.clone()),
        _ => None,
    }
}

fn optional_bool_at(v: &Vec<SqlValue>, i: usize) -> (r: Option<bool>)
    requires
        i < v@.len(),
    ensures
        r == optional_bool_of(v@[i as int]@),
{
    match &v[i] {
        SqlValue::Integer(n) => Some(*n != 0),
        _ => None,
    }
}

/// The record of a row, or the first problem. Each column that holds JSON has to be well
/// formed.
pub fn read_record_row(v: &Vec<SqlValue>) -> (r: Result<RecordRow, ReadProblem>)
    ensures
        row_read(sql_views(v@), json_flags(sql_views(v@)), r),
{
    let well_formed = json_flags_of(v);
    read_checked_row(v, &well_formed)
}

/// The record of a row, or the first problem, where it is known of each column that
/// holds JSON whether it is well formed.
pub fn read_checked_row(v: &Vec<SqlValue>, well_formed: &Vec<bool>) -> (r: Result<
    RecordRow,
    ReadProblem,
>)
    requires
        well_formed@.len() == v@.len(),
    ensures
        row_read(sql_views(v@), well_formed@, r),
{
    let ghost all = sql_views(v@);
    if v.len() != RECORD_COLUMNS {
        return Err(ReadProblem::MissingColumns);
    }
    let mut i: usize = 0;
    while i < RECORD_COLUMNS
        invariant
            i <= RECORD_COLUMNS,
            v@.len() == RECORD_COLUMNS,
            all == sql_views(v@),
            well_formed@.len() == RECORD_COLUMNS,
            readable(all, well_formed@, i as int),
        decreases RECORD_COLUMNS - i,
    {
        assert(all[i as int] == v@[i as int]@);
        if let Some(p) = problem_of(column_kind(i), &v[i], i, well_formed[i]) {
            assert(readable(all, well_formed@, i as int));
            return Err(p);
        }
        i = i + 1;
    }
    assert(all[2] == v@[2]@ && all[3] == v@[3]@ && all[19] == v@[19]@ && all[20] == v@[20]@
        && all[21] == v@[21]@);
    let row = RecordRow {
        id: integer_at(v, 0),
        created_at_ms: integer_at(v, 1),
        elapsed_ms: integer_at(v, 2) as u64,
        request_id: integer_at(v, 3) as u16,
        client_ip: text_at(v, 4),
        questions_json: text_at(v, 5),
        req_rd: integer_at(v, 6) != 0,
        req_cd: integer_at(v, 7) != 0,
        req_ad: integer_at(v, 8) != 0,
        req_opcode: text_at(v, 9),
        req_edns_json: optional_text_at(v, 10),
        error: optional_text_at(v, 11),
        has_response: integer_at(v, 12) != 0,
        rcode: optional_text_at(v, 13),
        resp_aa: optional_bool_at(v, 14),
        resp_tc: optional_bool_at(v, 15),
        resp_ra: optional_bool_at(v, 16),
        resp_ad: optional_bool_at(v, 17),
        resp_cd: optional_bool_at(v, 18),
        answer_count: integer_at(v, 19) as u32,
        authority_count: integer_at(v, 20) as u32,
        additional_count: integer_at(v, 21) as u32,
        answers_json: text_at(v, 22),
        authorities_json: text_at(v, 23),
        additionals_json: text_at(v, 24),
        signature_json: text_at(v, 25),
        resp_edns_json: optional_text_at(v, 26),
    };
    assert(row@ == record_of(all));
    Ok(row)
}

/// Whether the JSON texts of a record are well formed.
pub open spec fn json_well_formed(r: StoredView) -> bool {
    &&& well_formed_json(r.questions_json)
    &&& r.req_edns_json is Some ==> well_formed_json(r.req_edns_json->0)
    &&& well_formed_json(r.answers_json)
    &&& well_formed_json(r.authorities_json)
    &&& well_formed_json(r.additionals_json)
    &&& well_formed_json(r.signature_json)
    &&& r.resp_edns_json is Some ==> well_formed_json(r.resp_edns_json->0)
}

/// A record that has been stored is read back as it was, where its JSON texts are well
/// formed; where one is not, it is not read back.
pub proof fn law_record_reads_back(r: StoredView)
    requires
        r.elapsed_ms <= i64::MAX,
    ensures
        columns(r).len() == RECORD_COLUMNS,
        readable(columns(r), json_flags(columns(r)), RECORD_COLUMNS as int) <==> json_well_formed(
            r,
        ),
        record_of(columns(r)) == r,
{
    let v = columns(r);
    let flags = json_flags(v);
    if readable(v, flags, RECORD_COLUMNS as int) {
        assert(column_problem(kind_of(5), v[5], 5, flags[5]) is None);
        assert(column_problem(kind_of(10), v[10], 10, flags[10]) is None);
        assert(column_problem(kind_of(22), v[22], 22, flags[22]) is None);
        assert(column_problem(kind_of(23), v[23], 23, flags[23]) is None);
        assert(column_problem(kind_of(24), v[24], 24, flags[24]) is None);
        assert(column_problem(kind_of(25), v[25], 25, flags[25]) is None);
        assert(column_problem(kind_of(26), v[26], 26, flags[26]) is None);
    }
}

/// A question of a record.
#[derive(Debug, PartialEq, Eq)]
pub struct QuestionRow {
    pub name: String,
    pub qtype: String,
    pub qclass: String,
}

/// The columns of a question: its name in lower case and its type in upper case.
pub open spec fn question_columns(record_id: i64, index: usize, q: QuestionRow) -> Seq<SqlView> {
    seq![
        SqlView::Integer(record_id),
        SqlView::Integer(index as i64),
        SqlView::Text(lower_text(q.name@)),
        SqlView::Text(upper_text(q.qtype@)),
        SqlView::Text(q.qclass@),
    ]
}

/// The values to insert for a question of a record.
pub fn question_values(record_id: i64, index: usize, q: &QuestionRow) -> (r: Vec<SqlValue>)
    ensures
        sql_views(r@) == question_columns(record_id, index, *q),
{
    let mut v: Vec<SqlValue> = Vec::new();
    v.push(SqlValue::Integer(record_id));
    v.push(SqlValue::Integer(index as i64));
    v.push(SqlValue::Text(to_lowercase(q.name.as_str())));
    v.push(SqlValue::Text(to_uppercase(q.qtype.as_str())));
    v.push(SqlValue::Text(q.qclass.clone()));
    assert(sql_views(v@) =~= question_columns(record_id, index, *q));
    v
}

/// A step of the chain.
#[derive(Debug, PartialEq, Eq)]
pub struct StepRow {
    pub event_index: usize,
    pub sequence_tag: String,
    pub node_index: Option<usize>,
    pub kind: String,
    pub tag: Option<String>,
    pub outcome: String,
}

/// The mathematical content of a [`StepRow`].
pub struct StepView {
    pub event_index: usize,
    pub sequence_tag: Seq<char>,
    pub node_index: Option<usize>,
    pub kind: Seq<char>,
    pub tag: Option<Seq<char>>,
    pub outcome: Seq<char>,
}

impl View for StepRow {
    type V = StepView;

    open spec fn view(&self) -> StepView {
        StepView {
            event_index: self.event_index,
            sequence_tag: self.sequence_tag@,
            node_index: self.node_index,
            kind: self.kind@,
            tag: text_view(self.tag),
            outcome: self.outcome@,
        }
    }
}

/// The columns of a step, without the record that it belongs to.
pub open spec fn step_columns(s: StepView) -> Seq<SqlView> {
    seq![
        SqlView::Integer(s.event_index as i64),
        SqlView::Text(s.sequence_tag),
        match s.node_index {
            Some(n) => SqlView::Integer(n as i64),
            None => SqlView::Null,
        },
        SqlView::Text(s.kind),
        optional_text(s.tag),
        SqlView::Text(s.outcome),
    ]
}

/// The values to insert for a step of a record.
pub fn step_values(record_id: i64, s: &StepRow) -> (r: Vec<SqlValue>)
    ensures
        sql_views(r@) == seq![SqlView::Integer(record_id)] + step_columns(s@),
{
    let mut v: Vec<SqlValue> = Vec::new();
    v.push(SqlValue::Integer(record_id));
    v.push(SqlValue::Integer(s.event_index as i64));
    v.push(SqlValue::Text(s.sequence_tag.clone()));
    v.push(
        match s.node_index {
            Some(n) => SqlValue::Integer(n as i64),
            None => SqlValue::Null,
        },
    );
    v.push(SqlValue::Text(s.kind.clone()));
    v.push(optional_text_sql(&s.tag));
    v.push(SqlValue::Text(s.outcome.clone()));
    assert(sql_views(v@) =~= seq![SqlView::Integer(record_id)] + step_columns(s@));
    v
}

/// The values to insert for the questions and the steps of a record, in their order.
pub fn record_rows(record_id: i64, questions: &Vec<QuestionRow>, steps: &Vec<StepRow>) -> (r: (
    Vec<Vec<SqlValue>>,
    Vec<Vec<SqlValue>>,
))
    ensures
        r.0@.len() == questions@.len(),
        forall|i: int|
            0 <= i < questions@.len() ==> sql_views((#[trigger] r.0@[i])@) == question_columns(
                record_id,
                i as usize,
                questions@[i],
            ),
        r.1@.len() == steps@.len(),
        forall|i: int|
            0 <= i < steps@.len() ==> sql_views((#[trigger] r.1@[i])@) == seq![
                SqlView::Integer(record_id),
            ] + step_columns(steps@[i]@),
{
    let mut question_rows: Vec<Vec<SqlValue>> = Vec::new();
    let mut i: usize = 0;
    while i < questions.len()
        invariant
            i <= questions@.len(),
            question_rows@.len() == i,
            forall|j: int|
                0 <= j < i ==> sql_views((#[trigger] question_rows@[j])@) == question_columns(
                    record_id,
                    j as usize,
                    questions@[j],
                ),
        decreases questions@.len() - i,
    {
        question_rows.push(question_values(record_id, i, &questions[i]));
        i = i + 1;
    }
    let mut step_rows: Vec<Vec<SqlValue>> = Vec::new();
    let mut k: usize = 0;
    while k < steps.len()
        invariant
            k <= steps@.len(),
            step_rows@.len() == k,
            forall|j: int|
                0 <= j < k ==> sql_views((#[trigger] step_rows@[j])@) == seq![
                    SqlView::Integer(record_id),
                ] + step_columns(steps@[j]@),
        decreases steps@.len() - k,
    {
        step_rows.push(step_values(record_id, &steps[k]));
        k = k + 1;
    }
    (question_rows, step_rows)
}

/// What is wrong with the columns of a step, if anything.
pub open spec fn step_problem(v: Seq<SqlView>) -> Option<ReadProblem> {
    if v.len() != 6 {
        Some(ReadProblem::MissingColumns)
    } else if !(v[0] is Integer) {
        Some(ReadProblem::WrongType(0))
    } else if integer_of(v[0]) < 0 || integer_of(v[0]) > usize::MAX {
        Some(ReadProblem::OutOfRange(integer_of(v[0])))
    } else if !(v[1] is Text) {
        Some(ReadProblem::WrongType(1))
    } else if v[2] is Text {
        Some(ReadProblem::WrongType(2))
    } else if v[2] is Integer && (integer_of(v[2]) < 0 || integer_of(v[2]) > usize::MAX) {
        Some(ReadProblem::NodeIndexOutOfRange(integer_of(v[2])))
    } else if !(v[3] is Text) {
        Some(ReadProblem::WrongType(3))
    } else if v[4] is Integer {
        Some(ReadProblem::WrongType(4))
    } else if !(v[5] is Text) {
        Some(ReadProblem::WrongType(5))
    } else {
        None
    }
}

/// The step of some columns.
pub open spec fn step_of(v: Seq<SqlView>) -> StepView {
    StepView {
        event_index: integer_of(v[0]) as usize,
        sequence_tag: text_of(v[1]),
        node_index: match v[2] {
            SqlView::Integer(n) => Some(n as usize),
            _ => None,
        },
        kind: text_of(v[3]),
        tag: optional_text_of(v[4]),
        outcome: text_of(v[5]),
    }
}

fn is_text(v: &SqlValue) -> (r: bool)
    ensures
        r == (v@ is Text),
{
    match v {
        SqlValue::Text(_) => true,
        _ => false,
    }
}

fn is_integer(v: &SqlValue) -> (r: bool)
    ensures
        r == (v@ is Integer),
{
    match v {
        SqlValue::Integer(_) => true,
        _ => false,
    }
}

fn fits_usize(n: i64) -> (r: bool)
    ensures
        r == (0 <= n <= usize::MAX),
{
    n >= 0 && n as u64 <= usize::MAX as u64
}

/// The step of a row, or the first problem.
pub fn read_step_row(v: &Vec<SqlValue>) -> (r: Result<StepRow, ReadProblem>)
    ensures
        match r {
            Ok(s) => step_problem(sql_views(v@)) is None && s@ == step_of(sql_views(v@)),
            Err(p) => step_problem(sql_views(v@)) == Some(p),
        },
{
    let ghost all = sql_views(v@);
    if v.len() != 6 {
        return Err(ReadProblem::MissingColumns);
    }
    assert(all[0] == v@[0]@ && all[1] == v@[1]@ && all[2] == v@[2]@ && all[3] == v@[3]@ && all[4]
        == v@[4]@ && all[5] == v@[5]@);
    if !is_integer(&v[0]) {
        return Err(ReadProblem::WrongType(0));
    }
    let event: i64 = integer_at(v, 0);
    if !fits_usize(event) {
        return Err(ReadProblem::OutOfRange(event));
    }
    if !is_text(&v[1]) {
        return Err(ReadProblem::WrongType(1));
    }
    let node_index: Option<usize> = match &v[2] {
        SqlValue::Text(_) => {
            return Err(ReadProblem::WrongType(2));
        },
        SqlValue::Integer(n) => {
            if !fits_usize(*n) {
                return Err(ReadProblem::NodeIndexOutOfRange(*n));
            }
            Some(*n as usize)
        },
        SqlValue::Null => None,
    };
    if !is_text(&v[3]) {
        return Err(ReadProblem::WrongType(3));
    }
    if is_integer(&v[4]) {
        return Err(ReadProblem::WrongType(4));
    }
    if !is_text(&v[5]) {
        return Err(ReadProblem::WrongType(5));
    }
    Ok(
        StepRow {
            event_index: event as usize,
            sequence_tag: text_at(v, 1),
            node_index,
            kind: text_at(v, 3),
            tag: optional_text_at(v, 4),
            outcome: text_at(v, 5),
        },
    )
}

/// A step that has been stored is read back as it was.
pub proof fn law_step_reads_back(s: StepView)
    requires
        s.event_index <= i64::MAX,
        s.node_index matches Some(n) ==> n <= i64::MAX,
    ensures
        step_problem(step_columns(s)) is None,
        step_of(step_columns(s)) == s,
{
}

} // verus!
