//! The statements for the database.

use vstd::prelude::*;

use crate::recorder::filter::{
    as_i64, filter_clauses, join_clauses, joined, kind_text, record_filter_clauses, sql_views,
    Clauses, ListCursor, OutOfRange, PluginStatsKind, QueryRecordFilter, SqlValue, SqlView,
};
use crate::recorder::names::TableNames;
use crate::recorder::template::{fill, filled, var_views};
use crate::text::{concat, join, join_strings, push_text, views};

verus! {

/// The number of records that statistics look at.
pub const PLUGIN_STATS_SAMPLE_LIMIT: i64 = 10000;

/// The number of records that are deleted at a time.
pub const CLEANUP_BATCH_SIZE: i64 = 1000;

/// The number of pages that are given back at a time.
pub const VACUUM_BATCH_PAGES: u64 = 1000;

/// The mark that the questions of old records have been written.
pub const QUESTIONS_BACKFILL_MARKER: &'static str = "questions_backfilled";

/// The settings of the connection that writes.
pub const WRITER_PRAGMAS: &'static str = "PRAGMA auto_vacuum=INCREMENTAL;
         PRAGMA journal_mode=WAL;
         PRAGMA synchronous=NORMAL;
         PRAGMA foreign_keys=ON;
         PRAGMA temp_store=DEFAULT;
         PRAGMA cache_size=-4096;
         PRAGMA mmap_size=0;";

/// The settings of a connection that reads.
pub const READER_PRAGMAS: &'static str = "PRAGMA journal_mode=WAL;
         PRAGMA synchronous=NORMAL;
         PRAGMA foreign_keys=ON;
         PRAGMA query_only=ON;
         PRAGMA temp_store=FILE;
         PRAGMA cache_size=-4096;
         PRAGMA mmap_size=0;";

/// The tables and indexes.
pub const SCHEMA: &'static str = "CREATE TABLE IF NOT EXISTS {records} (
            id INTEGER PRIMARY KEY,
            created_at_ms INTEGER NOT NULL,
            elapsed_ms INTEGER NOT NULL,
            request_id INTEGER NOT NULL,
            client_ip TEXT NOT NULL,
            questions_json TEXT NOT NULL,
            req_rd INTEGER NOT NULL,
            req_cd INTEGER NOT NULL,
            req_ad INTEGER NOT NULL,
            req_opcode TEXT NOT NULL,
            req_edns_json TEXT NULL,
            error TEXT NULL,
            has_response INTEGER NOT NULL,
            rcode TEXT NULL,
            resp_aa INTEGER NULL,
            resp_tc INTEGER NULL,
            resp_ra INTEGER NULL,
            resp_ad INTEGER NULL,
            resp_cd INTEGER NULL,
            answer_count INTEGER NOT NULL,
            authority_count INTEGER NOT NULL,
            additional_count INTEGER NOT NULL,
            answers_json TEXT NOT NULL,
            authorities_json TEXT NOT NULL,
            additionals_json TEXT NOT NULL,
            signature_json TEXT NOT NULL,
            resp_edns_json TEXT NULL
        );
        CREATE TABLE IF NOT EXISTS {steps} (
            record_id INTEGER NOT NULL,
            event_index INTEGER NOT NULL,
            sequence_tag TEXT NOT NULL,
            node_index INTEGER NULL,
            kind TEXT NOT NULL,
            tag TEXT NULL,
            outcome TEXT NOT NULL,
            PRIMARY KEY (record_id, event_index),
            FOREIGN KEY(record_id) REFERENCES {records}(id) ON DELETE CASCADE
        );
        CREATE TABLE IF NOT EXISTS {questions} (
            record_id INTEGER NOT NULL,
            question_index INTEGER NOT NULL,
            name_lc TEXT NOT NULL,
            qtype TEXT NOT NULL,
            qclass TEXT NOT NULL,
            PRIMARY KEY (record_id, question_index),
            FOREIGN KEY(record_id) REFERENCES {records}(id) ON DELETE CASCADE
        );
        CREATE TABLE IF NOT EXISTS {meta} (
            key TEXT PRIMARY KEY,
            value TEXT NOT NULL
        );
        CREATE INDEX IF NOT EXISTS {records}_created_at_idx ON {records}(created_at_ms DESC);
        CREATE INDEX IF NOT EXISTS {records}_request_id_idx ON {records}(request_id);
        CREATE INDEX IF NOT EXISTS {records}_client_ip_idx ON {records}(client_ip);
        CREATE INDEX IF NOT EXISTS {records}_rcode_idx ON {records}(rcode);
        CREATE INDEX IF NOT EXISTS {questions}_record_id_idx ON {questions}(record_id);
        CREATE INDEX IF NOT EXISTS {questions}_name_idx ON {questions}(name_lc, record_id);
        CREATE INDEX IF NOT EXISTS {questions}_qtype_idx ON {questions}(qtype, record_id);
        CREATE INDEX IF NOT EXISTS {steps}_kind_tag_outcome_idx ON {steps}(kind, tag, outcome);
        CREATE INDEX IF NOT EXISTS {steps}_record_id_idx ON {steps}(record_id);
        CREATE INDEX IF NOT EXISTS {steps}_matcher_lookup_idx
            ON {steps}(kind, tag, outcome, record_id);
        CREATE INDEX IF NOT EXISTS {steps}_record_kind_idx
            ON {steps}(record_id, kind);";

/// Whether the questions of old records have been written.
pub const BACKFILL_DONE: &'static str = "SELECT 1 FROM {meta} WHERE key = ?1 AND value = ?2";

/// Marks that the questions of old records have been written.
pub const MARK_BACKFILLED: &'static str = "INSERT OR REPLACE INTO {meta} (key, value) VALUES (?1, ?2)";

/// Writes the questions of old records.
pub const BACKFILL: &'static str = "WITH missing_records AS (
                SELECT r.id, r.questions_json
                FROM {records} r
                WHERE NOT EXISTS (
                    SELECT 1
                    FROM {questions} existing
                    WHERE existing.record_id = r.id
                )
             )
             INSERT OR IGNORE INTO {questions} (
                record_id,
                question_index,
                name_lc,
                qtype,
                qclass
             )
             SELECT
                missing_records.id,
                CAST(q.key AS INTEGER),
                LOWER(json_extract(q.value, '$.name')),
                UPPER(json_extract(q.value, '$.qtype')),
                json_extract(q.value, '$.qclass')
             FROM missing_records
             JOIN json_each(missing_records.questions_json) AS q
             WHERE json_extract(q.value, '$.name') IS NOT NULL
               AND json_extract(q.value, '$.qtype') IS NOT NULL
               AND json_extract(q.value, '$.qclass') IS NOT NULL";

/// Writes a record.
pub const INSERT_RECORD: &'static str = "INSERT INTO {records} (
                created_at_ms,
                elapsed_ms,
                request_id,
                client_ip,
                questions_json,
                req_rd,
                req_cd,
                req_ad,
                req_opcode,
                req_edns_json,
                error,
                has_response,
                rcode,
                resp_aa,
                resp_tc,
                resp_ra,
                resp_ad,
                resp_cd,
                answer_count,
                authority_count,
                additional_count,
                answers_json,
                authorities_json,
                additionals_json,
                signature_json,
                resp_edns_json
            ) VALUES (?1, ?2, ?3, ?4, ?5, ?6, ?7, ?8, ?9, ?10, ?11, ?12, ?13, ?14, ?15, ?16, ?17, ?18, ?19, ?20, ?21, ?22, ?23, ?24, ?25, ?26)";

/// Writes a question of a record.
pub const INSERT_QUESTION: &'static str = "INSERT OR IGNORE INTO {questions} (
                    record_id,
                    question_index,
                    name_lc,
                    qtype,
                    qclass
                ) VALUES (?1, ?2, ?3, ?4, ?5)";

/// Writes a step of a record.
pub const INSERT_STEP: &'static str = "INSERT INTO {steps} (
                    record_id,
                    event_index,
                    sequence_tag,
                    node_index,
                    kind,
                    tag,
                    outcome
                ) VALUES (?1, ?2, ?3, ?4, ?5, ?6, ?7)";

/// Deletes some of the records before a time, the oldest first.
pub const DELETE_OLD: &'static str = "DELETE FROM {records}
                 WHERE id IN (
                    SELECT id FROM {records}
                    WHERE created_at_ms < ?1
                    ORDER BY created_at_ms ASC, id ASC
                    LIMIT ?2
                 )";

/// Deletes some of the records, the oldest first.
pub const DELETE_ANY: &'static str = "DELETE FROM {records}
                 WHERE id IN (
                    SELECT id FROM {records}
                    ORDER BY id ASC
                    LIMIT ?1
                 )";

/// The latest records.
pub const LIST: &'static str = "SELECT
            {row_columns}
         FROM {records} r
         WHERE {where_sql}
         ORDER BY r.created_at_ms DESC, r.id DESC
         LIMIT ?";

/// A record.
pub const DETAIL: &'static str = "SELECT
            {row_columns}
         FROM {records}
         WHERE id = ?1";

/// The steps of a record.
pub const STEPS: &'static str = "SELECT event_index, sequence_tag, node_index, kind, tag, outcome
         FROM {steps}
         WHERE record_id = ?1
         ORDER BY event_index ASC";

/// What the steps of the latest records say of the plugins.
pub const PLUGIN_STATS: &'static str = "WITH sample_records AS (
            SELECT r.id
            FROM {records} r
            WHERE {where_sql}
            ORDER BY r.created_at_ms DESC, r.id DESC
            LIMIT ?
         ),
         totals AS (
            SELECT COUNT(*) AS total_records FROM sample_records
         ),
         step_agg AS (
            SELECT
                s.kind,
                s.tag,
                SUM(CASE
                    WHEN s.kind = 'matcher'
                     AND s.outcome IN (
                         'matched', 'not_matched',
                         'always_true_matched', 'always_true_not_matched',
                         'always_false_matched', 'always_false_not_matched'
                     ) THEN 1
                    ELSE 0
                END) AS checked,
                SUM(CASE
                    WHEN s.kind = 'matcher'
                     AND s.outcome IN (
                         'matched', 'always_true_matched', 'always_false_matched'
                     ) THEN 1
                    ELSE 0
                END) AS matched,
                SUM(CASE
                    WHEN s.kind = 'executor' AND s.outcome = 'entered' THEN 1
                    WHEN s.kind = 'builtin' THEN 1
                    ELSE 0
                END) AS executed,
                COUNT(DISTINCT s.record_id) AS query_hits
            FROM {steps} s
            WHERE s.record_id IN (SELECT id FROM sample_records)
            {kind_where_filter}
            GROUP BY s.kind, s.tag
         )
         SELECT
            totals.total_records,
            sa.kind,
            sa.tag,
            sa.checked,
            sa.matched,
            sa.executed,
            sa.query_hits
         FROM totals
         LEFT JOIN step_agg sa ON 1 = 1
         ORDER BY sa.kind ASC, sa.query_hits DESC, sa.tag ASC";

/// The clients of the latest records, the most frequent first.
pub const TOP_CLIENTS: &'static str = "WITH sample_records AS (
            SELECT r.id, r.client_ip
            FROM {records} r
            WHERE {where_sql}
            ORDER BY r.created_at_ms DESC, r.id DESC
            LIMIT ?
         ),
         totals AS (
            SELECT COUNT(*) AS sample_size FROM sample_records
         )
         SELECT totals.sample_size, sample_records.client_ip, COUNT(*) AS count
         FROM totals
         LEFT JOIN sample_records ON 1 = 1
         GROUP BY totals.sample_size, sample_records.client_ip
         ORDER BY count DESC, sample_records.client_ip ASC
         LIMIT ?";

/// The names in the latest records, the most frequent first.
pub const TOP_QNAMES: &'static str = "WITH sample_records AS (
            SELECT r.id
            FROM {records} r
            WHERE {where_sql}
            ORDER BY r.created_at_ms DESC, r.id DESC
            LIMIT ?
         ),
         totals AS (
            SELECT COUNT(*) AS sample_size FROM sample_records
         )
         SELECT
            totals.sample_size,
            q.name_lc AS qname,
            COUNT(q.name_lc) AS count
         FROM totals
         LEFT JOIN sample_records ON 1 = 1
         LEFT JOIN {questions} q ON q.record_id = sample_records.id
         GROUP BY totals.sample_size, qname
         ORDER BY count DESC, qname ASC
         LIMIT ?";

/// The types in the latest records, the most frequent first.
pub const QTYPE_DISTRIBUTION: &'static str = "WITH sample_records AS (
            SELECT r.id
            FROM {records} r
            WHERE {where_sql}
            ORDER BY r.created_at_ms DESC, r.id DESC
            LIMIT ?
         ),
         totals AS (
            SELECT COUNT(*) AS sample_size FROM sample_records
         )
         SELECT
            totals.sample_size,
            q.qtype,
            COUNT(q.qtype) AS count
         FROM totals
         LEFT JOIN sample_records ON 1 = 1
         LEFT JOIN {questions} q ON q.record_id = sample_records.id
         GROUP BY totals.sample_size, qtype
         ORDER BY count DESC, qtype ASC";

/// The outcomes of the latest records, the most frequent first.
pub const RCODE_DISTRIBUTION: &'static str = "WITH sample_records AS (
            SELECT r.id, r.rcode, r.error, r.has_response
            FROM {records} r
            WHERE {where_sql}
            ORDER BY r.created_at_ms DESC, r.id DESC
            LIMIT ?
         ),
         totals AS (
            SELECT COUNT(*) AS sample_size FROM sample_records
         )
         SELECT
            totals.sample_size,
            CASE
                WHEN sample_records.rcode IS NOT NULL THEN sample_records.rcode
                WHEN sample_records.error IS NOT NULL THEN '_ERROR'
                WHEN sample_records.has_response = 0 THEN '_NO_RESPONSE'
                ELSE '_UNKNOWN'
            END AS bucket,
            COUNT(*) AS count
         FROM totals
         LEFT JOIN sample_records ON 1 = 1
         GROUP BY totals.sample_size, bucket
         ORDER BY count DESC, bucket ASC";

/// The latencies of the latest records.
pub const ELAPSED: &'static str = "SELECT r.elapsed_ms
         FROM {records} r
         WHERE {where_sql}
         ORDER BY r.created_at_ms DESC, r.id DESC
         LIMIT ?";

/// The names in the latest records, the slowest first.
pub const SLOW: &'static str = "WITH sample_records AS (
            SELECT r.id, r.elapsed_ms
            FROM {records} r
            WHERE {where_sql}
            ORDER BY r.created_at_ms DESC, r.id DESC
            LIMIT ?
         )
         SELECT
            q.name_lc AS qname,
            COUNT(*) AS count,
            AVG(sample_records.elapsed_ms) AS avg_ms,
            MAX(sample_records.elapsed_ms) AS max_ms
         FROM sample_records
         JOIN {questions} q ON q.record_id = sample_records.id
         GROUP BY qname
         HAVING qname IS NOT NULL
         ORDER BY avg_ms DESC, count DESC
         LIMIT ?";

/// The latest records as far as statistics over time need them.
pub const TIMESERIES: &'static str = "SELECT r.created_at_ms, r.elapsed_ms, r.error, r.has_response
         FROM {records} r
         WHERE {where_sql}
         ORDER BY r.created_at_ms DESC, r.id DESC
         LIMIT ?";

/// The columns of a record.
pub open spec fn column_names() -> Seq<Seq<char>> {
    seq![
        "id"@,
        "created_at_ms"@,
        "elapsed_ms"@,
        "request_id"@,
        "client_ip"@,
        "questions_json"@,
        "req_rd"@,
        "req_cd"@,
        "req_ad"@,
        "req_opcode"@,
        "req_edns_json"@,
        "error"@,
        "has_response"@,
        "rcode"@,
        "resp_aa"@,
        "resp_tc"@,
        "resp_ra"@,
        "resp_ad"@,
        "resp_cd"@,
        "answer_count"@,
        "authority_count"@,
        "additional_count"@,
        "answers_json"@,
        "authorities_json"@,
        "additionals_json"@,
        "signature_json"@,
        "resp_edns_json"@,
    ]
}

fn column_list() -> (r: Vec<String>)
    ensures
        views(r@) == column_names(),
{
    let mut v: Vec<String> = Vec::new();
    v.push("id".to_owned());
    v.push("created_at_ms".to_owned());
    v.push("elapsed_ms".to_owned());
    v.push("request_id".to_owned());
    v.push("client_ip".to_owned());
    v.push("questions_json".to_owned());
    v.push("req_rd".to_owned());
    v.push("req_cd".to_owned());
    v.push("req_ad".to_owned());
    v.push("req_opcode".to_owned());
    v.push("req_edns_json".to_owned());
    v.push("error".to_owned());
    v.push("has_response".to_owned());
    v.push("rcode".to_owned());
    v.push("resp_aa".to_owned());
    v.push("resp_tc".to_owned());
    v.push("resp_ra".to_owned());
    v.push("resp_ad".to_owned());
    v.push("resp_cd".to_owned());
    v.push("answer_count".to_owned());
    v.push("authority_count".to_owned());
    v.push("additional_count".to_owned());
    v.push("answers_json".to_owned());
    v.push("authorities_json".to_owned());
    v.push("additionals_json".to_owned());
    v.push("signature_json".to_owned());
    v.push("resp_edns_json".to_owned());
    assert(views(v@) =~= column_names());
    v
}

/// The columns of a record as they are selected, with the name of the table before each
/// where there is one.
pub open spec fn selected_columns(alias: Option<Seq<char>>) -> Seq<char> {
    join(
        match alias {
            Some(a) => Seq::new(27, |i: int| a + "."@ + column_names()[i]),
            None => column_names(),
        },
        ",\n            "@,
    )
}

/// The columns of a record as they are selected.
pub fn record_row_select_columns(alias: Option<&str>) -> (r: String)
    ensures
        r@ == selected_columns(
            match alias {
                Some(a) => Some(a@),
                None => None,
            },
        ),
{
    let names = column_list();
    assert(names@.len() == views(names@).len());
    match alias {
        None => join_strings(&names, ",\n            "),
        Some(a) => {
            let mut out: Vec<String> = Vec::new();
            let mut i: usize = 0;
            while i < names.len()
                invariant
                    i <= names@.len(),
                    names@.len() == 27,
                    views(names@) == column_names(),
                    out@.len() == i,
                    forall|j: int|
                        0 <= j < i ==> (#[trigger] out@[j])@ == a@ + "."@ + column_names()[j],
                decreases names@.len() - i,
            {
                assert(views(names@)[i as int] == names@[i as int]@);
                let mut name = concat(a, ".");
                push_text(&mut name, names[i].as_str());
                out.push(name);
                i = i + 1;
            }
            assert(views(out@) =~= Seq::new(27, |i: int| a@ + "."@ + column_names()[i]));
            join_strings(&out, ",\n            ")
        },
    }
}

/// A statement and the values for its places.
#[derive(Debug, PartialEq, Eq)]
pub struct Statement {
    pub sql: String,
    pub params: Vec<SqlValue>,
}

/// The mathematical content of a [`Statement`].
pub struct StatementView {
    pub sql: Seq<char>,
    pub params: Seq<SqlView>,
}

impl View for Statement {
    type V = StatementView;

    open spec fn view(&self) -> StatementView {
        StatementView { sql: self.sql@, params: sql_views(self.params@) }
    }
}

/// The names in the statements.
pub open spec fn statement_vars(
    tables: TableNames,
    where_sql: Seq<char>,
    row_columns: Seq<char>,
    kind_where_filter: Seq<char>,
) -> Seq<(Seq<char>, Seq<char>)> {
    seq![
        ("records"@, tables.records@),
        ("steps"@, tables.steps@),
        ("questions"@, tables.questions@),
        ("meta"@, tables.meta@),
        ("where_sql"@, where_sql),
        ("row_columns"@, row_columns),
        ("kind_where_filter"@, kind_where_filter),
    ]
}

/// The text of a statement.
pub open spec fn statement_sql(
    template: Seq<char>,
    tables: TableNames,
    where_sql: Seq<char>,
    row_columns: Seq<char>,
    kind_where_filter: Seq<char>,
) -> Seq<char> {
    filled(template, statement_vars(tables, where_sql, row_columns, kind_where_filter))
}

fn make_sql(
    template: &str,
    tables: &TableNames,
    where_sql: &str,
    row_columns: &str,
    kind_where_filter: &str,
) -> (r: String)
    ensures
        r@ == statement_sql(template@, *tables, where_sql@, row_columns@, kind_where_filter@),
{
    let mut vars: Vec<(&str, &str)> = Vec::new();
    vars.push(("records", tables.records.as_str()));
    vars.push(("steps", tables.steps.as_str()));
    vars.push(("questions", tables.questions.as_str()));
    vars.push(("meta", tables.meta.as_str()));
    vars.push(("where_sql", where_sql));
    vars.push(("row_columns", row_columns));
    vars.push(("kind_where_filter", kind_where_filter));
    assert(var_views(vars@) =~= statement_vars(
        *tables,
        where_sql@,
        row_columns@,
        kind_where_filter@,
    ));
    fill(template, &vars)
}

/// A statement that names tables only.
pub open spec fn table_sql(template: Seq<char>, tables: TableNames) -> Seq<char> {
    statement_sql(template, tables, ""@, ""@, ""@)
}

/// A statement that names tables only: one of the schema, of a write or of a deletion,
/// or for the steps of a record.
pub fn table_statement(template: &str, tables: &TableNames) -> (r: String)
    ensures
        r@ == table_sql(template@, *tables),
{
    make_sql(template, tables, "", "", "")
}

/// The statement for a record.
pub fn detail_statement(tables: &TableNames, record_id: i64) -> (r: Statement)
    ensures
        r@ == (StatementView {
            sql: statement_sql(DETAIL@, *tables, ""@, selected_columns(None), ""@),
            params: seq![SqlView::Integer(record_id)],
        }),
{
    let row_columns = record_row_select_columns(None);
    let mut params: Vec<SqlValue> = Vec::new();
    params.push(SqlValue::Integer(record_id));
    assert(sql_views(params@) =~= seq![SqlView::Integer(record_id)]);
    Statement { sql: make_sql(DETAIL, tables, "", row_columns.as_str(), ""), params }
}

/// Which records, and from when to when.
#[derive(Debug, PartialEq, Eq)]
pub struct RecordScope {
    pub since_ms: Option<u64>,
    pub until_ms: Option<u64>,
    pub filter: QueryRecordFilter,
}

/// Whether the database can hold the times.
pub open spec fn scope_fits(s: RecordScope) -> bool {
    (s.since_ms matches Some(v) ==> v <= i64::MAX) && (s.until_ms matches Some(v) ==> v
        <= i64::MAX)
}

/// The condition of a scope.
pub open spec fn scope_where(tables: TableNames, s: RecordScope) -> Seq<char> {
    joined(filter_clauses("r"@, tables, s.since_ms, s.until_ms, s.filter).texts)
}

/// The values for the places of the condition.
pub open spec fn scope_params(tables: TableNames, s: RecordScope) -> Seq<SqlView> {
    filter_clauses("r"@, tables, s.since_ms, s.until_ms, s.filter).params
}

fn scope_clauses(tables: &TableNames, s: &RecordScope) -> (r: Result<Clauses, OutOfRange>)
    ensures
        match r {
            Ok(c) => scope_fits(*s) && c@ == filter_clauses(
                "r"@,
                *tables,
                s.since_ms,
                s.until_ms,
                s.filter,
            ),
            Err(e) => !scope_fits(*s) && e.value == i64::MAX,
        },
{
    record_filter_clauses("r", tables, s.since_ms, s.until_ms, &s.filter)
}

/// The condition for records behind a cursor.
pub const CURSOR_CLAUSE: &'static str = "(r.created_at_ms < ? OR (r.created_at_ms = ? AND r.id < ?))";

/// One more record than a page holds tells whether there is another page.
pub open spec fn fetch_limit(limit: usize) -> i64 {
    (if limit < usize::MAX {
        (limit + 1) as usize
    } else {
        usize::MAX
    }) as i64
}

/// The statement for a page of records.
pub open spec fn list_view(
    tables: TableNames,
    s: RecordScope,
    cursor: Option<ListCursor>,
    limit: usize,
) -> StatementView {
    let c = filter_clauses("r"@, tables, s.since_ms, s.until_ms, s.filter);
    let texts = match cursor {
        Some(_) => c.texts.push(CURSOR_CLAUSE@),
        None => c.texts,
    };
    let params = match cursor {
        Some(k) => c.params.push(SqlView::Integer(k.created_at_ms)).push(
            SqlView::Integer(k.created_at_ms),
        ).push(SqlView::Integer(k.id)),
        None => c.params,
    };
    StatementView {
        sql: statement_sql(LIST@, tables, joined(texts), selected_columns(Some("r"@)), ""@),
        params: params.push(SqlView::Integer(fetch_limit(limit))),
    }
}

/// The statement for a page of records.
pub fn list_statement(
    tables: &TableNames,
    scope: &RecordScope,
    cursor: Option<ListCursor>,
    limit: usize,
) -> (r: Result<Statement, OutOfRange>)
    ensures
        match r {
            Ok(s) => scope_fits(*scope) && s@ == list_view(*tables, *scope, cursor, limit),
            Err(e) => !scope_fits(*scope) && e.value == i64::MAX,
        },
{
    let mut c = match scope_clauses(tables, scope) {
        Ok(c) => c,
        Err(e) => return Err(e),
    };
    let ghost texts = views(c.texts@);
    let ghost params = sql_views(c.params@);
    if let Some(k) = cursor {
        c.texts.push(CURSOR_CLAUSE.to_owned());
        assert(views(c.texts@) =~= texts.push(CURSOR_CLAUSE@));
        c.params.push(SqlValue::Integer(k.created_at_ms));
        c.params.push(SqlValue::Integer(k.created_at_ms));
        c.params.push(SqlValue::Integer(k.id));
        assert(sql_views(c.params@) =~= params.push(SqlView::Integer(k.created_at_ms)).push(
            SqlView::Integer(k.created_at_ms),
        ).push(SqlView::Integer(k.id)));
    }
    let ghost filtered = sql_views(c.params@);
    let where_sql = join_clauses(&c.texts);
    let wanted: usize = limit.saturating_add(1);
    c.params.push(SqlValue::Integer(wanted as i64));
    assert(sql_views(c.params@) =~= filtered.push(SqlView::Integer(fetch_limit(limit))));
    let row_columns = record_row_select_columns(Some("r"));
    Ok(
        Statement {
            sql: make_sql(LIST, tables, where_sql.as_str(), row_columns.as_str(), ""),
            params: c.params,
        },
    )
}

/// A statement over the latest records of a scope.
pub open spec fn sample_view(template: Seq<char>, tables: TableNames, s: RecordScope) -> StatementView {
    StatementView {
        sql: statement_sql(template, tables, scope_where(tables, s), ""@, ""@),
        params: scope_params(tables, s).push(SqlView::Integer(PLUGIN_STATS_SAMPLE_LIMIT)),
    }
}

/// A statement over the latest records of a scope: the distributions, the latencies and
/// the statistics over time.
pub fn sample_statement(template: &str, tables: &TableNames, scope: &RecordScope) -> (r: Result<
    Statement,
    OutOfRange,
>)
    ensures
        match r {
            Ok(s) => scope_fits(*scope) && s@ == sample_view(template@, *tables, *scope),
            Err(e) => !scope_fits(*scope) && e.value == i64::MAX,
        },
{
    let mut c = match scope_clauses(tables, scope) {
        Ok(c) => c,
        Err(e) => return Err(e),
    };
    let ghost params = sql_views(c.params@);
    let where_sql = join_clauses(&c.texts);
    c.params.push(SqlValue::Integer(PLUGIN_STATS_SAMPLE_LIMIT));
    assert(sql_views(c.params@) =~= params.push(SqlView::Integer(PLUGIN_STATS_SAMPLE_LIMIT)));
    Ok(
        Statement {
            sql: make_sql(template, tables, where_sql.as_str(), "", ""),
            params: c.params,
        },
    )
}

/// A statement over the latest records of a scope whose result is cut to a number of
/// rows: the most frequent clients and names, and the slowest names.
pub fn top_statement(template: &str, tables: &TableNames, scope: &RecordScope, limit: usize) -> (r:
    Result<Statement, OutOfRange>)
    ensures
        match r {
            Ok(s) => {
                &&& scope_fits(*scope)
                &&& limit <= i64::MAX
                &&& s@.sql == sample_view(template@, *tables, *scope).sql
                &&& s@.params == sample_view(template@, *tables, *scope).params.push(
                    SqlView::Integer(limit as i64),
                )
            },
            Err(e) => (!scope_fits(*scope) || limit > i64::MAX) && e.value == i64::MAX,
        },
{
    let mut s = match sample_statement(template, tables, scope) {
        Ok(s) => s,
        Err(e) => return Err(e),
    };
    let ghost params = sql_views(s.params@);
    let value: i64 = match as_i64(limit as u64) {
        Ok(n) => n,
        Err(e) => return Err(e),
    };
    s.params.push(SqlValue::Integer(value));
    assert(sql_views(s.params@) =~= params.push(SqlView::Integer(value)));
    Ok(s)
}

/// The statement for the statistics of the plugins of a kind.
pub open spec fn plugin_stats_view(tables: TableNames, s: RecordScope, kind: PluginStatsKind) -> StatementView {
    let all = kind == PluginStatsKind::All;
    let params = scope_params(tables, s).push(SqlView::Integer(PLUGIN_STATS_SAMPLE_LIMIT));
    StatementView {
        sql: statement_sql(
            PLUGIN_STATS@,
            tables,
            scope_where(tables, s),
            ""@,
            if all {
                ""@
            } else {
                "AND s.kind = ?"@
            },
        ),
        params: if all {
            params
        } else {
            params.push(SqlView::Text(kind_text(kind)))
        },
    }
}

/// The statement for the statistics of the plugins of a kind.
pub fn plugin_stats_statement(tables: &TableNames, scope: &RecordScope, kind: PluginStatsKind) -> (r:
    Result<Statement, OutOfRange>)
    ensures
        match r {
            Ok(s) => scope_fits(*scope) && s@ == plugin_stats_view(*tables, *scope, kind),
            Err(e) => !scope_fits(*scope) && e.value == i64::MAX,
        },
{
    let mut c = match scope_clauses(tables, scope) {
        Ok(c) => c,
        Err(e) => return Err(e),
    };
    let ghost params = sql_views(c.params@);
    let where_sql = join_clauses(&c.texts);
    c.params.push(SqlValue::Integer(PLUGIN_STATS_SAMPLE_LIMIT));
    assert(sql_views(c.params@) =~= params.push(SqlView::Integer(PLUGIN_STATS_SAMPLE_LIMIT)));
    let ghost sampled = sql_views(c.params@);
    let all = kind == PluginStatsKind::All;
    let filter = if all {
        ""
    } else {
        "AND s.kind = ?"
    };
    if !all {
        let text = kind.sql_value().to_owned();
        c.params.push(SqlValue::Text(text));
        assert(sql_views(c.params@) =~= sampled.push(SqlView::Text(kind_text(kind))));
    }
    Ok(
        Statement {
            sql: make_sql(PLUGIN_STATS, tables, where_sql.as_str(), "", filter),
            params: c.params,
        },
    )
}

} // verus!
