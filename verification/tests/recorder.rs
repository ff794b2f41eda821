//! The recorder of queries: names, statements, rows and statistics.

use std::collections::VecDeque;

use rusqlite::types::Value;
use rusqlite::{params_from_iter, Connection, Row};

use resolver_plugins::error::DnsError;
use resolver_plugins::recorder::filter::{
    as_i64, encode_cursor, join_clauses, like_pattern, record_filter_clauses, ListCursor,
    OutOfRange, PluginStatsKind, QueryRecordFilter, QueryRecordStatus, SqlValue,
};
use resolver_plugins::recorder::names::{
    fnv1a_hex, sanitize_tag, table_names, wal_path, TableNames,
};
use resolver_plugins::recorder::rows::{
    bool_to_i64, insert_values, question_values, read_checked_row, read_record_row, read_step_row,
    record_rows, step_values, QuestionRow, ReadProblem, RecordRow, StepRow,
};
use resolver_plugins::recorder::space::{
    after_deletion, check_checkpoint, check_reclaimed, observe_wal_size, reclaim_failed,
    reclaim_method, vacuum_progress, ReclaimMethod, SpaceReclaimResult, SpaceStats,
};
use resolver_plugins::recorder::sql::{
    detail_statement, list_statement, plugin_stats_statement, record_row_select_columns,
    sample_statement, table_statement, top_statement, RecordScope, Statement, BACKFILL,
    BACKFILL_DONE, CLEANUP_BATCH_SIZE, DELETE_ANY, DELETE_OLD, ELAPSED, INSERT_QUESTION,
    INSERT_RECORD, INSERT_STEP, MARK_BACKFILLED, QTYPE_DISTRIBUTION, QUESTIONS_BACKFILL_MARKER,
    RCODE_DISTRIBUTION, SCHEMA, SLOW, STEPS, TIMESERIES, TOP_CLIENTS, TOP_QNAMES,
};
use resolver_plugins::recorder::stats::{
    bucket_floor, latency_histogram, page_of_records, read_counts, read_plugin_stats, timeseries,
    CountRow, KeyCount, NegativeCount, PluginCountRow, TimeRow,
};
use resolver_plugins::recorder::template::fill;
use resolver_plugins::recorder::writer::{
    after_cleared_batch, clear_tail, push_tail, WriterAction, WriterEvent, WriterState,
};

fn tables() -> TableNames {
    TableNames {
        records: "records".to_string(),
        steps: "steps".to_string(),
        questions: "questions".to_string(),
        meta: "meta".to_string(),
    }
}

fn value(v: &SqlValue) -> Value {
    match v {
        SqlValue::Null => Value::Null,
        SqlValue::Integer(n) => Value::Integer(*n),
        SqlValue::Text(t) => Value::Text(t.clone()),
    }
}

fn values(v: &[SqlValue]) -> Vec<Value> {
    v.iter().map(value).collect()
}

fn columns(row: &Row<'_>, count: usize) -> Vec<SqlValue> {
    (0..count)
        .map(|i| match row.get(i).unwrap() {
            Value::Null => SqlValue::Null,
            Value::Integer(n) => SqlValue::Integer(n),
            Value::Text(t) => SqlValue::Text(t),
            other => panic!("unexpected column {other:?}"),
        })
        .collect()
}

fn create_schema(conn: &Connection, tables: &TableNames) {
    conn.execute_batch(&table_statement(SCHEMA, tables)).unwrap();
    let marker = || {
        vec![
            Value::Text(QUESTIONS_BACKFILL_MARKER.to_string()),
            Value::Text("true".to_string()),
        ]
    };
    let done = conn
        .prepare(&table_statement(BACKFILL_DONE, tables))
        .unwrap()
        .exists(params_from_iter(marker()))
        .unwrap();
    if !done {
        conn.execute(&table_statement(BACKFILL, tables), []).unwrap();
        conn.execute(
            &table_statement(MARK_BACKFILLED, tables),
            params_from_iter(marker()),
        )
        .unwrap();
    }
}

fn insert_record(
    conn: &Connection,
    tables: &TableNames,
    record: &RecordRow,
    questions: &[QuestionRow],
    steps: &[StepRow],
) -> i64 {
    conn.execute(
        &table_statement(INSERT_RECORD, tables),
        params_from_iter(values(&insert_values(record).unwrap())),
    )
    .unwrap();
    let id = conn.last_insert_rowid();
    for (index, question) in questions.iter().enumerate() {
        conn.execute(
            &table_statement(INSERT_QUESTION, tables),
            params_from_iter(values(&question_values(id, index, question))),
        )
        .unwrap();
    }
    for step in steps {
        conn.execute(
            &table_statement(INSERT_STEP, tables),
            params_from_iter(values(&step_values(id, step))),
        )
        .unwrap();
    }
    id
}

fn count(conn: &Connection, sql: &str) -> i64 {
    conn.query_row(sql, [], |row| row.get(0)).unwrap()
}

fn query(conn: &Connection, statement: &Statement) -> Vec<RecordRow> {
    let mut prepared = conn.prepare(&statement.sql).unwrap();
    let rows = prepared
        .query_map(params_from_iter(values(&statement.params)), |row| {
            Ok(read_record_row(&columns(row, 27)).unwrap())
        })
        .unwrap();
    rows.map(|row| row.unwrap()).collect()
}

fn sample_question() -> QuestionRow {
    QuestionRow {
        name: "example.com.".to_string(),
        qtype: "A".to_string(),
        qclass: "IN".to_string(),
    }
}

fn sample_record_row() -> RecordRow {
    let edns = "{\"udp_payload_size\":1232,\"ext_rcode\":0,\"version\":0,\"dnssec_ok\":true,\
                \"z\":0,\"options\":[{\"code\":8,\"name\":\"Subnet\",\"payload_kind\":\"Subnet\",\
                \"payload\":{\"addr\":\"192.0.2.0\",\"scope_prefix\":0,\"source_prefix\":24}}]}";
    RecordRow {
        id: 0,
        created_at_ms: 1_700_000_000_123,
        elapsed_ms: 37,
        request_id: 42,
        client_ip: "127.0.0.1".to_string(),
        questions_json: "[{\"name\":\"example.com.\",\"qtype\":\"A\",\"qclass\":\"IN\"}]"
            .to_string(),
        req_rd: true,
        req_cd: false,
        req_ad: true,
        req_opcode: "Query".to_string(),
        req_edns_json: Some(edns.to_string()),
        error: None,
        has_response: true,
        rcode: Some("NoError".to_string()),
        resp_aa: Some(false),
        resp_tc: Some(false),
        resp_ra: Some(true),
        resp_ad: Some(false),
        resp_cd: Some(false),
        answer_count: 1,
        authority_count: 0,
        additional_count: 0,
        answers_json: "[{\"name\":\"example.com.\",\"class\":\"IN\",\"ttl\":300,\
                       \"rr_type\":\"A\",\"payload_kind\":\"A\",\
                       \"payload_text\":\"192.0.2.10\",\"payload\":{\"ip\":\"192.0.2.10\"}}]"
            .to_string(),
        authorities_json: "[]".to_string(),
        additionals_json: "[]".to_string(),
        signature_json: "[]".to_string(),
        resp_edns_json: Some(edns.to_string()),
    }
}

fn no_filter() -> QueryRecordFilter {
    QueryRecordFilter {
        matcher_tag: None,
        qname: None,
        qtype: None,
        client_ip: None,
        rcode: None,
        status: QueryRecordStatus::All,
    }
}

fn scope(filter: QueryRecordFilter) -> RecordScope {
    RecordScope {
        since_ms: None,
        until_ms: None,
        filter,
    }
}

#[test]
fn test_read_record_row_matches_insert_and_select_column_order() {
    let conn = Connection::open_in_memory().unwrap();
    let tables = tables();
    create_schema(&conn, &tables);

    let expected = sample_record_row();
    let id = insert_record(&conn, &tables, &expected, &[sample_question()], &[]);

    let question_count: i64 = conn
        .query_row(
            "SELECT COUNT(*) FROM questions WHERE record_id = ?1",
            [id],
            |row| row.get(0),
        )
        .unwrap();
    assert_eq!(question_count, 1);

    let row_columns = record_row_select_columns(None);
    let sql = format!(
        "SELECT
            {row_columns}
         FROM {}
         WHERE id = ?1",
        tables.records
    );
    let actual = conn
        .query_row(&sql, [id], |row| {
            Ok(read_record_row(&columns(row, 27)).unwrap())
        })
        .unwrap();

    let expected = RecordRow { id, ..expected };
    assert_eq!(actual, expected);
    assert_eq!(
        query(&conn, &detail_statement(&tables, id)),
        vec![expected]
    );
}

#[test]
fn test_create_schema_backfills_missing_question_index_rows() {
    let conn = Connection::open_in_memory().unwrap();
    let tables = tables();
    create_schema(&conn, &tables);

    let id = insert_record(
        &conn,
        &tables,
        &sample_record_row(),
        &[sample_question()],
        &[],
    );
    conn.execute("DELETE FROM questions", []).unwrap();
    conn.execute(
        "DELETE FROM meta WHERE key = ?1",
        [QUESTIONS_BACKFILL_MARKER],
    )
    .unwrap();

    create_schema(&conn, &tables);

    let question: (String, String) = conn
        .query_row(
            "SELECT name_lc, qtype FROM questions WHERE record_id = ?1",
            [id],
            |row| Ok((row.get(0)?, row.get(1)?)),
        )
        .unwrap();
    assert_eq!(question, ("example.com.".to_string(), "A".to_string()));
}

#[test]
fn test_create_schema_skips_question_backfill_after_marker() {
    let conn = Connection::open_in_memory().unwrap();
    let tables = tables();
    create_schema(&conn, &tables);

    insert_record(
        &conn,
        &tables,
        &sample_record_row(),
        &[sample_question()],
        &[],
    );
    conn.execute("DELETE FROM questions", []).unwrap();

    create_schema(&conn, &tables);

    assert_eq!(count(&conn, "SELECT COUNT(*) FROM questions"), 0);
}

#[test]
fn test_clear_history_clears_tail_before_partial_batch_checkpoint_failure() {
    let mut conn = Connection::open_in_memory().unwrap();
    let tables = tables();
    create_schema(&conn, &tables);

    let tx = conn.transaction().unwrap();
    for request_id in 0..=CLEANUP_BATCH_SIZE {
        let mut record = sample_record_row();
        record.request_id = request_id as u16;
        insert_record(&tx, &tables, &record, &[sample_question()], &[]);
    }
    tx.commit().unwrap();

    let mut tail = VecDeque::from([1]);
    let mut checkpoint_calls = 0;
    let mut checkpoint = || {
        checkpoint_calls += 1;
        if checkpoint_calls == 2 {
            Err(DnsError::runtime("injected checkpoint failure"))
        } else {
            Ok(())
        }
    };

    let mut cleared = 0;
    let mut result = checkpoint();
    while result.is_ok() {
        let deleted = conn
            .execute(&table_statement(DELETE_ANY, &tables), [CLEANUP_BATCH_SIZE])
            .unwrap();
        let (total, more) = after_cleared_batch(&mut tail, cleared, deleted);
        cleared = total;
        if !more {
            break;
        }
        result = checkpoint();
    }

    assert!(result.is_err());
    assert!(tail.is_empty());
    assert_eq!(cleared, 1_000);
    assert_eq!(count(&conn, "SELECT COUNT(*) FROM records"), 1);
}

#[test]
fn steps_are_read_back() {
    let conn = Connection::open_in_memory().unwrap();
    let tables = tables();
    create_schema(&conn, &tables);
    let steps = [
        StepRow {
            event_index: 0,
            sequence_tag: "main".to_string(),
            node_index: Some(3),
            kind: "matcher".to_string(),
            tag: Some("ads".to_string()),
            outcome: "matched".to_string(),
        },
        StepRow {
            event_index: 1,
            sequence_tag: "main".to_string(),
            node_index: None,
            kind: "executor".to_string(),
            tag: None,
            outcome: "executed".to_string(),
        },
    ];
    let id = insert_record(
        &conn,
        &tables,
        &sample_record_row(),
        &[sample_question()],
        &steps,
    );

    let mut prepared = conn.prepare(&table_statement(STEPS, &tables)).unwrap();
    let read: Vec<StepRow> = prepared
        .query_map([id], |row| Ok(read_step_row(&columns(row, 6)).unwrap()))
        .unwrap()
        .map(|row| row.unwrap())
        .collect();
    assert_eq!(read, steps);

    let mut filter = no_filter();
    filter.matcher_tag = Some("ads".to_string());
    let listed = list_statement(&tables, &scope(filter), None, 10).unwrap();
    assert_eq!(query(&conn, &listed).len(), 1);
    let mut filter = no_filter();
    filter.matcher_tag = Some("none".to_string());
    let listed = list_statement(&tables, &scope(filter), None, 10).unwrap();
    assert_eq!(query(&conn, &listed).len(), 0);

    let stats =
        plugin_stats_statement(&tables, &scope(no_filter()), PluginStatsKind::Matcher).unwrap();
    let mut prepared = conn.prepare(&stats.sql).unwrap();
    let rows: Vec<PluginCountRow> = prepared
        .query_map(params_from_iter(values(&stats.params)), |row| {
            Ok(PluginCountRow {
                total_records: row.get(0)?,
                kind: row.get(1)?,
                tag: row.get(2)?,
                checked: row.get(3)?,
                matched: row.get(4)?,
                executed: row.get(5)?,
                query_hits: row.get(6)?,
            })
        })
        .unwrap()
        .map(|row| row.unwrap())
        .collect();
    let (total, plugins) = read_plugin_stats(&rows).unwrap();
    assert_eq!(total, 1);
    assert_eq!(plugins.len(), 1);
    assert_eq!(plugins[0].kind, "matcher");
    assert_eq!(plugins[0].tag.as_deref(), Some("ads"));
    assert_eq!(plugins[0].matched, 1);
}

#[test]
fn records_are_listed_by_page_and_filter() {
    let conn = Connection::open_in_memory().unwrap();
    let tables = tables();
    create_schema(&conn, &tables);
    for i in 0..5 {
        let mut record = sample_record_row();
        record.created_at_ms = 1_000 + i;
        record.client_ip = format!("10.0.0.{i}");
        record.elapsed_ms = 10 * (i as u64 + 1);
        let question = QuestionRow {
            name: format!("Host{i}_x.example."),
            qtype: "aaaa".to_string(),
            qclass: "IN".to_string(),
        };
        insert_record(&conn, &tables, &record, &[question], &[]);
    }

    // One more than the page tells whether there is another.
    let statement = list_statement(&tables, &scope(no_filter()), None, 2).unwrap();
    let (page, cursor) = page_of_records(query(&conn, &statement), 2);
    assert_eq!(
        page.iter().map(|r| r.created_at_ms).collect::<Vec<_>>(),
        [1_004, 1_003]
    );
    assert_eq!(cursor.as_deref(), Some("1003:4"));
    let statement = list_statement(
        &tables,
        &scope(no_filter()),
        Some(ListCursor {
            created_at_ms: 1_003,
            id: 4,
        }),
        10,
    )
    .unwrap();
    let (page, cursor) = page_of_records(query(&conn, &statement), 9);
    assert_eq!(page.len(), 3);
    assert_eq!(cursor, None);

    let mut filter = no_filter();
    filter.qname = Some("HOST1_X".to_string());
    let statement = list_statement(&tables, &scope(filter), None, 10).unwrap();
    assert_eq!(query(&conn, &statement).len(), 1);
    let mut filter = no_filter();
    filter.qname = Some("host%".to_string());
    let statement = list_statement(&tables, &scope(filter), None, 10).unwrap();
    assert_eq!(query(&conn, &statement).len(), 0);
    let mut filter = no_filter();
    filter.qtype = Some("aaaa".to_string());
    filter.client_ip = Some("0.0.3".to_string());
    filter.rcode = Some("noerror".to_string());
    filter.status = QueryRecordStatus::HasResponse;
    let statement = list_statement(
        &tables,
        &RecordScope {
            since_ms: Some(1_000),
            until_ms: Some(1_003),
            filter,
        },
        None,
        10,
    )
    .unwrap();
    let found = query(&conn, &statement);
    assert_eq!(found.len(), 1);
    assert_eq!(found[0].client_ip, "10.0.0.3");

    let elapsed = sample_statement(ELAPSED, &tables, &scope(no_filter())).unwrap();
    let mut prepared = conn.prepare(&elapsed.sql).unwrap();
    let latencies: Vec<u64> = prepared
        .query_map(params_from_iter(values(&elapsed.params)), |row| {
            row.get::<_, i64>(0)
        })
        .unwrap()
        .map(|v| v.unwrap() as u64)
        .collect();
    let histogram = latency_histogram(&latencies);
    assert_eq!(
        histogram.iter().map(|b| b.count).collect::<Vec<_>>(),
        [0, 1, 3, 1, 0, 0, 0]
    );

    let deleted = conn
        .execute(
            &table_statement(DELETE_OLD, &tables),
            [1_002, CLEANUP_BATCH_SIZE],
        )
        .unwrap();
    assert_eq!(after_deletion(0, deleted), (2, false));
    assert_eq!(count(&conn, "SELECT COUNT(*) FROM records"), 3);
}

#[test]
fn statements_can_be_prepared() {
    let conn = Connection::open_in_memory().unwrap();
    let tables = tables();
    create_schema(&conn, &tables);
    let mut filter = no_filter();
    filter.matcher_tag = Some("m".to_string());
    filter.qname = Some("q".to_string());
    filter.qtype = Some("a".to_string());
    filter.client_ip = Some("c".to_string());
    filter.rcode = Some("r".to_string());
    filter.status = QueryRecordStatus::NoResponse;
    let scope = RecordScope {
        since_ms: Some(1),
        until_ms: Some(2),
        filter,
    };
    for template in [QTYPE_DISTRIBUTION, RCODE_DISTRIBUTION, ELAPSED, TIMESERIES] {
        let statement = sample_statement(template, &tables, &scope).unwrap();
        let prepared = conn.prepare(&statement.sql).unwrap();
        assert_eq!(prepared.parameter_count(), statement.params.len());
    }
    for template in [TOP_CLIENTS, TOP_QNAMES, SLOW] {
        let statement = top_statement(template, &tables, &scope, 5).unwrap();
        let prepared = conn.prepare(&statement.sql).unwrap();
        assert_eq!(prepared.parameter_count(), statement.params.len());
    }
    for kind in [
        PluginStatsKind::Matcher,
        PluginStatsKind::Executor,
        PluginStatsKind::Builtin,
        PluginStatsKind::All,
    ] {
        let statement = plugin_stats_statement(&tables, &scope, kind).unwrap();
        let prepared = conn.prepare(&statement.sql).unwrap();
        assert_eq!(prepared.parameter_count(), statement.params.len());
    }
}

#[test]
fn tags_become_table_names() {
    assert_eq!(sanitize_tag("Main-1"), "main_1");
    assert_eq!(sanitize_tag(""), "_");
    assert_eq!(sanitize_tag("\u{e4}"), "__");
    assert_eq!(fnv1a_hex(b""), "cbf29ce484222325");
    assert_eq!(fnv1a_hex(b"a"), "af74d84c8601ec8c");
    let names = table_names("main");
    assert_eq!(
        names.records,
        format!("qr_main_{}_v1_records", fnv1a_hex(b"main"))
    );
    assert_eq!(
        names.meta,
        format!("qr_main_{}_v1_meta", fnv1a_hex(b"main"))
    );
    // Tags that look the same as parts of names have tables of their own.
    assert_ne!(table_names("a-b").records, table_names("a_b").records);
    assert_eq!(wal_path("/tmp/q.db"), "/tmp/q.db-wal");
}

#[test]
fn templates_are_filled() {
    assert_eq!(
        fill("a {x} {y} {z} {", &vec![("x", "1"), ("y", "{x}")]),
        "a 1 {x} {z} {"
    );
}

#[test]
fn patterns_are_literal() {
    assert_eq!(like_pattern("a%b_c\\d"), "%a\\%b\\_c\\\\d%");
    assert_eq!(
        encode_cursor(ListCursor {
            created_at_ms: -5,
            id: 7
        }),
        "-5:7"
    );
    assert_eq!(as_i64(7), Ok(7));
    assert_eq!(
        as_i64(u64::MAX),
        Err(OutOfRange { value: i64::MAX })
    );
    assert_eq!(bool_to_i64(true), 1);
    assert_eq!(join_clauses(&Vec::new()), "1 = 1");
    assert_eq!(
        join_clauses(&vec!["a".to_string(), "b".to_string()]),
        "a AND b"
    );
    let clauses = record_filter_clauses("r", &tables(), Some(5), None, &no_filter()).unwrap();
    assert_eq!(clauses.texts, ["r.created_at_ms >= ?"]);
    assert_eq!(clauses.params, [SqlValue::Integer(5)]);
    assert!(record_filter_clauses("r", &tables(), Some(u64::MAX), None, &no_filter()).is_err());
}

#[test]
fn rows_that_cannot_be_read_are_told() {
    let mut row = values_of(&sample_record_row());
    assert_eq!(
        read_record_row(&row[..26].iter().map(again).collect()),
        Err(ReadProblem::MissingColumns)
    );
    row[4] = SqlValue::Integer(1);
    assert_eq!(
        read_record_row(&row.iter().map(again).collect()),
        Err(ReadProblem::WrongType(4))
    );
    row[4] = SqlValue::Text("127.0.0.1".to_string());
    row[3] = SqlValue::Integer(70_000);
    assert_eq!(
        read_record_row(&row),
        Err(ReadProblem::OutOfRange(70_000))
    );
    let mut long = sample_record_row();
    long.elapsed_ms = u64::MAX;
    assert_eq!(
        insert_values(&long),
        Err(OutOfRange { value: i64::MAX })
    );
}

#[test]
fn json_columns_have_to_be_well_formed() {
    let text = |t: &str| SqlValue::Text(t.to_string());
    for index in [5, 10, 22, 23, 24, 25, 26] {
        for bad in ["", "[", "[] []", "{'a':1}", "nul"] {
            let mut row = values_of(&sample_record_row());
            row[index] = text(bad);
            assert_eq!(
                read_record_row(&row),
                Err(ReadProblem::MalformedJson(index)),
                "{bad}"
            );
        }
        let mut row = values_of(&sample_record_row());
        row[index] = text(" {\"a\": [1e3, null, \"\\u00e4\"]} ");
        assert!(read_record_row(&row).is_ok());
        row[index] = SqlValue::Integer(1);
        assert_eq!(read_record_row(&row), Err(ReadProblem::WrongType(index)));
    }
    // The first problem counts.
    let mut row = values_of(&sample_record_row());
    row[22] = text("x");
    row[25] = text("x");
    assert_eq!(read_record_row(&row), Err(ReadProblem::MalformedJson(22)));
    row[19] = SqlValue::Integer(-1);
    assert_eq!(read_record_row(&row), Err(ReadProblem::OutOfRange(-1)));
    // No other column is taken for JSON.
    let mut row = values_of(&sample_record_row());
    row[11] = text("[");
    assert!(read_record_row(&row).is_ok());
    // An absent part is no malformed one.
    row[10] = SqlValue::Null;
    row[26] = SqlValue::Null;
    assert_eq!(read_record_row(&row).unwrap().req_edns_json, None);

    let row = values_of(&sample_record_row());
    let mut well_formed = vec![false; 27];
    assert_eq!(
        read_checked_row(&row, &well_formed),
        Err(ReadProblem::MalformedJson(5))
    );
    well_formed[5] = true;
    assert_eq!(
        read_checked_row(&row, &well_formed),
        Err(ReadProblem::MalformedJson(10))
    );
    assert_eq!(
        read_checked_row(&row, &vec![true; 27]),
        Ok(sample_record_row())
    );
}

#[test]
fn questions_and_steps_belong_to_their_record() {
    let question = |name: &str, qtype: &str| QuestionRow {
        name: name.to_string(),
        qtype: qtype.to_string(),
        qclass: "IN".to_string(),
    };
    let step = |event_index, node_index| StepRow {
        event_index,
        sequence_tag: "main".to_string(),
        node_index,
        kind: "matcher".to_string(),
        tag: None,
        outcome: "matched".to_string(),
    };
    let (questions, steps) = record_rows(
        7,
        &vec![question("A.Example.", "aaaa"), question("b.", "A")],
        &vec![step(4, Some(2)), step(5, None)],
    );
    let text = |t: &str| SqlValue::Text(t.to_string());
    assert_eq!(
        questions,
        [
            vec![
                SqlValue::Integer(7),
                SqlValue::Integer(0),
                text("a.example."),
                text("AAAA"),
                text("IN"),
            ],
            vec![
                SqlValue::Integer(7),
                SqlValue::Integer(1),
                text("b."),
                text("A"),
                text("IN"),
            ],
        ]
    );
    assert_eq!(
        steps,
        [
            vec![
                SqlValue::Integer(7),
                SqlValue::Integer(4),
                text("main"),
                SqlValue::Integer(2),
                text("matcher"),
                SqlValue::Null,
                text("matched"),
            ],
            vec![
                SqlValue::Integer(7),
                SqlValue::Integer(5),
                text("main"),
                SqlValue::Null,
                text("matcher"),
                SqlValue::Null,
                text("matched"),
            ],
        ]
    );
    assert_eq!(record_rows(7, &Vec::new(), &Vec::new()), (vec![], vec![]));
}

fn values_of(record: &RecordRow) -> Vec<SqlValue> {
    let mut row = vec![SqlValue::Integer(record.id)];
    row.extend(insert_values(record).unwrap());
    row
}

fn again(v: &SqlValue) -> SqlValue {
    match v {
        SqlValue::Null => SqlValue::Null,
        SqlValue::Integer(n) => SqlValue::Integer(*n),
        SqlValue::Text(t) => SqlValue::Text(t.clone()),
    }
}

#[test]
fn latencies_fall_into_classes() {
    let histogram = latency_histogram(&[0, 9, 10, 19, 20, 50, 99, 100, 300, 999, 1_000, 5_000]);
    assert_eq!(
        histogram
            .iter()
            .map(|b| (b.lt_ms, b.count))
            .collect::<Vec<_>>(),
        [
            (Some(10), 2),
            (Some(20), 2),
            (Some(50), 1),
            (Some(100), 2),
            (Some(300), 1),
            (Some(1_000), 2),
            (None, 2)
        ]
    );
}

#[test]
fn times_fall_into_spans() {
    assert_eq!(bucket_floor(125, 60), 120);
    assert_eq!(bucket_floor(-5, 60), -60);
    assert_eq!(bucket_floor(125, 0), 125);

    let row = |created_at_ms: i64, elapsed_ms: u64, error: bool, has_response: bool| TimeRow {
        created_at_ms,
        elapsed_ms,
        error,
        has_response,
    };
    let rows = vec![
        row(190, 5, false, true),
        row(125, 7, true, false),
        row(130, 9, false, false),
        row(10, 1, false, true),
    ];
    let spans = timeseries(&rows, 60, 2);
    assert_eq!(spans.len(), 2);
    assert_eq!(spans[0].bucket_ms, 120);
    assert_eq!(spans[0].total, 2);
    assert_eq!(spans[0].error_count, 1);
    assert_eq!(spans[0].no_response_count, 1);
    assert_eq!(spans[0].elapsed_sum, 16);
    assert_eq!(spans[0].elapsed_values, [7, 9]);
    assert_eq!(spans[1].bucket_ms, 180);
    assert_eq!(spans[1].total, 1);
}

#[test]
fn counts_are_read() {
    let row = |sample_size: i64, key: Option<&str>, count: i64| CountRow {
        sample_size,
        key: key.map(str::to_string),
        count,
    };
    assert_eq!(
        read_counts(&vec![row(9, Some("a"), 4), row(9, Some("b"), 2)]),
        Ok((
            9,
            vec![
                KeyCount {
                    key: "a".to_string(),
                    count: 4
                },
                KeyCount {
                    key: "b".to_string(),
                    count: 2
                }
            ]
        ))
    );
    assert_eq!(read_counts(&vec![row(3, None, 0)]), Ok((3, Vec::new())));
    assert_eq!(read_counts(&vec![row(3, Some("a"), -1)]), Err(-1));
}

#[test]
fn plugin_statistics_reject_negative_numbers() {
    let row = |total_records: i64, checked: i64, executed: i64| PluginCountRow {
        total_records,
        kind: Some("matcher".to_string()),
        tag: None,
        checked,
        matched: 0,
        executed,
        query_hits: 0,
    };
    assert_eq!(
        read_plugin_stats(&vec![row(1, 0, 0), row(-3, -2, -1)]),
        Err(NegativeCount::Other(-3))
    );
    assert_eq!(
        read_plugin_stats(&vec![row(1, -2, -1)]),
        Err(NegativeCount::Checked(-2))
    );
    assert_eq!(
        read_plugin_stats(&vec![row(1, 0, -1)]),
        Err(NegativeCount::Other(-1))
    );
}

#[test]
fn step_rows_reject_places_out_of_range() {
    let step = |event: i64, node: SqlValue| {
        vec![
            SqlValue::Integer(event),
            SqlValue::Text("main".to_string()),
            node,
            SqlValue::Text("matcher".to_string()),
            SqlValue::Null,
            SqlValue::Text("matched".to_string()),
        ]
    };
    assert!(read_step_row(&step(0, SqlValue::Null)).is_ok());
    assert_eq!(
        read_step_row(&step(-1, SqlValue::Null)),
        Err(ReadProblem::OutOfRange(-1))
    );
    assert_eq!(
        read_step_row(&step(0, SqlValue::Integer(-5))),
        Err(ReadProblem::NodeIndexOutOfRange(-5))
    );
}

fn stats(auto_vacuum: i64, page_count: u64, freelist_count: u64) -> SpaceStats {
    SpaceStats {
        auto_vacuum,
        page_size: 4096,
        page_count,
        freelist_count,
        database_bytes: 4096 * page_count,
        wal_bytes: 0,
    }
}

#[test]
fn space_is_given_back() {
    assert_eq!(reclaim_method(0), Ok(ReclaimMethod::Rewrite));
    assert_eq!(reclaim_method(1), Ok(ReclaimMethod::Nothing));
    assert_eq!(reclaim_method(2), Ok(ReclaimMethod::Incremental));
    assert_eq!(
        reclaim_method(3),
        Err(DnsError::runtime(
            "query_recorder returned unsupported auto_vacuum mode 3"
        ))
    );
    let result = |after: SpaceStats, migrated: bool| SpaceReclaimResult {
        before: stats(2, 10, 0),
        reclaimable: stats(2, 10, 4),
        after,
        migrated,
        peak_wal_bytes: 0,
    };
    assert!(check_reclaimed(result(stats(2, 6, 0), false)).is_ok());
    assert!(check_reclaimed(result(stats(0, 6, 0), true)).is_err());
    assert!(check_reclaimed(result(stats(2, 6, 1), false)).is_err());
    assert!(check_reclaimed(result(stats(2, 10, 0), false)).is_err());

    assert_eq!(vacuum_progress(5, 2), Ok(false));
    assert_eq!(vacuum_progress(5, 0), Ok(true));
    assert!(vacuum_progress(5, 5).is_err());
    assert_eq!(check_checkpoint(0), Ok(()));
    assert!(check_checkpoint(1).is_err());

    let mut peak = 5;
    observe_wal_size(&mut peak, 3);
    assert_eq!(peak, 5);
    observe_wal_size(&mut peak, 8);
    assert_eq!(peak, 8);
    assert_eq!(after_deletion(usize::MAX, 1), (usize::MAX, false));
    assert_eq!(
        reclaim_failed(3, &DnsError::runtime("busy")),
        DnsError::runtime("query history cleared (3 records), but space reclaim failed: busy")
    );
}

#[test]
fn records_are_written_in_batches() {
    let mut state = WriterState::new(2);
    assert_eq!(state.handle(WriterEvent::Insert(1)), WriterAction::Wait);
    assert_eq!(state.handle(WriterEvent::Insert(2)), WriterAction::Flush);
    assert_eq!(state.take_pending(), vec![1, 2]);
    assert_eq!(
        state.handle(WriterEvent::Cleanup),
        WriterAction::FlushThenCleanup
    );
    assert_eq!(
        state.handle(WriterEvent::ClearHistory),
        WriterAction::FlushThenClear
    );
    assert_eq!(
        state.handle(WriterEvent::Timeout(false)),
        WriterAction::Flush
    );
    assert_eq!(
        state.handle(WriterEvent::Timeout(true)),
        WriterAction::FlushThenStop
    );
    assert_eq!(
        state.handle(WriterEvent::Disconnected),
        WriterAction::FlushThenStop
    );
    assert_eq!(state.take_pending(), Vec::<i32>::new());

    let mut tail = VecDeque::new();
    for i in 0..5 {
        push_tail(&mut tail, i, 3);
    }
    assert_eq!(tail, [2, 3, 4]);
    clear_tail(&mut tail);
    assert!(tail.is_empty());
}
