//! What holds of the rows, the statements and the statistics of a recorder.

use vstd::prelude::*;

use crate::cache::listing::hex_char;
use crate::recorder::filter::{
    as_signed, cursor_text, filter_clauses, joined, kind_text, ListCursor, PluginStatsKind, SqlView,
};
use crate::recorder::names::{
    fnv1a, hex_digits, name_char, name_prefix, safe_tag, TableNames, SCHEMA_VERSION,
};
use crate::recorder::rows::{
    bool_value, column_problem, columns, integer_of, kind_of, optional_bool, optional_bool_of,
    optional_text, optional_text_of, question_columns, readable, row_read, text_of, QuestionRow,
    ReadProblem, RecordRow, StoredView, RECORD_COLUMNS,
};
use crate::recorder::space::{method_for, reclaim_problem, ReclaimMethod, SpaceStats};
use crate::recorder::sql::{
    column_names, fetch_limit, list_view, plugin_stats_view, sample_view, scope_fits, scope_params,
    scope_where, selected_columns, statement_vars, RecordScope,
    BACKFILL_DONE, CLEANUP_BATCH_SIZE, CURSOR_CLAUSE, DELETE_ANY, DELETE_OLD, DETAIL, ELAPSED, LIST,
    MARK_BACKFILLED, QUESTIONS_BACKFILL_MARKER, STEPS, TIMESERIES, VACUUM_BATCH_PAGES,
};
use crate::recorder::stats::{
    are_buckets, bucket_of, class_of, count_in_class, counts_of, edge, falls_into, floor_of,
    has_bucket, latest, negative_in, plugins_of, row_fits, BucketView, CountRow, NegativeCount,
    PluginCountRow, TimeRow,
};
use crate::recorder::template::{filled, value_for};
use crate::recorder::writer::{action_for, tail_with, WriterAction, WriterEvent};
use crate::text::{decimal, decimal_int, lower_text, upper_text};
use vstd::utf8::encode_utf8;

verus! {

/// Whether a record has this value in the column of this name.
pub open spec fn holds_in(r: StoredView, i: int, name: Seq<char>, value: SqlView) -> bool {
    column_names()[i] == name && columns(r)[i] == value
}

/// Each column of a record holds what its name says.
pub proof fn law_columns_by_name(r: StoredView)
    ensures
        column_names().len() == 27,
        columns(r).len() == 27,
        holds_in(r, 0, "id"@, SqlView::Integer(r.id)),
        holds_in(r, 1, "created_at_ms"@, SqlView::Integer(r.created_at_ms)),
        holds_in(r, 2, "elapsed_ms"@, SqlView::Integer(r.elapsed_ms as i64)),
        holds_in(r, 3, "request_id"@, SqlView::Integer(r.request_id as i64)),
        holds_in(r, 4, "client_ip"@, SqlView::Text(r.client_ip)),
        holds_in(r, 5, "questions_json"@, SqlView::Text(r.questions_json)),
        holds_in(r, 6, "req_rd"@, bool_value(r.req_rd)),
        holds_in(r, 7, "req_cd"@, bool_value(r.req_cd)),
        holds_in(r, 8, "req_ad"@, bool_value(r.req_ad)),
        holds_in(r, 9, "req_opcode"@, SqlView::Text(r.req_opcode)),
        holds_in(r, 10, "req_edns_json"@, optional_text(r.req_edns_json)),
        holds_in(r, 11, "error"@, optional_text(r.error)),
        holds_in(r, 12, "has_response"@, bool_value(r.has_response)),
        holds_in(r, 13, "rcode"@, optional_text(r.rcode)),
        holds_in(r, 14, "resp_aa"@, optional_bool(r.resp_aa)),
        holds_in(r, 15, "resp_tc"@, optional_bool(r.resp_tc)),
        holds_in(r, 16, "resp_ra"@, optional_bool(r.resp_ra)),
        holds_in(r, 17, "resp_ad"@, optional_bool(r.resp_ad)),
        holds_in(r, 18, "resp_cd"@, optional_bool(r.resp_cd)),
        holds_in(r, 19, "answer_count"@, SqlView::Integer(r.answer_count as i64)),
        holds_in(r, 20, "authority_count"@, SqlView::Integer(r.authority_count as i64)),
        holds_in(r, 21, "additional_count"@, SqlView::Integer(r.additional_count as i64)),
        holds_in(r, 22, "answers_json"@, SqlView::Text(r.answers_json)),
        holds_in(r, 23, "authorities_json"@, SqlView::Text(r.authorities_json)),
        holds_in(r, 24, "additionals_json"@, SqlView::Text(r.additionals_json)),
        holds_in(r, 25, "signature_json"@, SqlView::Text(r.signature_json)),
        holds_in(r, 26, "resp_edns_json"@, optional_text(r.resp_edns_json)),
{
}

/// A truth value is stored as one or zero, and what is missing as nothing.
pub proof fn law_stored_values(b: bool, t: Seq<char>)
    ensures
        bool_value(true) == SqlView::Integer(1),
        bool_value(false) == SqlView::Integer(0),
        optional_bool(Some(b)) == bool_value(b),
        optional_bool(None) == SqlView::Null,
        optional_text(Some(t)) == SqlView::Text(t),
        optional_text(None) == SqlView::Null,
{
}

/// The numbers of a stored record are looked at before they are read: none is below zero,
/// the identifier has sixteen bits and each count thirty-two. Nothing else is read from a
/// column of numbers.
pub proof fn law_numbers_are_checked(i: int, n: i64, ok: bool)
    requires
        i == 2 || i == 3 || 19 <= i <= 21,
    ensures
        ({
            let p = column_problem(kind_of(i), SqlView::Integer(n), i as usize, ok);
            let largest = if i == 2 {
                i64::MAX as int
            } else if i == 3 {
                0xFFFF
            } else {
                0xFFFF_FFFF
            };
            &&& p is None <==> 0 <= n <= largest
            &&& p is Some ==> p == Some(ReadProblem::OutOfRange(n))
            &&& column_problem(kind_of(i), SqlView::Null, i as usize, ok) == Some(
                ReadProblem::WrongType(i as usize),
            )
        }),
{
}

/// A column of JSON is read only where its text is JSON; a column that may be empty is read
/// where it is; one that may not is not.
pub proof fn law_texts_are_checked(i: int, t: Seq<char>, ok: bool)
    requires
        0 <= i < 27,
    ensures
        i == 5 || i == 10 || 22 <= i <= 26 ==> (column_problem(
            kind_of(i),
            SqlView::Text(t),
            i as usize,
            ok,
        ) is None <==> ok),
        column_problem(kind_of(i), SqlView::Null, i as usize, ok) is None <==> i == 10 || i == 11
            || 13 <= i <= 18 || i == 26,
{
}

/// A question is stored with its name in lower case and its type in upper case.
pub proof fn law_stored_question(record_id: i64, index: usize, q: QuestionRow)
    ensures
        ({
            let c = question_columns(record_id, index, q);
            &&& c.len() == 5
            &&& c[0] == SqlView::Integer(record_id)
            &&& c[1] == SqlView::Integer(index as i64)
            &&& c[2] == SqlView::Text(lower_text(q.name@))
            &&& c[3] == SqlView::Text(upper_text(q.qtype@))
            &&& c[4] == SqlView::Text(q.qclass@)
        }),
{
}

/// A time span begins at a multiple of its length, not after the time and less than a length
/// before it.
pub proof fn law_time_span(t: i64, length: i64)
    ensures
        length > 0 ==> floor_of(t, length) % (length as int) == 0 && floor_of(t, length) <= t
            < floor_of(t, length) + length,
        length <= 0 ==> floor_of(t, length) == t,
{
    if length > 0 {
        let d = length as int;
        let x = t as int;
        vstd::arithmetic::div_mod::lemma_fundamental_div_mod(x, d);
        vstd::arithmetic::div_mod::lemma_mod_bound(x, d);
        assert(x - x % d == d * (x / d));
        vstd::arithmetic::div_mod::lemma_mod_multiples_basic(x / d, d);
        assert(d * (x / d) == (x / d) * d) by (nonlinear_arith);
    }
}

/// A latency is below the bound of its class and not below that of the one before.
pub proof fn law_latency_class(v: u64)
    ensures
        0 <= class_of(v) <= 6,
        edge(class_of(v)) matches Some(e) ==> v < e,
        class_of(v) > 0 ==> edge(class_of(v) - 1) is Some && v >= edge(class_of(v) - 1)->0,
        edge(0) == Some(10u64) && edge(1) == Some(20u64) && edge(2) == Some(50u64),
        edge(3) == Some(100u64) && edge(4) == Some(300u64) && edge(5) == Some(1000u64),
        edge(6) is None,
{
}

/// One more latency counts in its class and in no other.
pub proof fn law_latency_counts(values: Seq<u64>, v: u64, class: int)
    ensures
        count_in_class(values.push(v), class) == count_in_class(values, class) + (if class
            == class_of(v) {
            1nat
        } else {
            0nat
        }),
        count_in_class(Seq::empty(), class) == 0,
{
    assert(values.push(v).drop_last() =~= values);
}

/// One more record counts in the time span that it falls into and in no other: in the total,
/// among the errors where it has one, among those without a response where it has neither,
/// and with its latency.
pub proof fn law_record_counts(rows: Seq<TimeRow>, r: TimeRow, length: i64, b: i64)
    ensures
        ({
            let before = bucket_of(rows, length, b);
            let after = bucket_of(rows.push(r), length, b);
            &&& after.bucket_ms == b
            &&& floor_of(r.created_at_ms, length) != b ==> after == before
            &&& floor_of(r.created_at_ms, length) == b && before.total < u64::MAX ==> after.total
                == before.total + 1
            &&& floor_of(r.created_at_ms, length) == b && before.error_count < u64::MAX
                ==> after.error_count == before.error_count + (if r.error {
                1int
            } else {
                0
            })
            &&& floor_of(r.created_at_ms, length) == b && before.no_response_count < u64::MAX
                ==> after.no_response_count == before.no_response_count + (if !r.error
                && !r.has_response {
                1int
            } else {
                0
            })
            &&& floor_of(r.created_at_ms, length) == b && before.elapsed_sum + r.elapsed_ms
                <= u64::MAX ==> after.elapsed_sum == before.elapsed_sum + r.elapsed_ms
            &&& floor_of(r.created_at_ms, length) == b ==> after.elapsed_values
                == before.elapsed_values.push(r.elapsed_ms)
            &&& bucket_of(Seq::empty(), length, b).total == 0
            &&& bucket_of(Seq::empty(), length, b).error_count == 0
            &&& bucket_of(Seq::empty(), length, b).no_response_count == 0
            &&& bucket_of(Seq::empty(), length, b).elapsed_sum == 0
        }),
    decreases rows.len(),
{
    assert(rows.push(r).drop_last() =~= rows);
    lemma_bucket_place(rows, length, b);
}

proof fn lemma_bucket_place(rows: Seq<TimeRow>, length: i64, b: i64)
    ensures
        bucket_of(rows, length, b).bucket_ms == b,
    decreases rows.len(),
{
    if rows.len() > 0 {
        lemma_bucket_place(rows.drop_last(), length, b);
    }
}

/// The last time spans are given, as many as are wanted, in their order.
pub proof fn law_last_time_spans(all: Seq<BucketView>, n: usize)
    ensures
        ({
            let l = latest(all, n);
            &&& l.len() == (if all.len() <= n {
                all.len()
            } else {
                n as nat
            })
            &&& forall|i: int|
                0 <= i < l.len() ==> #[trigger] l[i] == all[i + (all.len() - l.len())]
        }),
{
}

/// A row without a key gives no count, and one with a key its own.
pub proof fn law_counts(rows: Seq<CountRow>, r: CountRow)
    ensures
        counts_of(Seq::empty()).len() == 0,
        r.key is None ==> counts_of(rows.push(r)) == counts_of(rows),
        r.key is Some && r.count >= 0 ==> counts_of(rows.push(r)) == counts_of(rows).push(
            (r.key->0@, r.count as u64),
        ),
{
    assert(rows.push(r).drop_last() =~= rows);
}

/// A row without a kind gives no statistics, and one with a kind its own numbers.
pub proof fn law_plugin_counts(rows: Seq<PluginCountRow>, r: PluginCountRow)
    ensures
        plugins_of(Seq::empty()).len() == 0,
        r.kind is None ==> plugins_of(rows.push(r)) == plugins_of(rows),
        r.kind is Some && r.checked >= 0 && r.matched >= 0 && r.executed >= 0 && r.query_hits >= 0
            ==> ({
            let all = plugins_of(rows.push(r));
            &&& all.len() == plugins_of(rows).len() + 1
            &&& all.drop_last() == plugins_of(rows)
            &&& all.last().kind == r.kind->0@
            &&& all.last().checked == r.checked
            &&& all.last().matched == r.matched
            &&& all.last().executed == r.executed
            &&& all.last().query_total == r.query_hits
        }),
{
    assert(rows.push(r).drop_last() =~= rows);
    if r.kind is Some {
        assert(plugins_of(rows.push(r)).drop_last() =~= plugins_of(rows));
    }
}

/// A number is stored exactly where it has a place among the signed ones.
pub proof fn law_signed(v: u64)
    ensures
        v <= i64::MAX ==> as_signed(v) is Some && as_signed(v)->0 == v,
        v > i64::MAX ==> as_signed(v) is None,
{
}

proof fn lemma_digits(n: nat)
    ensures
        decimal(n).len() > 0,
        forall|i: int| 0 <= i < decimal(n).len() ==> '0' <= #[trigger] decimal(n)[i] <= '9',
    decreases n,
{
    if n >= 10 {
        lemma_digits(n / 10);
        assert forall|i: int| 0 <= i < decimal(n).len() implies '0' <= #[trigger] decimal(n)[i]
            <= '9' by {
            if i < decimal(n / 10).len() {
                assert(decimal(n)[i] == decimal(n / 10)[i]);
            }
        }
    }
}

proof fn lemma_last_digit(n: nat)
    ensures
        decimal(n).last() as int == 48 + n % 10,
{
}

proof fn lemma_decimal_injective(a: nat, b: nat)
    requires
        decimal(a) == decimal(b),
    ensures
        a == b,
    decreases a,
{
    lemma_digits(a / 10);
    lemma_digits(b / 10);
    let x = decimal(a);
    let y = decimal(b);
    lemma_last_digit(a);
    lemma_last_digit(b);
    assert(x.last() == y.last());
    if a >= 10 && b >= 10 {
        assert(x.drop_last() =~= decimal(a / 10));
        assert(y.drop_last() =~= decimal(b / 10));
        lemma_decimal_injective(a / 10, b / 10);
    } else if a < 10 && b < 10 {
        assert(x[0] == y[0]);
    } else if a >= 10 {
        assert(x.len() >= 2 && y.len() == 1);
    } else {
        assert(y.len() >= 2 && x.len() == 1);
    }
}

proof fn lemma_signed_injective(a: int, b: int)
    requires
        decimal_int(a) == decimal_int(b),
    ensures
        a == b,
{
    lemma_digits(if a < 0 {
        (-a) as nat
    } else {
        a as nat
    });
    lemma_digits(if b < 0 {
        (-b) as nat
    } else {
        b as nat
    });
    let x = decimal_int(a);
    let y = decimal_int(b);
    assert(x[0] == y[0]);
    if a < 0 {
        assert(x[0] == '-');
        assert(x.skip(1) =~= decimal((-a) as nat));
        if b >= 0 {
            assert('0' <= decimal(b as nat)[0]);
        } else {
            assert(y.skip(1) =~= decimal((-b) as nat));
            lemma_decimal_injective((-a) as nat, (-b) as nat);
        }
    } else if b < 0 {
        assert(y[0] == '-');
        assert('0' <= decimal(a as nat)[0]);
    } else {
        lemma_decimal_injective(a as nat, b as nat);
    }
}

proof fn lemma_no_colon(a: int)
    ensures
        forall|i: int| 0 <= i < decimal_int(a).len() ==> #[trigger] decimal_int(a)[i] != ':',
{
    let n = if a < 0 {
        (-a) as nat
    } else {
        a as nat
    };
    lemma_digits(n);
    assert forall|i: int| 0 <= i < decimal_int(a).len() implies #[trigger] decimal_int(a)[i]
        != ':' by {
        if a < 0 && i > 0 {
            assert(decimal_int(a)[i] == decimal(n)[i - 1]);
        }
    }
}

/// The text of a place in the list of records is that of no other place.
pub proof fn law_places_are_told_apart(a: ListCursor, b: ListCursor)
    requires
        cursor_text(a) == cursor_text(b),
    ensures
        a == b,
{
    reveal_strlit(":");
    let x = decimal_int(a.created_at_ms as int);
    let y = decimal_int(b.created_at_ms as int);
    let s = cursor_text(a);
    let t = cursor_text(b);
    lemma_no_colon(a.created_at_ms as int);
    lemma_no_colon(b.created_at_ms as int);
    assert(s[x.len() as int] == ':');
    assert(t[y.len() as int] == ':');
    if x.len() < y.len() {
        assert(t[x.len() as int] == y[x.len() as int]);
    }
    if y.len() < x.len() {
        assert(s[y.len() as int] == x[y.len() as int]);
    }
    assert(x.len() == y.len());
    assert(s.take(x.len() as int) =~= x);
    assert(t.take(y.len() as int) =~= y);
    assert(s.skip(x.len() as int + 1) =~= decimal_int(a.id as int));
    assert(t.skip(y.len() as int + 1) =~= decimal_int(b.id as int));
    lemma_signed_injective(a.created_at_ms as int, b.created_at_ms as int);
    lemma_signed_injective(a.id as int, b.id as int);
}

/// The kinds of plugins as the database has them.
pub proof fn law_kind_names()
    ensures
        kind_text(PluginStatsKind::Matcher) == "matcher"@,
        kind_text(PluginStatsKind::Executor) == "executor"@,
        kind_text(PluginStatsKind::Builtin) == "builtin"@,
        kind_text(PluginStatsKind::All) == "all"@,
{
}

/// One more record than a page holds is fetched. The values of a statement are those of the
/// conditions, then those of the place in the list, and then the number of records.
pub proof fn law_list_values(
    tables: TableNames,
    s: RecordScope,
    cursor: Option<ListCursor>,
    limit: usize,
)
    requires
        limit < i64::MAX,
        limit < usize::MAX,
    ensures
        fetch_limit(limit) == limit + 1,
        ({
            let asked = filter_clauses("r"@, tables, s.since_ms, s.until_ms, s.filter).params;
            let p = list_view(tables, s, cursor, limit).params;
            &&& p.last() == SqlView::Integer((limit + 1) as i64)
            &&& cursor is None ==> p == asked.push(SqlView::Integer((limit + 1) as i64))
            &&& cursor matches Some(k) ==> p == asked + seq![
                SqlView::Integer(k.created_at_ms),
                SqlView::Integer(k.created_at_ms),
                SqlView::Integer(k.id),
                SqlView::Integer((limit + 1) as i64),
            ]
        }),
{
    if let Some(k) = cursor {
        let asked = filter_clauses("r"@, tables, s.since_ms, s.until_ms, s.filter).params;
        assert(list_view(tables, s, cursor, limit).params =~= asked + seq![
            SqlView::Integer(k.created_at_ms),
            SqlView::Integer(k.created_at_ms),
            SqlView::Integer(k.id),
            SqlView::Integer((limit + 1) as i64),
        ]);
    }
}

/// Statistics look at the latest ten thousand records, and at the plugins of one kind where
/// one is asked for.
pub proof fn law_statistics_values(
    template: Seq<char>,
    tables: TableNames,
    s: RecordScope,
    kind: PluginStatsKind,
)
    ensures
        ({
            let asked = scope_params(tables, s);
            &&& sample_view(template, tables, s).params == asked.push(SqlView::Integer(10000))
            &&& kind == PluginStatsKind::All ==> plugin_stats_view(tables, s, kind).params
                == asked.push(SqlView::Integer(10000))
            &&& kind != PluginStatsKind::All ==> plugin_stats_view(tables, s, kind).params
                == asked.push(SqlView::Integer(10000)).push(SqlView::Text(kind_text(kind)))
        }),
{
}

/// Records are listed from the latest on, those of the same time by their number; behind a
/// place come those before it in time, or of the same time with a smaller number. The oldest
/// are deleted first, those before a time or all.
pub proof fn law_statement_texts()
    ensures
        CURSOR_CLAUSE@ == "(r.created_at_ms < ? OR (r.created_at_ms = ? AND r.id < ?))"@,
        LIST@ == "SELECT
            {row_columns}
         FROM {records} r
         WHERE {where_sql}
         ORDER BY r.created_at_ms DESC, r.id DESC
         LIMIT ?"@,
        DETAIL@ == "SELECT
            {row_columns}
         FROM {records}
         WHERE id = ?1"@,
        STEPS@ == "SELECT event_index, sequence_tag, node_index, kind, tag, outcome
         FROM {steps}
         WHERE record_id = ?1
         ORDER BY event_index ASC"@,
        DELETE_OLD@ == "DELETE FROM {records}
                 WHERE id IN (
                    SELECT id FROM {records}
                    WHERE created_at_ms < ?1
                    ORDER BY created_at_ms ASC, id ASC
                    LIMIT ?2
                 )"@,
        DELETE_ANY@ == "DELETE FROM {records}
                 WHERE id IN (
                    SELECT id FROM {records}
                    ORDER BY id ASC
                    LIMIT ?1
                 )"@,
        ELAPSED@ == "SELECT r.elapsed_ms
         FROM {records} r
         WHERE {where_sql}
         ORDER BY r.created_at_ms DESC, r.id DESC
         LIMIT ?"@,
        TIMESERIES@ == "SELECT r.created_at_ms, r.elapsed_ms, r.error, r.has_response
         FROM {records} r
         WHERE {where_sql}
         ORDER BY r.created_at_ms DESC, r.id DESC
         LIMIT ?"@,
{
}

/// A database that gives nothing back is written anew, one that gives pages back by itself is
/// left alone, and one that gives some back at a time does so. There is no other mode.
pub proof fn law_reclaim_method(mode: i64)
    ensures
        method_for(mode) == Some(ReclaimMethod::Rewrite) <==> mode == 0,
        method_for(mode) == Some(ReclaimMethod::Nothing) <==> mode == 1,
        method_for(mode) == Some(ReclaimMethod::Incremental) <==> mode == 2,
        method_for(mode) is None <==> mode < 0 || mode > 2,
{
}

/// Giving space back has succeeded exactly where no free page is left, fewer pages are there
/// if some were free, and a database that was written anew gives pages back from now on.
pub proof fn law_space_is_given_back(before: SpaceStats, after: SpaceStats, rewritten: bool)
    ensures
        reclaim_problem(before, after, rewritten) is None <==> after.freelist_count == 0 && (
        before.freelist_count > 0 ==> after.page_count < before.page_count) && (rewritten
            ==> after.auto_vacuum == 2),
{
}

/// A tag has one character in the names of its tables for each of its octets: letters in
/// lower case, digits as they are, and an underscore for all else. One without octets is an
/// underscore.
pub proof fn law_tags_in_names(tag: Seq<char>, i: int, b: u8)
    requires
        0 <= i < encode_utf8(tag).len(),
        b == encode_utf8(tag)[i],
    ensures
        safe_tag(tag).len() == encode_utf8(tag).len(),
        safe_tag(tag)[i] == name_char(b),
        (97 <= b <= 122 || 48 <= b <= 57) ==> name_char(b) as int == b,
        65 <= b <= 90 ==> name_char(b) as int == b + 32,
        !(97 <= b <= 122 || 48 <= b <= 57 || 65 <= b <= 90) ==> name_char(b) == '_',
{
}

/// The hash of octets follows from that of those before the last and the last one.
pub proof fn law_hash_of_tag(s: Seq<u8>, b: u8)
    ensures
        fnv1a(Seq::empty()) == 0xCBF2_9CE4_8422_2325u64,
        fnv1a(s.push(b)) == (((fnv1a(s) ^ (b as u64)) as int) * 0x1000_0000_01B3)
            % 0x1_0000_0000_0000_0000,
{
    assert(s.push(b).drop_last() =~= s);
}

/// A number in hexadecimal ends with the digit of its ones.
pub proof fn law_hexadecimal(v: int, d: int, n: nat)
    requires
        v >= 0,
        0 <= d < 16,
    ensures
        hex_digits(16 * v + d, n + 1) == hex_digits(v, n).push(hex_char(d)),
        hex_digits(v, n).len() == n,
    decreases n,
{
    assert((16 * v + d) / 16 == v);
    assert((16 * v + d) % 16 == d);
    lemma_hex_len(v, n);
}

proof fn lemma_hex_len(v: int, n: nat)
    ensures
        hex_digits(v, n).len() == n,
    decreases n,
{
    if n > 0 {
        lemma_hex_len(v / 16, (n - 1) as nat);
    }
}

/// What the writer does: it waits until a batch is full and then writes it, it writes what
/// waits before anything is deleted, and it stops where nothing can come any more.
pub proof fn law_writer_actions<T>(record: T, waiting: nat, batch_size: usize, stop: bool)
    ensures
        action_for(WriterEvent::Insert(record), waiting, batch_size) == WriterAction::Wait
            <==> waiting < batch_size,
        action_for(WriterEvent::Insert(record), waiting, batch_size) == WriterAction::Flush
            <==> waiting >= batch_size,
        action_for(WriterEvent::<T>::Cleanup, waiting, batch_size)
            == WriterAction::FlushThenCleanup,
        action_for(WriterEvent::<T>::ClearHistory, waiting, batch_size)
            == WriterAction::FlushThenClear,
        action_for(WriterEvent::<T>::Flush, waiting, batch_size) == WriterAction::Flush,
        action_for(WriterEvent::<T>::Timeout(stop), waiting, batch_size)
            == WriterAction::FlushThenStop <==> stop,
        action_for(WriterEvent::<T>::Timeout(stop), waiting, batch_size) == WriterAction::Flush
            <==> !stop,
        action_for(WriterEvent::<T>::Disconnected, waiting, batch_size)
            == WriterAction::FlushThenStop,
{
}

/// The records in memory are the latest in their order: the new one is the last, and the
/// oldest one goes where there are as many as there may be.
pub proof fn law_records_in_memory<T>(tail: Seq<T>, detail: T, n: usize)
    ensures
        tail.len() < n ==> tail_with(tail, detail, n) == tail.push(detail),
        tail.len() >= n && tail.len() > 0 ==> tail_with(tail, detail, n) == tail.skip(1).push(
            detail,
        ),
        tail.len() == 0 ==> tail_with(tail, detail, n) == seq![detail],
{
    if tail.len() == 0 {
        assert(tail_with(tail, detail, n) =~= seq![detail]);
    }
}

/// How many records are deleted and how many pages are given back at a time, and the version of
/// the tables.
pub proof fn law_numbers_of_recorders()
    ensures
        CLEANUP_BATCH_SIZE == 1000,
        VACUUM_BATCH_PAGES == 1000,
        SCHEMA_VERSION@ == "v1"@,
        QUESTIONS_BACKFILL_MARKER@ == "questions_backfilled"@,
        BACKFILL_DONE@ == "SELECT 1 FROM {meta} WHERE key = ?1 AND value = ?2"@,
        MARK_BACKFILLED@ == "INSERT OR REPLACE INTO {meta} (key, value) VALUES (?1, ?2)"@,
{
}

/// In a statement the names of tables stand for the tables of the recorder, each for its own,
/// and the places for conditions and columns for these.
pub proof fn law_names_in_statements(
    tables: TableNames,
    conditions: Seq<char>,
    selected: Seq<char>,
    kinds: Seq<char>,
)
    ensures
        ({
            let vars = statement_vars(tables, conditions, selected, kinds);
            &&& value_for(vars, "records"@) == Some(tables.records@)
            &&& value_for(vars, "steps"@) == Some(tables.steps@)
            &&& value_for(vars, "questions"@) == Some(tables.questions@)
            &&& value_for(vars, "meta"@) == Some(tables.meta@)
            &&& value_for(vars, "where_sql"@) == Some(conditions)
            &&& value_for(vars, "row_columns"@) == Some(selected)
            &&& value_for(vars, "kind_where_filter"@) == Some(kinds)
        }),
{
    reveal_strlit("records");
    reveal_strlit("steps");
    reveal_strlit("questions");
    reveal_strlit("meta");
    reveal_strlit("where_sql");
    reveal_strlit("row_columns");
    reveal_strlit("kind_where_filter");
    let vars = statement_vars(tables, conditions, selected, kinds);
    assert("records"@.len() == 7 && "steps"@.len() == 5 && "questions"@.len() == 9);
    assert("meta"@.len() == 4 && "where_sql"@.len() == 9 && "row_columns"@.len() == 11);
    assert("kind_where_filter"@.len() == 17);
    assert("questions"@[0] != "where_sql"@[0]);
    reveal_with_fuel(value_for, 8);
    let v1 = vars.skip(1);
    let v2 = v1.skip(1);
    let v3 = v2.skip(1);
    let v4 = v3.skip(1);
    let v5 = v4.skip(1);
    let v6 = v5.skip(1);
    assert(v1[0] == vars[1] && v2[0] == vars[2] && v3[0] == vars[3]);
    assert(v4[0] == vars[4] && v5[0] == vars[5] && v6[0] == vars[6]);
}

/// The condition of a statement holds all conditions on the records that it looks at.
pub proof fn law_conditions_of_statements(
    template: Seq<char>,
    tables: TableNames,
    s: RecordScope,
    limit: usize,
)
    ensures
        ({
            let asked = filter_clauses("r"@, tables, s.since_ms, s.until_ms, s.filter);
            &&& scope_where(tables, s) == joined(asked.texts)
            &&& sample_view(template, tables, s).sql == filled(
                template,
                statement_vars(tables, joined(asked.texts), ""@, ""@),
            )
            &&& list_view(tables, s, None, limit).sql == filled(
                LIST@,
                statement_vars(tables, joined(asked.texts), selected_columns(Some("r"@)), ""@),
            )
            &&& forall|k: ListCursor| #[trigger]
                list_view(tables, s, Some(k), limit).sql == filled(
                    LIST@,
                    statement_vars(
                        tables,
                        joined(asked.texts.push(CURSOR_CLAUSE@)),
                        selected_columns(Some("r"@)),
                        ""@,
                    ),
                )
        }),
{
}

/// A row of plugin statistics is refused for its first number below zero, and for none where
/// there is none that is looked at.
pub proof fn law_negative_counts(r: PluginCountRow)
    ensures
        negative_in(r) is None <==> r.total_records >= 0 && (r.kind is None || (r.query_hits >= 0
            && r.checked >= 0 && r.matched >= 0 && r.executed >= 0)),
        negative_in(r) matches Some(NegativeCount::Checked(n)) ==> n == r.checked && n < 0,
        negative_in(r) matches Some(NegativeCount::Other(n)) ==> n < 0,
{
}

/// A place in the list of records is told by its time and its number.
pub proof fn law_text_of_place(c: ListCursor)
    ensures
        cursor_text(c) == decimal_int(c.created_at_ms as int) + ":"@ + decimal_int(c.id as int),
{
}

/// The names of the tables of a tag begin with a mark, the tag as far as it can stand in a
/// name, its hash and the version of the tables.
pub proof fn law_names_of_tables(tag: Seq<char>)
    ensures
        name_prefix(tag) == "qr_"@ + safe_tag(tag) + "_"@ + hex_digits(
            fnv1a(encode_utf8(tag)) as int,
            16,
        ) + "_"@ + "v1"@,
{
}

/// A flag that was stored is set where it is not zero, and is not known where nothing was stored;
/// a text is not known there either.
pub proof fn law_stored_flags(n: i64, t: Seq<char>)
    ensures
        optional_bool_of(SqlView::Integer(n)) == Some(n != 0),
        optional_bool_of(SqlView::Null) is None,
        optional_text_of(SqlView::Text(t)) == Some(t),
        optional_text_of(SqlView::Null) is None,
        integer_of(SqlView::Integer(n)) == n,
        text_of(SqlView::Text(t)) == t,
{
}

/// A row is read where it has all its columns and each can be read. One with fewer is refused
/// for that, and else the first column that cannot be read is told.
pub proof fn law_rows_are_read(
    v: Seq<SqlView>,
    well_formed: Seq<bool>,
    r: Result<RecordRow, ReadProblem>,
    i: int,
)
    requires
        row_read(v, well_formed, r),
        0 <= i < RECORD_COLUMNS,
        forall|j: int|
            0 <= j < i ==> column_problem(
                kind_of(j),
                #[trigger] v[j],
                j as usize,
                well_formed[j],
            ) is None,
    ensures
        RECORD_COLUMNS == 27,
        v.len() != 27 ==> r == Err::<RecordRow, ReadProblem>(ReadProblem::MissingColumns),
        v.len() == 27 && column_problem(kind_of(i), v[i], i as usize, well_formed[i]) is Some ==> r
            is Err && r->Err_0 == column_problem(kind_of(i), v[i], i as usize, well_formed[i])->0,
{
    if v.len() == 27 && column_problem(kind_of(i), v[i], i as usize, well_formed[i]) is Some {
        match r {
            Ok(_) => {
                assert(column_problem(kind_of(i), v[i], i as usize, well_formed[i]) is None);
            },
            Err(p) => {
                let k = choose|k: int|
                    0 <= k < RECORD_COLUMNS && #[trigger] readable(v, well_formed, k)
                        && column_problem(kind_of(k), v[k], k as usize, well_formed[k]) == Some(p);
                if k < i {
                    assert(column_problem(kind_of(k), v[k], k as usize, well_formed[k]) is None);
                }
                if i < k {
                    assert(column_problem(kind_of(i), v[i], i as usize, well_formed[i]) is None);
                }
            },
        }
    }
}

/// The time spans come in the order of time, each once, and there is one for each record.
pub proof fn law_time_spans_in_order(
    rows: Seq<TimeRow>,
    length: i64,
    all: Seq<BucketView>,
    i: int,
    j: int,
)
    requires
        are_buckets(rows, length, all),
        length > 0,
    ensures
        0 <= i < j < all.len() ==> all[i].bucket_ms < all[j].bucket_ms,
        0 <= i < rows.len() && i64::MIN <= rows[i].created_at_ms - rows[i].created_at_ms % length
            ==> exists|k: int|
            0 <= k < all.len() && (#[trigger] all[k]).bucket_ms == rows[i].created_at_ms
                - rows[i].created_at_ms % length,
        0 <= i < all.len() ==> exists|k: int|
            0 <= k < rows.len() && (#[trigger] rows[k]).created_at_ms - rows[k].created_at_ms
                % length == all[i].bucket_ms,
{
    if 0 <= i < rows.len() && i64::MIN <= rows[i].created_at_ms - rows[i].created_at_ms % length {
        let b = (rows[i].created_at_ms - rows[i].created_at_ms % length) as i64;
        assert(0 <= rows[i].created_at_ms % length);
        assert(floor_of(rows[i].created_at_ms, length) == b);
        assert(falls_into(rows, length, b));
        assert(has_bucket(all, b));
    }
    if 0 <= i < all.len() {
        assert(all[i] == bucket_of(rows, length, all[i].bucket_ms));
        assert(falls_into(rows, length, all[i].bucket_ms));
        let k = choose|k: int|
            0 <= k < rows.len() && floor_of((#[trigger] rows[k]).created_at_ms, length)
                == all[i].bucket_ms;
        assert(rows[k].created_at_ms - rows[k].created_at_ms % length == all[i].bucket_ms);
    }
}

/// The database holds times up to its largest number; a count is refused where it is negative.
pub proof fn law_numbers_that_fit(s: RecordScope, r: CountRow)
    ensures
        scope_fits(s) <==> (s.since_ms is Some ==> s.since_ms->0 <= i64::MAX) && (s.until_ms is Some
            ==> s.until_ms->0 <= i64::MAX),
        row_fits(r) <==> r.sample_size >= 0 && (r.key is None || r.count >= 0),
{
}

} // verus!
