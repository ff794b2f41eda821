//! Statistics over records.

use vstd::prelude::*;

use crate::recorder::filter::{cursor_text, encode_cursor, ListCursor};
use crate::recorder::rows::RecordRow;

verus! {

/// The time span that a time falls into: the last multiple of the span's length. Without
/// a length it is the time itself.
pub open spec fn floor_of(created_at_ms: i64, bucket_ms: i64) -> int {
    if bucket_ms <= 0 {
        created_at_ms as int
    } else {
        created_at_ms - created_at_ms % bucket_ms
    }
}

/// When the time span of a record begins.
pub fn bucket_floor(created_at_ms: i64, bucket_ms: i64) -> (r: i64)
    requires
        floor_of(created_at_ms, bucket_ms) >= i64::MIN,
    ensures
        r == floor_of(created_at_ms, bucket_ms),
{
    if bucket_ms <= 0 {
        return created_at_ms;
    }
    match created_at_ms.checked_rem_euclid(bucket_ms) {
        Some(remainder) => created_at_ms - remainder,
        None => created_at_ms,
    }
}

/// The upper bounds of the latency classes.
pub const LATENCY_EDGES: usize = 6;

/// The upper bound of a latency class, in milliseconds. The last has none.
pub open spec fn edge(i: int) -> Option<u64> {
    if i == 0 {
        Some(10)
    } else if i == 1 {
        Some(20)
    } else if i == 2 {
        Some(50)
    } else if i == 3 {
        Some(100)
    } else if i == 4 {
        Some(300)
    } else if i == 5 {
        Some(1000)
    } else {
        None
    }
}

fn edge_of(i: usize) -> (r: Option<u64>)
    ensures
        r == edge(i as int),
{
    if i == 0 {
        Some(10)
    } else if i == 1 {
        Some(20)
    } else if i == 2 {
        Some(50)
    } else if i == 3 {
        Some(100)
    } else if i == 4 {
        Some(300)
    } else if i == 5 {
        Some(1000)
    } else {
        None
    }
}

/// The class of a latency.
pub open spec fn class_of(value: u64) -> int {
    if value < 10 {
        0
    } else if value < 20 {
        1
    } else if value < 50 {
        2
    } else if value < 100 {
        3
    } else if value < 300 {
        4
    } else if value < 1000 {
        5
    } else {
        6
    }
}

fn class_index(value: u64) -> (r: usize)
    ensures
        r == class_of(value),
        r <= LATENCY_EDGES,
{
    let mut i: usize = 0;
    while i < LATENCY_EDGES
        invariant
            i <= LATENCY_EDGES,
            i <= class_of(value),
        decreases LATENCY_EDGES - i,
    {
        if let Some(e) = edge_of(i) {
            if value < e {
                return i;
            }
        }
        i = i + 1;
    }
    i
}

/// How many latencies are of a class.
pub open spec fn count_in_class(values: Seq<u64>, class: int) -> nat
    decreases values.len(),
{
    if values.len() == 0 {
        0
    } else {
        count_in_class(values.drop_last(), class) + (if class_of(values.last()) == class {
            1nat
        } else {
            0nat
        })
    }
}

/// A latency class.
#[derive(Debug, Clone, Copy, PartialEq, Eq, Structural)]
pub struct LatencyHistogramBucket {
    /// What the latencies of the class are below. The last class has no bound.
    pub lt_ms: Option<u64>,
    pub count: u64,
}

/// The latency classes with their counts.
pub fn latency_histogram(values: &[u64]) -> (r: Vec<LatencyHistogramBucket>)
    ensures
        r@.len() == LATENCY_EDGES + 1,
        forall|i: int|
            0 <= i <= LATENCY_EDGES ==> #[trigger] r@[i] == (LatencyHistogramBucket {
                lt_ms: edge(i),
                count: count_in_class(values@, i) as u64,
            }),
{
    let n: usize = values.len();
    let mut out: Vec<LatencyHistogramBucket> = Vec::new();
    let mut i: usize = 0;
    while i < LATENCY_EDGES + 1
        invariant
            i <= LATENCY_EDGES + 1,
            out@.len() == i,
            forall|j: int|
                0 <= j < i ==> #[trigger] out@[j] == (LatencyHistogramBucket {
                    lt_ms: edge(j),
                    count: 0,
                }),
        decreases LATENCY_EDGES + 1 - i,
    {
        out.push(LatencyHistogramBucket { lt_ms: edge_of(i), count: 0 });
        i = i + 1;
    }
    let mut k: usize = 0;
    assert(values@.take(0).len() == 0);
    while k < n
        invariant
            k <= n,
            n == values@.len(),
            out@.len() == LATENCY_EDGES + 1,
            forall|j: int|
                0 <= j <= LATENCY_EDGES ==> (#[trigger] out@[j]).lt_ms == edge(j) && out@[j].count
                    == count_in_class(values@.take(k as int), j) && out@[j].count <= k,
        decreases n - k,
    {
        let class: usize = class_index(values[k]);
        assert(values@.take(k + 1).drop_last() =~= values@.take(k as int));
        let ghost before = out@;
        assert(before[class as int].count <= k);
        let old_bucket = out[class];
        out.set(
            class,
            LatencyHistogramBucket { lt_ms: old_bucket.lt_ms, count: old_bucket.count + 1 },
        );
        k = k + 1;
        assert forall|j: int| 0 <= j <= LATENCY_EDGES implies (#[trigger] out@[j]).lt_ms == edge(j)
            && out@[j].count == count_in_class(values@.take(k as int), j) && out@[j].count <= k by {
            assert(before[j].count <= k - 1);
        }
    }
    assert(values@.take(k as int) =~= values@);
    out
}

proof fn lemma_classes_add_up(values: Seq<u64>)
    ensures
        count_in_class(values, 0) + count_in_class(values, 1) + count_in_class(values, 2)
            + count_in_class(values, 3) + count_in_class(values, 4) + count_in_class(values, 5)
            + count_in_class(values, 6) == values.len(),
    decreases values.len(),
{
    if values.len() > 0 {
        lemma_classes_add_up(values.drop_last());
    }
}

/// Every latency is of one class.
pub proof fn law_histogram_counts_all(values: Seq<u64>)
    ensures
        count_in_class(values, 0) + count_in_class(values, 1) + count_in_class(values, 2)
            + count_in_class(values, 3) + count_in_class(values, 4) + count_in_class(values, 5)
            + count_in_class(values, 6) == values.len(),
{
    lemma_classes_add_up(values);
}

/// A record as far as statistics over time need it.
#[derive(Debug, Clone, Copy, PartialEq, Eq, Structural)]
pub struct TimeRow {
    pub created_at_ms: i64,
    pub elapsed_ms: u64,
    pub error: bool,
    pub has_response: bool,
}

/// What is known of a time span.
#[derive(Debug, PartialEq, Eq)]
pub struct TimeBucket {
    pub bucket_ms: i64,
    pub total: u64,
    pub error_count: u64,
    pub no_response_count: u64,
    pub elapsed_sum: u64,
    /// The latencies, in the order of the records.
    pub elapsed_values: Vec<u64>,
}

/// The mathematical content of a [`TimeBucket`].
pub struct BucketView {
    pub bucket_ms: i64,
    pub total: u64,
    pub error_count: u64,
    pub no_response_count: u64,
    pub elapsed_sum: u64,
    pub elapsed_values: Seq<u64>,
}

impl View for TimeBucket {
    type V = BucketView;

    open spec fn view(&self) -> BucketView {
        BucketView {
            bucket_ms: self.bucket_ms,
            total: self.total,
            error_count: self.error_count,
            no_response_count: self.no_response_count,
            elapsed_sum: self.elapsed_sum,
            elapsed_values: self.elapsed_values@,
        }
    }
}

pub open spec fn bucket_views(v: Seq<TimeBucket>) -> Seq<BucketView> {
    Seq::new(v.len(), |i: int| v[i]@)
}

pub open spec fn capped_sum(a: u64, b: u64) -> u64 {
    if a + b > u64::MAX {
        u64::MAX
    } else {
        (a + b) as u64
    }
}

pub open spec fn capped_step(a: u64, more: bool) -> u64 {
    if more {
        capped_sum(a, 1)
    } else {
        a
    }
}

pub open spec fn empty_bucket(bucket_ms: i64) -> BucketView {
    BucketView {
        bucket_ms,
        total: 0,
        error_count: 0,
        no_response_count: 0,
        elapsed_sum: 0,
        elapsed_values: Seq::empty(),
    }
}

/// A time span with one more record.
pub open spec fn with_row(b: BucketView, r: TimeRow) -> BucketView {
    BucketView {
        total: capped_sum(b.total, 1),
        error_count: capped_step(b.error_count, r.error),
        no_response_count: capped_step(b.no_response_count, !r.error && !r.has_response),
        elapsed_sum: capped_sum(b.elapsed_sum, r.elapsed_ms),
        elapsed_values: b.elapsed_values.push(r.elapsed_ms),
        ..b
    }
}

/// What the records say of a time span.
pub open spec fn bucket_of(rows: Seq<TimeRow>, length: i64, bucket_ms: i64) -> BucketView
    decreases rows.len(),
{
    if rows.len() == 0 {
        empty_bucket(bucket_ms)
    } else {
        let b = bucket_of(rows.drop_last(), length, bucket_ms);
        if floor_of(rows.last().created_at_ms, length) == bucket_ms {
            with_row(b, rows.last())
        } else {
            b
        }
    }
}

/// Whether a record falls into a time span.
pub open spec fn falls_into(rows: Seq<TimeRow>, length: i64, bucket_ms: i64) -> bool {
    exists|i: int| 0 <= i < rows.len() && floor_of((#[trigger] rows[i]).created_at_ms, length)
        == bucket_ms
}

/// Whether these are the time spans of the records: each once, in order of time.
pub open spec fn are_buckets(rows: Seq<TimeRow>, length: i64, all: Seq<BucketView>) -> bool {
    &&& forall|i: int, j: int|
        0 <= i < j < all.len() ==> (#[trigger] all[i]).bucket_ms < (#[trigger] all[j]).bucket_ms
    &&& forall|i: int|
        0 <= i < all.len() ==> #[trigger] all[i] == bucket_of(rows, length, all[i].bucket_ms)
            && falls_into(rows, length, all[i].bucket_ms)
    &&& forall|b: i64| #[trigger] falls_into(rows, length, b) ==> has_bucket(all, b)
}

pub open spec fn has_bucket(all: Seq<BucketView>, b: i64) -> bool {
    exists|i: int| 0 <= i < all.len() && (#[trigger] all[i]).bucket_ms == b
}

/// The last time spans.
pub open spec fn latest(all: Seq<BucketView>, max_buckets: usize) -> Seq<BucketView> {
    if all.len() > max_buckets {
        all.skip(all.len() - max_buckets)
    } else {
        all
    }
}

fn add_row(b: TimeBucket, r: TimeRow) -> (out: TimeBucket)
    ensures
        out@ == with_row(b@, r),
{
    let mut b = b;
    b.total = b.total.saturating_add(1);
    if r.error {
        b.error_count = b.error_count.saturating_add(1);
    }
    if !r.error && !r.has_response {
        b.no_response_count = b.no_response_count.saturating_add(1);
    }
    b.elapsed_sum = b.elapsed_sum.saturating_add(r.elapsed_ms);
    b.elapsed_values.push(r.elapsed_ms);
    b
}

/// Where a time span stands or belongs.
fn place(buckets: &Vec<TimeBucket>, bucket: i64) -> (r: (usize, bool))
    requires
        forall|i: int, j: int|
            0 <= i < j < buckets@.len() ==> (#[trigger] buckets@[i]).bucket_ms < (
            #[trigger] buckets@[j]).bucket_ms,
    ensures
        r.0 <= buckets@.len(),
        r.1 ==> r.0 < buckets@.len() && buckets@[r.0 as int].bucket_ms == bucket,
        forall|i: int| 0 <= i < r.0 ==> (#[trigger] buckets@[i]).bucket_ms < bucket,
        !r.1 ==> forall|i: int|
            r.0 <= i < buckets@.len() ==> (#[trigger] buckets@[i]).bucket_ms > bucket,
{
    let mut at: usize = buckets.len();
    while at > 0 && buckets[at - 1].bucket_ms > bucket
        invariant
            at <= buckets@.len(),
            forall|i: int|
                at <= i < buckets@.len() ==> (#[trigger] buckets@[i]).bucket_ms > bucket,
        decreases at,
    {
        at = at - 1;
    }
    if at > 0 && buckets[at - 1].bucket_ms == bucket {
        (at - 1, true)
    } else {
        (at, false)
    }
}

proof fn lemma_bucket_step(rows: Seq<TimeRow>, length: i64, n: int, b: i64)
    requires
        0 <= n < rows.len(),
    ensures
        bucket_of(rows.take(n + 1), length, b) == (if floor_of(rows[n].created_at_ms, length) == b {
            with_row(bucket_of(rows.take(n), length, b), rows[n])
        } else {
            bucket_of(rows.take(n), length, b)
        }),
        falls_into(rows.take(n + 1), length, b) <==> falls_into(rows.take(n), length, b)
            || floor_of(rows[n].created_at_ms, length) == b,
{
    assert(rows.take(n + 1).drop_last() =~= rows.take(n));
    if falls_into(rows.take(n), length, b) {
        let i = choose|i: int|
            0 <= i < n && floor_of((#[trigger] rows.take(n)[i]).created_at_ms, length) == b;
        assert(rows.take(n + 1)[i] == rows.take(n)[i]);
    }
    if floor_of(rows[n].created_at_ms, length) == b {
        assert(rows.take(n + 1)[n] == rows[n]);
    }
    if falls_into(rows.take(n + 1), length, b) && floor_of(rows[n].created_at_ms, length) != b {
        let i = choose|i: int|
            0 <= i < n + 1 && floor_of((#[trigger] rows.take(n + 1)[i]).created_at_ms, length) == b;
        assert(rows.take(n)[i] == rows.take(n + 1)[i]);
    }
}

proof fn lemma_empty_bucket(rows: Seq<TimeRow>, length: i64, b: i64)
    requires
        !falls_into(rows, length, b),
    ensures
        bucket_of(rows, length, b) == empty_bucket(b),
    decreases rows.len(),
{
    if rows.len() > 0 {
        let init = rows.drop_last();
        assert(rows[rows.len() - 1] == rows.last());
        if falls_into(init, length, b) {
            let i = choose|i: int|
                0 <= i < init.len() && floor_of((#[trigger] init[i]).created_at_ms, length) == b;
            assert(rows[i] == init[i]);
        }
        lemma_empty_bucket(init, length, b);
    }
}

/// The last time spans of the records.
pub fn timeseries(rows: &Vec<TimeRow>, length: i64, max_buckets: usize) -> (r: Vec<TimeBucket>)
    requires
        forall|i: int|
            0 <= i < rows@.len() ==> floor_of((#[trigger] rows@[i]).created_at_ms, length)
                >= i64::MIN,
    ensures
        exists|all: Seq<BucketView>| #[trigger]
            are_buckets(rows@, length, all) && bucket_views(r@) == latest(all, max_buckets),
{
    let mut buckets: Vec<TimeBucket> = Vec::new();
    let mut n: usize = 0;
    while n < rows.len()
        invariant
            n <= rows@.len(),
            forall|i: int|
                0 <= i < rows@.len() ==> floor_of((#[trigger] rows@[i]).created_at_ms, length)
                    >= i64::MIN,
            are_buckets(rows@.take(n as int), length, bucket_views(buckets@)),
        decreases rows@.len() - n,
    {
        let row = rows[n];
        let bucket: i64 = bucket_floor(row.created_at_ms, length);
        let ghost before = bucket_views(buckets@);
        let ghost seen = rows@.take(n as int);
        let ghost grown = rows@.take(n + 1);
        assert forall|i: int, j: int| 0 <= i < j < buckets@.len() implies (
        #[trigger] buckets@[i]).bucket_ms < (#[trigger] buckets@[j]).bucket_ms by {
            assert(before[i].bucket_ms < before[j].bucket_ms);
        }
        let (at, found) = place(&buckets, bucket);
        let current = if found {
            buckets.remove(at)
        } else {
            TimeBucket {
                bucket_ms: bucket,
                total: 0,
                error_count: 0,
                no_response_count: 0,
                elapsed_sum: 0,
                elapsed_values: Vec::new(),
            }
        };
        let ghost base = current@;
        proof {
            if found {
                assert(before[at as int] == base);
            } else {
                assert(!falls_into(seen, length, bucket)) by {
                    if falls_into(seen, length, bucket) {
                        assert(has_bucket(before, bucket));
                        let i = choose|i: int|
                            0 <= i < before.len() && (#[trigger] before[i]).bucket_ms == bucket;
                        assert(buckets@[i].bucket_ms == bucket);
                    }
                }
                lemma_empty_bucket(seen, length, bucket);
                assert(base.elapsed_values =~= Seq::empty());
            }
            assert(base == bucket_of(seen, length, bucket));
        }
        let updated = add_row(current, row);
        buckets.insert(at, updated);
        proof {
            let after = bucket_views(buckets@);
            lemma_bucket_step(rows@, length, n as int, bucket);
            if found {
                assert(after =~= before.update(at as int, updated@));
            } else {
                assert(after =~= before.insert(at as int, updated@));
            }
            assert forall|i: int, j: int| 0 <= i < j < after.len() implies (
            #[trigger] after[i]).bucket_ms < (#[trigger] after[j]).bucket_ms by {
                if found {
                    assert(before[i].bucket_ms < before[j].bucket_ms);
                } else {
                    let p = if i < at {
                        i
                    } else {
                        i - 1
                    };
                    let q = if j < at {
                        j
                    } else {
                        j - 1
                    };
                    if i != at && j != at {
                        assert(before[p].bucket_ms < before[q].bucket_ms);
                    }
                }
            }
            assert forall|i: int| 0 <= i < after.len() implies #[trigger] after[i] == bucket_of(
                grown,
                length,
                after[i].bucket_ms,
            ) && falls_into(grown, length, after[i].bucket_ms) by {
                lemma_bucket_step(rows@, length, n as int, after[i].bucket_ms);
                if i != at {
                    let p = if found || i < at {
                        i
                    } else {
                        i - 1
                    };
                    assert(after[i] == before[p]);
                }
            }
            assert forall|b: i64| #[trigger] falls_into(grown, length, b) implies has_bucket(
                after,
                b,
            ) by {
                lemma_bucket_step(rows@, length, n as int, b);
                if b == bucket {
                    assert(after[at as int].bucket_ms == b);
                } else {
                    assert(has_bucket(before, b));
                    let i = choose|i: int|
                        0 <= i < before.len() && (#[trigger] before[i]).bucket_ms == b;
                    let q = if found || i < at {
                        i
                    } else {
                        i + 1
                    };
                    assert(after[q] == before[i]);
                }
            }
        }
        n = n + 1;
    }
    assert(rows@.take(n as int) =~= rows@);
    let ghost all = bucket_views(buckets@);
    assert(are_buckets(rows@, length, all));
    if buckets.len() > max_buckets {
        let drop: usize = buckets.len() - max_buckets;
        let tail = buckets.split_off(drop);
        assert(bucket_views(tail@) =~= all.skip(drop as int));
        return tail;
    }
    buckets
}

/// A page of records: the first of them, and the text for the next page where more are
/// there.
pub fn page_of_records(records: Vec<RecordRow>, limit: usize) -> (r: (Vec<RecordRow>, Option<String>))
    ensures
        r.0@ == (if records@.len() > limit {
            records@.take(limit as int)
        } else {
            records@
        }),
        match r.1 {
            Some(t) => records@.len() > limit && limit > 0 && t@ == cursor_text(
                ListCursor {
                    created_at_ms: records@[limit - 1].created_at_ms,
                    id: records@[limit - 1].id,
                },
            ),
            None => records@.len() <= limit || limit == 0,
        },
{
    let mut page = records;
    if page.len() <= limit {
        return (page, None);
    }
    page.truncate(limit);
    assert(page@ =~= records@.take(limit as int));
    if limit == 0 {
        return (page, None);
    }
    let cursor = ListCursor {
        created_at_ms: page[limit - 1].created_at_ms,
        id: page[limit - 1].id,
    };
    (page, Some(encode_cursor(cursor)))
}

/// A row of counts by key: the size of the sample, and a key with its count.
#[derive(Debug, PartialEq, Eq)]
pub struct CountRow {
    pub sample_size: i64,
    pub key: Option<String>,
    pub count: i64,
}

/// A key with its count.
#[derive(Debug, PartialEq, Eq)]
pub struct KeyCount {
    pub key: String,
    pub count: u64,
}

/// Whether a row can be read: its numbers are not negative, as far as they are looked at.
pub open spec fn row_fits(r: CountRow) -> bool {
    r.sample_size >= 0 && (r.key is Some ==> r.count >= 0)
}

/// The keys of rows with their counts. A row without a key tells the size only.
pub open spec fn counts_of(rows: Seq<CountRow>) -> Seq<(Seq<char>, u64)>
    decreases rows.len(),
{
    if rows.len() == 0 {
        Seq::empty()
    } else {
        let init = counts_of(rows.drop_last());
        match rows.last().key {
            Some(k) => init.push((k@, rows.last().count as u64)),
            None => init,
        }
    }
}

pub open spec fn count_views(v: Seq<KeyCount>) -> Seq<(Seq<char>, u64)> {
    Seq::new(v.len(), |i: int| (v[i].key@, v[i].count))
}

/// The size of the sample and the counts by key. The error is the first negative number.
pub fn read_counts(rows: &Vec<CountRow>) -> (r: Result<(u64, Vec<KeyCount>), i64>)
    ensures
        match r {
            Ok((size, counts)) => {
                &&& forall|i: int| 0 <= i < rows@.len() ==> row_fits(#[trigger] rows@[i])
                &&& size == (if rows@.len() == 0 {
                    0
                } else {
                    rows@.last().sample_size as u64
                })
                &&& count_views(counts@) == counts_of(rows@)
            },
            Err(n) => exists|i: int|
                0 <= i < rows@.len() && !row_fits(#[trigger] rows@[i]) && n == (
                if rows@[i].sample_size < 0 {
                    rows@[i].sample_size
                } else {
                    rows@[i].count
                }) && forall|j: int| 0 <= j < i ==> row_fits(#[trigger] rows@[j]),
        },
{
    let mut size: u64 = 0;
    let mut counts: Vec<KeyCount> = Vec::new();
    let mut i: usize = 0;
    assert(count_views(counts@) =~= counts_of(rows@.take(0)));
    while i < rows.len()
        invariant
            i <= rows@.len(),
            forall|j: int| 0 <= j < i ==> row_fits(#[trigger] rows@[j]),
            size == (if i == 0 {
                0
            } else {
                rows@[i - 1].sample_size as u64
            }),
            count_views(counts@) == counts_of(rows@.take(i as int)),
        decreases rows@.len() - i,
    {
        let row = &rows[i];
        let ghost before = counts@;
        assert(rows@.take(i + 1).drop_last() =~= rows@.take(i as int));
        if row.sample_size < 0 {
            assert(!row_fits(rows@[i as int]));
            return Err(row.sample_size);
        }
        size = row.sample_size as u64;
        if let Some(key) = &row.key {
            if row.count < 0 {
                assert(!row_fits(rows@[i as int]));
                return Err(row.count);
            }
            counts.push(KeyCount { key: key.clone(), count: row.count as u64 });
            assert(count_views(counts@) =~= count_views(before).push((key@, row.count as u64)));
        }
        i = i + 1;
    }
    assert(rows@.take(i as int) =~= rows@);
    Ok((size, counts))
}

/// A row of plugin statistics as the database gives it.
#[derive(Debug, PartialEq, Eq)]
pub struct PluginCountRow {
    pub total_records: i64,
    pub kind: Option<String>,
    pub tag: Option<String>,
    pub checked: i64,
    pub matched: i64,
    pub executed: i64,
    pub query_hits: i64,
}

/// The statistics of a plugin.
#[derive(Debug, PartialEq, Eq)]
pub struct PluginStatsRow {
    pub kind: String,
    pub tag: Option<String>,
    pub checked: u64,
    pub matched: u64,
    pub executed: u64,
    pub query_total: u64,
}

/// The mathematical content of a [`PluginStatsRow`].
pub struct PluginStatsView {
    pub kind: Seq<char>,
    pub tag: Option<Seq<char>>,
    pub checked: u64,
    pub matched: u64,
    pub executed: u64,
    pub query_total: u64,
}

pub open spec fn plugin_views(v: Seq<PluginStatsRow>) -> Seq<PluginStatsView> {
    Seq::new(v.len(), |i: int| plugin_view(v[i]))
}

pub open spec fn plugin_view(r: PluginStatsRow) -> PluginStatsView {
    PluginStatsView {
        kind: r.kind@,
        tag: crate::cache::query::text_view(r.tag),
        checked: r.checked,
        matched: r.matched,
        executed: r.executed,
        query_total: r.query_total,
    }
}

/// A number of plugin statistics that should not be negative.
#[derive(Debug, Clone, Copy, PartialEq, Eq, Structural)]
pub enum NegativeCount {
    /// How often a matcher was asked.
    Checked(i64),
    /// Any other number.
    Other(i64),
}

/// The first negative number of a row, as far as its numbers are looked at.
pub open spec fn negative_in(r: PluginCountRow) -> Option<NegativeCount> {
    if r.total_records < 0 {
        Some(NegativeCount::Other(r.total_records))
    } else if r.kind is None {
        None
    } else if r.query_hits < 0 {
        Some(NegativeCount::Other(r.query_hits))
    } else if r.checked < 0 {
        Some(NegativeCount::Checked(r.checked))
    } else if r.matched < 0 {
        Some(NegativeCount::Other(r.matched))
    } else if r.executed < 0 {
        Some(NegativeCount::Other(r.executed))
    } else {
        None
    }
}

/// The statistics of the plugins.
pub open spec fn plugins_of(rows: Seq<PluginCountRow>) -> Seq<PluginStatsView>
    decreases rows.len(),
{
    if rows.len() == 0 {
        Seq::empty()
    } else {
        let init = plugins_of(rows.drop_last());
        let r = rows.last();
        match r.kind {
            Some(k) => init.push(
                PluginStatsView {
                    kind: k@,
                    tag: crate::cache::query::text_view(r.tag),
                    checked: r.checked as u64,
                    matched: r.matched as u64,
                    executed: r.executed as u64,
                    query_total: r.query_hits as u64,
                },
            ),
            None => init,
        }
    }
}

fn find_negative(r: &PluginCountRow) -> (n: Option<NegativeCount>)
    ensures
        n == negative_in(*r),
{
    if r.total_records < 0 {
        Some(NegativeCount::Other(r.total_records))
    } else if r.kind.is_none() {
        None
    } else if r.query_hits < 0 {
        Some(NegativeCount::Other(r.query_hits))
    } else if r.checked < 0 {
        Some(NegativeCount::Checked(r.checked))
    } else if r.matched < 0 {
        Some(NegativeCount::Other(r.matched))
    } else if r.executed < 0 {
        Some(NegativeCount::Other(r.executed))
    } else {
        None
    }
}

/// The number of records and the statistics of the plugins. The error is the first
/// negative number.
pub fn read_plugin_stats(rows: &Vec<PluginCountRow>) -> (r: Result<
    (u64, Vec<PluginStatsRow>),
    NegativeCount,
>)
    ensures
        match r {
            Ok((total, stats)) => {
                &&& forall|i: int| 0 <= i < rows@.len() ==> negative_in(#[trigger] rows@[i]) is None
                &&& total == (if rows@.len() == 0 {
                    0
                } else {
                    rows@.last().total_records as u64
                })
                &&& plugin_views(stats@) == plugins_of(rows@)
            },
            Err(n) => exists|i: int|
                0 <= i < rows@.len() && negative_in(#[trigger] rows@[i]) == Some(n) && forall|j: int|
                    0 <= j < i ==> negative_in(#[trigger] rows@[j]) is None,
        },
{
    let mut total: u64 = 0;
    let mut stats: Vec<PluginStatsRow> = Vec::new();
    let mut i: usize = 0;
    assert(plugin_views(stats@) =~= plugins_of(rows@.take(0)));
    while i < rows.len()
        invariant
            i <= rows@.len(),
            forall|j: int| 0 <= j < i ==> negative_in(#[trigger] rows@[j]) is None,
            total == (if i == 0 {
                0
            } else {
                rows@[i - 1].total_records as u64
            }),
            plugin_views(stats@) == plugins_of(rows@.take(i as int)),
        decreases rows@.len() - i,
    {
        let row = &rows[i];
        let ghost before = stats@;
        assert(rows@.take(i + 1).drop_last() =~= rows@.take(i as int));
        if let Some(n) = find_negative(row) {
            assert(negative_in(rows@[i as int]) == Some(n));
            return Err(n);
        }
        total = row.total_records as u64;
        if let Some(kind) = &row.kind {
            let stat = PluginStatsRow {
                kind: kind.clone(),
                tag: match &row.tag {
                    Some(t) => Some(t.clone()),
                    None => None,
                },
                checked: row.checked as u64,
                matched: row.matched as u64,
                executed: row.executed as u64,
                query_total: row.query_hits as u64,
            };
            stats.push(stat);
            assert(plugin_views(stats@) =~= plugin_views(before).push(plugin_view(stat)));
        }
        i = i + 1;
    }
    assert(rows@.take(i as int) =~= rows@);
    Ok((total, stats))
}

} // verus!
