//! What holds of the conditions on records, and of what is read of them.

use vstd::prelude::*;

use crate::recorder::filter::{
    escaped, filter_clauses, joined, pattern_of, ClausesView, QueryRecordFilter, QueryRecordStatus,
    SqlView, NO_RESPONSE_CLAUSE,
};
use crate::recorder::names::TableNames;
use crate::recorder::rows::StoredView;
use crate::recorder::template::{closing, filled, value_for};
use crate::text::{contains, lower_text, occurs_at, upper_text};

verus! {

/// A condition on the outcome of a record.
pub enum OutcomeCondition {
    Failed,
    NotFailed,
    Answered,
    NotAnswered,
    Both(Box<OutcomeCondition>, Box<OutcomeCondition>),
}

/// A condition as the database has it, on the columns of a table.
pub open spec fn condition_text(alias: Seq<char>, c: OutcomeCondition) -> Seq<char>
    decreases c,
{
    match c {
        OutcomeCondition::Failed => alias + ".error IS NOT NULL"@,
        OutcomeCondition::NotFailed => alias + ".error IS NULL"@,
        OutcomeCondition::Answered => alias + ".has_response = 1"@,
        OutcomeCondition::NotAnswered => alias + ".has_response = 0"@,
        OutcomeCondition::Both(a, b) => condition_text(alias, *a) + " AND "@ + condition_text(
            alias,
            *b,
        ),
    }
}

/// Whether a condition holds of a record.
pub open spec fn condition_holds(c: OutcomeCondition, r: StoredView) -> bool
    decreases c,
{
    match c {
        OutcomeCondition::Failed => r.error is Some,
        OutcomeCondition::NotFailed => r.error is None,
        OutcomeCondition::Answered => r.has_response,
        OutcomeCondition::NotAnswered => !r.has_response,
        OutcomeCondition::Both(a, b) => condition_holds(*a, r) && condition_holds(*b, r),
    }
}

/// Whether a record is one that is asked for by its outcome.
pub open spec fn has_status(s: QueryRecordStatus, r: StoredView) -> bool {
    match s {
        QueryRecordStatus::All => true,
        QueryRecordStatus::Error => r.error is Some,
        QueryRecordStatus::HasResponse => r.has_response,
        QueryRecordStatus::NoResponse => r.error is None && !r.has_response,
    }
}

/// Whether a condition asks for exactly the records with this outcome.
pub open spec fn selects(c: OutcomeCondition, s: QueryRecordStatus) -> bool {
    forall|r: StoredView| #[trigger] condition_holds(c, r) <==> has_status(s, r)
}

/// A text without places stays as it is when it is filled.
pub proof fn law_plain_text_stays(
    t: Seq<char>,
    rest: Seq<char>,
    vars: Seq<(Seq<char>, Seq<char>)>,
)
    requires
        !t.contains('{'),
    ensures
        filled(t + rest, vars) == t + filled(rest, vars),
    decreases t.len(),
{
    if t.len() == 0 {
        assert(t + rest =~= rest);
        assert(t + filled(rest, vars) =~= filled(rest, vars));
    } else {
        let all = t + rest;
        let tail = t.skip(1);
        assert forall|i: int| 0 <= i < tail.len() implies tail[i] != '{' by {
            assert(t[i + 1] != '{');
        }
        law_plain_text_stays(tail, rest, vars);
        assert(all[0] == t[0]);
        assert(t.contains(t[0]));
        assert(all.skip(1) =~= tail + rest);
        assert(filled(all, vars) == seq![t[0]] + (tail + filled(rest, vars)));
        assert(seq![t[0]] + (tail + filled(rest, vars)) =~= t + filled(rest, vars));
    }
}

proof fn lemma_closing_at(t: Seq<char>, at: int, j: int)
    requires
        0 <= at <= j < t.len(),
        t[j] == '}',
        forall|i: int| at <= i < j ==> t[i] != '}',
    ensures
        closing(t, at) == Some(j),
    decreases j - at,
{
    if at < j {
        lemma_closing_at(t, at + 1, j);
    }
}

/// A name in braces is replaced by what stands for it, and what stands for it is not
/// looked at again.
pub proof fn law_name_is_replaced(
    name: Seq<char>,
    rest: Seq<char>,
    vars: Seq<(Seq<char>, Seq<char>)>,
)
    requires
        !name.contains('}'),
        value_for(vars, name) is Some,
    ensures
        filled(seq!['{'] + name + seq!['}'] + rest, vars) == value_for(vars, name)->0 + filled(
            rest,
            vars,
        ),
{
    let t = seq!['{'] + name + seq!['}'] + rest;
    let j = name.len() as int + 1;
    assert(t[j] == '}');
    assert forall|i: int| 1 <= i < j implies t[i] != '}' by {
        assert(t[i] == name[i - 1]);
        assert(name.contains(name[i - 1]));
    }
    lemma_closing_at(t, 1, j);
    assert(t.subrange(1, j) =~= name);
    assert(t.skip(j + 1) =~= rest);
}

spec fn outcome_condition(s: QueryRecordStatus) -> OutcomeCondition {
    match s {
        QueryRecordStatus::HasResponse => OutcomeCondition::Answered,
        QueryRecordStatus::NoResponse => OutcomeCondition::Both(
            Box::new(OutcomeCondition::NotFailed),
            Box::new(OutcomeCondition::NotAnswered),
        ),
        _ => OutcomeCondition::Failed,
    }
}

proof fn lemma_no_response_text(alias: Seq<char>, tables: TableNames)
    ensures
        filled(NO_RESPONSE_CLAUSE@, crate::recorder::filter::clause_vars(alias, tables)) == alias
            + ".error IS NULL"@ + " AND "@ + (alias + ".has_response = 0"@),
{
    let vars = crate::recorder::filter::clause_vars(alias, tables);
    let name = "alias"@;
    reveal_strlit("alias");
    reveal_strlit("{alias}.error IS NULL AND {alias}.has_response = 0");
    reveal_strlit(".error IS NULL AND ");
    reveal_strlit(".error IS NULL");
    reveal_strlit(" AND ");
    reveal_strlit(".has_response = 0");
    let first = ".error IS NULL AND "@;
    let last = ".has_response = 0"@;
    let place = seq!['{'] + name + seq!['}'];
    let end = last + Seq::<char>::empty();
    let second = place + end;
    assert(vars[0] == (name, alias));
    assert(value_for(vars, name) == Some(alias));
    assert(NO_RESPONSE_CLAUSE@ =~= place + (first + second));
    law_name_is_replaced(name, first + second, vars);
    law_plain_text_stays(first, second, vars);
    law_name_is_replaced(name, end, vars);
    law_plain_text_stays(last, Seq::empty(), vars);
    assert(filled(Seq::<char>::empty(), vars) =~= Seq::empty());
    assert(first =~= ".error IS NULL"@ + " AND "@);
    assert(last + Seq::<char>::empty() =~= last);
    assert(alias + (first + (alias + last)) =~= alias + ".error IS NULL"@ + " AND "@ + (alias
        + last));
}

/// The outcome that is asked for is the last condition, and it holds of exactly the
/// records with this outcome: those with an error, those with a response, and those
/// with neither. All others are the same whatever the outcome is.
pub proof fn law_outcome_is_asked_for(
    alias: Seq<char>,
    tables: TableNames,
    since_ms: Option<u64>,
    until_ms: Option<u64>,
    f: QueryRecordFilter,
)
    ensures
        ({
            let c = filter_clauses(alias, tables, since_ms, until_ms, f);
            let any = filter_clauses(
                alias,
                tables,
                since_ms,
                until_ms,
                QueryRecordFilter { status: QueryRecordStatus::All, ..f },
            );
            &&& c.params == any.params
            &&& f.status == QueryRecordStatus::All ==> c.texts == any.texts
            &&& f.status != QueryRecordStatus::All ==> c.texts.len() == any.texts.len() + 1
                && c.texts.drop_last() == any.texts && exists|o: OutcomeCondition| #[trigger]
                selects(o, f.status) && c.texts.last() == condition_text(alias, o)
        }),
{
    let c = filter_clauses(alias, tables, since_ms, until_ms, f);
    let any = filter_clauses(
        alias,
        tables,
        since_ms,
        until_ms,
        QueryRecordFilter { status: QueryRecordStatus::All, ..f },
    );
    if f.status != QueryRecordStatus::All {
        let o = outcome_condition(f.status);
        lemma_no_response_text(alias, tables);
        reveal_with_fuel(condition_text, 2);
        reveal_with_fuel(condition_holds, 2);
        assert(selects(o, f.status));
        assert(c.texts.last() == condition_text(alias, o));
        assert(c.texts.drop_last() =~= any.texts);
    }
}

/// No record has both an error and neither an error nor a response, and every record
/// has an error, a response, or neither of them.
pub proof fn law_outcomes_are_apart(r: StoredView)
    ensures
        !(has_status(QueryRecordStatus::Error, r) && has_status(QueryRecordStatus::NoResponse, r)),
        !(has_status(QueryRecordStatus::HasResponse, r) && has_status(
            QueryRecordStatus::NoResponse,
            r,
        )),
        has_status(QueryRecordStatus::Error, r) || has_status(QueryRecordStatus::HasResponse, r)
            || has_status(QueryRecordStatus::NoResponse, r),
{
}

/// Whether conditions ask this, with this value at its place.
pub open spec fn asks(c: ClausesView, text: Seq<char>, value: SqlView) -> bool {
    exists|i: int|
        0 <= i < c.texts.len() && i < c.params.len() && (#[trigger] c.texts[i]) == text
            && c.params[i] == value
}

/// How many of the questions of a filter are asked.
pub open spec fn questions_asked(
    since_ms: Option<u64>,
    until_ms: Option<u64>,
    f: QueryRecordFilter,
) -> int {
    (if since_ms is Some {
        1int
    } else {
        0
    }) + (if until_ms is Some {
        1int
    } else {
        0
    }) + (if f.matcher_tag is Some {
        1int
    } else {
        0
    }) + (if f.qname is Some {
        1int
    } else {
        0
    }) + (if f.qtype is Some {
        1int
    } else {
        0
    }) + (if f.client_ip is Some {
        1int
    } else {
        0
    }) + (if f.rcode is Some {
        1int
    } else {
        0
    })
}

/// Every question of a filter is asked, with its value at its place, and nothing else is:
/// no record before the first time or after the last; the steps of a matcher, the names
/// and types of questions, the client and the response code.
pub proof fn law_filter_is_asked(
    alias: Seq<char>,
    tables: TableNames,
    since_ms: Option<u64>,
    until_ms: Option<u64>,
    f: QueryRecordFilter,
)
    requires
        since_ms matches Some(v) ==> v <= i64::MAX,
        until_ms matches Some(v) ==> v <= i64::MAX,
        f.status == QueryRecordStatus::All,
    ensures
        ({
            let c = filter_clauses(alias, tables, since_ms, until_ms, f);
            let names = seq![
                ("alias"@, alias),
                ("steps"@, tables.steps@),
                ("questions"@, tables.questions@),
            ];
            &&& c.texts.len() == questions_asked(since_ms, until_ms, f)
            &&& c.params.len() == c.texts.len()
            &&& since_ms matches Some(v) ==> asks(
                c,
                alias + ".created_at_ms >= ?"@,
                SqlView::Integer(v as i64),
            )
            &&& until_ms matches Some(v) ==> asks(
                c,
                alias + ".created_at_ms <= ?"@,
                SqlView::Integer(v as i64),
            )
            &&& f.matcher_tag matches Some(t) ==> asks(
                c,
                filled(
                    "{alias}.id IN (
                SELECT s.record_id
                FROM {steps} s
                WHERE s.kind = 'matcher'
                  AND s.outcome IN (
                      'matched', 'always_true_matched', 'always_false_matched'
                  )
                  AND s.tag = ?
            )"@,
                    names,
                ),
                SqlView::Text(t@),
            )
            &&& f.qname matches Some(t) ==> asks(
                c,
                filled(
                    "{alias}.id IN (
                SELECT q.record_id
                FROM {questions} q
                WHERE q.name_lc LIKE ? ESCAPE '\\'
            )"@,
                    names,
                ),
                SqlView::Text(seq!['%'] + escaped(lower_text(t@)) + seq!['%']),
            )
            &&& f.qtype matches Some(t) ==> asks(
                c,
                filled(
                    "{alias}.id IN (
                SELECT q.record_id
                FROM {questions} q
                WHERE q.qtype = ?
            )"@,
                    names,
                ),
                SqlView::Text(upper_text(t@)),
            )
            &&& f.client_ip matches Some(t) ==> asks(
                c,
                filled("LOWER({alias}.client_ip) LIKE LOWER(?) ESCAPE '\\'"@, names),
                SqlView::Text(seq!['%'] + escaped(t@) + seq!['%']),
            )
            &&& f.rcode matches Some(t) ==> asks(
                c,
                filled("{alias}.rcode IS NOT NULL AND UPPER({alias}.rcode) = UPPER(?)"@, names),
                SqlView::Text(t@),
            )
        }),
{
    let c = filter_clauses(alias, tables, since_ms, until_ms, f);
    let names = seq![
        ("alias"@, alias),
        ("steps"@, tables.steps@),
        ("questions"@, tables.questions@),
    ];
    assert(names =~= crate::recorder::filter::clause_vars(alias, tables));
    let i0 = 0int;
    let i1 = i0 + (if since_ms is Some {
        1int
    } else {
        0
    });
    let i2 = i1 + (if until_ms is Some {
        1int
    } else {
        0
    });
    let i3 = i2 + (if f.matcher_tag is Some {
        1int
    } else {
        0
    });
    let i4 = i3 + (if f.qname is Some {
        1int
    } else {
        0
    });
    let i5 = i4 + (if f.qtype is Some {
        1int
    } else {
        0
    });
    let i6 = i5 + (if f.client_ip is Some {
        1int
    } else {
        0
    });
    let n = i6 + (if f.rcode is Some {
        1int
    } else {
        0
    });
    assert(c.texts.len() == n);
    assert(c.params.len() == n);
    if since_ms is Some {
        assert(c.texts[i0] == alias + ".created_at_ms >= ?"@);
    }
    if until_ms is Some {
        assert(c.texts[i1] == alias + ".created_at_ms <= ?"@);
    }
    if f.matcher_tag is Some {
        assert(c.params[i2] == SqlView::Text(f.matcher_tag->0@));
        assert(c.texts[i2] == filled(crate::recorder::filter::MATCHER_CLAUSE@, names));
    }
    if f.qname is Some {
        assert(c.params[i3] == SqlView::Text(pattern_of(lower_text(f.qname->0@))));
        assert(c.texts[i3] == filled(crate::recorder::filter::QNAME_CLAUSE@, names));
    }
    if f.qtype is Some {
        assert(c.params[i4] == SqlView::Text(upper_text(f.qtype->0@)));
        assert(c.texts[i4] == filled(crate::recorder::filter::QTYPE_CLAUSE@, names));
    }
    if f.client_ip is Some {
        assert(c.params[i5] == SqlView::Text(pattern_of(f.client_ip->0@)));
        assert(c.texts[i5] == filled(crate::recorder::filter::CLIENT_CLAUSE@, names));
    }
    if f.rcode is Some {
        assert(c.params[i6] == SqlView::Text(f.rcode->0@));
        assert(c.texts[i6] == filled(crate::recorder::filter::RCODE_CLAUSE@, names));
    }
}

/// Whether a text is like a pattern: `%` stands for any text, `_` for any character, and
/// a character behind `\` for itself.
pub open spec fn is_like(t: Seq<char>, p: Seq<char>) -> bool
    decreases p.len(),
{
    if p.len() == 0 {
        t.len() == 0
    } else if p[0] == '\\' && p.len() >= 2 {
        t.len() > 0 && t[0] == p[1] && is_like(t.skip(1), p.skip(2))
    } else if p[0] == '%' {
        exists|k: int| 0 <= k <= t.len() && is_like(#[trigger] t.skip(k), p.skip(1))
    } else if p[0] == '_' {
        t.len() > 0 && is_like(t.skip(1), p.skip(1))
    } else {
        t.len() > 0 && t[0] == p[0] && is_like(t.skip(1), p.skip(1))
    }
}

proof fn lemma_like_literal(t: Seq<char>, s: Seq<char>, rest: Seq<char>)
    ensures
        is_like(t, escaped(s) + rest) <==> s.len() <= t.len() && t.take(s.len() as int) == s
            && is_like(t.skip(s.len() as int), rest),
    decreases s.len(),
{
    let n = s.len() as int;
    if n == 0 {
        assert(escaped(s) + rest =~= rest);
        assert(t.skip(0) =~= t);
        assert(t.take(0) =~= s);
    } else {
        let c = s.last();
        let init = s.drop_last();
        let marked = c == '\\' || c == '%' || c == '_';
        let tail = if marked {
            seq!['\\', c] + rest
        } else {
            seq![c] + rest
        };
        assert(escaped(s) + rest =~= escaped(init) + tail);
        lemma_like_literal(t, init, tail);
        if init.len() <= t.len() {
            let u = t.skip(n - 1);
            if marked {
                assert(tail[0] == '\\' && tail[1] == c);
                assert(tail.skip(2) =~= rest);
            } else {
                assert(tail[0] == c);
                assert(tail.skip(1) =~= rest);
            }
            assert(is_like(u, tail) <==> u.len() > 0 && u[0] == c && is_like(u.skip(1), rest));
            if u.len() > 0 {
                assert(u.skip(1) =~= t.skip(n));
                assert(u[0] == t[n - 1]);
                assert(t.take(n).drop_last() =~= t.take(n - 1));
                assert(s =~= init.push(c));
                assert(t.take(n) =~= t.take(n - 1).push(t[n - 1]));
                if t.take(n) == s {
                    assert(t.take(n).last() == c);
                    assert(t.take(n - 1) =~= init);
                }
            }
        }
    }
}

/// The texts that are like the pattern of a text are those that contain it: nothing in it
/// has a meaning of its own.
pub proof fn law_pattern_finds_the_text(t: Seq<char>, s: Seq<char>)
    ensures
        is_like(t, pattern_of(s)) <==> contains(t, s),
{
    let p = pattern_of(s);
    let rest = p.skip(1);
    let any = seq!['%'];
    assert(p[0] == '%');
    assert(rest =~= escaped(s) + any);
    assert forall|u: Seq<char>| #[trigger] is_like(u, any) by {
        assert(any.skip(1) =~= Seq::empty());
        assert(u.skip(u.len() as int).len() == 0);
        assert(is_like(u.skip(u.len() as int), any.skip(1)));
    }
    assert forall|k: int| 0 <= k <= t.len() implies (is_like(#[trigger] t.skip(k), rest)
        <==> occurs_at(t, s, k)) by {
        lemma_like_literal(t.skip(k), s, any);
        if k + s.len() <= t.len() {
            assert(t.skip(k).take(s.len() as int) =~= t.subrange(k, k + s.len()));
        }
    }
    if is_like(t, p) {
        let k = choose|k: int| 0 <= k <= t.len() && is_like(#[trigger] t.skip(k), rest);
        assert(occurs_at(t, s, k));
    }
    if contains(t, s) {
        let k = choose|k: int| occurs_at(t, s, k);
        assert(is_like(t.skip(k), rest));
    }
}

/// Conditions that are put together all stand in the result, one after the other. Where
/// there is none, all records are asked for.
pub proof fn law_conditions_hold_together(texts: Seq<Seq<char>>, more: Seq<char>)
    ensures
        joined(Seq::empty()) == "1 = 1"@,
        joined(seq![more]) == more,
        texts.len() > 0 ==> joined(texts.push(more)) == joined(texts) + " AND "@ + more,
{
    let one = seq![more];
    assert(one.drop_last() =~= Seq::empty());
    assert(joined(one) =~= more);
    if texts.len() > 0 {
        assert(texts.push(more).drop_last() =~= texts);
        assert(joined(texts.push(more)) =~= joined(texts) + " AND "@ + more);
    }
}

} // verus!
