//! What holds of the choice among responses, over all that has come.

use vstd::prelude::*;

use crate::error::DnsErrorView;
use crate::forward::config::active_concurrent;
use crate::forward::fanout::around;
use crate::forward::outcome::{forwarded, ExecStep};
use crate::forward::selection::{
    chosen, end, handled, no_response, selection_step, state_after, with_join_error, without_chosen,
    AttemptView, OutcomeView, ResponseSelectionMode, SelectionEventView, SelectionStepView,
    SelectionView,
};
use crate::forward::upstream::tells_timeout;
use crate::proto::message::{MessageView, QuestionView, Rcode};
use crate::proto::response::{disposition, NegativeResponseKind, ResponseDisposition};
use crate::text::{lower_text, occurs_at};

verus! {

/// Whether an attempt ended with a response that says this.
pub open spec fn says(a: AttemptView, q: Option<QuestionView>, d: ResponseDisposition) -> bool {
    match a {
        AttemptView::Response(m) => disposition(m, q) == d,
        _ => false,
    }
}

/// Whether an attempt ended with a response that denies.
pub open spec fn denies(a: AttemptView, q: Option<QuestionView>) -> bool {
    says(a, q, ResponseDisposition::DefinitiveNegative(NegativeResponseKind::NxDomain)) || says(
        a,
        q,
        ResponseDisposition::DefinitiveNegative(NegativeResponseKind::NoData),
    )
}

/// How good a response is: an answer is better than an alias without its records, that is
/// better than a denial, and that is better than a response that says nothing.
pub open spec fn goodness(m: MessageView, q: Option<QuestionView>) -> int {
    match disposition(m, q) {
        ResponseDisposition::CompletePositive => 3,
        ResponseDisposition::IncompleteAlias => 2,
        ResponseDisposition::DefinitiveNegative(_) => 1,
        ResponseDisposition::Other => 0,
    }
}

/// The state after attempts that have ended in this order, as long as the wait is not over.
pub open spec fn awaited(
    q: Option<QuestionView>,
    attempts: Seq<AttemptView>,
    mode: ResponseSelectionMode,
    active: usize,
) -> Option<SelectionView>
    decreases attempts.len(),
{
    if attempts.len() == 0 {
        Some(no_response(q))
    } else {
        match awaited(q, attempts.drop_last(), mode, active) {
            Some(s) => state_after(
                selection_step(s, SelectionEventView::Ended(attempts.last()), mode, active),
            ),
            None => None,
        }
    }
}

/// How many attempts ended with a denial of a kind.
pub open spec fn denials(
    attempts: Seq<AttemptView>,
    q: Option<QuestionView>,
    kind: NegativeResponseKind,
) -> nat
    decreases attempts.len(),
{
    if attempts.len() == 0 {
        0
    } else {
        denials(attempts.drop_last(), q, kind) + (if says(
            attempts.last(),
            q,
            ResponseDisposition::DefinitiveNegative(kind),
        ) {
            1nat
        } else {
            0nat
        })
    }
}

/// Whether the attempt at `i` is the last that ended with a denial.
pub open spec fn is_latest_denial(
    attempts: Seq<AttemptView>,
    q: Option<QuestionView>,
    i: int,
) -> bool {
    &&& 0 <= i < attempts.len()
    &&& denies(attempts[i], q)
    &&& forall|j: int| i < j < attempts.len() ==> !denies(#[trigger] attempts[j], q)
}

/// Whether the attempt at `i` ended with a response as good as any that is no denial, and
/// is the last of these.
pub open spec fn is_latest_other(
    attempts: Seq<AttemptView>,
    q: Option<QuestionView>,
    i: int,
) -> bool {
    &&& 0 <= i < attempts.len()
    &&& attempts[i] is Response
    &&& !denies(attempts[i], q)
    &&& forall|j: int|
        0 <= j < attempts.len() && (#[trigger] attempts[j]) is Response && !denies(attempts[j], q)
            ==> goodness(attempts[j]->Response_0, q) <= goodness(attempts[i]->Response_0, q)
    &&& forall|j: int|
        i < j < attempts.len() && (#[trigger] attempts[j]) is Response && !denies(attempts[j], q)
            ==> goodness(attempts[j]->Response_0, q) < goodness(attempts[i]->Response_0, q)
}

/// Whether the attempt at `i` ended with a response as good as any, and is the last of
/// these.
pub open spec fn is_latest_best(
    attempts: Seq<AttemptView>,
    q: Option<QuestionView>,
    i: int,
) -> bool {
    &&& 0 <= i < attempts.len()
    &&& attempts[i] is Response
    &&& forall|j: int|
        0 <= j < attempts.len() && (#[trigger] attempts[j]) is Response ==> goodness(
            attempts[j]->Response_0,
            q,
        ) <= goodness(attempts[i]->Response_0, q)
    &&& forall|j: int|
        i < j < attempts.len() && (#[trigger] attempts[j]) is Response ==> goodness(
            attempts[j]->Response_0,
            q,
        ) < goodness(attempts[i]->Response_0, q)
}

/// What a failed attempt tells.
pub open spec fn failure_text(a: AttemptView) -> Seq<char> {
    match a {
        AttemptView::Failed(DnsErrorView::Plugin(m)) => m,
        AttemptView::Failed(DnsErrorView::Runtime(m)) => m,
        AttemptView::Lost(t) => "forward subtask join failed: "@ + t,
        AttemptView::Response(_) => Seq::empty(),
    }
}

/// Whether the attempt at `i` is the last that failed.
pub open spec fn is_latest_failure(attempts: Seq<AttemptView>, i: int) -> bool {
    &&& 0 <= i < attempts.len()
    &&& !(attempts[i] is Response)
    &&& forall|j: int| i < j < attempts.len() ==> (#[trigger] attempts[j]) is Response
}

/// Whether the message of an error speaks of a timeout, in whatever case.
pub open spec fn speaks_of_timeout(text: Seq<char>) -> bool {
    exists|k: int|
        0 <= k && k + 7 <= text.len() && #[trigger] lower_text(text).subrange(k, k + 7)
            == "timeout"@
}

spec fn some_timeout(attempts: Seq<AttemptView>) -> bool {
    exists|i: int|
        0 <= i < attempts.len() && (#[trigger] attempts[i]) is Failed && tells_timeout(
            failure_text(attempts[i]),
        )
}

spec fn describes(s: SelectionView, q: Option<QuestionView>, attempts: Seq<AttemptView>) -> bool {
    &&& s.question == q
    &&& s.completed == attempts.len()
    &&& s.nxdomain_votes == denials(attempts, q, NegativeResponseKind::NxDomain)
    &&& s.nodata_votes == denials(attempts, q, NegativeResponseKind::NoData)
    &&& s.negative_votes == s.nxdomain_votes + s.nodata_votes
    &&& match s.negative {
        Some(m) => s.negative_disposition == Some(disposition(m, q)) && exists|i: int| #[trigger]
            is_latest_denial(attempts, q, i) && attempts[i] == AttemptView::Response(m),
        None => forall|i: int| 0 <= i < attempts.len() ==> !denies(#[trigger] attempts[i], q),
    }
    &&& match s.best {
        Some(m) => s.best_disposition == Some(disposition(m, q)) && s.best_rank is Some
            && s.best_rank->0 == goodness(m, q) + 1 && exists|i: int| #[trigger]
            is_latest_other(attempts, q, i) && attempts[i] == AttemptView::Response(m),
        None => s.best_rank is None && forall|i: int|
            0 <= i < attempts.len() ==> !((#[trigger] attempts[i]) is Response) || denies(
                attempts[i],
                q,
            ),
    }
    &&& match s.last_error {
        Some(t) => exists|i: int| #[trigger]
            is_latest_failure(attempts, i) && failure_text(attempts[i]) == t,
        None => forall|i: int| 0 <= i < attempts.len() ==> (#[trigger] attempts[i]) is Response,
    }
    &&& s.last_timeout <==> some_timeout(attempts)
}

proof fn lemma_denials_bound(
    attempts: Seq<AttemptView>,
    q: Option<QuestionView>,
)
    ensures
        denials(attempts, q, NegativeResponseKind::NxDomain) + denials(
            attempts,
            q,
            NegativeResponseKind::NoData,
        ) <= attempts.len(),
    decreases attempts.len(),
{
    if attempts.len() > 0 {
        lemma_denials_bound(attempts.drop_last(), q);
    }
}

proof fn lemma_denials_seen(
    attempts: Seq<AttemptView>,
    q: Option<QuestionView>,
    kind: NegativeResponseKind,
)
    ensures
        denials(attempts, q, kind) > 0 <==> exists|i: int|
            0 <= i < attempts.len() && says(
                #[trigger] attempts[i],
                q,
                ResponseDisposition::DefinitiveNegative(kind),
            ),
    decreases attempts.len(),
{
    if attempts.len() > 0 {
        let init = attempts.drop_last();
        lemma_denials_seen(init, q, kind);
        let d = ResponseDisposition::DefinitiveNegative(kind);
        assert(attempts[attempts.len() - 1] == attempts.last());
        if denials(init, q, kind) > 0 {
            let i = choose|i: int| 0 <= i < init.len() && says(#[trigger] init[i], q, d);
            assert(attempts[i] == init[i]);
        }
        if exists|i: int| 0 <= i < attempts.len() && says(#[trigger] attempts[i], q, d) {
            let i = choose|i: int| 0 <= i < attempts.len() && says(#[trigger] attempts[i], q, d);
            if i < init.len() {
                assert(init[i] == attempts[i]);
            }
        }
    }
}

/// Counting and noting one more attempt.
proof fn lemma_described(s: SelectionView, q: Option<QuestionView>, attempts: Seq<AttemptView>)
    requires
        attempts.len() > 0,
        attempts.len() <= usize::MAX,
        describes(s, q, attempts.drop_last()),
    ensures
        describes(handled(s, attempts.last()).0, q, attempts),
{
    let init = attempts.drop_last();
    let n = init.len() as int;
    let a = attempts.last();
    let t = handled(s, a).0;
    lemma_denials_bound(init, q);
    assert(attempts[n] == a);
    assert(forall|i: int| 0 <= i < n ==> #[trigger] attempts[i] == init[i]);
    assert(forall|i: int| 0 <= i < n ==> #[trigger] init[i] == attempts[i]);
    lemma_described_negative(s, q, attempts);
    lemma_described_best(s, q, attempts);
    lemma_described_failure(s, q, attempts);
}

proof fn lemma_described_negative(
    s: SelectionView,
    q: Option<QuestionView>,
    attempts: Seq<AttemptView>,
)
    requires
        attempts.len() > 0,
        describes(s, q, attempts.drop_last()),
    ensures
        ({
            let t = handled(s, attempts.last()).0;
            match t.negative {
                Some(m) => t.negative_disposition == Some(disposition(m, q)) && exists|i: int|
                    #[trigger] is_latest_denial(attempts, q, i) && attempts[i]
                        == AttemptView::Response(m),
                None => forall|i: int|
                    0 <= i < attempts.len() ==> !denies(#[trigger] attempts[i], q),
            }
        }),
{
    let init = attempts.drop_last();
    let n = init.len() as int;
    let a = attempts.last();
    assert(attempts[n] == a);
    assert(forall|i: int| 0 <= i < n ==> #[trigger] attempts[i] == init[i]);
    if denies(a, q) {
        assert(is_latest_denial(attempts, q, n));
    } else if s.negative is Some {
        let m = s.negative->0;
        let i = choose|i: int| #[trigger]
            is_latest_denial(init, q, i) && init[i] == AttemptView::Response(m);
        assert forall|j: int| i < j < attempts.len() implies !denies(#[trigger] attempts[j], q) by {
            if j < n {
                assert(init[j] == attempts[j]);
            }
        }
        assert(is_latest_denial(attempts, q, i));
    } else {
        assert forall|i: int| 0 <= i < attempts.len() implies !denies(#[trigger] attempts[i], q) by {
            if i < n {
                assert(init[i] == attempts[i]);
            }
        }
    }
}

proof fn lemma_described_best(
    s: SelectionView,
    q: Option<QuestionView>,
    attempts: Seq<AttemptView>,
)
    requires
        attempts.len() > 0,
        describes(s, q, attempts.drop_last()),
    ensures
        ({
            let t = handled(s, attempts.last()).0;
            match t.best {
                Some(m) => t.best_disposition == Some(disposition(m, q)) && t.best_rank is Some
                    && t.best_rank->0 == goodness(m, q) + 1 && exists|i: int| #[trigger]
                    is_latest_other(attempts, q, i) && attempts[i] == AttemptView::Response(m),
                None => t.best_rank is None && forall|i: int|
                    0 <= i < attempts.len() ==> !((#[trigger] attempts[i]) is Response) || denies(
                        attempts[i],
                        q,
                    ),
            }
        }),
{
    let init = attempts.drop_last();
    let n = init.len() as int;
    let a = attempts.last();
    let t = handled(s, a).0;
    assert(attempts[n] == a);
    let other = a is Response && !denies(a, q);
    assert(forall|i: int| 0 <= i < n ==> #[trigger] attempts[i] == init[i]);
    if other && t.best == Some(a->Response_0) && t.best_rank->0 == goodness(a->Response_0, q) + 1 && (
    s.best is None || goodness(a->Response_0, q) >= goodness(s.best->0, q)) {
        if s.best is Some {
            let m = s.best->0;
            let k = choose|k: int| #[trigger]
                is_latest_other(init, q, k) && init[k] == AttemptView::Response(m);
            assert forall|j: int|
                0 <= j < attempts.len() && (#[trigger] attempts[j]) is Response && !denies(
                    attempts[j],
                    q,
                ) implies goodness(attempts[j]->Response_0, q) <= goodness(a->Response_0, q) by {
                if j < n {
                    assert(init[j] == attempts[j]);
                }
            }
        } else {
            assert forall|j: int|
                0 <= j < attempts.len() && (#[trigger] attempts[j]) is Response && !denies(
                    attempts[j],
                    q,
                ) implies goodness(attempts[j]->Response_0, q) <= goodness(a->Response_0, q) by {
                if j < n {
                    assert(init[j] == attempts[j]);
                }
            }
        }
        assert(is_latest_other(attempts, q, n));
    } else if s.best is Some {
        let m = s.best->0;
        let k = choose|k: int| #[trigger]
            is_latest_other(init, q, k) && init[k] == AttemptView::Response(m);
        assert forall|j: int|
            0 <= j < attempts.len() && (#[trigger] attempts[j]) is Response && !denies(
                attempts[j],
                q,
            ) implies goodness(attempts[j]->Response_0, q) <= goodness(m, q) by {
            if j < n {
                assert(init[j] == attempts[j]);
            }
        }
        assert forall|j: int|
            k < j < attempts.len() && (#[trigger] attempts[j]) is Response && !denies(
                attempts[j],
                q,
            ) implies goodness(attempts[j]->Response_0, q) < goodness(m, q) by {
            if j < n {
                assert(init[j] == attempts[j]);
            }
        }
        assert(is_latest_other(attempts, q, k));
    } else {
        assert forall|i: int| 0 <= i < attempts.len() implies !((#[trigger] attempts[i]) is Response)
            || denies(attempts[i], q) by {
            if i < n {
                assert(init[i] == attempts[i]);
            }
        }
    }
}

proof fn lemma_described_failure(
    s: SelectionView,
    q: Option<QuestionView>,
    attempts: Seq<AttemptView>,
)
    requires
        attempts.len() > 0,
        describes(s, q, attempts.drop_last()),
    ensures
        ({
            let t = handled(s, attempts.last()).0;
            &&& match t.last_error {
                Some(e) => exists|i: int| #[trigger]
                    is_latest_failure(attempts, i) && failure_text(attempts[i]) == e,
                None => forall|i: int|
                    0 <= i < attempts.len() ==> (#[trigger] attempts[i]) is Response,
            }
            &&& t.last_timeout <==> some_timeout(attempts)
        }),
{
    let init = attempts.drop_last();
    let n = init.len() as int;
    let a = attempts.last();
    assert(attempts[n] == a);
    assert(forall|i: int| 0 <= i < n ==> #[trigger] attempts[i] == init[i]);
    if !(a is Response) {
        assert(is_latest_failure(attempts, n));
    } else if s.last_error is Some {
        let i = choose|i: int| #[trigger]
            is_latest_failure(init, i) && failure_text(init[i]) == s.last_error->0;
        assert forall|j: int| i < j < attempts.len() implies (#[trigger] attempts[j]) is Response by {
            if j < n {
                assert(init[j] == attempts[j]);
            }
        }
        assert(is_latest_failure(attempts, i));
    } else {
        assert forall|i: int| 0 <= i < attempts.len() implies (#[trigger] attempts[i]) is Response by {
            if i < n {
                assert(init[i] == attempts[i]);
            }
        }
    }
    if some_timeout(init) {
        let i = choose|i: int|
            0 <= i < init.len() && (#[trigger] init[i]) is Failed && tells_timeout(
                failure_text(init[i]),
            );
        assert(attempts[i] == init[i]);
    }
    if some_timeout(attempts) {
        let i = choose|i: int|
            0 <= i < attempts.len() && (#[trigger] attempts[i]) is Failed && tells_timeout(
                failure_text(attempts[i]),
            );
        if i < n {
            assert(init[i] == attempts[i]);
        }
    }
}

proof fn lemma_awaited(
    q: Option<QuestionView>,
    attempts: Seq<AttemptView>,
    mode: ResponseSelectionMode,
    active: usize,
)
    requires
        mode != ResponseSelectionMode::Fastest,
        attempts.len() <= usize::MAX,
    ensures
        awaited(q, attempts, mode, active) matches Some(s) ==> describes(s, q, attempts),
    decreases attempts.len(),
{
    if attempts.len() > 0 {
        lemma_awaited(q, attempts.drop_last(), mode, active);
        if let Some(s) = awaited(q, attempts.drop_last(), mode, active) {
            lemma_described(s, q, attempts);
        }
    }
}

/// Where upstreams have to agree, two denials of the same kind are agreement, whichever
/// kind it is and whatever came between them: the second one is taken at once. A denial of
/// a kind that nobody else has given is none, and others are awaited.
pub proof fn law_two_denials_agree(
    q: Option<QuestionView>,
    attempts: Seq<AttemptView>,
    active: usize,
    m: MessageView,
    kind: NegativeResponseKind,
)
    requires
        attempts.len() < usize::MAX,
        active >= 2,
        awaited(q, attempts, ResponseSelectionMode::Consensus, active) is Some,
        disposition(m, q) == ResponseDisposition::DefinitiveNegative(kind),
    ensures
        ({
            let s = awaited(q, attempts, ResponseSelectionMode::Consensus, active)->0;
            let step = selection_step(
                s,
                SelectionEventView::Ended(AttemptView::Response(m)),
                ResponseSelectionMode::Consensus,
                active,
            );
            let earlier = exists|i: int|
                0 <= i < attempts.len() && says(
                    #[trigger] attempts[i],
                    q,
                    ResponseDisposition::DefinitiveNegative(kind),
                );
            &&& earlier ==> step is Done && step->abort && step->outcome.response is Some
                && step->outcome.response->0.message == m && step->outcome.error is None
            &&& !earlier && attempts.len() + 1 < active ==> step is Wait
        }),
{
    lemma_awaited(q, attempts, ResponseSelectionMode::Consensus, active);
    let s = awaited(q, attempts, ResponseSelectionMode::Consensus, active)->0;
    lemma_denials_seen(attempts, q, kind);
    lemma_denials_bound(attempts, q);
    if attempts.len() + 1 < active {
        lemma_one_denial_each(q, attempts, active);
    }
}

/// As long as agreement is awaited, no kind of denial has come twice.
proof fn lemma_one_denial_each(q: Option<QuestionView>, attempts: Seq<AttemptView>, active: usize)
    requires
        attempts.len() < usize::MAX,
        active >= 2,
        awaited(q, attempts, ResponseSelectionMode::Consensus, active) is Some,
    ensures
        denials(attempts, q, NegativeResponseKind::NxDomain) <= 1,
        denials(attempts, q, NegativeResponseKind::NoData) <= 1,
    decreases attempts.len(),
{
    if attempts.len() > 0 {
        let init = attempts.drop_last();
        lemma_one_denial_each(q, init, active);
        lemma_awaited(q, init, ResponseSelectionMode::Consensus, active);
    }
}

/// Two responses that deny the name are agreement, and so are two without error and
/// without answers.
pub proof fn law_plain_denials_agree(
    q: Option<QuestionView>,
    attempts: Seq<AttemptView>,
    active: usize,
    i: int,
    m: MessageView,
)
    requires
        attempts.len() < usize::MAX,
        active >= 2,
        awaited(q, attempts, ResponseSelectionMode::Consensus, active) is Some,
        0 <= i < attempts.len(),
        attempts[i] is Response,
        ({
            let earlier = attempts[i]->Response_0;
            ||| m.rcode == Rcode::NXDomain && earlier.rcode == Rcode::NXDomain
            ||| m.rcode == Rcode::NoError && earlier.rcode == Rcode::NoError && m.answers.len() == 0
                && earlier.answers.len() == 0
        }),
    ensures
        ({
            let s = awaited(q, attempts, ResponseSelectionMode::Consensus, active)->0;
            let step = selection_step(
                s,
                SelectionEventView::Ended(AttemptView::Response(m)),
                ResponseSelectionMode::Consensus,
                active,
            );
            step is Done && step->abort && step->outcome.response is Some
                && step->outcome.response->0.message == m
        }),
{
    let kind = if m.rcode == Rcode::NXDomain {
        NegativeResponseKind::NxDomain
    } else {
        NegativeResponseKind::NoData
    };
    assert(says(attempts[i], q, ResponseDisposition::DefinitiveNegative(kind)));
    law_two_denials_agree(q, attempts, active, m, kind);
}

proof fn lemma_chosen(s: SelectionView, q: Option<QuestionView>, attempts: Seq<AttemptView>)
    requires
        describes(s, q, attempts),
    ensures
        match chosen(s) {
            Some(c) => c.disposition == Some(disposition(c.message, q)) && exists|i: int| #[trigger]
                is_latest_best(attempts, q, i) && attempts[i] == AttemptView::Response(c.message),
            None => forall|i: int|
                0 <= i < attempts.len() ==> !((#[trigger] attempts[i]) is Response),
        },
{
    if s.best is Some {
        let m = s.best->0;
        let i = choose|i: int| #[trigger]
            is_latest_other(attempts, q, i) && attempts[i] == AttemptView::Response(m);
        if s.negative is Some {
            let k = choose|k: int| #[trigger]
                is_latest_denial(attempts, q, k) && attempts[k] == AttemptView::Response(
                    s.negative->0,
                );
            if goodness(m, q) >= 2 {
                assert(is_latest_best(attempts, q, i));
            } else {
                assert(is_latest_best(attempts, q, k));
            }
        } else {
            assert(is_latest_best(attempts, q, i));
        }
    } else if s.negative is Some {
        let k = choose|k: int| #[trigger]
            is_latest_denial(attempts, q, k) && attempts[k] == AttemptView::Response(s.negative->0);
        assert(is_latest_best(attempts, q, k));
    }
}

/// Whether an outcome is what attempts give that have all been awaited: a response as good as
/// any that came and the last of these, or none where none came; the last failure that was
/// told; and whether a failure was a timeout.
pub open spec fn is_outcome_of(
    o: OutcomeView,
    q: Option<QuestionView>,
    attempts: Seq<AttemptView>,
) -> bool {
    &&& match o.response {
        Some(c) => c.disposition == Some(disposition(c.message, q)) && exists|i: int| #[trigger]
            is_latest_best(attempts, q, i) && attempts[i] == AttemptView::Response(c.message),
        None => forall|i: int| 0 <= i < attempts.len() ==> !((#[trigger] attempts[i]) is Response),
    }
    &&& match o.error {
        Some(t) => exists|i: int| #[trigger]
            is_latest_failure(attempts, i) && failure_text(attempts[i]) == t,
        None => forall|i: int| 0 <= i < attempts.len() ==> (#[trigger] attempts[i]) is Response,
    }
    &&& o.timed_out <==> exists|i: int|
        0 <= i < attempts.len() && (#[trigger] attempts[i]) is Failed && speaks_of_timeout(
            failure_text(attempts[i]),
        )
}

proof fn lemma_timeout(text: Seq<char>)
    ensures
        tells_timeout(text) <==> speaks_of_timeout(text),
{
    reveal_strlit("timeout");
    let lower = lower_text(text);
    assert(lower.len() == text.len());
    if tells_timeout(text) {
        let k = choose|k: int| occurs_at(lower, "timeout"@, k);
        assert(lower.subrange(k, k + 7) == "timeout"@);
    }
    if speaks_of_timeout(text) {
        let k = choose|k: int|
            0 <= k && k + 7 <= text.len() && #[trigger] lower.subrange(k, k + 7) == "timeout"@;
        assert(occurs_at(lower, "timeout"@, k));
    }
}

proof fn lemma_outcome(s: SelectionView, q: Option<QuestionView>, attempts: Seq<AttemptView>)
    requires
        describes(s, q, attempts),
    ensures
        end(s) is Done,
        !end(s)->abort,
        is_outcome_of(end(s)->outcome, q, attempts),
{
    lemma_chosen(s, q, attempts);
    assert forall|t: Seq<char>| #[trigger] tells_timeout(t) <==> speaks_of_timeout(t) by {
        lemma_timeout(t);
    }
    if exists|i: int|
        0 <= i < attempts.len() && (#[trigger] attempts[i]) is Failed && speaks_of_timeout(
            failure_text(attempts[i]),
        ) {
        let i = choose|i: int|
            0 <= i < attempts.len() && (#[trigger] attempts[i]) is Failed && speaks_of_timeout(
                failure_text(attempts[i]),
            );
        assert(tells_timeout(failure_text(attempts[i])));
    }
    if some_timeout(attempts) {
        let i = choose|i: int|
            0 <= i < attempts.len() && (#[trigger] attempts[i]) is Failed && tells_timeout(
                failure_text(attempts[i]),
            );
        assert(speaks_of_timeout(failure_text(attempts[i])));
    }
}

/// Where all attempts have ended and none was taken early, the best response that came is
/// taken, the last of several that are as good; without any the last failure is told.
pub proof fn law_best_of_all_is_taken(
    q: Option<QuestionView>,
    attempts: Seq<AttemptView>,
    mode: ResponseSelectionMode,
    active: usize,
)
    requires
        mode != ResponseSelectionMode::Fastest,
        attempts.len() < usize::MAX,
        awaited(q, attempts, mode, active) is Some,
    ensures
        ({
            let s = awaited(q, attempts, mode, active)->0;
            let step = selection_step(s, SelectionEventView::Exhausted, mode, active);
            step is Done && !step->abort && is_outcome_of(step->outcome, q, attempts)
        }),
{
    lemma_awaited(q, attempts, mode, active);
    lemma_outcome(awaited(q, attempts, mode, active)->0, q, attempts);
}

/// The last response of all ends the wait, with the best that came. Before the last, a
/// response that is neither an answer nor a denial leaves the wait open.
pub proof fn law_last_response_ends_the_wait(
    q: Option<QuestionView>,
    attempts: Seq<AttemptView>,
    mode: ResponseSelectionMode,
    active: usize,
    m: MessageView,
)
    requires
        mode != ResponseSelectionMode::Fastest,
        attempts.len() < usize::MAX,
        awaited(q, attempts, mode, active) is Some,
        disposition(m, q) != ResponseDisposition::CompletePositive,
    ensures
        ({
            let s = awaited(q, attempts, mode, active)->0;
            let a = AttemptView::Response(m);
            let step = selection_step(s, SelectionEventView::Ended(a), mode, active);
            &&& attempts.len() + 1 >= active ==> step is Done && step->outcome.response is Some
            &&& attempts.len() + 1 >= active && step->abort
                ==> step->outcome.response->0.message == m
            &&& attempts.len() + 1 >= active && !step->abort ==> is_outcome_of(
                step->outcome,
                q,
                attempts.push(a),
            )
            &&& attempts.len() + 1 < active && !denies(a, q) ==> step is Wait
        }),
{
    lemma_awaited(q, attempts, mode, active);
    let s = awaited(q, attempts, mode, active)->0;
    let a = AttemptView::Response(m);
    let all = attempts.push(a);
    assert(all.drop_last() =~= attempts);
    lemma_described(s, q, all);
    lemma_outcome(handled(s, a).0, q, all);
    lemma_chosen(handled(s, a).0, q, all);
    assert(all[attempts.len() as int] is Response);
}

/// An answer ends the wait at once in every mode, and is what is taken.
pub proof fn law_answer_ends_the_wait(
    q: Option<QuestionView>,
    attempts: Seq<AttemptView>,
    mode: ResponseSelectionMode,
    active: usize,
    m: MessageView,
)
    requires
        mode != ResponseSelectionMode::Fastest,
        attempts.len() < usize::MAX,
        awaited(q, attempts, mode, active) is Some,
        disposition(m, q) == ResponseDisposition::CompletePositive,
    ensures
        ({
            let s = awaited(q, attempts, mode, active)->0;
            let step = selection_step(
                s,
                SelectionEventView::Ended(AttemptView::Response(m)),
                mode,
                active,
            );
            step is Done && step->abort && step->outcome.response is Some
                && step->outcome.response->0.message == m && step->outcome.error is None
                && !step->outcome.timed_out
        }),
{
    lemma_awaited(q, attempts, mode, active);
    let s = awaited(q, attempts, mode, active)->0;
    if s.best is Some {
        let i = choose|i: int| #[trigger]
            is_latest_other(attempts, q, i) && attempts[i] == AttemptView::Response(s.best->0);
    }
}

/// In the balanced mode the first denial starts the short wait while others are awaited,
/// and no later one does. When the short wait is over, the best response that came is
/// taken, if a denial has come; without one the wait goes on.
pub proof fn law_short_wait(
    q: Option<QuestionView>,
    attempts: Seq<AttemptView>,
    active: usize,
    m: MessageView,
)
    requires
        attempts.len() < usize::MAX,
        awaited(q, attempts, ResponseSelectionMode::Balanced, active) is Some,
        denies(AttemptView::Response(m), q),
    ensures
        ({
            let mode = ResponseSelectionMode::Balanced;
            let s = awaited(q, attempts, mode, active)->0;
            let a = AttemptView::Response(m);
            let step = selection_step(s, SelectionEventView::Ended(a), mode, active);
            let over = selection_step(s, SelectionEventView::GraceOver, mode, active);
            let denied = exists|i: int| 0 <= i < attempts.len() && denies(#[trigger] attempts[i], q);
            &&& attempts.len() + 1 < active && !denied ==> step is WaitWithGrace
            &&& attempts.len() + 1 < active && denied ==> step is Wait
            &&& denied ==> over is Done && over->abort && over->outcome.response is Some
                && exists|i: int| #[trigger]
                is_latest_best(attempts, q, i) && attempts[i] == AttemptView::Response(
                    over->outcome.response->0.message,
                )
            &&& !denied ==> over == SelectionStepView::Wait(s)
        }),
{
    let mode = ResponseSelectionMode::Balanced;
    lemma_awaited(q, attempts, mode, active);
    let s = awaited(q, attempts, mode, active)->0;
    lemma_denials_seen(attempts, q, NegativeResponseKind::NxDomain);
    lemma_denials_seen(attempts, q, NegativeResponseKind::NoData);
    lemma_denials_bound(attempts, q);
    lemma_chosen(s, q, attempts);
    let denied = exists|i: int| 0 <= i < attempts.len() && denies(#[trigger] attempts[i], q);
    if denied {
        let i = choose|i: int| 0 <= i < attempts.len() && denies(#[trigger] attempts[i], q);
        assert(s.negative_votes > 0);
        assert(attempts[i] is Response);
    } else {
        assert forall|i: int| 0 <= i < attempts.len() implies !says(
            #[trigger] attempts[i],
            q,
            ResponseDisposition::DefinitiveNegative(NegativeResponseKind::NxDomain),
        ) && !says(
            attempts[i],
            q,
            ResponseDisposition::DefinitiveNegative(NegativeResponseKind::NoData),
        ) by {
            assert(!denies(attempts[i], q));
        }
    }
}

/// Outside the mode that waits for agreement, a denial does not end the wait while others
/// are awaited, however many there are.
pub proof fn law_denials_do_not_end_the_wait(
    s: SelectionView,
    mode: ResponseSelectionMode,
    active: usize,
    m: MessageView,
)
    requires
        mode == ResponseSelectionMode::Balanced || mode == ResponseSelectionMode::PreferPositive,
        s.completed + 1 < active,
        denies(AttemptView::Response(m), s.question),
    ensures
        !(selection_step(
            s,
            SelectionEventView::Ended(AttemptView::Response(m)),
            mode,
            active,
        ) is Done),
{
}

/// Where the first response is taken, it is the first: failures before it are passed over,
/// and where only failures came, the last of them is told.
pub proof fn law_fastest_passes_failures_over(
    q: Option<QuestionView>,
    attempts: Seq<AttemptView>,
    active: usize,
    m: MessageView,
)
    requires
        forall|i: int| 0 <= i < attempts.len() ==> !((#[trigger] attempts[i]) is Response),
    ensures
        ({
            let mode = ResponseSelectionMode::Fastest;
            let s = awaited(q, attempts, mode, active);
            &&& s is Some
            &&& ({
                let step = selection_step(
                    s->0,
                    SelectionEventView::Ended(AttemptView::Response(m)),
                    mode,
                    active,
                );
                step is Done && step->abort && step->outcome.response is Some
                    && step->outcome.response->0.message == m && step->outcome.error is None
            })
            &&& ({
                let last = selection_step(s->0, SelectionEventView::Exhausted, mode, active);
                last is Done && last->outcome.response is None && last->outcome.error
                    == (if attempts.len() == 0 {
                    None
                } else {
                    Some(failure_text(attempts.last()))
                })
            })
        }),
    decreases attempts.len(),
{
    lemma_fastest(q, attempts, active);
}

proof fn lemma_fastest(q: Option<QuestionView>, attempts: Seq<AttemptView>, active: usize)
    requires
        forall|i: int| 0 <= i < attempts.len() ==> !((#[trigger] attempts[i]) is Response),
    ensures
        awaited(q, attempts, ResponseSelectionMode::Fastest, active) matches Some(s)
            && s.best is None && s.best_rank is None && s.negative is None && s.last_error
            == (if attempts.len() == 0 {
            None
        } else {
            Some(failure_text(attempts.last()))
        }),
    decreases attempts.len(),
{
    if attempts.len() > 0 {
        let init = attempts.drop_last();
        assert forall|i: int| 0 <= i < init.len() implies !((#[trigger] init[i]) is Response) by {
            assert(init[i] == attempts[i]);
        }
        lemma_fastest(q, init, active);
        assert(!(attempts[attempts.len() - 1] is Response));
    }
}

/// A request gets the response that was taken, and the chain stops behind it exactly where
/// that is configured; a request without a response gets an error that tells the failure.
pub proof fn law_request_gets_the_response(tag: Seq<char>, short_circuit: bool, o: OutcomeView)
    ensures
        match forwarded(tag, short_circuit, o) {
            Ok((m, step, alias)) => {
                &&& o.response is Some
                &&& m == o.response->0.message
                &&& step == ExecStep::Stop <==> short_circuit
                &&& alias <==> o.response->0.disposition == Some(
                    ResponseDisposition::IncompleteAlias,
                )
            },
            Err(e) => {
                &&& o.response is None
                &&& e is Plugin
                &&& o.error matches Some(t) ==> exists|before: Seq<char>|
                    e->Plugin_0 == #[trigger] (before + t)
            },
        },
{
    if o.response is None && o.error is Some {
        let before = "forward plugin '"@ + tag + "' failed across all concurrent upstreams: "@;
        assert(forwarded(tag, short_circuit, o)->Err_0->Plugin_0 == before + o.error->0);
    }
}

/// As many upstreams are asked at the same time as are wanted, but at least one, at most
/// thirty-two, and no more than there are.
pub proof fn law_asked_at_the_same_time(concurrent: Option<usize>, total: usize)
    ensures
        ({
            let n = active_concurrent(concurrent, total);
            &&& 1 <= n <= 32
            &&& total >= 1 ==> n <= total
            &&& concurrent is None ==> n == 1
            &&& concurrent matches Some(w) ==> (1 <= w <= 32 && w <= total ==> n == w)
            &&& concurrent matches Some(w) ==> (w > n ==> n == 32 || n == total || total == 0)
        }),
{
}

/// The upstreams that are asked follow one another, and behind the last comes the first.
pub proof fn law_upstreams_follow(start: usize, active: usize, total: usize)
    requires
        start < total,
        active <= total,
    ensures
        around(start, active, total).len() == active,
        active > 0 ==> around(start, active, total)[0] == start,
        forall|i: int|
            0 <= i < active - 1 ==> (#[trigger] around(start, active, total)[i + 1]) == (if around(
                start,
                active,
                total,
            )[i] + 1 == total {
                0
            } else {
                around(start, active, total)[i] + 1
            }),
{
    let t = total as int;
    assert forall|i: int| 0 <= i < active implies (#[trigger] around(start, active, total)[i])
        == (if start + i < t {
        start + i
    } else {
        start + i - t
    }) by {
        if start + i < t {
            vstd::arithmetic::div_mod::lemma_small_mod((start + i) as nat, t as nat);
        } else {
            vstd::arithmetic::div_mod::lemma_mod_sub_multiples_vanish(start + i, t);
            vstd::arithmetic::div_mod::lemma_small_mod((start + i - t) as nat, t as nat);
        }
    }
}

/// A task that failed leaves its failure as the last error, and changes nothing else.
pub proof fn law_failed_task_is_noted(s: SelectionView, text: Seq<char>)
    ensures
        with_join_error(s, text).last_error == Some("forward subtask join failed: "@ + text),
        with_join_error(s, text).last_timeout == s.last_timeout,
        chosen(with_join_error(s, text)) == chosen(s),
        with_join_error(s, text).completed == s.completed,
{
}

/// The response that is chosen is taken out: a denial, or the best, and the other stays.
pub proof fn law_choice_is_taken_out(s: SelectionView)
    ensures
        ({
            let t = without_chosen(s);
            let denial = s.negative is Some && (s.best_rank is None || s.best_rank->0 < 2);
            &&& chosen(s) is None ==> t == s
            &&& chosen(s) is Some && denial ==> t.negative is None && t.best == s.best
            &&& chosen(s) is Some && !denial ==> t.best is None && t.negative == s.negative
            &&& t.completed == s.completed && t.last_error == s.last_error
        }),
{
}

} // verus!
