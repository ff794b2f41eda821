//! What holds of the setup of a forwarder and of the errors that it tells.

use vstd::prelude::*;

use crate::error::{DnsError, DnsErrorView};
use crate::forward::config::{
    addr_problem, first_problem, quick_setup, short_circuit_token, stripped,
};
use crate::forward::outcome::{single_error, step_after, ExecStep};
use crate::forward::selection::BALANCED_NEGATIVE_GRACE_MS;
use crate::forward::upstream::{contextualized, message_of};
use crate::text::words;

verus! {

/// A word may say whether the chain ends behind a response, with a value or without; any other
/// word says nothing about it.
pub proof fn law_words_about_the_chain(t: Seq<char>, value: Seq<char>)
    ensures
        short_circuit_token("short_circuit"@) == Ok::<Option<bool>, Seq<char>>(Some(true)),
        short_circuit_token("short_circuit="@ + "true"@) == Ok::<Option<bool>, Seq<char>>(
            Some(true),
        ),
        short_circuit_token("short_circuit="@ + "false"@) == Ok::<Option<bool>, Seq<char>>(
            Some(false),
        ),
        value != "true"@ && value != "false"@ ==> short_circuit_token("short_circuit="@ + value)
            is Err,
        t != "short_circuit"@ && !"short_circuit="@.is_prefix_of(t) ==> short_circuit_token(t)
            == Ok::<Option<bool>, Seq<char>>(None),
{
    reveal_strlit("short_circuit=");
    reveal_strlit("short_circuit");
    reveal_strlit("true");
    reveal_strlit("false");
    let p = "short_circuit="@;
    let flag = "short_circuit"@;
    assert(p.len() == 14 && flag.len() == 13);
    assert forall|v: Seq<char>| #[trigger] (p + v) != flag && p.is_prefix_of(p + v) && (p + v).skip(
        14,
    ) == v by {
        assert((p + v).len() >= 14);
        assert((p + v).take(14) =~= p);
        assert((p + v).skip(14) =~= v);
    }
    assert("true"@.len() == 4 && "false"@.len() == 5);
    assert((p + "true"@).skip(14) == "true"@);
    assert((p + "false"@).skip(14) == "false"@);
    assert((p + value).skip(14) == value);
}

/// Words at the end that speak about the chain are taken off, and the first of them counts; a
/// word that does not ends this, and stays with all before it.
pub proof fn law_words_at_the_end(w: Seq<Seq<char>>, last: Seq<char>, found: bool)
    ensures
        stripped(Seq::empty(), found) == Ok::<(Seq<Seq<char>>, bool), Seq<char>>(
            (Seq::empty(), found),
        ),
        short_circuit_token(last) == Ok::<Option<bool>, Seq<char>>(None) ==> stripped(
            w.push(last),
            found,
        ) == Ok::<(Seq<Seq<char>>, bool), Seq<char>>((w.push(last), found)),
        short_circuit_token(last) matches Ok(Some(v)) ==> stripped(w.push(last), found) == stripped(
            w,
            v,
        ),
        short_circuit_token(last) is Err ==> stripped(w.push(last), found) is Err,
{
    assert(w.push(last).drop_last() =~= w);
}

/// A quick setup without an address is refused. Otherwise its addresses are its words, and the
/// chain goes on behind a response, unless words at the end speak about that.
pub proof fn law_quick_setup(p: Seq<char>)
    ensures
        quick_setup(None) is Err,
        words(p).len() == 0 ==> quick_setup(Some(p)) is Err,
        words(p).len() > 0 && short_circuit_token(words(p).last()) == Ok::<
            Option<bool>,
            Seq<char>,
        >(None) ==> quick_setup(Some(p)) == Ok::<(Seq<Seq<char>>, bool), Seq<char>>(
            (words(p), false),
        ),
        quick_setup(Some(p)) matches Ok((addresses, _)) ==> addresses.len() > 0
            && addresses.is_prefix_of(words(p)),
{
    if words(p).len() == 0 {
        assert(words(p) =~= Seq::empty());
    }
    lemma_stripped_is_prefix(words(p), false);
}

proof fn lemma_stripped_is_prefix(w: Seq<Seq<char>>, found: bool)
    ensures
        stripped(w, found) matches Ok((left, _)) ==> left.is_prefix_of(w),
    decreases w.len(),
{
    if w.len() > 0 {
        if let Ok(Some(v)) = short_circuit_token(w.last()) {
            lemma_stripped_is_prefix(w.drop_last(), v);
            if let Ok((left, _)) = stripped(w.drop_last(), v) {
                assert(left =~= w.drop_last().subrange(0, left.len() as int));
                assert(left =~= w.subrange(0, left.len() as int));
            }
        } else {
            assert(w =~= w.subrange(0, w.len() as int));
        }
    }
}

/// Whether a text ends with another.
pub open spec fn ends_with(t: Seq<char>, end: Seq<char>) -> bool {
    end.len() <= t.len() && t.skip(t.len() - end.len()) == end
}

/// An error of an upstream is told with the upstream: its tag where it has one, its address,
/// and then the message as it came.
pub proof fn law_error_names_its_upstream(
    tag: Option<Seq<char>>,
    addr: Seq<char>,
    plugin: Seq<char>,
    e: DnsErrorView,
)
    ensures
        ({
            let m = message_of(e);
            let told = contextualized(tag, addr, e);
            &&& told is Plugin
            &&& ends_with(message_of(told), m)
            &&& tag is None ==> message_of(told) == "upstream '"@ + addr + "' query failed: "@ + m
            &&& tag matches Some(t) ==> message_of(told) == "upstream '"@ + t + "' ("@ + addr
                + ") query failed: "@ + m
            &&& single_error(plugin, tag, addr, e) is Plugin
            &&& ends_with(message_of(single_error(plugin, tag, addr, e)), message_of(told))
        }),
{
    let m = message_of(e);
    let told = message_of(contextualized(tag, addr, e));
    let all = message_of(single_error(plugin, tag, addr, e));
    assert(told.skip(told.len() - m.len()) =~= m);
    assert(all.skip(all.len() - told.len()) =~= told);
}

/// The chain stops behind a response exactly where that is configured. A denial is waited on
/// for a tenth of a second.
pub proof fn law_chain_behind_a_response(short_circuit: bool)
    ensures
        step_after(short_circuit) == ExecStep::Stop <==> short_circuit,
        step_after(short_circuit) == ExecStep::Next <==> !short_circuit,
        BALANCED_NEGATIVE_GRACE_MS == 100,
{
}

/// The upstream that a refused configuration is told of is the first whose address is not one
/// to connect to.
pub proof fn law_first_problem_is_told(checked: Seq<Result<(), DnsError>>, i: int, j: int)
    requires
        first_problem(checked, i),
        0 <= j < checked.len(),
    ensures
        0 <= i < checked.len(),
        checked[i] is Err,
        checked[j] is Err ==> i <= j,
        addr_problem(checked[i]) == Some(message_of(checked[i]->Err_0@)),
        checked[j] is Ok ==> addr_problem(checked[j]) is None,
{
    if j < i {
        assert(addr_problem(checked[j]) is None);
    }
}

} // verus!
