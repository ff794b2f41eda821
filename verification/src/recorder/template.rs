//! Texts with places to fill.

use vstd::prelude::*;

use crate::text::{chars_of, same_chars, string_from};

verus! {

/// Names and what stands for them.
pub open spec fn value_for(vars: Seq<(Seq<char>, Seq<char>)>, name: Seq<char>) -> Option<Seq<char>>
    decreases vars.len(),
{
    if vars.len() == 0 {
        None
    } else if vars[0].0 == name {
        Some(vars[0].1)
    } else {
        value_for(vars.skip(1), name)
    }
}

/// Where the first closing brace stands, from `at` on.
pub open spec fn closing(t: Seq<char>, at: int) -> Option<int>
    decreases t.len() - at,
{
    if at >= t.len() {
        None
    } else if t[at] == '}' {
        Some(at)
    } else {
        closing(t, at + 1)
    }
}

/// What stands at the beginning of a text: its place and the length that it takes.
pub open spec fn first_part(t: Seq<char>, vars: Seq<(Seq<char>, Seq<char>)>) -> (Seq<char>, int) {
    let plain = (seq![t[0]], 1int);
    if t[0] == '{' {
        match closing(t, 1) {
            Some(j) => match value_for(vars, t.subrange(1, j)) {
                Some(v) => (v, j + 1),
                None => plain,
            },
            None => plain,
        }
    } else {
        plain
    }
}

proof fn lemma_closing(t: Seq<char>, at: int)
    ensures
        closing(t, at) matches Some(j) ==> at <= j < t.len(),
    decreases t.len() - at,
{
    if at < t.len() && t[at] != '}' {
        lemma_closing(t, at + 1);
    }
}

/// A text with its places filled: a name in braces is replaced by what stands for it.
pub open spec fn filled(t: Seq<char>, vars: Seq<(Seq<char>, Seq<char>)>) -> Seq<char>
    decreases t.len(),
    via filled_shrinks
{
    if t.len() == 0 {
        Seq::empty()
    } else {
        let (text, n) = first_part(t, vars);
        text + filled(t.skip(n), vars)
    }
}

#[via_fn]
proof fn filled_shrinks(t: Seq<char>, vars: Seq<(Seq<char>, Seq<char>)>) {
    if t.len() > 0 {
        lemma_closing(t, 1);
    }
}

/// The views of names and what stands for them.
pub open spec fn var_views(vars: Seq<(&str, &str)>) -> Seq<(Seq<char>, Seq<char>)> {
    Seq::new(vars.len(), |i: int| (vars[i].0@, vars[i].1@))
}

fn find_value(vars: &Vec<(&str, &str)>, name: &[char]) -> (r: Option<usize>)
    ensures
        match r {
            Some(i) => i < vars@.len() && value_for(var_views(vars@), name@) == Some(vars@[i as int].1@),
            None => value_for(var_views(vars@), name@) is None,
        },
{
    let ghost all = var_views(vars@);
    let mut i: usize = 0;
    assert(all.skip(0) =~= all);
    while i < vars.len()
        invariant
            i <= vars@.len(),
            all == var_views(vars@),
            value_for(all, name@) == value_for(all.skip(i as int), name@),
        decreases vars@.len() - i,
    {
        let ghost rest = all.skip(i as int);
        assert(rest.skip(1) =~= all.skip(i + 1));
        assert(rest[0] == (vars@[i as int].0@, vars@[i as int].1@));
        let key = chars_of(vars[i].0);
        if same_chars(key.as_slice(), name) {
            return Some(i);
        }
        i = i + 1;
    }
    None
}

fn find_closing(t: &[char], from: usize) -> (r: Option<usize>)
    requires
        from < t@.len(),
    ensures
        match r {
            Some(j) => from < j < t@.len() && closing(t@.skip(from as int), 1) == Some(j - from),
            None => closing(t@.skip(from as int), 1) is None,
        },
{
    let ghost rest = t@.skip(from as int);
    let n: usize = t.len();
    let mut j: usize = from + 1;
    while j < n
        invariant
            from < j <= t@.len(),
            n == t@.len(),
            rest == t@.skip(from as int),
            closing(rest, 1) == closing(rest, j - from),
        decreases t@.len() - j,
    {
        assert(rest[j - from] == t@[j as int]);
        if t[j] == '}' {
            return Some(j);
        }
        j = j + 1;
    }
    None
}

/// A text with its places filled.
pub fn fill(template: &str, vars: &Vec<(&str, &str)>) -> (r: String)
    ensures
        r@ == filled(template@, var_views(vars@)),
{
    let t = chars_of(template);
    let ghost all = var_views(vars@);
    let mut out = String::new();
    let mut i: usize = 0;
    assert(t@.skip(0) =~= t@);
    assert(out@ + filled(t@, all) =~= filled(t@, all));
    while i < t.len()
        invariant
            i <= t@.len(),
            t@ == template@,
            all == var_views(vars@),
            out@ + filled(t@.skip(i as int), all) == filled(t@, all),
        decreases t@.len() - i,
    {
        let ghost rest = t@.skip(i as int);
        let ghost before = out@;
        let mut done = false;
        if t[i] == '{' {
            if let Some(j) = find_closing(t.as_slice(), i) {
                let name = chars_of(string_from(t.as_slice(), i + 1, j).as_str());
                assert(name@ =~= rest.subrange(1, j - i));
                if let Some(v) = find_value(vars, name.as_slice()) {
                    crate::text::push_text(&mut out, vars[v].1);
                    assert(rest.skip(j - i + 1) =~= t@.skip(j + 1));
                    assert(out@ + filled(t@.skip(j + 1), all) =~= before + (vars@[v as int].1@
                        + filled(t@.skip(j + 1), all)));
                    i = j + 1;
                    done = true;
                }
            }
        }
        if !done {
            out.push(t[i]);
            assert(rest.skip(1) =~= t@.skip(i + 1));
            assert(out@ + filled(t@.skip(i + 1), all) =~= before + (seq![t@[i as int]] + filled(
                t@.skip(i + 1),
                all,
            )));
            i = i + 1;
        }
    }
    assert(t@.skip(i as int).len() == 0);
    assert(out@ + Seq::<char>::empty() =~= out@);
    out
}

} // verus!
