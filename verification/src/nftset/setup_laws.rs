//! What holds of the sets that are configured.

use vstd::prelude::*;

use crate::nftset::config::{
    is_empty_config, octet_from, octet_of, quick_sets, resolved, set_problem, set_view, sets_of,
    with_token, NftSetArgs, NftSetConfig, NumberProblem, SetView,
};
use crate::nftset::executor::{
    has_prefix, holds_prefixes, is_new, prefix_of, samples, NftSetExecutor, NftSetMetrics,
};
use crate::nftset::writer::NftSetBatch;
use crate::proto::message::{IpAddr, RecordView};
use crate::text::{all_decimal, digits_value, is_decimal, pieces, trim};

verus! {

proof fn lemma_one_more_digit(s: Seq<char>, c: char, v: u8)
    ensures
        octet_from(s.push(c), v) == (match octet_from(s, v) {
            Ok(w) => if !('0' <= c <= '9') {
                Err(NumberProblem::InvalidDigit)
            } else if w * 10 + (c as int - 48) > 255 {
                Err(NumberProblem::TooLarge)
            } else {
                Ok((w * 10 + (c as int - 48)) as u8)
            },
            Err(e) => Err(e),
        }),
    decreases s.len(),
{
    let all = s.push(c);
    reveal_with_fuel(octet_from, 2);
    if s.len() == 0 {
        assert(all[0] == c);
        assert(all.skip(1) =~= Seq::empty());
    } else {
        assert(all[0] == s[0]);
        assert(all.skip(1) =~= s.skip(1).push(c));
        if '0' <= s[0] <= '9' && v * 10 + (s[0] as int - 48) <= 255 {
            lemma_one_more_digit(s.skip(1), c, (v * 10 + (s[0] as int - 48)) as u8);
        }
    }
}

proof fn lemma_octet(s: Seq<char>)
    ensures
        match octet_from(s, 0) {
            Ok(v) => all_decimal(s) && digits_value(s) == v,
            Err(NumberProblem::InvalidDigit) => !all_decimal(s),
            Err(NumberProblem::TooLarge) => all_decimal(s) ==> digits_value(s) > 255,
            Err(NumberProblem::Empty) => false,
        },
    decreases s.len(),
{
    if s.len() > 0 {
        let init = s.drop_last();
        let c = s.last();
        assert(s =~= init.push(c));
        lemma_octet(init);
        lemma_one_more_digit(init, c, 0);
        assert(all_decimal(s) <==> all_decimal(init) && is_decimal(c)) by {
            if all_decimal(s) {
                assert forall|i: int| 0 <= i < init.len() implies is_decimal(#[trigger] init[i]) by {
                    assert(init[i] == s[i]);
                }
                assert(is_decimal(s[s.len() - 1]));
            }
            if all_decimal(init) && is_decimal(c) {
                assert forall|i: int| 0 <= i < s.len() implies is_decimal(#[trigger] s[i]) by {
                    if i < init.len() {
                        assert(s[i] == init[i]);
                    }
                }
            }
        }
        if is_decimal(c) {
            lemma_digit_value(c);
        }
    }
}

proof fn lemma_digit_value(c: char)
    requires
        is_decimal(c),
    ensures
        0 <= c as int - 48 <= 9,
{
}

/// A mask is read from decimal digits, with or without a plus sign before them, as long as
/// their number is below two hundred and fifty-six; a larger number is too large, and an
/// empty text or another character is no number.
pub proof fn law_mask_is_read(s: Seq<char>)
    requires
        s.len() > 0,
        s[0] != '+',
    ensures
        match octet_of(s) {
            Ok(v) => all_decimal(s) && digits_value(s) == v,
            Err(NumberProblem::InvalidDigit) => !all_decimal(s),
            Err(NumberProblem::TooLarge) => all_decimal(s) ==> digits_value(s) > 255,
            Err(NumberProblem::Empty) => false,
        },
        octet_of(seq!['+'] + s) == octet_of(s),
        octet_of(Seq::empty()) == Err::<u8, NumberProblem>(NumberProblem::Empty),
{
    lemma_octet(s);
    assert((seq!['+'] + s).skip(1) =~= s);
}

/// A set is accepted exactly where its table is of a family that there is, where both names
/// have more than blanks, and where its mask fits the addresses.
pub proof fn law_accepted_sets(s: SetView)
    ensures
        set_problem(s, "ipv4_addr"@) is None <==> (s.table_family == "ip"@ || s.table_family
            == "ip6"@ || s.table_family == "inet"@) && trim(s.table_name).len() > 0 && trim(
            s.set_name,
        ).len() > 0 && s.mask <= 32,
        set_problem(s, "ipv6_addr"@) is None <==> (s.table_family == "ip"@ || s.table_family
            == "ip6"@ || s.table_family == "inet"@) && trim(s.table_name).len() > 0 && trim(
            s.set_name,
        ).len() > 0 && s.mask <= 128,
{
    reveal_strlit("ipv4_addr");
    reveal_strlit("ipv6_addr");
    assert("ipv4_addr"@[3] != "ipv6_addr"@[3]);
}

/// A set comes from the arguments in one piece where they are there, and else from the three
/// names where all are; without a mask it has the default.
pub proof fn law_set_of_arguments(
    args: Option<NftSetArgs>,
    family: Option<String>,
    table: Option<String>,
    set: Option<String>,
    mask: Option<u8>,
    default_mask: u8,
)
    ensures
        match resolved(args, family, table, set, mask, default_mask) {
            Some(v) => match args {
                Some(a) => v.table_family == a.table_family@ && v.table_name == a.table_name@
                    && v.set_name == a.set_name@ && (a.mask is Some ==> v.mask == a.mask->0) && (
                a.mask is None ==> v.mask == default_mask),
                None => family is Some && table is Some && set is Some && v.table_family
                    == family->0@ && v.table_name == table->0@ && v.set_name == set->0@ && (mask
                    is Some ==> v.mask == mask->0) && (mask is None ==> v.mask == default_mask),
            },
            None => args is None && (family is None || table is None || set is None),
        },
{
}

/// The addresses of each family go to the set of their own arguments, with a mask of
/// twenty-four or of forty-eight bits where none is given.
pub proof fn law_sets_of_families(c: NftSetConfig)
    ensures
        sets_of(c) matches Ok((v4, v6)) ==> {
            &&& v4 == resolved(
                c.ipv4,
                c.table_family4,
                c.table_name4,
                c.set_name4,
                c.mask4,
                24,
            )
            &&& v6 == resolved(
                c.ipv6,
                c.table_family6,
                c.table_name6,
                c.set_name6,
                c.mask6,
                48,
            )
            &&& v4 is Some ==> set_problem(v4->0, "ipv4_addr"@) is None
            &&& v6 is Some ==> set_problem(v6->0, "ipv6_addr"@) is None
        },
{
}

/// A word of a quick setup has five parts: the family of the table, its name, the name of the
/// set, the type of the addresses and the mask. It sets the set of its type and leaves the
/// other.
pub proof fn law_word_of_setup(sets: (Option<SetView>, Option<SetView>), token: Seq<char>)
    ensures
        pieces(token, ',').len() != 5 ==> with_token(sets, token) is Err,
        with_token(sets, token) matches Ok((v4, v6)) ==> {
            let p = pieces(token, ',');
            &&& p.len() == 5
            &&& octet_of(p[4]) is Ok
            &&& p[3] == "ipv4_addr"@ ==> v6 == sets.1 && v4 is Some && v4->0.table_family == p[0]
                && v4->0.table_name == p[1] && v4->0.set_name == p[2] && octet_of(p[4]) == Ok::<
                u8,
                NumberProblem,
            >(v4->0.mask)
            &&& p[3] == "ipv6_addr"@ ==> v4 == sets.0 && v6 is Some && v6->0.table_family == p[0]
                && v6->0.table_name == p[1] && v6->0.set_name == p[2] && octet_of(p[4]) == Ok::<
                u8,
                NumberProblem,
            >(v6->0.mask)
            &&& p[3] != "ipv4_addr"@ && p[3] != "ipv6_addr"@ ==> v4 == sets.0 && v6 == sets.1
        },
{
    reveal_strlit("ipv4_addr");
    reveal_strlit("ipv6_addr");
    assert("ipv4_addr"@[3] != "ipv6_addr"@[3]);
}

/// Each counter is shown under its name.
pub proof fn law_counters_are_shown(m: NftSetMetrics)
    ensures
        ({
            let s = samples(m);
            &&& s.len() == 4
            &&& s[0].name == "nftset_entries_total"@ && s[0].value == m.entries_total
            &&& s[1].name == "nftset_dropped_total"@ && s[1].value == m.dropped_total
            &&& s[2].name == "nftset_write_total"@ && s[2].value == m.write_total
            &&& s[3].name == "nftset_write_error_total"@ && s[3].value == m.write_error_total
            &&& forall|i: int|
                0 <= i < 4 ==> (#[trigger] s[i]).labels.len() == 1 && s[i].labels[0] == (
                    "plugin_tag"@,
                    m.tag@,
                )
        }),
{
}

/// The words of a quick setup are taken one after the other, and none behind one that is
/// refused.
pub proof fn law_words_in_order(tokens: Seq<Seq<char>>, token: Seq<char>)
    ensures
        quick_sets(Seq::empty()) == Ok::<(Option<SetView>, Option<SetView>), Seq<char>>(
            (None, None),
        ),
        quick_sets(tokens) is Ok ==> quick_sets(tokens.push(token)) == with_token(
            quick_sets(tokens)->Ok_0,
            token,
        ),
        quick_sets(tokens) is Err ==> quick_sets(tokens.push(token)) == quick_sets(tokens),
{
    assert(tokens.push(token).drop_last() =~= tokens);
}

/// A new executor has the sets that it was given, takes addresses, and has counted nothing.
pub proof fn law_new_executor(
    e: NftSetExecutor,
    tag: Seq<char>,
    sets: (Option<SetView>, Option<SetView>),
)
    requires
        is_new(e, tag, sets),
    ensures
        e.enabled,
        e.tag@ == tag && e.metrics.tag@ == tag,
        set_view(e.ipv4) == sets.0 && set_view(e.ipv6) == sets.1,
        e.metrics.entries_total == 0 && e.metrics.dropped_total == 0,
        e.metrics.write_total == 0 && e.metrics.write_error_total == 0,
{
}

/// A batch keeps the families apart, and has each prefix of the answers once.
pub proof fn law_families_are_kept_apart(
    b: NftSetBatch,
    answers: Seq<RecordView>,
    ipv4: Option<SetView>,
    ipv6: Option<SetView>,
    i: int,
    j: int,
)
    requires
        holds_prefixes(b, answers, ipv4, ipv6),
    ensures
        0 <= i < b.ipv4_prefixes@.len() ==> b.ipv4_prefixes@[i].addr is V4,
        0 <= i < b.ipv6_prefixes@.len() ==> b.ipv6_prefixes@[i].addr is V6,
        0 <= i < j < b.ipv4_prefixes@.len() ==> b.ipv4_prefixes@[i] != b.ipv4_prefixes@[j],
        0 <= i < j < b.ipv6_prefixes@.len() ==> b.ipv6_prefixes@[i] != b.ipv6_prefixes@[j],
        0 <= i < answers.len() ==> (prefix_of(answers[i], ipv4, ipv6) matches Some(
            p,
        ) ==> match p.addr {
            IpAddr::V4(_) => b.ipv4_prefixes@.contains(p),
            IpAddr::V6(_) => b.ipv6_prefixes@.contains(p),
        }),
{
    if 0 <= i < b.ipv4_prefixes@.len() {
        assert(b.ipv4_prefixes@.contains(b.ipv4_prefixes@[i]));
    }
    if 0 <= i < b.ipv6_prefixes@.len() {
        assert(b.ipv6_prefixes@.contains(b.ipv6_prefixes@[i]));
    }
    if 0 <= i < answers.len() {
        if let Some(p) = prefix_of(answers[i], ipv4, ipv6) {
            assert(has_prefix(answers, ipv4, ipv6, p));
            assert(b.ipv4_prefixes@.contains(p) <==> p.addr is V4);
            assert(b.ipv6_prefixes@.contains(p) <==> p.addr is V6);
        }
    }
}

/// A configuration is empty where it names nothing at all, and only there.
pub proof fn law_empty_configuration(c: NftSetConfig)
    ensures
        is_empty_config(c) <==> c.table_family4 is None && c.table_family6 is None
            && c.table_name4 is None && c.table_name6 is None && c.set_name4 is None && c.set_name6
            is None && c.mask4 is None && c.mask6 is None && c.ipv4 is None && c.ipv6 is None,
        is_empty_config(c) ==> sets_of(c) is Ok && sets_of(c)->Ok_0.0 is None && sets_of(c)->Ok_0.1
            is None,
{
}

} // verus!
