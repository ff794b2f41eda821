//! The sets that addresses are written into.

use vstd::prelude::*;

use crate::error::{DnsError, DnsErrorView};
use crate::text::{
    between, chars_of, pieces, push_text, same_text, split_on, split_words, trim, trimmed, views,
    words,
};

verus! {

/// The mask for IPv4 addresses where none is configured.
pub const DEFAULT_MASK4: u8 = 24;

/// The mask for IPv6 addresses where none is configured.
pub const DEFAULT_MASK6: u8 = 48;

/// A target set.
#[derive(Debug, PartialEq, Eq)]
pub struct NftSetArgs {
    /// The family of the table, such as `ip` or `ip6`.
    pub table_family: String,
    pub table_name: String,
    pub set_name: String,
    /// The prefix length under which addresses are written.
    pub mask: Option<u8>,
}

/// The configuration: a target set for each family of addresses, in one of two forms.
#[derive(Debug, PartialEq, Eq)]
pub struct NftSetConfig {
    pub table_family4: Option<String>,
    pub table_family6: Option<String>,
    pub table_name4: Option<String>,
    pub table_name6: Option<String>,
    pub set_name4: Option<String>,
    pub set_name6: Option<String>,
    pub mask4: Option<u8>,
    pub mask6: Option<u8>,
    pub ipv4: Option<NftSetArgs>,
    pub ipv6: Option<NftSetArgs>,
}

pub open spec fn is_empty_config(c: NftSetConfig) -> bool {
    c == (NftSetConfig {
        table_family4: None,
        table_family6: None,
        table_name4: None,
        table_name6: None,
        set_name4: None,
        set_name6: None,
        mask4: None,
        mask6: None,
        ipv4: None,
        ipv6: None,
    })
}

impl Default for NftSetConfig {
    fn default() -> (r: NftSetConfig)
        ensures
            is_empty_config(r),
    {
        NftSetConfig {
            table_family4: None,
            table_family6: None,
            table_name4: None,
            table_name6: None,
            set_name4: None,
            set_name6: None,
            mask4: None,
            mask6: None,
            ipv4: None,
            ipv6: None,
        }
    }
}

/// A target set with its mask.
#[derive(Debug, PartialEq, Eq)]
pub struct ResolvedSet {
    pub table_family: String,
    pub table_name: String,
    pub set_name: String,
    pub mask: u8,
}

/// The mathematical content of a [`ResolvedSet`].
pub struct SetView {
    pub table_family: Seq<char>,
    pub table_name: Seq<char>,
    pub set_name: Seq<char>,
    pub mask: u8,
}

impl View for ResolvedSet {
    type V = SetView;

    open spec fn view(&self) -> SetView {
        SetView {
            table_family: self.table_family@,
            table_name: self.table_name@,
            set_name: self.set_name@,
            mask: self.mask,
        }
    }
}

pub open spec fn set_view(s: Option<ResolvedSet>) -> Option<SetView> {
    match s {
        Some(s) => Some(s@),
        None => None,
    }
}

/// What is wrong with a target set for addresses of a type, if anything.
pub open spec fn set_problem(s: SetView, ip_type: Seq<char>) -> Option<Seq<char>> {
    if s.table_family != "ip"@ && s.table_family != "ip6"@ && s.table_family != "inet"@ {
        Some("unsupported nft table family '"@ + s.table_family + "', expected ip/ip6/inet"@)
    } else if trim(s.table_name).len() == 0 || trim(s.set_name).len() == 0 {
        Some("nft table_name/set_name cannot be empty"@)
    } else if ip_type == "ipv4_addr"@ && s.mask > 32 {
        Some("nftset ipv4 mask must be in range 0..=32"@)
    } else if ip_type == "ipv6_addr"@ && s.mask > 128 {
        Some("nftset ipv6 mask must be in range 0..=128"@)
    } else {
        None
    }
}

/// Checks a target set for addresses of a type.
pub fn validate_set(set: &ResolvedSet, ip_type: &str) -> (r: Result<(), DnsError>)
    ensures
        match r {
            Ok(_) => set_problem(set@, ip_type@) is None,
            Err(e) => set_problem(set@, ip_type@) is Some && e@ == DnsErrorView::Plugin(
                set_problem(set@, ip_type@)->0,
            ),
        },
{
    let family = set.table_family.as_str();
    if !same_text(family, "ip") && !same_text(family, "ip6") && !same_text(family, "inet") {
        return Err(
            DnsError::Plugin(
                between("unsupported nft table family '", family, "', expected ip/ip6/inet"),
            ),
        );
    }
    if trimmed(set.table_name.as_str()).len() == 0 || trimmed(set.set_name.as_str()).len() == 0 {
        return Err(DnsError::plugin("nft table_name/set_name cannot be empty"));
    }
    if same_text(ip_type, "ipv4_addr") && set.mask > 32 {
        return Err(DnsError::plugin("nftset ipv4 mask must be in range 0..=32"));
    }
    if same_text(ip_type, "ipv6_addr") && set.mask > 128 {
        return Err(DnsError::plugin("nftset ipv6 mask must be in range 0..=128"));
    }
    Ok(())
}

/// The target set that arguments give: those of the first form, or those of the second
/// where all three names are there.
pub open spec fn resolved(
    args: Option<NftSetArgs>,
    family: Option<String>,
    table: Option<String>,
    set: Option<String>,
    mask: Option<u8>,
    default_mask: u8,
) -> Option<SetView> {
    match args {
        Some(a) => Some(
            SetView {
                table_family: a.table_family@,
                table_name: a.table_name@,
                set_name: a.set_name@,
                mask: match a.mask {
                    Some(m) => m,
                    None => default_mask,
                },
            },
        ),
        None => match (family, table, set) {
            (Some(f), Some(t), Some(s)) => Some(
                SetView {
                    table_family: f@,
                    table_name: t@,
                    set_name: s@,
                    mask: match mask {
                        Some(m) => m,
                        None => default_mask,
                    },
                },
            ),
            _ => None,
        },
    }
}

fn resolve(
    args: &Option<NftSetArgs>,
    family: &Option<String>,
    table: &Option<String>,
    set: &Option<String>,
    mask: Option<u8>,
    default_mask: u8,
) -> (r: Option<ResolvedSet>)
    ensures
        set_view(r) == resolved(*args, *family, *table, *set, mask, default_mask),
{
    match args {
        Some(a) => Some(
            ResolvedSet {
                table_family: a.table_family.clone(),
                table_name: a.table_name.clone(),
                set_name: a.set_name.clone(),
                mask: match a.mask {
                    Some(m) => m,
                    None => default_mask,
                },
            },
        ),
        None => match (family, table, set) {
            (Some(f), Some(t), Some(s)) => Some(
                ResolvedSet {
                    table_family: f.clone(),
                    table_name: t.clone(),
                    set_name: s.clone(),
                    mask: match mask {
                        Some(m) => m,
                        None => default_mask,
                    },
                },
            ),
            _ => None,
        },
    }
}

/// The target sets of a configuration, or what is wrong with them.
pub open spec fn sets_of(c: NftSetConfig) -> Result<(Option<SetView>, Option<SetView>), Seq<char>> {
    let v4 = resolved(
        c.ipv4,
        c.table_family4,
        c.table_name4,
        c.set_name4,
        c.mask4,
        DEFAULT_MASK4,
    );
    let v6 = resolved(
        c.ipv6,
        c.table_family6,
        c.table_name6,
        c.set_name6,
        c.mask6,
        DEFAULT_MASK6,
    );
    if v4 is Some && set_problem(v4->0, "ipv4_addr"@) is Some {
        Err(set_problem(v4->0, "ipv4_addr"@)->0)
    } else if v6 is Some && set_problem(v6->0, "ipv6_addr"@) is Some {
        Err(set_problem(v6->0, "ipv6_addr"@)->0)
    } else {
        Ok((v4, v6))
    }
}

/// The target sets of a configuration.
pub fn resolve_sets(cfg: &NftSetConfig) -> (r: Result<
    (Option<ResolvedSet>, Option<ResolvedSet>),
    DnsError,
>)
    ensures
        match r {
            Ok((v4, v6)) => sets_of(*cfg) == Ok::<(Option<SetView>, Option<SetView>), Seq<char>>(
                (set_view(v4), set_view(v6)),
            ),
            Err(e) => sets_of(*cfg) is Err && e@ == DnsErrorView::Plugin(sets_of(*cfg)->Err_0),
        },
{
    let ipv4 = resolve(
        &cfg.ipv4,
        &cfg.table_family4,
        &cfg.table_name4,
        &cfg.set_name4,
        cfg.mask4,
        DEFAULT_MASK4,
    );
    let ipv6 = resolve(
        &cfg.ipv6,
        &cfg.table_family6,
        &cfg.table_name6,
        &cfg.set_name6,
        cfg.mask6,
        DEFAULT_MASK6,
    );
    if let Some(set) = &ipv4 {
        if let Err(e) = validate_set(set, "ipv4_addr") {
            return Err(e);
        }
    }
    if let Some(set) = &ipv6 {
        if let Err(e) = validate_set(set, "ipv6_addr") {
            return Err(e);
        }
    }
    Ok((ipv4, ipv6))
}

/// What keeps a text from being a number.
#[derive(Debug, Clone, Copy, PartialEq, Eq, Structural)]
pub enum NumberProblem {
    Empty,
    InvalidDigit,
    TooLarge,
}

pub open spec fn problem_text(p: NumberProblem) -> Seq<char> {
    match p {
        NumberProblem::Empty => "cannot parse integer from empty string"@,
        NumberProblem::InvalidDigit => "invalid digit found in string"@,
        NumberProblem::TooLarge => "number too large to fit in target type"@,
    }
}

fn problem_message(p: NumberProblem) -> (r: &'static str)
    ensures
        r@ == problem_text(p),
{
    match p {
        NumberProblem::Empty => "cannot parse integer from empty string",
        NumberProblem::InvalidDigit => "invalid digit found in string",
        NumberProblem::TooLarge => "number too large to fit in target type",
    }
}

/// The octet that digits stand for, from the left, after `value`.
pub open spec fn octet_from(s: Seq<char>, value: u8) -> Result<u8, NumberProblem>
    decreases s.len(),
{
    if s.len() == 0 {
        Ok(value)
    } else if !('0' <= s[0] <= '9') {
        Err(NumberProblem::InvalidDigit)
    } else {
        let next = value * 10 + (s[0] as int - 48);
        if next > 255 {
            Err(NumberProblem::TooLarge)
        } else {
            octet_from(s.skip(1), next as u8)
        }
    }
}

/// The octet that a text stands for: digits, with or without a `+` before them.
pub open spec fn octet_of(s: Seq<char>) -> Result<u8, NumberProblem> {
    if s.len() == 0 {
        Err(NumberProblem::Empty)
    } else if s.len() > 1 && s[0] == '+' {
        octet_from(s.skip(1), 0)
    } else {
        octet_from(s, 0)
    }
}

/// The octet that a text stands for.
pub fn parse_octet(text: &str) -> (r: Result<u8, NumberProblem>)
    ensures
        r == octet_of(text@),
{
    let s = chars_of(text);
    if s.len() == 0 {
        return Err(NumberProblem::Empty);
    }
    let mut i: usize = if s.len() > 1 && s[0] == '+' {
        1
    } else {
        0
    };
    let mut value: u8 = 0;
    assert(s@.skip(0) =~= s@);
    while i < s.len()
        invariant
            i <= s@.len(),
            s@ == text@,
            octet_of(text@) == octet_from(s@.skip(i as int), value),
        decreases s@.len() - i,
    {
        let c: char = s[i];
        assert(s@.skip(i as int).skip(1) =~= s@.skip(i + 1));
        if !(c >= '0' && c <= '9') {
            return Err(NumberProblem::InvalidDigit);
        }
        let next: u16 = (value as u16) * 10 + ((c as u32 - 48) as u16);
        if next > 255 {
            return Err(NumberProblem::TooLarge);
        }
        value = next as u8;
        i = i + 1;
    }
    Ok(value)
}

/// The target sets after one word of a quick setup.
pub open spec fn with_token(
    sets: (Option<SetView>, Option<SetView>),
    token: Seq<char>,
) -> Result<(Option<SetView>, Option<SetView>), Seq<char>> {
    let parts = pieces(token, ',');
    if parts.len() != 5 {
        Err(
            "invalid nftset quick setup token '"@ + token
                + "', expected family,table,set,type,mask"@,
        )
    } else {
        match octet_of(parts[4]) {
            Err(p) => Err("invalid nftset mask '"@ + parts[4] + "': "@ + problem_text(p)),
            Ok(mask) => {
                let set = SetView {
                    table_family: parts[0],
                    table_name: parts[1],
                    set_name: parts[2],
                    mask,
                };
                match set_problem(set, parts[3]) {
                    Some(e) => Err(e),
                    None => if parts[3] == "ipv4_addr"@ {
                        Ok((Some(set), sets.1))
                    } else if parts[3] == "ipv6_addr"@ {
                        Ok((sets.0, Some(set)))
                    } else {
                        Ok(sets)
                    },
                }
            },
        }
    }
}

/// The target sets of a quick setup, word by word.
pub open spec fn quick_sets(tokens: Seq<Seq<char>>) -> Result<
    (Option<SetView>, Option<SetView>),
    Seq<char>,
>
    decreases tokens.len(),
{
    if tokens.len() == 0 {
        Ok((None, None))
    } else {
        match quick_sets(tokens.drop_last()) {
            Ok(sets) => with_token(sets, tokens.last()),
            Err(e) => Err(e),
        }
    }
}

fn apply_token(
    sets: (Option<ResolvedSet>, Option<ResolvedSet>),
    token: &str,
) -> (r: Result<(Option<ResolvedSet>, Option<ResolvedSet>), DnsError>)
    ensures
        ({
            let w = with_token((set_view(sets.0), set_view(sets.1)), token@);
            match r {
                Ok((v4, v6)) => w == Ok::<(Option<SetView>, Option<SetView>), Seq<char>>(
                    (set_view(v4), set_view(v6)),
                ),
                Err(e) => w is Err && e@ == DnsErrorView::Plugin(w->Err_0),
            }
        }),
{
    let parts = split_on(token, ',');
    let ghost all = pieces(token@, ',');
    assert(all.len() == parts@.len());
    if parts.len() != 5 {
        return Err(
            DnsError::Plugin(
                between(
                    "invalid nftset quick setup token '",
                    token,
                    "', expected family,table,set,type,mask",
                ),
            ),
        );
    }
    assert(all[0] == parts@[0]@ && all[1] == parts@[1]@ && all[2] == parts@[2]@ && all[3]
        == parts@[3]@ && all[4] == parts@[4]@);
    let mask: u8 = match parse_octet(parts[4].as_str()) {
        Ok(m) => m,
        Err(p) => {
            let mut text = between("invalid nftset mask '", parts[4].as_str(), "': ");
            push_text(&mut text, problem_message(p));
            return Err(DnsError::Plugin(text));
        },
    };
    let set = ResolvedSet {
        table_family: parts[0].clone(),
        table_name: parts[1].clone(),
        set_name: parts[2].clone(),
        mask,
    };
    if let Err(e) = validate_set(&set, parts[3].as_str()) {
        return Err(e);
    }
    let (ipv4, ipv6) = sets;
    if same_text(parts[3].as_str(), "ipv4_addr") {
        Ok((Some(set), ipv6))
    } else if same_text(parts[3].as_str(), "ipv6_addr") {
        Ok((ipv4, Some(set)))
    } else {
        Ok((ipv4, ipv6))
    }
}

proof fn lemma_first_failure(tokens: Seq<Seq<char>>, n: int)
    requires
        0 <= n <= tokens.len(),
        quick_sets(tokens.take(n)) is Err,
    ensures
        quick_sets(tokens) == quick_sets(tokens.take(n)),
    decreases tokens.len() - n,
{
    if n < tokens.len() {
        assert(tokens.take(n + 1).drop_last() =~= tokens.take(n));
        lemma_first_failure(tokens, n + 1);
    } else {
        assert(tokens.take(n) =~= tokens);
    }
}

/// The target sets of a quick setup.
pub fn parse_quick_sets(raw: &str) -> (r: Result<
    (Option<ResolvedSet>, Option<ResolvedSet>),
    DnsError,
>)
    ensures
        ({
            let q = quick_sets(words(raw@));
            match r {
                Ok((v4, v6)) => q == Ok::<(Option<SetView>, Option<SetView>), Seq<char>>(
                    (set_view(v4), set_view(v6)),
                ),
                Err(e) => q is Err && e@ == DnsErrorView::Plugin(q->Err_0),
            }
        }),
{
    let tokens = split_words(raw);
    let ghost all = words(raw@);
    let mut sets: (Option<ResolvedSet>, Option<ResolvedSet>) = (None, None);
    let mut i: usize = 0;
    assert(quick_sets(all.take(0)) == Ok::<(Option<SetView>, Option<SetView>), Seq<char>>(
        (None, None),
    ));
    while i < tokens.len()
        invariant
            i <= tokens@.len(),
            all == views(tokens@),
            all == words(raw@),
            quick_sets(all.take(i as int)) == Ok::<(Option<SetView>, Option<SetView>), Seq<char>>(
                (set_view(sets.0), set_view(sets.1)),
            ),
        decreases tokens@.len() - i,
    {
        assert(all.take(i + 1).drop_last() =~= all.take(i as int));
        assert(all.take(i + 1).last() == tokens@[i as int]@);
        match apply_token(sets, tokens[i].as_str()) {
            Ok(s) => {
                sets = s;
            },
            Err(e) => {
                proof {
                    lemma_first_failure(all, i + 1);
                }
                return Err(e);
            },
        }
        i = i + 1;
    }
    assert(all.take(i as int) =~= all);
    Ok(sets)
}

/// A target set that is taken has a mask that fits its addresses.
pub proof fn law_masks_fit(c: NftSetConfig)
    ensures
        sets_of(c) matches Ok(sets) ==> {
            &&& sets.0 matches Some(s) ==> s.mask <= 32
            &&& sets.1 matches Some(s) ==> s.mask <= 128
        },
{
}

} // verus!
