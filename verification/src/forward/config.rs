//! The configuration of a forwarder.

use vstd::prelude::*;

use crate::error::{DnsError, DnsErrorView};
use crate::forward::selection::ResponseSelectionMode;
use crate::forward::upstream::message_of;
use crate::text::{
    between, chars_of, decimal, decimal_of, is_white, join, join_strings, push_text, same_text,
    split_words, starts_with, string_from, views, words, words_from,
};

verus! {

/// The largest number of upstreams that are asked at the same time.
pub const MAX_CONCURRENT_QUERIES: usize = 32;

/// An upstream resolver.
#[derive(Debug, PartialEq, Eq)]
pub struct UpstreamConfig {
    pub tag: Option<String>,
    pub addr: String,
    pub outbound: Option<String>,
    pub dial_addr: Option<String>,
    pub port: Option<u16>,
    pub bootstrap: Option<String>,
    pub bootstrap_version: Option<u8>,
    pub socks5: Option<String>,
    pub idle_timeout: Option<u64>,
    pub keepalive_interval: Option<u64>,
    pub max_conns: Option<usize>,
    pub min_conns: Option<usize>,
    pub insecure_skip_verify: Option<bool>,
    pub timeout: Option<u64>,
    pub enable_pipeline: Option<bool>,
    pub enable_http3: Option<bool>,
    pub use_post: bool,
    pub so_mark: Option<u32>,
    pub bind_to_device: Option<String>,
}

/// The configuration of a forwarder.
#[derive(Debug, PartialEq, Eq)]
pub struct ForwardConfig {
    /// The number of upstreams to ask at the same time.
    pub concurrent: Option<usize>,
    /// Which of several responses is taken.
    pub response_selection: ResponseSelectionMode,
    /// The upstream resolvers.
    pub upstreams: Vec<UpstreamConfig>,
    /// Whether a response ends the chain.
    pub short_circuit: bool,
}

/// An upstream of which nothing but the address is configured.
pub open spec fn is_plain(u: UpstreamConfig) -> bool {
    u == (UpstreamConfig {
        tag: None,
        addr: u.addr,
        outbound: None,
        dial_addr: None,
        port: None,
        bootstrap: None,
        bootstrap_version: None,
        socks5: None,
        idle_timeout: None,
        keepalive_interval: None,
        max_conns: None,
        min_conns: None,
        insecure_skip_verify: None,
        timeout: None,
        enable_pipeline: None,
        enable_http3: None,
        use_post: false,
        so_mark: None,
        bind_to_device: None,
    })
}

/// An upstream of which only the address is given.
pub fn make_default_upstream_config(addr: String) -> (r: UpstreamConfig)
    ensures
        is_plain(r),
        r.addr == addr,
{
    UpstreamConfig {
        tag: None,
        addr,
        outbound: None,
        dial_addr: None,
        port: None,
        bootstrap: None,
        bootstrap_version: None,
        socks5: None,
        idle_timeout: None,
        keepalive_interval: None,
        max_conns: None,
        min_conns: None,
        insecure_skip_verify: None,
        timeout: None,
        enable_pipeline: None,
        enable_http3: None,
        use_post: false,
        so_mark: None,
        bind_to_device: None,
    }
}

/// The problem that a check of an address has found, as text.
pub open spec fn addr_problem(checked: Result<(), DnsError>) -> Option<Seq<char>> {
    match checked {
        Ok(_) => None,
        Err(e) => Some(message_of(e@)),
    }
}

/// The outcome of a check of an address, with its problem as text.
pub fn validate_upstream_addr(checked: &Result<(), DnsError>) -> (r: Result<(), String>)
    ensures
        match r {
            Ok(_) => addr_problem(*checked) is None,
            Err(e) => addr_problem(*checked) == Some(e@),
        },
{
    match checked {
        Ok(_) => Ok(()),
        Err(e) => Err(e.message().to_owned()),
    }
}

/// What is wrong with the upstream at `i`.
pub open spec fn upstream_problem(i: int, addr: Seq<char>, problem: Seq<char>) -> Seq<char> {
    "forward plugin upstream["@ + decimal(i as nat) + "] addr '"@ + addr + "' is invalid: "@
        + problem
}

/// Whether the address at `i` is the first with a problem.
pub open spec fn first_problem(checked: Seq<Result<(), DnsError>>, i: int) -> bool {
    &&& 0 <= i < checked.len()
    &&& addr_problem(checked[i]) is Some
    &&& forall|j: int| 0 <= j < i ==> addr_problem(#[trigger] checked[j]) is None
}

/// Checks a configuration. `checked` tells for each upstream whether its address is
/// one that can be connected to.
pub fn validate_forward_config(cfg: &ForwardConfig, checked: &Vec<Result<(), DnsError>>) -> (r:
    Result<(), DnsError>)
    requires
        checked@.len() == cfg.upstreams@.len(),
    ensures
        match r {
            Ok(_) => cfg.upstreams@.len() > 0 && forall|i: int|
                0 <= i < checked@.len() ==> addr_problem(#[trigger] checked@[i]) is None,
            Err(e) => if cfg.upstreams@.len() == 0 {
                e@ == DnsErrorView::Plugin("forward plugin requires at least one upstream"@)
            } else {
                exists|i: int| #[trigger]
                    first_problem(checked@, i) && e@ == DnsErrorView::Plugin(
                        upstream_problem(
                            i,
                            cfg.upstreams@[i].addr@,
                            addr_problem(checked@[i])->0,
                        ),
                    )
            },
        },
{
    if cfg.upstreams.len() == 0 {
        return Err(DnsError::plugin("forward plugin requires at least one upstream"));
    }
    let mut i: usize = 0;
    while i < checked.len()
        invariant
            i <= checked@.len(),
            checked@.len() == cfg.upstreams@.len(),
            cfg.upstreams@.len() > 0,
            forall|j: int| 0 <= j < i ==> addr_problem(#[trigger] checked@[j]) is None,
        decreases checked@.len() - i,
    {
        if let Err(e) = validate_upstream_addr(&checked[i]) {
            let mut text = "forward plugin upstream[".to_owned();
            push_text(&mut text, decimal_of(i as u64).as_str());
            push_text(&mut text, "] addr '");
            push_text(&mut text, cfg.upstreams[i].addr.as_str());
            push_text(&mut text, "' is invalid: ");
            push_text(&mut text, e.as_str());
            assert(first_problem(checked@, i as int));
            return Err(DnsError::Plugin(text));
        }
        i = i + 1;
    }
    Ok(())
}

/// The number of upstreams to ask at the same time.
pub open spec fn active_concurrent(concurrent: Option<usize>, total_upstreams: usize) -> usize {
    let upper = if total_upstreams < 1 {
        1
    } else if total_upstreams > MAX_CONCURRENT_QUERIES {
        MAX_CONCURRENT_QUERIES
    } else {
        total_upstreams
    };
    let wanted = match concurrent {
        Some(n) => n,
        None => 1,
    };
    if wanted < 1 {
        1
    } else if wanted > upper {
        upper
    } else {
        wanted
    }
}

/// How many upstreams are asked at once.
pub fn resolve_active_concurrent(concurrent: Option<usize>, total_upstreams: usize) -> (r: usize)
    ensures
        r == active_concurrent(concurrent, total_upstreams),
        1 <= r <= MAX_CONCURRENT_QUERIES,
        total_upstreams > 0 ==> r <= total_upstreams,
{
    let upper: usize = if total_upstreams < 1 {
        1
    } else if total_upstreams > MAX_CONCURRENT_QUERIES {
        MAX_CONCURRENT_QUERIES
    } else {
        total_upstreams
    };
    let wanted: usize = match concurrent {
        Some(n) => n,
        None => 1,
    };
    if wanted < 1 {
        1
    } else if wanted > upper {
        upper
    } else {
        wanted
    }
}

/// What a word says about ending the chain, if anything.
pub open spec fn short_circuit_token(token: Seq<char>) -> Result<Option<bool>, Seq<char>> {
    let prefix = "short_circuit="@;
    if token == "short_circuit"@ {
        Ok(Some(true))
    } else if prefix.is_prefix_of(token) {
        let value = token.skip(prefix.len() as int);
        if value == "true"@ {
            Ok(Some(true))
        } else if value == "false"@ {
            Ok(Some(false))
        } else {
            Err("invalid short_circuit value '"@ + value + "', expected true or false"@)
        }
    } else {
        Ok(None)
    }
}

/// What a word says of ending the chain, if it does.
pub fn parse_short_circuit_token(token: &str) -> (r: Result<Option<bool>, DnsError>)
    ensures
        match r {
            Ok(v) => short_circuit_token(token@) == Ok::<Option<bool>, Seq<char>>(v),
            Err(e) => short_circuit_token(token@) is Err && e@ == DnsErrorView::Plugin(
                short_circuit_token(token@)->Err_0,
            ),
        },
{
    if same_text(token, "short_circuit") {
        return Ok(Some(true));
    }
    let v = chars_of(token);
    let prefix = chars_of("short_circuit=");
    if !starts_with(v.as_slice(), prefix.as_slice()) {
        return Ok(None);
    }
    let value = string_from(v.as_slice(), prefix.len(), v.len());
    assert(value@ =~= token@.skip(prefix@.len() as int));
    assert(prefix@.is_prefix_of(token@));
    if same_text(value.as_str(), "true") {
        Ok(Some(true))
    } else if same_text(value.as_str(), "false") {
        Ok(Some(false))
    } else {
        Err(
            DnsError::Plugin(
                between(
                    "invalid short_circuit value '",
                    value.as_str(),
                    "', expected true or false",
                ),
            ),
        )
    }
}

/// Words without those at the end that tell whether to end the chain, and what the
/// first of these says.
pub open spec fn stripped(tokens: Seq<Seq<char>>, found: bool) -> Result<
    (Seq<Seq<char>>, bool),
    Seq<char>,
>
    decreases tokens.len(),
{
    if tokens.len() == 0 {
        Ok((tokens, found))
    } else {
        match short_circuit_token(tokens.last()) {
            Err(e) => Err(e),
            Ok(None) => Ok((tokens, found)),
            Ok(Some(v)) => stripped(tokens.drop_last(), v),
        }
    }
}

/// Takes the words at the end away that tell whether to end the chain.
pub fn strip_short_circuit_suffix(raw: &str) -> (r: Result<(String, bool), DnsError>)
    ensures
        ({
            let s = stripped(words(raw@), false);
            match r {
                Ok((text, v)) => s is Ok && text@ == join((s->Ok_0).0, " "@) && v == (s->Ok_0).1,
                Err(e) => s is Err && e@ == DnsErrorView::Plugin(s->Err_0),
            }
        }),
{
    let mut tokens = split_words(raw);
    let ghost all = words(raw@);
    let mut short_circuit = false;
    while tokens.len() > 0
        invariant
            stripped(views(tokens@), short_circuit) == stripped(all, false),
            all == words(raw@),
        ensures
            stripped(all, false) == Ok::<(Seq<Seq<char>>, bool), Seq<char>>(
                (views(tokens@), short_circuit),
            ),
        decreases tokens@.len(),
    {
        let last: usize = tokens.len() - 1;
        assert(views(tokens@).last() == tokens@[last as int]@);
        match parse_short_circuit_token(tokens[last].as_str()) {
            Err(e) => {
                return Err(e);
            },
            Ok(None) => {
                break;
            },
            Ok(Some(v)) => {
                let ghost before = tokens@;
                short_circuit = v;
                let _ = tokens.pop();
                assert(views(tokens@) =~= views(before).drop_last());
            },
        }
    }
    Ok((join_strings(&tokens, " "), short_circuit))
}

/// Whether some texts are words: none is empty and none holds white space.
pub open spec fn are_words(v: Seq<Seq<char>>) -> bool {
    forall|i: int| 0 <= i < v.len() ==> is_word(#[trigger] v[i])
}

pub open spec fn is_word(s: Seq<char>) -> bool {
    s.len() > 0 && forall|j: int| 0 <= j < s.len() ==> !is_white(#[trigger] s[j])
}

proof fn lemma_words_are_words(s: Seq<char>, word: Seq<char>)
    requires
        forall|j: int| 0 <= j < word.len() ==> !is_white(#[trigger] word[j]),
    ensures
        are_words(words_from(s, word)),
    decreases s.len(),
{
    if s.len() > 0 {
        if is_white(s[0]) {
            lemma_words_are_words(s.skip(1), Seq::empty());
            if word.len() > 0 {
                let rest = words_from(s.skip(1), Seq::empty());
                assert forall|i: int| 0 <= i < (seq![word] + rest).len() implies is_word(
                    #[trigger] (seq![word] + rest)[i],
                ) by {
                    if i > 0 {
                        assert((seq![word] + rest)[i] == rest[i - 1]);
                    }
                }
            }
        } else {
            lemma_words_are_words(s.skip(1), word.push(s[0]));
        }
    }
}

proof fn lemma_words_through(t: Seq<char>, rest: Seq<char>, word: Seq<char>)
    requires
        forall|j: int| 0 <= j < t.len() ==> !is_white(#[trigger] t[j]),
    ensures
        words_from(t + rest, word) == words_from(rest, word + t),
    decreases t.len(),
{
    if t.len() == 0 {
        assert(t + rest =~= rest);
        assert(word + t =~= word);
    } else {
        let s = t + rest;
        assert(s[0] == t[0]);
        assert(s.skip(1) =~= t.skip(1) + rest);
        lemma_words_through(t.skip(1), rest, word.push(t[0]));
        assert(word.push(t[0]) + t.skip(1) =~= word + t);
    }
}

proof fn lemma_words_then(s: Seq<char>, word: Seq<char>, t: Seq<char>)
    requires
        is_word(t),
    ensures
        words_from(s + " "@ + t, word) == words_from(s, word).push(t),
    decreases s.len(),
{
    reveal_strlit(" ");
    let whole = s + " "@ + t;
    if s.len() == 0 {
        assert(whole[0] == ' ');
        assert(is_white(' '));
        assert(whole.skip(1) =~= t + Seq::<char>::empty());
        lemma_words_through(t, Seq::empty(), Seq::empty());
        assert(Seq::<char>::empty() + t =~= t);
        assert(words_from(Seq::empty(), t) == seq![t]);
        if word.len() > 0 {
            assert(seq![word] + seq![t] =~= seq![word].push(t));
        } else {
            assert(seq![t] =~= Seq::<Seq<char>>::empty().push(t));
        }
    } else {
        assert(whole[0] == s[0]);
        assert(whole.skip(1) =~= s.skip(1) + " "@ + t);
        if is_white(s[0]) {
            lemma_words_then(s.skip(1), Seq::empty(), t);
            if word.len() > 0 {
                let rest = words_from(s.skip(1), Seq::empty());
                assert(seq![word] + rest.push(t) =~= (seq![word] + rest).push(t));
            }
        } else {
            lemma_words_then(s.skip(1), word.push(s[0]), t);
        }
    }
}

/// Words that are put together with spaces come apart again.
pub proof fn law_joined_words(v: Seq<Seq<char>>)
    requires
        are_words(v),
    ensures
        words(join(v, " "@)) == v,
    decreases v.len(),
{
    if v.len() == 0 {
        assert(words(join(v, " "@)) =~= v);
    } else if v.len() == 1 {
        assert(is_word(v[0]));
        assert(v[0] + Seq::<char>::empty() =~= v[0]);
        lemma_words_through(v[0], Seq::empty(), Seq::empty());
        assert(Seq::<char>::empty() + v[0] =~= v[0]);
        assert(words(v[0]) =~= seq![v[0]]);
        assert(v =~= seq![v[0]]);
    } else {
        assert(is_word(v.last()));
        law_joined_words(v.drop_last());
        lemma_words_then(join(v.drop_last(), " "@), Seq::empty(), v.last());
        assert(v.drop_last().push(v.last()) =~= v);
    }
}

proof fn lemma_stripped_are_words(tokens: Seq<Seq<char>>, found: bool)
    requires
        are_words(tokens),
    ensures
        stripped(tokens, found) is Ok ==> are_words((stripped(tokens, found)->Ok_0).0),
    decreases tokens.len(),
{
    if tokens.len() > 0 {
        assert(are_words(tokens.drop_last()));
        if let Ok(Some(v)) = short_circuit_token(tokens.last()) {
            lemma_stripped_are_words(tokens.drop_last(), v);
        }
    }
}

/// The addresses and the choice of a quick setup.
pub open spec fn quick_setup(param: Option<Seq<char>>) -> Result<(Seq<Seq<char>>, bool), Seq<char>> {
    let missing = "forward quick setup requires non-empty upstream address parameter"@;
    match param {
        None => Err(missing),
        Some(p) => match stripped(words(p), false) {
            Err(e) => Err(e),
            Ok((tokens, v)) => if tokens.len() == 0 {
                Err(missing)
            } else {
                Ok((tokens, v))
            },
        },
    }
}

/// The addresses of a quick setup, and whether a response ends the chain.
pub fn parse_quick_setup_param(param: Option<String>) -> (r: Result<(Vec<String>, bool), DnsError>)
    ensures
        ({
            let s = quick_setup(
                match param {
                    Some(p) => Some(p@),
                    None => None,
                },
            );
            match r {
                Ok((addrs, v)) => s == Ok::<(Seq<Seq<char>>, bool), Seq<char>>((views(addrs@), v)),
                Err(e) => s is Err && e@ == DnsErrorView::Plugin(s->Err_0),
            }
        }),
{
    let param = match param {
        Some(p) => p,
        None => return Err(
            DnsError::plugin("forward quick setup requires non-empty upstream address parameter"),
        ),
    };
    let (rest, short_circuit) = match strip_short_circuit_suffix(param.as_str()) {
        Ok(s) => s,
        Err(e) => return Err(e),
    };
    proof {
        lemma_words_are_words(param@, Seq::empty());
        lemma_stripped_are_words(words(param@), false);
        law_joined_words((stripped(words(param@), false)->Ok_0).0);
    }
    let addrs = split_words(rest.as_str());
    assert(views(addrs@).len() == addrs@.len());
    if addrs.len() == 0 {
        return Err(
            DnsError::plugin("forward quick setup requires non-empty upstream address parameter"),
        );
    }
    Ok((addrs, short_circuit))
}

} // verus!
