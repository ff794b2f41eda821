//! The configuration of the cache.

use vstd::prelude::*;

use crate::error::{DnsError, DnsErrorView};
use crate::text::{between, chars_of, split_words, starts_with, string_from, views, words};

verus! {

/// The configuration of the cache. What is left out takes its default.
#[derive(Debug, PartialEq, Eq)]
pub struct CacheConfig {
    /// The largest number of entries.
    pub size: Option<usize>,
    /// For how many seconds, at least, positive entries are retained so that they
    /// can be served stale while they are refreshed.
    pub lazy_cache_ttl: Option<u32>,
    /// The largest number of refreshes at the same time.
    pub lazy_refresh_concurrency: Option<usize>,
    /// The seconds between a failed refresh and the next try.
    pub lazy_refresh_failure_cooldown: Option<u64>,
    /// Where the entries are persisted.
    pub dump_file: Option<String>,
    /// The least number of seconds between periodic dumps.
    pub dump_interval: Option<u64>,
    /// Whether a hit ends the chain of executors.
    pub short_circuit: Option<bool>,
    /// Whether negative responses are cached.
    pub cache_negative: Option<bool>,
    /// The longest TTL of negative responses, in seconds.
    pub max_negative_ttl: Option<u32>,
    /// The TTL of negative responses without an SOA, in seconds; zero keeps them
    /// out of the cache.
    pub negative_ttl_without_soa: Option<u32>,
    /// The longest TTL of positive responses, in seconds.
    pub max_positive_ttl: Option<u32>,
    /// The shortest TTL of positive responses that are cached, in seconds.
    pub min_positive_ttl: Option<u32>,
    /// Whether the client subnet is part of the key.
    pub ecs_in_key: Option<bool>,
}

/// The configuration that leaves everything to its default.
pub open spec fn default_config() -> CacheConfig {
    CacheConfig {
        size: None,
        lazy_cache_ttl: None,
        lazy_refresh_concurrency: None,
        lazy_refresh_failure_cooldown: None,
        dump_file: None,
        dump_interval: None,
        short_circuit: None,
        cache_negative: None,
        max_negative_ttl: None,
        negative_ttl_without_soa: None,
        max_positive_ttl: None,
        min_positive_ttl: None,
        ecs_in_key: None,
    }
}

impl Default for CacheConfig {
    fn default() -> (r: CacheConfig)
        ensures
            r == default_config(),
    {
        CacheConfig {
            size: None,
            lazy_cache_ttl: None,
            lazy_refresh_concurrency: None,
            lazy_refresh_failure_cooldown: None,
            dump_file: None,
            dump_interval: None,
            short_circuit: None,
            cache_negative: None,
            max_negative_ttl: None,
            negative_ttl_without_soa: None,
            max_positive_ttl: None,
            min_positive_ttl: None,
            ecs_in_key: None,
        }
    }
}

/// What is wrong with a configuration, if anything is.
pub open spec fn config_problem(c: CacheConfig) -> Option<Seq<char>> {
    if c.size == Some(0usize) {
        Some("cache size must be greater than 0"@)
    } else if c.dump_file is Some && c.dump_interval == Some(0u64) {
        Some("cache dump_interval must be greater than 0 when dump_file is set"@)
    } else if c.lazy_cache_ttl == Some(0u32) {
        Some("cache lazy_cache_ttl must be greater than 0"@)
    } else if c.lazy_refresh_concurrency == Some(0usize) {
        Some("cache lazy_refresh_concurrency must be greater than 0"@)
    } else if c.lazy_refresh_failure_cooldown == Some(0u64) {
        Some("cache lazy_refresh_failure_cooldown must be greater than 0"@)
    } else if c.max_negative_ttl == Some(0u32) {
        Some("cache max_negative_ttl must be greater than 0"@)
    } else if c.max_positive_ttl == Some(0u32) {
        Some("cache max_positive_ttl must be greater than 0"@)
    } else if c.min_positive_ttl == Some(0u32) {
        Some("cache min_positive_ttl must be greater than 0"@)
    } else if c.min_positive_ttl is Some && c.max_positive_ttl is Some && c.min_positive_ttl->0
        > c.max_positive_ttl->0 {
        Some("cache min_positive_ttl must be less than or equal to max_positive_ttl"@)
    } else {
        None
    }
}

fn is_zero(v: Option<u32>) -> (r: bool)
    ensures
        r == (v == Some(0u32)),
{
    match v {
        Some(n) => n == 0,
        None => false,
    }
}

/// Checks a configuration.
pub fn validate_cache_config(config: &CacheConfig) -> (r: Result<(), DnsError>)
    ensures
        match r {
            Ok(_) => config_problem(*config) is None,
            Err(e) => config_problem(*config) is Some && e@ == DnsErrorView::Plugin(
                config_problem(*config)->0,
            ),
        },
{
    if let Some(size) = config.size {
        if size == 0 {
            return Err(DnsError::plugin("cache size must be greater than 0"));
        }
    }
    if config.dump_file.is_some() {
        if let Some(interval) = config.dump_interval {
            if interval == 0 {
                return Err(
                    DnsError::plugin(
                        "cache dump_interval must be greater than 0 when dump_file is set",
                    ),
                );
            }
        }
    }
    if is_zero(config.lazy_cache_ttl) {
        return Err(DnsError::plugin("cache lazy_cache_ttl must be greater than 0"));
    }
    if let Some(concurrency) = config.lazy_refresh_concurrency {
        if concurrency == 0 {
            return Err(DnsError::plugin("cache lazy_refresh_concurrency must be greater than 0"));
        }
    }
    if let Some(cooldown) = config.lazy_refresh_failure_cooldown {
        if cooldown == 0 {
            return Err(
                DnsError::plugin("cache lazy_refresh_failure_cooldown must be greater than 0"),
            );
        }
    }
    if is_zero(config.max_negative_ttl) {
        return Err(DnsError::plugin("cache max_negative_ttl must be greater than 0"));
    }
    if is_zero(config.max_positive_ttl) {
        return Err(DnsError::plugin("cache max_positive_ttl must be greater than 0"));
    }
    if is_zero(config.min_positive_ttl) {
        return Err(DnsError::plugin("cache min_positive_ttl must be greater than 0"));
    }
    if let (Some(min), Some(max)) = (config.min_positive_ttl, config.max_positive_ttl) {
        if min > max {
            return Err(
                DnsError::plugin(
                    "cache min_positive_ttl must be less than or equal to max_positive_ttl",
                ),
            );
        }
    }
    Ok(())
}

/// What one token of a quick setup says of `short_circuit`, or what is wrong with it.
pub open spec fn quick_token(token: Seq<char>) -> Result<bool, Seq<char>> {
    let flag = "short_circuit"@;
    let prefix = "short_circuit="@;
    if token == flag {
        Ok(true)
    } else if prefix.is_prefix_of(token) {
        let value = token.skip(prefix.len() as int);
        if value == "true"@ {
            Ok(true)
        } else if value == "false"@ {
            Ok(false)
        } else {
            Err("invalid short_circuit value '"@ + value + "', expected true or false"@)
        }
    } else {
        Err("unsupported cache quick setup token '"@ + token + "'"@)
    }
}

/// What the tokens of a quick setup say of `short_circuit`: the last of them wins,
/// and the first that is wrong is the error.
pub open spec fn quick_tokens(tokens: Seq<Seq<char>>, found: Option<bool>) -> Result<
    Option<bool>,
    Seq<char>,
>
    decreases tokens.len(),
{
    if tokens.len() == 0 {
        Ok(found)
    } else {
        match quick_token(tokens[0]) {
            Ok(v) => quick_tokens(tokens.skip(1), Some(v)),
            Err(e) => Err(e),
        }
    }
}

fn read_quick_token(token: &String) -> (r: Result<bool, DnsError>)
    ensures
        match r {
            Ok(v) => quick_token(token@) == Ok::<bool, Seq<char>>(v),
            Err(e) => quick_token(token@) is Err && e@ == DnsErrorView::Plugin(
                quick_token(token@)->Err_0,
            ),
        },
{
    if *token == "short_circuit".to_owned() {
        return Ok(true);
    }
    let chars = chars_of(token.as_str());
    let prefix = chars_of("short_circuit=");
    if !starts_with(chars.as_slice(), prefix.as_slice()) {
        return Err(
            DnsError::plugin(
                between("unsupported cache quick setup token '", token.as_str(), "'").as_str(),
            ),
        );
    }
    let value = string_from(chars.as_slice(), prefix.len(), chars.len());
    assert(value@ =~= token@.skip(prefix@.len() as int));
    if value == "true".to_owned() {
        Ok(true)
    } else if value == "false".to_owned() {
        Ok(false)
    } else {
        Err(
            DnsError::plugin(
                between(
                    "invalid short_circuit value '",
                    value.as_str(),
                    "', expected true or false",
                ).as_str(),
            ),
        )
    }
}

/// Reads a quick setup: `short_circuit` or `short_circuit=true|false`, any number of
/// times.
pub fn parse_cache_quick_setup(raw: &str) -> (r: Result<CacheConfig, DnsError>)
    ensures
        match r {
            Ok(c) => {
                &&& quick_tokens(words(raw@), None) is Ok
                &&& c == (CacheConfig {
                    short_circuit: quick_tokens(words(raw@), None)->Ok_0,
                    ..default_config()
                })
            },
            Err(e) => quick_tokens(words(raw@), None) is Err && e@ == DnsErrorView::Plugin(
                quick_tokens(words(raw@), None)->Err_0,
            ),
        },
{
    let tokens = split_words(raw);
    let ghost all = words(raw@);
    let mut short_circuit: Option<bool> = None;
    let mut i: usize = 0;
    assert(all.skip(0) =~= all);
    while i < tokens.len()
        invariant
            i <= tokens@.len(),
            all == views(tokens@),
            all == words(raw@),
            quick_tokens(all.skip(i as int), short_circuit) == quick_tokens(all, None),
        decreases tokens@.len() - i,
    {
        let ghost rest = all.skip(i as int);
        assert(rest[0] == tokens@[i as int]@);
        assert(rest.skip(1) =~= all.skip(i + 1));
        match read_quick_token(&tokens[i]) {
            Ok(v) => {
                short_circuit = Some(v);
            },
            Err(e) => {
                return Err(e);
            },
        }
        i = i + 1;
    }
    let mut config = CacheConfig::default();
    config.short_circuit = short_circuit;
    Ok(config)
}

} // verus!
