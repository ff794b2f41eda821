# resolver_plugins

Plugins of a DNS resolver, with their behaviour stated in contracts and proved by Verus.

- `src/cache`: the response cache. Keys, TTL policy, lookups by client subnet, background
  refreshes, coalesced misses, dumps and their loading, listing and deleting entries.
- `src/forward`: forwarding to upstreams. Fan-out, and the choice among responses.
- `src/nftset`: addresses of responses as networks of nftables sets.
- `src/ip_selector`: probes of addresses, their cache and their scores.
- `src/recorder`: recorded queries. Statements, rows, filters and statistics.
- `src/proto`: names, messages and their octets.
- `src/ttl_cache.rs`, `src/rank_heap.rs`, `src/prefix_set.rs`, `src/text.rs`, `src/bytes.rs`,
  `src/error.rs`: what the plugins share.

What holds over several calls is stated as public proof functions whose names begin with
`law_`. Functions marked `external_body` call outside crates; their contracts are taken
on trust, and their comments say what each claims.

`app` is the runtime around the library: files, sockets, tasks, threads, the database and
configuration texts. `tests` runs the library on concrete values.
