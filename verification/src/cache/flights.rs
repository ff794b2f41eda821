//! Work in flight, by cache key.
//!
//! Concurrent misses of one key share a single fetch, and a stale entry is refreshed
//! by one task at a time.

use std::collections::hash_map::RandomState;

use dashmap::DashMap;
use vstd::prelude::*;

use crate::cache::key::{CacheKey, CacheKeyView, EcsScopeView};

verus! {

/// A subnet as plain values: family, the two prefixes, and the network with the number
/// of its significant octets.
pub type ScopeId = (u16, u8, u8, u8, [u8; 16]);

/// A cache key as plain values.
pub type FlightId = (String, u16, u16, bool, bool, Option<ScopeId>);

/// The view of a [`ScopeId`].
pub type ScopeIdView = (u16, u8, u8, u8, Seq<u8>);

/// The view of a [`FlightId`].
pub type FlightIdView = (Seq<char>, u16, u16, bool, bool, Option<ScopeIdView>);

/// What a table of flights holds.
pub uninterp spec fn flight_contents(
    table: DashMap<
        (String, u16, u16, bool, bool, Option<(u16, u8, u8, u8, [u8; 16])>),
        u64,
        RandomState,
    >,
) -> Map<(Seq<char>, u16, u16, bool, bool, Option<(u16, u8, u8, u8, Seq<u8>)>), u64>;

pub open spec fn flight_id_view(id: FlightId) -> FlightIdView {
    (
        id.0@,
        id.1,
        id.2,
        id.3,
        id.4,
        match id.5 {
            Some(s) => Some((s.0, s.1, s.2, s.3, s.4@)),
            None => None,
        },
    )
}

/// The contents of an empty table.
pub open spec fn no_flights() -> Map<FlightIdView, u64> {
    Map::empty()
}

/// `DashMap::new`: an empty table.
#[verifier::external_body]
fn flights_new() -> (r: DashMap<FlightId, u64, RandomState>)
    ensures
        flight_contents(r) == no_flights(),
{
    DashMap::new()
}

/// `DashMap::get`: the value stored under a key, if there is one.
#[verifier::external_body]
fn flights_get(table: &DashMap<FlightId, u64, RandomState>, id: &FlightId) -> (r: Option<u64>)
    ensures
        r == (if flight_contents(*table).dom().contains(flight_id_view(*id)) {
            Some(flight_contents(*table)[flight_id_view(*id)])
        } else {
            None
        }),
{
    table.get(id).map(|found| *found.value())
}

/// `DashMap::insert`: stores a value under a key, in place of an earlier one.
#[verifier::external_body]
fn flights_insert(table: &mut DashMap<FlightId, u64, RandomState>, id: FlightId, flight: u64)
    ensures
        flight_contents(*final(table)) == flight_contents(*old(table)).insert(
            flight_id_view(id),
            flight,
        ),
{
    table.insert(id, flight);
}

/// `DashMap::remove`: takes the value under a key out, if there is one.
#[verifier::external_body]
fn flights_remove(table: &mut DashMap<FlightId, u64, RandomState>, id: &FlightId)
    ensures
        flight_contents(*final(table)) == flight_contents(*old(table)).remove(flight_id_view(*id)),
{
    table.remove(id);
}

/// The plain values of the subnet of a key.
pub open spec fn scope_id(e: Option<EcsScopeView>) -> Option<ScopeIdView> {
    match e {
        Some(d) => Some((d.family, d.source_prefix, d.scope_prefix, d.network_len, d.network)),
        None => None,
    }
}

/// The plain values of a key.
pub open spec fn flight_id(k: CacheKeyView) -> FlightIdView {
    (
        k.domain,
        k.record_type.number(),
        k.dns_class.number(),
        k.do_bit,
        k.cd_bit,
        scope_id(k.ecs_scope),
    )
}

fn id_of(key: &CacheKey) -> (r: FlightId)
    ensures
        flight_id_view(r) == flight_id(key@),
{
    let scope: Option<ScopeId> = match &key.ecs_scope {
        Some(d) => Some((d.family, d.source_prefix, d.scope_prefix, d.network_len, d.network)),
        None => None,
    };
    (
        key.domain.clone(),
        key.record_type.to_u16(),
        key.dns_class.to_u16(),
        key.do_bit,
        key.cd_bit,
        scope,
    )
}

/// The part that a miss takes in fetching its key.
#[derive(Debug, Clone, Copy, PartialEq, Eq, Structural)]
pub enum MissRole {
    /// It fetches, under this flight number.
    Leader(u64),
    /// It waits for the flight with this number.
    Follower(u64),
    /// It is part of the very fetch that it would wait for.
    Reentrant,
}

/// The mathematical content of a [`MissCoalescer`].
pub struct CoalescerView {
    pub flights: Map<FlightIdView, u64>,
    pub next_id: u64,
}

/// Lets concurrent misses of one key share a fetch.
pub struct MissCoalescer {
    inflight: DashMap<FlightId, u64, RandomState>,
    next_id: u64,
}

/// Registering a miss.
pub open spec fn registered(c: CoalescerView, key: CacheKeyView, ancestors: Seq<u64>) -> (
    CoalescerView,
    MissRole,
) {
    let id = flight_id(key);
    if c.flights.dom().contains(id) {
        (
            c,
            if ancestors.contains(c.flights[id]) {
                MissRole::Reentrant
            } else {
                MissRole::Follower(c.flights[id])
            },
        )
    } else {
        (
            CoalescerView {
                flights: c.flights.insert(id, c.next_id),
                next_id: c.next_id.wrapping_add(1),
            },
            MissRole::Leader(c.next_id),
        )
    }
}

/// Ending a flight: the key is free again, unless another flight has taken it.
pub open spec fn landed(c: CoalescerView, key: CacheKeyView, flight: u64) -> CoalescerView {
    let id = flight_id(key);
    if c.flights.dom().contains(id) && c.flights[id] == flight {
        CoalescerView { flights: c.flights.remove(id), ..c }
    } else {
        c
    }
}

fn holds_number(list: &Vec<u64>, n: u64) -> (r: bool)
    ensures
        r == list@.contains(n),
{
    let mut i: usize = 0;
    while i < list.len()
        invariant
            i <= list@.len(),
            forall|j: int| 0 <= j < i ==> list@[j] != n,
        decreases list@.len() - i,
    {
        if list[i] == n {
            return true;
        }
        i = i + 1;
    }
    false
}

impl MissCoalescer {
    pub closed spec fn view(&self) -> CoalescerView {
        CoalescerView { flights: flight_contents(self.inflight), next_id: self.next_id }
    }

    pub fn new() -> (r: MissCoalescer)
        ensures
            r@ == (CoalescerView { flights: no_flights(), next_id: 1 }),
    {
        MissCoalescer { inflight: flights_new(), next_id: 1 }
    }

    /// Registers a miss. `ancestors` are the flights that the request is part of.
    pub fn register(&mut self, key: &CacheKey, ancestors: &Vec<u64>) -> (r: MissRole)
        ensures
            (final(self)@, r) == registered(old(self)@, key@, ancestors@),
    {
        let id = id_of(key);
        match flights_get(&self.inflight, &id) {
            Some(flight) => if holds_number(ancestors, flight) {
                MissRole::Reentrant
            } else {
                MissRole::Follower(flight)
            },
            None => {
                let flight: u64 = self.next_id;
                flights_insert(&mut self.inflight, id, flight);
                self.next_id = flight.wrapping_add(1);
                MissRole::Leader(flight)
            },
        }
    }

    /// Ends a flight.
    pub fn complete(&mut self, key: &CacheKey, flight: u64)
        ensures
            final(self)@ == landed(old(self)@, key@, flight),
    {
        let id = id_of(key);
        if let Some(current) = flights_get(&self.inflight, &id) {
            if current == flight {
                flights_remove(&mut self.inflight, &id);
            }
        }
    }
}

/// The keys whose entries are being refreshed.
pub struct RefreshSet {
    inflight: DashMap<FlightId, u64, RandomState>,
}

impl RefreshSet {
    pub closed spec fn view(&self) -> Set<FlightIdView> {
        flight_contents(self.inflight).dom()
    }

    pub fn new() -> (r: RefreshSet)
        ensures
            r@ == Set::<FlightIdView>::empty(),
    {
        let r = RefreshSet { inflight: flights_new() };
        assert(r@ =~= Set::<FlightIdView>::empty());
        r
    }

    /// Whether a key is being refreshed.
    pub fn contains(&self, key: &CacheKey) -> (r: bool)
        ensures
            r == self@.contains(flight_id(key@)),
    {
        flights_get(&self.inflight, &id_of(key)).is_some()
    }

    /// Notes that a key is being refreshed.
    pub fn insert(&mut self, key: &CacheKey)
        ensures
            final(self)@ == old(self)@.insert(flight_id(key@)),
    {
        let ghost before = self@;
        flights_insert(&mut self.inflight, id_of(key), 0);
        assert(self@ =~= before.insert(flight_id(key@)));
    }

    /// Notes that a key is not being refreshed any more.
    pub fn remove(&mut self, key: &CacheKey)
        ensures
            final(self)@ == old(self)@.remove(flight_id(key@)),
    {
        let ghost before = self@;
        flights_remove(&mut self.inflight, &id_of(key));
        assert(self@ =~= before.remove(flight_id(key@)));
    }
}

/// A flight that ends frees its key: the next miss of it leads again.
pub proof fn law_completed_flight_frees_key(
    c: CoalescerView,
    key: CacheKeyView,
    ancestors: Seq<u64>,
    later_ancestors: Seq<u64>,
)
    requires
        registered(c, key, ancestors).1 is Leader,
    ensures
        ({
            let (d, role) = registered(c, key, ancestors);
            registered(landed(d, key, role->Leader_0), key, later_ancestors).1 is Leader
        }),
{
}

/// While a flight is under way, every other miss of its key waits for that flight, or,
/// where it is part of it, goes on by itself. None fetches a second time.
pub proof fn law_one_leader_per_key(
    c: CoalescerView,
    key: CacheKeyView,
    ancestors: Seq<u64>,
    later_ancestors: Seq<u64>,
)
    requires
        registered(c, key, ancestors).1 is Leader,
    ensures
        ({
            let (d, role) = registered(c, key, ancestors);
            let flight = role->Leader_0;
            registered(d, key, later_ancestors).1 == (if later_ancestors.contains(flight) {
                MissRole::Reentrant
            } else {
                MissRole::Follower(flight)
            })
        }),
{
}

} // verus!
