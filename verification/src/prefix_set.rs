//! Sets of network prefixes.

use ahash::{AHashSet, RandomState};
use vstd::prelude::*;

verus! {

/// A prefix as plain values: the address family (4 or 6), the address and the mask.
pub type PrefixId = (u8, u128, u8);

/// `ahash::RandomState`, opaque.
#[verifier::external_type_specification]
#[verifier::external_body]
pub struct ExAhashState(RandomState);

/// `ahash::AHashSet`, opaque.
#[verifier::external_type_specification]
#[verifier::external_body]
#[verifier::reject_recursive_types(T)]
#[verifier::reject_recursive_types(S)]
pub struct ExAHashSet<T, S>(AHashSet<T, S>);

/// What a set of prefixes holds.
pub uninterp spec fn prefix_contents(set: AHashSet<(u8, u128, u8), RandomState>) -> Set<
    (u8, u128, u8),
>;

pub open spec fn no_prefixes() -> Set<PrefixId> {
    Set::empty()
}

/// `AHashSet::new`: an empty set.
#[verifier::external_body]
fn prefixes_new() -> (r: AHashSet<PrefixId, RandomState>)
    ensures
        prefix_contents(r) == no_prefixes(),
{
    AHashSet::new()
}

/// `insert` on an `AHashSet`, which is that of the standard `HashSet`: the set holds the
/// item, and the result tells whether it is new.
#[verifier::external_body]
fn prefixes_insert(set: &mut AHashSet<PrefixId, RandomState>, id: PrefixId) -> (r: bool)
    ensures
        prefix_contents(*final(set)) == prefix_contents(*old(set)).insert(id),
        r == !prefix_contents(*old(set)).contains(id),
{
    set.insert(id)
}

/// `into_iter` on an `AHashSet`: the items, each once, in no particular order.
#[verifier::external_body]
fn prefixes_into_vec(set: AHashSet<PrefixId, RandomState>) -> (r: Vec<PrefixId>)
    ensures
        r@.no_duplicates(),
        r@.to_set() == prefix_contents(set),
{
    set.into_iter().collect()
}

/// A set of prefixes.
pub struct PrefixSet {
    items: AHashSet<PrefixId, RandomState>,
}

impl PrefixSet {
    pub closed spec fn view(&self) -> Set<PrefixId> {
        prefix_contents(self.items)
    }

    /// A set without prefixes.
    pub fn new() -> (r: PrefixSet)
        ensures
            r@ == Set::<PrefixId>::empty(),
    {
        PrefixSet { items: prefixes_new() }
    }

    /// Adds a prefix. Returns whether it is new.
    pub fn insert(&mut self, id: PrefixId) -> (r: bool)
        ensures
            final(self)@ == old(self)@.insert(id),
            r == !old(self)@.contains(id),
    {
        prefixes_insert(&mut self.items, id)
    }

    /// The prefixes, each once.
    pub fn into_vec(self) -> (r: Vec<PrefixId>)
        ensures
            r@.no_duplicates(),
            r@.to_set() == self@,
    {
        prefixes_into_vec(self.items)
    }
}

} // verus!
