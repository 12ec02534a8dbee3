//! The approximate set of ancestor classes used to reject selectors early,
//! kept in a quotient filter from the `qfilter` crate.

use vstd::prelude::*;

use qfilter::{Filter, StableBuildHasher};
use vstd::multiset::Multiset;

verus! {

#[verifier::external_type_specification]
#[verifier::external_body]
#[verifier::reject_recursive_types(B)]
#[verifier::reject_recursive_types(S)]
pub struct ExFilter<B, S>(Filter<B, S>);

#[verifier::external_type_specification]
#[verifier::external_body]
pub struct ExStableBuildHasher(StableBuildHasher);

/// The fingerprints that a filter holds, counted with multiplicity. A filter keeps only
/// fingerprints of the items inserted into it, so this is all that can be said of what it
/// holds.
pub uninterp spec fn filter_fingerprints(f: Filter) -> Multiset<u64>;

/// The fingerprint that filter `f` keeps for `item`: the item's hash under the filter's
/// hasher, cut to the filter's fingerprint size. Neither changes while items are inserted
/// or removed, when the filter grows, or when it is cleared.
pub uninterp spec fn filter_fingerprint(f: Filter, item: u32) -> u64;

/// The fingerprint function of a filter.
pub open spec fn filter_fp(f: Filter) -> spec_fn(u32) -> u64 {
    |item: u32| filter_fingerprint(f, item)
}

/// `qfilter::Filter::contains`: whether the filter holds the item's fingerprint. An item
/// that was not inserted is reported as present when its fingerprint collides with one
/// that was (a false positive); an inserted item is always found.
#[verifier::external_body]
pub(crate) fn filter_contains(f: &Filter, item: u32) -> (r: bool)
    ensures
        r == (filter_fingerprints(*f).count(filter_fingerprint(*f, item)) > 0),
{
    f.contains(item)
}

/// `qfilter::Filter::insert_duplicated`: adds one more copy of the item's fingerprint,
/// growing the filter if it is full; on `Err` (full and unable to grow) the fingerprints
/// are unchanged. Returns whether the fingerprint was added. Growing keeps the hasher and
/// the fingerprint size.
#[verifier::external_body]
pub(crate) fn filter_insert_duplicated(f: &mut Filter, item: u32) -> (r: bool)
    ensures
        filter_fp(*final(f)) == filter_fp(*old(f)),
        r ==> filter_fingerprints(*final(f)) == filter_fingerprints(*old(f)).insert(filter_fingerprint(*old(f), item)),
        !r ==> filter_fingerprints(*final(f)) == filter_fingerprints(*old(f)),
{
    f.insert_duplicated(item).is_ok()
}

/// `qfilter::Filter::remove`: removes one copy of the item's fingerprint when the filter
/// holds it, and returns whether it did. Which of several items with that fingerprint
/// loses its copy cannot be told, so only the fingerprints are stated.
#[verifier::external_body]
pub(crate) fn filter_remove(f: &mut Filter, item: u32) -> (r: bool)
    ensures
        filter_fp(*final(f)) == filter_fp(*old(f)),
        r == (filter_fingerprints(*old(f)).count(filter_fingerprint(*old(f), item)) > 0),
        filter_fingerprints(*final(f)) == filter_fingerprints(*old(f)).remove(filter_fingerprint(*old(f), item)),
{
    f.remove(item)
}

/// `qfilter::Filter::clear`: removes all fingerprints; the hasher and fingerprint size
/// stay.
#[verifier::external_body]
pub(crate) fn filter_clear(f: &mut Filter)
    ensures
        filter_fp(*final(f)) == filter_fp(*old(f)),
        filter_fingerprints(*final(f)) == Multiset::<u64>::empty(),
{
    f.clear()
}

} // verus!
