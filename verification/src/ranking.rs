//! The distribution in the order in which it is reported: largest count
//! first.

use vstd::prelude::*;
use std::cmp::Ordering;
use rayon::slice::ParallelSliceMut;
use crate::distribution::{lemma_lists_rearranged, lists, Distribution};

verus! {

/// The counts never go up from one entry to the next.
pub open spec fn is_descending(entries: Seq<(String, u32)>) -> bool {
    forall|i: int, j: int| 0 <= i < j < entries.len() ==> entries[i].1 >= entries[j].1
}

/// Puts the entry with the larger count first; entries with equal counts
/// rank equal.
pub fn descending_by_count(x: &(String, u32), y: &(String, u32)) -> (order: Ordering)
    ensures
        order == (if x.1 > y.1 {
            Ordering::Less
        } else if x.1 == y.1 {
            Ordering::Equal
        } else {
            Ordering::Greater
        }),
{
    if x.1 > y.1 {
        Ordering::Less
    } else if x.1 == y.1 {
        Ordering::Equal
    } else {
        Ordering::Greater
    }
}

/// Sorts the entries on rayon's worker pool, largest count first.
///
/// Trusted: `par_sort_unstable_by` rearranges the slice, neither adding
/// nor dropping an element, so that no element comes before one that the
/// comparison puts first. Where entries with equal counts end up is left
/// open.
#[verifier::external_body]
fn par_sort_descending(entries: &mut Vec<(String, u32)>)
    ensures
        final(entries)@.to_multiset() == old(entries)@.to_multiset(),
        is_descending(final(entries)@),
{
    entries.par_sort_unstable_by(|x, y| descending_by_count(x, y));
}

/// The names of the distribution with their counts, largest count first.
/// Names with equal counts come in no particular order.
pub fn ranked(distribution: &Distribution) -> (entries: Vec<(String, u32)>)
    ensures
        lists(entries@, distribution@),
        is_descending(entries@),
        distribution@.dom().finite(),
        entries.len() == distribution@.dom().len(),
{
    let mut entries = distribution.entries();
    let ghost unsorted = entries@;
    par_sort_descending(&mut entries);
    proof {
        lemma_lists_rearranged(unsorted, entries@, distribution@);
    }
    entries
}

} // verus!
