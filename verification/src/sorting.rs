//! Sorting of records by their key.

use vstd::prelude::*;
use crate::counts::Count;
use crate::order::ascending;
use crate::row::{keys_of, InputRecord};

verus! {

/// `slice::sort_by` with the order of the work ids: afterwards the vector
/// holds the same records, and their keys never go down.
#[verifier::external_body]
pub(crate) fn sort_by_work_id(records: &mut Vec<InputRecord>)
    ensures
        final(records)@.to_multiset() == old(records)@.to_multiset(),
        final(records)@.len() == old(records)@.len(),
        ascending(keys_of(final(records)@)),
{
    records.sort_by(|a, b| a.work_id.cmp(&b.work_id));
}

/// Whether the counts of `counts` never go up.
pub open spec fn falling(counts: Seq<Count>) -> bool {
    forall|i: int, j: int|
        0 <= i <= j < counts.len() ==> (#[trigger] counts[i]).count >= (#[trigger] counts[j]).count
}

/// `slice::sort_by_key` with the count in reverse: afterwards the vector
/// holds the same entries, the largest count first.
#[verifier::external_body]
pub(crate) fn sort_by_count(counts: &mut Vec<Count>)
    ensures
        final(counts)@.to_multiset() == old(counts)@.to_multiset(),
        final(counts)@.len() == old(counts)@.len(),
        falling(final(counts)@),
{
    counts.sort_by_key(|entry| std::cmp::Reverse(entry.count));
}

} // verus!
