//! The external sort: records are cut into chunks, each chunk is sorted, and
//! the chunks are merged, a bounded number at a time, until one is left.

use vstd::prelude::*;
use vstd::multiset::Multiset;
use vstd::seq_lib::*;
use crate::merge::{all_ascending, chunk_views, merge_chunks, pool, pool_size};
use crate::order::{ascending, lemma_le_antisymmetric, text_le};
use crate::row::{keys_of, InputRecord};
use crate::sorting::sort_by_work_id;

verus! {

/// The largest number of chunks that are merged in one step.
pub const MERGE_WIDTH: usize = 100;

/// The number of bytes that the sort reads at a time.
pub const BLOCK_SIZE: usize = 256 * 1024 * 1024;

/// The number of records in a chunk that is full: `chunk_size`, and 1 where
/// that is 0.
pub open spec fn full_chunk(chunk_size: usize) -> nat {
    if chunk_size == 0 {
        1
    } else {
        chunk_size as nat
    }
}

/// `records` cut into chunks in order: every chunk is full but the last,
/// which holds what is left.
pub open spec fn cuts(records: Seq<InputRecord>, chunk_size: usize) -> Seq<Seq<InputRecord>>
    decreases records.len(),
{
    if records.len() == 0 {
        Seq::empty()
    } else if records.len() <= full_chunk(chunk_size) {
        seq![records]
    } else {
        seq![records.take(full_chunk(chunk_size) as int)] + cuts(
            records.skip(full_chunk(chunk_size) as int),
            chunk_size,
        )
    }
}

/// The number of merges in a pass over `count` chunks.
pub open spec fn groups_needed(count: nat) -> nat {
    ((count + MERGE_WIDTH - 1) / (MERGE_WIDTH as int)) as nat
}

/// The number of passes that leave intermediate chunks, before the merge
/// into the output: none for up to `MERGE_WIDTH` chunks.
pub open spec fn merge_passes(count: nat) -> nat
    decreases count,
{
    if count <= MERGE_WIDTH {
        0
    } else {
        1 + merge_passes(groups_needed(count))
    }
}

/// The chunks of the group `group` of a pass over `count` chunks: from
/// `start` up to, not including, `end`.
pub struct GroupRange {
    pub start: usize,
    pub end: usize,
}

/// The number of merges in a pass over `count` chunks.
pub fn group_count(count: usize) -> (n: usize)
    ensures
        n == groups_needed(count as nat),
{
    let whole = count / MERGE_WIDTH;
    if count % MERGE_WIDTH == 0 {
        whole
    } else {
        whole + 1
    }
}

/// The groups of a pass over `count` chunks: each takes the next
/// `MERGE_WIDTH` chunks, the last what is left.
pub fn merge_groups(count: usize) -> (groups: Vec<GroupRange>)
    ensures
        groups@.len() == groups_needed(count as nat),
        forall|g: int|
            0 <= g < groups@.len() ==> (#[trigger] groups@[g]).start == g * MERGE_WIDTH
                && groups@[g].end == if (g + 1) * MERGE_WIDTH <= count {
                (g + 1) * MERGE_WIDTH
            } else {
                count as int
            },
{
    let mut groups: Vec<GroupRange> = Vec::new();
    let mut start: usize = 0;
    while start < count
        invariant
            start == groups@.len() * MERGE_WIDTH || (start == count && groups@.len()
                == groups_needed(count as nat)),
            start <= count,
            groups@.len() <= groups_needed(count as nat),
            forall|g: int|
                0 <= g < groups@.len() ==> (#[trigger] groups@[g]).start == g * MERGE_WIDTH
                    && groups@[g].end == if (g + 1) * MERGE_WIDTH <= count {
                    (g + 1) * MERGE_WIDTH
                } else {
                    count as int
                },
        decreases count - start,
    {
        let end = if count - start > MERGE_WIDTH {
            start + MERGE_WIDTH
        } else {
            count
        };
        groups.push(GroupRange { start, end });
        start = end;
    }
    groups
}

/// The number of passes that leave intermediate chunks.
pub fn pass_count(count: usize) -> (passes: usize)
    ensures
        passes == merge_passes(count as nat),
{
    let mut left = count;
    let mut passes: usize = 0;
    while left > MERGE_WIDTH
        invariant
            passes + merge_passes(left as nat) == merge_passes(count as nat),
            passes <= count - left,
        decreases left,
    {
        left = group_count(left);
        passes += 1;
    }
    passes
}

proof fn lemma_pool_push(chunks: Seq<Seq<InputRecord>>, chunk: Seq<InputRecord>)
    ensures
        pool(chunks.push(chunk)) == pool(chunks).add(chunk.to_multiset()),
        pool_size(chunks.push(chunk)) == pool_size(chunks) + chunk.len(),
{
    assert(chunks.push(chunk).drop_last() =~= chunks);
}

proof fn lemma_pool_none()
    ensures
        pool(Seq::<Seq<InputRecord>>::empty()) == Multiset::<InputRecord>::empty(),
        pool_size(Seq::<Seq<InputRecord>>::empty()) == 0,
{
}

proof fn lemma_split_multiset(records: Seq<InputRecord>, at: int)
    requires
        0 <= at <= records.len(),
    ensures
        records.to_multiset() == records.take(at).to_multiset().add(records.skip(at).to_multiset()),
{
    broadcast use vstd::multiset::group_multiset_axioms;

    lemma_multiset_commutative(records.take(at), records.skip(at));
    assert(records.take(at) + records.skip(at) =~= records);
}

/// Cutting loses no record: the chunks together hold the records that were cut.
pub proof fn lemma_cuts(records: Seq<InputRecord>, chunk_size: usize)
    ensures
        pool(cuts(records, chunk_size)) == records.to_multiset(),
        pool_size(cuts(records, chunk_size)) == records.len(),
    decreases records.len(),
{
    broadcast use vstd::multiset::group_multiset_axioms;

    let full = full_chunk(chunk_size) as int;
    if records.len() == 0 {
        records.to_multiset_ensures();
        assert(records.to_multiset() =~= Multiset::empty());
    } else if records.len() <= full {
        lemma_pool_none();
        lemma_pool_push(Seq::empty(), records);
        assert(Seq::<Seq<InputRecord>>::empty().push(records) =~= seq![records]);
        assert(pool(seq![records]) =~= records.to_multiset());
    } else {
        let rest = cuts(records.skip(full), chunk_size);
        lemma_cuts(records.skip(full), chunk_size);
        lemma_pool_front(records.take(full), rest);
        lemma_split_multiset(records, full);
        assert(pool(cuts(records, chunk_size)) =~= records.to_multiset());
    }
}

proof fn lemma_pool_front(first: Seq<InputRecord>, rest: Seq<Seq<InputRecord>>)
    ensures
        pool(seq![first] + rest) == first.to_multiset().add(pool(rest)),
        pool_size(seq![first] + rest) == first.len() + pool_size(rest),
    decreases rest.len(),
{
    broadcast use vstd::multiset::group_multiset_axioms;

    let all = seq![first] + rest;
    if rest.len() == 0 {
        lemma_pool_none();
        lemma_pool_push(Seq::empty(), first);
        assert(Seq::<Seq<InputRecord>>::empty().push(first) =~= all);
        assert(rest =~= Seq::<Seq<InputRecord>>::empty());
        assert(pool(all) =~= first.to_multiset().add(pool(rest)));
    } else {
        lemma_pool_front(first, rest.drop_last());
        assert(all.drop_last() =~= seq![first] + rest.drop_last());
        assert(all.last() == rest.last());
        assert(pool(all) =~= first.to_multiset().add(pool(rest)));
    }
}

/// Cuts `records` into chunks of `chunk_size` records, the last with what is
/// left, and sorts each chunk by key.
pub fn sorted_chunks(records: Vec<InputRecord>, chunk_size: usize) -> (chunks: Vec<
    Vec<InputRecord>,
>)
    ensures
        chunks@.len() == cuts(records@, chunk_size).len(),
        forall|c: int|
            0 <= c < chunks@.len() ==> (#[trigger] chunks@[c])@.to_multiset() == cuts(
                records@,
                chunk_size,
            )[c].to_multiset(),
        all_ascending(chunk_views(chunks@)),
        pool(chunk_views(chunks@)) == records@.to_multiset(),
        pool_size(chunk_views(chunks@)) == records@.len(),
{
    let ghost all = records@;
    let ghost full = full_chunk(chunk_size) as int;
    let mut chunks: Vec<Vec<InputRecord>> = Vec::new();
    let mut current: Vec<InputRecord> = Vec::new();
    proof {
        lemma_pool_none();
        assert(chunk_views(chunks@) =~= Seq::empty());
        assert(all.skip(0) =~= all);
        assert(all.subrange(0, 0) =~= current@);
        all.take(0).to_multiset_ensures();
        assert(all.take(0).to_multiset() =~= Multiset::empty());
    }
    for record in it: records
        invariant
            it.seq() == all,
            full == full_chunk(chunk_size),
            current@.len() < full,
            current@.len() <= it.index(),
            current@ == all.subrange(it.index() - current@.len(), it.index() as int),
            chunks@.len() + cuts(all.skip(it.index() - current@.len()), chunk_size).len() == cuts(
                all,
                chunk_size,
            ).len(),
            forall|c: int|
                0 <= c < chunks@.len() ==> (#[trigger] chunks@[c])@.to_multiset() == cuts(
                    all,
                    chunk_size,
                )[c].to_multiset(),
            forall|c: int|
                0 <= c < cuts(all.skip(it.index() - current@.len()), chunk_size).len() ==> cuts(
                    all,
                    chunk_size,
                )[chunks@.len() + c] == #[trigger] cuts(
                    all.skip(it.index() - current@.len()),
                    chunk_size,
                )[c],
            all_ascending(chunk_views(chunks@)),
            pool(chunk_views(chunks@)) == all.take(it.index() - current@.len()).to_multiset(),
            pool_size(chunk_views(chunks@)) == it.index() - current@.len(),
    {
        let ghost from = it.index() - current@.len();
        let ghost before = current@;
        current.push(record);
        assert(current@ =~= all.subrange(from, it.index() + 1));
        if current.len() >= chunk_size {
            let mut chunk: Vec<InputRecord> = Vec::new();
            std::mem::swap(&mut current, &mut chunk);
            let ghost cut = chunk@;
            sort_by_work_id(&mut chunk);
            let ghost done = chunks@;
            chunks.push(chunk);
            proof {
                broadcast use vstd::multiset::group_multiset_axioms;

                let tail = all.skip(from);
                assert(tail.len() >= full);
                assert(cut.len() == full);
                assert(tail.take(full) =~= cut);
                assert(tail.skip(full) =~= all.skip(it.index() + 1));
                let rest = cuts(all.skip(it.index() + 1), chunk_size);
                if tail.len() <= full {
                    assert(tail =~= cut);
                    assert(all.skip(it.index() + 1).len() == 0);
                    assert(cuts(tail, chunk_size) =~= seq![cut] + rest);
                }
                assert(cuts(tail, chunk_size) == seq![cut] + rest);
                assert(cuts(tail, chunk_size)[0] == cut);
                assert(chunk_views(chunks@) =~= chunk_views(done).push(chunk@));
                lemma_pool_push(chunk_views(done), chunk@);
                lemma_split_multiset(all.take(it.index() + 1), from);
                assert(all.take(it.index() + 1).take(from) =~= all.take(from));
                assert(all.take(it.index() + 1).skip(from) =~= cut);
                assert(all.subrange(it.index() + 1, it.index() + 1) =~= current@);
                assert forall|c: int| 0 <= c < chunks@.len() implies (#[trigger] chunks@[c])@.to_multiset()
                    == cuts(all, chunk_size)[c].to_multiset() by {
                    if c < done.len() {
                        assert(chunks@[c] == done[c]);
                    } else {
                        assert(cuts(all, chunk_size)[done.len() as int] == cuts(tail, chunk_size)[0]);
                    }
                }
                assert forall|c: int| 0 <= c < rest.len() implies cuts(all, chunk_size)[chunks@.len()
                    + c] == #[trigger] rest[c] by {
                    assert(cuts(all, chunk_size)[done.len() + (c + 1)] == cuts(tail, chunk_size)[c
                        + 1]);
                }
                assert forall|c: int| 0 <= c < chunks@.len() implies ascending(
                    keys_of(#[trigger] chunk_views(chunks@)[c]),
                ) by {
                    if c < done.len() {
                        assert(chunk_views(chunks@)[c] == chunk_views(done)[c]);
                    }
                }
            }
        }
    }
    let ghost from = all.len() - current@.len();
    if current.len() > 0 {
        let ghost cut = current@;
        sort_by_work_id(&mut current);
        let ghost done = chunks@;
        chunks.push(current);
        proof {
            broadcast use vstd::multiset::group_multiset_axioms;

            let tail = all.skip(from);
            assert(tail =~= cut);
            assert(cuts(tail, chunk_size) == seq![cut]);
            assert(chunk_views(chunks@) =~= chunk_views(done).push(chunks@[done.len() as int]@));
            lemma_pool_push(chunk_views(done), chunks@[done.len() as int]@);
            lemma_split_multiset(all, from);
            assert forall|c: int| 0 <= c < chunks@.len() implies (#[trigger] chunks@[c])@.to_multiset()
                == cuts(all, chunk_size)[c].to_multiset() by {
                if c < done.len() {
                    assert(chunks@[c] == done[c]);
                } else {
                    assert(cuts(all, chunk_size)[done.len() as int] == cuts(tail, chunk_size)[0]);
                }
            }
            assert forall|c: int| 0 <= c < chunks@.len() implies ascending(
                keys_of(#[trigger] chunk_views(chunks@)[c]),
            ) by {
                if c < done.len() {
                    assert(chunk_views(chunks@)[c] == chunk_views(done)[c]);
                }
            }
        }
    } else {
        proof {
            assert(all.skip(from).len() == 0);
            assert(all.take(from) =~= all);
        }
    }
    chunks
}

/// One pass of the merge: the chunks are merged in groups of `MERGE_WIDTH`,
/// in order, the last group with what is left.
pub fn merge_pass(chunks: Vec<Vec<InputRecord>>) -> (merged: Vec<Vec<InputRecord>>)
    ensures
        merged@.len() == groups_needed(chunks@.len()),
        pool(chunk_views(merged@)) == pool(chunk_views(chunks@)),
        pool_size(chunk_views(merged@)) == pool_size(chunk_views(chunks@)),
        all_ascending(chunk_views(chunks@)) ==> all_ascending(chunk_views(merged@)),
{
    let ghost given = chunk_views(chunks@);
    let ghost sorted = all_ascending(given);
    let ghost count = chunks@.len();
    let mut merged: Vec<Vec<InputRecord>> = Vec::new();
    let mut group: Vec<Vec<InputRecord>> = Vec::new();
    proof {
        broadcast use vstd::multiset::group_multiset_axioms;

        lemma_pool_none();
        assert(chunk_views(merged@) =~= Seq::empty());
        assert(chunk_views(group@) =~= Seq::empty());
        assert(given.take(0) =~= Seq::empty());
        assert(pool(chunk_views(merged@)).add(pool(chunk_views(group@))) =~= pool(given.take(0)));
    }
    for chunk in it: chunks
        invariant
            chunk_views(it.seq()) == given,
            count == given.len(),
            sorted == all_ascending(given),
            group@.len() < MERGE_WIDTH,
            merged@.len() * MERGE_WIDTH + group@.len() == it.index(),
            pool(chunk_views(merged@)).add(pool(chunk_views(group@))) == pool(
                given.take(it.index() as int),
            ),
            pool_size(chunk_views(merged@)) + pool_size(chunk_views(group@)) == pool_size(
                given.take(it.index() as int),
            ),
            sorted ==> all_ascending(chunk_views(merged@)),
            sorted ==> all_ascending(chunk_views(group@)),
    {
        let ghost at = it.index() as int;
        let ghost held = group@;
        let ghost done = merged@;
        proof {
            assert(chunk_views(it.seq())[at] == chunk@);
            assert(given.take(at + 1) =~= given.take(at).push(chunk@));
            lemma_pool_push(given.take(at), chunk@);
            lemma_pool_push(chunk_views(held), chunk@);
        }
        group.push(chunk);
        proof {
            broadcast use vstd::multiset::group_multiset_axioms;

            assert(chunk_views(group@) =~= chunk_views(held).push(chunk@));
            assert(pool(chunk_views(merged@)).add(pool(chunk_views(group@))) =~= pool(
                given.take(at + 1),
            ));
            if sorted {
                assert forall|c: int| 0 <= c < group@.len() implies ascending(
                    keys_of(#[trigger] chunk_views(group@)[c]),
                ) by {
                    if c < held.len() {
                        assert(chunk_views(group@)[c] == chunk_views(held)[c]);
                    } else {
                        assert(chunk_views(group@)[c] == given[at]);
                    }
                }
            }
        }
        if group.len() >= MERGE_WIDTH {
            let mut full: Vec<Vec<InputRecord>> = Vec::new();
            std::mem::swap(&mut group, &mut full);
            let one = merge_chunks(full);
            merged.push(one);
            proof {
                broadcast use vstd::multiset::group_multiset_axioms;

                lemma_pool_none();
                assert(chunk_views(group@) =~= Seq::empty());
                assert(chunk_views(merged@) =~= chunk_views(done).push(one@));
                lemma_pool_push(chunk_views(done), one@);
                assert(pool(chunk_views(merged@)).add(pool(chunk_views(group@))) =~= pool(
                    given.take(at + 1),
                ));
                if sorted {
                    assert forall|c: int| 0 <= c < merged@.len() implies ascending(
                        keys_of(#[trigger] chunk_views(merged@)[c]),
                    ) by {
                        if c < done.len() {
                            assert(chunk_views(merged@)[c] == chunk_views(done)[c]);
                        }
                    }
                }
            }
        }
    }
    proof {
        assert(given.take(count as int) =~= given);
    }
    if group.len() > 0 {
        let ghost done = merged@;
        let ghost held = chunk_views(group@);
        let one = merge_chunks(group);
        merged.push(one);
        proof {
            broadcast use vstd::multiset::group_multiset_axioms;

            assert(chunk_views(merged@) =~= chunk_views(done).push(one@));
            lemma_pool_push(chunk_views(done), one@);
            assert(pool(chunk_views(merged@)) =~= pool(given));
            if sorted {
                assert forall|c: int| 0 <= c < merged@.len() implies ascending(
                    keys_of(#[trigger] chunk_views(merged@)[c]),
                ) by {
                    if c < done.len() {
                        assert(chunk_views(merged@)[c] == chunk_views(done)[c]);
                    }
                }
            }
        }
    } else {
        proof {
            broadcast use vstd::multiset::group_multiset_axioms;

            lemma_pool_none();
            assert(chunk_views(group@) =~= Seq::empty());
            assert(pool(chunk_views(merged@)) =~= pool(given));
        }
    }
    merged
}

proof fn lemma_keys_after_remove(records: Seq<InputRecord>, at: int)
    requires
        0 <= at < records.len(),
        ascending(keys_of(records)),
        records[at].work_id@ == records.last().work_id@,
    ensures
        keys_of(records.remove(at)) == keys_of(records).drop_last(),
        ascending(keys_of(records.remove(at))),
{
    let keys = keys_of(records);
    let left = keys_of(records.remove(at));
    let last = records.len() - 1;
    assert forall|m: int| at <= m <= last implies keys[m] == keys[last] by {
        assert(text_le(keys[at], keys[m]));
        assert(text_le(keys[m], keys[last]));
        lemma_le_antisymmetric(keys[m], keys[last]);
    }
    assert forall|m: int| 0 <= m < left.len() implies left[m] == keys.drop_last()[m] by {
        if m >= at {
            assert(records.remove(at)[m] == records[m + 1]);
            assert(left[m] == keys[m + 1]);
            assert(keys.drop_last()[m] == keys[m]);
        } else {
            assert(records.remove(at)[m] == records[m]);
        }
    }
    assert(left =~= keys.drop_last());
    assert forall|i: int, j: int| 0 <= i <= j < left.len() implies text_le(
        #[trigger] left[i],
        #[trigger] left[j],
    ) by {
        assert(left[i] == keys[i]);
        assert(left[j] == keys[j]);
    }
}

/// Two orderings of the same records whose keys never go down have the same
/// keys in the same places: what the sort leaves open is only the order of
/// records with the same key. So the keys of the sorted rows, and with them
/// the groups that the rows are cut into, do not depend on the chunk size.
pub proof fn lemma_sorted_keys_agree(a: Seq<InputRecord>, b: Seq<InputRecord>)
    requires
        a.to_multiset() == b.to_multiset(),
        ascending(keys_of(a)),
        ascending(keys_of(b)),
    ensures
        keys_of(a) == keys_of(b),
    decreases a.len(),
{
    broadcast use vstd::multiset::group_multiset_axioms;

    a.to_multiset_ensures();
    b.to_multiset_ensures();
    assert(a.len() == b.len());
    if a.len() == 0 {
        assert(keys_of(a) =~= keys_of(b));
    } else {
        let last = a.len() - 1;
        let x = a.last();
        let y = b.last();
        assert(a.contains(x));
        assert(b.to_multiset().count(x) > 0);
        assert(b.contains(x));
        let j = choose|j: int| 0 <= j < b.len() && b[j] == x;
        assert(b.contains(y));
        assert(a.to_multiset().count(y) > 0);
        assert(a.contains(y));
        let i = choose|i: int| 0 <= i < a.len() && a[i] == y;
        assert(text_le(keys_of(b)[j], keys_of(b)[last]));
        assert(text_le(keys_of(a)[i], keys_of(a)[last]));
        lemma_le_antisymmetric(x.work_id@, y.work_id@);
        lemma_keys_after_remove(b, j);
        let a0 = a.drop_last();
        let b0 = b.remove(j);
        to_multiset_remove(a, last);
        to_multiset_remove(b, j);
        assert(a.remove(last) =~= a0);
        assert(a0.to_multiset() =~= b0.to_multiset());
        assert forall|p: int, q: int| 0 <= p <= q < keys_of(a0).len() implies text_le(
            #[trigger] keys_of(a0)[p],
            #[trigger] keys_of(a0)[q],
        ) by {
            assert(keys_of(a0)[p] == keys_of(a)[p]);
            assert(keys_of(a0)[q] == keys_of(a)[q]);
        }
        lemma_sorted_keys_agree(a0, b0);
        assert(keys_of(a) =~= keys_of(a0).push(x.work_id@));
        assert(keys_of(b) =~= keys_of(b).drop_last().push(y.work_id@));
    }
}

/// Sorts `records` by key as the external sort does: in chunks of
/// `chunk_size` records, merged pass by pass. The result holds the same
/// records, and its keys never go down; records with the same key come in
/// no stated order.
pub fn sort_records(records: Vec<InputRecord>, chunk_size: usize) -> (out: Vec<InputRecord>)
    ensures
        out@.to_multiset() == records@.to_multiset(),
        out@.len() == records@.len(),
        ascending(keys_of(out@)),
{
    let mut chunks = sorted_chunks(records, chunk_size);
    while chunks.len() > MERGE_WIDTH
        invariant
            pool(chunk_views(chunks@)) == records@.to_multiset(),
            pool_size(chunk_views(chunks@)) == records@.len(),
            all_ascending(chunk_views(chunks@)),
        decreases chunks@.len(),
    {
        chunks = merge_pass(chunks);
    }
    merge_chunks(chunks)
}

} // verus!
