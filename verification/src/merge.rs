//! The k-way merge of sorted chunks: one head record per chunk in a heap,
//! the least taken out and replaced from the chunk it came from.

use vstd::prelude::*;
use vstd::multiset::Multiset;
use vstd::seq_lib::*;
use crate::order::{ascending, at_most, lemma_le_reflexive, lemma_le_total, lemma_le_transitive, text_le};
use crate::row::{keys_of, InputRecord};

verus! {

/// A head record and the chunk it came from.
#[derive(Debug)]
pub struct HeapEntry {
    pub record: InputRecord,
    pub reader_index: usize,
}

/// The head records of the chunks that are being merged. `pop` hands out
/// one with the least key.
#[derive(Debug)]
pub struct MergeHeap {
    entries: Vec<HeapEntry>,
}

impl View for MergeHeap {
    type V = Seq<HeapEntry>;

    closed spec fn view(&self) -> Seq<HeapEntry> {
        self.entries@
    }
}

/// Whether no entry of `entries` has a key before `key`.
pub open spec fn least_among(key: Seq<char>, entries: Seq<HeapEntry>) -> bool {
    forall|j: int| 0 <= j < entries.len() ==> text_le(key, (#[trigger] entries[j]).record.work_id@)
}

impl MergeHeap {
    /// The heap without entries.
    pub fn new() -> (heap: MergeHeap)
        ensures
            heap@ == Seq::<HeapEntry>::empty(),
    {
        MergeHeap { entries: Vec::new() }
    }

    /// Number of entries.
    pub fn len(&self) -> (n: usize)
        ensures
            n == self@.len(),
    {
        self.entries.len()
    }

    /// Adds the head record of the chunk `reader_index`.
    pub fn push(&mut self, record: InputRecord, reader_index: usize)
        ensures
            final(self)@ == old(self)@.push(HeapEntry { record, reader_index }),
    {
        self.entries.push(HeapEntry { record, reader_index });
    }

    /// Takes out an entry with the least key; `None` where the heap is
    /// empty. Which of several entries with the least key leaves is not
    /// stated.
    pub fn pop(&mut self) -> (least: Option<HeapEntry>)
        ensures
            (least is Some) == (old(self)@.len() > 0),
            least is None ==> final(self)@ == old(self)@,
            least matches Some(entry) ==> least_among(entry.record.work_id@, old(self)@)
                && exists|i: int|
                0 <= i < old(self)@.len() && entry == old(self)@[i] && final(self)@ == old(self)@.remove(i),
    {
        if self.entries.len() == 0 {
            return None;
        }
        let mut best: usize = 0;
        let mut k: usize = 1;
        proof {
            lemma_le_reflexive(self.entries@[0].record.work_id@);
        }
        while k < self.entries.len()
            invariant
                best < k <= self.entries.len(),
                forall|j: int|
                    0 <= j < k ==> text_le(
                        self.entries@[best as int].record.work_id@,
                        (#[trigger] self.entries@[j]).record.work_id@,
                    ),
            decreases self.entries.len() - k,
        {
            if !at_most(
                self.entries[best].record.work_id.as_str(),
                self.entries[k].record.work_id.as_str(),
            ) {
                proof {
                    let old_key = self.entries@[best as int].record.work_id@;
                    let new_key = self.entries@[k as int].record.work_id@;
                    lemma_le_total(old_key, new_key);
                    lemma_le_reflexive(new_key);
                    assert forall|j: int| 0 <= j < k + 1 implies text_le(
                        new_key,
                        (#[trigger] self.entries@[j]).record.work_id@,
                    ) by {
                        if j < k {
                            lemma_le_transitive(new_key, old_key, self.entries@[j].record.work_id@);
                        }
                    }
                }
                best = k;
            }
            k += 1;
        }
        let entry = self.entries.remove(best);
        assert(entry == old(self)@[best as int]);
        Some(entry)
    }
}

/// The records of all chunks together.
pub open spec fn pool(chunks: Seq<Seq<InputRecord>>) -> Multiset<InputRecord>
    decreases chunks.len(),
{
    if chunks.len() == 0 {
        Multiset::empty()
    } else {
        pool(chunks.drop_last()).add(chunks.last().to_multiset())
    }
}

/// The number of records in all chunks together.
pub open spec fn pool_size(chunks: Seq<Seq<InputRecord>>) -> nat
    decreases chunks.len(),
{
    if chunks.len() == 0 {
        0
    } else {
        pool_size(chunks.drop_last()) + chunks.last().len()
    }
}

/// The records of each of a sequence of chunks.
pub open spec fn chunk_views(chunks: Seq<Vec<InputRecord>>) -> Seq<Seq<InputRecord>> {
    Seq::new(chunks.len(), |i: int| chunks[i]@)
}

/// Whether the keys of every chunk never go down.
pub open spec fn all_ascending(chunks: Seq<Seq<InputRecord>>) -> bool {
    forall|c: int| 0 <= c < chunks.len() ==> ascending(keys_of(#[trigger] chunks[c]))
}

/// The records that a sequence of heap entries holds.
pub open spec fn entry_records(entries: Seq<HeapEntry>) -> Seq<InputRecord> {
    Seq::new(entries.len(), |i: int| entries[i].record)
}

/// Whether the keys of `rest` never go up: its last record is the next.
spec fn descending(rest: Seq<InputRecord>) -> bool {
    forall|a: int, b: int|
        0 <= a <= b < rest.len() ==> text_le(
            (#[trigger] rest[b]).work_id@,
            (#[trigger] rest[a]).work_id@,
        )
}

proof fn lemma_take_last(records: Seq<InputRecord>)
    requires
        records.len() > 0,
    ensures
        records.to_multiset() == records.drop_last().to_multiset().insert(records.last()),
{
    to_multiset_build(records.drop_last(), records.last());
    assert(records.drop_last().push(records.last()) =~= records);
}

proof fn lemma_take_at(records: Seq<InputRecord>, at: int)
    requires
        0 <= at < records.len(),
    ensures
        records.to_multiset() == records.remove(at).to_multiset().insert(records[at]),
{
    broadcast use vstd::multiset::group_multiset_axioms;

    to_multiset_remove(records, at);
    records.to_multiset_ensures();
    assert(records.contains(records[at]));
    assert(records.to_multiset() =~= records.remove(at).to_multiset().insert(records[at]));
}

proof fn lemma_no_records(records: Seq<InputRecord>)
    requires
        records.len() == 0,
    ensures
        records.to_multiset() == Multiset::<InputRecord>::empty(),
{
    records.to_multiset_ensures();
    assert(records.to_multiset() =~= Multiset::empty());
}

proof fn lemma_pool_take(chunks: Seq<Seq<InputRecord>>, at: int)
    requires
        0 <= at < chunks.len(),
        chunks[at].len() > 0,
    ensures
        pool(chunks) == pool(chunks.update(at, chunks[at].drop_last())).insert(chunks[at].last()),
        pool_size(chunks) == pool_size(chunks.update(at, chunks[at].drop_last())) + 1,
    decreases chunks.len(),
{
    broadcast use vstd::multiset::group_multiset_axioms;

    let after = chunks.update(at, chunks[at].drop_last());
    if at == chunks.len() - 1 {
        assert(after.drop_last() =~= chunks.drop_last());
        assert(after.last() == chunks[at].drop_last());
        lemma_take_last(chunks[at]);
        assert(pool(chunks) =~= pool(after).insert(chunks[at].last()));
    } else {
        let front = chunks.drop_last();
        assert(front[at] == chunks[at]);
        lemma_pool_take(front, at);
        assert(after.drop_last() =~= front.update(at, chunks[at].drop_last()));
        assert(after.last() == chunks.last());
        assert(pool(chunks) =~= pool(after).insert(chunks[at].last()));
    }
}

proof fn lemma_pool_empty(chunks: Seq<Seq<InputRecord>>)
    requires
        forall|c: int| 0 <= c < chunks.len() ==> (#[trigger] chunks[c]).len() == 0,
    ensures
        pool(chunks) == Multiset::<InputRecord>::empty(),
        pool_size(chunks) == 0,
    decreases chunks.len(),
{
    broadcast use vstd::multiset::group_multiset_axioms;

    if chunks.len() > 0 {
        assert forall|c: int| 0 <= c < chunks.len() - 1 implies (#[trigger] chunks.drop_last()[c]).len()
            == 0 by {
            assert(chunks.drop_last()[c] == chunks[c]);
        }
        lemma_pool_empty(chunks.drop_last());
        assert(chunks.last() == chunks[chunks.len() - 1]);
        lemma_no_records(chunks.last());
        assert(pool(chunks) =~= Multiset::empty());
    }
}

proof fn lemma_pool_reversed(chunks: Seq<Seq<InputRecord>>, turned: Seq<Seq<InputRecord>>)
    requires
        chunks.len() == turned.len(),
        forall|c: int| 0 <= c < chunks.len() ==> #[trigger] turned[c] == chunks[c].reverse(),
    ensures
        pool(turned) == pool(chunks),
        pool_size(turned) == pool_size(chunks),
    decreases chunks.len(),
{
    if chunks.len() > 0 {
        assert forall|c: int| 0 <= c < chunks.len() - 1 implies #[trigger] turned.drop_last()[c]
            == chunks.drop_last()[c].reverse() by {
            assert(turned.drop_last()[c] == turned[c]);
        }
        lemma_pool_reversed(chunks.drop_last(), turned.drop_last());
        assert(turned.last() == turned[chunks.len() - 1]);
        assert(chunks.last() == chunks[chunks.len() - 1]);
        chunks.last().lemma_reverse_to_multiset();
    }
}

/// The records of `chunk` in the opposite order.
fn reversed(chunk: Vec<InputRecord>) -> (out: Vec<InputRecord>)
    ensures
        out@ == chunk@.reverse(),
{
    let mut chunk = chunk;
    let ghost all = chunk@;
    let mut out: Vec<InputRecord> = Vec::new();
    while chunk.len() > 0
        invariant
            chunk@ == all.take(chunk@.len() as int),
            chunk@.len() <= all.len(),
            out@ == all.skip(chunk@.len() as int).reverse(),
        decreases chunk.len(),
    {
        let ghost n = chunk@.len() as int;
        let record = chunk.pop().unwrap();
        out.push(record);
        assert(chunk@ =~= all.take(n - 1));
        assert(out@ =~= all.skip(n - 1).reverse());
    }
    assert(all.skip(0) =~= all);
    out
}

/// Takes the next record of the reader `index`.
fn next_from(readers: &mut Vec<Vec<InputRecord>>, index: usize) -> (next: Option<InputRecord>)
    requires
        index < old(readers)@.len(),
    ensures
        final(readers)@.len() == old(readers)@.len(),
        match next {
            Some(record) => old(readers)@[index as int]@.len() > 0 && record == old(readers)@[index as int]@.last() && chunk_views(final(readers)@) == chunk_views(
                old(readers)@,
            ).update(index as int, old(readers)@[index as int]@.drop_last()),
            None => old(readers)@[index as int]@.len() == 0 && chunk_views(final(readers)@)
                == chunk_views(old(readers)@),
        },
{
    let mut reader = readers.remove(index);
    let next = reader.pop();
    readers.insert(index, reader);
    proof {
        if next is Some {
            assert(chunk_views(readers@) =~= chunk_views(old(readers)@).update(
                index as int,
                old(readers)@[index as int]@.drop_last(),
            ));
        } else {
            assert(chunk_views(readers@) =~= chunk_views(old(readers)@));
        }
    }
    next
}

/// The readers before `n`.
spec fn readers_before(n: int) -> Set<int> {
    Set::new(|j: int| 0 <= j < n)
}

/// Whether the heap and the readers stand as the merge needs them. Each
/// entry is the only one of its reader, which is one of `covered`, and a
/// reader of `covered` without an entry is used up. Where the chunks are
/// sorted, each entry comes before what is left in its reader, and what is
/// left in each reader never goes up.
spec fn poised(
    heap: Seq<HeapEntry>,
    readers: Seq<Seq<InputRecord>>,
    covered: Set<int>,
    sorted: bool,
) -> bool {
    &&& forall|e: int|
        0 <= e < heap.len() ==> (#[trigger] heap[e]).reader_index < readers.len() && covered.contains(
            heap[e].reader_index as int,
        )
    &&& forall|e: int, f: int|
        0 <= e < f < heap.len() ==> (#[trigger] heap[e]).reader_index != (#[trigger] heap[f]).reader_index
    &&& sorted ==> forall|e: int, r: int|
        0 <= e < heap.len() && 0 <= r < readers[heap[e].reader_index as int].len() ==> text_le(
            (#[trigger] heap[e]).record.work_id@,
            (#[trigger] readers[heap[e].reader_index as int][r]).work_id@,
        )
    &&& sorted ==> forall|j: int| 0 <= j < readers.len() ==> descending(#[trigger] readers[j])
    &&& forall|j: int|
        0 <= j < readers.len() && covered.contains(j) && (#[trigger] readers[j]).len() > 0
            ==> exists|e: int| 0 <= e < heap.len() && (#[trigger] heap[e]).reader_index == j
}

/// Merges chunks into one sequence with the same records. Where the keys
/// of every chunk never go down, neither do those of the result.
pub fn merge_chunks(chunks: Vec<Vec<InputRecord>>) -> (out: Vec<InputRecord>)
    ensures
        out@.to_multiset() == pool(chunk_views(chunks@)),
        out@.len() == pool_size(chunk_views(chunks@)),
        all_ascending(chunk_views(chunks@)) ==> ascending(keys_of(out@)),
{
    let ghost given = chunk_views(chunks@);
    let ghost sorted = all_ascending(given);
    let mut readers: Vec<Vec<InputRecord>> = Vec::new();
    for chunk in it: chunks
        invariant
            chunk_views(it.seq()) == given,
            readers@.len() == it.index(),
            forall|c: int|
                0 <= c < readers@.len() ==> (#[trigger] chunk_views(readers@)[c]) == given[c].reverse(),
    {
        let ghost at = it.index() as int;
        let ghost before = readers@;
        assert(chunk_views(it.seq())[at] == chunk@);
        let turned = reversed(chunk);
        readers.push(turned);
        assert forall|c: int| 0 <= c < readers@.len() implies (#[trigger] chunk_views(readers@)[c])
            == given[c].reverse() by {
            if c < at {
                assert(readers@[c] == before[c]);
                assert(chunk_views(before)[c] == before[c]@);
            }
        }
    }
    proof {
        lemma_pool_reversed(given, chunk_views(readers@));
        if sorted {
            assert forall|j: int| 0 <= j < readers@.len() implies descending(
                #[trigger] chunk_views(readers@)[j],
            ) by {
                let rest = chunk_views(readers@)[j];
                assert(rest == given[j].reverse());
                assert forall|a: int, b: int| 0 <= a <= b < rest.len() implies text_le(
                    (#[trigger] rest[b]).work_id@,
                    (#[trigger] rest[a]).work_id@,
                ) by {
                    let n = given[j].len();
                    assert(rest[b] == given[j][n - 1 - b]);
                    assert(rest[a] == given[j][n - 1 - a]);
                    assert(keys_of(given[j])[n - 1 - b] == rest[b].work_id@);
                    assert(keys_of(given[j])[n - 1 - a] == rest[a].work_id@);
                }
            }
        }
    }
    let mut heap = MergeHeap::new();
    let mut j: usize = 0;
    proof {
        broadcast use vstd::multiset::group_multiset_axioms;

        assert(entry_records(heap@) =~= Seq::<InputRecord>::empty());
        lemma_no_records(entry_records(heap@));
        assert(entry_records(heap@).to_multiset().add(pool(chunk_views(readers@))) =~= pool(given));
    }
    while j < readers.len()
        invariant
            j <= readers@.len(),
            entry_records(heap@).to_multiset().add(pool(chunk_views(readers@))) == pool(given),
            heap@.len() + pool_size(chunk_views(readers@)) == pool_size(given),
            poised(heap@, chunk_views(readers@), readers_before(j as int), sorted),
        decreases readers.len() - j,
    {
        let ghost before = chunk_views(readers@);
        let ghost entries = heap@;
        match next_from(&mut readers, j) {
            Some(record) => {
                heap.push(record, j);
                proof {
                    broadcast use vstd::multiset::group_multiset_axioms;

                    let rest = before[j as int];
                    let after = chunk_views(readers@);
                    lemma_pool_take(before, j as int);
                    assert(entry_records(heap@) =~= entry_records(entries).push(record));
                    to_multiset_build(entry_records(entries), record);
                    assert(entry_records(heap@).to_multiset().add(pool(after)) =~= pool(given));
                    lemma_poised_push(
                        entries,
                        before,
                        j as int,
                        record,
                        readers_before(j as int),
                        sorted,
                    );
                    assert(readers_before(j as int).insert(j as int) =~= readers_before(j + 1));
                }
            },
            None => {
                proof {
                    lemma_poised_used_up(heap@, before, j as int, readers_before(j as int), sorted);
                    assert(readers_before(j as int).insert(j as int) =~= readers_before(j + 1));
                }
            },
        }
        j += 1;
    }
    let mut out: Vec<InputRecord> = Vec::new();
    proof {
        broadcast use vstd::multiset::group_multiset_axioms;

        lemma_no_records(out@);
        assert(out@.to_multiset().add(entry_records(heap@).to_multiset()).add(
            pool(chunk_views(readers@)),
        ) =~= pool(given));
    }
    loop
        invariant
            out@.to_multiset().add(entry_records(heap@).to_multiset()).add(
                pool(chunk_views(readers@)),
            ) == pool(given),
            out@.len() + heap@.len() + pool_size(chunk_views(readers@)) == pool_size(given),
            poised(heap@, chunk_views(readers@), readers_before(readers@.len() as int), sorted),
            sorted ==> ascending(keys_of(out@)),
            sorted ==> (out@.len() > 0 ==> least_among(out@.last().work_id@, heap@)),
        ensures
            heap@.len() == 0,
        decreases heap@.len() + pool_size(chunk_views(readers@)),
    {
        let ghost entries = heap@;
        let ghost before = chunk_views(readers@);
        let ghost written = out@;
        let entry = match heap.pop() {
            Some(entry) => entry,
            None => {
                break ;
            },
        };
        let ghost at = choose|i: int|
            0 <= i < entries.len() && entry == entries[i] && heap@ == entries.remove(i);
        let ghost taken = heap@;
        let HeapEntry { record, reader_index } = entry;
        assert(reader_index < readers@.len());
        out.push(record);
        proof {
            broadcast use vstd::multiset::group_multiset_axioms;

            to_multiset_build(written, record);
            assert(entry_records(entries).remove(at) =~= entry_records(taken));
            lemma_take_at(entry_records(entries), at);
            assert(entry_records(entries)[at] == record);
            assert(out@.to_multiset().add(entry_records(taken).to_multiset()) =~= written.to_multiset().add(
                entry_records(entries).to_multiset(),
            ));
            lemma_poised_remove(entries, before, at, readers_before(readers@.len() as int), sorted);
            if sorted {
                lemma_written_push(written, record, entries);
                assert forall|e: int| 0 <= e < taken.len() implies text_le(
                    record.work_id@,
                    (#[trigger] taken[e]).record.work_id@,
                ) by {
                    if e < at {
                        assert(taken[e] == entries[e]);
                    } else {
                        assert(taken[e] == entries[e + 1]);
                    }
                }
            }
        }
        match next_from(&mut readers, reader_index) {
            Some(next) => {
                heap.push(next, reader_index);
                proof {
                    broadcast use vstd::multiset::group_multiset_axioms;

                    let rest = before[reader_index as int];
                    let after = chunk_views(readers@);
                    lemma_pool_take(before, reader_index as int);
                    assert(entry_records(heap@) =~= entry_records(taken).push(next));
                    to_multiset_build(entry_records(taken), next);
                    assert(out@.to_multiset().add(entry_records(heap@).to_multiset()).add(
                        pool(after),
                    ) =~= pool(given));
                    lemma_poised_push(
                        taken,
                        before,
                        reader_index as int,
                        next,
                        readers_before(before.len() as int).remove(reader_index as int),
                        sorted,
                    );
                    assert(readers_before(before.len() as int).remove(reader_index as int).insert(
                        reader_index as int,
                    ) =~= readers_before(readers@.len() as int));
                    if sorted {
                        assert(text_le(record.work_id@, next.work_id@)) by {
                            assert(entries[at].reader_index == reader_index);
                            assert(before[reader_index as int][rest.len() - 1] == next);
                        }
                        assert forall|e: int| 0 <= e < heap@.len() implies text_le(
                            record.work_id@,
                            (#[trigger] heap@[e]).record.work_id@,
                        ) by {
                            if e < taken.len() {
                                assert(heap@[e] == taken[e]);
                            }
                        }
                    }
                }
            },
            None => {
                proof {
                    lemma_poised_used_up(
                        taken,
                        before,
                        reader_index as int,
                        readers_before(before.len() as int).remove(reader_index as int),
                        sorted,
                    );
                    assert(readers_before(before.len() as int).remove(reader_index as int).insert(
                        reader_index as int,
                    ) =~= readers_before(readers@.len() as int));
                }
            },
        }
    }
    proof {
        broadcast use vstd::multiset::group_multiset_axioms;

        assert(entry_records(heap@) =~= Seq::<InputRecord>::empty());
        lemma_no_records(entry_records(heap@));
        assert forall|c: int| 0 <= c < readers@.len() implies (#[trigger] chunk_views(
            readers@,
        )[c]).len() == 0 by {
            if chunk_views(readers@)[c].len() > 0 {
                assert(readers_before(readers@.len() as int).contains(c));
                let e = choose|e: int|
                    0 <= e < heap@.len() && (#[trigger] heap@[e]).reader_index == c;
                assert(false);
            }
        }
        lemma_pool_empty(chunk_views(readers@));
    }
    out
}

proof fn lemma_written_push(written: Seq<InputRecord>, record: InputRecord, entries: Seq<HeapEntry>)
    requires
        ascending(keys_of(written)),
        written.len() > 0 ==> least_among(written.last().work_id@, entries),
        exists|i: int| 0 <= i < entries.len() && (#[trigger] entries[i]).record == record,
    ensures
        ascending(keys_of(written.push(record))),
{
    let after = keys_of(written.push(record));
    let i0 = choose|i: int| 0 <= i < entries.len() && (#[trigger] entries[i]).record == record;
    assert forall|i: int, j: int| 0 <= i <= j < after.len() implies text_le(
        #[trigger] after[i],
        #[trigger] after[j],
    ) by {
        if j < written.len() {
            assert(after[i] == keys_of(written)[i]);
            assert(after[j] == keys_of(written)[j]);
        } else if i < written.len() {
            let last = written.len() - 1;
            assert(after[i] == keys_of(written)[i]);
            assert(keys_of(written)[last] == written.last().work_id@);
            assert(text_le(keys_of(written)[i], keys_of(written)[last]));
            assert(text_le(written.last().work_id@, entries[i0].record.work_id@));
            lemma_le_transitive(after[i], written.last().work_id@, record.work_id@);
        } else {
            lemma_le_reflexive(record.work_id@);
        }
    }
}

proof fn lemma_poised_push(
    heap: Seq<HeapEntry>,
    readers: Seq<Seq<InputRecord>>,
    index: int,
    record: InputRecord,
    covered: Set<int>,
    sorted: bool,
)
    requires
        0 <= index < readers.len(),
        index <= usize::MAX,
        readers[index].len() > 0,
        record == readers[index].last(),
        poised(heap, readers, covered, sorted),
        !covered.contains(index),
    ensures
        poised(
            heap.push(HeapEntry { record, reader_index: index as usize }),
            readers.update(index, readers[index].drop_last()),
            covered.insert(index),
            sorted,
        ),
{
    let entry = HeapEntry { record, reader_index: index as usize };
    let grown = heap.push(entry);
    let after = readers.update(index, readers[index].drop_last());
    let rest = readers[index];
    assert forall|e: int| 0 <= e < grown.len() implies (#[trigger] grown[e]).reader_index
        < after.len() && covered.insert(index).contains(grown[e].reader_index as int) by {
        if e < heap.len() {
            assert(grown[e] == heap[e]);
        }
    }
    assert forall|e: int, f: int| 0 <= e < f < grown.len() implies (#[trigger] grown[e]).reader_index
        != (#[trigger] grown[f]).reader_index by {
        assert(grown[e] == heap[e]);
        if f < heap.len() {
            assert(grown[f] == heap[f]);
        }
    }
    if sorted {
        assert(descending(rest));
        assert forall|e: int, r: int|
            0 <= e < grown.len() && 0 <= r < after[grown[e].reader_index as int].len() implies text_le(
            (#[trigger] grown[e]).record.work_id@,
            (#[trigger] after[grown[e].reader_index as int][r]).work_id@,
        ) by {
            if e < heap.len() {
                assert(grown[e] == heap[e]);
                assert(after[heap[e].reader_index as int] == readers[heap[e].reader_index as int]);
            } else {
                assert(after[index][r] == rest[r]);
                assert(text_le(rest[rest.len() - 1].work_id@, rest[r].work_id@));
            }
        }
        assert forall|j: int| 0 <= j < after.len() implies descending(#[trigger] after[j]) by {
            if j == index {
                assert forall|a: int, b: int| 0 <= a <= b < after[j].len() implies text_le(
                    (#[trigger] after[j][b]).work_id@,
                    (#[trigger] after[j][a]).work_id@,
                ) by {
                    assert(after[j][a] == rest[a]);
                    assert(after[j][b] == rest[b]);
                }
            } else {
                assert(after[j] == readers[j]);
            }
        }
    }
    assert forall|j: int|
        0 <= j < after.len() && covered.insert(index).contains(j) && (#[trigger] after[j]).len()
            > 0 implies exists|e: int|
        0 <= e < grown.len() && (#[trigger] grown[e]).reader_index == j by {
        if j == index {
            assert(grown[heap.len() as int].reader_index == j);
        } else {
            assert(after[j] == readers[j]);
            let e0 = choose|e: int| 0 <= e < heap.len() && (#[trigger] heap[e]).reader_index == j;
            assert(grown[e0] == heap[e0]);
        }
    }
}

proof fn lemma_poised_remove(
    heap: Seq<HeapEntry>,
    readers: Seq<Seq<InputRecord>>,
    at: int,
    covered: Set<int>,
    sorted: bool,
)
    requires
        0 <= at < heap.len(),
        poised(heap, readers, covered, sorted),
    ensures
        poised(heap.remove(at), readers, covered.remove(heap[at].reader_index as int), sorted),
{
    let taken = heap.remove(at);
    let gone = heap[at].reader_index as int;
    let from = |e: int|
        if e < at {
            e
        } else {
            e + 1
        };
    assert forall|e: int| 0 <= e < taken.len() implies #[trigger] taken[e] == heap[from(e)] by {}
    assert forall|e: int| 0 <= e < taken.len() implies (#[trigger] taken[e]).reader_index
        < readers.len() && covered.remove(gone).contains(taken[e].reader_index as int) by {
        assert(taken[e] == heap[from(e)]);
    }
    assert forall|e: int, f: int| 0 <= e < f < taken.len() implies (#[trigger] taken[e]).reader_index
        != (#[trigger] taken[f]).reader_index by {
        assert(taken[e] == heap[from(e)]);
        assert(taken[f] == heap[from(f)]);
    }
    if sorted {
        assert forall|e: int, r: int|
            0 <= e < taken.len() && 0 <= r < readers[taken[e].reader_index as int].len() implies text_le(
            (#[trigger] taken[e]).record.work_id@,
            (#[trigger] readers[taken[e].reader_index as int][r]).work_id@,
        ) by {
            assert(taken[e] == heap[from(e)]);
        }
    }
    assert forall|j: int|
        0 <= j < readers.len() && covered.remove(gone).contains(j) && (#[trigger] readers[j]).len()
            > 0 implies exists|e: int|
        0 <= e < taken.len() && (#[trigger] taken[e]).reader_index == j by {
        let e0 = choose|e: int| 0 <= e < heap.len() && (#[trigger] heap[e]).reader_index == j;
        assert(e0 != at);
        if e0 < at {
            assert(taken[e0] == heap[e0]);
        } else {
            assert(taken[e0 - 1] == heap[e0]);
        }
    }
}

proof fn lemma_poised_used_up(
    heap: Seq<HeapEntry>,
    readers: Seq<Seq<InputRecord>>,
    index: int,
    covered: Set<int>,
    sorted: bool,
)
    requires
        0 <= index < readers.len(),
        readers[index].len() == 0,
        poised(heap, readers, covered, sorted),
    ensures
        poised(heap, readers, covered.insert(index), sorted),
{
}

} // verus!
