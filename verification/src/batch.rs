//! Batching of rows on their way to the writer.

use vstd::prelude::*;

verus! {

/// What is left pending after `rows` were added to `pending`: it is emptied
/// each time it reaches `size` rows.
pub open spec fn pending_after<T>(pending: Seq<T>, rows: Seq<T>, size: usize) -> Seq<T>
    decreases rows.len(),
{
    if rows.len() == 0 {
        pending
    } else {
        let grown = pending_after(pending, rows.drop_last(), size).push(rows.last());
        if grown.len() >= size {
            Seq::empty()
        } else {
            grown
        }
    }
}

/// The batches released while `rows` were added to `pending`, in order.
pub open spec fn released<T>(pending: Seq<T>, rows: Seq<T>, size: usize) -> Seq<Seq<T>>
    decreases rows.len(),
{
    if rows.len() == 0 {
        Seq::empty()
    } else {
        let before = released(pending, rows.drop_last(), size);
        let grown = pending_after(pending, rows.drop_last(), size).push(rows.last());
        if grown.len() >= size {
            before.push(grown)
        } else {
            before
        }
    }
}

/// The rows of `batches`, one batch after the other.
pub open spec fn flattened<T>(batches: Seq<Seq<T>>) -> Seq<T>
    decreases batches.len(),
{
    if batches.len() == 0 {
        Seq::empty()
    } else {
        flattened(batches.drop_last()) + batches.last()
    }
}

/// Batching loses no row and keeps the order: what was pending, then the
/// rows added, is what was released, then what is pending now.
pub proof fn lemma_batching_keeps_rows<T>(pending: Seq<T>, rows: Seq<T>, size: usize)
    ensures
        flattened(released(pending, rows, size)) + pending_after(pending, rows, size) == pending
            + rows,
    decreases rows.len(),
{
    if rows.len() == 0 {
        assert(pending + rows =~= pending);
        assert(Seq::<T>::empty() + pending =~= pending);
    } else {
        let front = rows.drop_last();
        lemma_batching_keeps_rows(pending, front, size);
        let before = released(pending, front, size);
        let grown = pending_after(pending, front, size).push(rows.last());
        assert(pending + rows =~= (pending + front).push(rows.last()));
        if grown.len() >= size {
            assert(before.push(grown).drop_last() =~= before);
            assert(flattened(before) + grown + Seq::<T>::empty() =~= (flattened(before)
                + pending_after(pending, front, size)).push(rows.last()));
        } else {
            assert(flattened(before) + grown =~= (flattened(before) + pending_after(
                pending,
                front,
                size,
            )).push(rows.last()));
        }
    }
}

/// The number of rows in a full batch: the batch size, and one where the
/// size is nought.
pub open spec fn full_batch(size: usize) -> nat {
    if size == 0 {
        1
    } else {
        size as nat
    }
}

/// Every batch released is full, and fewer rows than a full batch stay
/// pending, where fewer were pending before.
pub proof fn lemma_batches_are_full<T>(pending: Seq<T>, rows: Seq<T>, size: usize)
    requires
        pending.len() < full_batch(size),
    ensures
        pending_after(pending, rows, size).len() < full_batch(size),
        forall|i: int|
            0 <= i < released(pending, rows, size).len() ==> (#[trigger] released(
                pending,
                rows,
                size,
            )[i]).len() == full_batch(size),
    decreases rows.len(),
{
    if rows.len() > 0 {
        lemma_batches_are_full(pending, rows.drop_last(), size);
        let before = released(pending, rows.drop_last(), size);
        let all = released(pending, rows, size);
        assert forall|i: int| 0 <= i < all.len() implies (#[trigger] all[i]).len() == full_batch(
            size,
        ) by {
            if i < before.len() {
                assert(all[i] == before[i]);
            }
        }
    }
}

/// The views of a sequence of batches.
pub open spec fn batch_views<T>(batches: Seq<Vec<T>>) -> Seq<Seq<T>> {
    Seq::new(batches.len(), |i: int| batches[i]@)
}

/// Rows collected until a batch is full.
#[derive(Debug)]
pub struct Batcher<T> {
    buffer: Vec<T>,
    batch_size: usize,
}

impl<T> Batcher<T> {
    /// The rows that wait for their batch to fill.
    pub closed spec fn pending(&self) -> Seq<T> {
        self.buffer@
    }

    /// The number of rows at which a batch is released.
    pub closed spec fn size(&self) -> usize {
        self.batch_size
    }

    /// A batcher that releases a batch as soon as it holds `batch_size` rows.
    pub fn new(batch_size: usize) -> (batcher: Batcher<T>)
        ensures
            batcher.pending() == Seq::<T>::empty(),
            batcher.size() == batch_size,
    {
        Batcher { buffer: Vec::new(), batch_size }
    }

    /// Adds one row; hands out the batch if the row filled it.
    pub fn push(&mut self, row: T) -> (full: Option<Vec<T>>)
        ensures
            final(self).size() == old(self).size(),
            old(self).pending().len() + 1 >= old(self).size() ==> final(self).pending().len() == 0
                && full is Some && full->0@ == old(self).pending().push(row),
            old(self).pending().len() + 1 < old(self).size() ==> full is None
                && final(self).pending() == old(self).pending().push(row),
    {
        self.buffer.push(row);
        if self.buffer.len() >= self.batch_size {
            let mut batch: Vec<T> = Vec::new();
            std::mem::swap(&mut self.buffer, &mut batch);
            Some(batch)
        } else {
            None
        }
    }

    /// Adds `rows` one by one; hands out the batches that they filled.
    pub fn extend(&mut self, rows: Vec<T>) -> (full: Vec<Vec<T>>)
        ensures
            final(self).size() == old(self).size(),
            final(self).pending() == pending_after(old(self).pending(), rows@, old(self).size()),
            batch_views(full@) == released(old(self).pending(), rows@, old(self).size()),
    {
        let mut full: Vec<Vec<T>> = Vec::new();
        let ghost all = rows@;
        assert(batch_views(full@) =~= Seq::<Seq<T>>::empty());
        for row in it: rows
            invariant
                it.seq() == all,
                self.size() == old(self).size(),
                self.pending() == pending_after(
                    old(self).pending(),
                    all.take(it.index() as int),
                    old(self).size(),
                ),
                batch_views(full@) == released(
                    old(self).pending(),
                    all.take(it.index() as int),
                    old(self).size(),
                ),
        {
            proof {
                let next = all.take(it.index() + 1);
                assert(next.drop_last() =~= all.take(it.index() as int));
                assert(next.last() == row);
            }
            self.buffer.push(row);
            if self.buffer.len() >= self.batch_size {
                let mut batch: Vec<T> = Vec::new();
                std::mem::swap(&mut self.buffer, &mut batch);
                let ghost before = full@;
                full.push(batch);
                assert(batch_views(full@) =~= batch_views(before).push(batch@));
            }
        }
        assert(all.take(all.len() as int) =~= all);
        full
    }

    /// Ends the run; hands out the rows that still wait, if there are any.
    pub fn finish(self) -> (rest: Option<Vec<T>>)
        ensures
            match rest {
                Some(batch) => batch@ == self.pending() && batch@.len() > 0,
                None => self.pending().len() == 0,
            },
    {
        if self.buffer.len() > 0 {
            Some(self.buffer)
        } else {
            None
        }
    }
}

} // verus!
