//! The blocks of the external sort: the input is read in pieces, and every
//! block that is handed on holds whole lines only.

use vstd::prelude::*;
use crate::sort::BLOCK_SIZE;

verus! {

/// The line feed.
pub const NEWLINE: u8 = 10;

/// The position of the last line feed in `bytes`.
pub open spec fn last_newline(bytes: Seq<u8>) -> Option<int>
    decreases bytes.len(),
{
    if bytes.len() == 0 {
        None
    } else if bytes.last() == NEWLINE {
        Some(bytes.len() - 1)
    } else {
        last_newline(bytes.drop_last())
    }
}

/// The whole lines at the start of `bytes`: everything up to its last line
/// feed.
pub open spec fn whole_lines(bytes: Seq<u8>) -> Seq<u8> {
    match last_newline(bytes) {
        Some(i) => bytes.take(i + 1),
        None => Seq::empty(),
    }
}

/// What follows the last line feed of `bytes`: the start of a line that is
/// not whole yet.
pub open spec fn open_line(bytes: Seq<u8>) -> Seq<u8> {
    match last_newline(bytes) {
        Some(i) => bytes.skip(i + 1),
        None => bytes,
    }
}

/// The last line feed is one, it is in range, and none follows it.
pub proof fn lemma_last_newline(bytes: Seq<u8>)
    ensures
        match last_newline(bytes) {
            Some(i) => 0 <= i < bytes.len() && bytes[i] == NEWLINE && forall|k: int|
                i < k < bytes.len() ==> bytes[k] != NEWLINE,
            None => forall|k: int| 0 <= k < bytes.len() ==> bytes[k] != NEWLINE,
        },
    decreases bytes.len(),
{
    if bytes.len() > 0 && bytes.last() != NEWLINE {
        lemma_last_newline(bytes.drop_last());
        assert forall|k: int| 0 <= k < bytes.len() - 1 implies bytes.drop_last()[k]
            == bytes[k] by {}
    }
}

/// Cutting at the last line feed loses nothing.
pub proof fn lemma_lines_and_rest(bytes: Seq<u8>)
    ensures
        whole_lines(bytes) + open_line(bytes) == bytes,
        whole_lines(bytes).len() > 0 ==> whole_lines(bytes).last() == NEWLINE,
        last_newline(open_line(bytes)) is None,
{
    lemma_last_newline(bytes);
    lemma_last_newline(open_line(bytes));
    match last_newline(bytes) {
        Some(i) => {
            assert(bytes.take(i + 1) + bytes.skip(i + 1) =~= bytes);
            if last_newline(open_line(bytes)) is Some {
                let k = last_newline(open_line(bytes))->0;
                assert(open_line(bytes)[k] == bytes[i + 1 + k]);
            }
        },
        None => {
            assert(Seq::<u8>::empty() + bytes =~= bytes);
        },
    }
}

/// A block of whole lines.
#[derive(Debug)]
pub struct Block {
    pub bytes: Vec<u8>,
    /// Whether the block begins with the header line of the file.
    pub has_header: bool,
}

/// The state of the reading: the start of the line that is not whole yet,
/// and whether a block was handed on already.
#[derive(Debug)]
pub struct BlockSplitter {
    leftover: Vec<u8>,
    is_first_block: bool,
}

impl BlockSplitter {
    /// The bytes that were read and not handed on yet.
    pub closed spec fn carried(&self) -> Seq<u8> {
        self.leftover@
    }

    /// Whether no block was handed on yet.
    pub closed spec fn at_start(&self) -> bool {
        self.is_first_block
    }

    /// The state before anything was read.
    pub fn new() -> (state: BlockSplitter)
        ensures
            state.carried() == Seq::<u8>::empty(),
            state.at_start(),
    {
        BlockSplitter { leftover: Vec::new(), is_first_block: true }
    }

    /// The number of bytes to read next: what a block still has room for,
    /// and at least one.
    pub fn next_read(&self) -> (n: usize)
        ensures
            n == if self.carried().len() < BLOCK_SIZE {
                BLOCK_SIZE - self.carried().len()
            } else {
                1
            },
    {
        if self.leftover.len() < BLOCK_SIZE {
            BLOCK_SIZE - self.leftover.len()
        } else {
            1
        }
    }

    /// Takes the bytes that were read. Hands on the whole lines of what is
    /// there now, if there are any, and keeps the rest for the next block.
    pub fn feed(&mut self, bytes: &Vec<u8>) -> (block: Option<Block>)
        ensures
            final(self).carried() == open_line(old(self).carried() + bytes@),
            match block {
                Some(b) => b.bytes@ == whole_lines(old(self).carried() + bytes@) && b.bytes@.len()
                    > 0 && b.has_header == old(self).at_start() && !final(self).at_start(),
                None => whole_lines(old(self).carried() + bytes@).len() == 0 && final(self).at_start() == old(self).at_start(),
            },
    {
        let ghost all = self.leftover@ + bytes@;
        let mut buffer: Vec<u8> = Vec::new();
        std::mem::swap(&mut self.leftover, &mut buffer);
        let mut i: usize = 0;
        while i < bytes.len()
            invariant
                i <= bytes.len(),
                buffer@ == old(self).leftover@ + bytes@.take(i as int),
            decreases bytes.len() - i,
        {
            buffer.push(bytes[i]);
            assert(bytes@.take(i + 1) =~= bytes@.take(i as int).push(bytes@[i as int]));
            assert(buffer@ =~= old(self).leftover@ + bytes@.take(i + 1));
            i += 1;
        }
        assert(bytes@.take(bytes.len() as int) =~= bytes@);
        assert(buffer@ == all);
        let mut cut: usize = buffer.len();
        assert(all.take(cut as int) =~= all);
        while cut > 0 && buffer[cut - 1] != NEWLINE
            invariant
                cut <= buffer.len(),
                buffer@ == all,
                last_newline(all) == last_newline(all.take(cut as int)),
            decreases cut,
        {
            proof {
                assert(all.take(cut as int).drop_last() =~= all.take(cut - 1));
            }
            cut -= 1;
        }
        proof {
            assert(all.take(all.len() as int) =~= all);
            if cut > 0 {
                assert(all.take(cut as int).last() == NEWLINE);
            }
        }
        if cut == 0 {
            self.leftover = buffer;
            return None;
        }
        let rest = buffer.split_off(cut);
        self.leftover = rest;
        let has_header = self.is_first_block;
        self.is_first_block = false;
        Some(Block { bytes: buffer, has_header })
    }

    /// Ends the reading. Hands on what is left, the last line of a file that
    /// does not end with a line feed, if there is anything.
    pub fn finish(self) -> (block: Option<Block>)
        ensures
            match block {
                Some(b) => b.bytes@ == self.carried() && b.bytes@.len() > 0 && b.has_header
                    == self.at_start(),
                None => self.carried().len() == 0,
            },
    {
        if self.leftover.len() > 0 {
            Some(Block { bytes: self.leftover, has_header: self.is_first_block })
        } else {
            None
        }
    }
}

} // verus!
