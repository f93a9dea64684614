//! The open-file cache of the sharded writer: a bounded set of open files,
//! least recently used last, and the set of files that have their header.

use vstd::prelude::*;
use crate::counts::{lemma_with_key, lemma_with_key_keeps, with_key, TextSet};
use crate::text::same_text;

verus! {

/// An open output file: the grouping key it belongs to, and the handle
/// that writes to it.
pub struct OpenFile<H> {
    pub key: String,
    pub handle: H,
}

/// What is to be done before rows can be written to the file of a key.
pub enum Admission<H> {
    /// The file is open.
    Ready,
    /// The file is to be opened, and to get the header where `write_header`
    /// says so; the files in `closed` were closed to make room, and are to
    /// be flushed first.
    Open { closed: Vec<OpenFile<H>>, write_header: bool },
}

/// The open files of the sharded writer, most recently used first.
pub struct OrganizedOutput<H> {
    max_open_files: usize,
    open: Vec<OpenFile<H>>,
    created_files: TextSet,
}

/// `s` with the element at `i` moved to the front.
pub open spec fn promoted<T>(s: Seq<T>, i: int) -> Seq<T> {
    seq![s[i]] + s.remove(i)
}

/// The number of files that stay open when room is made for one more.
pub open spec fn kept(open: nat, limit: usize) -> nat {
    if open >= limit && limit >= 1 {
        (limit - 1) as nat
    } else if open >= limit {
        0
    } else {
        open
    }
}

/// The keys of a sequence of open files.
pub open spec fn file_keys<H>(files: Seq<OpenFile<H>>) -> Seq<Seq<char>> {
    Seq::new(files.len(), |i: int| files[i].key@)
}

/// The keys that have their header after files for `keys` were opened one
/// after the other, each written with the header where it had none.
pub open spec fn created_after(created: Seq<Seq<char>>, keys: Seq<Seq<char>>) -> Seq<Seq<char>>
    decreases keys.len(),
{
    if keys.len() == 0 {
        created
    } else {
        with_key(created_after(created, keys.drop_last()), keys.last())
    }
}

/// How often the file `key` gets the header over those openings.
pub open spec fn headers_written(
    created: Seq<Seq<char>>,
    keys: Seq<Seq<char>>,
    key: Seq<char>,
) -> nat
    decreases keys.len(),
{
    if keys.len() == 0 {
        0
    } else {
        let earlier = headers_written(created, keys.drop_last(), key);
        if keys.last() == key && !created_after(created, keys.drop_last()).contains(key) {
            earlier + 1
        } else {
            earlier
        }
    }
}

/// However often a file is closed and opened again, it gets its header
/// once: at its first opening, unless it had it before.
pub proof fn lemma_header_once(created: Seq<Seq<char>>, keys: Seq<Seq<char>>, key: Seq<char>)
    ensures
        created_after(created, keys).contains(key) == (created.contains(key) || keys.contains(key)),
        headers_written(created, keys, key) == if keys.contains(key) && !created.contains(key) {
            1nat
        } else {
            0nat
        },
    decreases keys.len(),
{
    if keys.len() > 0 {
        let front = keys.drop_last();
        let before = created_after(created, front);
        lemma_header_once(created, front, key);
        lemma_with_key_keeps(before, keys.last(), key);
        if front.contains(key) {
            let i = choose|i: int| 0 <= i < front.len() && front[i] == key;
            assert(keys[i] == key);
        }
        if keys.contains(key) && keys.last() != key {
            let i = choose|i: int| 0 <= i < keys.len() && keys[i] == key;
            assert(front[i] == key);
        }
        assert(keys[keys.len() - 1] == keys.last());
        if with_key(before, keys.last()).contains(key) && !before.contains(key) {
            let after = with_key(before, keys.last());
            let i = choose|i: int| 0 <= i < after.len() && after[i] == key;
            if i < before.len() {
                assert(before[i] == key);
            }
        }
    }
}

impl<H> OrganizedOutput<H> {
    /// The keys of the open files, most recently used first.
    pub closed spec fn open_keys(&self) -> Seq<Seq<char>> {
        file_keys(self.open@)
    }

    /// The open files, most recently used first.
    pub closed spec fn files(&self) -> Seq<OpenFile<H>> {
        self.open@
    }

    /// The keys of the files that have their header, in order of creation.
    pub closed spec fn created(&self) -> Seq<Seq<char>> {
        self.created_files@
    }

    /// The largest number of files that are open at once.
    pub closed spec fn limit(&self) -> usize {
        self.max_open_files
    }

    /// What holds of the cache at all times: the open keys are the keys of
    /// the open files, in their order; no file is open twice; no more files
    /// are open than the limit allows; and the limit is at least 1.
    pub open spec fn bounded(&self) -> bool {
        &&& self.open_keys() == file_keys(self.files())
        &&& self.limit() >= 1
        &&& self.open_keys().no_duplicates()
        &&& self.open_keys().len() <= self.limit()
        &&& self.open_keys().len() == self.files().len()
        &&& self.created().no_duplicates()
    }

    /// A cache without open files that keeps at most `max_open_files` files
    /// open, and at least one.
    pub fn new(max_open_files: usize) -> (out: OrganizedOutput<H>)
        ensures
            out.limit() == if max_open_files >= 1 {
                max_open_files
            } else {
                1
            },
            out.open_keys() == Seq::<Seq<char>>::empty(),
            out.created() == Seq::<Seq<char>>::empty(),
            out.bounded(),
    {
        let limit = if max_open_files >= 1 {
            max_open_files
        } else {
            1
        };
        let open: Vec<OpenFile<H>> = Vec::new();
        assert(file_keys(open@) =~= Seq::empty());
        OrganizedOutput { max_open_files: limit, open, created_files: TextSet::new() }
    }

    fn find(&self, key: &str) -> (r: Option<usize>)
        ensures
            match r {
                Some(i) => i < self.open_keys().len() && self.open_keys()[i as int] == key@,
                None => !self.open_keys().contains(key@),
            },
    {
        let mut i: usize = 0;
        while i < self.open.len()
            invariant
                i <= self.open.len(),
                forall|k: int| 0 <= k < i ==> self.open_keys()[k] != key@,
            decreases self.open.len() - i,
        {
            if same_text(self.open[i].key.as_str(), key) {
                return Some(i);
            }
            i += 1;
        }
        None
    }

    /// Whether the file of `key` is open.
    pub fn is_open(&self, key: &str) -> (r: bool)
        ensures
            r == self.open_keys().contains(key@),
    {
        self.find(key).is_some()
    }

    /// The number of open files.
    pub fn open_count(&self) -> (n: usize)
        requires
            self.bounded(),
        ensures
            n == self.open_keys().len(),
            n <= self.limit(),
    {
        self.open.len()
    }

    /// The key of the open file at `index`, most recently used first.
    pub fn open_key(&self, index: usize) -> (key: &String)
        requires
            index < self.open_keys().len(),
        ensures
            key@ == self.open_keys()[index as int],
    {
        &self.open[index].key
    }

    /// The handle of the open file of `key`.
    pub fn handle(&self, key: &str) -> (r: Option<&H>)
        ensures
            r is Some == self.open_keys().contains(key@),
            r matches Some(h) ==> exists|i: int|
                0 <= i < self.files().len() && self.open_keys()[i] == key@ && *h
                    == self.files()[i].handle,
    {
        match self.find(key) {
            Some(i) => Some(&self.open[i].handle),
            None => None,
        }
    }

    /// Marks the file of `key` as the most recently used. Says whether it is
    /// open; a file that is not leaves the cache as it is.
    pub fn promote(&mut self, key: &str) -> (open: bool)
        requires
            old(self).bounded(),
        ensures
            open == old(self).open_keys().contains(key@),
            final(self).bounded(),
            final(self).limit() == old(self).limit(),
            final(self).created() == old(self).created(),
            open ==> final(self).files() == promoted(
                old(self).files(),
                old(self).open_keys().index_of(key@),
            ),
            open ==> final(self).open_keys() == promoted(
                old(self).open_keys(),
                old(self).open_keys().index_of(key@),
            ) && final(self).open_keys()[0] == key@,
            !open ==> final(self).files() == old(self).files(),
    {
        match self.find(key) {
            Some(i) => {
                let ghost before = self.open@;
                proof {
                    let at = file_keys(before).index_of(key@);
                    assert(file_keys(before)[i as int] == key@);
                    assert(file_keys(before)[at] == key@);
                    assert(at == i);
                }
                let file = self.open.remove(i);
                self.open.insert(0, file);
                proof {
                    assert(self.open@ =~= promoted(before, i as int));
                    let after = file_keys(self.open@);
                    assert forall|a: int, b: int|
                        0 <= a < after.len() && 0 <= b < after.len() && a != b implies after[a]
                        != after[b] by {
                        let from = |k: int|
                            if k == 0 {
                                i as int
                            } else if k <= i {
                                k - 1
                            } else {
                                k
                            };
                        assert(after[a] == file_keys(before)[from(a)]);
                        assert(after[b] == file_keys(before)[from(b)]);
                    }
                }
                true
            },
            None => false,
        }
    }

    /// Closes files, least recently used first, until one more can be
    /// opened. Hands out the files that were closed, in the order of their
    /// closing, to be flushed.
    pub fn make_room(&mut self) -> (closed: Vec<OpenFile<H>>)
        requires
            old(self).bounded(),
        ensures
            final(self).bounded(),
            final(self).open_keys().len() < final(self).limit(),
            final(self).limit() == old(self).limit(),
            final(self).created() == old(self).created(),
            final(self).files() == old(self).files().take(
                kept(old(self).files().len(), old(self).limit()) as int,
            ),
            closed@ == old(self).files().skip(
                kept(old(self).files().len(), old(self).limit()) as int,
            ).reverse(),
    {
        let ghost before = self.open@;
        let mut closed: Vec<OpenFile<H>> = Vec::new();
        assert(before.skip(before.len() as int).reverse() =~= closed@);
        assert(before.take(before.len() as int) =~= before);
        while self.open.len() >= self.max_open_files
            invariant
                self.created_files@.no_duplicates(),
                self.max_open_files == old(self).max_open_files,
                self.max_open_files >= 1,
                self.created_files == old(self).created_files,
                before == old(self).open@,
                before.len() <= self.max_open_files,
                self.open@.len() <= before.len(),
                self.open@.len() >= kept(before.len(), self.max_open_files),
                self.open@ == before.take(self.open@.len() as int),
                closed@ == before.skip(self.open@.len() as int).reverse(),
                file_keys(before).no_duplicates(),
            decreases self.open.len(),
        {
            let ghost n = self.open@.len() as int;
            let file = self.open.pop().unwrap();
            closed.push(file);
            proof {
                assert(self.open@ =~= before.take(n - 1));
                assert(closed@ =~= before.skip(n - 1).reverse());
            }
        }
        proof {
            let after = file_keys(self.open@);
            assert forall|a: int, b: int|
                0 <= a < after.len() && 0 <= b < after.len() && a != b implies after[a]
                != after[b] by {
                assert(after[a] == file_keys(before)[a]);
                assert(after[b] == file_keys(before)[b]);
            }
        }
        closed
    }

    /// Whether the file of `key` still lacks its header.
    pub fn needs_header(&self, key: &str) -> (r: bool)
        ensures
            r == !self.created().contains(key@),
    {
        !self.created_files.contains(key)
    }

    /// Takes in the file of `key`, just opened, as the most recently used;
    /// `header_written` says that its header was written now. Hands the
    /// handle back, and changes nothing, where the file is open already or
    /// no room was made.
    pub fn insert(&mut self, key: &str, handle: H, header_written: bool) -> (refused: Option<H>)
        requires
            old(self).bounded(),
        ensures
            final(self).bounded(),
            final(self).limit() == old(self).limit(),
            refused is Some == (old(self).open_keys().contains(key@) || old(self).open_keys().len()
                >= old(self).limit()),
            match refused {
                Some(h) => h == handle && final(self).files() == old(self).files() && final(self).created() == old(self).created(),
                None => final(self).files().len() == old(self).files().len() + 1 && final(self).files()[0].key@ == key@ && final(self).files()[0].handle == handle && final(self).files().skip(1) == old(self).files() && final(self).open_keys() == seq![key@]
                    + old(self).open_keys() && final(self).created() == if header_written {
                    with_key(old(self).created(), key@)
                } else {
                    old(self).created()
                },
            },
    {
        if self.is_open(key) || self.open.len() >= self.max_open_files {
            return Some(handle);
        }
        let ghost before = self.open@;
        self.open.insert(0, OpenFile { key: key.to_owned(), handle });
        if header_written {
            proof {
                lemma_with_key(self.created_files@, key@);
            }
            self.created_files.insert(key);
        }
        proof {
            assert(self.open@.skip(1) =~= before);
            let after = file_keys(self.open@);
            assert forall|a: int, b: int|
                0 <= a < after.len() && 0 <= b < after.len() && a != b implies after[a]
                != after[b] by {
                if a > 0 {
                    assert(after[a] == file_keys(before)[a - 1]);
                }
                if b > 0 {
                    assert(after[b] == file_keys(before)[b - 1]);
                }
            }
        }
        None
    }

    /// Finds the writer for `key`. Where the file is open it becomes the
    /// most recently used, and nothing is left to do. Else room is made for
    /// it: the files that were closed are handed out to be flushed, with the
    /// word whether the file, once opened, is to get the header; the caller
    /// opens it and hands it in with `insert`.
    pub fn get_writer(&mut self, key: &str) -> (step: Admission<H>)
        requires
            old(self).bounded(),
        ensures
            final(self).bounded(),
            final(self).limit() == old(self).limit(),
            final(self).created() == old(self).created(),
            match step {
                Admission::Ready => old(self).open_keys().contains(key@) && final(self).files()
                    == promoted(old(self).files(), old(self).open_keys().index_of(key@))
                    && final(self).open_keys() == promoted(
                    old(self).open_keys(),
                    old(self).open_keys().index_of(key@),
                ) && final(self).open_keys()[0] == key@,
                Admission::Open { closed, write_header } => !old(self).open_keys().contains(key@)
                    && final(self).files() == old(self).files().take(
                    kept(old(self).files().len(), old(self).limit()) as int,
                ) && closed@ == old(self).files().skip(
                    kept(old(self).files().len(), old(self).limit()) as int,
                ).reverse() && final(self).open_keys() == old(self).open_keys().take(
                    kept(old(self).files().len(), old(self).limit()) as int,
                ) && write_header == !old(self).created().contains(key@)
                    && !final(self).open_keys().contains(key@) && final(self).open_keys().len()
                    < final(self).limit(),
            },
    {
        if self.promote(key) {
            return Admission::Ready;
        }
        let ghost before = self.open_keys();
        let closed = self.make_room();
        proof {
            let after = self.open_keys();
            if after.contains(key@) {
                let i = choose|i: int| 0 <= i < after.len() && after[i] == key@;
                assert(before[i] == key@);
            }
        }
        let write_header = self.needs_header(key);
        Admission::Open { closed, write_header }
    }

    /// Closes every file. Hands them out, most recently used first, to be
    /// flushed.
    pub fn close_all(&mut self) -> (closed: Vec<OpenFile<H>>)
        requires
            old(self).bounded(),
        ensures
            final(self).bounded(),
            final(self).limit() == old(self).limit(),
            final(self).created() == old(self).created(),
            final(self).files() == Seq::<OpenFile<H>>::empty(),
            closed@ == old(self).files(),
    {
        let mut closed: Vec<OpenFile<H>> = Vec::new();
        std::mem::swap(&mut self.open, &mut closed);
        assert(file_keys(self.open@) =~= Seq::empty());
        closed
    }

    /// The number of files that have their header.
    pub fn report_files_created(&self) -> (n: usize)
        ensures
            n == self.created().len(),
    {
        self.created_files.len()
    }
}

} // verus!
