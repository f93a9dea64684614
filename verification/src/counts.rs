//! Counters keyed by text, and sets of texts, kept in order of first
//! appearance. A set finds a text by a number computed from it.

use vstd::prelude::*;
use std::collections::HashMap;
use crate::text::{lemma_strs_push, same_text, strs};

verus! {

/// A key and how often it was counted.
pub ghost struct Counted {
    pub key: Seq<char>,
    pub count: usize,
}

/// A key and how often it was counted.
#[derive(Clone, Debug)]
pub struct Count {
    pub key: String,
    pub count: usize,
}

impl View for Count {
    type V = Counted;

    open spec fn view(&self) -> Counted {
        Counted { key: self.key@, count: self.count }
    }
}

/// The sum of two counts, held at the largest value that a count can take.
pub open spec fn capped_sum(a: int, b: int) -> usize {
    if a + b > usize::MAX {
        usize::MAX
    } else if a + b < 0 {
        0
    } else {
        (a + b) as usize
    }
}

/// The position of the first entry for `key`.
pub open spec fn position(entries: Seq<Counted>, key: Seq<char>) -> Option<int>
    decreases entries.len(),
{
    if entries.len() == 0 {
        None
    } else {
        match position(entries.drop_last(), key) {
            Some(i) => Some(i),
            None => if entries.last().key == key {
                Some(entries.len() - 1)
            } else {
                None
            },
        }
    }
}

/// The count of `key`: 0 where no entry names it.
pub open spec fn count_in(entries: Seq<Counted>, key: Seq<char>) -> usize {
    match position(entries, key) {
        Some(i) => entries[i].count,
        None => 0,
    }
}

/// `entries` after `n` more of `key` were counted: its entry grows, or a new
/// entry is added at the end.
pub open spec fn counted(entries: Seq<Counted>, key: Seq<char>, n: usize) -> Seq<Counted> {
    match position(entries, key) {
        Some(i) => entries.update(i, Counted { key, count: capped_sum(entries[i].count as int, n as int) }),
        None => entries.push(Counted { key, count: n }),
    }
}

/// Whether no two entries have the same key.
pub open spec fn distinct_keys(entries: Seq<Counted>) -> bool {
    forall|i: int, j: int|
        0 <= i < j < entries.len() ==> (#[trigger] entries[i]).key != (#[trigger] entries[j]).key
}

/// The sum of all counts, held at the largest value that a count can take.
pub open spec fn total_count(entries: Seq<Counted>) -> usize
    decreases entries.len(),
{
    if entries.len() == 0 {
        0
    } else {
        capped_sum(total_count(entries.drop_last()) as int, entries.last().count as int)
    }
}

/// `position` finds the first entry for the key, and nothing where there is none.
pub proof fn lemma_position(entries: Seq<Counted>, key: Seq<char>)
    ensures
        match position(entries, key) {
            Some(i) => 0 <= i < entries.len() && entries[i].key == key && forall|k: int|
                0 <= k < i ==> (#[trigger] entries[k]).key != key,
            None => forall|k: int| 0 <= k < entries.len() ==> (#[trigger] entries[k]).key != key,
        },
    decreases entries.len(),
{
    if entries.len() > 0 {
        let before = entries.drop_last();
        lemma_position(before, key);
        match position(before, key) {
            Some(i) => {
                assert(before[i] == entries[i]);
                assert forall|k: int| 0 <= k < i implies (#[trigger] entries[k]).key != key by {
                    assert(before[k] == entries[k]);
                }
            },
            None => {
                assert forall|k: int| 0 <= k < entries.len() - 1 implies (#[trigger] entries[k]).key
                    != key by {
                    assert(before[k] == entries[k]);
                }
            },
        }
    }
}

/// The first entry for a key is where `position` says.
pub proof fn lemma_position_at(entries: Seq<Counted>, key: Seq<char>, at: int)
    requires
        0 <= at < entries.len(),
        entries[at].key == key,
        forall|k: int| 0 <= k < at ==> (#[trigger] entries[k]).key != key,
    ensures
        position(entries, key) == Some(at),
{
    lemma_position(entries, key);
}

/// Counting changes the count of the key counted, and of no other key.
pub proof fn lemma_counted(entries: Seq<Counted>, key: Seq<char>, n: usize, other: Seq<char>)
    ensures
        count_in(counted(entries, key, n), other) == if other == key {
            capped_sum(count_in(entries, key) as int, n as int)
        } else {
            count_in(entries, other)
        },
        distinct_keys(entries) ==> distinct_keys(counted(entries, key, n)),
{
    let after = counted(entries, key, n);
    lemma_position(entries, key);
    lemma_position(entries, other);
    lemma_position(after, other);
    match position(entries, key) {
        Some(i) => {
            assert forall|k: int| 0 <= k < entries.len() implies (#[trigger] after[k]).key
                == entries[k].key by {}
            match position(entries, other) {
                Some(j) => {
                    lemma_position_at(after, other, j);
                },
                None => {},
            }
        },
        None => {
            assert forall|k: int| 0 <= k < entries.len() implies #[trigger] after[k]
                == entries[k] by {}
            match position(entries, other) {
                Some(j) => {
                    lemma_position_at(after, other, j);
                },
                None => {
                    if other == key {
                        lemma_position_at(after, other, entries.len() as int);
                    }
                },
            }
        },
    }
}

/// Counts keyed by text, in order of first appearance.
#[derive(Debug)]
pub struct Tally {
    entries: Vec<Count>,
}

impl View for Tally {
    type V = Seq<Counted>;

    closed spec fn view(&self) -> Seq<Counted> {
        Seq::new(self.entries@.len(), |i: int| self.entries@[i]@)
    }
}

impl Tally {
    #[verifier::type_invariant]
    spec fn one_entry_per_key(&self) -> bool {
        distinct_keys(self@)
    }

    /// The tally without entries.
    pub fn new() -> (tally: Tally)
        ensures
            tally@ == Seq::<Counted>::empty(),
    {
        let tally = Tally { entries: Vec::new() };
        assert(tally@ =~= Seq::empty());
        tally
    }

    fn find(&self, key: &str) -> (r: Option<usize>)
        ensures
            match r {
                Some(i) => position(self@, key@) == Some(i as int) && i < self.entries@.len(),
                None => position(self@, key@) is None,
            },
    {
        let mut i: usize = 0;
        while i < self.entries.len()
            invariant
                i <= self.entries.len(),
                forall|k: int| 0 <= k < i ==> (#[trigger] self@[k]).key != key@,
            decreases self.entries.len() - i,
        {
            if same_text(self.entries[i].key.as_str(), key) {
                proof {
                    assert(self@[i as int].key == key@);
                    lemma_position_at(self@, key@, i as int);
                }
                return Some(i);
            }
            i += 1;
        }
        proof {
            lemma_position(self@, key@);
        }
        None
    }

    /// Counts `n` more of `key`. A count that would pass `usize::MAX` stays
    /// there.
    pub fn add(&mut self, key: &str, n: usize)
        ensures
            final(self)@ == counted(old(self)@, key@, n),
            distinct_keys(final(self)@),
    {
        let found = self.find(key);
        proof {
            use_type_invariant(&*self);
            lemma_counted(self@, key@, n, key@);
        }
        let mut entries: Vec<Count> = Vec::new();
        std::mem::swap(&mut self.entries, &mut entries);
        let ghost before = Seq::new(entries@.len(), |i: int| entries@[i]@);
        assert(before =~= old(self)@);
        match found {
            Some(i) => {
                proof {
                    lemma_position(before, key@);
                    assert(before[i as int] == entries@[i as int]@);
                }
                let entry = entries.remove(i);
                let grown = Count { key: entry.key, count: entry.count.saturating_add(n) };
                assert(grown@ == Counted {
                    key: key@,
                    count: capped_sum(before[i as int].count as int, n as int),
                });
                entries.insert(i, grown);
            },
            None => {
                entries.push(Count { key: key.to_owned(), count: n });
            },
        }
        assert(Seq::new(entries@.len(), |i: int| entries@[i]@) =~= counted(before, key@, n));
        self.entries = entries;
    }

    /// The count of `key`: 0 where it was never counted.
    pub fn count(&self, key: &str) -> (r: usize)
        ensures
            r == count_in(self@, key@),
    {
        match self.find(key) {
            Some(i) => self.entries[i].count,
            None => 0,
        }
    }

    /// Number of keys counted. No key has two entries.
    pub fn len(&self) -> (n: usize)
        ensures
            n == self@.len(),
            distinct_keys(self@),
    {
        proof {
            use_type_invariant(self);
        }
        self.entries.len()
    }

    /// The entry at `index`, in order of first appearance.
    pub fn entry(&self, index: usize) -> (r: &Count)
        requires
            index < self@.len(),
        ensures
            r@ == self@[index as int],
    {
        &self.entries[index]
    }

    /// The sum of all counts.
    pub fn total(&self) -> (n: usize)
        ensures
            n == total_count(self@),
    {
        let mut n: usize = 0;
        let mut i: usize = 0;
        while i < self.entries.len()
            invariant
                i <= self.entries.len(),
                n == total_count(self@.take(i as int)),
            decreases self.entries.len() - i,
        {
            proof {
                assert(self@.take(i + 1).drop_last() =~= self@.take(i as int));
                assert(self@.take(i + 1).last() == self@[i as int]);
            }
            n = n.saturating_add(self.entries[i].count);
            i += 1;
        }
        assert(self@.take(self.entries.len() as int) =~= self@);
        n
    }
}

/// `keys` with `key` added, unless it is there already.
pub open spec fn with_key(keys: Seq<Seq<char>>, key: Seq<char>) -> Seq<Seq<char>> {
    if keys.contains(key) {
        keys
    } else {
        keys.push(key)
    }
}

/// Adding to a sequence without repetitions leaves it so.
pub proof fn lemma_with_key(keys: Seq<Seq<char>>, key: Seq<char>)
    requires
        keys.no_duplicates(),
    ensures
        with_key(keys, key).no_duplicates(),
        with_key(keys, key).to_set() == keys.to_set().insert(key),
{
    let after = with_key(keys, key);
    if keys.contains(key) {
        assert(after.to_set() =~= keys.to_set().insert(key));
    } else {
        assert forall|i: int, j: int| 0 <= i < after.len() && 0 <= j < after.len() && i != j implies after[i]
            != after[j] by {
            if i == keys.len() {
                assert(keys.contains(keys[j]));
            } else if j == keys.len() {
                assert(keys.contains(keys[i]));
            }
        }
        assert forall|k: Seq<char>| after.to_set().contains(k) == keys.to_set().insert(
            key,
        ).contains(k) by {
            if after.contains(k) {
                let i = choose|i: int| 0 <= i < after.len() && after[i] == k;
                if i < keys.len() {
                    assert(keys[i] == k);
                    assert(keys.contains(k));
                }
            }
            if keys.contains(k) {
                let i = choose|i: int| 0 <= i < keys.len() && keys[i] == k;
                assert(after[i] == k);
            }
            if k == key {
                assert(after[keys.len() as int] == key);
            }
        }
        assert(after.to_set() =~= keys.to_set().insert(key));
    }
}

/// A key that was added is there, and so is every key that was there
/// before.
pub proof fn lemma_with_key_keeps(keys: Seq<Seq<char>>, key: Seq<char>, other: Seq<char>)
    ensures
        with_key(keys, key).contains(key),
        keys.contains(other) ==> with_key(keys, key).contains(other),
{
    let after = with_key(keys, key);
    if !keys.contains(key) {
        assert(after[keys.len() as int] == key);
    }
    if keys.contains(other) {
        let i = choose|i: int| 0 <= i < keys.len() && keys[i] == other;
        assert(after[i] == other);
    }
}

/// The number that a text is filed under: each character in turn is mixed
/// into it, as the FNV-1a hash does with bytes.
pub open spec fn text_hash(text: Seq<char>) -> u64
    decreases text.len(),
{
    if text.len() == 0 {
        0xcbf2_9ce4_8422_2325
    } else {
        mixed(text_hash(text.drop_last()), text.last())
    }
}

/// `hash` with one more character mixed in.
pub open spec fn mixed(hash: u64, c: char) -> u64 {
    (hash ^ (c as u64)).wrapping_mul(0x100_0000_01b3)
}

/// The number that `text` is filed under.
pub fn hash_of(text: &str) -> (hash: u64)
    ensures
        hash == text_hash(text@),
{
    let mut hash: u64 = 0xcbf2_9ce4_8422_2325;
    for c in it: text.chars()
        invariant
            it.seq() == text@,
            hash == text_hash(it.seq().take(it.index() as int)),
    {
        proof {
            let next = it.seq().take(it.index() + 1);
            assert(next.drop_last() =~= it.seq().take(it.index() as int));
            assert(next.last() == c);
        }
        hash = (hash ^ (c as u64)).wrapping_mul(0x100_0000_01b3);
    }
    assert(text@.take(text@.len() as int) =~= text@);
    hash
}

/// Whether `filed` lists the position of each of `keys` under the number
/// of its text, and nothing but positions of `keys`.
spec fn files(filed: Map<u64, Vec<usize>>, keys: Seq<Seq<char>>) -> bool {
    &&& forall|k: int|
        0 <= k < keys.len() ==> filed.contains_key(text_hash(#[trigger] keys[k])) && filed[text_hash(
            keys[k],
        )]@.contains(k as usize)
    &&& forall|hash: u64, i: int|
        filed.contains_key(hash) && 0 <= i < filed[hash]@.len() ==> (#[trigger] filed[hash]@[i])
            < keys.len()
}

/// A set of texts, in order of first appearance.
#[derive(Debug)]
pub struct TextSet {
    keys: Vec<String>,
    /// The positions of the keys, by the number of their text.
    filed: HashMap<u64, Vec<usize>>,
}

impl View for TextSet {
    type V = Seq<Seq<char>>;

    closed spec fn view(&self) -> Seq<Seq<char>> {
        strs(self.keys@)
    }
}

impl TextSet {
    #[verifier::type_invariant]
    spec fn each_text_once(&self) -> bool {
        self@.no_duplicates() && files(self.filed@, self@)
    }

    /// The empty set.
    pub fn new() -> (set: TextSet)
        ensures
            set@ == Seq::<Seq<char>>::empty(),
    {
        let keys: Vec<String> = Vec::new();
        assert(strs(keys@) =~= Seq::empty());
        TextSet { keys, filed: HashMap::new() }
    }

    /// Whether `key` is in the set.
    pub fn contains(&self, key: &str) -> (r: bool)
        ensures
            r == self@.contains(key@),
    {
        proof {
            use_type_invariant(self);
        }
        let hash: u64 = hash_of(key);
        let count: usize = self.keys.len();
        match self.filed.get(&hash) {
            None => {
                assert forall|k: int| 0 <= k < self@.len() implies self@[k] != key@ by {
                    assert(self.filed@.contains_key(text_hash(self@[k])));
                }
                false
            },
            Some(places) => {
                let mut i: usize = 0;
                while i < places.len()
                    invariant
                        i <= places.len(),
                        count == self@.len(),
                        self@.no_duplicates(),
                        files(self.filed@, self@),
                        self.filed@.contains_key(hash),
                        self.filed@[hash] == *places,
                        hash == text_hash(key@),
                        forall|j: int| 0 <= j < i ==> self@[(#[trigger] places@[j]) as int] != key@,
                    decreases places.len() - i,
                {
                    let at: usize = places[i];
                    assert(at < self@.len());
                    if same_text(self.keys[at].as_str(), key) {
                        assert(self@[at as int] == key@);
                        return true;
                    }
                    i += 1;
                }
                assert forall|k: int| 0 <= k < self@.len() implies self@[k] != key@ by {
                    if self@[k] == key@ {
                        assert(k < count);
                        assert(self.filed@[text_hash(self@[k])]@.contains(k as usize));
                        assert(places@.contains(k as usize));
                        let j = choose|j: int| 0 <= j < places@.len() && places@[j] == k as usize;
                        assert(self@[places@[j] as int] != key@);
                    }
                }
                false
            },
        }
    }

    /// Adds `key`; says whether it was new.
    pub fn insert(&mut self, key: &str) -> (added: bool)
        ensures
            final(self)@ == with_key(old(self)@, key@),
            added == !old(self)@.contains(key@),
            final(self)@.no_duplicates(),
    {
        proof {
            use_type_invariant(&*self);
            lemma_with_key(self@, key@);
        }
        if self.contains(key) {
            return false;
        }
        let mut taken = TextSet::new();
        std::mem::swap(self, &mut taken);
        let TextSet { mut keys, mut filed } = taken;
        let ghost before = strs(keys@);
        let ghost filed_before = filed@;
        let hash: u64 = hash_of(key);
        let at: usize = keys.len();
        let owned = key.to_owned();
        proof {
            lemma_strs_push(keys@, owned);
        }
        keys.push(owned);
        let mut places: Vec<usize> = match filed.remove(&hash) {
            Some(places) => places,
            None => Vec::new(),
        };
        let ghost places_before = places@;
        places.push(at);
        filed.insert(hash, places);
        proof {
            let after = strs(keys@);
            assert(after == before.push(key@));
            assert forall|k: int| 0 <= k < after.len() implies filed@.contains_key(
                text_hash(#[trigger] after[k]),
            ) && filed@[text_hash(after[k])]@.contains(k as usize) by {
                if k < before.len() {
                    assert(after[k] == before[k]);
                    let h = text_hash(before[k]);
                    assert(filed_before.contains_key(h) && filed_before[h]@.contains(k as usize));
                    if h == hash {
                        let j = choose|j: int|
                            0 <= j < places_before.len() && places_before[j] == k as usize;
                        assert(places@[j] == k as usize);
                    }
                } else {
                    assert(places@[places_before.len() as int] == at);
                }
            }
            assert forall|h: u64, i: int|
                filed@.contains_key(h) && 0 <= i < filed@[h]@.len() implies (#[trigger] filed@[h]@[i])
                < after.len() by {
                if h == hash {
                    if i < places_before.len() {
                        assert(places@[i] == places_before[i]);
                        if filed_before.contains_key(hash) {
                            assert(filed_before[hash]@[i] < before.len());
                        }
                    }
                } else {
                    assert(filed_before[h]@[i] < before.len());
                }
            }
        }
        *self = TextSet { keys, filed };
        true
    }

    /// Number of texts in the set. No text is in it twice.
    pub fn len(&self) -> (n: usize)
        ensures
            n == self@.len(),
            self@.no_duplicates(),
    {
        proof {
            use_type_invariant(self);
        }
        self.keys.len()
    }

    /// The text at `index`, in order of first appearance.
    pub fn key(&self, index: usize) -> (r: &String)
        requires
            index < self@.len(),
        ensures
            r@ == self@[index as int],
    {
        &self.keys[index]
    }
}

} // verus!
