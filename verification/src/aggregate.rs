//! The aggregator: the statistics of a whole run, merged file by file.

use vstd::prelude::*;
use std::sync::atomic::AtomicUsize;
use crate::counts::{Count, Counted, Tally, TextSet};
use crate::stats::{FileStats, StatsModel};

verus! {

/// The concurrent map of the outside crate; opaque here.
#[verifier::external_type_specification]
#[verifier::external_body]
#[verifier::reject_recursive_types(K)]
#[verifier::reject_recursive_types(V)]
#[verifier::reject_recursive_types(S)]
pub struct ExDashMap<K, V, S>(dashmap::DashMap<K, V, S>);

/// The concurrent set of the outside crate; opaque here.
#[verifier::external_type_specification]
#[verifier::external_body]
#[verifier::reject_recursive_types(K)]
#[verifier::reject_recursive_types(S)]
pub struct ExDashSet<K, S>(dashmap::DashSet<K, S>);

/// The counts that a concurrent map holds, by key.
pub uninterp spec fn dash_counts(map: dashmap::DashMap<String, AtomicUsize>) -> Map<Seq<char>, usize>;

/// The keys that a concurrent set holds.
pub uninterp spec fn dash_keys(set: dashmap::DashSet<String>) -> Set<Seq<char>>;

/// The sum of two counts as an atomic addition leaves it: it wraps around.
pub open spec fn wrapped_sum(a: usize, b: usize) -> usize {
    if a + b > usize::MAX {
        (a + b - usize::MAX - 1) as usize
    } else {
        (a + b) as usize
    }
}

/// The count of `key` in `counts`: 0 where it is not a key.
pub open spec fn count_at(counts: Map<Seq<char>, usize>, key: Seq<char>) -> usize {
    if counts.contains_key(key) {
        counts[key]
    } else {
        0
    }
}

/// Whether `listed` names every key of `counts` once, with its count.
pub open spec fn lists(listed: Seq<Counted>, counts: Map<Seq<char>, usize>) -> bool {
    &&& forall|i: int, j: int|
        0 <= i < j < listed.len() ==> (#[trigger] listed[i]).key != (#[trigger] listed[j]).key
    &&& forall|i: int|
        0 <= i < listed.len() ==> counts.contains_key((#[trigger] listed[i]).key)
            && counts[listed[i].key] == listed[i].count
    &&& forall|key: Seq<char>| #[trigger]
        counts.contains_key(key) ==> exists|i: int|
            0 <= i < listed.len() && (#[trigger] listed[i]).key == key
}

/// The counts of no key.
pub open spec fn no_counts() -> Map<Seq<char>, usize> {
    Map::empty()
}

/// `DashMap::new`: a map without keys.
#[verifier::external_body]
fn new_counts() -> (counts: dashmap::DashMap<String, AtomicUsize>)
    ensures
        dash_counts(counts) == no_counts(),
{
    dashmap::DashMap::new()
}

/// `DashSet::new`: a set without keys.
#[verifier::external_body]
fn new_keys() -> (set: dashmap::DashSet<String>)
    ensures
        dash_keys(set) == Set::<Seq<char>>::empty(),
{
    dashmap::DashSet::new()
}

/// `DashMap::entry`, `Entry::or_insert` and `AtomicUsize::fetch_add`: the
/// count of `key` grows by `n`, from 0 where the key is new, and wraps
/// around; no other key changes.
#[verifier::external_body]
fn count_more(map: &mut dashmap::DashMap<String, AtomicUsize>, key: String, n: usize)
    ensures
        dash_counts(*final(map)) == dash_counts(*old(map)).insert(
            key@,
            wrapped_sum(count_at(dash_counts(*old(map)), key@), n),
        ),
{
    map.entry(key).or_insert(AtomicUsize::new(0)).fetch_add(
        n,
        std::sync::atomic::Ordering::Relaxed,
    );
}

/// `DashSet::insert`: `key` is in the set afterwards, beside what was there.
#[verifier::external_body]
fn add_key(set: &mut dashmap::DashSet<String>, key: String)
    ensures
        dash_keys(*final(set)) == dash_keys(*old(set)).insert(key@),
{
    set.insert(key);
}

/// `DashSet::len`: the number of keys.
#[verifier::external_body]
fn key_count(set: &dashmap::DashSet<String>) -> (n: usize)
    ensures
        n == dash_keys(*set).len(),
{
    set.len()
}

/// `DashMap::iter`: every key once with its count, in no stated order.
#[verifier::external_body]
fn listed_counts(map: &dashmap::DashMap<String, AtomicUsize>) -> (listed: Vec<Count>)
    ensures
        lists(Seq::new(listed@.len(), |i: int| listed@[i]@), dash_counts(*map)),
{
    map.iter().map(
        |entry|
            Count {
                key: entry.key().clone(),
                count: entry.value().load(std::sync::atomic::Ordering::Relaxed),
            },
    ).collect()
}

/// The statistics of a run, as plain values.
pub ghost struct RunModel {
    pub total_field_records: usize,
    pub processed_files_ok: usize,
    pub processed_files_error: usize,
    pub unique_records: Set<Seq<char>>,
    pub groups: Map<Seq<char>, usize>,
    pub prefixes: Map<Seq<char>, usize>,
    pub unique_fields: Map<Seq<char>, usize>,
}

/// `counts` with each of `entries` added to the count of its key.
pub open spec fn counts_merged(counts: Map<Seq<char>, usize>, entries: Seq<Counted>) -> Map<
    Seq<char>,
    usize,
>
    decreases entries.len(),
{
    if entries.len() == 0 {
        counts
    } else {
        let before = counts_merged(counts, entries.drop_last());
        before.insert(
            entries.last().key,
            wrapped_sum(count_at(before, entries.last().key), entries.last().count),
        )
    }
}

/// `set` with each of `keys` added.
pub open spec fn keys_merged(set: Set<Seq<char>>, keys: Seq<Seq<char>>) -> Set<Seq<char>>
    decreases keys.len(),
{
    if keys.len() == 0 {
        set
    } else {
        keys_merged(set, keys.drop_last()).insert(keys.last())
    }
}

/// Merging keys into a set gives the union.
pub proof fn lemma_keys_merged(set: Set<Seq<char>>, keys: Seq<Seq<char>>)
    ensures
        keys_merged(set, keys) == set.union(keys.to_set()),
    decreases keys.len(),
{
    if keys.len() == 0 {
        assert(keys.to_set() =~= Set::empty());
        assert(set.union(keys.to_set()) =~= set);
    } else {
        let front = keys.drop_last();
        lemma_keys_merged(set, front);
        assert forall|k: Seq<char>|
            set.union(front.to_set()).insert(keys.last()).contains(k) == set.union(
                keys.to_set(),
            ).contains(k) by {
            if front.contains(k) {
                let i = choose|i: int| 0 <= i < front.len() && front[i] == k;
                assert(keys[i] == k);
            }
            if keys.contains(k) {
                let i = choose|i: int| 0 <= i < keys.len() && keys[i] == k;
                if i < front.len() {
                    assert(front[i] == k);
                }
            }
            assert(keys[keys.len() - 1] == keys.last());
        }
        assert(set.union(front.to_set()).insert(keys.last()) =~= set.union(keys.to_set()));
    }
}

/// Merging entries with distinct keys adds each count to that of its key,
/// and changes no other key.
pub proof fn lemma_counts_merged(counts: Map<Seq<char>, usize>, entries: Seq<Counted>, key: Seq<char>)
    requires
        forall|i: int, j: int|
            0 <= i < j < entries.len() ==> (#[trigger] entries[i]).key != (#[trigger] entries[j]).key,
    ensures
        count_at(counts_merged(counts, entries), key) == wrapped_sum(
            count_at(counts, key),
            crate::counts::count_in(entries, key),
        ),
    decreases entries.len(),
{
    crate::counts::lemma_position(entries, key);
    if entries.len() > 0 {
        let front = entries.drop_last();
        assert forall|i: int, j: int| 0 <= i < j < front.len() implies (#[trigger] front[i]).key != (
        #[trigger] front[j]).key by {
            assert(front[i] == entries[i]);
            assert(front[j] == entries[j]);
        }
        lemma_counts_merged(counts, front, key);
        crate::counts::lemma_position(front, key);
        if entries.last().key == key {
            assert forall|k: int| 0 <= k < front.len() implies (#[trigger] front[k]).key != key by {
                assert(front[k] == entries[k]);
                assert(entries[entries.len() - 1] == entries.last());
            }
        } else {
            match crate::counts::position(front, key) {
                Some(i) => {
                    assert(front[i] == entries[i]);
                    crate::counts::lemma_position_at(entries, key, i);
                },
                None => {},
            }
        }
    }
}

/// Whether `after` holds, for each key, what `before` held and what
/// `entries` count.
pub open spec fn adds_up(
    before: Map<Seq<char>, usize>,
    after: Map<Seq<char>, usize>,
    entries: Seq<Counted>,
) -> bool {
    forall|key: Seq<char>|
        #[trigger] count_at(after, key) == wrapped_sum(
            count_at(before, key),
            crate::counts::count_in(entries, key),
        )
}

/// The run statistics after the statistics of one more file that was
/// processed without error.
pub open spec fn merged(run: RunModel, file: StatsModel) -> RunModel {
    RunModel {
        total_field_records: wrapped_sum(run.total_field_records, file.total_fields_extracted),
        processed_files_ok: wrapped_sum(run.processed_files_ok, 1),
        processed_files_error: run.processed_files_error,
        unique_records: keys_merged(run.unique_records, file.unique_ids),
        groups: counts_merged(run.groups, file.group_counts),
        prefixes: counts_merged(run.prefixes, file.prefix_counts),
        unique_fields: counts_merged(run.unique_fields, file.field_counts),
    }
}

/// The run statistics after one more file that failed.
pub open spec fn failed(run: RunModel) -> RunModel {
    RunModel { processed_files_error: wrapped_sum(run.processed_files_error, 1), ..run }
}

/// The statistics of a run, merged file by file.
pub struct IncrementalStats {
    total_field_records: usize,
    processed_files_ok: usize,
    processed_files_error: usize,
    unique_records: dashmap::DashSet<String>,
    groups: dashmap::DashMap<String, AtomicUsize>,
    prefixes: dashmap::DashMap<String, AtomicUsize>,
    unique_fields: dashmap::DashMap<String, AtomicUsize>,
}

/// The statistics of a finished run.
#[derive(Debug)]
pub struct FinalStats {
    pub total_field_records: usize,
    pub processed_files_ok: usize,
    pub processed_files_error: usize,
    /// Number of distinct primary ids.
    pub unique_ids: usize,
    /// Values extracted per grouping key, in no stated order.
    pub unique_groups: Vec<Count>,
    /// Values extracted per DOI prefix, in no stated order.
    pub unique_prefixes: Vec<Count>,
    /// Values extracted per pattern name, in no stated order.
    pub unique_fields: Vec<Count>,
}

/// The entries that a sequence of counts holds.
pub open spec fn entries_of(v: Seq<Count>) -> Seq<Counted> {
    Seq::new(v.len(), |i: int| v[i]@)
}

fn merge_counts(map: &mut dashmap::DashMap<String, AtomicUsize>, tally: &Tally)
    ensures
        dash_counts(*final(map)) == counts_merged(dash_counts(*old(map)), tally@),
        adds_up(dash_counts(*old(map)), dash_counts(*final(map)), tally@),
{
    let count: usize = tally.len();
    proof {
        assert forall|key: Seq<char>|
            #[trigger] count_at(counts_merged(dash_counts(*map), tally@), key) == wrapped_sum(
                count_at(dash_counts(*map), key),
                crate::counts::count_in(tally@, key),
            ) by {
            lemma_counts_merged(dash_counts(*map), tally@, key);
        }
    }
    let mut i: usize = 0;
    while i < count
        invariant
            count == tally@.len(),
            i <= count,
            dash_counts(*map) == counts_merged(dash_counts(*old(map)), tally@.take(i as int)),
        decreases count - i,
    {
        proof {
            assert(tally@.take(i + 1).drop_last() =~= tally@.take(i as int));
            assert(tally@.take(i + 1).last() == tally@[i as int]);
        }
        let entry = tally.entry(i);
        count_more(map, entry.key.clone(), entry.count);
        i += 1;
    }
    assert(tally@.take(tally@.len() as int) =~= tally@);
}

fn merge_keys(set: &mut dashmap::DashSet<String>, keys: &TextSet)
    ensures
        dash_keys(*final(set)) == keys_merged(dash_keys(*old(set)), keys@),
{
    let mut i: usize = 0;
    while i < keys.len()
        invariant
            i <= keys@.len(),
            dash_keys(*set) == keys_merged(dash_keys(*old(set)), keys@.take(i as int)),
        decreases keys@.len() - i,
    {
        proof {
            assert(keys@.take(i + 1).drop_last() =~= keys@.take(i as int));
            assert(keys@.take(i + 1).last() == keys@[i as int]);
        }
        add_key(set, keys.key(i).clone());
        i += 1;
    }
    assert(keys@.take(keys@.len() as int) =~= keys@);
}

impl View for IncrementalStats {
    type V = RunModel;

    closed spec fn view(&self) -> RunModel {
        RunModel {
            total_field_records: self.total_field_records,
            processed_files_ok: self.processed_files_ok,
            processed_files_error: self.processed_files_error,
            unique_records: dash_keys(self.unique_records),
            groups: dash_counts(self.groups),
            prefixes: dash_counts(self.prefixes),
            unique_fields: dash_counts(self.unique_fields),
        }
    }
}

/// The statistics of a run before its first file.
pub open spec fn no_run() -> RunModel {
    RunModel {
        total_field_records: 0,
        processed_files_ok: 0,
        processed_files_error: 0,
        unique_records: Set::empty(),
        groups: Map::empty(),
        prefixes: Map::empty(),
        unique_fields: Map::empty(),
    }
}

impl IncrementalStats {
    /// The statistics of a run before its first file.
    pub fn new() -> (stats: IncrementalStats)
        ensures
            stats@ == no_run(),
    {
        IncrementalStats {
            total_field_records: 0,
            processed_files_ok: 0,
            processed_files_error: 0,
            unique_records: new_keys(),
            groups: new_counts(),
            prefixes: new_counts(),
            unique_fields: new_counts(),
        }
    }

    /// Merges the statistics of a file that was processed without error:
    /// counters add up, and the ids join the set of ids.
    pub fn aggregate_file_stats(&mut self, file_stats: &FileStats)
        ensures
            final(self)@ == merged(old(self)@, file_stats@),
            final(self)@.unique_records == old(self)@.unique_records.union(
                file_stats@.unique_ids.to_set(),
            ),
            adds_up(old(self)@.groups, final(self)@.groups, file_stats@.group_counts),
            adds_up(old(self)@.prefixes, final(self)@.prefixes, file_stats@.prefix_counts),
            adds_up(old(self)@.unique_fields, final(self)@.unique_fields, file_stats@.field_counts),
    {
        proof {
            lemma_keys_merged(self@.unique_records, file_stats@.unique_ids);
        }
        self.processed_files_ok = self.processed_files_ok.wrapping_add(1);
        self.total_field_records = self.total_field_records.wrapping_add(
            file_stats.total_fields_extracted,
        );
        merge_keys(&mut self.unique_records, &file_stats.unique_ids);
        merge_counts(&mut self.unique_fields, &file_stats.field_counts);
        merge_counts(&mut self.groups, &file_stats.group_counts);
        merge_counts(&mut self.prefixes, &file_stats.prefix_counts);
    }

    /// Counts one more file that failed.
    pub fn increment_error_files(&mut self)
        ensures
            final(self)@ == failed(old(self)@),
    {
        self.processed_files_error = self.processed_files_error.wrapping_add(1);
    }

    /// The statistics as they stand.
    pub fn get_final_stats(&self) -> (stats: FinalStats)
        ensures
            stats.total_field_records == self@.total_field_records,
            stats.processed_files_ok == self@.processed_files_ok,
            stats.processed_files_error == self@.processed_files_error,
            stats.unique_ids == self@.unique_records.len(),
            lists(entries_of(stats.unique_groups@), self@.groups),
            lists(entries_of(stats.unique_prefixes@), self@.prefixes),
            lists(entries_of(stats.unique_fields@), self@.unique_fields),
    {
        FinalStats {
            total_field_records: self.total_field_records,
            processed_files_ok: self.processed_files_ok,
            processed_files_error: self.processed_files_error,
            unique_ids: key_count(&self.unique_records),
            unique_groups: listed_counts(&self.groups),
            unique_prefixes: listed_counts(&self.prefixes),
            unique_fields: listed_counts(&self.unique_fields),
        }
    }
}

} // verus!
