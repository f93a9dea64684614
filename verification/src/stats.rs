//! What one input file contributed: the ids seen and how many values were
//! extracted per field, per grouping key and per DOI prefix.

use vstd::prelude::*;
use crate::counts::{capped_sum, counted, with_key, Counted, Tally, TextSet};
use crate::trie::{triples, Extraction, Triple};

verus! {

/// The statistics of one file, as plain values.
pub ghost struct StatsModel {
    pub unique_ids: Seq<Seq<char>>,
    pub unique_dois: Seq<Seq<char>>,
    pub field_counts: Seq<Counted>,
    pub group_counts: Seq<Counted>,
    pub prefix_counts: Seq<Counted>,
    pub total_fields_extracted: usize,
}

/// The statistics of one file.
#[derive(Debug)]
pub struct FileStats {
    /// The primary ids of the records that gave at least one value.
    pub unique_ids: TextSet,
    /// The DOIs of those records, where the DOI is not the primary id.
    pub unique_dois: TextSet,
    /// Values extracted, per pattern name.
    pub field_counts: Tally,
    /// Values extracted, per grouping key.
    pub group_counts: Tally,
    /// Values extracted, per DOI prefix.
    pub prefix_counts: Tally,
    pub total_fields_extracted: usize,
}

impl View for FileStats {
    type V = StatsModel;

    open spec fn view(&self) -> StatsModel {
        StatsModel {
            unique_ids: self.unique_ids@,
            unique_dois: self.unique_dois@,
            field_counts: self.field_counts@,
            group_counts: self.group_counts@,
            prefix_counts: self.prefix_counts@,
            total_fields_extracted: self.total_fields_extracted,
        }
    }
}

/// The statistics of a file from which nothing was extracted yet.
pub open spec fn no_stats() -> StatsModel {
    StatsModel {
        unique_ids: Seq::empty(),
        unique_dois: Seq::empty(),
        field_counts: Seq::empty(),
        group_counts: Seq::empty(),
        prefix_counts: Seq::empty(),
        total_fields_extracted: 0,
    }
}

/// `entries` after one more was counted for the pattern of each of `found`.
pub open spec fn fields_counted(entries: Seq<Counted>, found: Seq<Triple>) -> Seq<Counted>
    decreases found.len(),
{
    if found.len() == 0 {
        entries
    } else {
        counted(fields_counted(entries, found.drop_last()), found.last().pattern, 1)
    }
}

/// `keys` with `key` added where there is one.
pub open spec fn with_optional_key(keys: Seq<Seq<char>>, key: Option<Seq<char>>) -> Seq<Seq<char>> {
    match key {
        Some(k) => with_key(keys, k),
        None => keys,
    }
}

/// `entries` after `n` more were counted for `key`, where there is one.
pub open spec fn optionally_counted(entries: Seq<Counted>, key: Option<Seq<char>>, n: usize) -> Seq<
    Counted,
> {
    match key {
        Some(k) => counted(entries, k, n),
        None => entries,
    }
}

/// The statistics after a record gave the values `found`. A record that
/// gave none leaves them as they are.
pub open spec fn noted(
    stats: StatsModel,
    primary: Seq<char>,
    doi: Option<Seq<char>>,
    group: Option<Seq<char>>,
    prefix: Seq<char>,
    found: Seq<Triple>,
) -> StatsModel {
    if found.len() == 0 {
        stats
    } else {
        StatsModel {
            unique_ids: with_key(stats.unique_ids, primary),
            unique_dois: with_optional_key(stats.unique_dois, doi),
            field_counts: fields_counted(stats.field_counts, found),
            group_counts: optionally_counted(stats.group_counts, group, found.len() as usize),
            prefix_counts: counted(stats.prefix_counts, prefix, found.len() as usize),
            total_fields_extracted: capped_sum(
                stats.total_fields_extracted as int,
                found.len() as int,
            ),
        }
    }
}

/// The view of an optional string.
pub open spec fn opt_text(s: Option<&String>) -> Option<Seq<char>> {
    match s {
        Some(t) => Some(t@),
        None => None,
    }
}

impl FileStats {
    /// The statistics of a file from which nothing was extracted yet.
    pub fn new() -> (stats: FileStats)
        ensures
            stats@ == no_stats(),
    {
        FileStats {
            unique_ids: TextSet::new(),
            unique_dois: TextSet::new(),
            field_counts: Tally::new(),
            group_counts: Tally::new(),
            prefix_counts: Tally::new(),
            total_fields_extracted: 0,
        }
    }

    /// Notes the values `found` in one record. A record that gave none
    /// changes nothing.
    pub fn note(
        &mut self,
        primary: &String,
        doi: Option<&String>,
        group: Option<&String>,
        prefix: &String,
        found: &Vec<Extraction>,
    )
        ensures
            final(self)@ == noted(
                old(self)@,
                primary@,
                opt_text(doi),
                opt_text(group),
                prefix@,
                triples(found@),
            ),
    {
        if found.len() == 0 {
            return ;
        }
        self.unique_ids.insert(primary.as_str());
        match doi {
            Some(d) => {
                self.unique_dois.insert(d.as_str());
            },
            None => {},
        }
        match group {
            Some(g) => {
                self.group_counts.add(g.as_str(), found.len());
            },
            None => {},
        }
        self.prefix_counts.add(prefix.as_str(), found.len());
        let ghost before = self@;
        let mut i: usize = 0;
        while i < found.len()
            invariant
                i <= found.len(),
                self.field_counts@ == fields_counted(
                    old(self).field_counts@,
                    triples(found@).take(i as int),
                ),
                self.unique_ids@ == before.unique_ids,
                self.unique_dois@ == before.unique_dois,
                self.group_counts@ == before.group_counts,
                self.prefix_counts@ == before.prefix_counts,
                self.total_fields_extracted == before.total_fields_extracted,
            decreases found.len() - i,
        {
            proof {
                let next = triples(found@).take(i + 1);
                assert(next.drop_last() =~= triples(found@).take(i as int));
                assert(next.last() == found@[i as int]@);
            }
            self.field_counts.add(found[i].pattern_name.as_str(), 1);
            i += 1;
        }
        assert(triples(found@).take(found.len() as int) =~= triples(found@));
        self.total_fields_extracted = self.total_fields_extracted.saturating_add(found.len());
    }
}

} // verus!
