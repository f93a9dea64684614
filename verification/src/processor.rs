//! The file processor: what becomes of each line of an input file.

use vstd::prelude::*;
use crate::batch::{batch_views, pending_after, released, Batcher};
use crate::crossref;
use crate::crossref::owned_text;
use crate::json::{parsed_json, Json, JsonDoc};
use crate::openalex;
use crate::stats::{noted, no_stats, FileStats, StatsModel};
use crate::text::{chars_of, strs, trim, trim_text};
use crate::trie::{extract_at, triples, Pattern, PatternTrie, Triple};

verus! {

/// The dataset that the records come from.
#[derive(Clone, Copy, Debug, PartialEq, Eq, Structural)]
pub enum Dataset {
    Crossref,
    OpenAlex,
}

/// One extracted row, as plain values.
pub ghost struct FieldRow {
    pub record_id: Seq<char>,
    pub doi: Option<Seq<char>>,
    pub field_name: Seq<char>,
    pub subfield_path: Seq<char>,
    pub value: Seq<char>,
    pub group_key: Option<Seq<char>>,
    pub doi_prefix: Seq<char>,
    pub source_file_path: Seq<char>,
}

/// One extracted row: a value, where it was found, and the ids of its
/// record.
#[derive(Clone, Debug)]
pub struct FieldData {
    /// The primary id of the record: the DOI for Crossref, the work id for
    /// OpenAlex.
    pub record_id: String,
    pub doi: Option<String>,
    pub field_name: String,
    pub subfield_path: String,
    pub value: String,
    /// The grouping key of the record: the member id for Crossref, the
    /// source id for OpenAlex.
    pub group_key: Option<String>,
    pub doi_prefix: String,
    pub source_file_path: String,
}

impl View for FieldData {
    type V = FieldRow;

    open spec fn view(&self) -> FieldRow {
        FieldRow {
            record_id: self.record_id@,
            doi: owned_text(self.doi),
            field_name: self.field_name@,
            subfield_path: self.subfield_path@,
            value: self.value@,
            group_key: owned_text(self.group_key),
            doi_prefix: self.doi_prefix@,
            source_file_path: self.source_file_path@,
        }
    }
}

/// The row without ids and without a value.
pub open spec fn empty_row() -> FieldRow {
    FieldRow {
        record_id: Seq::empty(),
        doi: None,
        field_name: Seq::empty(),
        subfield_path: Seq::empty(),
        value: Seq::empty(),
        group_key: None,
        doi_prefix: Seq::empty(),
        source_file_path: Seq::empty(),
    }
}

impl Default for FieldData {
    fn default() -> (row: FieldData)
        ensures
            row@ == empty_row(),
    {
        FieldData {
            record_id: String::new(),
            doi: None,
            field_name: String::new(),
            subfield_path: String::new(),
            value: String::new(),
            group_key: None,
            doi_prefix: String::new(),
            source_file_path: String::new(),
        }
    }
}

/// The rows that a sequence of field data holds.
pub open spec fn rows(v: Seq<FieldData>) -> Seq<FieldRow> {
    Seq::new(v.len(), |i: int| v[i]@)
}

/// The primary id of a record.
pub open spec fn primary_of(dataset: Dataset, record: Json) -> Option<Seq<char>> {
    match dataset {
        Dataset::Crossref => crossref::doi_of(record),
        Dataset::OpenAlex => openalex::work_id_of(record),
    }
}

/// The DOI of a record.
pub open spec fn doi_of(dataset: Dataset, record: Json) -> Option<Seq<char>> {
    match dataset {
        Dataset::Crossref => crossref::doi_of(record),
        Dataset::OpenAlex => openalex::doi_of(record),
    }
}

/// The grouping key of a record.
pub open spec fn group_of(dataset: Dataset, record: Json) -> Option<Seq<char>> {
    match dataset {
        Dataset::Crossref => crossref::member_of(record),
        Dataset::OpenAlex => openalex::source_id_of(record),
    }
}

/// The DOI prefix of a record.
pub open spec fn prefix_of(dataset: Dataset, record: Json) -> Option<Seq<char>> {
    match dataset {
        Dataset::Crossref => crossref::prefix_of(record, crossref::doi_of(record)),
        Dataset::OpenAlex => crossref::derived_prefix(openalex::doi_of(record)),
    }
}

/// Whether a record without a grouping key is rejected.
pub open spec fn needs_group(dataset: Dataset) -> bool {
    dataset == Dataset::Crossref
}

/// Whether `value` meets a user filter: a filter that is set asks for
/// exactly its value.
pub open spec fn passes(filter: Option<Seq<char>>, value: Option<Seq<char>>) -> bool {
    match filter {
        Some(wanted) => value == Some(wanted),
        None => true,
    }
}

/// `text`, or the empty text where there is none.
pub open spec fn or_empty(text: Option<Seq<char>>) -> Seq<char> {
    match text {
        Some(t) => t,
        None => Seq::empty(),
    }
}

/// What becomes of a record.
pub ghost enum Verdict {
    /// A user filter is set, and the record's value is missing or another.
    FilteredOut,
    MissingPrimaryId,
    MissingGroupingKey,
    /// The record was taken; these are the values found in it.
    Taken(Seq<Triple>),
}

/// What becomes of `record`. The filters come first, then the primary id,
/// then the grouping key, then extraction.
pub open spec fn verdict(
    dataset: Dataset,
    record: Json,
    patterns: Seq<Pattern>,
    filter_group: Option<Seq<char>>,
    filter_prefix: Option<Seq<char>>,
) -> Verdict {
    if !passes(filter_group, group_of(dataset, record)) || !passes(
        filter_prefix,
        prefix_of(dataset, record),
    ) {
        Verdict::FilteredOut
    } else if primary_of(dataset, record) is None {
        Verdict::MissingPrimaryId
    } else if group_of(dataset, record) is None && needs_group(dataset) {
        Verdict::MissingGroupingKey
    } else {
        Verdict::Taken(extract_at(record, patterns, Seq::empty()))
    }
}

/// The rows for the values `found` in `record`.
pub open spec fn rows_of(
    dataset: Dataset,
    record: Json,
    found: Seq<Triple>,
    source_file_path: Seq<char>,
) -> Seq<FieldRow> {
    Seq::new(
        found.len(),
        |i: int|
            FieldRow {
                record_id: or_empty(primary_of(dataset, record)),
                doi: doi_of(dataset, record),
                field_name: found[i].pattern,
                subfield_path: found[i].path,
                value: found[i].value,
                group_key: group_of(dataset, record),
                doi_prefix: or_empty(prefix_of(dataset, record)),
                source_file_path,
            },
    )
}

/// The rows that `record` gives: those of its values where it is taken,
/// none otherwise.
pub open spec fn record_rows(
    dataset: Dataset,
    record: Json,
    patterns: Seq<Pattern>,
    filter_group: Option<Seq<char>>,
    filter_prefix: Option<Seq<char>>,
    source_file_path: Seq<char>,
) -> Seq<FieldRow> {
    match verdict(dataset, record, patterns, filter_group, filter_prefix) {
        Verdict::Taken(found) => rows_of(dataset, record, found, source_file_path),
        _ => Seq::empty(),
    }
}

/// The file statistics after `record`: a record that is taken and gives
/// values is noted, any other changes nothing. The DOI set is kept beside
/// the primary ids only where the two differ.
pub open spec fn stats_after(
    stats: StatsModel,
    dataset: Dataset,
    record: Json,
    patterns: Seq<Pattern>,
    filter_group: Option<Seq<char>>,
    filter_prefix: Option<Seq<char>>,
) -> StatsModel {
    match verdict(dataset, record, patterns, filter_group, filter_prefix) {
        Verdict::Taken(found) => noted(
            stats,
            or_empty(primary_of(dataset, record)),
            match dataset {
                Dataset::Crossref => None,
                Dataset::OpenAlex => doi_of(dataset, record),
            },
            group_of(dataset, record),
            or_empty(prefix_of(dataset, record)),
            found,
        ),
        _ => stats,
    }
}

/// What became of a record.
#[derive(Debug)]
pub enum RecordOutcome {
    FilteredOut,
    MissingPrimaryId,
    MissingGroupingKey,
    /// The record was taken; these are its rows.
    Taken(Vec<FieldData>),
}

/// The extraction of one run: the dataset, the compiled patterns and the
/// user's filters.
pub struct JsonlProcessor {
    pub dataset: Dataset,
    pub extractor: PatternTrie,
    /// Where set, only records with this grouping key are taken.
    pub filter_group: Option<String>,
    /// Where set, only records with this DOI prefix are taken.
    pub filter_doi_prefix: Option<String>,
}

/// Whether an optional string is exactly `wanted`, where a filter is set.
fn meets(filter: &Option<String>, value: &Option<String>) -> (r: bool)
    ensures
        r == passes(owned_text(*filter), owned_text(*value)),
{
    match filter {
        Some(wanted) => match value {
            Some(v) => *v == *wanted,
            None => false,
        },
        None => true,
    }
}

fn clone_text(s: &Option<String>) -> (r: Option<String>)
    ensures
        owned_text(r) == owned_text(*s),
{
    match s {
        Some(t) => Some(t.clone()),
        None => None,
    }
}

impl JsonlProcessor {
    /// The patterns of this run.
    pub open spec fn patterns(&self) -> Seq<Pattern> {
        self.extractor@
    }

    /// Decides what becomes of one record, and notes in `stats` the values
    /// that it gives.
    pub fn process_record(&self, record: &JsonDoc, source_file_path: &str, stats: &mut FileStats) -> (outcome:
        RecordOutcome)
        ensures
            match outcome {
                RecordOutcome::FilteredOut => verdict(
                    self.dataset,
                    record@,
                    self.patterns(),
                    owned_text(self.filter_group),
                    owned_text(self.filter_doi_prefix),
                ) is FilteredOut,
                RecordOutcome::MissingPrimaryId => verdict(
                    self.dataset,
                    record@,
                    self.patterns(),
                    owned_text(self.filter_group),
                    owned_text(self.filter_doi_prefix),
                ) is MissingPrimaryId,
                RecordOutcome::MissingGroupingKey => verdict(
                    self.dataset,
                    record@,
                    self.patterns(),
                    owned_text(self.filter_group),
                    owned_text(self.filter_doi_prefix),
                ) is MissingGroupingKey,
                RecordOutcome::Taken(taken) => verdict(
                    self.dataset,
                    record@,
                    self.patterns(),
                    owned_text(self.filter_group),
                    owned_text(self.filter_doi_prefix),
                ) is Taken && rows(taken@) == record_rows(
                    self.dataset,
                    record@,
                    self.patterns(),
                    owned_text(self.filter_group),
                    owned_text(self.filter_doi_prefix),
                    source_file_path@,
                ),
            },
            final(stats)@ == stats_after(
                old(stats)@,
                self.dataset,
                record@,
                self.patterns(),
                owned_text(self.filter_group),
                owned_text(self.filter_doi_prefix),
            ),
    {
        let primary = match self.dataset {
            Dataset::Crossref => crossref::extract_doi(record),
            Dataset::OpenAlex => openalex::extract_work_id(record),
        };
        let doi = match self.dataset {
            Dataset::Crossref => crossref::extract_doi(record),
            Dataset::OpenAlex => openalex::extract_doi(record),
        };
        let group = match self.dataset {
            Dataset::Crossref => crossref::extract_member_id(record),
            Dataset::OpenAlex => openalex::extract_source_id(record),
        };
        let prefix = match self.dataset {
            Dataset::Crossref => crossref::extract_doi_prefix(record, doi.as_ref()),
            Dataset::OpenAlex => openalex::extract_doi_prefix(doi.as_ref()),
        };
        assert(owned_text(primary) == primary_of(self.dataset, record@));
        assert(owned_text(doi) == doi_of(self.dataset, record@));
        assert(owned_text(group) == group_of(self.dataset, record@));
        assert(owned_text(prefix) == prefix_of(self.dataset, record@));
        if !meets(&self.filter_group, &group) || !meets(&self.filter_doi_prefix, &prefix) {
            return RecordOutcome::FilteredOut;
        }
        let record_id = match primary {
            Some(id) => id,
            None => {
                return RecordOutcome::MissingPrimaryId;
            },
        };
        let requires_group = match self.dataset {
            Dataset::Crossref => true,
            Dataset::OpenAlex => false,
        };
        if group.is_none() && requires_group {
            return RecordOutcome::MissingGroupingKey;
        }
        let doi_prefix = match prefix {
            Some(p) => p,
            None => String::new(),
        };
        let found = self.extractor.extract(record);
        let ghost all = triples(found@);
        let ghost wanted = rows_of(self.dataset, record@, all, source_file_path@);
        match self.dataset {
            Dataset::Crossref => {
                stats.note(&record_id, None, group.as_ref(), &doi_prefix, &found);
            },
            Dataset::OpenAlex => {
                stats.note(&record_id, doi.as_ref(), group.as_ref(), &doi_prefix, &found);
            },
        }
        let mut taken: Vec<FieldData> = Vec::new();
        assert(rows(taken@) =~= wanted.take(0));
        for extraction in it: found
            invariant
                triples(it.seq()) == all,
                wanted == rows_of(self.dataset, record@, all, source_file_path@),
                record_id@ == or_empty(primary_of(self.dataset, record@)),
                owned_text(doi) == doi_of(self.dataset, record@),
                owned_text(group) == group_of(self.dataset, record@),
                doi_prefix@ == or_empty(prefix_of(self.dataset, record@)),
                rows(taken@) == wanted.take(it.index() as int),
        {
            let ghost before = taken@;
            assert(triples(it.seq())[it.index() as int] == extraction@);
            let row = FieldData {
                record_id: record_id.clone(),
                doi: clone_text(&doi),
                field_name: extraction.pattern_name,
                subfield_path: extraction.concrete_path,
                value: extraction.value,
                group_key: clone_text(&group),
                doi_prefix: doi_prefix.clone(),
                source_file_path: source_file_path.to_owned(),
            };
            assert(row@ == wanted[it.index() as int]);
            taken.push(row);
            assert(rows(taken@) =~= wanted.take(it.index() + 1)) by {
                assert(rows(taken@) =~= rows(before).push(row@));
            }
        }
        assert(wanted.take(wanted.len() as int) =~= wanted);
        RecordOutcome::Taken(taken)
    }
}

/// How many lines of a file went which way.
#[derive(Clone, Copy, Debug, PartialEq, Eq, Structural)]
pub struct LineCounts {
    pub lines_processed: usize,
    pub records_processed: usize,
    pub records_missing_id: usize,
    pub records_missing_group: usize,
    pub records_filtered_out: usize,
    pub json_parsing_errors: usize,
}

/// What becomes of a line.
pub ghost enum LineVerdict {
    /// Nothing but white space.
    Blank,
    /// Not one JSON value.
    Malformed,
    Record(Json, Verdict),
}

/// What becomes of `line`: a blank line is skipped, a line that is not one
/// JSON value is counted, any other is a record.
pub open spec fn line_verdict(
    dataset: Dataset,
    line: Seq<char>,
    patterns: Seq<Pattern>,
    filter_group: Option<Seq<char>>,
    filter_prefix: Option<Seq<char>>,
) -> LineVerdict {
    if trim_text(line).len() == 0 {
        LineVerdict::Blank
    } else {
        match parsed_json(line) {
            Some(record) => LineVerdict::Record(
                record,
                verdict(dataset, record, patterns, filter_group, filter_prefix),
            ),
            None => LineVerdict::Malformed,
        }
    }
}

/// One more, held at the largest value.
pub open spec fn next_count(n: usize) -> usize {
    if n == usize::MAX {
        n
    } else {
        (n + 1) as usize
    }
}

/// The counts after a line. A record that is taken without a grouping key
/// is counted as missing it.
pub open spec fn counts_after(counts: LineCounts, dataset: Dataset, line: LineVerdict) -> LineCounts {
    let seen = LineCounts { lines_processed: next_count(counts.lines_processed), ..counts };
    match line {
        LineVerdict::Blank => seen,
        LineVerdict::Malformed => LineCounts {
            json_parsing_errors: next_count(seen.json_parsing_errors),
            ..seen
        },
        LineVerdict::Record(record, outcome) => {
            let parsed = LineCounts { records_processed: next_count(seen.records_processed), ..seen };
            match outcome {
                Verdict::FilteredOut => LineCounts {
                    records_filtered_out: next_count(parsed.records_filtered_out),
                    ..parsed
                },
                Verdict::MissingPrimaryId => LineCounts {
                    records_missing_id: next_count(parsed.records_missing_id),
                    ..parsed
                },
                Verdict::MissingGroupingKey => LineCounts {
                    records_missing_group: next_count(parsed.records_missing_group),
                    ..parsed
                },
                Verdict::Taken(_) => if group_of(dataset, record) is None {
                    LineCounts {
                        records_missing_group: next_count(parsed.records_missing_group),
                        ..parsed
                    }
                } else {
                    parsed
                },
            }
        },
    }
}

/// The rows that a line gives.
pub open spec fn line_rows(line: LineVerdict, dataset: Dataset, source_file_path: Seq<char>) -> Seq<
    FieldRow,
> {
    match line {
        LineVerdict::Record(record, Verdict::Taken(found)) => rows_of(
            dataset,
            record,
            found,
            source_file_path,
        ),
        _ => Seq::empty(),
    }
}

/// The file statistics after a line.
pub open spec fn line_stats(stats: StatsModel, line: LineVerdict, dataset: Dataset) -> StatsModel {
    match line {
        LineVerdict::Record(record, Verdict::Taken(found)) => noted(
            stats,
            or_empty(primary_of(dataset, record)),
            match dataset {
                Dataset::Crossref => None,
                Dataset::OpenAlex => doi_of(dataset, record),
            },
            group_of(dataset, record),
            or_empty(prefix_of(dataset, record)),
            found,
        ),
        _ => stats,
    }
}

/// The rows of each of a sequence of batches.
pub open spec fn row_batches(batches: Seq<Seq<FieldData>>) -> Seq<Seq<FieldRow>> {
    Seq::new(batches.len(), |i: int| rows(batches[i]))
}

proof fn lemma_batched_rows(pending: Seq<FieldData>, added: Seq<FieldData>, size: usize)
    ensures
        rows(pending_after(pending, added, size)) == pending_after(rows(pending), rows(added), size),
        row_batches(released(pending, added, size)) == released(rows(pending), rows(added), size),
    decreases added.len(),
{
    if added.len() == 0 {
        assert(row_batches(released(pending, added, size)) =~= Seq::empty());
    } else {
        let front = added.drop_last();
        lemma_batched_rows(pending, front, size);
        assert(rows(added).drop_last() =~= rows(front));
        let grown = pending_after(pending, front, size).push(added.last());
        let grown_rows = pending_after(rows(pending), rows(front), size).push(rows(added).last());
        assert(rows(grown) =~= grown_rows);
        if grown.len() >= size {
            assert(rows(Seq::<FieldData>::empty()) =~= Seq::<FieldRow>::empty());
            assert(row_batches(released(pending, front, size).push(grown)) =~= row_batches(
                released(pending, front, size),
            ).push(rows(grown)));
        }
    }
}

fn bump(n: usize) -> (r: usize)
    ensures
        r == next_count(n),
{
    n.saturating_add(1)
}

/// The state of the work on one input file.
pub struct FileRun {
    source_file_path: String,
    stats: FileStats,
    counts: LineCounts,
    batcher: Batcher<FieldData>,
}

/// What a finished file leaves: its statistics and counts, and the rows
/// that were still waiting for their batch to fill.
pub struct FinishedFile {
    pub stats: FileStats,
    pub counts: LineCounts,
    pub last_batch: Option<Vec<FieldData>>,
}

impl FileRun {
    /// The path of the file.
    pub closed spec fn path(&self) -> Seq<char> {
        self.source_file_path@
    }

    /// The statistics so far.
    pub closed spec fn stats(&self) -> StatsModel {
        self.stats@
    }

    /// The counts so far.
    pub closed spec fn counts(&self) -> LineCounts {
        self.counts
    }

    /// The rows that wait for their batch to fill.
    pub closed spec fn pending(&self) -> Seq<FieldRow> {
        rows(self.batcher.pending())
    }

    /// The number of rows at which a batch is released.
    pub closed spec fn batch_size(&self) -> usize {
        self.batcher.size()
    }

    /// The start of the work on the file at `source_file_path`.
    pub fn new(source_file_path: &str, batch_size: usize) -> (run: FileRun)
        ensures
            run.path() == source_file_path@,
            run.stats() == no_stats(),
            run.counts() == (LineCounts {
                lines_processed: 0,
                records_processed: 0,
                records_missing_id: 0,
                records_missing_group: 0,
                records_filtered_out: 0,
                json_parsing_errors: 0,
            }),
            run.pending() == Seq::<FieldRow>::empty(),
            run.batch_size() == batch_size,
    {
        let run = FileRun {
            source_file_path: source_file_path.to_owned(),
            stats: FileStats::new(),
            counts: LineCounts {
                lines_processed: 0,
                records_processed: 0,
                records_missing_id: 0,
                records_missing_group: 0,
                records_filtered_out: 0,
                json_parsing_errors: 0,
            },
            batcher: Batcher::new(batch_size),
        };
        assert(run.pending() =~= Seq::empty());
        run
    }

    /// Takes the next line of the file. The rows that it gives join those
    /// that wait; the batches that they fill are handed out, in order, to be
    /// sent to the writer.
    pub fn feed(&mut self, processor: &JsonlProcessor, line: &str) -> (full: Vec<Vec<FieldData>>)
        ensures
            final(self).path() == old(self).path(),
            final(self).batch_size() == old(self).batch_size(),
            final(self).counts() == counts_after(
                old(self).counts(),
                processor.dataset,
                line_verdict(
                    processor.dataset,
                    line@,
                    processor.patterns(),
                    owned_text(processor.filter_group),
                    owned_text(processor.filter_doi_prefix),
                ),
            ),
            final(self).stats() == line_stats(
                old(self).stats(),
                line_verdict(
                    processor.dataset,
                    line@,
                    processor.patterns(),
                    owned_text(processor.filter_group),
                    owned_text(processor.filter_doi_prefix),
                ),
                processor.dataset,
            ),
            final(self).pending() == pending_after(
                old(self).pending(),
                line_rows(
                    line_verdict(
                        processor.dataset,
                        line@,
                        processor.patterns(),
                        owned_text(processor.filter_group),
                        owned_text(processor.filter_doi_prefix),
                    ),
                    processor.dataset,
                    old(self).path(),
                ),
                old(self).batch_size(),
            ),
            row_batches(batch_views(full@)) == released(
                old(self).pending(),
                line_rows(
                    line_verdict(
                        processor.dataset,
                        line@,
                        processor.patterns(),
                        owned_text(processor.filter_group),
                        owned_text(processor.filter_doi_prefix),
                    ),
                    processor.dataset,
                    old(self).path(),
                ),
                old(self).batch_size(),
            ),
    {
        let ghost decided = line_verdict(
            processor.dataset,
            line@,
            processor.patterns(),
            owned_text(processor.filter_group),
            owned_text(processor.filter_doi_prefix),
        );
        self.counts.lines_processed = bump(self.counts.lines_processed);
        let no_batches: Vec<Vec<FieldData>> = Vec::new();
        proof {
            assert(row_batches(batch_views(no_batches@)) =~= Seq::<Seq<FieldRow>>::empty());
        }
        if trim(&chars_of(line)).len() == 0 {
            return no_batches;
        }
        let record = match JsonDoc::parse(line) {
            Some(record) => record,
            None => {
                self.counts.json_parsing_errors = bump(self.counts.json_parsing_errors);
                return no_batches;
            },
        };
        self.counts.records_processed = bump(self.counts.records_processed);
        match processor.process_record(&record, self.source_file_path.as_str(), &mut self.stats) {
            RecordOutcome::FilteredOut => {
                self.counts.records_filtered_out = bump(self.counts.records_filtered_out);
                no_batches
            },
            RecordOutcome::MissingPrimaryId => {
                self.counts.records_missing_id = bump(self.counts.records_missing_id);
                no_batches
            },
            RecordOutcome::MissingGroupingKey => {
                self.counts.records_missing_group = bump(self.counts.records_missing_group);
                no_batches
            },
            RecordOutcome::Taken(taken) => {
                let without_group = match processor.dataset {
                    Dataset::Crossref => crossref::extract_member_id(&record).is_none(),
                    Dataset::OpenAlex => openalex::extract_source_id(&record).is_none(),
                };
                if without_group {
                    self.counts.records_missing_group = bump(self.counts.records_missing_group);
                }
                proof {
                    lemma_batched_rows(old(self).batcher.pending(), taken@, old(self).batcher.size());
                }
                self.batcher.extend(taken)
            },
        }
    }

    /// Passes over a line of the file that could not be read: it is
    /// counted as a line, and nothing else changes.
    pub fn skip_unreadable(&mut self)
        ensures
            final(self).path() == old(self).path(),
            final(self).batch_size() == old(self).batch_size(),
            final(self).counts() == (LineCounts {
                lines_processed: next_count(old(self).counts().lines_processed),
                ..old(self).counts()
            }),
            final(self).stats() == old(self).stats(),
            final(self).pending() == old(self).pending(),
    {
        self.counts.lines_processed = bump(self.counts.lines_processed);
    }

    /// Ends the work on the file.
    pub fn finish(self) -> (done: FinishedFile)
        ensures
            done.stats@ == self.stats(),
            done.counts == self.counts(),
            match done.last_batch {
                Some(batch) => rows(batch@) == self.pending() && batch@.len() > 0,
                None => self.pending().len() == 0,
            },
    {
        let FileRun { source_file_path, stats, counts, batcher } = self;
        FinishedFile { stats, counts, last_batch: batcher.finish() }
    }
}

/// What an extraction run is set to do: the dataset, the patterns, and the
/// user's filters.
pub ghost struct Settings {
    pub dataset: Dataset,
    pub patterns: Seq<Pattern>,
    pub filter_group: Option<Seq<char>>,
    pub filter_prefix: Option<Seq<char>>,
}

/// The work on a file so far, as plain values: the statistics and counts,
/// the rows that wait for their batch to fill, and the batches handed on.
pub ghost struct Progress {
    pub stats: StatsModel,
    pub counts: LineCounts,
    pub pending: Seq<FieldRow>,
    pub sent: Seq<Seq<FieldRow>>,
}

/// The work on a file before its first line.
pub open spec fn no_progress() -> Progress {
    Progress {
        stats: no_stats(),
        counts: LineCounts {
            lines_processed: 0,
            records_processed: 0,
            records_missing_id: 0,
            records_missing_group: 0,
            records_filtered_out: 0,
            json_parsing_errors: 0,
        },
        pending: Seq::empty(),
        sent: Seq::empty(),
    }
}

/// The work on a file after one more line.
pub open spec fn after_line(
    progress: Progress,
    line: Seq<char>,
    settings: Settings,
    source_file_path: Seq<char>,
    batch_size: usize,
) -> Progress {
    let decided = line_verdict(
        settings.dataset,
        line,
        settings.patterns,
        settings.filter_group,
        settings.filter_prefix,
    );
    let found = line_rows(decided, settings.dataset, source_file_path);
    Progress {
        stats: line_stats(progress.stats, decided, settings.dataset),
        counts: counts_after(progress.counts, settings.dataset, decided),
        pending: pending_after(progress.pending, found, batch_size),
        sent: progress.sent + released(progress.pending, found, batch_size),
    }
}

/// The work on a file after `lines`, in order.
pub open spec fn after_lines(
    lines: Seq<Seq<char>>,
    settings: Settings,
    source_file_path: Seq<char>,
    batch_size: usize,
) -> Progress
    decreases lines.len(),
{
    if lines.len() == 0 {
        no_progress()
    } else {
        after_line(
            after_lines(lines.drop_last(), settings, source_file_path, batch_size),
            lines.last(),
            settings,
            source_file_path,
            batch_size,
        )
    }
}

/// The batches of a finished file: those handed on while it was read, and
/// at the end the rows that still waited, if there were any.
pub open spec fn all_batches(progress: Progress) -> Seq<Seq<FieldRow>> {
    if progress.pending.len() > 0 {
        progress.sent.push(progress.pending)
    } else {
        progress.sent
    }
}

/// What the work on a whole file gives.
pub struct ProcessedLines {
    pub stats: FileStats,
    pub counts: LineCounts,
    /// The batches for the writer, in order.
    pub batches: Vec<Vec<FieldData>>,
}

impl JsonlProcessor {
    /// What this run is set to do.
    pub open spec fn settings(&self) -> Settings {
        Settings {
            dataset: self.dataset,
            patterns: self.patterns(),
            filter_group: owned_text(self.filter_group),
            filter_prefix: owned_text(self.filter_doi_prefix),
        }
    }

    /// Processes the lines of one input file, in order: each line is read as
    /// a record, filtered and extracted from; the rows are handed on in
    /// batches of `batch_size` rows, the last batch with what is left.
    pub fn process(&self, lines: &Vec<String>, filepath: &str, batch_size: usize) -> (done:
        ProcessedLines)
        ensures
            done.stats@ == after_lines(strs(lines@), self.settings(), filepath@, batch_size).stats,
            done.counts == after_lines(
                strs(lines@),
                self.settings(),
                filepath@,
                batch_size,
            ).counts,
            row_batches(batch_views(done.batches@)) == all_batches(
                after_lines(strs(lines@), self.settings(), filepath@, batch_size),
            ),
    {
        let mut run = FileRun::new(filepath, batch_size);
        let mut batches: Vec<Vec<FieldData>> = Vec::new();
        let mut i: usize = 0;
        assert(row_batches(batch_views(batches@)) =~= Seq::empty());
        while i < lines.len()
            invariant
                i <= lines.len(),
                run.path() == filepath@,
                run.batch_size() == batch_size,
                run.stats() == after_lines(
                    strs(lines@).take(i as int),
                    self.settings(),
                    filepath@,
                    batch_size,
                ).stats,
                run.counts() == after_lines(
                    strs(lines@).take(i as int),
                    self.settings(),
                    filepath@,
                    batch_size,
                ).counts,
                run.pending() == after_lines(
                    strs(lines@).take(i as int),
                    self.settings(),
                    filepath@,
                    batch_size,
                ).pending,
                row_batches(batch_views(batches@)) == after_lines(
                    strs(lines@).take(i as int),
                    self.settings(),
                    filepath@,
                    batch_size,
                ).sent,
            decreases lines.len() - i,
        {
            proof {
                let next = strs(lines@).take(i + 1);
                assert(next.drop_last() =~= strs(lines@).take(i as int));
                assert(next.last() == lines@[i as int]@);
            }
            let mut full = run.feed(self, lines[i].as_str());
            let ghost before = batches@;
            let ghost added = full@;
            batches.append(&mut full);
            assert(row_batches(batch_views(batches@)) =~= row_batches(batch_views(before))
                + row_batches(batch_views(added)));
            i += 1;
        }
        assert(strs(lines@).take(lines.len() as int) =~= strs(lines@));
        let finished = run.finish();
        match finished.last_batch {
            Some(batch) => {
                let ghost before = batches@;
                batches.push(batch);
                assert(row_batches(batch_views(batches@)) =~= row_batches(
                    batch_views(before),
                ).push(rows(batch@)));
            },
            None => {},
        }
        ProcessedLines { stats: finished.stats, counts: finished.counts, batches }
    }
}

} // verus!
