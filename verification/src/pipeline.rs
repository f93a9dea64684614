//! The decisions of a run that stand around the workers and the writer:
//! queue sizes, thread counts, the log level, and the writer's tally.

use vstd::prelude::*;
use crate::aggregate::{failed, merged, IncrementalStats, RunModel};
use crate::counts::Count;
use crate::crossref::crossref_extractor;
use crate::crossref_schema::crossref_rows;
use crate::fields::{field_specifications, parse_field_specifications};
use crate::openalex::openalex_extractor;
use crate::openalex_schema::openalex_rows;
use crate::processor::Dataset;
use crate::sorting::{falling, sort_by_count};
use crate::trie::{compiled, Pattern, PatternTrie};
use crate::stats::FileStats;
use crate::text::{decimal, decimal_text, lemma_strs_push, same_text, strs};

verus! {

/// The number of rows in a batch for the writer, unless the user says
/// otherwise.
pub const DEFAULT_BATCH_SIZE: usize = 10000;

/// The largest number of open files of the sharded writer, unless the user
/// says otherwise.
pub const DEFAULT_MAX_OPEN_FILES: usize = 100;

/// The number of records in a chunk of the sort, unless the user says
/// otherwise.
pub const DEFAULT_CHUNK_SIZE: usize = 500000;

/// The name of the table that the transform writes where the user names
/// none: the name of the input without its extension, with `_processed.csv`
/// after it.
pub fn default_output_name(input_stem: &str) -> (name: String)
    ensures
        name@ == input_stem@ + "_processed.csv"@,
{
    let mut name = input_stem.to_owned();
    name.append("_processed.csv");
    name
}

/// The pattern of the names of the input files of a dataset, below the
/// input directory.
pub open spec fn file_pattern_of(dataset: Dataset) -> Seq<char> {
    match dataset {
        Dataset::Crossref => "**/*.jsonl.gz"@,
        Dataset::OpenAlex => "**/*.gz"@,
    }
}

/// The pattern of the names of the input files of a dataset.
pub fn file_pattern(dataset: Dataset) -> (pattern: String)
    ensures
        pattern@ == file_pattern_of(dataset),
{
    match dataset {
        Dataset::Crossref => "**/*.jsonl.gz".to_owned(),
        Dataset::OpenAlex => "**/*.gz".to_owned(),
    }
}

/// The patterns that the fields asked for compile to under the schema of the
/// dataset.
pub open spec fn patterns_for(dataset: Dataset, fields: Seq<char>) -> Seq<Pattern> {
    match dataset {
        Dataset::Crossref => compiled(field_specifications(fields), crossref_rows()),
        Dataset::OpenAlex => compiled(field_specifications(fields), openalex_rows()),
    }
}

/// Compiles the fields that the user asked for. `None` where the list names
/// no field.
pub fn prepare_extractor(dataset: Dataset, fields: &str) -> (r: Option<PatternTrie>)
    ensures
        r is Some == (field_specifications(fields@).len() > 0),
        r matches Some(trie) ==> trie@ == patterns_for(dataset, fields@),
{
    let field_specs = parse_field_specifications(fields);
    if field_specs.len() == 0 {
        return None;
    }
    Some(
        match dataset {
            Dataset::Crossref => crossref_extractor(&field_specs),
            Dataset::OpenAlex => openalex_extractor(&field_specs),
        },
    )
}

/// The number of row batches that the writer queue holds: four per worker,
/// and at least eight.
pub open spec fn queue_size(workers: usize) -> usize {
    if workers * 4 > usize::MAX {
        usize::MAX
    } else if workers * 4 < 8 {
        8
    } else {
        (workers * 4) as usize
    }
}

/// The number of row batches that the writer queue holds.
pub fn channel_capacity(workers: usize) -> (capacity: usize)
    ensures
        capacity == queue_size(workers),
{
    let four = if workers > usize::MAX / 4 {
        usize::MAX
    } else {
        workers * 4
    };
    if four < 8 {
        8
    } else {
        four
    }
}

/// The number of blocks that the queue of the sort holds: two per worker.
pub fn block_queue_capacity(workers: usize) -> (capacity: usize)
    ensures
        capacity == if workers * 2 > usize::MAX {
            usize::MAX
        } else {
            (workers * 2) as usize
        },
{
    if workers > usize::MAX / 2 {
        usize::MAX
    } else {
        workers * 2
    }
}

/// The number of worker threads: the number asked for, or the number of
/// processors that was detected where 0 was asked for.
pub fn worker_count(requested: usize, detected: usize) -> (workers: usize)
    ensures
        workers == if requested == 0 {
            detected
        } else {
            requested
        },
{
    if requested == 0 {
        detected
    } else {
        requested
    }
}

/// A log level.
#[derive(Clone, Copy, Debug, PartialEq, Eq, Structural)]
pub enum LogLevel {
    Debug,
    Info,
    Warn,
    Error,
}

/// The text with its letters in upper case, as `str::to_uppercase` gives it.
pub uninterp spec fn upper_case(text: Seq<char>) -> Seq<char>;

/// Calls `str::to_uppercase`. The result is `text` with its letters in
/// upper case.
#[verifier::external_body]
fn to_upper(text: &str) -> (out: String)
    ensures
        out@ == upper_case(text@),
{
    text.to_uppercase()
}

/// The log level that an upper-case name stands for.
pub open spec fn level_named(name: Seq<char>) -> Option<LogLevel> {
    if name == "DEBUG"@ {
        Some(LogLevel::Debug)
    } else if name == "INFO"@ {
        Some(LogLevel::Info)
    } else if name == "WARN"@ || name == "WARNING"@ {
        Some(LogLevel::Warn)
    } else if name == "ERROR"@ {
        Some(LogLevel::Error)
    } else {
        None
    }
}

/// The log level that an upper-case name stands for.
pub fn level_of_name(name: &str) -> (level: Option<LogLevel>)
    ensures
        level == level_named(name@),
{
    if same_text(name, "DEBUG") {
        Some(LogLevel::Debug)
    } else if same_text(name, "INFO") {
        Some(LogLevel::Info)
    } else if same_text(name, "WARN") || same_text(name, "WARNING") {
        Some(LogLevel::Warn)
    } else if same_text(name, "ERROR") {
        Some(LogLevel::Error)
    } else {
        None
    }
}

/// The log level that the user asked for, in any case of letters; `None`
/// for a name that is none, for which the caller falls back to `Info`.
pub fn parse_log_level(text: &str) -> (level: Option<LogLevel>)
    ensures
        level == level_named(upper_case(text@)),
{
    let upper = to_upper(text);
    level_of_name(upper.as_str())
}

/// `n` in decimal with at least three digits.
pub open spec fn three_digits(n: nat) -> Seq<char> {
    if n < 10 {
        seq!['0', '0'] + decimal_text(n)
    } else if n < 100 {
        seq!['0'] + decimal_text(n)
    } else {
        decimal_text(n)
    }
}

/// A duration for the eye: hours, minutes and seconds where it reaches an
/// hour; minutes and seconds where it reaches a minute; else seconds with
/// milliseconds.
pub open spec fn elapsed_text(seconds: u64, milliseconds: u32) -> Seq<char> {
    let hours = (seconds / 3600) as nat;
    let minutes = ((seconds % 3600) / 60) as nat;
    let rest = (seconds % 60) as nat;
    if hours > 0 {
        decimal_text(hours) + "h "@ + decimal_text(minutes) + "m "@ + decimal_text(rest) + "s"@
    } else if minutes > 0 {
        decimal_text(minutes) + "m "@ + decimal_text(rest) + "s"@
    } else {
        decimal_text(rest) + "."@ + three_digits(milliseconds as nat) + "s"@
    }
}

/// Writes a duration, given in whole seconds and the milliseconds beyond
/// them, for the eye.
pub fn format_elapsed(seconds: u64, milliseconds: u32) -> (out: String)
    ensures
        out@ == elapsed_text(seconds, milliseconds),
{
    let hours = seconds / 3600;
    let minutes = (seconds % 3600) / 60;
    let rest = seconds % 60;
    let mut out = String::new();
    if hours > 0 {
        out.append(decimal(hours).as_str());
        out.append("h ");
        out.append(decimal(minutes).as_str());
        out.append("m ");
        out.append(decimal(rest).as_str());
        out.append("s");
        assert(out@ =~= elapsed_text(seconds, milliseconds));
    } else if minutes > 0 {
        out.append(decimal(minutes).as_str());
        out.append("m ");
        out.append(decimal(rest).as_str());
        out.append("s");
        assert(out@ =~= elapsed_text(seconds, milliseconds));
    } else {
        out.append(decimal(rest).as_str());
        out.append(".");
        if milliseconds < 10 {
            out.push('0');
            out.push('0');
        } else if milliseconds < 100 {
            out.push('0');
        }
        out.append(decimal(milliseconds as u64).as_str());
        out.append("s");
        assert(out@ =~= elapsed_text(seconds, milliseconds));
    }
    out
}

/// What the writer has written.
#[derive(Clone, Copy, Debug, PartialEq, Eq, Structural)]
pub struct WriterTally {
    pub batches_written: usize,
    pub records_written: usize,
    /// Batches that could not be written, and were lost.
    pub batches_lost: usize,
}

/// The tally after a batch of `rows` rows: an empty batch is passed over, a
/// batch that was written counts with its rows, one that failed is lost.
pub open spec fn tallied(tally: WriterTally, rows: usize, written: bool) -> WriterTally {
    if rows == 0 {
        tally
    } else if written {
        WriterTally {
            batches_written: if tally.batches_written == usize::MAX {
                usize::MAX
            } else {
                (tally.batches_written + 1) as usize
            },
            records_written: if tally.records_written + rows > usize::MAX {
                usize::MAX
            } else {
                (tally.records_written + rows) as usize
            },
            ..tally
        }
    } else {
        WriterTally {
            batches_lost: if tally.batches_lost == usize::MAX {
                usize::MAX
            } else {
                (tally.batches_lost + 1) as usize
            },
            ..tally
        }
    }
}

impl WriterTally {
    /// The tally of a writer that has written nothing.
    pub fn new() -> (tally: WriterTally)
        ensures
            tally == (WriterTally { batches_written: 0, records_written: 0, batches_lost: 0 }),
    {
        WriterTally { batches_written: 0, records_written: 0, batches_lost: 0 }
    }

    /// Whether a batch of `rows` rows is handed to the output at all: an
    /// empty one is not.
    pub fn takes(rows: usize) -> (r: bool)
        ensures
            r == (rows > 0),
    {
        rows > 0
    }

    /// Notes a batch of `rows` rows; `written` says whether the output
    /// took it.
    pub fn note(&mut self, rows: usize, written: bool)
        ensures
            *final(self) == tallied(*old(self), rows, written),
    {
        if rows == 0 {
            return ;
        }
        if written {
            self.batches_written = self.batches_written.saturating_add(1);
            self.records_written = self.records_written.saturating_add(rows);
        } else {
            self.batches_lost = self.batches_lost.saturating_add(1);
        }
    }
}

/// The number of fields that the summary of a run lists.
pub const FIELDS_SHOWN: usize = 20;

/// The number of failed files that the summary of a run lists.
pub const FAILURES_SHOWN: usize = 10;

/// The number of grouping keys from which on the summary lists none.
pub const GROUPS_LIMIT: usize = 50;

/// What the summary of a run says of the grouping keys.
#[derive(Clone, Copy, Debug, PartialEq, Eq, Structural)]
pub enum GroupSummary {
    /// There are none: nothing is said.
    Silent,
    /// Each key is listed with its count.
    Listed,
    /// There are too many: only their number is given.
    Counted,
}

/// What the summary says of `groups` grouping keys.
pub fn group_summary(groups: usize) -> (r: GroupSummary)
    ensures
        r == if groups == 0 {
            GroupSummary::Silent
        } else if groups < GROUPS_LIMIT {
            GroupSummary::Listed
        } else {
            GroupSummary::Counted
        },
{
    if groups == 0 {
        GroupSummary::Silent
    } else if groups < GROUPS_LIMIT {
        GroupSummary::Listed
    } else {
        GroupSummary::Counted
    }
}

/// The entries of a count list for the summary: the largest count first.
pub fn ranked(counts: Vec<Count>) -> (out: Vec<Count>)
    ensures
        out@.to_multiset() == counts@.to_multiset(),
        out@.len() == counts@.len(),
        falling(out@),
{
    let mut out = counts;
    sort_by_count(&mut out);
    out
}

/// What the work on one input file left.
pub struct ProcessedFileResult {
    pub stats: FileStats,
    /// What went wrong, where the file could not be opened or the writer
    /// queue was closed.
    pub error: Option<String>,
    pub filepath: String,
}

/// The statistics of a run after the results of files, in order: a file
/// with an error counts as failed, any other is merged.
pub open spec fn absorbed(run: RunModel, results: Seq<ProcessedFileResult>) -> RunModel
    decreases results.len(),
{
    if results.len() == 0 {
        run
    } else {
        let before = absorbed(run, results.drop_last());
        if results.last().error is Some {
            failed(before)
        } else {
            merged(before, results.last().stats@)
        }
    }
}

/// The paths of the files with an error, in order.
pub open spec fn failures(results: Seq<ProcessedFileResult>) -> Seq<Seq<char>>
    decreases results.len(),
{
    if results.len() == 0 {
        Seq::empty()
    } else {
        let before = failures(results.drop_last());
        if results.last().error is Some {
            before.push(results.last().filepath@)
        } else {
            before
        }
    }
}

/// Takes the results of the files into the statistics of the run. Hands
/// out the paths of the files with an error.
pub fn absorb_results(stats: &mut IncrementalStats, results: &Vec<ProcessedFileResult>) -> (files_with_errors:
    Vec<String>)
    ensures
        final(stats)@ == absorbed(old(stats)@, results@),
        strs(files_with_errors@) == failures(results@),
{
    let mut files_with_errors: Vec<String> = Vec::new();
    let mut i: usize = 0;
    assert(strs(files_with_errors@) =~= Seq::empty());
    while i < results.len()
        invariant
            i <= results.len(),
            stats@ == absorbed(old(stats)@, results@.take(i as int)),
            strs(files_with_errors@) == failures(results@.take(i as int)),
        decreases results.len() - i,
    {
        proof {
            assert(results@.take(i + 1).drop_last() =~= results@.take(i as int));
            assert(results@.take(i + 1).last() == results@[i as int]);
        }
        let result = &results[i];
        if result.error.is_some() {
            stats.increment_error_files();
            let path = result.filepath.clone();
            proof {
                lemma_strs_push(files_with_errors@, path);
            }
            files_with_errors.push(path);
        } else {
            stats.aggregate_file_stats(&result.stats);
        }
        i += 1;
    }
    assert(results@.take(results.len() as int) =~= results@);
    files_with_errors
}

} // verus!
