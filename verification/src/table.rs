//! The tabular files of the transform stage: the rows that it reads, and the
//! rows of the author/affiliation table that it writes.

use vstd::prelude::*;
use crate::crossref::owned_text;
use crate::output::{
    append_encoded, bytes_of, csv_record, csv_text, encode_record, lemma_csv_text_fails,
};
use crate::order::ascending;
use crate::processor::Dataset;
use crate::reshape::{output_rows, OutputRecord, OutputRow};
use crate::row::{input_rows, keys_of, InputRecord, InputRow};
use crate::sort::sort_records;
use crate::text::{decimal, decimal_text, same_text, strs};

verus! {

/// The records that `csv::Reader::records` reads from `bytes`, without a
/// header row and with rows of any length: the fields of each record, or
/// `None` for a record that the crate reports as an error.
pub uninterp spec fn csv_records(bytes: Seq<u8>) -> Seq<Option<Seq<Seq<char>>>>;

/// The fields of each of a sequence of decoded records.
pub open spec fn decoded(records: Seq<Option<Vec<String>>>) -> Seq<Option<Seq<Seq<char>>>> {
    Seq::new(
        records.len(),
        |i: int|
            match records[i] {
                Some(fields) => Some(strs(fields@)),
                None => None,
            },
    )
}

/// Reads CSV records from memory with `csv::ReaderBuilder::from_reader` and
/// `csv::Reader::records`, headers off and flexible on.
#[verifier::external_body]
pub(crate) fn decode_records(bytes: &Vec<u8>) -> (records: Vec<Option<Vec<String>>>)
    ensures
        decoded(records@) == csv_records(bytes@),
{
    let mut reader = csv::ReaderBuilder::new().has_headers(false).flexible(true).from_reader(
        bytes.as_slice(),
    );
    reader.records().map(
        |record| record.ok().map(|fields| fields.iter().map(|f| f.to_string()).collect()),
    ).collect()
}

/// The position of the first of `names` that is `name`.
pub open spec fn column_named(names: Seq<Seq<char>>, name: Seq<char>) -> Option<usize>
    decreases names.len(),
{
    if names.len() == 0 {
        None
    } else {
        match column_named(names.drop_last(), name) {
            Some(i) => Some(i),
            None => if names.last() == name && names.len() - 1 <= usize::MAX {
                Some((names.len() - 1) as usize)
            } else {
                None
            },
        }
    }
}

/// Where the columns of the input stand, by the header of the file.
#[derive(Clone, Copy, Debug, PartialEq, Eq, Structural)]
pub struct Columns {
    pub work_id: Option<usize>,
    pub doi: Option<usize>,
    pub field_name: Option<usize>,
    pub subfield_path: Option<usize>,
    pub value: Option<usize>,
    pub source_id: Option<usize>,
    pub doi_prefix: Option<usize>,
    pub source_file_path: Option<usize>,
}

/// The columns that the header `names` gives. The key of an OpenAlex row
/// is its work id; that of a Crossref row is its DOI, and its grouping key
/// is the member id.
pub open spec fn columns_in(dataset: Dataset, names: Seq<Seq<char>>) -> Columns {
    match dataset {
        Dataset::OpenAlex => Columns {
            work_id: column_named(names, "work_id"@),
            doi: column_named(names, "doi"@),
            field_name: column_named(names, "field_name"@),
            subfield_path: column_named(names, "subfield_path"@),
            value: column_named(names, "value"@),
            source_id: column_named(names, "source_id"@),
            doi_prefix: column_named(names, "doi_prefix"@),
            source_file_path: column_named(names, "source_file_path"@),
        },
        Dataset::Crossref => Columns {
            work_id: column_named(names, "doi"@),
            doi: None,
            field_name: column_named(names, "field_name"@),
            subfield_path: column_named(names, "subfield_path"@),
            value: column_named(names, "value"@),
            source_id: column_named(names, "member_id"@),
            doi_prefix: column_named(names, "doi_prefix"@),
            source_file_path: None,
        },
    }
}

/// The field of a row in the column `column`.
pub open spec fn field_at(fields: Seq<Seq<char>>, column: Option<usize>) -> Option<Seq<char>> {
    match column {
        Some(i) => if i < fields.len() {
            Some(fields[i as int])
        } else {
            None
        },
        None => None,
    }
}

/// An optional field: an empty one counts as missing.
pub open spec fn optional(field: Option<Seq<char>>) -> Option<Seq<char>> {
    match field {
        Some(text) => if text.len() > 0 {
            Some(text)
        } else {
            None
        },
        None => None,
    }
}

/// The input row that the fields of a record give. A record without a work
/// id, field name, subfield path or value gives none.
pub open spec fn row_of(fields: Seq<Seq<char>>, columns: Columns) -> Option<InputRow> {
    if field_at(fields, columns.work_id) is Some && field_at(fields, columns.field_name) is Some
        && field_at(fields, columns.subfield_path) is Some && field_at(fields, columns.value)
        is Some {
        Some(
            InputRow {
                work_id: field_at(fields, columns.work_id)->0,
                doi: optional(field_at(fields, columns.doi)),
                field_name: field_at(fields, columns.field_name)->0,
                subfield_path: field_at(fields, columns.subfield_path)->0,
                value: field_at(fields, columns.value)->0,
                source: optional(field_at(fields, columns.source_id)),
                doi_prefix: optional(field_at(fields, columns.doi_prefix)),
                source_file_path: optional(field_at(fields, columns.source_file_path)),
            },
        )
    } else {
        None
    }
}

/// The input row of a decoded record: none for a record that could not be
/// decoded.
pub open spec fn row_in(record: Option<Seq<Seq<char>>>, columns: Columns) -> Option<InputRow> {
    match record {
        Some(fields) => row_of(fields, columns),
        None => None,
    }
}

/// The rows that `records` give, in order; records that give none are left
/// out.
pub open spec fn accepted(records: Seq<Option<Seq<Seq<char>>>>, columns: Columns) -> Seq<InputRow>
    decreases records.len(),
{
    if records.len() == 0 {
        Seq::empty()
    } else {
        let before = accepted(records.drop_last(), columns);
        match row_in(records.last(), columns) {
            Some(row) => before.push(row),
            None => before,
        }
    }
}

/// The position of the column `name` in the header `names`.
pub fn find_column(names: &Vec<String>, name: &str) -> (r: Option<usize>)
    ensures
        r == column_named(strs(names@), name@),
{
    let mut i: usize = 0;
    assert(strs(names@).take(0).len() == 0);
    while i < names.len()
        invariant
            i <= names.len(),
            column_named(strs(names@).take(i as int), name@) is None,
        decreases names.len() - i,
    {
        proof {
            assert(strs(names@).take(i + 1).drop_last() =~= strs(names@).take(i as int));
            assert(strs(names@).take(i + 1).last() == names@[i as int]@);
        }
        if same_text(names[i].as_str(), name) {
            proof {
                lemma_column_stays(strs(names@), name@, i + 1);
            }
            return Some(i);
        }
        i += 1;
    }
    assert(strs(names@).take(names.len() as int) =~= strs(names@));
    None
}

proof fn lemma_column_stays(names: Seq<Seq<char>>, name: Seq<char>, n: int)
    requires
        0 <= n <= names.len(),
        column_named(names.take(n), name) is Some,
    ensures
        column_named(names, name) == column_named(names.take(n), name),
    decreases names.len() - n,
{
    if n < names.len() {
        assert(names.take(n + 1).drop_last() =~= names.take(n));
        lemma_column_stays(names, name, n + 1);
    } else {
        assert(names.take(n) =~= names);
    }
}

impl Columns {
    /// Finds the columns of the input by their names in the header.
    pub fn from_header(dataset: Dataset, names: &Vec<String>) -> (columns: Columns)
        ensures
            columns == columns_in(dataset, strs(names@)),
    {
        match dataset {
            Dataset::OpenAlex => Columns {
                work_id: find_column(names, "work_id"),
                doi: find_column(names, "doi"),
                field_name: find_column(names, "field_name"),
                subfield_path: find_column(names, "subfield_path"),
                value: find_column(names, "value"),
                source_id: find_column(names, "source_id"),
                doi_prefix: find_column(names, "doi_prefix"),
                source_file_path: find_column(names, "source_file_path"),
            },
            Dataset::Crossref => Columns {
                work_id: find_column(names, "doi"),
                doi: None,
                field_name: find_column(names, "field_name"),
                subfield_path: find_column(names, "subfield_path"),
                value: find_column(names, "value"),
                source_id: find_column(names, "member_id"),
                doi_prefix: find_column(names, "doi_prefix"),
                source_file_path: None,
            },
        }
    }
}

fn field(fields: &Vec<String>, column: Option<usize>) -> (r: Option<String>)
    ensures
        owned_text(r) == field_at(strs(fields@), column),
{
    match column {
        Some(i) => if i < fields.len() {
            Some(fields[i].clone())
        } else {
            None
        },
        None => None,
    }
}

fn optional_field(fields: &Vec<String>, column: Option<usize>) -> (r: Option<String>)
    ensures
        owned_text(r) == optional(field_at(strs(fields@), column)),
{
    match field(fields, column) {
        Some(text) => if text.as_str().is_empty() {
            None
        } else {
            Some(text)
        },
        None => None,
    }
}

/// The input row that the fields of a record give.
pub fn parse_row(fields: &Vec<String>, columns: &Columns) -> (r: Option<InputRecord>)
    ensures
        r is Some == row_of(strs(fields@), *columns) is Some,
        r matches Some(record) ==> Some(record@) == row_of(strs(fields@), *columns),
{
    let work_id = match field(fields, columns.work_id) {
        Some(text) => text,
        None => {
            return None;
        },
    };
    let field_name = match field(fields, columns.field_name) {
        Some(text) => text,
        None => {
            return None;
        },
    };
    let subfield_path = match field(fields, columns.subfield_path) {
        Some(text) => text,
        None => {
            return None;
        },
    };
    let value = match field(fields, columns.value) {
        Some(text) => text,
        None => {
            return None;
        },
    };
    Some(
        InputRecord {
            work_id,
            doi: optional_field(fields, columns.doi),
            field_name,
            subfield_path,
            value,
            source: optional_field(fields, columns.source_id),
            doi_prefix: optional_field(fields, columns.doi_prefix),
            source_file_path: optional_field(fields, columns.source_file_path),
        },
    )
}

/// The rows read from a block, and how many of its records gave none.
#[derive(Debug)]
pub struct ParsedRows {
    pub records: Vec<InputRecord>,
    pub rejected: usize,
}

/// Turns decoded records into input rows. A record that could not be
/// decoded, or that lacks a required column, is counted and left out.
pub fn parse_rows(records: &Vec<Option<Vec<String>>>, from: usize, columns: &Columns) -> (parsed:
    ParsedRows)
    requires
        from <= records@.len(),
    ensures
        input_rows(parsed.records@) == accepted(decoded(records@).skip(from as int), *columns),
        parsed.rejected + parsed.records@.len() == records@.len() - from,
{
    let ghost all = decoded(records@).skip(from as int);
    let mut out: Vec<InputRecord> = Vec::new();
    let mut rejected: usize = 0;
    let mut i: usize = from;
    assert(input_rows(out@) =~= accepted(all.take(0), *columns));
    while i < records.len()
        invariant
            from <= i <= records.len(),
            all == decoded(records@).skip(from as int),
            input_rows(out@) == accepted(all.take(i - from), *columns),
            rejected + out@.len() == i - from,
        decreases records.len() - i,
    {
        proof {
            assert(all.take(i - from + 1).drop_last() =~= all.take(i - from));
            assert(all.take(i - from + 1).last() == decoded(records@)[i as int]);
        }
        let row = match &records[i] {
            Some(fields) => parse_row(fields, columns),
            None => None,
        };
        match row {
            Some(record) => {
                let ghost before = out@;
                out.push(record);
                assert(input_rows(out@) =~= input_rows(before).push(record@));
            },
            None => {
                rejected += 1;
            },
        }
        i += 1;
    }
    assert(all.take(records.len() - from) =~= all);
    ParsedRows { records: out, rejected }
}

/// The column names of the input, in the order in which the sort writes
/// them.
pub open spec fn input_header_of(dataset: Dataset) -> Seq<Seq<char>> {
    match dataset {
        Dataset::OpenAlex => seq![
            "work_id"@,
            "doi"@,
            "field_name"@,
            "subfield_path"@,
            "value"@,
            "source_id"@,
            "doi_prefix"@,
            "source_file_path"@,
        ],
        Dataset::Crossref => seq![
            "doi"@,
            "field_name"@,
            "subfield_path"@,
            "value"@,
            "member_id"@,
            "doi_prefix"@,
        ],
    }
}

/// `text`, or the empty text where there is none.
pub open spec fn written(text: Option<Seq<char>>) -> Seq<char> {
    match text {
        Some(t) => t,
        None => Seq::empty(),
    }
}

/// The fields of an input row as the sort writes them.
pub open spec fn input_fields_of(dataset: Dataset, row: InputRow) -> Seq<Seq<char>> {
    match dataset {
        Dataset::OpenAlex => seq![
            row.work_id,
            written(row.doi),
            row.field_name,
            row.subfield_path,
            row.value,
            written(row.source),
            written(row.doi_prefix),
            written(row.source_file_path),
        ],
        Dataset::Crossref => seq![
            row.work_id,
            row.field_name,
            row.subfield_path,
            row.value,
            written(row.source),
            written(row.doi_prefix),
        ],
    }
}

/// The column names of the author/affiliation table.
pub open spec fn output_header_of(dataset: Dataset) -> Seq<Seq<char>> {
    match dataset {
        Dataset::OpenAlex => seq![
            "work_id"@,
            "doi"@,
            "author_sequence"@,
            "author_name"@,
            "normalized_author_name"@,
            "affiliation_sequence"@,
            "affiliation_name"@,
            "normalized_affiliation_name"@,
            "affiliation_ror"@,
        ],
        Dataset::Crossref => seq![
            "doi"@,
            "author_sequence"@,
            "full_name"@,
            "normalized_full_name"@,
            "given_name"@,
            "normalized_given_name"@,
            "family_name"@,
            "normalized_family_name"@,
            "affiliation_sequence"@,
            "affiliation"@,
            "normalized_affiliation"@,
        ],
    }
}

/// The affiliation sequence as the table shows it. For an author without
/// affiliation OpenAlex tables show 0, Crossref tables the word `None`.
pub open spec fn sequence_text(dataset: Dataset, sequence: Option<u32>) -> Seq<char> {
    match sequence {
        Some(n) => decimal_text(n as nat),
        None => match dataset {
            Dataset::OpenAlex => decimal_text(0),
            Dataset::Crossref => "None"@,
        },
    }
}

/// The fields of a row of the author/affiliation table.
pub open spec fn output_fields_of(dataset: Dataset, row: OutputRow) -> Seq<Seq<char>> {
    match dataset {
        Dataset::OpenAlex => seq![
            row.work_id,
            written(row.doi),
            decimal_text(row.author_sequence as nat),
            row.author_name,
            row.normalized_author_name,
            sequence_text(dataset, row.affiliation_sequence),
            row.affiliation_name,
            row.normalized_affiliation_name,
            row.affiliation_ror,
        ],
        Dataset::Crossref => seq![
            row.work_id,
            decimal_text(row.author_sequence as nat),
            row.author_name,
            row.normalized_author_name,
            row.given_name,
            row.normalized_given_name,
            row.family_name,
            row.normalized_family_name,
            sequence_text(dataset, row.affiliation_sequence),
            row.affiliation_name,
            row.normalized_affiliation_name,
        ],
    }
}

fn written_text(text: &Option<String>) -> (out: String)
    ensures
        out@ == written(owned_text(*text)),
{
    match text {
        Some(t) => t.clone(),
        None => String::new(),
    }
}

fn sequence_field(dataset: Dataset, sequence: Option<u32>) -> (out: String)
    ensures
        out@ == sequence_text(dataset, sequence),
{
    match sequence {
        Some(n) => decimal(n as u64),
        None => match dataset {
            Dataset::OpenAlex => decimal(0),
            Dataset::Crossref => "None".to_owned(),
        },
    }
}

/// The column names of the input.
pub fn input_header(dataset: Dataset) -> (names: Vec<String>)
    ensures
        strs(names@) == input_header_of(dataset),
{
    let mut names: Vec<String> = Vec::new();
    match dataset {
        Dataset::OpenAlex => {
            names.push("work_id".to_owned());
            names.push("doi".to_owned());
            names.push("field_name".to_owned());
            names.push("subfield_path".to_owned());
            names.push("value".to_owned());
            names.push("source_id".to_owned());
            names.push("doi_prefix".to_owned());
            names.push("source_file_path".to_owned());
        },
        Dataset::Crossref => {
            names.push("doi".to_owned());
            names.push("field_name".to_owned());
            names.push("subfield_path".to_owned());
            names.push("value".to_owned());
            names.push("member_id".to_owned());
            names.push("doi_prefix".to_owned());
        },
    }
    assert(strs(names@) =~= input_header_of(dataset));
    names
}

/// The fields of an input row.
pub fn input_fields(dataset: Dataset, record: &InputRecord) -> (fields: Vec<String>)
    ensures
        strs(fields@) == input_fields_of(dataset, record@),
{
    let mut fields: Vec<String> = Vec::new();
    match dataset {
        Dataset::OpenAlex => {
            fields.push(record.work_id.clone());
            fields.push(written_text(&record.doi));
            fields.push(record.field_name.clone());
            fields.push(record.subfield_path.clone());
            fields.push(record.value.clone());
            fields.push(written_text(&record.source));
            fields.push(written_text(&record.doi_prefix));
            fields.push(written_text(&record.source_file_path));
        },
        Dataset::Crossref => {
            fields.push(record.work_id.clone());
            fields.push(record.field_name.clone());
            fields.push(record.subfield_path.clone());
            fields.push(record.value.clone());
            fields.push(written_text(&record.source));
            fields.push(written_text(&record.doi_prefix));
        },
    }
    assert(strs(fields@) =~= input_fields_of(dataset, record@));
    fields
}

/// The column names of the author/affiliation table.
pub fn output_header(dataset: Dataset) -> (names: Vec<String>)
    ensures
        strs(names@) == output_header_of(dataset),
{
    let mut names: Vec<String> = Vec::new();
    match dataset {
        Dataset::OpenAlex => {
            names.push("work_id".to_owned());
            names.push("doi".to_owned());
            names.push("author_sequence".to_owned());
            names.push("author_name".to_owned());
            names.push("normalized_author_name".to_owned());
            names.push("affiliation_sequence".to_owned());
            names.push("affiliation_name".to_owned());
            names.push("normalized_affiliation_name".to_owned());
            names.push("affiliation_ror".to_owned());
        },
        Dataset::Crossref => {
            names.push("doi".to_owned());
            names.push("author_sequence".to_owned());
            names.push("full_name".to_owned());
            names.push("normalized_full_name".to_owned());
            names.push("given_name".to_owned());
            names.push("normalized_given_name".to_owned());
            names.push("family_name".to_owned());
            names.push("normalized_family_name".to_owned());
            names.push("affiliation_sequence".to_owned());
            names.push("affiliation".to_owned());
            names.push("normalized_affiliation".to_owned());
        },
    }
    assert(strs(names@) =~= output_header_of(dataset));
    names
}

/// The fields of a row of the author/affiliation table.
pub fn output_fields(dataset: Dataset, record: &OutputRecord) -> (fields: Vec<String>)
    ensures
        strs(fields@) == output_fields_of(dataset, record@),
{
    let mut fields: Vec<String> = Vec::new();
    match dataset {
        Dataset::OpenAlex => {
            fields.push(record.work_id.clone());
            fields.push(written_text(&record.doi));
            fields.push(decimal(record.author_sequence as u64));
            fields.push(record.author_name.clone());
            fields.push(record.normalized_author_name.clone());
            fields.push(sequence_field(dataset, record.affiliation_sequence));
            fields.push(record.affiliation_name.clone());
            fields.push(record.normalized_affiliation_name.clone());
            fields.push(record.affiliation_ror.clone());
        },
        Dataset::Crossref => {
            fields.push(record.work_id.clone());
            fields.push(decimal(record.author_sequence as u64));
            fields.push(record.author_name.clone());
            fields.push(record.normalized_author_name.clone());
            fields.push(record.given_name.clone());
            fields.push(record.normalized_given_name.clone());
            fields.push(record.family_name.clone());
            fields.push(record.normalized_family_name.clone());
            fields.push(sequence_field(dataset, record.affiliation_sequence));
            fields.push(record.affiliation_name.clone());
            fields.push(record.normalized_affiliation_name.clone());
        },
    }
    assert(strs(fields@) =~= output_fields_of(dataset, record@));
    fields
}

/// The records of input rows as the sort writes them.
pub open spec fn input_records_of(dataset: Dataset, rows: Seq<InputRow>) -> Seq<Seq<Seq<char>>> {
    Seq::new(rows.len(), |i: int| input_fields_of(dataset, rows[i]))
}

/// The records of rows of the author/affiliation table.
pub open spec fn output_records_of(dataset: Dataset, rows: Seq<OutputRow>) -> Seq<Seq<Seq<char>>> {
    Seq::new(rows.len(), |i: int| output_fields_of(dataset, rows[i]))
}

/// Input rows as CSV text, in order. `None` where a row could not be
/// encoded.
pub fn encode_input(dataset: Dataset, records: &Vec<InputRecord>) -> (r: Option<Vec<u8>>)
    ensures
        bytes_of(r) == csv_text(input_records_of(dataset, input_rows(records@))),
{
    let ghost all = input_records_of(dataset, input_rows(records@));
    let mut out: Vec<u8> = Vec::new();
    let mut i: usize = 0;
    while i < records.len()
        invariant
            i <= records.len(),
            all == input_records_of(dataset, input_rows(records@)),
            csv_text(all.take(i as int)) == Some(out@),
        decreases records.len() - i,
    {
        proof {
            assert(all.take(i + 1).drop_last() =~= all.take(i as int));
            assert(all.take(i + 1).last() == input_fields_of(dataset, records@[i as int]@));
        }
        let fields = input_fields(dataset, &records[i]);
        if !append_encoded(&mut out, encode_record(&fields)) {
            proof {
                lemma_csv_text_fails(all, i + 1);
            }
            return None;
        }
        i += 1;
    }
    assert(all.take(records.len() as int) =~= all);
    Some(out)
}

/// Rows of the author/affiliation table as CSV text, in order. `None` where
/// a row could not be encoded.
pub fn encode_output(dataset: Dataset, records: &Vec<OutputRecord>) -> (r: Option<Vec<u8>>)
    ensures
        bytes_of(r) == csv_text(output_records_of(dataset, output_rows(records@))),
{
    let ghost all = output_records_of(dataset, output_rows(records@));
    let mut out: Vec<u8> = Vec::new();
    let mut i: usize = 0;
    while i < records.len()
        invariant
            i <= records.len(),
            all == output_records_of(dataset, output_rows(records@)),
            csv_text(all.take(i as int)) == Some(out@),
        decreases records.len() - i,
    {
        proof {
            assert(all.take(i + 1).drop_last() =~= all.take(i as int));
            assert(all.take(i + 1).last() == output_fields_of(dataset, records@[i as int]@));
        }
        let fields = output_fields(dataset, &records[i]);
        if !append_encoded(&mut out, encode_record(&fields)) {
            proof {
                lemma_csv_text_fails(all, i + 1);
            }
            return None;
        }
        i += 1;
    }
    assert(all.take(records.len() as int) =~= all);
    Some(out)
}

/// The header line of the input as CSV text: the record of the column
/// names. `None` where the record cannot be written.
pub fn encode_input_header(dataset: Dataset) -> (r: Option<Vec<u8>>)
    ensures
        bytes_of(r) == csv_record(input_header_of(dataset)),
{
    encode_record(&input_header(dataset))
}

/// The header line of the author/affiliation table as CSV text: the record
/// of the column names. `None` where the record cannot be written.
pub fn encode_output_header(dataset: Dataset) -> (r: Option<Vec<u8>>)
    ensures
        bytes_of(r) == csv_record(output_header_of(dataset)),
{
    encode_record(&output_header(dataset))
}

/// The state of the writing of the author/affiliation table: whether the
/// header line is written. It is written with the first rows, so that a
/// table without rows is an empty file.
#[derive(Debug)]
pub struct TableOutput {
    dataset: Dataset,
    header_written: bool,
}

/// The text that goes to the table for `rows`: the rows as CSV text, after
/// the header line where they are the first rows. `None` where the header
/// or a row cannot be written.
pub open spec fn table_text(dataset: Dataset, header_written: bool, rows: Seq<OutputRow>) -> Option<
    Seq<u8>,
> {
    if rows.len() > 0 && !header_written {
        match csv_record(output_header_of(dataset)) {
            Some(header) => match csv_text(output_records_of(dataset, rows)) {
                Some(text) => Some(header + text),
                None => None,
            },
            None => None,
        }
    } else {
        csv_text(output_records_of(dataset, rows))
    }
}

impl TableOutput {
    /// The dataset of the table.
    pub closed spec fn dataset(&self) -> Dataset {
        self.dataset
    }

    /// Whether the header line is written.
    pub closed spec fn started(&self) -> bool {
        self.header_written
    }

    /// The state before anything is written.
    pub fn new(dataset: Dataset) -> (out: TableOutput)
        ensures
            out.dataset() == dataset,
            !out.started(),
    {
        TableOutput { dataset, header_written: false }
    }

    /// The text to append to the table for the rows of one more work.
    /// `None` where a row or the header could not be encoded; nothing is to
    /// be written then, and the state is as before.
    pub fn write(&mut self, rows: &Vec<OutputRecord>) -> (r: Option<Vec<u8>>)
        ensures
            final(self).dataset() == old(self).dataset(),
            bytes_of(r) == table_text(
                old(self).dataset(),
                old(self).started(),
                output_rows(rows@),
            ),
            final(self).started() == if r is Some {
                old(self).started() || rows@.len() > 0
            } else {
                old(self).started()
            },
    {
        let mut out: Vec<u8> = Vec::new();
        let with_header = rows.len() > 0 && !self.header_written;
        if with_header {
            if !append_encoded(&mut out, encode_output_header(self.dataset)) {
                return None;
            }
        }
        if !append_encoded(&mut out, encode_output(self.dataset, rows)) {
            return None;
        }
        if with_header {
            self.header_written = true;
        }
        proof {
            let text = csv_text(output_records_of(self.dataset, output_rows(rows@)))->0;
            assert(Seq::<u8>::empty() + text =~= text);
        }
        Some(out)
    }
}

/// The records that a block gives: all of them, or all but the first where
/// the block begins with the header.
pub open spec fn block_records(bytes: Seq<u8>, has_header: bool) -> Seq<Option<Seq<Seq<char>>>> {
    if has_header && csv_records(bytes).len() > 0 {
        csv_records(bytes).skip(1)
    } else {
        csv_records(bytes)
    }
}

/// Reads the rows of a block of whole lines, given where the columns
/// stand. The header line of a block that begins with it is passed over.
pub fn parse_block(bytes: &Vec<u8>, has_header: bool, columns: &Columns) -> (parsed: ParsedRows)
    ensures
        input_rows(parsed.records@) == accepted(block_records(bytes@, has_header), *columns),
        parsed.rejected + parsed.records@.len() == block_records(bytes@, has_header).len(),
{
    let records = decode_records(bytes);
    let from: usize = if has_header && records.len() > 0 {
        1
    } else {
        0
    };
    proof {
        if from == 0 {
            assert(decoded(records@).skip(0) =~= decoded(records@));
        }
    }
    parse_rows(&records, from, columns)
}

/// Where the columns stand in a file whose first block is `bytes`: by the
/// first record of the block, its header. Without such a record no column
/// is found.
pub fn header_columns(dataset: Dataset, bytes: &Vec<u8>) -> (columns: Columns)
    ensures
        columns == columns_of_file(dataset, csv_records(bytes@)),
{
    let records = decode_records(bytes);
    let no_names: Vec<String> = Vec::new();
    assert(strs(no_names@) =~= Seq::empty());
    if records.len() == 0 {
        return Columns::from_header(dataset, &no_names);
    }
    assert(decoded(records@)[0] is Some ==> decoded(records@)[0]->0 == strs(records@[0]->0@));
    match &records[0] {
        Some(names) => Columns::from_header(dataset, names),
        None => Columns::from_header(dataset, &no_names),
    }
}

/// What the sort of a tabular file gives.
#[derive(Debug)]
pub struct SortedTable {
    /// The rows, with keys that never go down.
    pub records: Vec<InputRecord>,
    /// The number of records of the file that gave no row.
    pub rejected: usize,
}

/// The columns of a file by its first record: those of its header, or none
/// at all where the file is empty or its first record could not be decoded.
pub open spec fn columns_of_file(dataset: Dataset, records: Seq<Option<Seq<Seq<char>>>>) -> Columns {
    if records.len() > 0 && records[0] is Some {
        columns_in(dataset, records[0]->0)
    } else {
        columns_in(dataset, Seq::empty())
    }
}

/// The rows of a file: those that its records after the header give.
pub open spec fn rows_of_file(dataset: Dataset, records: Seq<Option<Seq<Seq<char>>>>) -> Seq<
    InputRow,
> {
    if records.len() == 0 {
        Seq::empty()
    } else {
        accepted(records.skip(1), columns_of_file(dataset, records))
    }
}

/// Sorts a tabular file, held in memory, by its key column. The first
/// record is the header, which says where the columns stand. The rows come
/// out with keys that never go down; they are the rows of the file, and
/// records that give no row are counted.
pub fn sort_csv(dataset: Dataset, input: &Vec<u8>, chunk_size: usize) -> (sorted: SortedTable)
    ensures
        input_rows(sorted.records@).to_multiset() == rows_of_file(
            dataset,
            csv_records(input@),
        ).to_multiset(),
        sorted.records@.len() == rows_of_file(dataset, csv_records(input@)).len(),
        ascending(keys_of(sorted.records@)),
        csv_records(input@).len() > 0 ==> sorted.rejected + sorted.records@.len() + 1
            == csv_records(input@).len(),
        csv_records(input@).len() == 0 ==> sorted.rejected == 0,
{
    let records = decode_records(input);
    if records.len() == 0 {
        let none: Vec<InputRecord> = Vec::new();
        assert(keys_of(none@) =~= Seq::empty());
        assert(input_rows(none@) =~= Seq::empty());
        return SortedTable { records: none, rejected: 0 };
    }
    let no_names: Vec<String> = Vec::new();
    assert(strs(no_names@) =~= Seq::empty());
    let columns = match &records[0] {
        Some(names) => Columns::from_header(dataset, names),
        None => Columns::from_header(dataset, &no_names),
    };
    assert(decoded(records@)[0] is Some ==> decoded(records@)[0]->0 == strs(records@[0]->0@));
    let parsed = parse_rows(&records, 1, &columns);
    let ghost rows = parsed.records@;
    let sorted = sort_records(parsed.records, chunk_size);
    proof {
        lemma_same_rows(sorted@, rows);
    }
    SortedTable { records: sorted, rejected: parsed.rejected }
}

proof fn lemma_same_rows(a: Seq<InputRecord>, b: Seq<InputRecord>)
    requires
        a.to_multiset() == b.to_multiset(),
    ensures
        input_rows(a).to_multiset() == input_rows(b).to_multiset(),
{
    assert(input_rows(a) =~= a.map_values(|r: InputRecord| r@));
    assert(input_rows(b) =~= b.map_values(|r: InputRecord| r@));
    lemma_mapped_multiset(a, b);
}

proof fn lemma_mapped_multiset(a: Seq<InputRecord>, b: Seq<InputRecord>)
    requires
        a.to_multiset() == b.to_multiset(),
    ensures
        a.map_values(|r: InputRecord| r@).to_multiset() == b.map_values(
            |r: InputRecord| r@,
        ).to_multiset(),
    decreases a.len(),
{
    broadcast use vstd::multiset::group_multiset_axioms;

    let f = |r: InputRecord| r@;
    a.to_multiset_ensures();
    b.to_multiset_ensures();
    if a.len() == 0 {
        assert(b.len() == 0);
        assert(a.map_values(f) =~= b.map_values(f));
    } else {
        let x = a.last();
        assert(a.contains(x));
        assert(b.to_multiset().count(x) > 0);
        assert(b.contains(x));
        let j = choose|j: int| 0 <= j < b.len() && b[j] == x;
        let a0 = a.drop_last();
        let b0 = b.remove(j);
        vstd::seq_lib::to_multiset_remove(b, j);
        vstd::seq_lib::to_multiset_remove(a, a.len() - 1);
        assert(a.remove(a.len() - 1) =~= a0);
        assert(a0.to_multiset() =~= b0.to_multiset());
        lemma_mapped_multiset(a0, b0);
        assert(a.map_values(f) =~= a0.map_values(f).push(f(x)));
        vstd::seq_lib::to_multiset_build(a0.map_values(f), f(x));
        assert(b.map_values(f).remove(j) =~= b0.map_values(f));
        vstd::seq_lib::to_multiset_remove(b.map_values(f), j);
        b.map_values(f).to_multiset_ensures();
        assert(b.map_values(f)[j] == f(x));
        assert(b.map_values(f).contains(f(x)));
        assert(a.map_values(f).to_multiset() =~= b.map_values(f).to_multiset());
    }
}

} // verus!
