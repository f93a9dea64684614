//! The rows of the extraction output as the transform stage reads them.

use vstd::prelude::*;
use crate::crossref::owned_text;

verus! {

/// One row of the extraction output, as plain values.
pub ghost struct InputRow {
    pub work_id: Seq<char>,
    pub doi: Option<Seq<char>>,
    pub field_name: Seq<char>,
    pub subfield_path: Seq<char>,
    pub value: Seq<char>,
    pub source: Option<Seq<char>>,
    pub doi_prefix: Option<Seq<char>>,
    pub source_file_path: Option<Seq<char>>,
}

/// One row of the extraction output. The work id is the sort key.
#[derive(Clone, Debug, PartialEq, Eq)]
pub struct InputRecord {
    pub work_id: String,
    pub doi: Option<String>,
    pub field_name: String,
    pub subfield_path: String,
    pub value: String,
    pub source: Option<String>,
    pub doi_prefix: Option<String>,
    pub source_file_path: Option<String>,
}

impl View for InputRecord {
    type V = InputRow;

    open spec fn view(&self) -> InputRow {
        InputRow {
            work_id: self.work_id@,
            doi: owned_text(self.doi),
            field_name: self.field_name@,
            subfield_path: self.subfield_path@,
            value: self.value@,
            source: owned_text(self.source),
            doi_prefix: owned_text(self.doi_prefix),
            source_file_path: owned_text(self.source_file_path),
        }
    }
}

/// The rows that a sequence of records holds.
pub open spec fn input_rows(records: Seq<InputRecord>) -> Seq<InputRow> {
    Seq::new(records.len(), |i: int| records[i]@)
}

/// The sort keys of a sequence of records.
pub open spec fn keys_of(records: Seq<InputRecord>) -> Seq<Seq<char>> {
    Seq::new(records.len(), |i: int| records[i].work_id@)
}

} // verus!
