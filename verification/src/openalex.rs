//! What is particular to OpenAlex records: where their ids stand.

use vstd::prelude::*;
use crate::crossref::{derived_prefix, owned_text, prefix_of_doi};
use crate::json::{field_of, text_field, Json, JsonDoc};
use crate::openalex_schema::{openalex_rows, openalex_schema};
use crate::text::{strip_prefix, without_prefix};
use crate::trie::{compiled, spec_texts, PatternTrie};

verus! {

/// The work id of a record: its string member `id`.
pub open spec fn work_id_of(record: Json) -> Option<Seq<char>> {
    text_field(record, "id"@)
}

/// The DOI of a record: its string member `doi`, without the resolver
/// address in front.
pub open spec fn doi_of(record: Json) -> Option<Seq<char>> {
    match text_field(record, "doi"@) {
        Some(d) => Some(without_prefix(d, "https://doi.org/"@)),
        None => None,
    }
}

/// The source id of a record: the string `primary_location.source.id`.
pub open spec fn source_id_of(record: Json) -> Option<Seq<char>> {
    match field_of(record, "primary_location"@) {
        Some(location) => match field_of(location, "source"@) {
            Some(source) => text_field(source, "id"@),
            None => None,
        },
        None => None,
    }
}

/// The work id of a record.
pub fn extract_work_id(record: &JsonDoc) -> (r: Option<String>)
    ensures
        owned_text(r) == work_id_of(record@),
{
    match record.get_text("id") {
        Some(t) => Some(t.clone()),
        None => None,
    }
}

/// The DOI of a record.
pub fn extract_doi(record: &JsonDoc) -> (r: Option<String>)
    ensures
        owned_text(r) == doi_of(record@),
{
    match record.get_text("doi") {
        Some(t) => Some(strip_prefix(t.as_str(), "https://doi.org/")),
        None => None,
    }
}

/// The source id of a record.
pub fn extract_source_id(record: &JsonDoc) -> (r: Option<String>)
    ensures
        owned_text(r) == source_id_of(record@),
{
    match record.get("primary_location") {
        Some(location) => match location.get("source") {
            Some(source) => match source.get_text("id") {
                Some(t) => Some(t.clone()),
                None => None,
            },
            None => None,
        },
        None => None,
    }
}

/// The DOI prefix of a record whose DOI is `doi`: the part before the first
/// slash.
pub fn extract_doi_prefix(doi: Option<&String>) -> (r: Option<String>)
    ensures
        owned_text(r) == derived_prefix(
            match doi {
                Some(d) => Some(d@),
                None => None,
            },
        ),
{
    prefix_of_doi(doi)
}

/// Compiles field specifications for OpenAlex records.
pub fn openalex_extractor(field_specs: &Vec<Vec<String>>) -> (trie: PatternTrie)
    ensures
        trie@ == compiled(spec_texts(field_specs@), openalex_rows()),
{
    let schema = openalex_schema();
    PatternTrie::new(field_specs, &schema)
}

} // verus!
