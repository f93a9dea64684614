//! What is particular to Crossref records: where their ids stand, and the
//! implicit pattern for the `relation` subtree.

use vstd::prelude::*;
use crate::crossref_schema::{crossref_rows, crossref_schema};
use crate::json::{field_of, text_field, Json, JsonDoc};
use crate::text::{before_first, prefix_before, same_text, strs};
use crate::trie::{compiled, route_of, spec_texts, PatternTrie};

verus! {

/// The DOI of a record: its string member `DOI`.
pub open spec fn doi_of(record: Json) -> Option<Seq<char>> {
    text_field(record, "DOI"@)
}

/// The member id of a record: its member `member`, where that is a string
/// or a number.
pub open spec fn member_of(record: Json) -> Option<Seq<char>> {
    match field_of(record, "member"@) {
        Some(Json::Text(t)) => Some(t),
        Some(Json::Number(t)) => Some(t),
        _ => None,
    }
}

/// The part of a DOI before its first slash.
pub open spec fn derived_prefix(doi: Option<Seq<char>>) -> Option<Seq<char>> {
    match doi {
        Some(d) => before_first(d, '/'),
        None => None,
    }
}

/// The DOI prefix of a record: its string member `prefix`, else the part of
/// the DOI before its first slash.
pub open spec fn prefix_of(record: Json, doi: Option<Seq<char>>) -> Option<Seq<char>> {
    match text_field(record, "prefix"@) {
        Some(p) => Some(p),
        None => derived_prefix(doi),
    }
}

/// The text of an optional string.
pub open spec fn owned_text(s: Option<String>) -> Option<Seq<char>> {
    match s {
        Some(t) => Some(t@),
        None => None,
    }
}

/// The DOI of a record.
pub fn extract_doi(record: &JsonDoc) -> (r: Option<String>)
    ensures
        owned_text(r) == doi_of(record@),
{
    match record.get_text("DOI") {
        Some(t) => Some(t.clone()),
        None => None,
    }
}

/// The member id of a record.
pub fn extract_member_id(record: &JsonDoc) -> (r: Option<String>)
    ensures
        owned_text(r) == member_of(record@),
{
    match record.get("member") {
        Some(JsonDoc::Text(t)) => Some(t.clone()),
        Some(JsonDoc::Number(t)) => Some(t.clone()),
        _ => None,
    }
}

/// The part of a DOI before its first slash.
pub fn prefix_of_doi(doi: Option<&String>) -> (r: Option<String>)
    ensures
        owned_text(r) == derived_prefix(
            match doi {
                Some(d) => Some(d@),
                None => None,
            },
        ),
{
    match doi {
        Some(d) => prefix_before(d.as_str(), '/'),
        None => None,
    }
}

/// The DOI prefix of a record whose DOI is `doi`.
pub fn extract_doi_prefix(record: &JsonDoc, doi: Option<&String>) -> (r: Option<String>)
    ensures
        owned_text(r) == prefix_of(
            record@,
            match doi {
                Some(d) => Some(d@),
                None => None,
            },
        ),
{
    match record.get_text("prefix") {
        Some(p) => Some(p.clone()),
        None => prefix_of_doi(doi),
    }
}

/// The route that makes the extractor walk the `relation` subtree.
pub open spec fn relation_wildcard() -> Seq<Seq<char>> {
    seq!["relation"@, "*"@]
}

/// Whether one of `specs` begins with the segment `relation`.
pub open spec fn asks_for_relation(specs: Seq<Seq<Seq<char>>>) -> bool {
    exists|i: int| 0 <= i < specs.len() && (#[trigger] specs[i]).len() > 0 && specs[i][0] == "relation"@
}

/// Whether one of the field specifications begins with the segment
/// `relation`.
pub fn asks_relation(field_specs: &Vec<Vec<String>>) -> (asked: bool)
    ensures
        asked == asks_for_relation(spec_texts(field_specs@)),
{
    let mut i: usize = 0;
    while i < field_specs.len()
        invariant
            i <= field_specs.len(),
            forall|k: int|
                0 <= k < i ==> !((#[trigger] spec_texts(field_specs@)[k]).len() > 0 && spec_texts(
                    field_specs@,
                )[k][0] == "relation"@),
        decreases field_specs.len() - i,
    {
        let spec = &field_specs[i];
        proof {
            assert(spec_texts(field_specs@)[i as int] == strs(spec@));
            assert(strs(spec@).len() > 0 ==> strs(spec@)[0] == spec@[0]@);
        }
        if spec.len() > 0 && same_text(spec[0].as_str(), "relation") {
            return true;
        }
        i += 1;
    }
    false
}

/// Compiles field specifications for Crossref records. Where one of them
/// begins with `relation`, the walk is made to follow `relation.*` into the
/// arrays of the relation subtree; that route reports nothing of its own.
pub fn crossref_extractor(field_specs: &Vec<Vec<String>>) -> (trie: PatternTrie)
    ensures
        trie@ == compiled(spec_texts(field_specs@), crossref_rows()),
        asks_for_relation(spec_texts(field_specs@)) ==> trie.walks(
            route_of(relation_wildcard(), crossref_rows()),
        ),
{
    let schema = crossref_schema();
    let trie = PatternTrie::new(field_specs, &schema);
    if asks_relation(field_specs) {
        let mut wildcard: Vec<String> = Vec::new();
        wildcard.push("relation".to_owned());
        wildcard.push("*".to_owned());
        assert(strs(wildcard@) =~= relation_wildcard());
        trie.force_descent(&wildcard, &schema)
    } else {
        trie
    }
}

} // verus!
