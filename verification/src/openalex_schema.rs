//! The schema of OpenAlex work records: what each dotted path of a record holds.

use vstd::prelude::*;
use crate::schema::{FieldType, Schema};

verus! {

/// The rows from `id` to `ids.pmid`.
pub open spec fn rows_from_id() -> Seq<(Seq<char>, FieldType)> {
    seq![
        ("id"@, FieldType::Value),
        ("doi"@, FieldType::Value),
        ("doi_registration_agency"@, FieldType::Value),
        ("display_name"@, FieldType::Value),
        ("title"@, FieldType::Value),
        ("publication_year"@, FieldType::Value),
        ("publication_date"@, FieldType::Value),
        ("language"@, FieldType::Value),
        ("language_id"@, FieldType::Value),
        ("type"@, FieldType::Value),
        ("type_id"@, FieldType::Value),
        ("type_crossref"@, FieldType::Value),
        ("is_retracted"@, FieldType::Value),
        ("is_paratext"@, FieldType::Value),
        ("cited_by_count"@, FieldType::Value),
        ("countries_distinct_count"@, FieldType::Value),
        ("institutions_distinct_count"@, FieldType::Value),
        ("locations_count"@, FieldType::Value),
        ("referenced_works_count"@, FieldType::Value),
        ("authors_count"@, FieldType::Value),
        ("concepts_count"@, FieldType::Value),
        ("topics_count"@, FieldType::Value),
        ("has_fulltext"@, FieldType::Value),
        ("cited_by_api_url"@, FieldType::Value),
        ("updated_date"@, FieldType::Value),
        ("created_date"@, FieldType::Value),
        ("updated"@, FieldType::Value),
        ("ids"@, FieldType::Object),
        ("ids.openalex"@, FieldType::Value),
        ("ids.mag"@, FieldType::Value),
        ("ids.pmid"@, FieldType::Value),
    ]
}

fn declare_from_id(schema: &mut Schema)
    ensures
        final(schema)@ == old(schema)@ + rows_from_id(),
{
    schema.declare("id", FieldType::Value);
    schema.declare("doi", FieldType::Value);
    schema.declare("doi_registration_agency", FieldType::Value);
    schema.declare("display_name", FieldType::Value);
    schema.declare("title", FieldType::Value);
    schema.declare("publication_year", FieldType::Value);
    schema.declare("publication_date", FieldType::Value);
    schema.declare("language", FieldType::Value);
    schema.declare("language_id", FieldType::Value);
    schema.declare("type", FieldType::Value);
    schema.declare("type_id", FieldType::Value);
    schema.declare("type_crossref", FieldType::Value);
    schema.declare("is_retracted", FieldType::Value);
    schema.declare("is_paratext", FieldType::Value);
    schema.declare("cited_by_count", FieldType::Value);
    schema.declare("countries_distinct_count", FieldType::Value);
    schema.declare("institutions_distinct_count", FieldType::Value);
    schema.declare("locations_count", FieldType::Value);
    schema.declare("referenced_works_count", FieldType::Value);
    schema.declare("authors_count", FieldType::Value);
    schema.declare("concepts_count", FieldType::Value);
    schema.declare("topics_count", FieldType::Value);
    schema.declare("has_fulltext", FieldType::Value);
    schema.declare("cited_by_api_url", FieldType::Value);
    schema.declare("updated_date", FieldType::Value);
    schema.declare("created_date", FieldType::Value);
    schema.declare("updated", FieldType::Value);
    schema.declare("ids", FieldType::Object);
    schema.declare("ids.openalex", FieldType::Value);
    schema.declare("ids.mag", FieldType::Value);
    schema.declare("ids.pmid", FieldType::Value);
    assert(schema@ =~= old(schema)@ + rows_from_id());
}

/// The rows from `primary_location` to `primary_location.source.host_organization_lineage_names`.
pub open spec fn rows_from_primary_location() -> Seq<(Seq<char>, FieldType)> {
    seq![
        ("primary_location"@, FieldType::Object),
        ("primary_location.is_oa"@, FieldType::Value),
        ("primary_location.version"@, FieldType::Value),
        ("primary_location.license"@, FieldType::Value),
        ("primary_location.doi"@, FieldType::Value),
        ("primary_location.is_accepted"@, FieldType::Value),
        ("primary_location.is_published"@, FieldType::Value),
        ("primary_location.pdf_url"@, FieldType::Value),
        ("primary_location.landing_page_url"@, FieldType::Value),
        ("primary_location.source"@, FieldType::Object),
        ("primary_location.source.id"@, FieldType::Value),
        ("primary_location.source.issn_l"@, FieldType::Value),
        ("primary_location.source.issn"@, FieldType::Value),
        ("primary_location.source.display_name"@, FieldType::Value),
        ("primary_location.source.publisher"@, FieldType::Value),
        ("primary_location.source.host_organization"@, FieldType::Value),
        ("primary_location.source.host_organization_name"@, FieldType::Value),
        ("primary_location.source.is_oa"@, FieldType::Value),
        ("primary_location.source.is_in_doaj"@, FieldType::Value),
        ("primary_location.source.type"@, FieldType::Value),
        ("primary_location.source.type_id"@, FieldType::Value),
        ("primary_location.source.host_organization_lineage"@, FieldType::Array),
        ("primary_location.source.host_organization_lineage_names"@, FieldType::Array),
    ]
}

fn declare_from_primary_location(schema: &mut Schema)
    ensures
        final(schema)@ == old(schema)@ + rows_from_primary_location(),
{
    schema.declare("primary_location", FieldType::Object);
    schema.declare("primary_location.is_oa", FieldType::Value);
    schema.declare("primary_location.version", FieldType::Value);
    schema.declare("primary_location.license", FieldType::Value);
    schema.declare("primary_location.doi", FieldType::Value);
    schema.declare("primary_location.is_accepted", FieldType::Value);
    schema.declare("primary_location.is_published", FieldType::Value);
    schema.declare("primary_location.pdf_url", FieldType::Value);
    schema.declare("primary_location.landing_page_url", FieldType::Value);
    schema.declare("primary_location.source", FieldType::Object);
    schema.declare("primary_location.source.id", FieldType::Value);
    schema.declare("primary_location.source.issn_l", FieldType::Value);
    schema.declare("primary_location.source.issn", FieldType::Value);
    schema.declare("primary_location.source.display_name", FieldType::Value);
    schema.declare("primary_location.source.publisher", FieldType::Value);
    schema.declare("primary_location.source.host_organization", FieldType::Value);
    schema.declare("primary_location.source.host_organization_name", FieldType::Value);
    schema.declare("primary_location.source.is_oa", FieldType::Value);
    schema.declare("primary_location.source.is_in_doaj", FieldType::Value);
    schema.declare("primary_location.source.type", FieldType::Value);
    schema.declare("primary_location.source.type_id", FieldType::Value);
    schema.declare("primary_location.source.host_organization_lineage", FieldType::Array);
    schema.declare("primary_location.source.host_organization_lineage_names", FieldType::Array);
    assert(schema@ =~= old(schema)@ + rows_from_primary_location());
}

/// The rows from `best_oa_location` to `best_oa_location.source.host_organization_lineage_names`.
pub open spec fn rows_from_best_oa_location() -> Seq<(Seq<char>, FieldType)> {
    seq![
        ("best_oa_location"@, FieldType::Object),
        ("best_oa_location.is_oa"@, FieldType::Value),
        ("best_oa_location.version"@, FieldType::Value),
        ("best_oa_location.license"@, FieldType::Value),
        ("best_oa_location.doi"@, FieldType::Value),
        ("best_oa_location.is_accepted"@, FieldType::Value),
        ("best_oa_location.is_published"@, FieldType::Value),
        ("best_oa_location.pdf_url"@, FieldType::Value),
        ("best_oa_location.landing_page_url"@, FieldType::Value),
        ("best_oa_location.source"@, FieldType::Object),
        ("best_oa_location.source.id"@, FieldType::Value),
        ("best_oa_location.source.issn_l"@, FieldType::Value),
        ("best_oa_location.source.issn"@, FieldType::Value),
        ("best_oa_location.source.display_name"@, FieldType::Value),
        ("best_oa_location.source.publisher"@, FieldType::Value),
        ("best_oa_location.source.host_organization"@, FieldType::Value),
        ("best_oa_location.source.host_organization_name"@, FieldType::Value),
        ("best_oa_location.source.is_oa"@, FieldType::Value),
        ("best_oa_location.source.is_in_doaj"@, FieldType::Value),
        ("best_oa_location.source.type"@, FieldType::Value),
        ("best_oa_location.source.type_id"@, FieldType::Value),
        ("best_oa_location.source.host_organization_lineage"@, FieldType::Array),
        ("best_oa_location.source.host_organization_lineage_names"@, FieldType::Array),
    ]
}

fn declare_from_best_oa_location(schema: &mut Schema)
    ensures
        final(schema)@ == old(schema)@ + rows_from_best_oa_location(),
{
    schema.declare("best_oa_location", FieldType::Object);
    schema.declare("best_oa_location.is_oa", FieldType::Value);
    schema.declare("best_oa_location.version", FieldType::Value);
    schema.declare("best_oa_location.license", FieldType::Value);
    schema.declare("best_oa_location.doi", FieldType::Value);
    schema.declare("best_oa_location.is_accepted", FieldType::Value);
    schema.declare("best_oa_location.is_published", FieldType::Value);
    schema.declare("best_oa_location.pdf_url", FieldType::Value);
    schema.declare("best_oa_location.landing_page_url", FieldType::Value);
    schema.declare("best_oa_location.source", FieldType::Object);
    schema.declare("best_oa_location.source.id", FieldType::Value);
    schema.declare("best_oa_location.source.issn_l", FieldType::Value);
    schema.declare("best_oa_location.source.issn", FieldType::Value);
    schema.declare("best_oa_location.source.display_name", FieldType::Value);
    schema.declare("best_oa_location.source.publisher", FieldType::Value);
    schema.declare("best_oa_location.source.host_organization", FieldType::Value);
    schema.declare("best_oa_location.source.host_organization_name", FieldType::Value);
    schema.declare("best_oa_location.source.is_oa", FieldType::Value);
    schema.declare("best_oa_location.source.is_in_doaj", FieldType::Value);
    schema.declare("best_oa_location.source.type", FieldType::Value);
    schema.declare("best_oa_location.source.type_id", FieldType::Value);
    schema.declare("best_oa_location.source.host_organization_lineage", FieldType::Array);
    schema.declare("best_oa_location.source.host_organization_lineage_names", FieldType::Array);
    assert(schema@ =~= old(schema)@ + rows_from_best_oa_location());
}

/// The rows from `locations` to `open_access.any_repository_has_fulltext`.
pub open spec fn rows_from_locations() -> Seq<(Seq<char>, FieldType)> {
    seq![
        ("locations"@, FieldType::Array),
        ("locations.is_oa"@, FieldType::Value),
        ("locations.version"@, FieldType::Value),
        ("locations.license"@, FieldType::Value),
        ("locations.doi"@, FieldType::Value),
        ("locations.is_accepted"@, FieldType::Value),
        ("locations.is_published"@, FieldType::Value),
        ("locations.pdf_url"@, FieldType::Value),
        ("locations.landing_page_url"@, FieldType::Value),
        ("locations.source"@, FieldType::Object),
        ("locations.source.id"@, FieldType::Value),
        ("locations.source.issn_l"@, FieldType::Value),
        ("locations.source.issn"@, FieldType::Value),
        ("locations.source.display_name"@, FieldType::Value),
        ("locations.source.publisher"@, FieldType::Value),
        ("locations.source.host_organization"@, FieldType::Value),
        ("locations.source.host_organization_name"@, FieldType::Value),
        ("locations.source.is_oa"@, FieldType::Value),
        ("locations.source.is_in_doaj"@, FieldType::Value),
        ("locations.source.type"@, FieldType::Value),
        ("locations.source.type_id"@, FieldType::Value),
        ("locations.source.host_organization_lineage"@, FieldType::Array),
        ("locations.source.host_organization_lineage_names"@, FieldType::Array),
        ("open_access"@, FieldType::Object),
        ("open_access.is_oa"@, FieldType::Value),
        ("open_access.oa_status"@, FieldType::Value),
        ("open_access.oa_url"@, FieldType::Value),
        ("open_access.any_repository_has_fulltext"@, FieldType::Value),
    ]
}

fn declare_from_locations(schema: &mut Schema)
    ensures
        final(schema)@ == old(schema)@ + rows_from_locations(),
{
    schema.declare("locations", FieldType::Array);
    schema.declare("locations.is_oa", FieldType::Value);
    schema.declare("locations.version", FieldType::Value);
    schema.declare("locations.license", FieldType::Value);
    schema.declare("locations.doi", FieldType::Value);
    schema.declare("locations.is_accepted", FieldType::Value);
    schema.declare("locations.is_published", FieldType::Value);
    schema.declare("locations.pdf_url", FieldType::Value);
    schema.declare("locations.landing_page_url", FieldType::Value);
    schema.declare("locations.source", FieldType::Object);
    schema.declare("locations.source.id", FieldType::Value);
    schema.declare("locations.source.issn_l", FieldType::Value);
    schema.declare("locations.source.issn", FieldType::Value);
    schema.declare("locations.source.display_name", FieldType::Value);
    schema.declare("locations.source.publisher", FieldType::Value);
    schema.declare("locations.source.host_organization", FieldType::Value);
    schema.declare("locations.source.host_organization_name", FieldType::Value);
    schema.declare("locations.source.is_oa", FieldType::Value);
    schema.declare("locations.source.is_in_doaj", FieldType::Value);
    schema.declare("locations.source.type", FieldType::Value);
    schema.declare("locations.source.type_id", FieldType::Value);
    schema.declare("locations.source.host_organization_lineage", FieldType::Array);
    schema.declare("locations.source.host_organization_lineage_names", FieldType::Array);
    schema.declare("open_access", FieldType::Object);
    schema.declare("open_access.is_oa", FieldType::Value);
    schema.declare("open_access.oa_status", FieldType::Value);
    schema.declare("open_access.oa_url", FieldType::Value);
    schema.declare("open_access.any_repository_has_fulltext", FieldType::Value);
    assert(schema@ =~= old(schema)@ + rows_from_locations());
}

/// The rows from `authorships` to `biblio.last_page`.
pub open spec fn rows_from_authorships() -> Seq<(Seq<char>, FieldType)> {
    seq![
        ("authorships"@, FieldType::Array),
        ("authorships.author_position"@, FieldType::Value),
        ("authorships.is_corresponding"@, FieldType::Value),
        ("authorships.raw_author_name"@, FieldType::Value),
        ("authorships.raw_affiliation_string"@, FieldType::Value),
        ("authorships.raw_affiliation_strings"@, FieldType::Array),
        ("authorships.countries"@, FieldType::Array),
        ("authorships.country_ids"@, FieldType::Array),
        ("authorships.author"@, FieldType::Object),
        ("authorships.author.id"@, FieldType::Value),
        ("authorships.author.display_name"@, FieldType::Value),
        ("authorships.author.orcid"@, FieldType::Value),
        ("authorships.affiliations"@, FieldType::Array),
        ("authorships.affiliations.raw_affiliation_string"@, FieldType::Value),
        ("authorships.affiliations.institution_ids"@, FieldType::Array),
        ("authorships.institutions"@, FieldType::Array),
        ("authorships.institutions.id"@, FieldType::Value),
        ("authorships.institutions.display_name"@, FieldType::Value),
        ("authorships.institutions.ror"@, FieldType::Value),
        ("authorships.institutions.country_code"@, FieldType::Value),
        ("authorships.institutions.type"@, FieldType::Value),
        ("authorships.institutions.lineage"@, FieldType::Array),
        ("corresponding_author_ids"@, FieldType::Array),
        ("corresponding_institution_ids"@, FieldType::Array),
        ("referenced_works"@, FieldType::Array),
        ("related_works"@, FieldType::Array),
        ("indexed_in"@, FieldType::Array),
        ("summary_stats"@, FieldType::Object),
        ("summary_stats.cited_by_count"@, FieldType::Value),
        ("summary_stats.2yr_cited_by_count"@, FieldType::Value),
        ("biblio"@, FieldType::Object),
        ("biblio.volume"@, FieldType::Value),
        ("biblio.issue"@, FieldType::Value),
        ("biblio.first_page"@, FieldType::Value),
        ("biblio.last_page"@, FieldType::Value),
    ]
}

fn declare_from_authorships(schema: &mut Schema)
    ensures
        final(schema)@ == old(schema)@ + rows_from_authorships(),
{
    schema.declare("authorships", FieldType::Array);
    schema.declare("authorships.author_position", FieldType::Value);
    schema.declare("authorships.is_corresponding", FieldType::Value);
    schema.declare("authorships.raw_author_name", FieldType::Value);
    schema.declare("authorships.raw_affiliation_string", FieldType::Value);
    schema.declare("authorships.raw_affiliation_strings", FieldType::Array);
    schema.declare("authorships.countries", FieldType::Array);
    schema.declare("authorships.country_ids", FieldType::Array);
    schema.declare("authorships.author", FieldType::Object);
    schema.declare("authorships.author.id", FieldType::Value);
    schema.declare("authorships.author.display_name", FieldType::Value);
    schema.declare("authorships.author.orcid", FieldType::Value);
    schema.declare("authorships.affiliations", FieldType::Array);
    schema.declare("authorships.affiliations.raw_affiliation_string", FieldType::Value);
    schema.declare("authorships.affiliations.institution_ids", FieldType::Array);
    schema.declare("authorships.institutions", FieldType::Array);
    schema.declare("authorships.institutions.id", FieldType::Value);
    schema.declare("authorships.institutions.display_name", FieldType::Value);
    schema.declare("authorships.institutions.ror", FieldType::Value);
    schema.declare("authorships.institutions.country_code", FieldType::Value);
    schema.declare("authorships.institutions.type", FieldType::Value);
    schema.declare("authorships.institutions.lineage", FieldType::Array);
    schema.declare("corresponding_author_ids", FieldType::Array);
    schema.declare("corresponding_institution_ids", FieldType::Array);
    schema.declare("referenced_works", FieldType::Array);
    schema.declare("related_works", FieldType::Array);
    schema.declare("indexed_in", FieldType::Array);
    schema.declare("summary_stats", FieldType::Object);
    schema.declare("summary_stats.cited_by_count", FieldType::Value);
    schema.declare("summary_stats.2yr_cited_by_count", FieldType::Value);
    schema.declare("biblio", FieldType::Object);
    schema.declare("biblio.volume", FieldType::Value);
    schema.declare("biblio.issue", FieldType::Value);
    schema.declare("biblio.first_page", FieldType::Value);
    schema.declare("biblio.last_page", FieldType::Value);
    assert(schema@ =~= old(schema)@ + rows_from_authorships());
}

/// The rows from `concepts` to `primary_topic.domain.display_name`.
pub open spec fn rows_from_concepts() -> Seq<(Seq<char>, FieldType)> {
    seq![
        ("concepts"@, FieldType::Array),
        ("concepts.id"@, FieldType::Value),
        ("concepts.wikidata"@, FieldType::Value),
        ("concepts.display_name"@, FieldType::Value),
        ("concepts.level"@, FieldType::Value),
        ("concepts.score"@, FieldType::Value),
        ("topics"@, FieldType::Array),
        ("topics.id"@, FieldType::Value),
        ("topics.display_name"@, FieldType::Value),
        ("topics.score"@, FieldType::Value),
        ("topics.subfield"@, FieldType::Object),
        ("topics.subfield.id"@, FieldType::Value),
        ("topics.subfield.display_name"@, FieldType::Value),
        ("topics.field"@, FieldType::Object),
        ("topics.field.id"@, FieldType::Value),
        ("topics.field.display_name"@, FieldType::Value),
        ("topics.domain"@, FieldType::Object),
        ("topics.domain.id"@, FieldType::Value),
        ("topics.domain.display_name"@, FieldType::Value),
        ("primary_topic"@, FieldType::Object),
        ("primary_topic.id"@, FieldType::Value),
        ("primary_topic.display_name"@, FieldType::Value),
        ("primary_topic.score"@, FieldType::Value),
        ("primary_topic.subfield"@, FieldType::Object),
        ("primary_topic.subfield.id"@, FieldType::Value),
        ("primary_topic.subfield.display_name"@, FieldType::Value),
        ("primary_topic.field"@, FieldType::Object),
        ("primary_topic.field.id"@, FieldType::Value),
        ("primary_topic.field.display_name"@, FieldType::Value),
        ("primary_topic.domain"@, FieldType::Object),
        ("primary_topic.domain.id"@, FieldType::Value),
        ("primary_topic.domain.display_name"@, FieldType::Value),
    ]
}

fn declare_from_concepts(schema: &mut Schema)
    ensures
        final(schema)@ == old(schema)@ + rows_from_concepts(),
{
    schema.declare("concepts", FieldType::Array);
    schema.declare("concepts.id", FieldType::Value);
    schema.declare("concepts.wikidata", FieldType::Value);
    schema.declare("concepts.display_name", FieldType::Value);
    schema.declare("concepts.level", FieldType::Value);
    schema.declare("concepts.score", FieldType::Value);
    schema.declare("topics", FieldType::Array);
    schema.declare("topics.id", FieldType::Value);
    schema.declare("topics.display_name", FieldType::Value);
    schema.declare("topics.score", FieldType::Value);
    schema.declare("topics.subfield", FieldType::Object);
    schema.declare("topics.subfield.id", FieldType::Value);
    schema.declare("topics.subfield.display_name", FieldType::Value);
    schema.declare("topics.field", FieldType::Object);
    schema.declare("topics.field.id", FieldType::Value);
    schema.declare("topics.field.display_name", FieldType::Value);
    schema.declare("topics.domain", FieldType::Object);
    schema.declare("topics.domain.id", FieldType::Value);
    schema.declare("topics.domain.display_name", FieldType::Value);
    schema.declare("primary_topic", FieldType::Object);
    schema.declare("primary_topic.id", FieldType::Value);
    schema.declare("primary_topic.display_name", FieldType::Value);
    schema.declare("primary_topic.score", FieldType::Value);
    schema.declare("primary_topic.subfield", FieldType::Object);
    schema.declare("primary_topic.subfield.id", FieldType::Value);
    schema.declare("primary_topic.subfield.display_name", FieldType::Value);
    schema.declare("primary_topic.field", FieldType::Object);
    schema.declare("primary_topic.field.id", FieldType::Value);
    schema.declare("primary_topic.field.display_name", FieldType::Value);
    schema.declare("primary_topic.domain", FieldType::Object);
    schema.declare("primary_topic.domain.id", FieldType::Value);
    schema.declare("primary_topic.domain.display_name", FieldType::Value);
    assert(schema@ =~= old(schema)@ + rows_from_concepts());
}

/// The rows from `mesh` to `apc_paid`.
pub open spec fn rows_from_mesh() -> Seq<(Seq<char>, FieldType)> {
    seq![
        ("mesh"@, FieldType::Array),
        ("mesh.is_major_topic"@, FieldType::Value),
        ("mesh.descriptor_ui"@, FieldType::Value),
        ("mesh.descriptor_name"@, FieldType::Value),
        ("mesh.qualifier_ui"@, FieldType::Value),
        ("mesh.qualifier_name"@, FieldType::Value),
        ("keywords"@, FieldType::Array),
        ("keywords.keyword"@, FieldType::Value),
        ("keywords.score"@, FieldType::Value),
        ("sustainable_development_goals"@, FieldType::Array),
        ("sustainable_development_goals.id"@, FieldType::Value),
        ("sustainable_development_goals.display_name"@, FieldType::Value),
        ("sustainable_development_goals.score"@, FieldType::Value),
        ("counts_by_year"@, FieldType::Array),
        ("counts_by_year.year"@, FieldType::Value),
        ("counts_by_year.cited_by_count"@, FieldType::Value),
        ("cited_by_percentile_year"@, FieldType::Object),
        ("cited_by_percentile_year.min"@, FieldType::Value),
        ("cited_by_percentile_year.max"@, FieldType::Value),
        ("abstract_inverted_index"@, FieldType::Object),
        ("abstract_inverted_index.*"@, FieldType::Array),
        ("versions"@, FieldType::Array),
        ("datasets"@, FieldType::Array),
        ("grants"@, FieldType::Array),
        ("apc_list"@, FieldType::Object),
        ("apc_paid"@, FieldType::Object),
    ]
}

fn declare_from_mesh(schema: &mut Schema)
    ensures
        final(schema)@ == old(schema)@ + rows_from_mesh(),
{
    schema.declare("mesh", FieldType::Array);
    schema.declare("mesh.is_major_topic", FieldType::Value);
    schema.declare("mesh.descriptor_ui", FieldType::Value);
    schema.declare("mesh.descriptor_name", FieldType::Value);
    schema.declare("mesh.qualifier_ui", FieldType::Value);
    schema.declare("mesh.qualifier_name", FieldType::Value);
    schema.declare("keywords", FieldType::Array);
    schema.declare("keywords.keyword", FieldType::Value);
    schema.declare("keywords.score", FieldType::Value);
    schema.declare("sustainable_development_goals", FieldType::Array);
    schema.declare("sustainable_development_goals.id", FieldType::Value);
    schema.declare("sustainable_development_goals.display_name", FieldType::Value);
    schema.declare("sustainable_development_goals.score", FieldType::Value);
    schema.declare("counts_by_year", FieldType::Array);
    schema.declare("counts_by_year.year", FieldType::Value);
    schema.declare("counts_by_year.cited_by_count", FieldType::Value);
    schema.declare("cited_by_percentile_year", FieldType::Object);
    schema.declare("cited_by_percentile_year.min", FieldType::Value);
    schema.declare("cited_by_percentile_year.max", FieldType::Value);
    schema.declare("abstract_inverted_index", FieldType::Object);
    schema.declare("abstract_inverted_index.*", FieldType::Array);
    schema.declare("versions", FieldType::Array);
    schema.declare("datasets", FieldType::Array);
    schema.declare("grants", FieldType::Array);
    schema.declare("apc_list", FieldType::Object);
    schema.declare("apc_paid", FieldType::Object);
    assert(schema@ =~= old(schema)@ + rows_from_mesh());
}

/// Every row of the OpenAlex work schema, in order.
pub open spec fn openalex_rows() -> Seq<(Seq<char>, FieldType)> {
    rows_from_id() + rows_from_primary_location() + rows_from_best_oa_location() + rows_from_locations() + rows_from_authorships() + rows_from_concepts() + rows_from_mesh()
}

/// The OpenAlex work schema.
pub fn openalex_schema() -> (schema: Schema)
    ensures
        schema@ == openalex_rows(),
{
    let mut schema = Schema::new();
    declare_from_id(&mut schema);
    declare_from_primary_location(&mut schema);
    declare_from_best_oa_location(&mut schema);
    declare_from_locations(&mut schema);
    declare_from_authorships(&mut schema);
    declare_from_concepts(&mut schema);
    declare_from_mesh(&mut schema);
    assert(schema@ =~= openalex_rows());
    schema
}

} // verus!
