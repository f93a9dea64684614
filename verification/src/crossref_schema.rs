//! The schema of Crossref work records: what each dotted path of a record holds.

use vstd::prelude::*;
use crate::schema::{FieldType, Schema};

verus! {

/// The rows from `DOI` to `deposited.timestamp`.
pub open spec fn rows_from_doi() -> Seq<(Seq<char>, FieldType)> {
    seq![
        ("DOI"@, FieldType::Value),
        ("ISSN"@, FieldType::Array),
        ("URL"@, FieldType::Value),
        ("alternative-id"@, FieldType::Array),
        ("author"@, FieldType::Array),
        ("author.affiliation"@, FieldType::Array),
        ("author.affiliation.name"@, FieldType::Value),
        ("author.affiliation.place"@, FieldType::Array),
        ("author.affiliation.id"@, FieldType::Array),
        ("author.affiliation.id.asserted-by"@, FieldType::Value),
        ("author.affiliation.id.id"@, FieldType::Value),
        ("author.affiliation.id.id-type"@, FieldType::Value),
        ("author.affiliation.department"@, FieldType::Array),
        ("author.affiliation.acronym"@, FieldType::Array),
        ("author.family"@, FieldType::Value),
        ("author.given"@, FieldType::Value),
        ("author.sequence"@, FieldType::Value),
        ("author.name"@, FieldType::Value),
        ("author.suffix"@, FieldType::Value),
        ("author.ORCID"@, FieldType::Value),
        ("author.authenticated-orcid"@, FieldType::Value),
        ("container-title"@, FieldType::Array),
        ("content-domain"@, FieldType::Object),
        ("content-domain.crossmark-restriction"@, FieldType::Value),
        ("content-domain.domain"@, FieldType::Array),
        ("created"@, FieldType::Object),
        ("created.date-parts"@, FieldType::Array),
        ("created.date-time"@, FieldType::Value),
        ("created.timestamp"@, FieldType::Value),
        ("deposited"@, FieldType::Object),
        ("deposited.date-parts"@, FieldType::Array),
        ("deposited.date-time"@, FieldType::Value),
        ("deposited.timestamp"@, FieldType::Value),
    ]
}

fn declare_from_doi(schema: &mut Schema)
    ensures
        final(schema)@ == old(schema)@ + rows_from_doi(),
{
    schema.declare("DOI", FieldType::Value);
    schema.declare("ISSN", FieldType::Array);
    schema.declare("URL", FieldType::Value);
    schema.declare("alternative-id", FieldType::Array);
    schema.declare("author", FieldType::Array);
    schema.declare("author.affiliation", FieldType::Array);
    schema.declare("author.affiliation.name", FieldType::Value);
    schema.declare("author.affiliation.place", FieldType::Array);
    schema.declare("author.affiliation.id", FieldType::Array);
    schema.declare("author.affiliation.id.asserted-by", FieldType::Value);
    schema.declare("author.affiliation.id.id", FieldType::Value);
    schema.declare("author.affiliation.id.id-type", FieldType::Value);
    schema.declare("author.affiliation.department", FieldType::Array);
    schema.declare("author.affiliation.acronym", FieldType::Array);
    schema.declare("author.family", FieldType::Value);
    schema.declare("author.given", FieldType::Value);
    schema.declare("author.sequence", FieldType::Value);
    schema.declare("author.name", FieldType::Value);
    schema.declare("author.suffix", FieldType::Value);
    schema.declare("author.ORCID", FieldType::Value);
    schema.declare("author.authenticated-orcid", FieldType::Value);
    schema.declare("container-title", FieldType::Array);
    schema.declare("content-domain", FieldType::Object);
    schema.declare("content-domain.crossmark-restriction", FieldType::Value);
    schema.declare("content-domain.domain", FieldType::Array);
    schema.declare("created", FieldType::Object);
    schema.declare("created.date-parts", FieldType::Array);
    schema.declare("created.date-time", FieldType::Value);
    schema.declare("created.timestamp", FieldType::Value);
    schema.declare("deposited", FieldType::Object);
    schema.declare("deposited.date-parts", FieldType::Array);
    schema.declare("deposited.date-time", FieldType::Value);
    schema.declare("deposited.timestamp", FieldType::Value);
    assert(schema@ =~= old(schema)@ + rows_from_doi());
}

/// The rows from `indexed` to `prefix`.
pub open spec fn rows_from_indexed() -> Seq<(Seq<char>, FieldType)> {
    seq![
        ("indexed"@, FieldType::Object),
        ("indexed.date-parts"@, FieldType::Array),
        ("indexed.date-time"@, FieldType::Value),
        ("indexed.timestamp"@, FieldType::Value),
        ("indexed.version"@, FieldType::Value),
        ("is-referenced-by-count"@, FieldType::Value),
        ("issn-type"@, FieldType::Array),
        ("issn-type.type"@, FieldType::Value),
        ("issn-type.value"@, FieldType::Value),
        ("issue"@, FieldType::Value),
        ("issued"@, FieldType::Object),
        ("issued.date-parts"@, FieldType::Array),
        ("journal-issue"@, FieldType::Object),
        ("journal-issue.issue"@, FieldType::Value),
        ("journal-issue.published-print"@, FieldType::Object),
        ("journal-issue.published-print.date-parts"@, FieldType::Array),
        ("journal-issue.published-online"@, FieldType::Object),
        ("journal-issue.published-online.date-parts"@, FieldType::Array),
        ("language"@, FieldType::Value),
        ("license"@, FieldType::Array),
        ("license.URL"@, FieldType::Value),
        ("license.content-version"@, FieldType::Value),
        ("license.delay-in-days"@, FieldType::Value),
        ("license.start"@, FieldType::Object),
        ("license.start.date-parts"@, FieldType::Array),
        ("license.start.date-time"@, FieldType::Value),
        ("license.start.timestamp"@, FieldType::Value),
        ("link"@, FieldType::Array),
        ("link.URL"@, FieldType::Value),
        ("link.content-type"@, FieldType::Value),
        ("link.content-version"@, FieldType::Value),
        ("link.intended-application"@, FieldType::Value),
        ("member"@, FieldType::Value),
        ("page"@, FieldType::Value),
        ("prefix"@, FieldType::Value),
    ]
}

fn declare_from_indexed(schema: &mut Schema)
    ensures
        final(schema)@ == old(schema)@ + rows_from_indexed(),
{
    schema.declare("indexed", FieldType::Object);
    schema.declare("indexed.date-parts", FieldType::Array);
    schema.declare("indexed.date-time", FieldType::Value);
    schema.declare("indexed.timestamp", FieldType::Value);
    schema.declare("indexed.version", FieldType::Value);
    schema.declare("is-referenced-by-count", FieldType::Value);
    schema.declare("issn-type", FieldType::Array);
    schema.declare("issn-type.type", FieldType::Value);
    schema.declare("issn-type.value", FieldType::Value);
    schema.declare("issue", FieldType::Value);
    schema.declare("issued", FieldType::Object);
    schema.declare("issued.date-parts", FieldType::Array);
    schema.declare("journal-issue", FieldType::Object);
    schema.declare("journal-issue.issue", FieldType::Value);
    schema.declare("journal-issue.published-print", FieldType::Object);
    schema.declare("journal-issue.published-print.date-parts", FieldType::Array);
    schema.declare("journal-issue.published-online", FieldType::Object);
    schema.declare("journal-issue.published-online.date-parts", FieldType::Array);
    schema.declare("language", FieldType::Value);
    schema.declare("license", FieldType::Array);
    schema.declare("license.URL", FieldType::Value);
    schema.declare("license.content-version", FieldType::Value);
    schema.declare("license.delay-in-days", FieldType::Value);
    schema.declare("license.start", FieldType::Object);
    schema.declare("license.start.date-parts", FieldType::Array);
    schema.declare("license.start.date-time", FieldType::Value);
    schema.declare("license.start.timestamp", FieldType::Value);
    schema.declare("link", FieldType::Array);
    schema.declare("link.URL", FieldType::Value);
    schema.declare("link.content-type", FieldType::Value);
    schema.declare("link.content-version", FieldType::Value);
    schema.declare("link.intended-application", FieldType::Value);
    schema.declare("member", FieldType::Value);
    schema.declare("page", FieldType::Value);
    schema.declare("prefix", FieldType::Value);
    assert(schema@ =~= old(schema)@ + rows_from_indexed());
}

/// The rows from `published` to `score`.
pub open spec fn rows_from_published() -> Seq<(Seq<char>, FieldType)> {
    seq![
        ("published"@, FieldType::Object),
        ("published.date-parts"@, FieldType::Array),
        ("published-print"@, FieldType::Object),
        ("published-print.date-parts"@, FieldType::Array),
        ("publisher"@, FieldType::Value),
        ("reference"@, FieldType::Array),
        ("reference.article-title"@, FieldType::Value),
        ("reference.author"@, FieldType::Value),
        ("reference.first-page"@, FieldType::Value),
        ("reference.journal-title"@, FieldType::Value),
        ("reference.key"@, FieldType::Value),
        ("reference.volume"@, FieldType::Value),
        ("reference.year"@, FieldType::Value),
        ("reference.DOI"@, FieldType::Value),
        ("reference.doi-asserted-by"@, FieldType::Value),
        ("reference.unstructured"@, FieldType::Value),
        ("reference.issue"@, FieldType::Value),
        ("reference.series-title"@, FieldType::Value),
        ("reference.volume-title"@, FieldType::Value),
        ("reference.edition"@, FieldType::Value),
        ("reference.ISSN"@, FieldType::Value),
        ("reference.issn-type"@, FieldType::Value),
        ("reference.ISBN"@, FieldType::Value),
        ("reference.isbn-type"@, FieldType::Value),
        ("reference.component"@, FieldType::Value),
        ("reference.standards-body"@, FieldType::Value),
        ("reference.standard-designator"@, FieldType::Value),
        ("reference-count"@, FieldType::Value),
        ("references-count"@, FieldType::Value),
        ("resource"@, FieldType::Object),
        ("resource.primary"@, FieldType::Object),
        ("resource.primary.URL"@, FieldType::Value),
        ("resource.secondary"@, FieldType::Array),
        ("resource.secondary.URL"@, FieldType::Value),
        ("resource.secondary.label"@, FieldType::Value),
        ("score"@, FieldType::Value),
    ]
}

fn declare_from_published(schema: &mut Schema)
    ensures
        final(schema)@ == old(schema)@ + rows_from_published(),
{
    schema.declare("published", FieldType::Object);
    schema.declare("published.date-parts", FieldType::Array);
    schema.declare("published-print", FieldType::Object);
    schema.declare("published-print.date-parts", FieldType::Array);
    schema.declare("publisher", FieldType::Value);
    schema.declare("reference", FieldType::Array);
    schema.declare("reference.article-title", FieldType::Value);
    schema.declare("reference.author", FieldType::Value);
    schema.declare("reference.first-page", FieldType::Value);
    schema.declare("reference.journal-title", FieldType::Value);
    schema.declare("reference.key", FieldType::Value);
    schema.declare("reference.volume", FieldType::Value);
    schema.declare("reference.year", FieldType::Value);
    schema.declare("reference.DOI", FieldType::Value);
    schema.declare("reference.doi-asserted-by", FieldType::Value);
    schema.declare("reference.unstructured", FieldType::Value);
    schema.declare("reference.issue", FieldType::Value);
    schema.declare("reference.series-title", FieldType::Value);
    schema.declare("reference.volume-title", FieldType::Value);
    schema.declare("reference.edition", FieldType::Value);
    schema.declare("reference.ISSN", FieldType::Value);
    schema.declare("reference.issn-type", FieldType::Value);
    schema.declare("reference.ISBN", FieldType::Value);
    schema.declare("reference.isbn-type", FieldType::Value);
    schema.declare("reference.component", FieldType::Value);
    schema.declare("reference.standards-body", FieldType::Value);
    schema.declare("reference.standard-designator", FieldType::Value);
    schema.declare("reference-count", FieldType::Value);
    schema.declare("references-count", FieldType::Value);
    schema.declare("resource", FieldType::Object);
    schema.declare("resource.primary", FieldType::Object);
    schema.declare("resource.primary.URL", FieldType::Value);
    schema.declare("resource.secondary", FieldType::Array);
    schema.declare("resource.secondary.URL", FieldType::Value);
    schema.declare("resource.secondary.label", FieldType::Value);
    schema.declare("score", FieldType::Value);
    assert(schema@ =~= old(schema)@ + rows_from_published());
}

/// The rows from `short-container-title` to `updated-by.record-id`.
pub open spec fn rows_from_short_container_title() -> Seq<(Seq<char>, FieldType)> {
    seq![
        ("short-container-title"@, FieldType::Array),
        ("source"@, FieldType::Value),
        ("title"@, FieldType::Array),
        ("volume"@, FieldType::Value),
        ("special_numbering"@, FieldType::Value),
        ("published-online"@, FieldType::Object),
        ("published-online.date-parts"@, FieldType::Array),
        ("abstract"@, FieldType::Value),
        ("article-number"@, FieldType::Value),
        ("archive"@, FieldType::Array),
        ("assertion"@, FieldType::Array),
        ("assertion.group"@, FieldType::Object),
        ("assertion.group.label"@, FieldType::Value),
        ("assertion.group.name"@, FieldType::Value),
        ("assertion.label"@, FieldType::Value),
        ("assertion.name"@, FieldType::Value),
        ("assertion.order"@, FieldType::Value),
        ("assertion.value"@, FieldType::Value),
        ("assertion.explanation"@, FieldType::Object),
        ("assertion.explanation.URL"@, FieldType::Value),
        ("assertion.URL"@, FieldType::Value),
        ("update-policy"@, FieldType::Value),
        ("subtitle"@, FieldType::Array),
        ("updated-by"@, FieldType::Array),
        ("updated-by.DOI"@, FieldType::Value),
        ("updated-by.label"@, FieldType::Value),
        ("updated-by.source"@, FieldType::Value),
        ("updated-by.type"@, FieldType::Value),
        ("updated-by.updated"@, FieldType::Object),
        ("updated-by.updated.date-parts"@, FieldType::Array),
        ("updated-by.updated.date-time"@, FieldType::Value),
        ("updated-by.updated.timestamp"@, FieldType::Value),
        ("updated-by.record-id"@, FieldType::Value),
    ]
}

fn declare_from_short_container_title(schema: &mut Schema)
    ensures
        final(schema)@ == old(schema)@ + rows_from_short_container_title(),
{
    schema.declare("short-container-title", FieldType::Array);
    schema.declare("source", FieldType::Value);
    schema.declare("title", FieldType::Array);
    schema.declare("volume", FieldType::Value);
    schema.declare("special_numbering", FieldType::Value);
    schema.declare("published-online", FieldType::Object);
    schema.declare("published-online.date-parts", FieldType::Array);
    schema.declare("abstract", FieldType::Value);
    schema.declare("article-number", FieldType::Value);
    schema.declare("archive", FieldType::Array);
    schema.declare("assertion", FieldType::Array);
    schema.declare("assertion.group", FieldType::Object);
    schema.declare("assertion.group.label", FieldType::Value);
    schema.declare("assertion.group.name", FieldType::Value);
    schema.declare("assertion.label", FieldType::Value);
    schema.declare("assertion.name", FieldType::Value);
    schema.declare("assertion.order", FieldType::Value);
    schema.declare("assertion.value", FieldType::Value);
    schema.declare("assertion.explanation", FieldType::Object);
    schema.declare("assertion.explanation.URL", FieldType::Value);
    schema.declare("assertion.URL", FieldType::Value);
    schema.declare("update-policy", FieldType::Value);
    schema.declare("subtitle", FieldType::Array);
    schema.declare("updated-by", FieldType::Array);
    schema.declare("updated-by.DOI", FieldType::Value);
    schema.declare("updated-by.label", FieldType::Value);
    schema.declare("updated-by.source", FieldType::Value);
    schema.declare("updated-by.type", FieldType::Value);
    schema.declare("updated-by.updated", FieldType::Object);
    schema.declare("updated-by.updated.date-parts", FieldType::Array);
    schema.declare("updated-by.updated.date-time", FieldType::Value);
    schema.declare("updated-by.updated.timestamp", FieldType::Value);
    schema.declare("updated-by.record-id", FieldType::Value);
    assert(schema@ =~= old(schema)@ + rows_from_short_container_title());
}

/// The rows from `relation` to `published-other.date-parts`.
pub open spec fn rows_from_relation() -> Seq<(Seq<char>, FieldType)> {
    seq![
        ("relation"@, FieldType::Object),
        ("relation.*"@, FieldType::Array),
        ("relation.*.asserted-by"@, FieldType::Value),
        ("relation.*.id"@, FieldType::Value),
        ("relation.*.id-type"@, FieldType::Value),
        ("funder"@, FieldType::Array),
        ("funder.DOI"@, FieldType::Value),
        ("funder.doi-asserted-by"@, FieldType::Value),
        ("funder.id"@, FieldType::Array),
        ("funder.id.asserted-by"@, FieldType::Value),
        ("funder.id.id"@, FieldType::Value),
        ("funder.id.id-type"@, FieldType::Value),
        ("funder.name"@, FieldType::Value),
        ("funder.award"@, FieldType::Array),
        ("update-to"@, FieldType::Array),
        ("update-to.DOI"@, FieldType::Value),
        ("update-to.label"@, FieldType::Value),
        ("update-to.record-id"@, FieldType::Value),
        ("update-to.source"@, FieldType::Value),
        ("update-to.type"@, FieldType::Value),
        ("update-to.updated"@, FieldType::Object),
        ("update-to.updated.date-parts"@, FieldType::Array),
        ("update-to.updated.date-time"@, FieldType::Value),
        ("update-to.updated.timestamp"@, FieldType::Value),
        ("published-other"@, FieldType::Object),
        ("published-other.date-parts"@, FieldType::Array),
    ]
}

fn declare_from_relation(schema: &mut Schema)
    ensures
        final(schema)@ == old(schema)@ + rows_from_relation(),
{
    schema.declare("relation", FieldType::Object);
    schema.declare("relation.*", FieldType::Array);
    schema.declare("relation.*.asserted-by", FieldType::Value);
    schema.declare("relation.*.id", FieldType::Value);
    schema.declare("relation.*.id-type", FieldType::Value);
    schema.declare("funder", FieldType::Array);
    schema.declare("funder.DOI", FieldType::Value);
    schema.declare("funder.doi-asserted-by", FieldType::Value);
    schema.declare("funder.id", FieldType::Array);
    schema.declare("funder.id.asserted-by", FieldType::Value);
    schema.declare("funder.id.id", FieldType::Value);
    schema.declare("funder.id.id-type", FieldType::Value);
    schema.declare("funder.name", FieldType::Value);
    schema.declare("funder.award", FieldType::Array);
    schema.declare("update-to", FieldType::Array);
    schema.declare("update-to.DOI", FieldType::Value);
    schema.declare("update-to.label", FieldType::Value);
    schema.declare("update-to.record-id", FieldType::Value);
    schema.declare("update-to.source", FieldType::Value);
    schema.declare("update-to.type", FieldType::Value);
    schema.declare("update-to.updated", FieldType::Object);
    schema.declare("update-to.updated.date-parts", FieldType::Array);
    schema.declare("update-to.updated.date-time", FieldType::Value);
    schema.declare("update-to.updated.timestamp", FieldType::Value);
    schema.declare("published-other", FieldType::Object);
    schema.declare("published-other.date-parts", FieldType::Array);
    assert(schema@ =~= old(schema)@ + rows_from_relation());
}

/// The rows from `editor` to `event.theme`.
pub open spec fn rows_from_editor() -> Seq<(Seq<char>, FieldType)> {
    seq![
        ("editor"@, FieldType::Array),
        ("editor.affiliation"@, FieldType::Array),
        ("editor.affiliation.name"@, FieldType::Value),
        ("editor.affiliation.id"@, FieldType::Array),
        ("editor.affiliation.id.asserted-by"@, FieldType::Value),
        ("editor.affiliation.id.id"@, FieldType::Value),
        ("editor.affiliation.id.id-type"@, FieldType::Value),
        ("editor.affiliation.place"@, FieldType::Array),
        ("editor.affiliation.acronym"@, FieldType::Array),
        ("editor.affiliation.department"@, FieldType::Array),
        ("editor.family"@, FieldType::Value),
        ("editor.given"@, FieldType::Value),
        ("editor.sequence"@, FieldType::Value),
        ("editor.ORCID"@, FieldType::Value),
        ("editor.authenticated-orcid"@, FieldType::Value),
        ("editor.name"@, FieldType::Value),
        ("editor.suffix"@, FieldType::Value),
        ("aliases"@, FieldType::Array),
        ("original-title"@, FieldType::Array),
        ("ISBN"@, FieldType::Array),
        ("isbn-type"@, FieldType::Array),
        ("isbn-type.type"@, FieldType::Value),
        ("isbn-type.value"@, FieldType::Value),
        ("publisher-location"@, FieldType::Value),
        ("description"@, FieldType::Value),
        ("event"@, FieldType::Object),
        ("event.location"@, FieldType::Value),
        ("event.name"@, FieldType::Value),
        ("event.end"@, FieldType::Object),
        ("event.end.date-parts"@, FieldType::Array),
        ("event.start"@, FieldType::Object),
        ("event.start.date-parts"@, FieldType::Array),
        ("event.acronym"@, FieldType::Value),
        ("event.sponsor"@, FieldType::Array),
        ("event.number"@, FieldType::Value),
        ("event.theme"@, FieldType::Value),
    ]
}

fn declare_from_editor(schema: &mut Schema)
    ensures
        final(schema)@ == old(schema)@ + rows_from_editor(),
{
    schema.declare("editor", FieldType::Array);
    schema.declare("editor.affiliation", FieldType::Array);
    schema.declare("editor.affiliation.name", FieldType::Value);
    schema.declare("editor.affiliation.id", FieldType::Array);
    schema.declare("editor.affiliation.id.asserted-by", FieldType::Value);
    schema.declare("editor.affiliation.id.id", FieldType::Value);
    schema.declare("editor.affiliation.id.id-type", FieldType::Value);
    schema.declare("editor.affiliation.place", FieldType::Array);
    schema.declare("editor.affiliation.acronym", FieldType::Array);
    schema.declare("editor.affiliation.department", FieldType::Array);
    schema.declare("editor.family", FieldType::Value);
    schema.declare("editor.given", FieldType::Value);
    schema.declare("editor.sequence", FieldType::Value);
    schema.declare("editor.ORCID", FieldType::Value);
    schema.declare("editor.authenticated-orcid", FieldType::Value);
    schema.declare("editor.name", FieldType::Value);
    schema.declare("editor.suffix", FieldType::Value);
    schema.declare("aliases", FieldType::Array);
    schema.declare("original-title", FieldType::Array);
    schema.declare("ISBN", FieldType::Array);
    schema.declare("isbn-type", FieldType::Array);
    schema.declare("isbn-type.type", FieldType::Value);
    schema.declare("isbn-type.value", FieldType::Value);
    schema.declare("publisher-location", FieldType::Value);
    schema.declare("description", FieldType::Value);
    schema.declare("event", FieldType::Object);
    schema.declare("event.location", FieldType::Value);
    schema.declare("event.name", FieldType::Value);
    schema.declare("event.end", FieldType::Object);
    schema.declare("event.end.date-parts", FieldType::Array);
    schema.declare("event.start", FieldType::Object);
    schema.declare("event.start.date-parts", FieldType::Array);
    schema.declare("event.acronym", FieldType::Value);
    schema.declare("event.sponsor", FieldType::Array);
    schema.declare("event.number", FieldType::Value);
    schema.declare("event.theme", FieldType::Value);
    assert(schema@ =~= old(schema)@ + rows_from_editor());
}

/// The rows from `accepted` to `issue-title`.
pub open spec fn rows_from_accepted() -> Seq<(Seq<char>, FieldType)> {
    seq![
        ("accepted"@, FieldType::Object),
        ("accepted.date-parts"@, FieldType::Array),
        ("short-title"@, FieldType::Array),
        ("review"@, FieldType::Object),
        ("review.competing-interest-statement"@, FieldType::Value),
        ("review.recommendation"@, FieldType::Value),
        ("review.revision-round"@, FieldType::Value),
        ("review.stage"@, FieldType::Value),
        ("review.type"@, FieldType::Value),
        ("review.language"@, FieldType::Value),
        ("review.running-number"@, FieldType::Value),
        ("group-title"@, FieldType::Value),
        ("institution"@, FieldType::Array),
        ("institution.name"@, FieldType::Value),
        ("institution.place"@, FieldType::Array),
        ("institution.acronym"@, FieldType::Array),
        ("institution.department"@, FieldType::Array),
        ("institution.id"@, FieldType::Array),
        ("institution.id.asserted-by"@, FieldType::Value),
        ("institution.id.id"@, FieldType::Value),
        ("institution.id.id-type"@, FieldType::Value),
        ("posted"@, FieldType::Object),
        ("posted.date-parts"@, FieldType::Array),
        ("subtype"@, FieldType::Value),
        ("approved"@, FieldType::Object),
        ("approved.date-parts"@, FieldType::Array),
        ("standards-body"@, FieldType::Object),
        ("standards-body.acronym"@, FieldType::Value),
        ("standards-body.name"@, FieldType::Value),
        ("content-created"@, FieldType::Object),
        ("content-created.date-parts"@, FieldType::Array),
        ("edition-number"@, FieldType::Value),
        ("degree"@, FieldType::Array),
        ("issue-title"@, FieldType::Array),
    ]
}

fn declare_from_accepted(schema: &mut Schema)
    ensures
        final(schema)@ == old(schema)@ + rows_from_accepted(),
{
    schema.declare("accepted", FieldType::Object);
    schema.declare("accepted.date-parts", FieldType::Array);
    schema.declare("short-title", FieldType::Array);
    schema.declare("review", FieldType::Object);
    schema.declare("review.competing-interest-statement", FieldType::Value);
    schema.declare("review.recommendation", FieldType::Value);
    schema.declare("review.revision-round", FieldType::Value);
    schema.declare("review.stage", FieldType::Value);
    schema.declare("review.type", FieldType::Value);
    schema.declare("review.language", FieldType::Value);
    schema.declare("review.running-number", FieldType::Value);
    schema.declare("group-title", FieldType::Value);
    schema.declare("institution", FieldType::Array);
    schema.declare("institution.name", FieldType::Value);
    schema.declare("institution.place", FieldType::Array);
    schema.declare("institution.acronym", FieldType::Array);
    schema.declare("institution.department", FieldType::Array);
    schema.declare("institution.id", FieldType::Array);
    schema.declare("institution.id.asserted-by", FieldType::Value);
    schema.declare("institution.id.id", FieldType::Value);
    schema.declare("institution.id.id-type", FieldType::Value);
    schema.declare("posted", FieldType::Object);
    schema.declare("posted.date-parts", FieldType::Array);
    schema.declare("subtype", FieldType::Value);
    schema.declare("approved", FieldType::Object);
    schema.declare("approved.date-parts", FieldType::Array);
    schema.declare("standards-body", FieldType::Object);
    schema.declare("standards-body.acronym", FieldType::Value);
    schema.declare("standards-body.name", FieldType::Value);
    schema.declare("content-created", FieldType::Object);
    schema.declare("content-created.date-parts", FieldType::Array);
    schema.declare("edition-number", FieldType::Value);
    schema.declare("degree", FieldType::Array);
    schema.declare("issue-title", FieldType::Array);
    assert(schema@ =~= old(schema)@ + rows_from_accepted());
}

/// The rows from `translator` to `award-start.date-parts`.
pub open spec fn rows_from_translator() -> Seq<(Seq<char>, FieldType)> {
    seq![
        ("translator"@, FieldType::Array),
        ("translator.affiliation"@, FieldType::Array),
        ("translator.affiliation.name"@, FieldType::Value),
        ("translator.affiliation.id"@, FieldType::Array),
        ("translator.affiliation.id.asserted-by"@, FieldType::Value),
        ("translator.affiliation.id.id"@, FieldType::Value),
        ("translator.affiliation.id.id-type"@, FieldType::Value),
        ("translator.affiliation.place"@, FieldType::Array),
        ("translator.family"@, FieldType::Value),
        ("translator.given"@, FieldType::Value),
        ("translator.sequence"@, FieldType::Value),
        ("translator.name"@, FieldType::Value),
        ("translator.ORCID"@, FieldType::Value),
        ("translator.authenticated-orcid"@, FieldType::Value),
        ("translator.suffix"@, FieldType::Value),
        ("clinical-trial-number"@, FieldType::Array),
        ("clinical-trial-number.clinical-trial-number"@, FieldType::Value),
        ("clinical-trial-number.registry"@, FieldType::Value),
        ("clinical-trial-number.type"@, FieldType::Value),
        ("award"@, FieldType::Value),
        ("award-start"@, FieldType::Object),
        ("award-start.date-parts"@, FieldType::Array),
    ]
}

fn declare_from_translator(schema: &mut Schema)
    ensures
        final(schema)@ == old(schema)@ + rows_from_translator(),
{
    schema.declare("translator", FieldType::Array);
    schema.declare("translator.affiliation", FieldType::Array);
    schema.declare("translator.affiliation.name", FieldType::Value);
    schema.declare("translator.affiliation.id", FieldType::Array);
    schema.declare("translator.affiliation.id.asserted-by", FieldType::Value);
    schema.declare("translator.affiliation.id.id", FieldType::Value);
    schema.declare("translator.affiliation.id.id-type", FieldType::Value);
    schema.declare("translator.affiliation.place", FieldType::Array);
    schema.declare("translator.family", FieldType::Value);
    schema.declare("translator.given", FieldType::Value);
    schema.declare("translator.sequence", FieldType::Value);
    schema.declare("translator.name", FieldType::Value);
    schema.declare("translator.ORCID", FieldType::Value);
    schema.declare("translator.authenticated-orcid", FieldType::Value);
    schema.declare("translator.suffix", FieldType::Value);
    schema.declare("clinical-trial-number", FieldType::Array);
    schema.declare("clinical-trial-number.clinical-trial-number", FieldType::Value);
    schema.declare("clinical-trial-number.registry", FieldType::Value);
    schema.declare("clinical-trial-number.type", FieldType::Value);
    schema.declare("award", FieldType::Value);
    schema.declare("award-start", FieldType::Object);
    schema.declare("award-start.date-parts", FieldType::Array);
    assert(schema@ =~= old(schema)@ + rows_from_translator());
}

/// The rows from `project` to `project.lead-investigator`.
pub open spec fn rows_from_project() -> Seq<(Seq<char>, FieldType)> {
    seq![
        ("project"@, FieldType::Array),
        ("project.award-end"@, FieldType::Object),
        ("project.award-end.date-parts"@, FieldType::Array),
        ("project.award-start"@, FieldType::Object),
        ("project.award-start.date-parts"@, FieldType::Array),
        ("project.funding"@, FieldType::Array),
        ("project.funding.funder"@, FieldType::Object),
        ("project.funding.funder.id"@, FieldType::Array),
        ("project.funding.funder.id.asserted-by"@, FieldType::Value),
        ("project.funding.funder.id.id"@, FieldType::Value),
        ("project.funding.funder.id.id-type"@, FieldType::Value),
        ("project.funding.funder.name"@, FieldType::Value),
        ("project.funding.type"@, FieldType::Value),
        ("project.funding.scheme"@, FieldType::Value),
        ("project.funding.award-amount"@, FieldType::Object),
        ("project.funding.award-amount.amount"@, FieldType::Value),
        ("project.funding.award-amount.currency"@, FieldType::Value),
        ("project.funding.award-amount.percentage"@, FieldType::Value),
        ("project.investigator"@, FieldType::Array),
        ("project.investigator.affiliation"@, FieldType::Array),
        ("project.investigator.affiliation.country"@, FieldType::Value),
        ("project.investigator.affiliation.name"@, FieldType::Value),
        ("project.investigator.affiliation.id"@, FieldType::Array),
        ("project.investigator.affiliation.id.asserted-by"@, FieldType::Value),
        ("project.investigator.affiliation.id.id"@, FieldType::Value),
        ("project.investigator.affiliation.id.id-type"@, FieldType::Value),
        ("project.investigator.family"@, FieldType::Value),
        ("project.investigator.given"@, FieldType::Value),
        ("project.investigator.ORCID"@, FieldType::Value),
        ("project.investigator.authenticated-orcid"@, FieldType::Value),
        ("project.investigator.alternate-name"@, FieldType::Array),
        ("project.investigator.role-start"@, FieldType::Object),
        ("project.investigator.role-start.date-parts"@, FieldType::Array),
        ("project.investigator.role-end"@, FieldType::Object),
        ("project.investigator.role-end.date-parts"@, FieldType::Array),
        ("project.lead-investigator"@, FieldType::Array),
    ]
}

fn declare_from_project(schema: &mut Schema)
    ensures
        final(schema)@ == old(schema)@ + rows_from_project(),
{
    schema.declare("project", FieldType::Array);
    schema.declare("project.award-end", FieldType::Object);
    schema.declare("project.award-end.date-parts", FieldType::Array);
    schema.declare("project.award-start", FieldType::Object);
    schema.declare("project.award-start.date-parts", FieldType::Array);
    schema.declare("project.funding", FieldType::Array);
    schema.declare("project.funding.funder", FieldType::Object);
    schema.declare("project.funding.funder.id", FieldType::Array);
    schema.declare("project.funding.funder.id.asserted-by", FieldType::Value);
    schema.declare("project.funding.funder.id.id", FieldType::Value);
    schema.declare("project.funding.funder.id.id-type", FieldType::Value);
    schema.declare("project.funding.funder.name", FieldType::Value);
    schema.declare("project.funding.type", FieldType::Value);
    schema.declare("project.funding.scheme", FieldType::Value);
    schema.declare("project.funding.award-amount", FieldType::Object);
    schema.declare("project.funding.award-amount.amount", FieldType::Value);
    schema.declare("project.funding.award-amount.currency", FieldType::Value);
    schema.declare("project.funding.award-amount.percentage", FieldType::Value);
    schema.declare("project.investigator", FieldType::Array);
    schema.declare("project.investigator.affiliation", FieldType::Array);
    schema.declare("project.investigator.affiliation.country", FieldType::Value);
    schema.declare("project.investigator.affiliation.name", FieldType::Value);
    schema.declare("project.investigator.affiliation.id", FieldType::Array);
    schema.declare("project.investigator.affiliation.id.asserted-by", FieldType::Value);
    schema.declare("project.investigator.affiliation.id.id", FieldType::Value);
    schema.declare("project.investigator.affiliation.id.id-type", FieldType::Value);
    schema.declare("project.investigator.family", FieldType::Value);
    schema.declare("project.investigator.given", FieldType::Value);
    schema.declare("project.investigator.ORCID", FieldType::Value);
    schema.declare("project.investigator.authenticated-orcid", FieldType::Value);
    schema.declare("project.investigator.alternate-name", FieldType::Array);
    schema.declare("project.investigator.role-start", FieldType::Object);
    schema.declare("project.investigator.role-start.date-parts", FieldType::Array);
    schema.declare("project.investigator.role-end", FieldType::Object);
    schema.declare("project.investigator.role-end.date-parts", FieldType::Array);
    schema.declare("project.lead-investigator", FieldType::Array);
    assert(schema@ =~= old(schema)@ + rows_from_project());
}

/// The rows from `project.lead-investigator.affiliation` to `project.co-lead-investigator.family`.
pub open spec fn rows_from_project_lead_investigator_affiliation() -> Seq<(Seq<char>, FieldType)> {
    seq![
        ("project.lead-investigator.affiliation"@, FieldType::Array),
        ("project.lead-investigator.affiliation.country"@, FieldType::Value),
        ("project.lead-investigator.affiliation.name"@, FieldType::Value),
        ("project.lead-investigator.affiliation.id"@, FieldType::Array),
        ("project.lead-investigator.affiliation.id.asserted-by"@, FieldType::Value),
        ("project.lead-investigator.affiliation.id.id"@, FieldType::Value),
        ("project.lead-investigator.affiliation.id.id-type"@, FieldType::Value),
        ("project.lead-investigator.family"@, FieldType::Value),
        ("project.lead-investigator.given"@, FieldType::Value),
        ("project.lead-investigator.ORCID"@, FieldType::Value),
        ("project.lead-investigator.authenticated-orcid"@, FieldType::Value),
        ("project.lead-investigator.alternate-name"@, FieldType::Array),
        ("project.lead-investigator.role-start"@, FieldType::Object),
        ("project.lead-investigator.role-start.date-parts"@, FieldType::Array),
        ("project.lead-investigator.role-end"@, FieldType::Object),
        ("project.lead-investigator.role-end.date-parts"@, FieldType::Array),
        ("project.project-title"@, FieldType::Array),
        ("project.project-title.title"@, FieldType::Value),
        ("project.project-title.language"@, FieldType::Value),
        ("project.project-description"@, FieldType::Array),
        ("project.project-description.description"@, FieldType::Value),
        ("project.project-description.language"@, FieldType::Value),
        ("project.award-amount"@, FieldType::Object),
        ("project.award-amount.amount"@, FieldType::Value),
        ("project.award-amount.currency"@, FieldType::Value),
        ("project.co-lead-investigator"@, FieldType::Array),
        ("project.co-lead-investigator.ORCID"@, FieldType::Value),
        ("project.co-lead-investigator.affiliation"@, FieldType::Array),
        ("project.co-lead-investigator.affiliation.country"@, FieldType::Value),
        ("project.co-lead-investigator.affiliation.name"@, FieldType::Value),
        ("project.co-lead-investigator.affiliation.id"@, FieldType::Array),
        ("project.co-lead-investigator.affiliation.id.asserted-by"@, FieldType::Value),
        ("project.co-lead-investigator.affiliation.id.id"@, FieldType::Value),
        ("project.co-lead-investigator.affiliation.id.id-type"@, FieldType::Value),
        ("project.co-lead-investigator.authenticated-orcid"@, FieldType::Value),
        ("project.co-lead-investigator.family"@, FieldType::Value),
    ]
}

fn declare_from_project_lead_investigator_affiliation(schema: &mut Schema)
    ensures
        final(schema)@ == old(schema)@ + rows_from_project_lead_investigator_affiliation(),
{
    schema.declare("project.lead-investigator.affiliation", FieldType::Array);
    schema.declare("project.lead-investigator.affiliation.country", FieldType::Value);
    schema.declare("project.lead-investigator.affiliation.name", FieldType::Value);
    schema.declare("project.lead-investigator.affiliation.id", FieldType::Array);
    schema.declare("project.lead-investigator.affiliation.id.asserted-by", FieldType::Value);
    schema.declare("project.lead-investigator.affiliation.id.id", FieldType::Value);
    schema.declare("project.lead-investigator.affiliation.id.id-type", FieldType::Value);
    schema.declare("project.lead-investigator.family", FieldType::Value);
    schema.declare("project.lead-investigator.given", FieldType::Value);
    schema.declare("project.lead-investigator.ORCID", FieldType::Value);
    schema.declare("project.lead-investigator.authenticated-orcid", FieldType::Value);
    schema.declare("project.lead-investigator.alternate-name", FieldType::Array);
    schema.declare("project.lead-investigator.role-start", FieldType::Object);
    schema.declare("project.lead-investigator.role-start.date-parts", FieldType::Array);
    schema.declare("project.lead-investigator.role-end", FieldType::Object);
    schema.declare("project.lead-investigator.role-end.date-parts", FieldType::Array);
    schema.declare("project.project-title", FieldType::Array);
    schema.declare("project.project-title.title", FieldType::Value);
    schema.declare("project.project-title.language", FieldType::Value);
    schema.declare("project.project-description", FieldType::Array);
    schema.declare("project.project-description.description", FieldType::Value);
    schema.declare("project.project-description.language", FieldType::Value);
    schema.declare("project.award-amount", FieldType::Object);
    schema.declare("project.award-amount.amount", FieldType::Value);
    schema.declare("project.award-amount.currency", FieldType::Value);
    schema.declare("project.co-lead-investigator", FieldType::Array);
    schema.declare("project.co-lead-investigator.ORCID", FieldType::Value);
    schema.declare("project.co-lead-investigator.affiliation", FieldType::Array);
    schema.declare("project.co-lead-investigator.affiliation.country", FieldType::Value);
    schema.declare("project.co-lead-investigator.affiliation.name", FieldType::Value);
    schema.declare("project.co-lead-investigator.affiliation.id", FieldType::Array);
    schema.declare("project.co-lead-investigator.affiliation.id.asserted-by", FieldType::Value);
    schema.declare("project.co-lead-investigator.affiliation.id.id", FieldType::Value);
    schema.declare("project.co-lead-investigator.affiliation.id.id-type", FieldType::Value);
    schema.declare("project.co-lead-investigator.authenticated-orcid", FieldType::Value);
    schema.declare("project.co-lead-investigator.family", FieldType::Value);
    assert(schema@ =~= old(schema)@ + rows_from_project_lead_investigator_affiliation());
}

/// The rows from `project.co-lead-investigator.given` to `project.award-planned-end.date-parts`.
pub open spec fn rows_from_project_co_lead_investigator_given() -> Seq<(Seq<char>, FieldType)> {
    seq![
        ("project.co-lead-investigator.given"@, FieldType::Value),
        ("project.co-lead-investigator.role-end"@, FieldType::Object),
        ("project.co-lead-investigator.role-end.date-parts"@, FieldType::Array),
        ("project.co-lead-investigator.role-start"@, FieldType::Object),
        ("project.co-lead-investigator.role-start.date-parts"@, FieldType::Array),
        ("project.award-planned-end"@, FieldType::Object),
        ("project.award-planned-end.date-parts"@, FieldType::Array),
    ]
}

fn declare_from_project_co_lead_investigator_given(schema: &mut Schema)
    ensures
        final(schema)@ == old(schema)@ + rows_from_project_co_lead_investigator_given(),
{
    schema.declare("project.co-lead-investigator.given", FieldType::Value);
    schema.declare("project.co-lead-investigator.role-end", FieldType::Object);
    schema.declare("project.co-lead-investigator.role-end.date-parts", FieldType::Array);
    schema.declare("project.co-lead-investigator.role-start", FieldType::Object);
    schema.declare("project.co-lead-investigator.role-start.date-parts", FieldType::Array);
    schema.declare("project.award-planned-end", FieldType::Object);
    schema.declare("project.award-planned-end.date-parts", FieldType::Array);
    assert(schema@ =~= old(schema)@ + rows_from_project_co_lead_investigator_given());
}

/// The rows from `proceedings-subject` to `year`.
pub open spec fn rows_from_proceedings_subject() -> Seq<(Seq<char>, FieldType)> {
    seq![
        ("proceedings-subject"@, FieldType::Value),
        ("chair"@, FieldType::Array),
        ("chair.affiliation"@, FieldType::Array),
        ("chair.affiliation.name"@, FieldType::Value),
        ("chair.affiliation.id"@, FieldType::Array),
        ("chair.affiliation.id.asserted-by"@, FieldType::Value),
        ("chair.affiliation.id.id"@, FieldType::Value),
        ("chair.affiliation.id.id-type"@, FieldType::Value),
        ("chair.affiliation.department"@, FieldType::Array),
        ("chair.affiliation.acronym"@, FieldType::Array),
        ("chair.affiliation.place"@, FieldType::Array),
        ("chair.family"@, FieldType::Value),
        ("chair.given"@, FieldType::Value),
        ("chair.sequence"@, FieldType::Value),
        ("chair.ORCID"@, FieldType::Value),
        ("chair.authenticated-orcid"@, FieldType::Value),
        ("chair.name"@, FieldType::Value),
        ("chair.suffix"@, FieldType::Value),
        ("content-updated"@, FieldType::Object),
        ("content-updated.date-parts"@, FieldType::Array),
        ("part-number"@, FieldType::Value),
        ("type"@, FieldType::Value),
        ("year"@, FieldType::Value),
    ]
}

fn declare_from_proceedings_subject(schema: &mut Schema)
    ensures
        final(schema)@ == old(schema)@ + rows_from_proceedings_subject(),
{
    schema.declare("proceedings-subject", FieldType::Value);
    schema.declare("chair", FieldType::Array);
    schema.declare("chair.affiliation", FieldType::Array);
    schema.declare("chair.affiliation.name", FieldType::Value);
    schema.declare("chair.affiliation.id", FieldType::Array);
    schema.declare("chair.affiliation.id.asserted-by", FieldType::Value);
    schema.declare("chair.affiliation.id.id", FieldType::Value);
    schema.declare("chair.affiliation.id.id-type", FieldType::Value);
    schema.declare("chair.affiliation.department", FieldType::Array);
    schema.declare("chair.affiliation.acronym", FieldType::Array);
    schema.declare("chair.affiliation.place", FieldType::Array);
    schema.declare("chair.family", FieldType::Value);
    schema.declare("chair.given", FieldType::Value);
    schema.declare("chair.sequence", FieldType::Value);
    schema.declare("chair.ORCID", FieldType::Value);
    schema.declare("chair.authenticated-orcid", FieldType::Value);
    schema.declare("chair.name", FieldType::Value);
    schema.declare("chair.suffix", FieldType::Value);
    schema.declare("content-updated", FieldType::Object);
    schema.declare("content-updated.date-parts", FieldType::Array);
    schema.declare("part-number", FieldType::Value);
    schema.declare("type", FieldType::Value);
    schema.declare("year", FieldType::Value);
    assert(schema@ =~= old(schema)@ + rows_from_proceedings_subject());
}

/// Every row of the Crossref work schema, in order.
pub open spec fn crossref_rows() -> Seq<(Seq<char>, FieldType)> {
    rows_from_doi() + rows_from_indexed() + rows_from_published() + rows_from_short_container_title() + rows_from_relation() + rows_from_editor() + rows_from_accepted() + rows_from_translator() + rows_from_project() + rows_from_project_lead_investigator_affiliation() + rows_from_project_co_lead_investigator_given() + rows_from_proceedings_subject()
}

/// The Crossref work schema.
pub fn crossref_schema() -> (schema: Schema)
    ensures
        schema@ == crossref_rows(),
{
    let mut schema = Schema::new();
    declare_from_doi(&mut schema);
    declare_from_indexed(&mut schema);
    declare_from_published(&mut schema);
    declare_from_short_container_title(&mut schema);
    declare_from_relation(&mut schema);
    declare_from_editor(&mut schema);
    declare_from_accepted(&mut schema);
    declare_from_translator(&mut schema);
    declare_from_project(&mut schema);
    declare_from_project_lead_investigator_affiliation(&mut schema);
    declare_from_project_co_lead_investigator_given(&mut schema);
    declare_from_proceedings_subject(&mut schema);
    assert(schema@ =~= crossref_rows());
    schema
}

} // verus!
