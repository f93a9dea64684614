use parsing_utils::crossref::{crossref_extractor, extract_doi, extract_doi_prefix, extract_member_id};
use parsing_utils::fields::parse_field_specifications;
use parsing_utils::json::{JsonDoc, Member};
use parsing_utils::openalex;
use parsing_utils::schema::{FieldType, Schema};
use parsing_utils::trie::{build_route, PatternTrie};

fn triples(trie: &PatternTrie, text: &str) -> Vec<(String, String, String)> {
    let doc = JsonDoc::parse(text).expect("valid JSON");
    trie.extract(&doc)
        .into_iter()
        .map(|e| (e.pattern_name, e.concrete_path, e.value))
        .collect()
}

fn t(a: &str, b: &str, c: &str) -> (String, String, String) {
    (a.to_string(), b.to_string(), c.to_string())
}

#[test]
fn array_fan_out() {
    let trie = crossref_extractor(&parse_field_specifications("author.family"));
    let found = triples(&trie, r#"{"author":[{"family":"Doe"},{"family":"Roe"},{}]}"#);
    assert_eq!(
        found,
        vec![
            t("author.family", "author[0].family", "Doe"),
            t("author.family", "author[1].family", "Roe"),
        ]
    );
}

#[test]
fn wildcard_descent() {
    let trie = crossref_extractor(&parse_field_specifications("relation.*.id"));
    let found = triples(
        &trie,
        r#"{"relation":{"cites":[{"id":"a"}],"is-cited-by":[{"id":"b"},{"id":"c"}]}}"#,
    );
    assert_eq!(
        found,
        vec![
            t("relation.*.id", "relation.cites[0].id", "a"),
            t("relation.*.id", "relation.is-cited-by[0].id", "b"),
            t("relation.*.id", "relation.is-cited-by[1].id", "c"),
        ]
    );
}

#[test]
fn relation_request_reports_only_what_was_asked_for() {
    let trie = crossref_extractor(&parse_field_specifications("relation.cites.id,title"));
    let found = triples(&trie, r#"{"title":["T"],"relation":{"cites":[{"id":"a"}]}}"#);
    assert_eq!(found, vec![t("title", "title[0]", "T")]);
    let asked = crossref_extractor(&parse_field_specifications("relation.*"));
    let found = triples(&asked, r#"{"relation":{"cites":[{"id":"a"}]}}"#);
    assert_eq!(found, vec![t("relation.*", "relation.cites[0]", r#"{"id":"a"}"#)]);
}

#[test]
fn doi_prefix_derivation() {
    let record = JsonDoc::parse(r#"{"DOI":"10.1234/abc"}"#).unwrap();
    let doi = extract_doi(&record);
    assert_eq!(doi.as_deref(), Some("10.1234/abc"));
    assert_eq!(extract_doi_prefix(&record, doi.as_ref()).as_deref(), Some("10.1234"));
    let explicit = JsonDoc::parse(r#"{"DOI":"10.1234/abc","prefix":"10.9999"}"#).unwrap();
    let doi = extract_doi(&explicit);
    assert_eq!(extract_doi_prefix(&explicit, doi.as_ref()).as_deref(), Some("10.9999"));
}

#[test]
fn doi_without_slash_has_no_prefix() {
    let record = JsonDoc::parse(r#"{"DOI":"nodoi"}"#).unwrap();
    let doi = extract_doi(&record);
    assert_eq!(extract_doi_prefix(&record, doi.as_ref()), None);
    assert_eq!(extract_doi_prefix(&record, None), None);
}

#[test]
fn member_id_is_string_or_number() {
    let as_text = JsonDoc::parse(r#"{"member":"78"}"#).unwrap();
    assert_eq!(extract_member_id(&as_text).as_deref(), Some("78"));
    let as_number = JsonDoc::parse(r#"{"member":78}"#).unwrap();
    assert_eq!(extract_member_id(&as_number).as_deref(), Some("78"));
    let as_bool = JsonDoc::parse(r#"{"member":true}"#).unwrap();
    assert_eq!(extract_member_id(&as_bool), None);
    let missing = JsonDoc::parse(r#"{}"#).unwrap();
    assert_eq!(extract_member_id(&missing), None);
}

#[test]
fn openalex_ids() {
    let record = JsonDoc::parse(
        r#"{"id":"https://openalex.org/W1","doi":"https://doi.org/10.5/x","primary_location":{"source":{"id":"S9"}}}"#,
    )
    .unwrap();
    assert_eq!(openalex::extract_work_id(&record).as_deref(), Some("https://openalex.org/W1"));
    let doi = openalex::extract_doi(&record);
    assert_eq!(doi.as_deref(), Some("10.5/x"));
    assert_eq!(openalex::extract_source_id(&record).as_deref(), Some("S9"));
    assert_eq!(openalex::extract_doi_prefix(doi.as_ref()).as_deref(), Some("10.5"));
    let bare = JsonDoc::parse(r#"{"doi":"10.5/x","primary_location":{"source":null}}"#).unwrap();
    assert_eq!(openalex::extract_doi(&bare).as_deref(), Some("10.5/x"));
    assert_eq!(openalex::extract_source_id(&bare), None);
    assert_eq!(openalex::extract_work_id(&bare), None);
}

#[test]
fn openalex_nested_arrays() {
    let trie = openalex::openalex_extractor(&parse_field_specifications(
        "authorships.author.display_name,authorships.affiliations.institution_ids",
    ));
    let found = triples(
        &trie,
        r#"{"authorships":[{"author":{"display_name":"Ada"},"affiliations":[{"institution_ids":["I1","I2"]}]}]}"#,
    );
    assert_eq!(
        found,
        vec![
            t("authorships.author.display_name", "authorships[0].author.display_name", "Ada"),
            t(
                "authorships.affiliations.institution_ids",
                "authorships[0].affiliations[0].institution_ids[0]",
                "I1"
            ),
            t(
                "authorships.affiliations.institution_ids",
                "authorships[0].affiliations[0].institution_ids[1]",
                "I2"
            ),
        ]
    );
}

#[test]
fn field_specifications_are_trimmed_and_cleaned() {
    let specs = parse_field_specifications(" a.b.c , x..y ,, . ,title ");
    assert_eq!(
        specs,
        vec![
            vec!["a".to_string(), "b".to_string(), "c".to_string()],
            vec!["x".to_string(), "y".to_string()],
            vec!["title".to_string()],
        ]
    );
    assert!(parse_field_specifications("").is_empty());
    assert!(parse_field_specifications(" , ").is_empty());
}

#[test]
fn route_gets_array_markers_from_the_schema() {
    let mut schema = Schema::new();
    schema.declare("a", FieldType::Array);
    schema.declare("a.b", FieldType::Object);
    schema.declare("a.b.c", FieldType::Array);
    let route = build_route(&vec!["a".to_string(), "b".to_string(), "c".to_string()], &schema);
    assert_eq!(route, vec!["a", "[]", "b", "c", "[]"]);
    assert_eq!(schema.kind_of("a.b"), Some(FieldType::Object));
    assert_eq!(schema.kind_of("zzz"), None);
    assert!(!schema.is_array("zzz"));
    schema.declare("a", FieldType::Value);
    assert!(!schema.is_array("a"));
}

#[test]
fn repeated_and_empty_specifications_add_nothing() {
    let schema = Schema::new();
    let specs = vec![
        vec!["a".to_string()],
        vec![],
        vec!["a".to_string()],
        vec!["a".to_string(), "b".to_string()],
    ];
    let trie = PatternTrie::new(&specs, &schema);
    let found = triples(&trie, r#"{"a":{"b":1.5}}"#);
    assert_eq!(found, vec![t("a", "a", r#"{"b":1.5}"#), t("a.b", "a.b", "1.5")]);
}

#[test]
fn value_strings() {
    let schema = Schema::new();
    let trie = PatternTrie::new(&parse_field_specifications("s,n,f,b,z,o,l"), &schema);
    let found = triples(
        &trie,
        r#"{"s":"a \"q\" é","n":42,"f":1.0,"b":false,"z":null,"o":{"k":[1,"x"]},"l":[null,true]}"#,
    );
    assert_eq!(
        found,
        vec![
            t("s", "s", "a \"q\" \u{e9}"),
            t("n", "n", "42"),
            t("f", "f", "1.0"),
            t("b", "b", "false"),
            t("z", "z", ""),
            t("o", "o", r#"{"k":[1,"x"]}"#),
            t("l", "l", "[null,true]"),
        ]
    );
}

#[test]
fn primitive_value_strings_parse_back() {
    for text in ["42", "-7", "1.5", "1e30", "true", "false"] {
        let doc = JsonDoc::parse(text).unwrap();
        let again = JsonDoc::parse(&doc.render()).unwrap();
        assert_eq!(again.render(), doc.render());
    }
    let complex = JsonDoc::parse(r#"{"a":[1,{"b":"c"}]}"#).unwrap();
    assert!(JsonDoc::parse(&complex.render()).is_some());
}

#[test]
fn unserialisable_number_gives_the_error_marker() {
    let doc = JsonDoc::Array(vec![JsonDoc::Number("not a number".to_string())]);
    assert_eq!(doc.render(), "[serialization error]");
    let written = JsonDoc::Object(vec![Member {
        key: "k".to_string(),
        value: JsonDoc::Number("12".to_string()),
    }]);
    assert_eq!(written.render(), r#"{"k":12}"#);
    assert_eq!(written.render_with(None), "[serialization error]");
    assert_eq!(written.render_with(Some("x".to_string())), "x");
    assert_eq!(JsonDoc::Text("t".to_string()).render_with(Some("x".to_string())), "t");
}

#[test]
fn one_triple_per_reached_place() {
    let trie = crossref_extractor(&parse_field_specifications("author.affiliation.name,title"));
    let found = triples(
        &trie,
        r#"{"title":["A","B"],"author":[{"affiliation":[{"name":"X"},{"name":"Y"}]},{"affiliation":[]},{"affiliation":[{"name":"Z"}]}]}"#,
    );
    let names = found.iter().filter(|f| f.0 == "author.affiliation.name").count();
    let titles = found.iter().filter(|f| f.0 == "title").count();
    assert_eq!(names, 3);
    assert_eq!(titles, 2);
    let mut paths: Vec<&String> = found.iter().map(|f| &f.1).collect();
    paths.sort();
    paths.dedup();
    assert_eq!(paths.len(), found.len());
}

#[test]
fn a_key_that_is_the_wildcard_is_reported_twice() {
    let schema = Schema::new();
    let trie = PatternTrie::new(&parse_field_specifications("r.*"), &schema);
    let found = triples(&trie, r#"{"r":{"*":1}}"#);
    assert_eq!(found, vec![t("r.*", "r.*", "1"), t("r.*", "r.*", "1")]);
}
