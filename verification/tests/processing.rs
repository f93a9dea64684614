use parsing_utils::batch::Batcher;
use parsing_utils::counts::{hash_of, Tally, TextSet};
use parsing_utils::crossref::crossref_extractor;
use parsing_utils::fields::{count_dropped, parse_field_specifications, Dropped};
use parsing_utils::json::JsonDoc;
use parsing_utils::openalex::openalex_extractor;
use parsing_utils::processor::{Dataset, FieldData, FileRun, JsonlProcessor, RecordOutcome};
use parsing_utils::stats::FileStats;

fn crossref(fields: &str, member: Option<&str>, prefix: Option<&str>) -> JsonlProcessor {
    JsonlProcessor {
        dataset: Dataset::Crossref,
        extractor: crossref_extractor(&parse_field_specifications(fields)),
        filter_group: member.map(|s| s.to_string()),
        filter_doi_prefix: prefix.map(|s| s.to_string()),
    }
}

fn openalex(fields: &str, source: Option<&str>) -> JsonlProcessor {
    JsonlProcessor {
        dataset: Dataset::OpenAlex,
        extractor: openalex_extractor(&parse_field_specifications(fields)),
        filter_group: source.map(|s| s.to_string()),
        filter_doi_prefix: None,
    }
}

fn tally(t: &Tally) -> Vec<(String, usize)> {
    (0..t.len()).map(|i| (t.entry(i).key.clone(), t.entry(i).count)).collect()
}

fn set(s: &TextSet) -> Vec<String> {
    (0..s.len()).map(|i| s.key(i).clone()).collect()
}

#[test]
fn default_row_is_empty() {
    let row = FieldData::default();
    assert_eq!(row.record_id, "");
    assert_eq!(row.doi, None);
    assert_eq!(row.field_name, "");
    assert_eq!(row.subfield_path, "");
    assert_eq!(row.value, "");
    assert_eq!(row.group_key, None);
    assert_eq!(row.doi_prefix, "");
    assert_eq!(row.source_file_path, "");
}

#[test]
fn crossref_record_is_taken_and_counted() {
    let p = crossref("author.family,title", None, None);
    let record = JsonDoc::parse(
        r#"{"DOI":"10.1/a","member":"78","title":["T"],"author":[{"family":"Doe"},{"family":"Roe"}]}"#,
    )
    .unwrap();
    let mut stats = FileStats::new();
    match p.process_record(&record, "f.jsonl.gz", &mut stats) {
        RecordOutcome::Taken(rows) => {
            assert_eq!(rows.len(), 3);
            assert_eq!(rows[0].record_id, "10.1/a");
            assert_eq!(rows[0].doi.as_deref(), Some("10.1/a"));
            assert_eq!(rows[0].field_name, "title");
            assert_eq!(rows[0].subfield_path, "title[0]");
            assert_eq!(rows[0].value, "T");
            assert_eq!(rows[0].group_key.as_deref(), Some("78"));
            assert_eq!(rows[0].doi_prefix, "10.1");
            assert_eq!(rows[0].source_file_path, "f.jsonl.gz");
            assert_eq!(rows[2].subfield_path, "author[1].family");
        }
        other => panic!("unexpected outcome {:?}", other),
    }
    assert_eq!(set(&stats.unique_ids), vec!["10.1/a"]);
    assert!(set(&stats.unique_dois).is_empty());
    assert_eq!(
        tally(&stats.field_counts),
        vec![("title".to_string(), 1), ("author.family".to_string(), 2)]
    );
    assert_eq!(tally(&stats.group_counts), vec![("78".to_string(), 3)]);
    assert_eq!(tally(&stats.prefix_counts), vec![("10.1".to_string(), 3)]);
    assert_eq!(stats.total_fields_extracted, 3);
}

#[test]
fn record_without_values_changes_no_statistics() {
    let p = crossref("title", None, None);
    let record = JsonDoc::parse(r#"{"DOI":"10.1/a","member":"78"}"#).unwrap();
    let mut stats = FileStats::new();
    match p.process_record(&record, "f", &mut stats) {
        RecordOutcome::Taken(rows) => assert!(rows.is_empty()),
        other => panic!("unexpected outcome {:?}", other),
    }
    assert_eq!(stats.unique_ids.len(), 0);
    assert_eq!(stats.group_counts.len(), 0);
    assert_eq!(stats.prefix_counts.len(), 0);
    assert_eq!(stats.total_fields_extracted, 0);
}

#[test]
fn filters_come_before_missing_ids() {
    let p = crossref("title", Some("78"), None);
    let mut stats = FileStats::new();
    let no_member = JsonDoc::parse(r#"{"DOI":"10.1/a","title":["T"]}"#).unwrap();
    assert!(matches!(p.process_record(&no_member, "f", &mut stats), RecordOutcome::FilteredOut));
    let other = JsonDoc::parse(r#"{"DOI":"10.1/a","member":"79","title":["T"]}"#).unwrap();
    assert!(matches!(p.process_record(&other, "f", &mut stats), RecordOutcome::FilteredOut));
    let q = crossref("title", None, Some("10.1"));
    let no_prefix = JsonDoc::parse(r#"{"member":"78","title":["T"]}"#).unwrap();
    assert!(matches!(q.process_record(&no_prefix, "f", &mut stats), RecordOutcome::FilteredOut));
    let wrong = JsonDoc::parse(r#"{"DOI":"10.2/a","member":"78","title":["T"]}"#).unwrap();
    assert!(matches!(q.process_record(&wrong, "f", &mut stats), RecordOutcome::FilteredOut));
    let right = JsonDoc::parse(r#"{"DOI":"10.1/a","member":"78","title":["T"]}"#).unwrap();
    assert!(matches!(q.process_record(&right, "f", &mut stats), RecordOutcome::Taken(_)));
    assert_eq!(stats.total_fields_extracted, 1);
}

#[test]
fn missing_ids_reject_the_record() {
    let p = crossref("title", None, None);
    let mut stats = FileStats::new();
    let no_doi = JsonDoc::parse(r#"{"member":"78","title":["T"]}"#).unwrap();
    assert!(matches!(p.process_record(&no_doi, "f", &mut stats), RecordOutcome::MissingPrimaryId));
    let neither = JsonDoc::parse(r#"{"title":["T"]}"#).unwrap();
    assert!(matches!(p.process_record(&neither, "f", &mut stats), RecordOutcome::MissingPrimaryId));
    let no_member = JsonDoc::parse(r#"{"DOI":"10.1/a","title":["T"]}"#).unwrap();
    assert!(matches!(
        p.process_record(&no_member, "f", &mut stats),
        RecordOutcome::MissingGroupingKey
    ));
    assert_eq!(stats.total_fields_extracted, 0);
}

#[test]
fn openalex_keeps_a_record_without_source() {
    let p = openalex("title", None);
    let mut stats = FileStats::new();
    let record = JsonDoc::parse(r#"{"id":"W1","title":"T"}"#).unwrap();
    match p.process_record(&record, "part_000.gz", &mut stats) {
        RecordOutcome::Taken(rows) => {
            assert_eq!(rows.len(), 1);
            assert_eq!(rows[0].record_id, "W1");
            assert_eq!(rows[0].doi, None);
            assert_eq!(rows[0].group_key, None);
            assert_eq!(rows[0].doi_prefix, "");
            assert_eq!(rows[0].source_file_path, "part_000.gz");
        }
        other => panic!("unexpected outcome {:?}", other),
    }
    assert_eq!(set(&stats.unique_ids), vec!["W1"]);
    assert_eq!(stats.group_counts.len(), 0);
    assert_eq!(tally(&stats.prefix_counts), vec![("".to_string(), 1)]);
    let with_doi =
        JsonDoc::parse(r#"{"id":"W2","doi":"https://doi.org/10.7/z","title":"T"}"#).unwrap();
    assert!(matches!(p.process_record(&with_doi, "f", &mut stats), RecordOutcome::Taken(_)));
    assert_eq!(set(&stats.unique_dois), vec!["10.7/z"]);
    let no_id = JsonDoc::parse(r#"{"title":"T"}"#).unwrap();
    assert!(matches!(p.process_record(&no_id, "f", &mut stats), RecordOutcome::MissingPrimaryId));
}

#[test]
fn lines_are_batched_in_order() {
    let p = crossref("author.family", None, None);
    let mut run = FileRun::new("f.jsonl.gz", 2);
    let line = r#"{"DOI":"10.1/a","member":"1","author":[{"family":"A"},{"family":"B"},{"family":"C"}]}"#;
    let full = run.feed(&p, line);
    assert_eq!(full.len(), 1);
    assert_eq!(full[0].len(), 2);
    assert_eq!(full[0][0].value, "A");
    assert_eq!(full[0][1].value, "B");
    assert!(run.feed(&p, "   ").is_empty());
    assert!(run.feed(&p, "{not json").is_empty());
    assert!(run.feed(&p, r#"{"member":"1"}"#).is_empty());
    assert!(run.feed(&p, r#"{"DOI":"10.1/b"}"#).is_empty());
    let full = run.feed(&p, r#"{"DOI":"10.1/c","member":"1","author":[{"family":"D"},{"family":"E"}]}"#);
    assert_eq!(full.len(), 1);
    assert_eq!(full[0][0].value, "C");
    assert_eq!(full[0][1].value, "D");
    let done = run.finish();
    let last = done.last_batch.expect("one row is left");
    assert_eq!(last.len(), 1);
    assert_eq!(last[0].value, "E");
    assert_eq!(done.counts.lines_processed, 6);
    assert_eq!(done.counts.records_processed, 4);
    assert_eq!(done.counts.json_parsing_errors, 1);
    assert_eq!(done.counts.records_missing_id, 1);
    assert_eq!(done.counts.records_missing_group, 1);
    assert_eq!(done.counts.records_filtered_out, 0);
    assert_eq!(done.stats.total_fields_extracted, 5);
    assert_eq!(set(&done.stats.unique_ids), vec!["10.1/a", "10.1/c"]);
}

#[test]
fn finished_file_without_rows_has_no_last_batch() {
    let p = crossref("title", None, None);
    let mut run = FileRun::new("f", 10);
    assert!(run.feed(&p, "").is_empty());
    let done = run.finish();
    assert!(done.last_batch.is_none());
    assert_eq!(done.counts.lines_processed, 1);
}

#[test]
fn batch_size_zero_releases_every_row() {
    let mut b: Batcher<u32> = Batcher::new(0);
    assert_eq!(b.push(1), Some(vec![1]));
    assert_eq!(b.extend(vec![2, 3]), vec![vec![2], vec![3]]);
    assert_eq!(b.finish(), None);
    let mut c: Batcher<u32> = Batcher::new(3);
    assert_eq!(c.push(1), None);
    assert_eq!(c.extend(vec![2, 3, 4, 5, 6, 7]), vec![vec![1, 2, 3], vec![4, 5, 6]]);
    assert_eq!(c.finish(), Some(vec![7]));
}

#[test]
fn tally_counts_and_caps() {
    let mut t = Tally::new();
    t.add("a", 2);
    t.add("b", 1);
    t.add("a", 5);
    assert_eq!(t.count("a"), 7);
    assert_eq!(t.count("b"), 1);
    assert_eq!(t.count("c"), 0);
    assert_eq!(t.len(), 2);
    assert_eq!(t.total(), 8);
    t.add("a", usize::MAX);
    assert_eq!(t.count("a"), usize::MAX);
    assert_eq!(t.total(), usize::MAX);
    let mut s = TextSet::new();
    assert!(s.insert("x"));
    assert!(!s.insert("x"));
    assert!(s.insert("y"));
    assert!(s.contains("y"));
    assert!(!s.contains("z"));
    assert_eq!(s.len(), 2);
}

#[test]
fn whole_file_is_processed_in_order() {
    let p = openalex("authorships.author.display_name", Some("S1"));
    let lines: Vec<String> = vec![
        r#"{"id":"W1","primary_location":{"source":{"id":"S1"}},"authorships":[{"author":{"display_name":"A"}},{"author":{"display_name":"B"}}]}"#.to_string(),
        "".to_string(),
        r#"{"id":"W2","primary_location":{"source":{"id":"S2"}},"authorships":[{"author":{"display_name":"C"}}]}"#.to_string(),
        r#"{"id":"W3","authorships":[{"author":{"display_name":"D"}}]}"#.to_string(),
        "not json".to_string(),
        r#"{"id":"W4","primary_location":{"source":{"id":"S1"}},"authorships":[{"author":{"display_name":"E"}}]}"#.to_string(),
    ];
    let done = p.process(&lines, "works.gz", 2);
    let values: Vec<Vec<String>> =
        done.batches.iter().map(|b| b.iter().map(|r| r.value.clone()).collect()).collect();
    assert_eq!(values, vec![vec!["A", "B"], vec!["E"]]);
    assert_eq!(done.counts.lines_processed, 6);
    assert_eq!(done.counts.records_processed, 4);
    assert_eq!(done.counts.records_filtered_out, 2);
    assert_eq!(done.counts.json_parsing_errors, 1);
    assert_eq!(done.stats.total_fields_extracted, 3);
    assert_eq!(tally(&done.stats.group_counts), vec![("S1".to_string(), 3)]);
    let nothing = p.process(&Vec::new(), "empty.gz", 2);
    assert!(nothing.batches.is_empty());
    assert_eq!(nothing.counts.lines_processed, 0);
}

#[test]
fn released_batches_are_full() {
    let mut b: Batcher<u32> = Batcher::new(4);
    let mut released: Vec<Vec<u32>> = Vec::new();
    released.extend(b.extend((0..6).collect()));
    released.extend(b.extend((6..7).collect()));
    released.extend(b.extend((7..18).collect()));
    assert_eq!(released.len(), 4);
    assert!(released.iter().all(|batch| batch.len() == 4));
    let all: Vec<u32> = released.into_iter().flatten().chain(b.finish().unwrap()).collect();
    assert_eq!(all, (0..18).collect::<Vec<u32>>());
}

#[test]
fn tally_and_set_hold_each_key_once() {
    let mut t = Tally::new();
    let mut s = TextSet::new();
    for key in ["b", "a", "b", "c", "a", "b"] {
        t.add(key, 2);
        s.insert(key);
    }
    assert_eq!(tally(&t), vec![("b".to_string(), 6), ("a".to_string(), 4), ("c".to_string(), 2)]);
    assert_eq!(set(&s), vec!["b", "a", "c"]);
    assert_eq!(t.total(), 12);
}

#[test]
fn texts_are_filed_under_their_hash() {
    assert_eq!(hash_of(""), 0xcbf2_9ce4_8422_2325);
    assert_eq!(hash_of("a"), 0xaf63_dc4c_8601_ec8c);
    assert_eq!(hash_of("foobar"), 0x8594_4171_f739_67e8);
    assert_ne!(hash_of("\u{e9}"), hash_of("e"));
}

#[test]
fn set_of_many_texts() {
    let mut s = TextSet::new();
    for round in 0..3 {
        for i in 0..2000u32 {
            let key = format!("10.{}/{}", i % 7, i);
            assert_eq!(s.insert(&key), round == 0);
        }
    }
    assert_eq!(s.len(), 2000);
    assert_eq!(s.key(0), "10.0/0");
    assert_eq!(s.key(1999), "10.4/1999");
    assert!(s.contains("10.3/3"));
    assert!(!s.contains("10.3/4"));
    assert!(!s.contains(""));
}

#[test]
fn dropped_entries_and_segments_are_counted() {
    assert_eq!(count_dropped("a.b.c,x.y"), Dropped { specifications: 0, segments: 0 });
    assert_eq!(count_dropped(""), Dropped { specifications: 1, segments: 0 });
    assert_eq!(count_dropped("a,,b"), Dropped { specifications: 1, segments: 0 });
    assert_eq!(count_dropped(" , . ,a"), Dropped { specifications: 2, segments: 0 });
    assert_eq!(count_dropped("a..b, .c. ,d"), Dropped { specifications: 0, segments: 3 });
    let list = "a..b,, x . y ,.";
    let kept = parse_field_specifications(list);
    let dropped = count_dropped(list);
    assert_eq!(kept, vec![vec!["a".to_string(), "b".to_string()], vec!["x".to_string(), "y".to_string()]]);
    assert_eq!(dropped, Dropped { specifications: 2, segments: 1 });
    assert_eq!(kept.len() + dropped.specifications, list.split(',').count());
}

#[test]
fn unreadable_line_is_counted_as_a_line() {
    let p = crossref("author.family", None, None);
    let mut run = FileRun::new("f.jsonl.gz", 2);
    assert!(run.feed(&p, r#"{"DOI":"10.1/a","member":"1","author":[{"family":"A"}]}"#).is_empty());
    run.skip_unreadable();
    run.skip_unreadable();
    let done = run.finish();
    assert_eq!(done.counts.lines_processed, 3);
    assert_eq!(done.counts.records_processed, 1);
    assert_eq!(done.counts.json_parsing_errors, 0);
    assert_eq!(done.stats.total_fields_extracted, 1);
    assert_eq!(done.last_batch.map(|b| b.len()), Some(1));
}
