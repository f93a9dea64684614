use parsing_utils::aggregate::IncrementalStats;
use parsing_utils::cache::{Admission, OrganizedOutput};
use parsing_utils::output::{columns, encode_batch, encode_header, header, shards_of};
use parsing_utils::processor::{Dataset, FieldData};
use parsing_utils::stats::FileStats;
use parsing_utils::trie::Extraction;

fn row(id: &str, group: Option<&str>, value: &str) -> FieldData {
    FieldData {
        record_id: id.to_string(),
        doi: Some(format!("10.1/{}", id)),
        field_name: "title".to_string(),
        subfield_path: "title[0]".to_string(),
        value: value.to_string(),
        group_key: group.map(|g| g.to_string()),
        doi_prefix: "10.1".to_string(),
        source_file_path: "part.gz".to_string(),
    }
}

#[test]
fn headers() {
    assert_eq!(
        header(Dataset::Crossref),
        vec!["doi", "field_name", "subfield_path", "value", "member_id", "doi_prefix"]
    );
    assert_eq!(
        header(Dataset::OpenAlex),
        vec![
            "work_id",
            "doi",
            "field_name",
            "subfield_path",
            "value",
            "source_id",
            "doi_prefix",
            "source_file_path"
        ]
    );
    assert_eq!(
        encode_header(Dataset::Crossref).unwrap(),
        b"doi,field_name,subfield_path,value,member_id,doi_prefix\n".to_vec()
    );
}

#[test]
fn columns_follow_the_header() {
    let r = row("W1", None, "v");
    assert_eq!(columns(Dataset::Crossref, &r), vec!["W1", "title", "title[0]", "v", "", "10.1"]);
    assert_eq!(
        columns(Dataset::OpenAlex, &r),
        vec!["W1", "10.1/W1", "title", "title[0]", "v", "", "10.1", "part.gz"]
    );
}

#[test]
fn batch_is_written_with_quoting() {
    let batch = vec![row("a", Some("7"), "plain"), row("b", Some("7"), "with, comma \"q\"\nline")];
    let bytes = encode_batch(Dataset::Crossref, &batch).unwrap();
    assert_eq!(
        String::from_utf8(bytes).unwrap(),
        "a,title,title[0],plain,7,10.1\nb,title,title[0],\"with, comma \"\"q\"\"\nline\",7,10.1\n"
    );
    assert_eq!(encode_batch(Dataset::OpenAlex, &Vec::new()), Some(Vec::new()));
}

#[test]
fn rows_are_sharded_by_key_in_order() {
    let batch = vec![
        row("1", Some("B"), "x"),
        row("2", Some("A"), "x"),
        row("3", None, "x"),
        row("4", Some("B"), "x"),
        row("5", None, "x"),
    ];
    let shards = shards_of(batch);
    let got: Vec<(String, Vec<String>)> = shards
        .iter()
        .map(|s| (s.key.clone(), s.rows.iter().map(|r| r.record_id.clone()).collect()))
        .collect();
    assert_eq!(
        got,
        vec![
            ("B".to_string(), vec!["1".to_string(), "4".to_string()]),
            ("A".to_string(), vec!["2".to_string()]),
            ("unknown".to_string(), vec!["3".to_string(), "5".to_string()]),
        ]
    );
    let total: usize = shards.iter().map(|s| s.rows.len()).sum();
    assert_eq!(total, 5);
}

fn open_keys(cache: &OrganizedOutput<u32>) -> Vec<String> {
    (0..cache.open_count()).map(|i| cache.open_key(i).clone()).collect()
}

fn open_file(cache: &mut OrganizedOutput<u32>, key: &str, next: &mut u32, headers: &mut Vec<String>) -> Vec<String> {
    let mut closed = Vec::new();
    if !cache.promote(key) {
        closed = cache.make_room().into_iter().map(|f| f.key).collect();
        let header = cache.needs_header(key);
        if header {
            headers.push(key.to_string());
        }
        *next += 1;
        assert!(cache.insert(key, *next, header).is_none());
    }
    closed
}

#[test]
fn sharded_writer_eviction() {
    let mut cache: OrganizedOutput<u32> = OrganizedOutput::new(2);
    let mut next = 0;
    let mut headers = Vec::new();
    let mut trajectory = Vec::new();
    let mut closed = Vec::new();
    for key in ["A", "B", "A", "C", "B"] {
        closed.push(open_file(&mut cache, key, &mut next, &mut headers));
        let mut open = open_keys(&cache);
        assert_eq!(open[0], key);
        open.sort();
        trajectory.push(open);
    }
    assert_eq!(
        trajectory,
        vec![vec!["A"], vec!["A", "B"], vec!["A", "B"], vec!["A", "C"], vec!["B", "C"]]
    );
    assert_eq!(
        closed,
        vec![vec![], vec![], vec![], vec!["B".to_string()], vec!["A".to_string()]]
    );
    assert_eq!(headers, vec!["A", "B", "C"]);
    open_file(&mut cache, "A", &mut next, &mut headers);
    assert_eq!(headers, vec!["A", "B", "C"]);
    assert_eq!(cache.report_files_created(), 3);
    assert_eq!(cache.handle("A"), Some(&5));
    assert_eq!(cache.handle("C"), None);
    let rest: Vec<String> = cache.close_all().into_iter().map(|f| f.key).collect();
    assert_eq!(rest, vec!["A", "B"]);
    assert_eq!(cache.open_count(), 0);
    assert_eq!(cache.report_files_created(), 3);
}

#[test]
fn cache_keeps_at_least_one_file_open() {
    let mut cache: OrganizedOutput<u32> = OrganizedOutput::new(0);
    assert!(cache.insert("A", 1, true).is_none());
    assert_eq!(cache.insert("B", 2, true), Some(2));
    assert_eq!(cache.insert("A", 3, false), Some(3));
    assert_eq!(cache.open_count(), 1);
    let closed = cache.make_room();
    assert_eq!(closed.len(), 1);
    assert_eq!(closed[0].key, "A");
    assert_eq!(closed[0].handle, 1);
    assert!(cache.insert("B", 2, false).is_none());
    assert!(cache.needs_header("B"));
    assert!(!cache.needs_header("A"));
    assert!(cache.is_open("B"));
    assert!(!cache.is_open("A"));
}

#[test]
fn writer_is_found_or_room_is_made() {
    let mut cache: OrganizedOutput<u32> = OrganizedOutput::new(2);
    match cache.get_writer("A") {
        Admission::Open { closed, write_header } => {
            assert!(closed.is_empty());
            assert!(write_header);
        }
        Admission::Ready => panic!("nothing is open yet"),
    }
    assert!(cache.insert("A", 1, true).is_none());
    assert!(cache.insert("B", 2, true).is_none());
    assert!(matches!(cache.get_writer("A"), Admission::Ready));
    assert_eq!(cache.open_key(0), "A");
    match cache.get_writer("C") {
        Admission::Open { closed, write_header } => {
            assert_eq!(closed.len(), 1);
            assert_eq!(closed[0].key, "B");
            assert!(write_header);
        }
        Admission::Ready => panic!("C is not open"),
    }
    assert!(cache.insert("C", 3, true).is_none());
    match cache.get_writer("B") {
        Admission::Open { closed, write_header } => {
            assert_eq!(closed[0].key, "A");
            assert!(!write_header);
        }
        Admission::Ready => panic!("B was closed"),
    }
}

fn found(names: &[&str]) -> Vec<Extraction> {
    names
        .iter()
        .map(|n| Extraction {
            pattern_name: n.to_string(),
            concrete_path: n.to_string(),
            value: "v".to_string(),
        })
        .collect()
}

fn sorted(counts: &[parsing_utils::counts::Count]) -> Vec<(String, usize)> {
    let mut v: Vec<(String, usize)> = counts.iter().map(|c| (c.key.clone(), c.count)).collect();
    v.sort();
    v
}

#[test]
fn run_statistics_add_up() {
    let mut first = FileStats::new();
    first.note(&"id1".to_string(), None, Some(&"m1".to_string()), &"10.1".to_string(), &found(&["a", "b", "a"]));
    first.note(&"id2".to_string(), None, Some(&"m2".to_string()), &"10.1".to_string(), &found(&["a"]));
    let mut second = FileStats::new();
    second.note(&"id2".to_string(), None, Some(&"m1".to_string()), &"10.2".to_string(), &found(&["b", "c"]));
    let mut run = IncrementalStats::new();
    run.aggregate_file_stats(&first);
    run.increment_error_files();
    run.aggregate_file_stats(&second);
    let stats = run.get_final_stats();
    assert_eq!(stats.total_field_records, 6);
    assert_eq!(stats.total_field_records, first.total_fields_extracted + second.total_fields_extracted);
    assert_eq!(stats.processed_files_ok, 2);
    assert_eq!(stats.processed_files_error, 1);
    assert_eq!(stats.unique_ids, 2);
    assert_eq!(
        sorted(&stats.unique_fields),
        vec![("a".to_string(), 3), ("b".to_string(), 2), ("c".to_string(), 1)]
    );
    assert_eq!(sorted(&stats.unique_groups), vec![("m1".to_string(), 5), ("m2".to_string(), 1)]);
    assert_eq!(sorted(&stats.unique_prefixes), vec![("10.1".to_string(), 4), ("10.2".to_string(), 2)]);
}

#[test]
fn run_without_files_has_no_statistics() {
    let stats = IncrementalStats::new().get_final_stats();
    assert_eq!(stats.total_field_records, 0);
    assert_eq!(stats.processed_files_ok, 0);
    assert_eq!(stats.processed_files_error, 0);
    assert_eq!(stats.unique_ids, 0);
    assert!(stats.unique_fields.is_empty());
}
