use parsing_utils::merge::{merge_chunks, MergeHeap};
use parsing_utils::order::at_most;
use parsing_utils::row::InputRecord;
use parsing_utils::sort::{
    group_count, merge_groups, merge_pass, pass_count, sort_records, sorted_chunks, MERGE_WIDTH,
};

fn rec(key: &str, value: &str) -> InputRecord {
    InputRecord {
        work_id: key.to_string(),
        doi: None,
        field_name: "f".to_string(),
        subfield_path: "p".to_string(),
        value: value.to_string(),
        source: None,
        doi_prefix: None,
        source_file_path: None,
    }
}

fn keys(records: &[InputRecord]) -> Vec<String> {
    records.iter().map(|r| r.work_id.clone()).collect()
}

fn is_sorted(records: &[InputRecord]) -> bool {
    records.windows(2).all(|w| w[0].work_id <= w[1].work_id)
}

#[test]
fn keys_compare_by_code_point() {
    assert!(at_most("", "a"));
    assert!(at_most("a", "a"));
    assert!(at_most("a", "ab"));
    assert!(!at_most("ab", "a"));
    assert!(at_most("W10", "W9"));
    assert!(at_most("Z", "a"));
    assert!(at_most("z", "\u{e9}"));
    assert!(!at_most("\u{1F600}", "\u{e9}"));
}

#[test]
fn heap_pops_the_least_key() {
    let mut heap = MergeHeap::new();
    assert!(heap.pop().is_none());
    heap.push(rec("m", "1"), 0);
    heap.push(rec("c", "2"), 1);
    heap.push(rec("x", "3"), 2);
    assert_eq!(heap.len(), 3);
    let first = heap.pop().unwrap();
    assert_eq!(first.record.work_id, "c");
    assert_eq!(first.reader_index, 1);
    heap.push(rec("a", "4"), 1);
    assert_eq!(heap.pop().unwrap().record.work_id, "a");
    assert_eq!(heap.pop().unwrap().record.work_id, "m");
    assert_eq!(heap.pop().unwrap().record.work_id, "x");
    assert!(heap.pop().is_none());
}

#[test]
fn chunks_are_cut_in_order_and_sorted() {
    let records: Vec<InputRecord> =
        ["d", "a", "c", "b", "z", "y", "e"].iter().map(|k| rec(k, k)).collect();
    let chunks = sorted_chunks(records, 3);
    let got: Vec<Vec<String>> = chunks.iter().map(|c| keys(c)).collect();
    assert_eq!(got, vec![vec!["a", "c", "d"], vec!["b", "y", "z"], vec!["e"]]);
    assert!(sorted_chunks(Vec::new(), 3).is_empty());
    let singles = sorted_chunks(vec![rec("b", "1"), rec("a", "2")], 0);
    assert_eq!(singles.len(), 2);
}

#[test]
fn merge_keeps_every_record() {
    let chunks = vec![
        vec![rec("a", "1"), rec("c", "2"), rec("c", "3")],
        vec![],
        vec![rec("b", "4"), rec("c", "5"), rec("d", "6")],
    ];
    let out = merge_chunks(chunks);
    assert_eq!(keys(&out), vec!["a", "b", "c", "c", "c", "d"]);
    let mut values: Vec<String> = out.iter().map(|r| r.value.clone()).collect();
    values.sort();
    assert_eq!(values, vec!["1", "2", "3", "4", "5", "6"]);
    assert!(merge_chunks(Vec::new()).is_empty());
}

#[test]
fn merge_of_unsorted_chunks_still_keeps_every_record() {
    let out = merge_chunks(vec![vec![rec("z", "1"), rec("a", "2")], vec![rec("m", "3")]]);
    assert_eq!(out.len(), 3);
    let mut got = keys(&out);
    got.sort();
    assert_eq!(got, vec!["a", "m", "z"]);
}

#[test]
fn merge_plan() {
    assert_eq!(MERGE_WIDTH, 100);
    assert_eq!(group_count(0), 0);
    assert_eq!(group_count(100), 1);
    assert_eq!(group_count(101), 2);
    assert_eq!(group_count(250), 3);
    assert_eq!(pass_count(0), 0);
    assert_eq!(pass_count(25), 0);
    assert_eq!(pass_count(100), 0);
    assert_eq!(pass_count(101), 1);
    assert_eq!(pass_count(250), 1);
    assert_eq!(pass_count(10_000), 1);
    assert_eq!(pass_count(10_001), 2);
    let groups: Vec<(usize, usize)> =
        merge_groups(250).iter().map(|g| (g.start, g.end)).collect();
    assert_eq!(groups, vec![(0, 100), (100, 200), (200, 250)]);
    assert!(merge_groups(0).is_empty());
    let one: Vec<(usize, usize)> = merge_groups(100).iter().map(|g| (g.start, g.end)).collect();
    assert_eq!(one, vec![(0, 100)]);
}

fn skewed(n: usize) -> Vec<InputRecord> {
    let mut state: u64 = 0x9E3779B97F4A7C15;
    (0..n)
        .map(|i| {
            state ^= state << 13;
            state ^= state >> 7;
            state ^= state << 17;
            let bucket = (state % 1000) as usize;
            let key = if bucket < 600 { bucket % 7 } else { bucket };
            rec(&format!("W{}", key), &format!("{}", i))
        })
        .collect()
}

#[test]
fn external_sort_round_trip() {
    let n = 25_000;
    let input = skewed(n);
    let chunks = sorted_chunks(input.clone(), 100);
    assert_eq!(chunks.len(), 250);
    assert_eq!(pass_count(chunks.len()) + 1, 2);
    let after_first = merge_pass(chunks);
    assert_eq!(after_first.len(), 3);
    assert!(after_first.iter().all(|c| is_sorted(c)));
    let out = sort_records(input.clone(), 100);
    assert_eq!(out.len(), n);
    assert!(is_sorted(&out));
    let mut expected: Vec<(String, String)> =
        input.iter().map(|r| (r.work_id.clone(), r.value.clone())).collect();
    let mut got: Vec<(String, String)> =
        out.iter().map(|r| (r.work_id.clone(), r.value.clone())).collect();
    expected.sort();
    got.sort();
    assert_eq!(got, expected);
}

#[test]
fn sort_of_nothing_and_of_one() {
    assert!(sort_records(Vec::new(), 10).is_empty());
    let one = sort_records(vec![rec("k", "v")], 10);
    assert_eq!(keys(&one), vec!["k"]);
}

#[test]
fn order_is_that_of_the_texts() {
    let texts = [
        "", "a", "A", "ab", "abc", "b", "W1", "W10", "W9", "https://openalex.org/W2",
        "\u{e9}", "e\u{301}", "z", "\u{7f}", "\u{80}", "\u{7ff}", "\u{800}", "\u{ffff}",
        "\u{10000}", "\u{1F600}", "a\u{1F600}", "a\u{e9}", "\u{e9}a",
    ];
    for a in texts {
        for b in texts {
            assert_eq!(at_most(a, b), a <= b, "{:?} and {:?}", a, b);
        }
    }
}
