use parsing_utils::blocks::BlockSplitter;
use parsing_utils::group::AuthorGroup;
use parsing_utils::index::{parse_index, read_index, IndexPattern};
use parsing_utils::normalize::{normalize_ascii, normalize_text};
use parsing_utils::counts::Count;
use parsing_utils::pipeline::{
    absorb_results, block_queue_capacity, channel_capacity, default_output_name, file_pattern,
    format_elapsed,
    group_summary, level_of_name, parse_log_level, prepare_extractor, ranked, worker_count,
    GroupSummary, LogLevel, ProcessedFileResult, WriterTally,
};
use parsing_utils::processor::Dataset;
use parsing_utils::aggregate::IncrementalStats;
use parsing_utils::reshape::OutputRecord;
use parsing_utils::row::InputRecord;
use parsing_utils::stats::FileStats;
use parsing_utils::table::{
    encode_input, encode_output, input_header, output_fields, output_header, parse_row,
    sort_csv, Columns, TableOutput,
};
use parsing_utils::transform::{
    group_runs, process_work_group, reshape_groups, GroupBy, IndexPatterns,
};

fn rec(work: &str, field: &str, path: &str, value: &str) -> InputRecord {
    InputRecord {
        work_id: work.to_string(),
        doi: Some(format!("10.1/{}", work)),
        field_name: field.to_string(),
        subfield_path: path.to_string(),
        value: value.to_string(),
        source: None,
        doi_prefix: None,
        source_file_path: None,
    }
}

const NAME: &str = "authorships.author.display_name";
const RAW: &str = "authorships.affiliations.raw_affiliation_string";
const IDS: &str = "authorships.affiliations.institution_ids";
const INST_ID: &str = "authorships.institutions.id";
const INST_ROR: &str = "authorships.institutions.ror";

fn ada() -> Vec<InputRecord> {
    vec![
        rec("W1", NAME, "authorships[0].author.display_name", "Ada"),
        rec("W1", RAW, "authorships[0].affiliations[0].raw_affiliation_string", "MIT"),
        rec("W1", RAW, "authorships[0].affiliations[1].raw_affiliation_string", "CERN"),
        rec("W1", INST_ID, "authorships[0].institutions[0].id", "I1"),
        rec("W1", INST_ROR, "authorships[0].institutions[0].ror", "ror1"),
        rec("W1", IDS, "authorships[0].affiliations[0].institution_ids[0]", "I1"),
    ]
}

#[test]
fn group_by_reshape() {
    let patterns = IndexPatterns::openalex().expect("the patterns compile");
    let rows = process_work_group("W1", &Some("10.1/W1".to_string()), &ada(), &patterns).unwrap();
    assert_eq!(
        rows,
        vec![
            OutputRecord {
                work_id: "W1".to_string(),
                doi: Some("10.1/W1".to_string()),
                author_sequence: 0,
                author_name: "Ada".to_string(),
                normalized_author_name: "ada".to_string(),
                given_name: "".to_string(),
                normalized_given_name: "".to_string(),
                family_name: "".to_string(),
                normalized_family_name: "".to_string(),
                affiliation_sequence: Some(0),
                affiliation_name: "MIT".to_string(),
                normalized_affiliation_name: "mit".to_string(),
                affiliation_ror: "ror1".to_string(),
            },
            OutputRecord {
                work_id: "W1".to_string(),
                doi: Some("10.1/W1".to_string()),
                author_sequence: 0,
                author_name: "Ada".to_string(),
                normalized_author_name: "ada".to_string(),
                given_name: "".to_string(),
                normalized_given_name: "".to_string(),
                family_name: "".to_string(),
                normalized_family_name: "".to_string(),
                affiliation_sequence: Some(1),
                affiliation_name: "CERN".to_string(),
                normalized_affiliation_name: "cern".to_string(),
                affiliation_ror: "".to_string(),
            },
        ]
    );
}

#[test]
fn authors_come_by_sequence_and_bare_authors_get_one_row() {
    let patterns = IndexPatterns::openalex().unwrap();
    let rows = vec![
        rec("W", NAME, "authorships[10].author.display_name", "Zo\u{eb} Q."),
        rec("W", NAME, "authorships[2].author.display_name", "Bob"),
        rec("W", RAW, "authorships[2].affiliations[3].raw_affiliation_string", "Third"),
        rec("W", RAW, "authorships[2].affiliations[1].raw_affiliation_string", "First"),
        rec("W", "title", "title", "ignored"),
        rec("W", "authorships.raw_author_name", "authorships[7].raw_author_name", "x"),
    ];
    let out = process_work_group("W", &None, &rows, &patterns).unwrap();
    let got: Vec<(u32, String, Option<u32>, String)> = out
        .iter()
        .map(|r| {
            (r.author_sequence, r.author_name.clone(), r.affiliation_sequence, r.affiliation_name.clone())
        })
        .collect();
    assert_eq!(
        got,
        vec![
            (2, "Bob".to_string(), Some(1), "First".to_string()),
            (2, "Bob".to_string(), Some(3), "Third".to_string()),
            (7, "".to_string(), None, "".to_string()),
            (10, "Zo\u{eb} Q.".to_string(), None, "".to_string()),
        ]
    );
    assert_eq!(out[3].normalized_author_name, "zoe q");
    assert!(out.iter().all(|r| r.work_id == "W" && r.doi.is_none()));
}

#[test]
fn affiliation_known_by_ids_only_has_its_index_as_sequence() {
    let patterns = IndexPatterns::openalex().unwrap();
    let rows = vec![
        rec("W", IDS, "authorships[0].affiliations[5].institution_ids[0]", "I9"),
        rec("W", IDS, "authorships[0].affiliations[5].institution_ids[1]", "I2"),
        rec("W", INST_ID, "authorships[1].institutions[0].id", "I2"),
        rec("W", INST_ROR, "authorships[1].institutions[0].ror", "ror2"),
    ];
    let out = process_work_group("W", &None, &rows, &patterns).unwrap();
    assert_eq!(out.len(), 2);
    assert_eq!(out[0].author_sequence, 0);
    assert_eq!(out[0].affiliation_sequence, Some(5));
    assert_eq!(out[0].affiliation_name, "");
    assert_eq!(out[0].affiliation_ror, "ror2");
    assert_eq!(out[1].author_sequence, 1);
}

#[test]
fn affiliations_known_by_ids_only_come_by_index() {
    let patterns = IndexPatterns::openalex().unwrap();
    let rows = vec![
        rec("W1", NAME, "authorships[0].author.display_name", "Ada"),
        rec("W1", IDS, "authorships[0].affiliations[2].institution_ids[0]", "I1"),
        rec("W1", IDS, "authorships[0].affiliations[1].institution_ids[0]", "I2"),
    ];
    let out = process_work_group("W1", &None, &rows, &patterns).unwrap();
    let got: Vec<(u32, Option<u32>, String, String)> = out
        .iter()
        .map(|r| {
            (r.author_sequence, r.affiliation_sequence, r.affiliation_name.clone(), r.affiliation_ror.clone())
        })
        .collect();
    assert_eq!(
        got,
        vec![
            (0, Some(1), "".to_string(), "".to_string()),
            (0, Some(2), "".to_string(), "".to_string()),
        ]
    );
    assert_eq!(out[0].author_name, "Ada");
}

#[test]
fn index_that_is_no_number_ends_the_group() {
    let patterns = IndexPatterns::openalex().unwrap();
    let rows = vec![rec("W", NAME, "authorships[99999999999].author.display_name", "A")];
    let err = process_work_group("W", &None, &rows, &patterns).unwrap_err();
    assert_eq!(err.text, "99999999999");
    let arabic = vec![rec("W", NAME, "authorships[\u{0663}].author.display_name", "A")];
    let err = process_work_group("W", &None, &arabic, &patterns).unwrap_err();
    assert_eq!(err.text, "\u{0663}");
    let later = vec![
        rec("W", NAME, "authorships[1].author.display_name", "A"),
        rec("W", RAW, "authorships[1].affiliations[4294967296].raw_affiliation_string", "x"),
    ];
    assert_eq!(process_work_group("W", &None, &later, &patterns).unwrap_err().text, "4294967296");
    let unused = vec![rec("W", NAME, "authorships[1].affiliations[99999999999].x", "A")];
    assert!(process_work_group("W", &None, &unused, &patterns).is_ok());
}

#[test]
fn indices() {
    assert_eq!(parse_index("0"), Ok(0));
    assert_eq!(parse_index("007"), Ok(7));
    assert_eq!(parse_index("4294967295"), Ok(u32::MAX));
    assert_eq!(parse_index("4294967296").unwrap_err().text, "4294967296");
    assert!(parse_index("").is_err());
    assert!(parse_index("+1").is_err());
    assert!(parse_index("1a").is_err());
    assert_eq!(read_index(None), Ok(None));
    assert_eq!(read_index(Some("12".to_string())), Ok(Some(12)));
    assert!(read_index(Some("x".to_string())).is_err());
    let pattern = IndexPattern::new("authorships\\[(\\d+)\\]").unwrap();
    assert_eq!(pattern.find("authorships[12].author").as_deref(), Some("12"));
    assert_eq!(pattern.find("x.authorships[3].y.authorships[4]").as_deref(), Some("3"));
    assert_eq!(pattern.find("authorships[].author"), None);
    assert_eq!(pattern.find("authorships.author"), None);
    assert!(IndexPattern::new("(unclosed").is_none());
}

#[test]
fn apply_row_by_hand() {
    let mut group = AuthorGroup::new();
    group.apply_row(NAME, "Ada", Some("3".to_string()), None, None).unwrap();
    group.apply_row(NAME, "nobody", None, None, None).unwrap();
    group.apply_row(RAW, "Lab", Some("3".to_string()), Some("2".to_string()), None).unwrap();
    group.apply_row(RAW, "lost", Some("3".to_string()), None, None).unwrap();
    assert_eq!(group.authors.len(), 1);
    assert_eq!(group.authors[0].sequence, 3);
    assert_eq!(group.authors[0].display_name.as_deref(), Some("Ada"));
    assert_eq!(group.affiliations.len(), 1);
    assert_eq!(group.affiliations[0].sequence, 2);
    assert!(group.apply_row(NAME, "x", Some("no".to_string()), None, None).is_err());
    let rows = group.materialize("W", &None);
    assert_eq!(rows.len(), 1);
    assert_eq!(rows[0].affiliation_name, "Lab");
}

#[test]
fn normalization() {
    assert_eq!(normalize_text("  J\u{fc}rgen  M\u{fc}ller-L\u{fc}denscheidt, Jr. "), "jurgen  mullerludenscheidt jr");
    assert_eq!(normalize_text("\u{5317}\u{4eb0}"), "bei jing");
    assert_eq!(normalize_text("A_b-c!d"), "abcd");
    assert_eq!(normalize_text(""), "");
    assert_eq!(normalize_text(" \t\n"), "");
    assert_eq!(normalize_ascii("Dept. of X\tY 123"), "dept of x\ty 123");
}

#[test]
fn rows_are_grouped_by_key_in_order() {
    let rows = vec![
        rec("A", NAME, "p", "1"),
        rec("A", NAME, "p", "2"),
        rec("B", NAME, "p", "3"),
        rec("A", NAME, "p", "4"),
    ];
    let groups = group_runs(rows);
    let got: Vec<(String, Vec<String>)> = groups
        .iter()
        .map(|g| (g.work_id.clone(), g.records.iter().map(|r| r.value.clone()).collect()))
        .collect();
    assert_eq!(
        got,
        vec![
            ("A".to_string(), vec!["1".to_string(), "2".to_string()]),
            ("B".to_string(), vec!["3".to_string()]),
            ("A".to_string(), vec!["4".to_string()]),
        ]
    );
    assert!(group_runs(Vec::new()).is_empty());
    let mut state = GroupBy::new();
    assert!(state.push(rec("A", NAME, "p", "1")).is_none());
    let mut second = rec("A", NAME, "p", "2");
    second.doi = Some("last".to_string());
    assert!(state.push(second).is_none());
    let done = state.push(rec("B", NAME, "p", "3")).unwrap();
    assert_eq!(done.work_id, "A");
    assert_eq!(done.doi.as_deref(), Some("last"));
    assert_eq!(done.records.len(), 2);
    let last = state.finish().unwrap();
    assert_eq!(last.work_id, "B");
    assert!(GroupBy::new().finish().is_none());
}

#[test]
fn sorted_rows_give_one_group_per_key() {
    let mut rows = ada();
    rows.push(rec("W0", NAME, "authorships[0].author.display_name", "Bo"));
    rows.push(rec("W2", NAME, "authorships[1].author.display_name", "Cy"));
    let sorted = parsing_utils::sort::sort_records(rows, 2);
    let groups = group_runs(sorted);
    let mut keys: Vec<String> = groups.iter().map(|g| g.work_id.clone()).collect();
    assert_eq!(keys, vec!["W0", "W1", "W2"]);
    keys.dedup();
    assert_eq!(keys.len(), 3);
    let patterns = IndexPatterns::openalex().unwrap();
    let out = reshape_groups(&groups, &patterns).unwrap();
    let got: Vec<(String, String)> =
        out.iter().map(|r| (r.work_id.clone(), r.author_name.clone())).collect();
    assert_eq!(
        got,
        vec![
            ("W0".to_string(), "Bo".to_string()),
            ("W1".to_string(), "Ada".to_string()),
            ("W1".to_string(), "Ada".to_string()),
            ("W2".to_string(), "Cy".to_string()),
        ]
    );
}

#[test]
fn table_headers_and_fields() {
    assert_eq!(
        input_header(Dataset::OpenAlex),
        vec!["work_id", "doi", "field_name", "subfield_path", "value", "source_id", "doi_prefix", "source_file_path"]
    );
    assert_eq!(
        input_header(Dataset::Crossref),
        vec!["doi", "field_name", "subfield_path", "value", "member_id", "doi_prefix"]
    );
    assert_eq!(
        output_header(Dataset::Crossref),
        vec![
            "doi",
            "author_sequence",
            "full_name",
            "normalized_full_name",
            "given_name",
            "normalized_given_name",
            "family_name",
            "normalized_family_name",
            "affiliation_sequence",
            "affiliation",
            "normalized_affiliation"
        ]
    );
    assert_eq!(
        output_header(Dataset::OpenAlex),
        vec![
            "work_id",
            "doi",
            "author_sequence",
            "author_name",
            "normalized_author_name",
            "affiliation_sequence",
            "affiliation_name",
            "normalized_affiliation_name",
            "affiliation_ror"
        ]
    );
    let row = OutputRecord {
        work_id: "W".to_string(),
        doi: None,
        author_sequence: 12,
        author_name: "A, B".to_string(),
        normalized_author_name: "a b".to_string(),
        given_name: "A".to_string(),
        normalized_given_name: "a".to_string(),
        family_name: "B".to_string(),
        normalized_family_name: "b".to_string(),
        affiliation_sequence: Some(4294967295),
        affiliation_name: "".to_string(),
        normalized_affiliation_name: "".to_string(),
        affiliation_ror: "r".to_string(),
    };
    assert_eq!(
        output_fields(Dataset::OpenAlex, &row),
        vec!["W", "", "12", "A, B", "a b", "4294967295", "", "", "r"]
    );
    assert_eq!(
        output_fields(Dataset::Crossref, &row),
        vec!["W", "12", "A, B", "a b", "A", "a", "B", "b", "4294967295", "", ""]
    );
    let mut bare = row.clone();
    bare.affiliation_sequence = None;
    assert_eq!(output_fields(Dataset::OpenAlex, &bare)[5], "0");
    assert_eq!(output_fields(Dataset::Crossref, &bare)[8], "None");
    assert_eq!(
        String::from_utf8(encode_output(Dataset::OpenAlex, &vec![row]).unwrap()).unwrap(),
        "W,,12,\"A, B\",a b,4294967295,,,r\n"
    );
    assert_eq!(
        String::from_utf8(encode_input(Dataset::OpenAlex, &vec![rec("W", "f", "p", "v")]).unwrap())
            .unwrap(),
        "W,10.1/W,f,p,v,,,\n"
    );
    assert_eq!(
        String::from_utf8(encode_input(Dataset::Crossref, &vec![rec("10.1/x", "f", "p", "v")]).unwrap())
            .unwrap(),
        "10.1/x,f,p,v,,\n"
    );
}

#[test]
fn rows_are_read_by_the_header() {
    let names: Vec<String> =
        ["value", "work_id", "extra", "field_name", "subfield_path", "doi"].iter().map(|s| s.to_string()).collect();
    let columns = Columns::from_header(Dataset::OpenAlex, &names);
    assert_eq!(columns.work_id, Some(1));
    assert_eq!(columns.value, Some(0));
    assert_eq!(columns.source_id, None);
    let fields: Vec<String> = ["v", "W", "x", "f", "p", ""].iter().map(|s| s.to_string()).collect();
    let row = parse_row(&fields, &columns).unwrap();
    assert_eq!(row.work_id, "W");
    assert_eq!(row.value, "v");
    assert_eq!(row.doi, None);
    assert_eq!(row.source, None);
    let short: Vec<String> = ["v", "W", "x", "f"].iter().map(|s| s.to_string()).collect();
    assert!(parse_row(&short, &columns).is_none());
    let without_doi: Vec<String> = ["v", "W", "x", "f", "p"].iter().map(|s| s.to_string()).collect();
    assert!(parse_row(&without_doi, &columns).is_some());
    let crossref = Columns::from_header(Dataset::Crossref, &names);
    assert_eq!(crossref.work_id, Some(5));
    assert_eq!(crossref.doi, None);
    assert_eq!(crossref.source_id, None);
}

#[test]
fn sort_of_a_table_counts_rejected_rows() {
    let input = b"work_id,doi,field_name,subfield_path,value,source_id,doi_prefix,source_file_path\n\
W3,,f,p,1,,,\n\
W1,10.1/x,f,p,\"a,b\",S,10.1,file\n\
short,row\n\
W2,,f,p,3,,,\n\
W1,,f,p,4,,,\n"
        .to_vec();
    let sorted = sort_csv(Dataset::OpenAlex, &input, 2);
    let keys: Vec<String> = sorted.records.iter().map(|r| r.work_id.clone()).collect();
    assert_eq!(keys, vec!["W1", "W1", "W2", "W3"]);
    assert_eq!(sorted.rejected, 1);
    assert_eq!(sorted.records.len() + sorted.rejected + 1, 6);
    let first = sorted.records.iter().find(|r| r.value == "a,b").unwrap();
    assert_eq!(first.doi.as_deref(), Some("10.1/x"));
    assert_eq!(first.source.as_deref(), Some("S"));
    let empty = sort_csv(Dataset::OpenAlex, &Vec::new(), 2);
    assert!(empty.records.is_empty());
    assert_eq!(empty.rejected, 0);
    let headless = sort_csv(Dataset::OpenAlex, &b"a,b\n1,2\n".to_vec(), 2);
    assert!(headless.records.is_empty());
    assert_eq!(headless.rejected, 1);
}

#[test]
fn blocks_hold_whole_lines() {
    let mut splitter = BlockSplitter::new();
    assert!(splitter.feed(&b"head".to_vec()).is_none());
    let first = splitter.feed(&b"er\nrow1\nro".to_vec()).unwrap();
    assert_eq!(first.bytes, b"header\nrow1\n".to_vec());
    assert!(first.has_header);
    let second = splitter.feed(&b"w2\n".to_vec()).unwrap();
    assert_eq!(second.bytes, b"row2\n".to_vec());
    assert!(!second.has_header);
    assert!(splitter.feed(&b"tail".to_vec()).is_none());
    let last = splitter.finish().unwrap();
    assert_eq!(last.bytes, b"tail".to_vec());
    assert!(!last.has_header);
    assert!(BlockSplitter::new().finish().is_none());
    assert_eq!(BlockSplitter::new().next_read(), 256 * 1024 * 1024);
    let mut only = BlockSplitter::new();
    assert!(only.feed(&b"no newline".to_vec()).is_none());
    assert_eq!(only.next_read(), 256 * 1024 * 1024 - 10);
    assert!(only.finish().unwrap().has_header);
}

#[test]
fn run_decisions() {
    assert_eq!(channel_capacity(0), 8);
    assert_eq!(channel_capacity(1), 8);
    assert_eq!(channel_capacity(2), 8);
    assert_eq!(channel_capacity(3), 12);
    assert_eq!(channel_capacity(usize::MAX), usize::MAX);
    assert_eq!(block_queue_capacity(4), 8);
    assert_eq!(worker_count(0, 16), 16);
    assert_eq!(worker_count(3, 16), 3);
    assert_eq!(parse_log_level("debug"), Some(LogLevel::Debug));
    assert_eq!(parse_log_level("Warning"), Some(LogLevel::Warn));
    assert_eq!(parse_log_level("WARN"), Some(LogLevel::Warn));
    assert_eq!(parse_log_level("error"), Some(LogLevel::Error));
    assert_eq!(parse_log_level("info"), Some(LogLevel::Info));
    assert_eq!(parse_log_level("verbose"), None);
    assert_eq!(level_of_name("debug"), None);
    assert_eq!(format_elapsed(3725, 999), "1h 2m 5s");
    assert_eq!(format_elapsed(125, 7), "2m 5s");
    assert_eq!(format_elapsed(59, 7), "59.007s");
    assert_eq!(format_elapsed(0, 45), "0.045s");
    assert_eq!(format_elapsed(1, 123), "1.123s");
}

#[test]
fn writer_tally() {
    let mut tally = WriterTally::new();
    tally.note(0, true);
    tally.note(5, true);
    tally.note(3, false);
    tally.note(2, true);
    assert_eq!(tally.batches_written, 2);
    assert_eq!(tally.records_written, 7);
    assert_eq!(tally.batches_lost, 1);
    assert!(!WriterTally::takes(0));
    assert!(WriterTally::takes(1));
}

#[test]
fn results_of_files_are_absorbed() {
    let mut ok = FileStats::new();
    ok.total_fields_extracted = 4;
    let mut ignored = FileStats::new();
    ignored.total_fields_extracted = 100;
    let results = vec![
        ProcessedFileResult { stats: ok, error: None, filepath: "a.gz".to_string() },
        ProcessedFileResult {
            stats: ignored,
            error: Some("queue closed".to_string()),
            filepath: "b.gz".to_string(),
        },
    ];
    let mut run = IncrementalStats::new();
    let failed = absorb_results(&mut run, &results);
    assert_eq!(failed, vec!["b.gz"]);
    let stats = run.get_final_stats();
    assert_eq!(stats.total_field_records, 4);
    assert_eq!(stats.processed_files_ok, 1);
    assert_eq!(stats.processed_files_error, 1);
}

#[test]
fn crossref_rows_are_reshaped() {
    let patterns = IndexPatterns::crossref().expect("the patterns compile");
    let input = b"doi,field_name,subfield_path,value,member_id,doi_prefix\n\
10.1/b,author.family,author[0].family,Roe,78,10.1\n\
10.1/a,author.given,author[1].given,Jane,78,10.1\n\
10.1/a,author.family,author[1].family,Doe,78,10.1\n\
10.1/a,author.affiliation.name,author[1].affiliation[0].name,\"Univ. of X\",78,10.1\n\
10.1/a,author.name,author[0].name,The Consortium,78,10.1\n"
        .to_vec();
    let sorted = sort_csv(Dataset::Crossref, &input, 3);
    assert_eq!(sorted.rejected, 0);
    assert_eq!(sorted.records[0].source.as_deref(), Some("78"));
    let groups = group_runs(sorted.records);
    assert_eq!(groups.len(), 2);
    let out = reshape_groups(&groups, &patterns).unwrap();
    let text = String::from_utf8(encode_output(Dataset::Crossref, &out).unwrap()).unwrap();
    assert_eq!(
        text,
        "10.1/a,0,The Consortium,the consortium,,,,,None,,\n\
10.1/a,1,,,Jane,jane,Doe,doe,0,Univ. of X,univ of x\n\
10.1/b,0,,,,,Roe,roe,None,,\n"
    );
}

#[test]
fn extractor_needs_a_field() {
    assert!(prepare_extractor(Dataset::Crossref, " , .").is_none());
    assert!(prepare_extractor(Dataset::OpenAlex, "").is_none());
    let trie = prepare_extractor(Dataset::OpenAlex, "title").unwrap();
    let doc = parsing_utils::json::JsonDoc::parse(r#"{"title":"T"}"#).unwrap();
    assert_eq!(trie.extract(&doc).len(), 1);
    assert_eq!(file_pattern(Dataset::Crossref), "**/*.jsonl.gz");
    assert_eq!(file_pattern(Dataset::OpenAlex), "**/*.gz");
}

#[test]
fn table_gets_its_header_with_the_first_rows() {
    let patterns = IndexPatterns::openalex().unwrap();
    let rows = process_work_group("W1", &None, &ada(), &patterns).unwrap();
    let mut table = TableOutput::new(Dataset::OpenAlex);
    assert_eq!(table.write(&Vec::new()), Some(Vec::new()));
    let first = String::from_utf8(table.write(&rows).unwrap()).unwrap();
    assert_eq!(
        first,
        "work_id,doi,author_sequence,author_name,normalized_author_name,affiliation_sequence,affiliation_name,normalized_affiliation_name,affiliation_ror\n\
W1,,0,Ada,ada,0,MIT,mit,ror1\n\
W1,,0,Ada,ada,1,CERN,cern,\n"
    );
    let second = String::from_utf8(table.write(&rows).unwrap()).unwrap();
    assert_eq!(second, "W1,,0,Ada,ada,0,MIT,mit,ror1\nW1,,0,Ada,ada,1,CERN,cern,\n");
    assert_eq!(default_output_name("works"), "works_processed.csv");
}

#[test]
fn summary_decisions() {
    assert_eq!(group_summary(0), GroupSummary::Silent);
    assert_eq!(group_summary(1), GroupSummary::Listed);
    assert_eq!(group_summary(49), GroupSummary::Listed);
    assert_eq!(group_summary(50), GroupSummary::Counted);
    let counts = vec![
        Count { key: "a".to_string(), count: 2 },
        Count { key: "b".to_string(), count: 9 },
        Count { key: "c".to_string(), count: 2 },
        Count { key: "d".to_string(), count: 5 },
    ];
    let keys: Vec<String> = ranked(counts).into_iter().map(|c| c.key).collect();
    assert_eq!(keys, vec!["b", "d", "a", "c"]);
}

#[test]
fn each_author_and_affiliation_has_one_row() {
    let patterns = IndexPatterns::openalex().unwrap();
    let rows = vec![
        rec("W", IDS, "authorships[3].affiliations[1].institution_ids[0]", "I1"),
        rec("W", RAW, "authorships[3].affiliations[1].raw_affiliation_string", "One"),
        rec("W", IDS, "authorships[3].affiliations[1].institution_ids[1]", "I2"),
        rec("W", RAW, "authorships[3].affiliations[0].raw_affiliation_string", "Nought"),
        rec("W", NAME, "authorships[1].author.display_name", "Bo"),
        rec("W", NAME, "authorships[3].author.display_name", "Cy"),
        rec("W", RAW, "authorships[0].affiliations[4].raw_affiliation_string", "Four"),
        rec("W", RAW, "authorships[3].affiliations[1].raw_affiliation_string", "One again"),
    ];
    let doi = Some("10.1/w".to_string());
    let out = process_work_group("W", &doi, &rows, &patterns).unwrap();
    let got: Vec<(u32, Option<u32>, String)> = out
        .iter()
        .map(|r| (r.author_sequence, r.affiliation_sequence, r.affiliation_name.clone()))
        .collect();
    assert_eq!(
        got,
        vec![
            (0, Some(4), "Four".to_string()),
            (1, None, "".to_string()),
            (3, Some(0), "Nought".to_string()),
            (3, Some(1), "One again".to_string()),
        ]
    );
    assert!(out.iter().all(|r| r.work_id == "W" && r.doi.as_deref() == Some("10.1/w")));
}

#[test]
fn transliteration_drops_delete_and_what_follows_goes_by_its_tables() {
    assert_eq!(normalize_text("\u{7f}"), "");
    assert_eq!(normalize_text("a\u{7f}b"), "ab");
    assert_eq!(normalize_text("a\u{7f}\tb"), "ab");
    assert_eq!(normalize_text("a\tb\u{7f}"), "a\tb");
    assert_eq!(normalize_text("\u{e9}\tb"), "eb");
    assert_eq!(normalize_text("a\tb"), "a\tb");
    assert_eq!(normalize_text("Dept. of X\tY ~123"), "dept of x\ty 123");
    assert_eq!(normalize_ascii("a\u{7f}\tb"), "a\tb");
}
