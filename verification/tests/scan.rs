use comment_search::db::{insert_statements, Statement};
use comment_search::file::{FileData, ProcessingError};
use comment_search::scan::{is_candidate, search_source};

fn processed(path: &str, extension: &str, bytes: &[u8]) -> Result<FileData, ProcessingError> {
    FileData::new(path.to_string(), extension, Some(bytes.to_vec()))
}

fn unreadable(path: &str, extension: &str) -> Result<FileData, ProcessingError> {
    FileData::new(path.to_string(), extension, None)
}

fn sorted_hashes(records: &[FileData]) -> Vec<String> {
    let mut hashes: Vec<String> = records.iter().map(|r| r.hash.clone()).collect();
    hashes.sort();
    hashes
}

fn sorted_comment_hashes(records: &[FileData]) -> Vec<String> {
    let mut hashes: Vec<String> = records
        .iter()
        .flat_map(|r| r.comments.iter().map(|c| c.hash.clone()))
        .collect();
    hashes.sort();
    hashes
}

#[test]
fn regular_files_with_supported_extension_are_candidates() {
    for extension in ["c", "cpp", "cxx", "h", "rs"] {
        assert!(is_candidate(Some(true), Some(extension)));
    }
}

#[test]
fn directories_and_other_entries_are_skipped() {
    for extension in ["c", "cpp", "cxx", "h", "rs"] {
        assert!(!is_candidate(Some(false), Some(extension)));
    }
}

#[test]
fn entries_without_metadata_are_skipped() {
    assert!(!is_candidate(None, Some("c")));
    assert!(!is_candidate(None, None));
}

#[test]
fn files_without_extension_are_skipped() {
    assert!(!is_candidate(Some(true), None));
}

#[test]
fn files_with_other_extensions_are_skipped() {
    for extension in ["", "C", "RS", "py", "txt", "hpp", "cc", "o"] {
        assert!(!is_candidate(Some(true), Some(extension)));
    }
}

#[test]
fn scan_of_nothing_finds_nothing() {
    let report = search_source(Vec::new());
    assert!(report.records.is_empty());
    assert!(report.failures.is_empty());
}

#[test]
fn records_are_kept_in_order_of_arrival() {
    let outcomes = vec![
        processed("z.c", "c", b"// zzzzz"),
        processed("a.c", "c", b"// aaaaa"),
        processed("m.rs", "rs", b"// mmmmm"),
    ];
    let expected: Vec<FileData> = outcomes.iter().map(|o| o.clone().unwrap()).collect();
    let report = search_source(outcomes);
    assert_eq!(report.records, expected);
    assert!(report.failures.is_empty());
}

#[test]
fn failures_are_dropped_and_reported() {
    let outcomes = vec![
        unreadable("first.c", "c"),
        processed("a.c", "c", b"// aaaaa"),
        processed("notes.txt", "txt", b"// text"),
        processed("b.c", "c", b"// bbbbb"),
        unreadable("last.c", "c"),
    ];
    let report = search_source(outcomes);
    assert_eq!(
        report.records,
        vec![
            processed("a.c", "c", b"// aaaaa").unwrap(),
            processed("b.c", "c", b"// bbbbb").unwrap(),
        ]
    );
    assert_eq!(
        report.failures,
        vec![
            ProcessingError::ReadError {
                path: "first.c".to_string()
            },
            ProcessingError::UnsupportedSyntax {
                path: "notes.txt".to_string()
            },
            ProcessingError::ReadError {
                path: "last.c".to_string()
            },
        ]
    );
}

#[test]
fn one_unreadable_file_costs_no_other_its_record() {
    let outcomes = vec![
        processed("one.c", "c", b"/* the first file */"),
        processed("two.c", "c", b"/* the second file */"),
        unreadable("locked.c", "c"),
        processed("three.c", "c", b"/* the third file */"),
    ];
    let report = search_source(outcomes);
    assert_eq!(report.records.len(), 3);
    assert_eq!(
        report.failures,
        vec![ProcessingError::ReadError {
            path: "locked.c".to_string()
        }]
    );
    let statements = insert_statements(&report.records);
    let file_rows = statements
        .iter()
        .filter(|s| matches!(s, Statement::InsertFile { .. }))
        .count();
    assert_eq!(file_rows, 3);
}

#[test]
fn every_outcome_is_a_record_or_a_failure() {
    let outcomes = vec![
        unreadable("a.c", "c"),
        processed("b.c", "c", b""),
        unreadable("c.c", "c"),
        processed("d.md", "md", b"# title"),
        processed("e.h", "h", b"// header"),
    ];
    let count = outcomes.len();
    let report = search_source(outcomes);
    assert_eq!(report.records.len() + report.failures.len(), count);
}

#[test]
fn order_of_arrival_does_not_change_what_is_found() {
    let files: Vec<(&str, &str, Option<&[u8]>)> = vec![
        ("a.c", "c", Some(b"/* hello world */")),
        ("b.rs", "rs", Some(b"// short\n// this is long enough")),
        ("c.h", "h", None),
        ("d.cpp", "cpp", Some(b"// same\n// same again\n")),
        ("e.txt", "txt", Some(b"// text")),
        ("f.cxx", "cxx", Some(b"")),
    ];
    let run = |order: &[usize]| {
        let outcomes = order
            .iter()
            .map(|&i| {
                let (path, extension, bytes) = files[i];
                FileData::new(path.to_string(), extension, bytes.map(|b| b.to_vec()))
            })
            .collect();
        search_source(outcomes)
    };
    let first = run(&[0, 1, 2, 3, 4, 5]);
    let orders: [[usize; 6]; 4] = [
        [5, 4, 3, 2, 1, 0],
        [3, 0, 5, 1, 4, 2],
        [1, 2, 0, 4, 5, 3],
        [2, 4, 0, 1, 3, 5],
    ];
    for order in orders {
        let other = run(&order);
        assert_eq!(sorted_hashes(&first.records), sorted_hashes(&other.records));
        assert_eq!(
            sorted_comment_hashes(&first.records),
            sorted_comment_hashes(&other.records)
        );
        assert_eq!(first.failures.len(), other.failures.len());
        let expected: Vec<&str> = order
            .iter()
            .filter(|&&i| files[i].2.is_some() && files[i].1 != "txt")
            .map(|&i| files[i].0)
            .collect();
        let arrived: Vec<&str> = other.records.iter().map(|r| r.path.as_str()).collect();
        assert_eq!(arrived, expected);
    }
}

#[test]
fn two_files_three_comments() {
    let a = b"/* hello world */";
    let b = b"// short\n// this is long enough";
    let report = search_source(vec![processed("a.c", "c", a), processed("b.rs", "rs", b)]);
    assert!(report.failures.is_empty());
    assert_eq!(report.records.len(), 2);
    assert_eq!(report.records[0].hash, FileData::get_hash(a));
    assert_eq!(report.records[1].hash, FileData::get_hash(b));

    let statements = insert_statements(&report.records);
    let mut files = Vec::new();
    let mut comments = Vec::new();
    for statement in &statements {
        match statement {
            Statement::InsertFile { hash, path } => files.push((hash.as_str(), path.as_str())),
            Statement::InsertComment(comment) => {
                comments.push((comment.comment.as_str(), comment.file_hash.as_str()))
            }
            other => panic!("unexpected statement {:?}", other),
        }
    }
    let hash_a = FileData::get_hash(a);
    let hash_b = FileData::get_hash(b);
    assert_eq!(
        files,
        vec![(hash_a.as_str(), "a.c"), (hash_b.as_str(), "b.rs")]
    );
    assert_eq!(
        comments,
        vec![
            (" hello world ", hash_a.as_str()),
            (" short", hash_b.as_str()),
            (" this is long enough", hash_b.as_str()),
        ]
    );
}

#[test]
fn comment_of_five_bytes_is_in_the_scan() {
    let report = search_source(vec![processed("b.rs", "rs", b"//short\n//shor\n")]);
    assert_eq!(report.records.len(), 1);
    let texts: Vec<&str> = report.records[0]
        .comments
        .iter()
        .map(|c| c.comment.as_str())
        .collect();
    assert_eq!(texts, vec!["short"]);
}
