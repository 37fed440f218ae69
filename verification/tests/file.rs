use comment_search::file::{
    is_supported_extension, retain_comments, Comment, FileData, ProcessingError, MIN_COMMENT_LEN,
};

fn texts(all: &[&str]) -> Vec<String> {
    all.iter().map(|text| text.to_string()).collect()
}

fn record(text: &str, file_hash: &str) -> Comment {
    Comment {
        comment: text.to_string(),
        hash: FileData::get_hash(text.as_bytes()),
        file_hash: file_hash.to_string(),
    }
}

fn comment_texts(file: &FileData) -> Vec<&str> {
    file.comments.iter().map(|c| c.comment.as_str()).collect()
}

#[test]
fn supported_extensions_are_the_five() {
    for extension in ["c", "cpp", "cxx", "h", "rs"] {
        assert!(is_supported_extension(extension));
    }
}

#[test]
fn other_extensions_are_not_supported() {
    for extension in [
        "", "C", "H", "Rs", "RS", "CPP", "cc", "hpp", "hxx", "py", "js", "txt", "rsx", "r", "cp",
        "cppp", " c", "c ", ".c", "rs\n",
    ] {
        assert!(!is_supported_extension(extension));
    }
}

#[test]
fn comment_of_exactly_five_bytes_is_kept() {
    assert_eq!(MIN_COMMENT_LEN, 5);
    let kept = retain_comments(texts(&["short"]), "f");
    assert_eq!(kept, vec![record("short", "f")]);
}

#[test]
fn comment_of_four_bytes_is_dropped() {
    assert!(retain_comments(texts(&["shor"]), "f").is_empty());
    assert!(retain_comments(texts(&["", "a", "ab", "abc", "abcd"]), "f").is_empty());
}

#[test]
fn length_is_counted_in_bytes() {
    // three characters, five bytes
    let kept = retain_comments(texts(&["h\u{e9}\u{e9}"]), "f");
    assert_eq!(kept, vec![record("h\u{e9}\u{e9}", "f")]);
    // four characters, four bytes; two characters, four bytes
    assert!(retain_comments(texts(&["abcd", "\u{e9}\u{e9}"]), "f").is_empty());
    // two characters, five bytes
    assert_eq!(retain_comments(texts(&["a\u{1f600}"]), "f").len(), 1);
}

#[test]
fn kept_comments_stay_in_order() {
    let kept = retain_comments(
        texts(&["first one", "no", "second one", "", "third one", "4by", "fifth"]),
        "abc",
    );
    assert_eq!(
        kept,
        vec![
            record("first one", "abc"),
            record("second one", "abc"),
            record("third one", "abc"),
            record("fifth", "abc"),
        ]
    );
}

#[test]
fn equal_comments_are_kept_each() {
    let kept = retain_comments(texts(&["again", "again"]), "x");
    assert_eq!(kept, vec![record("again", "x"), record("again", "x")]);
}

#[test]
fn every_kept_comment_has_at_least_five_bytes() {
    let all = [
        "", " ", "    ", "     ", "x", "xxxxx", "xxxx", " todo", "todo", "\u{e9}\u{e9}\u{e9}",
        "a long comment with many words",
    ];
    let kept = retain_comments(texts(&all), "hash");
    assert_eq!(
        kept.len(),
        all.iter().filter(|text| text.len() >= 5).count()
    );
    for comment in &kept {
        assert!(comment.comment.len() >= 5);
        assert_eq!(comment.hash, FileData::get_hash(comment.comment.as_bytes()));
        assert_eq!(comment.file_hash, "hash");
    }
}

#[test]
fn nothing_in_gives_nothing_out() {
    assert!(retain_comments(Vec::new(), "f").is_empty());
}

#[test]
fn read_contents_gives_text_and_hash() {
    let (text, hash) = FileData::read_contents(b"/* hello world */");
    assert_eq!(text, "/* hello world */");
    assert_eq!(
        hash,
        "237bfc23544a4874315c60bf9d148cc5315ebfc74c98b9db95be5a8a070f6ce5cca2d58899efb668bd2938cce9105acb153b10737c4feab55bdb498d11cc6307"
    );
}

#[test]
fn read_contents_keeps_valid_text_as_it_is() {
    let source = "// caf\u{e9} \u{1f600}\nfn main() {}\n";
    let (text, hash) = FileData::read_contents(source.as_bytes());
    assert_eq!(text, source);
    assert_eq!(hash, FileData::get_hash(source.as_bytes()));
}

#[test]
fn read_contents_replaces_invalid_bytes() {
    let bytes = b"// caf\xff latte";
    let (text, hash) = FileData::read_contents(bytes);
    assert_eq!(text, "// caf\u{fffd} latte");
    assert_eq!(hash, FileData::get_hash(bytes));
    assert_ne!(hash, FileData::get_hash(text.as_bytes()));
}

#[test]
fn read_contents_of_empty_file() {
    let (text, hash) = FileData::read_contents(b"");
    assert_eq!(text, "");
    assert_eq!(hash, FileData::get_hash(b""));
}

#[test]
fn get_comments_of_c_text() {
    let found = FileData::get_comments("/* hello world */", "a.c", "c", "filehash").unwrap();
    assert_eq!(found, vec![record(" hello world ", "filehash")]);
}

#[test]
fn get_comments_strips_delimiters_and_skips_code() {
    let source = "int main() { // entry point\n  return 0; /* all is\n well */\n}\n// ok\n";
    let found = FileData::get_comments(source, "m.c", "c", "h").unwrap();
    assert_eq!(
        found,
        vec![record(" entry point", "h"), record(" all is\n well ", "h")]
    );
}

#[test]
fn get_comments_ignores_delimiters_inside_strings() {
    let source = "char *s = \"// not a comment\"; // a comment\n";
    let found = FileData::get_comments(source, "s.c", "c", "h").unwrap();
    assert_eq!(found, vec![record(" a comment", "h")]);
}

#[test]
fn get_comments_of_rust_text() {
    let source = "//! crate docs\n/// item docs\n// plain\nfn f() {} /* block */\n";
    let found = FileData::get_comments(source, "lib.rs", "rs", "h").unwrap();
    assert_eq!(
        found,
        vec![
            record(" crate docs", "h"),
            record(" item docs", "h"),
            record(" plain", "h"),
            record(" block ", "h"),
        ]
    );
}

#[test]
fn get_comments_at_the_length_limit() {
    let found = FileData::get_comments("//short\n//shor\n//12345\n//1234\n", "b.rs", "rs", "h")
        .unwrap();
    assert_eq!(found, vec![record("short", "h"), record("12345", "h")]);
}

#[test]
fn get_comments_is_not_the_text_itself() {
    let source = "/* hello world */";
    let found = FileData::get_comments(source, "a.c", "c", "h").unwrap();
    assert_eq!(found.len(), 1);
    assert_ne!(found[0].comment, source);
}

#[test]
fn get_comments_of_text_without_comments() {
    assert!(FileData::get_comments("int x = 1;\n", "a.c", "c", "h").unwrap().is_empty());
    assert!(FileData::get_comments("", "a.c", "c", "h").unwrap().is_empty());
}

#[test]
fn get_comments_succeeds_for_every_supported_extension() {
    for extension in ["c", "cpp", "cxx", "h", "rs"] {
        let found = FileData::get_comments("// a comment", "x", extension, "h").unwrap();
        assert_eq!(found, vec![record(" a comment", "h")]);
    }
}

#[test]
fn get_comments_fails_without_rules() {
    // no language is known for the first two; the third is a known language
    // without comment rules
    for extension in ["txt", "", "go"] {
        assert_eq!(
            FileData::get_comments("// a comment", "some/file", extension, "h"),
            Err(ProcessingError::UnsupportedSyntax {
                path: "some/file".to_string()
            })
        );
    }
}

#[test]
fn get_comments_goes_by_the_extension_not_the_path() {
    let found = FileData::get_comments("# a python comment", "notes.c", "py", "h").unwrap();
    assert_eq!(found, vec![record(" a python comment", "h")]);
    assert!(FileData::get_comments("// x", "notes.rs", "txt", "h").is_err());
}

#[test]
fn new_makes_the_record_of_a_c_file() {
    let bytes = b"/* hello world */".to_vec();
    let file = FileData::new("dir/a.c".to_string(), "c", Some(bytes.clone())).unwrap();
    let hash = FileData::get_hash(&bytes);
    assert_eq!(
        file,
        FileData {
            path: "dir/a.c".to_string(),
            hash: hash.clone(),
            comments: vec![record(" hello world ", &hash)],
        }
    );
}

#[test]
fn new_makes_the_record_of_a_rust_file() {
    let bytes = b"// short\n// this is long enough".to_vec();
    let file = FileData::new("b.rs".to_string(), "rs", Some(bytes.clone())).unwrap();
    assert_eq!(file.path, "b.rs");
    assert_eq!(file.hash, FileData::get_hash(&bytes));
    assert_eq!(comment_texts(&file), vec![" short", " this is long enough"]);
    for comment in &file.comments {
        assert_eq!(comment.file_hash, file.hash);
        assert_eq!(comment.hash, FileData::get_hash(comment.comment.as_bytes()));
    }
}

#[test]
fn new_of_an_empty_file() {
    let file = FileData::new("e.h".to_string(), "h", Some(Vec::new())).unwrap();
    assert_eq!(file.hash, FileData::get_hash(b""));
    assert!(file.comments.is_empty());
}

#[test]
fn new_fails_when_the_file_was_not_read() {
    let made = FileData::new("gone.c".to_string(), "c", None);
    assert_eq!(
        made,
        Err(ProcessingError::ReadError {
            path: "gone.c".to_string()
        })
    );
}

#[test]
fn new_fails_without_rules() {
    let made = FileData::new("notes.txt".to_string(), "txt", Some(b"// hello there".to_vec()));
    assert_eq!(
        made,
        Err(ProcessingError::UnsupportedSyntax {
            path: "notes.txt".to_string()
        })
    );
}

#[test]
fn new_reports_the_read_failure_first() {
    let made = FileData::new("notes.txt".to_string(), "txt", None);
    assert_eq!(
        made,
        Err(ProcessingError::ReadError {
            path: "notes.txt".to_string()
        })
    );
}

#[test]
fn file_hash_is_of_the_raw_bytes() {
    let bytes = b"// caf\xff latte\n/* \xc3\x28 broken */".to_vec();
    let file = FileData::new("latin.c".to_string(), "c", Some(bytes.clone())).unwrap();
    assert_eq!(file.hash, FileData::get_hash(&bytes));
    let decoded = String::from_utf8_lossy(&bytes).into_owned();
    assert_ne!(file.hash, FileData::get_hash(decoded.as_bytes()));
    assert_eq!(
        comment_texts(&file),
        vec![" caf\u{fffd} latte", " \u{fffd}( broken "]
    );
    for comment in &file.comments {
        assert_eq!(comment.file_hash, file.hash);
        assert_eq!(comment.hash, FileData::get_hash(comment.comment.as_bytes()));
    }
}

#[test]
fn files_with_the_same_bytes_have_the_same_hash() {
    let bytes = b"// the same bytes\n".to_vec();
    let one = FileData::new("one.c".to_string(), "c", Some(bytes.clone())).unwrap();
    let other = FileData::new("other.rs".to_string(), "rs", Some(bytes)).unwrap();
    assert_eq!(one.hash, other.hash);
    assert_eq!(one.comments, other.comments);
    assert_ne!(one.path, other.path);
}

#[test]
fn new_is_deterministic() {
    let bytes = b"/* one */ int x; // two two\n".to_vec();
    let first = FileData::new("x.cpp".to_string(), "cpp", Some(bytes.clone()));
    let second = FileData::new("x.cpp".to_string(), "cpp", Some(bytes));
    assert_eq!(first, second);
}

#[test]
fn processing_error_tells_path_and_message() {
    let read = ProcessingError::ReadError {
        path: "a/b.c".to_string(),
    };
    let syntax = ProcessingError::UnsupportedSyntax {
        path: "c/d.txt".to_string(),
    };
    assert_eq!(read.path(), "a/b.c");
    assert_eq!(read.message(), "Could not read file");
    assert_eq!(syntax.path(), "c/d.txt");
    assert_eq!(syntax.message(), "Could not get comments");
}
