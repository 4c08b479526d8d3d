use editor_core::search::matcher::{compile_matcher, SearchError};
use editor_core::search::models::{FileResult, SearchMatch};
use editor_core::search::scanner::scan_file;
use editor_core::search::service::{prepare, search, SourceFile};

fn file(path: &str, contents: &str) -> SourceFile {
    SourceFile { path: path.to_string(), contents: contents.as_bytes().to_vec() }
}

fn lines_of(result: &FileResult) -> Vec<(u64, String)> {
    result.matches.iter().map(|m| (m.line_number, m.line_text.clone())).collect()
}

fn scanned(
    pattern: &str,
    case_sensitive: bool,
    whole_word: bool,
    is_regex: bool,
    text: &str,
) -> Vec<SearchMatch> {
    let matcher = compile_matcher(pattern, case_sensitive, whole_word, is_regex).unwrap();
    scan_file(&matcher, text.as_bytes()).into_vec()
}

#[test]
fn end_to_end_two_files() {
    let files = vec![
        file("b/c.txt", "first\nsecond\nhello\n"),
        file("a.txt", "hello world\n"),
    ];
    let outcome = search(Ok(files), "hello", false, false, false).unwrap();
    assert_eq!(outcome.len(), 2);
    assert_eq!(outcome[0].path, "a.txt");
    assert_eq!(lines_of(&outcome[0]), vec![(1, "hello world\n".to_string())]);
    assert_eq!(outcome[1].path, "b/c.txt");
    assert_eq!(lines_of(&outcome[1]), vec![(3, "hello\n".to_string())]);
}

#[test]
fn files_without_a_match_are_left_out() {
    let files = vec![file("x.txt", "nothing here\n"), file("y.txt", "needle\n"), file("z.txt", "")];
    let outcome = search(Ok(files), "needle", true, false, false).unwrap();
    assert_eq!(outcome.len(), 1);
    assert_eq!(outcome[0].path, "y.txt");
    assert!(outcome.iter().all(|r| !r.matches.is_empty()));
}

#[test]
fn case_insensitive_matches_every_casing() {
    let found = scanned("Foo", false, false, false, "foo\nFOO\nFoo\nbar\n");
    let numbers: Vec<u64> = found.iter().map(|m| m.line_number).collect();
    assert_eq!(numbers, vec![1, 2, 3]);
}

#[test]
fn case_sensitive_matches_exact_casing_only() {
    let found = scanned("Foo", true, false, false, "foo\nFOO\nFoo\nbar\n");
    assert_eq!(found.len(), 1);
    assert_eq!(found[0].line_number, 3);
    assert_eq!(found[0].line_text, "Foo\n");
}

#[test]
fn whole_word_rejects_substrings() {
    let found = scanned("cat", true, true, false, "the cat sat\nconcatenate\ncat\n");
    let numbers: Vec<u64> = found.iter().map(|m| m.line_number).collect();
    assert_eq!(numbers, vec![1, 3]);
}

#[test]
fn without_whole_word_substrings_match() {
    let found = scanned("cat", true, false, false, "the cat sat\nconcatenate\n");
    assert_eq!(found.len(), 2);
}

#[test]
fn regex_matches_heading_lines() {
    let text = "# Title\nplain\n## Section\n#hashtag\n  # indented\n";
    let found = scanned("^#+\\s", true, false, true, text);
    let numbers: Vec<u64> = found.iter().map(|m| m.line_number).collect();
    assert_eq!(numbers, vec![1, 3]);
}

#[test]
fn literal_mode_takes_metacharacters_as_text() {
    let text = "# Title\nthe pattern ^#+\\s is a regex\n## Section\n";
    let found = scanned("^#+\\s", true, false, false, text);
    assert_eq!(found.len(), 1);
    assert_eq!(found[0].line_number, 2);
}

#[test]
fn literal_mode_accepts_an_unbalanced_parenthesis() {
    let found = scanned("(", true, false, false, "f(x)\nno paren\n");
    assert_eq!(found.len(), 1);
    assert_eq!(found[0].line_number, 1);
}

#[test]
fn literal_mode_ignores_case_when_asked() {
    let found = scanned("a.b", false, false, false, "A.B\naxb\n");
    assert_eq!(found.len(), 1);
    assert_eq!(found[0].line_number, 1);
}

#[test]
fn invalid_regex_is_an_error() {
    let outcome = search(Ok(vec![file("a.txt", "(\n")]), "(", true, false, true);
    match outcome {
        Err(SearchError::InvalidPattern { message }) => assert!(!message.is_empty()),
        _ => panic!("an unbalanced parenthesis must not compile"),
    }
}

#[test]
fn compile_reports_invalid_pattern_with_a_message() {
    match compile_matcher("[a-", true, false, true) {
        Err(error) => {
            assert!(matches!(error, SearchError::InvalidPattern { .. }));
            assert!(!error.message().is_empty());
        }
        Ok(_) => panic!("an open bracket must not compile"),
    }
}

#[test]
fn invalid_pattern_carries_the_description_of_the_engine() {
    let said = grep_regex::RegexMatcherBuilder::new()
        .case_insensitive(true)
        .build("a(b")
        .unwrap_err()
        .to_string();
    assert!(said.contains("a(b"));
    match compile_matcher("a(b", false, false, true) {
        Err(SearchError::InvalidPattern { message }) => assert_eq!(message, said),
        _ => panic!("an unbalanced parenthesis must not compile"),
    }
    match search(Ok(Vec::new()), "a(b", false, false, true) {
        Err(error) => assert_eq!(error.message(), said),
        Ok(_) => panic!("an unbalanced parenthesis must not compile"),
    }
}

#[test]
fn unreadable_root_is_an_error() {
    let outcome = search(Err("no such directory".to_string()), "hello", false, false, false);
    match outcome {
        Err(SearchError::RootAccess { message }) => assert_eq!(message, "no such directory"),
        _ => panic!("an unreadable root must fail the search"),
    }
}

#[test]
fn invalid_pattern_is_reported_before_the_root() {
    let outcome = search(Err("no such directory".to_string()), "(", false, false, true);
    assert!(matches!(outcome, Err(SearchError::InvalidPattern { .. })));
}

#[test]
fn compiled_matcher_remembers_its_options() {
    let matcher = compile_matcher("Foo", false, true, true).unwrap();
    assert_eq!(matcher.pattern(), "Foo");
    assert!(matcher.case_insensitive());
    assert!(matcher.whole_word());
    assert!(!matcher.literal());
}

#[test]
fn matches_per_file_are_capped() {
    let mut text = String::new();
    for i in 0..150 {
        text.push_str(&format!("hit {}\n", i));
    }
    let found = scanned("hit", true, false, false, &text);
    assert_eq!(found.len(), 100);
    assert_eq!(found[0].line_number, 1);
    assert_eq!(found[99].line_number, 100);
    assert_eq!(found[99].line_text, "hit 99\n");
}

#[test]
fn long_lines_are_dropped_and_do_not_count() {
    let long = "x".repeat(2000);
    let mut text = format!("hit {}\n", long);
    for i in 0..100 {
        text.push_str(&format!("hit {}\n", i));
    }
    let found = scanned("hit", true, false, false, &text);
    assert_eq!(found.len(), 100);
    assert_eq!(found[0].line_number, 2);
    assert_eq!(found[99].line_number, 101);
    assert!(found.iter().all(|m| m.line_text.len() <= 1000));
}

#[test]
fn line_of_1000_bytes_is_kept_and_of_1001_is_dropped() {
    let kept = format!("{}\n", "a".repeat(999));
    let dropped = format!("{}\n", "a".repeat(1000));
    assert_eq!(kept.len(), 1000);
    assert_eq!(dropped.len(), 1001);
    let found = scanned("a", true, false, false, &format!("{}{}", kept, dropped));
    assert_eq!(found.len(), 1);
    assert_eq!(found[0].line_number, 1);
    assert_eq!(found[0].line_text, kept);
    let found = scanned("a", true, false, false, &format!("{}{}", dropped, kept));
    assert_eq!(found.len(), 1);
    assert_eq!(found[0].line_number, 2);
}

#[test]
fn last_line_without_terminator_is_reported_as_it_stands() {
    let found = scanned("end", true, false, false, "start\nthe end");
    assert_eq!(found.len(), 1);
    assert_eq!(found[0].line_number, 2);
    assert_eq!(found[0].line_text, "the end");
}

#[test]
fn file_with_an_undecodable_matching_line_yields_nothing() {
    let matcher = compile_matcher("hit", true, false, false).unwrap();
    let mut contents = b"hit one\n".to_vec();
    contents.extend_from_slice(b"hit \xff\xfe\n");
    contents.extend_from_slice(b"hit three\n");
    assert!(scan_file(&matcher, &contents).is_empty());
}

#[test]
fn undecodable_line_that_does_not_match_is_harmless() {
    let matcher = compile_matcher("hit", true, false, false).unwrap();
    let mut contents = b"hit one\n".to_vec();
    contents.extend_from_slice(b"miss \xff\xfe\n");
    contents.extend_from_slice(b"hit three\n");
    let found = scan_file(&matcher, &contents).into_vec();
    let numbers: Vec<u64> = found.iter().map(|m| m.line_number).collect();
    assert_eq!(numbers, vec![1, 3]);
}

#[test]
fn undecodable_line_after_the_cap_is_never_reached() {
    let matcher = compile_matcher("hit", true, false, false).unwrap();
    let mut contents = Vec::new();
    for i in 0..100 {
        contents.extend_from_slice(format!("hit {}\n", i).as_bytes());
    }
    contents.extend_from_slice(b"hit \xff\xfe\n");
    let found = scan_file(&matcher, &contents);
    assert_eq!(found.len(), 100);
}

#[test]
fn file_results_are_capped() {
    let mut files = Vec::new();
    for i in 0..2005 {
        files.push(file(&format!("f{:05}.txt", i), "needle\n"));
    }
    let outcome = search(Ok(files), "needle", true, false, false).unwrap();
    assert_eq!(outcome.len(), 2000);
    assert_eq!(outcome[0].path, "f00000.txt");
    assert_eq!(outcome[1999].path, "f01999.txt");
}

#[test]
fn files_without_a_match_do_not_use_up_the_cap() {
    let mut files = Vec::new();
    for i in 0..50 {
        files.push(file(&format!("miss{:03}.txt", i), "nothing\n"));
    }
    for i in 0..2000 {
        files.push(file(&format!("hit{:05}.txt", i), "needle\n"));
    }
    let outcome = search(Ok(files), "needle", true, false, false).unwrap();
    assert_eq!(outcome.len(), 2000);
    assert!(outcome.iter().all(|r| r.path.starts_with("hit")));
}

#[test]
fn outcome_is_ordered_by_the_bytes_of_the_paths() {
    let files = vec![
        file("b.txt", "x\n"),
        file("a/b.txt", "x\n"),
        file("ab.txt", "x\n"),
        file("B.txt", "x\n"),
        file("a.txt", "x\n"),
        file("\u{e9}.txt", "x\n"),
        file("a", "x\n"),
    ];
    let outcome = search(Ok(files), "x", true, false, false).unwrap();
    let paths: Vec<&str> = outcome.iter().map(|r| r.path.as_str()).collect();
    assert_eq!(paths, vec!["B.txt", "a", "a.txt", "a/b.txt", "ab.txt", "b.txt", "\u{e9}.txt"]);
    let mut expected = paths.clone();
    expected.sort();
    assert_eq!(paths, expected);
}

#[test]
fn empty_tree_gives_an_empty_outcome() {
    let outcome = search(Ok(Vec::new()), "x", true, false, false).unwrap();
    assert!(outcome.is_empty());
}

#[test]
fn prepare_gives_the_matcher_for_a_readable_root() {
    let matcher = prepare(Ok(()), "needle", true, false, false).unwrap();
    assert_eq!(matcher.pattern(), "needle");
    assert!(!matcher.case_insensitive());
    assert!(matcher.literal());
}

#[test]
fn prepare_fails_on_an_unreadable_root() {
    match prepare(Err("permission denied".to_string()), "needle", true, false, false) {
        Err(SearchError::RootAccess { message }) => assert_eq!(message, "permission denied"),
        _ => panic!("an unreadable root must fail the search"),
    }
}

#[test]
fn prepare_reports_the_pattern_first() {
    let outcome = prepare(Err("permission denied".to_string()), "a{2,1}", true, false, true);
    assert!(matches!(outcome, Err(SearchError::InvalidPattern { .. })));
}

#[test]
fn empty_pattern_matches_every_line() {
    let found = scanned("", true, false, false, "one\n\nthree\n");
    let numbers: Vec<u64> = found.iter().map(|m| m.line_number).collect();
    assert_eq!(numbers, vec![1, 2, 3]);
    assert_eq!(found[1].line_text, "\n");
}

#[test]
fn pattern_that_spans_lines_matches_nothing() {
    let found = scanned("one\ntwo", true, false, false, "one\ntwo\n");
    assert!(found.is_empty());
}

#[test]
fn lines_end_as_they_do_in_the_file() {
    let found = scanned("two", true, false, false, "one\r\ntwo\r\nthree\r\n");
    assert_eq!(found.len(), 1);
    assert_eq!(found[0].line_number, 2);
    assert_eq!(found[0].line_text, "two\r\n");
}

#[test]
fn utf16_text_with_a_byte_order_mark_is_read_as_text() {
    let matcher = compile_matcher("hit", true, false, false).unwrap();
    let mut contents = vec![0xff, 0xfe];
    for unit in "miss\nhit\n".encode_utf16() {
        contents.extend_from_slice(&unit.to_le_bytes());
    }
    let found = scan_file(&matcher, &contents).into_vec();
    assert_eq!(found.len(), 1);
    assert_eq!(found[0].line_number, 2);
    assert_eq!(found[0].line_text, "hit\n");
}

#[test]
fn whole_word_in_regex_mode() {
    let found = scanned("c.t", true, true, true, "a cat\ncot\nscatter\n");
    let numbers: Vec<u64> = found.iter().map(|m| m.line_number).collect();
    assert_eq!(numbers, vec![1, 2]);
}

#[test]
fn same_path_twice_keeps_the_order_of_the_files() {
    let files = vec![
        file("dup.txt", "needle second\n"),
        file("a.txt", "needle\n"),
        file("dup.txt", "needle first\n"),
    ];
    let outcome = search(Ok(files), "needle", true, false, false).unwrap();
    let seen: Vec<(String, String)> =
        outcome.into_iter().map(|r| (r.path, r.matches[0].line_text.clone())).collect();
    assert_eq!(
        seen,
        vec![
            ("a.txt".to_string(), "needle\n".to_string()),
            ("dup.txt".to_string(), "needle second\n".to_string()),
            ("dup.txt".to_string(), "needle first\n".to_string()),
        ]
    );
}
