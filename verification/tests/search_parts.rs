use editor_core::lexical::{bytes_precede, str_precedes};
use editor_core::search::aggregator::{Aggregator, WalkDecision};
use editor_core::search::finalizer::finalize;
use editor_core::search::matcher::compile_matcher;
use editor_core::search::models::{
    FileResult, SearchMatch, MAX_FILE_RESULTS, MAX_LINE_BYTES, MAX_MATCHES_PER_FILE,
};
use editor_core::search::scanner::{scan_file, MatchList};
use editor_core::sorting::{sort_ranked, Ranked};

fn one_match(text: &str) -> MatchList {
    let mut list = MatchList::new();
    list.offer(1, text);
    list
}

fn result(path: &str, line: &str) -> FileResult {
    FileResult {
        path: path.to_string(),
        matches: vec![SearchMatch { line_number: 1, line_text: line.to_string() }],
    }
}

#[test]
fn limits_have_their_values() {
    assert_eq!(MAX_FILE_RESULTS, 2000);
    assert_eq!(MAX_MATCHES_PER_FILE, 100);
    assert_eq!(MAX_LINE_BYTES, 1000);
}

#[test]
fn offer_keeps_a_short_line() {
    let mut list = MatchList::new();
    assert!(list.is_empty());
    assert!(list.offer(7, "seven\n"));
    assert_eq!(list.len(), 1);
    let kept = list.into_vec();
    assert_eq!(kept[0].line_number, 7);
    assert_eq!(kept[0].line_text, "seven\n");
}

#[test]
fn offer_keeps_a_line_of_the_limit_and_drops_a_longer_one() {
    let mut list = MatchList::new();
    let long = "y".repeat(1001);
    assert!(list.offer(1, &long));
    assert!(list.is_empty());
    let at_the_limit = "y".repeat(1000);
    assert!(list.offer(2, &at_the_limit));
    assert_eq!(list.len(), 1);
    let kept = list.into_vec();
    assert_eq!(kept[0].line_number, 2);
    assert_eq!(kept[0].line_text.len(), 1000);
}

#[test]
fn offer_counts_bytes_not_characters() {
    let mut list = MatchList::new();
    // 501 characters of two bytes each make 1002 bytes.
    let wide = "\u{e9}".repeat(501);
    assert_eq!(wide.chars().count(), 501);
    assert_eq!(wide.len(), 1002);
    assert!(list.offer(1, &wide));
    assert!(list.is_empty());
    // 500 of them make 1000 bytes, which is the limit.
    let narrower = "\u{e9}".repeat(500);
    assert_eq!(narrower.len(), 1000);
    assert!(list.offer(2, &narrower));
    assert_eq!(list.len(), 1);
}

#[test]
fn offer_ends_the_scan_with_the_hundredth_match() {
    let mut list = MatchList::new();
    for i in 0..99 {
        assert!(list.offer(i + 1, "line\n"));
    }
    assert!(!list.offer(100, "line\n"));
    assert_eq!(list.len(), 100);
    assert!(!list.offer(101, "line\n"));
    assert_eq!(list.len(), 100);
    let kept = list.into_vec();
    assert_eq!(kept[99].line_number, 100);
}

#[test]
fn long_line_does_not_end_the_scan() {
    let mut list = MatchList::new();
    for i in 0..99 {
        list.offer(i + 1, "line\n");
    }
    let long = "z".repeat(1500);
    assert!(list.offer(100, &long));
    assert_eq!(list.len(), 99);
}

#[test]
fn scan_reports_lines_in_file_order() {
    let matcher = compile_matcher("b", true, false, false).unwrap();
    let found = scan_file(&matcher, b"abc\nxyz\nbcd\n\nb").into_vec();
    let numbers: Vec<u64> = found.iter().map(|m| m.line_number).collect();
    assert_eq!(numbers, vec![1, 3, 5]);
    assert_eq!(found[2].line_text, "b");
}

#[test]
fn scan_of_empty_contents_finds_nothing() {
    let matcher = compile_matcher("b", true, false, false).unwrap();
    assert!(scan_file(&matcher, b"").is_empty());
}

#[test]
fn aggregator_ignores_files_without_a_match() {
    let mut aggregator = Aggregator::new();
    let decision = aggregator.offer("empty.txt".to_string(), MatchList::new());
    assert_eq!(decision, WalkDecision::Continue);
    assert_eq!(aggregator.len(), 0);
    assert!(!aggregator.is_full());
    assert!(aggregator.finish().is_empty());
}

#[test]
fn aggregator_accepts_up_to_the_cap_and_then_quits() {
    let mut aggregator = Aggregator::new();
    for i in 0..2000 {
        assert!(!aggregator.is_full());
        let decision = aggregator.offer(format!("{:04}", i), one_match("hit\n"));
        assert_eq!(decision, WalkDecision::Continue);
    }
    assert!(aggregator.is_full());
    assert_eq!(aggregator.len(), 2000);
    let decision = aggregator.offer("late".to_string(), one_match("hit\n"));
    assert_eq!(decision, WalkDecision::Quit);
    assert_eq!(aggregator.len(), 2000);
    // A file without a match is no reason to quit, even at the cap.
    let decision = aggregator.offer("none".to_string(), MatchList::new());
    assert_eq!(decision, WalkDecision::Continue);
    let outcome = aggregator.finish();
    assert_eq!(outcome.len(), 2000);
    assert!(outcome.iter().all(|r| r.path != "late"));
}

#[test]
fn aggregator_orders_whatever_order_results_arrive_in() {
    let mut aggregator = Aggregator::new();
    for path in ["m", "c", "z", "a"] {
        aggregator.offer(path.to_string(), one_match("hit\n"));
    }
    let paths: Vec<String> = aggregator.finish().into_iter().map(|r| r.path).collect();
    assert_eq!(paths, vec!["a", "c", "m", "z"]);
}

#[test]
fn finalize_keeps_arrival_order_of_equal_paths() {
    let results = vec![
        result("b", "first b\n"),
        result("a", "first a\n"),
        result("b", "second b\n"),
        result("a", "second a\n"),
    ];
    let outcome = finalize(results);
    let seen: Vec<(String, String)> =
        outcome.into_iter().map(|r| (r.path, r.matches[0].line_text.clone())).collect();
    assert_eq!(
        seen,
        vec![
            ("a".to_string(), "first a\n".to_string()),
            ("a".to_string(), "second a\n".to_string()),
            ("b".to_string(), "first b\n".to_string()),
            ("b".to_string(), "second b\n".to_string()),
        ]
    );
}

#[test]
fn finalize_of_nothing_is_nothing() {
    assert!(finalize(Vec::new()).is_empty());
}

#[test]
fn sort_ranked_agrees_with_the_standard_sort() {
    let paths = ["delta", "alpha", "charlie", "bravo", "alpha/x", "Alpha", "", "echo"];
    let results: Vec<FileResult> = paths.iter().map(|p| result(p, "x\n")).collect();
    let sorted: Vec<String> = sort_ranked(results).into_iter().map(|r| r.path).collect();
    let mut expected: Vec<String> = paths.iter().map(|p| p.to_string()).collect();
    expected.sort();
    assert_eq!(sorted, expected);
}

#[test]
fn file_results_rank_by_path() {
    assert!(result("a", "x").precedes(&result("b", "y")));
    assert!(!result("b", "x").precedes(&result("a", "y")));
    assert!(result("a", "x").precedes(&result("a", "y")));
}

#[test]
fn byte_order_puts_a_prefix_first() {
    assert!(bytes_precede(b"", b""));
    assert!(bytes_precede(b"", b"a"));
    assert!(!bytes_precede(b"a", b""));
    assert!(bytes_precede(b"ab", b"abc"));
    assert!(!bytes_precede(b"abc", b"ab"));
    assert!(bytes_precede(b"abc", b"abc"));
}

#[test]
fn byte_order_is_decided_by_the_first_difference() {
    assert!(bytes_precede(b"abz", b"ac"));
    assert!(!bytes_precede(b"ac", b"abz"));
    assert!(bytes_precede(&[0x7f], &[0x80]));
    assert!(!bytes_precede(&[0xff], &[0x00, 0x01]));
}

#[test]
fn strings_are_ordered_like_the_standard_library_orders_them() {
    let samples = ["", "a", "A", "ab", "b", "\u{e9}", "z", "a/b", "a.b", "\u{1F600}"];
    for a in samples {
        for b in samples {
            assert_eq!(str_precedes(a, b), a <= b);
        }
    }
}

#[test]
fn sort_ranked_is_the_stable_sort_on_many_results() {
    // Paths from a small alphabet, so that many of them repeat.
    let mut state: u32 = 12345;
    let mut results = Vec::new();
    for i in 0..700 {
        state = state.wrapping_mul(1103515245).wrapping_add(12345);
        let a = (b'a' + ((state >> 16) % 5) as u8) as char;
        state = state.wrapping_mul(1103515245).wrapping_add(12345);
        let b = (b'a' + ((state >> 16) % 5) as u8) as char;
        results.push(result(&format!("{}{}", a, b), &format!("{}\n", i)));
    }
    let mut expected: Vec<(String, String)> =
        results.iter().map(|r| (r.path.clone(), r.matches[0].line_text.clone())).collect();
    expected.sort_by(|x, y| x.0.cmp(&y.0));
    let sorted: Vec<(String, String)> = sort_ranked(results)
        .into_iter()
        .map(|r| (r.path, r.matches[0].line_text.clone()))
        .collect();
    assert_eq!(sorted, expected);
}
