use fs_guard::engine::{SearchEngine, SearchError, TreeEntry};
use fs_guard::query::{
    default_false, default_file_pattern, default_max_file_size, default_max_results,
    default_true, default_zero, SearchQuery,
};

fn entry(rel_path: &str, depth: usize, data: &str) -> TreeEntry {
    let name = match rel_path.rfind('/') {
        Some(k) => &rel_path[k + 1..],
        None => rel_path,
    };
    TreeEntry {
        rel_path: rel_path.to_string(),
        name: name.to_string(),
        is_file: true,
        depth,
        size: data.len() as u64,
        data: data.as_bytes().to_vec(),
    }
}

fn query(pattern: &str) -> SearchQuery {
    SearchQuery {
        pattern: pattern.to_string(),
        is_regex: default_false(),
        case_sensitive: true,
        file_pattern: default_file_pattern(),
        recursive: default_true(),
        max_results: default_max_results(),
        max_file_size: default_max_file_size(),
        context_lines: default_zero(),
        timeout_ms: 60_000,
    }
}

#[test]
fn scenario_basic_search() {
    // a.txt holds the pattern on line 3, b.bin is binary by extension,
    // c.txt holds no match: two files are scanned, one matches, once.
    let entries = vec![
        entry("a.txt", 1, "first line\nsecond line\nhas a needle here\n"),
        entry("b.bin", 1, "needle needle needle\n"),
        entry("c.txt", 1, "nothing to see\n"),
    ];
    let engine = SearchEngine::new(query("needle")).unwrap();
    let r = engine.search(&entries);
    assert_eq!(r.files_searched, 2);
    assert_eq!(r.files_matched, 1);
    assert_eq!(r.total_matches, 1);
    assert!(!r.truncated);
    assert!(!r.stopped_by_timeout);
    assert_eq!(r.matches[0].file, "a.txt");
    assert_eq!(r.matches[0].matches[0].line_number, 3);
    assert_eq!(r.matches[0].matches[0].line, "has a needle here");
}

#[test]
fn scenario_result_cap_truncates() {
    // With a cap of one, the first file's two matches already reach the
    // cap: the result is truncated, reports the first qualifying file,
    // and the total stays within the file-granularity looseness.
    let entries = vec![
        entry("one.txt", 1, "needle\nneedle\n"),
        entry("two.txt", 1, "needle\nneedle\n"),
    ];
    let mut q = query("needle");
    q.max_results = 1;
    let engine = SearchEngine::new(q).unwrap();
    let r = engine.search(&entries);
    assert!(r.truncated);
    assert!(r.total_matches >= 1 && r.total_matches <= 4);
    assert_eq!(r.total_matches, 2);
    assert_eq!(r.files_matched, 1);
    assert_eq!(r.matches[0].file, "one.txt");
    assert!(!r.stopped_by_timeout);
}

#[test]
fn scenario_deadline_stops_early() {
    // A one-millisecond deadline over a large synthetic tree: the scan is
    // cut off after the deadline passes, short of the candidate count.
    let body = "lorem ipsum dolor sit amet\n".repeat(40);
    let mut entries = Vec::new();
    for i in 0..2500 {
        entries.push(entry(&format!("file_{i:04}.txt"), 1, &body));
    }
    let mut q = query("needle");
    q.timeout_ms = 1;
    let engine = SearchEngine::new(q).unwrap();
    let r = engine.search(&entries);
    assert!(r.stopped_by_timeout);
    assert!(r.files_searched < 2500);
}

#[test]
fn search_is_deterministic() {
    let make = || {
        vec![
            entry("zeta.txt", 1, "needle one\nneedle two\n"),
            entry("alpha.txt", 1, "a needle\n"),
            entry("mid/beta.txt", 2, "needle\nplain\nneedle\n"),
        ]
    };
    let engine = SearchEngine::new(query("needle")).unwrap();
    let first = engine.search(&make());
    let second = engine.search(&make());
    assert_eq!(first, second);
    // Output is ordered by relative path, whatever the scan order was.
    let files: Vec<&str> = first.matches.iter().map(|f| f.file.as_str()).collect();
    assert_eq!(files, vec!["alpha.txt", "mid/beta.txt", "zeta.txt"]);
}

#[test]
fn context_windows_clamp_and_skip_the_match() {
    let entries = vec![entry(
        "ctx.txt",
        1,
        "needle at top\nmiddle\nneedle in the middle\nafter\nneedle at bottom",
    )];
    let mut q = query("needle");
    q.context_lines = 1;
    let engine = SearchEngine::new(q).unwrap();
    let r = engine.search(&entries);
    let hits = &r.matches[0].matches;
    assert_eq!(hits.len(), 3);
    // First line: context can only follow.
    assert_eq!(hits[0].line_number, 1);
    let nums: Vec<usize> = hits[0].context.iter().map(|c| c.line_number).collect();
    assert_eq!(nums, vec![2]);
    // Middle line: one line on each side, never line 3 itself.
    assert_eq!(hits[1].line_number, 3);
    let nums: Vec<usize> = hits[1].context.iter().map(|c| c.line_number).collect();
    assert_eq!(nums, vec![2, 4]);
    // Last line: context can only precede.
    assert_eq!(hits[2].line_number, 5);
    let nums: Vec<usize> = hits[2].context.iter().map(|c| c.line_number).collect();
    assert_eq!(nums, vec![4]);
}

#[test]
fn glob_filter_selects_file_names() {
    let entries = vec![
        entry("keep.txt", 1, "needle\n"),
        entry("skip.md", 1, "needle\n"),
    ];
    let mut q = query("needle");
    q.file_pattern = "*.txt".to_string();
    let engine = SearchEngine::new(q).unwrap();
    let r = engine.search(&entries);
    assert_eq!(r.files_searched, 1);
    assert_eq!(r.matches[0].file, "keep.txt");
}

#[test]
fn hidden_files_and_directories_are_skipped() {
    let mut dir = entry("sub", 1, "");
    dir.is_file = false;
    let entries = vec![
        dir,
        entry(".hidden.txt", 1, "needle\n"),
        entry("plain.txt", 1, "needle\n"),
    ];
    let engine = SearchEngine::new(query("needle")).unwrap();
    let r = engine.search(&entries);
    assert_eq!(r.files_searched, 1);
    assert_eq!(r.files_matched, 1);
    assert_eq!(r.matches[0].file, "plain.txt");
}

#[test]
fn non_recursive_search_stays_at_depth_one() {
    let entries = vec![
        entry("top.txt", 1, "needle\n"),
        entry("sub/deep.txt", 2, "needle\n"),
    ];
    let mut q = query("needle");
    q.recursive = false;
    let engine = SearchEngine::new(q).unwrap();
    let r = engine.search(&entries);
    assert_eq!(r.files_searched, 1);
    assert_eq!(r.matches[0].file, "top.txt");
}

#[test]
fn oversized_files_are_skipped() {
    let entries = vec![
        entry("small.txt", 1, "needle\n"),
        entry("large.txt", 1, "needle needle needle needle needle\n"),
    ];
    let mut q = query("needle");
    q.max_file_size = 10;
    let engine = SearchEngine::new(q).unwrap();
    let r = engine.search(&entries);
    assert_eq!(r.files_searched, 1);
    assert_eq!(r.matches[0].file, "small.txt");
}

#[test]
fn case_insensitive_search_folds_case() {
    let entries = vec![entry("a.txt", 1, "NEEDLE\nNeedle\nneedle\nnone\n")];
    let mut q = query("needle");
    q.case_sensitive = false;
    let engine = SearchEngine::new(q).unwrap();
    let r = engine.search(&entries);
    assert_eq!(r.total_matches, 3);
}

#[test]
fn literal_mode_escapes_metacharacters() {
    let entries = vec![entry("a.txt", 1, "a+b\naxb\n")];
    let engine = SearchEngine::new(query("a+b")).unwrap();
    let r = engine.search(&entries);
    assert_eq!(r.total_matches, 1);
    assert_eq!(r.matches[0].matches[0].line_number, 1);
}

#[test]
fn regex_mode_uses_the_pattern_as_written() {
    let entries = vec![entry("a.txt", 1, "color\ncolour\ncolouur\n")];
    let mut q = query("colou?r");
    q.is_regex = true;
    let engine = SearchEngine::new(q).unwrap();
    let r = engine.search(&entries);
    assert_eq!(r.total_matches, 2);
}

#[test]
fn invalid_pattern_and_glob_are_request_errors() {
    let mut q = query("(unclosed");
    q.is_regex = true;
    assert!(matches!(SearchEngine::new(q), Err(SearchError::InvalidPattern)));
    let mut q = query("fine");
    q.file_pattern = "[".to_string();
    assert!(matches!(SearchEngine::new(q), Err(SearchError::InvalidGlob)));
}

#[test]
fn match_file_reports_lines_directly() {
    let engine = SearchEngine::new(query("two")).unwrap();
    let fm = engine
        .match_file(&"x.txt".to_string(), &b"one\ntwo\nthree\ntwo\n".to_vec())
        .unwrap();
    assert_eq!(fm.file, "x.txt");
    assert_eq!(fm.matches.len(), 2);
    assert_eq!(fm.matches[0].line_number, 2);
    assert_eq!(fm.matches[1].line_number, 4);
    assert!(engine
        .match_file(&"x.txt".to_string(), &b"nothing\n".to_vec())
        .is_none());
}
