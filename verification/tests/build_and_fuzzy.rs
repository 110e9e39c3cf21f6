use warpseek::{FileEntry, IndexBuilder, SearchEngine, SearchError, MAX_FILE_SIZE};

fn entry(path: &str, name: &str, content: &[u8]) -> FileEntry {
    FileEntry {
        path: path.to_string(),
        name: name.to_string(),
        size: content.len() as u64,
        modified: 0,
        data: Some(content.to_vec()),
    }
}

#[test]
fn committed_paths_are_unique() {
    let mut b = IndexBuilder::new(3);
    b.submit(entry("/r/a.txt", "a.txt", b"one"));
    b.submit(entry("/r/a.txt", "a.txt", b"two"));
    b.submit(entry("/r/b.txt", "b.txt", b"three"));
    let state = b.finish();
    assert_eq!(state.docs.len(), 2);
    assert_eq!(state.docs[0].path, "/r/a.txt");
    assert_eq!(state.docs[1].path, "/r/b.txt");
    // the first submission of a path wins
    assert_eq!(state.docs[0].content, "one");
}

#[test]
fn docs_come_out_sorted_by_path() {
    let mut b = IndexBuilder::new(3);
    b.submit(entry("/r/c.txt", "c.txt", b"c"));
    b.submit(entry("/r/a.txt", "a.txt", b"a"));
    b.submit(entry("/r/b.txt", "b.txt", b"b"));
    let state = b.finish();
    let paths: Vec<&str> = state.docs.iter().map(|d| d.path.as_str()).collect();
    assert_eq!(paths, vec!["/r/a.txt", "/r/b.txt", "/r/c.txt"]);
}

#[test]
fn oversized_file_keeps_its_name_in_the_fuzzy_set() {
    let mut big = entry("/r/big.log", "big.log", b"payload");
    big.size = MAX_FILE_SIZE + 1;
    let mut b = IndexBuilder::new(2);
    b.submit(big);
    b.submit(entry("/r/a.txt", "a.txt", b"text"));
    let state = b.finish();
    assert_eq!(state.docs.len(), 1);
    assert_eq!(state.docs[0].path, "/r/a.txt");
    assert!(state.names.iter().any(|n| n == "big.log"));
}

#[test]
fn binary_file_keeps_its_name_in_the_fuzzy_set() {
    let mut b = IndexBuilder::new(1);
    b.submit(entry("/r/b.bin", "b.bin", b"\x00\x01"));
    let state = b.finish();
    assert_eq!(state.docs.len(), 0);
    assert_eq!(state.names.len(), 1);
    assert_eq!(state.names[0], "b.bin");
}

#[test]
fn names_are_sorted_and_deduplicated() {
    let mut b = IndexBuilder::new(3);
    b.submit(entry("/r/x/notes.txt", "notes.txt", b"x"));
    b.submit(entry("/r/y/notes.txt", "notes.txt", b"y"));
    b.submit(entry("/r/a.txt", "a.txt", b"a"));
    let state = b.finish();
    assert_eq!(state.names, vec!["a.txt".to_string(), "notes.txt".to_string()]);
}

#[test]
fn builder_reports_progress() {
    let mut b = IndexBuilder::new(2);
    assert_eq!(b.processed(), 0);
    assert_eq!(b.total(), 2);
    b.submit(entry("/r/a.txt", "a.txt", b"a"));
    assert_eq!(b.processed(), 1);
    b.submit(entry("/r/b.txt", "b.txt", b"b"));
    assert_eq!(b.processed(), 2);
}

fn committed_engine(entries: Vec<FileEntry>) -> SearchEngine {
    let mut b = IndexBuilder::new(entries.len());
    for e in entries {
        b.submit(e);
    }
    let mut engine = SearchEngine::new().unwrap();
    engine.commit(b.finish());
    engine
}

#[test]
fn fuzzy_results_sorted_ascending_and_capped() {
    let engine = committed_engine(vec![
        entry("/r/readme_old.txt", "readme_old.txt", b"x"),
        entry("/r/README.md", "README.md", b"x"),
        entry("/r/notes.txt", "notes.txt", b"x"),
    ]);
    let hits = engine.fuzzy("readme", 10).unwrap();
    assert_eq!(hits, vec!["README.md".to_string(), "readme_old.txt".to_string()]);
    let capped = engine.fuzzy("readme", 1).unwrap();
    assert_eq!(capped, vec!["README.md".to_string()]);
}

#[test]
fn fuzzy_matching_folds_case_both_ways() {
    let engine = committed_engine(vec![entry("/r/README.md", "README.md", b"x")]);
    assert_eq!(engine.fuzzy("readme", 5).unwrap().len(), 1);
    assert_eq!(engine.fuzzy("ReadMe", 5).unwrap().len(), 1);
    assert_eq!(engine.fuzzy("nothere", 5).unwrap().len(), 0);
}

#[test]
fn fuzzy_empty_pattern_matches_every_name() {
    let engine = committed_engine(vec![
        entry("/r/a.txt", "a.txt", b"x"),
        entry("/r/b.txt", "b.txt", b"x"),
    ]);
    assert_eq!(engine.fuzzy("", 10).unwrap().len(), 2);
}

#[test]
fn fuzzy_cap_of_zero_returns_nothing() {
    let engine = committed_engine(vec![entry("/r/a.txt", "a.txt", b"x")]);
    assert_eq!(engine.fuzzy("a", 0).unwrap().len(), 0);
}

#[test]
fn fuzzy_pattern_longer_than_any_name_matches_nothing() {
    let engine = committed_engine(vec![entry("/r/a.txt", "a.txt", b"x")]);
    assert_eq!(engine.fuzzy("a_very_long_pattern_indeed", 5).unwrap().len(), 0);
}

#[test]
fn fuzzy_before_any_commit_is_index_not_found() {
    let engine = SearchEngine::new().unwrap();
    assert!(matches!(engine.fuzzy("x", 5), Err(SearchError::IndexNotFound { .. })));
}
