use warpseek::{
    FileEntry, IndexBuilder, SearchEngine, SearchError, SearchQuery, SearchType,
};

fn entry(path: &str, name: &str, content: &[u8]) -> FileEntry {
    FileEntry {
        path: path.to_string(),
        name: name.to_string(),
        size: content.len() as u64,
        modified: 0,
        data: Some(content.to_vec()),
    }
}

fn committed_engine(entries: Vec<FileEntry>) -> SearchEngine {
    let mut b = IndexBuilder::new(entries.len());
    for e in entries {
        b.submit(e);
    }
    let mut engine = SearchEngine::new().unwrap();
    engine.commit(b.finish());
    engine
}

fn full_text(text: &str) -> SearchQuery {
    SearchQuery {
        query: text.to_string(),
        search_type: SearchType::FullText,
        file_types: Vec::new(),
        max_results: 50,
        case_sensitive: false,
        use_regex: false,
        modified_after: None,
        modified_before: None,
        size_min: None,
        size_max: None,
    }
}

#[test]
fn scores_rank_by_term_frequency() {
    let mut engine = committed_engine(vec![
        entry("/r/one.txt", "one.txt", b"apple banana apple"),
        entry("/r/two.txt", "two.txt", b"apple"),
        entry("/r/three.txt", "three.txt", b"banana banana banana"),
    ]);
    let hits = engine.search(full_text("apple")).unwrap();
    let paths: Vec<&str> = hits.iter().map(|h| h.path.as_str()).collect();
    assert_eq!(paths, vec!["/r/one.txt", "/r/two.txt"]);
    assert_eq!(hits[0].score, 2);
    assert_eq!(hits[1].score, 1);
}

#[test]
fn equal_scores_break_ties_by_ascending_path() {
    let mut engine = committed_engine(vec![
        entry("/r/bb.txt", "bb.txt", b"cherry"),
        entry("/r/aa.txt", "aa.txt", b"cherry"),
    ]);
    let hits = engine.search(full_text("cherry")).unwrap();
    let paths: Vec<&str> = hits.iter().map(|h| h.path.as_str()).collect();
    assert_eq!(paths, vec!["/r/aa.txt", "/r/bb.txt"]);
}

#[test]
fn results_never_exceed_the_cap() {
    let mut engine = committed_engine(vec![
        entry("/r/a.txt", "a.txt", b"word"),
        entry("/r/b.txt", "b.txt", b"word"),
        entry("/r/c.txt", "c.txt", b"word"),
    ]);
    let mut q = full_text("word");
    q.max_results = 2;
    let hits = engine.search(q).unwrap();
    assert_eq!(hits.len(), 2);
    assert_eq!(hits[0].path, "/r/a.txt");
    assert_eq!(hits[1].path, "/r/b.txt");
}

#[test]
fn result_cap_of_zero_returns_nothing() {
    let mut engine = committed_engine(vec![entry("/r/a.txt", "a.txt", b"word")]);
    let mut q = full_text("word");
    q.max_results = 0;
    assert_eq!(engine.search(q).unwrap().len(), 0);
}

#[test]
fn round_trip_unique_term_returns_its_file_on_top() {
    let mut engine = committed_engine(vec![
        entry("/r/one.txt", "one.txt", b"common zebra common"),
        entry("/r/two.txt", "two.txt", b"common common"),
    ]);
    let hits = engine.search(full_text("zebra")).unwrap();
    assert_eq!(hits.len(), 1);
    assert_eq!(hits[0].path, "/r/one.txt");
}

#[test]
fn rebuild_without_changes_answers_identically() {
    let files = || {
        vec![
            entry("/r/one.txt", "one.txt", b"alpha beta"),
            entry("/r/two.txt", "two.txt", b"beta gamma"),
        ]
    };
    let mut first = committed_engine(files());
    let mut second = committed_engine(files());
    let a = first.search(full_text("beta")).unwrap();
    let b = second.search(full_text("beta")).unwrap();
    assert_eq!(a.len(), b.len());
    for (x, y) in a.iter().zip(b.iter()) {
        assert_eq!(x.path, y.path);
        assert_eq!(x.score, y.score);
    }
}

#[test]
fn terms_combine_disjunctively() {
    let mut engine = committed_engine(vec![
        entry("/r/a.txt", "a.txt", b"apple"),
        entry("/r/b.txt", "b.txt", b"banana"),
        entry("/r/c.txt", "c.txt", b"cherry"),
    ]);
    let hits = engine.search(full_text("apple banana")).unwrap();
    let paths: Vec<&str> = hits.iter().map(|h| h.path.as_str()).collect();
    assert_eq!(paths, vec!["/r/a.txt", "/r/b.txt"]);
}

#[test]
fn query_matches_names_as_well_as_content() {
    let mut engine = committed_engine(vec![
        entry("/r/apple.txt", "apple.txt", b"nothing else"),
    ]);
    let hits = engine.search(full_text("apple")).unwrap();
    assert_eq!(hits.len(), 1);
    assert_eq!(hits[0].name, "apple.txt");
}

#[test]
fn filename_mode_ignores_content() {
    let mut engine = committed_engine(vec![
        entry("/r/apple.txt", "apple.txt", b"pear"),
        entry("/r/pear.txt", "pear.txt", b"apple"),
    ]);
    let mut q = full_text("apple");
    q.search_type = SearchType::Filename;
    let hits = engine.search(q).unwrap();
    assert_eq!(hits.len(), 1);
    assert_eq!(hits[0].path, "/r/apple.txt");
}

#[test]
fn content_mode_ignores_names() {
    let mut engine = committed_engine(vec![
        entry("/r/apple.txt", "apple.txt", b"pear"),
        entry("/r/pear.txt", "pear.txt", b"apple"),
    ]);
    let mut q = full_text("apple");
    q.search_type = SearchType::Content;
    let hits = engine.search(q).unwrap();
    assert_eq!(hits.len(), 1);
    assert_eq!(hits[0].path, "/r/pear.txt");
}

#[test]
fn unicode_words_are_searchable_terms() {
    let mut engine = committed_engine(vec![
        entry("/r/fr.txt", "fr.txt", "héllo wörld".as_bytes()),
        entry("/r/en.txt", "en.txt", b"hello world"),
    ]);
    let hits = engine.search(full_text("héllo")).unwrap();
    assert_eq!(hits.len(), 1);
    assert_eq!(hits[0].path, "/r/fr.txt");
    // Unicode case folding applies to terms
    let upper = engine.search(full_text("HÉLLO")).unwrap();
    assert_eq!(upper.len(), 1);
    assert_eq!(upper[0].path, "/r/fr.txt");
}

#[test]
fn case_folding_applies_unless_case_sensitive() {
    let mut engine = committed_engine(vec![entry("/r/a.txt", "a.txt", b"Apple Pie")]);
    let hits = engine.search(full_text("apple")).unwrap();
    assert_eq!(hits.len(), 1);
    let mut strict = full_text("apple");
    strict.case_sensitive = true;
    let none = engine.search(strict).unwrap();
    assert_eq!(none.len(), 0);
    let mut exact = full_text("Apple");
    exact.case_sensitive = true;
    assert_eq!(engine.search(exact).unwrap().len(), 1);
}

#[test]
fn pattern_mode_matches_literal_patterns() {
    let mut engine = committed_engine(vec![
        entry("/r/a.txt", "a.txt", b"hello world"),
        entry("/r/b.txt", "b.txt", b"other text"),
    ]);
    let mut q = full_text("lo wor");
    q.use_regex = true;
    let hits = engine.search(q).unwrap();
    assert_eq!(hits.len(), 1);
    assert_eq!(hits[0].path, "/r/a.txt");
    assert_eq!(hits[0].score, 1);
}

#[test]
fn pattern_dot_matches_any_one_character() {
    let mut engine = committed_engine(vec![
        entry("/r/a.txt", "a.txt", b"hello"),
        entry("/r/b.txt", "b.txt", b"hllo"),
    ]);
    let mut q = full_text("h.llo");
    q.search_type = SearchType::Regex;
    let hits = engine.search(q).unwrap();
    assert_eq!(hits.len(), 1);
    assert_eq!(hits[0].path, "/r/a.txt");
}

#[test]
fn pattern_backslash_escapes_the_next_character() {
    let mut engine = committed_engine(vec![
        entry("/r/dotted.txt", "dotted.txt", b"a.b"),
        entry("/r/plain.txt", "plain.txt", b"axb"),
    ]);
    let mut q = full_text("a\\.b");
    q.use_regex = true;
    let hits = engine.search(q).unwrap();
    assert_eq!(hits.len(), 1);
    assert_eq!(hits[0].path, "/r/dotted.txt");
}

#[test]
fn malformed_pattern_is_a_syntax_error() {
    let mut engine = committed_engine(vec![entry("/r/a.txt", "a.txt", b"text")]);
    let mut q = full_text("abc\\");
    q.use_regex = true;
    match engine.search(q) {
        Err(SearchError::QuerySyntax { input }) => assert_eq!(input, "abc\\"),
        _ => panic!("expected a query syntax error for the trailing backslash"),
    }
}

#[test]
fn pattern_mode_folds_case_unless_asked_not_to() {
    let mut engine = committed_engine(vec![entry("/r/a.txt", "a.txt", b"Hello World")]);
    let mut q = full_text("h.llo");
    q.search_type = SearchType::Regex;
    assert_eq!(engine.search(q).unwrap().len(), 1);
    let mut strict = full_text("h.llo");
    strict.search_type = SearchType::Regex;
    strict.case_sensitive = true;
    assert_eq!(engine.search(strict).unwrap().len(), 0);
}

#[test]
fn regex_mode_without_match_returns_nothing() {
    let mut engine = committed_engine(vec![entry("/r/a.txt", "a.txt", b"hello world")]);
    let mut q = full_text("worldly");
    q.search_type = SearchType::Regex;
    assert_eq!(engine.search(q).unwrap().len(), 0);
}

#[test]
fn file_type_filter_constrains_candidates() {
    let mut engine = committed_engine(vec![
        entry("/r/a.txt", "a.txt", b"needle"),
        entry("/r/b.md", "b.md", b"needle"),
    ]);
    let mut q = full_text("needle");
    q.file_types = vec!["md".to_string()];
    let hits = engine.search(q).unwrap();
    assert_eq!(hits.len(), 1);
    assert_eq!(hits[0].path, "/r/b.md");
    assert_eq!(hits[0].file_type, "md");
}

#[test]
fn modified_range_filter_constrains_candidates() {
    let mut old_file = entry("/r/old.txt", "old.txt", b"needle");
    old_file.modified = 100;
    let mut new_file = entry("/r/new.txt", "new.txt", b"needle");
    new_file.modified = 200;
    let mut engine = committed_engine(vec![old_file, new_file]);
    let mut q = full_text("needle");
    q.modified_after = Some(150);
    let hits = engine.search(q).unwrap();
    assert_eq!(hits.len(), 1);
    assert_eq!(hits[0].path, "/r/new.txt");
    let mut q2 = full_text("needle");
    q2.modified_before = Some(150);
    let hits2 = engine.search(q2).unwrap();
    assert_eq!(hits2.len(), 1);
    assert_eq!(hits2[0].path, "/r/old.txt");
}

#[test]
fn size_range_filter_constrains_candidates() {
    let mut engine = committed_engine(vec![
        entry("/r/small.txt", "small.txt", b"needle"),
        entry("/r/large.txt", "large.txt", b"needle and much more text here"),
    ]);
    let mut q = full_text("needle");
    q.size_min = Some(10);
    let hits = engine.search(q).unwrap();
    assert_eq!(hits.len(), 1);
    assert_eq!(hits[0].path, "/r/large.txt");
    let mut q2 = full_text("needle");
    q2.size_max = Some(10);
    let hits2 = engine.search(q2).unwrap();
    assert_eq!(hits2.len(), 1);
    assert_eq!(hits2[0].path, "/r/small.txt");
}

#[test]
fn search_before_any_commit_is_index_not_found() {
    let mut engine = SearchEngine::new().unwrap();
    assert!(matches!(
        engine.search(full_text("anything")),
        Err(SearchError::IndexNotFound { .. })
    ));
}

#[test]
fn index_not_found_names_the_expected_location() {
    let mut engine = SearchEngine::new().unwrap();
    engine.set_index_location("/var/idx".to_string());
    match engine.search(full_text("anything")) {
        Err(SearchError::IndexNotFound { location }) => assert_eq!(location, "/var/idx"),
        _ => panic!("expected the index-not-found error"),
    }
    match engine.fuzzy("a", 5) {
        Err(SearchError::IndexNotFound { location }) => assert_eq!(location, "/var/idx"),
        _ => panic!("expected the index-not-found error"),
    }
}

#[test]
fn query_without_terms_is_a_syntax_error() {
    let mut engine = committed_engine(vec![entry("/r/a.txt", "a.txt", b"text")]);
    match engine.search(full_text("!!! ???")) {
        Err(SearchError::QuerySyntax { input }) => assert_eq!(input, "!!! ???"),
        other => panic!("expected a query syntax error, got {:?}", other.map(|v| v.len())),
    }
}

#[test]
fn empty_pattern_query_is_a_syntax_error() {
    let mut engine = committed_engine(vec![entry("/r/a.txt", "a.txt", b"text")]);
    let mut q = full_text("");
    q.use_regex = true;
    assert!(matches!(
        engine.search(q),
        Err(SearchError::QuerySyntax { .. })
    ));
}

#[test]
fn error_descriptions_name_the_problem() {
    assert_eq!(
        SearchError::IndexNotFound { location: "/var/idx".to_string() }.describe(),
        "no index found at /var/idx; build one first"
    );
    assert_eq!(
        SearchError::QuerySyntax { input: "((".to_string() }.describe(),
        "cannot parse query: (("
    );
    assert_eq!(
        SearchError::NoRootsConfigured.describe(),
        "no roots configured; register one first"
    );
}

#[test]
fn content_is_never_reproduced_in_results() {
    let mut engine = committed_engine(vec![entry("/r/a.txt", "a.txt", b"secret body")]);
    let hits = engine.search(full_text("secret")).unwrap();
    assert_eq!(hits[0].content_preview, "");
    assert_eq!(hits[0].id, hits[0].path);
}
