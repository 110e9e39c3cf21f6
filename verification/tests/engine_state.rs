use warpseek::{
    Bookmark, FileEntry, IndexBuilder, SearchEngine, SearchFilters, SearchQuery, SearchType,
};

fn entry(path: &str, name: &str, content: &[u8]) -> FileEntry {
    FileEntry {
        path: path.to_string(),
        name: name.to_string(),
        size: content.len() as u64,
        modified: 0,
        data: Some(content.to_vec()),
    }
}

fn full_text(text: &str) -> SearchQuery {
    SearchQuery {
        query: text.to_string(),
        search_type: SearchType::FullText,
        file_types: Vec::new(),
        max_results: 50,
        case_sensitive: false,
        use_regex: false,
        modified_after: None,
        modified_before: None,
        size_min: None,
        size_max: None,
    }
}

#[test]
fn fresh_engine_has_stock_defaults() {
    let engine = SearchEngine::new().unwrap();
    assert_eq!(engine.get_search_history().unwrap().len(), 0);
    assert_eq!(engine.get_bookmarks().unwrap().len(), 0);
    let filters = engine.get_filters().unwrap();
    assert_eq!(filters.file_extensions, vec!["txt", "md", "rs", "js", "py"]);
    assert_eq!(filters.exclude_patterns, vec!["node_modules", ".git"]);
    assert_eq!(filters.include_patterns.len(), 0);
    assert_eq!(filters.max_file_size, 20 * 1024 * 1024);
    assert_eq!(filters.min_file_size, 0);
}

#[test]
fn history_records_queries_newest_first() {
    let mut b = IndexBuilder::new(1);
    b.submit(entry("/r/a.txt", "a.txt", b"text"));
    let mut engine = SearchEngine::new().unwrap();
    engine.commit(b.finish());
    let _ = engine.search(full_text("first"));
    let _ = engine.search(full_text("second"));
    let history = engine.get_search_history().unwrap();
    assert_eq!(history.len(), 2);
    assert_eq!(history[0].query, "second");
    assert_eq!(history[1].query, "first");
}

#[test]
fn history_records_failing_queries_too() {
    let mut engine = SearchEngine::new().unwrap();
    let _ = engine.search(full_text("unanswered"));
    let history = engine.get_search_history().unwrap();
    assert_eq!(history.len(), 1);
    assert_eq!(history[0].query, "unanswered");
}

#[test]
fn history_is_truncated_at_its_cap() {
    let mut engine = SearchEngine::new().unwrap();
    for i in 0..105 {
        let _ = engine.search(full_text(&format!("query{}", i)));
    }
    let history = engine.get_search_history().unwrap();
    assert_eq!(history.len(), 100);
    assert_eq!(history[0].query, "query104");
    assert_eq!(history[99].query, "query5");
}

#[test]
fn bookmarks_are_kept_in_insertion_order() {
    let mut engine = SearchEngine::new().unwrap();
    engine
        .add_bookmark(Bookmark {
            id: "1".to_string(),
            name: "notes".to_string(),
            path: "/r/notes.txt".to_string(),
            created: 11,
        })
        .unwrap();
    engine
        .add_bookmark(Bookmark {
            id: "2".to_string(),
            name: "todo".to_string(),
            path: "/r/todo.txt".to_string(),
            created: 22,
        })
        .unwrap();
    let marks = engine.get_bookmarks().unwrap();
    assert_eq!(marks.len(), 2);
    assert_eq!(marks[0].id, "1");
    assert_eq!(marks[0].path, "/r/notes.txt");
    assert_eq!(marks[1].name, "todo");
    assert_eq!(marks[1].created, 22);
}

#[test]
fn update_filters_replaces_the_stored_defaults() {
    let mut engine = SearchEngine::new().unwrap();
    engine
        .update_filters(SearchFilters {
            file_extensions: vec!["toml".to_string()],
            exclude_patterns: Vec::new(),
            include_patterns: vec!["src".to_string()],
            max_file_size: 1024,
            min_file_size: 1,
        })
        .unwrap();
    let filters = engine.get_filters().unwrap();
    assert_eq!(filters.file_extensions, vec!["toml"]);
    assert_eq!(filters.exclude_patterns.len(), 0);
    assert_eq!(filters.include_patterns, vec!["src"]);
    assert_eq!(filters.max_file_size, 1024);
    assert_eq!(filters.min_file_size, 1);
}

#[test]
fn commit_replaces_the_visible_state_whole() {
    let mut engine = SearchEngine::new().unwrap();
    let mut b1 = IndexBuilder::new(1);
    b1.submit(entry("/r/a.txt", "a.txt", b"alpha"));
    engine.commit(b1.finish());
    assert_eq!(engine.search(full_text("alpha")).unwrap().len(), 1);

    let mut b2 = IndexBuilder::new(1);
    b2.submit(entry("/r/b.txt", "b.txt", b"beta"));
    engine.commit(b2.finish());
    assert_eq!(engine.search(full_text("alpha")).unwrap().len(), 0);
    assert_eq!(engine.search(full_text("beta")).unwrap().len(), 1);
}

// End-to-end: a text file and a binary file under one root. The text file is
// searchable; the binary file never reaches the content index but its name
// is still in the fuzzy set; a name-only query for it finds no document.
#[test]
fn scenario_text_and_binary_under_one_root() {
    let mut b = IndexBuilder::new(2);
    b.submit(entry("/data/a.txt", "a.txt", b"hello world"));
    b.submit(entry("/data/b.bin", "b.bin", b"\x00binary\x00"));
    let mut engine = SearchEngine::new().unwrap();
    engine.commit(b.finish());

    let hits = engine.search(full_text("hello")).unwrap();
    let paths: Vec<&str> = hits.iter().map(|h| h.path.as_str()).collect();
    assert_eq!(paths, vec!["/data/a.txt"]);

    assert_eq!(engine.fuzzy("b.bin", 10).unwrap(), vec!["b.bin".to_string()]);

    let mut names_only = full_text("b.bin");
    names_only.search_type = SearchType::Filename;
    assert_eq!(engine.search(names_only).unwrap().len(), 0);
}
