use warpseek::{FileEntry, IndexBuilder, IndexField, IndexState};

fn entry(path: &str, name: &str, content: &[u8], modified: i64) -> FileEntry {
    FileEntry {
        path: path.to_string(),
        name: name.to_string(),
        size: content.len() as u64,
        modified,
        data: Some(content.to_vec()),
    }
}

fn state() -> IndexState {
    let mut b = IndexBuilder::new(3);
    b.submit(entry("/r/alpha.txt", "alpha.txt", b"apple banana", 100));
    b.submit(entry("/r/beta.md", "beta.md", b"banana cherry", 200));
    b.submit(entry("/r/gamma.txt", "gamma.txt", b"cherry apple", 300));
    b.finish()
}

// committed order is by path: alpha.txt (0), beta.md (1), gamma.txt (2)

#[test]
fn content_postings_list_matching_documents_in_order() {
    let st = state();
    assert_eq!(st.term_postings(IndexField::Content, "banana"), vec![0, 1]);
    assert_eq!(st.term_postings(IndexField::Content, "apple"), vec![0, 2]);
    assert_eq!(st.term_postings(IndexField::Content, "durian"), Vec::<usize>::new());
}

#[test]
fn content_postings_fold_case() {
    let st = state();
    assert_eq!(st.term_postings(IndexField::Content, "APPLE"), vec![0, 2]);
}

#[test]
fn content_postings_handle_unicode_terms() {
    let mut b = IndexBuilder::new(1);
    b.submit(entry("/r/u.txt", "u.txt", "größe zählt".as_bytes(), 1));
    let st = b.finish();
    assert_eq!(st.term_postings(IndexField::Content, "größe"), vec![0]);
    assert_eq!(st.term_postings(IndexField::Content, "GRÖSSE"), Vec::<usize>::new());
    assert_eq!(st.term_postings(IndexField::Content, "GRÖßE"), vec![0]);
}

#[test]
fn name_postings_use_name_tokens() {
    let st = state();
    assert_eq!(st.term_postings(IndexField::Name, "alpha"), vec![0]);
    assert_eq!(st.term_postings(IndexField::Name, "md"), vec![1]);
    assert_eq!(st.term_postings(IndexField::Name, "txt"), vec![0, 2]);
}

#[test]
fn path_field_matches_exactly_without_tokenizing() {
    let st = state();
    assert_eq!(st.term_postings(IndexField::Path, "/r/beta.md"), vec![1]);
    assert_eq!(st.term_postings(IndexField::Path, "beta"), Vec::<usize>::new());
}

#[test]
fn modified_field_answers_range_lookups() {
    let st = state();
    assert_eq!(st.modified_postings(150, 350), vec![1, 2]);
    assert_eq!(st.modified_postings(100, 100), vec![0]);
    assert_eq!(st.modified_postings(400, 500), Vec::<usize>::new());
    assert_eq!(st.modified_postings(0, 500), vec![0, 1, 2]);
}
