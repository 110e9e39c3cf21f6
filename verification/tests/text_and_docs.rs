use warpseek::{build_document, is_probably_text, FileEntry, MAX_FILE_SIZE};

fn entry(path: &str, name: &str, content: &[u8]) -> FileEntry {
    FileEntry {
        path: path.to_string(),
        name: name.to_string(),
        size: content.len() as u64,
        modified: 0,
        data: Some(content.to_vec()),
    }
}

#[test]
fn plain_ascii_is_text() {
    assert!(is_probably_text(b"hello world"));
}

#[test]
fn nul_byte_is_not_text() {
    assert!(!is_probably_text(b"he\x00llo"));
}

#[test]
fn tab_newline_carriage_return_are_text() {
    assert!(is_probably_text(b"a\tb\nc\rd"));
}

#[test]
fn low_control_byte_is_not_text() {
    assert!(!is_probably_text(b"a\x08b"));
}

#[test]
fn vertical_tab_form_feed_and_escape_are_not_text() {
    assert!(!is_probably_text(&[0x0B, 0x61]));
    assert!(!is_probably_text(&[0x61, 0x0C]));
    assert!(!is_probably_text(b"a\x1b[0m"));
}

#[test]
fn invalid_utf8_is_not_text() {
    assert!(!is_probably_text(&[0xFF, 0xFE, 0x41]));
}

#[test]
fn empty_bytes_are_text() {
    assert!(is_probably_text(b""));
}

#[test]
fn document_from_utf8_file() {
    let doc = build_document(entry("/data/a.txt", "a.txt", b"hello world")).unwrap();
    assert_eq!(doc.path, "/data/a.txt");
    assert_eq!(doc.name, "a.txt");
    assert_eq!(doc.content, "hello world");
    assert_eq!(doc.size, 11);
}

#[test]
fn document_decodes_multibyte_utf8() {
    let doc = build_document(entry("/data/u.txt", "u.txt", "héllo".as_bytes())).unwrap();
    assert_eq!(doc.content, "héllo");
}

#[test]
fn no_document_for_invalid_utf8() {
    assert!(build_document(entry("/data/b.bin", "b.bin", &[0xFF, 0xFE, 0xFD])).is_none());
}

#[test]
fn no_document_for_nul_bytes() {
    assert!(build_document(entry("/data/b.bin", "b.bin", b"bi\x00nary")).is_none());
}

#[test]
fn no_document_for_stray_control_bytes() {
    assert!(build_document(entry("/data/c.bin", "c.bin", &[0x0B, 0x61])).is_none());
}

#[test]
fn no_document_above_size_cap() {
    let mut e = entry("/data/big.txt", "big.txt", b"tiny");
    e.size = MAX_FILE_SIZE + 1;
    assert!(build_document(e).is_none());
}

#[test]
fn document_at_size_cap_is_kept() {
    let mut e = entry("/data/edge.txt", "edge.txt", b"ok");
    e.size = MAX_FILE_SIZE;
    assert!(build_document(e).is_some());
}

#[test]
fn no_document_for_unreadable_file() {
    let e = FileEntry {
        path: "/data/gone.txt".to_string(),
        name: "gone.txt".to_string(),
        size: 1,
        modified: 0,
        data: None,
    };
    assert!(build_document(e).is_none());
}
