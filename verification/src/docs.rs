//! Candidate files and the documents built from them.
//!
//! A walker hands the engine one `FileEntry` per discovered file; the
//! document builder turns an entry into a `Document` exactly when the file is
//! readable, within the size cap, and passes the text heuristic.

use vstd::prelude::*;
use vstd::utf8::{decode_utf8, valid_utf8};

use crate::text::{bytes_look_textual, decode_text, is_probably_text};

verus! {

/// Files above this many bytes are excluded from content indexing.
pub const MAX_FILE_SIZE: u64 = 20 * 1024 * 1024;

/// One discovered candidate file, as plain values: `data` is `None` when the
/// file could not be read.
pub struct FileEntry {
    pub path: String,
    pub name: String,
    pub size: u64,
    pub modified: i64,
    pub data: Option<Vec<u8>>,
}

/// Mathematical model of a candidate file.
pub struct EntryModel {
    pub path: Seq<char>,
    pub name: Seq<char>,
    pub size: u64,
    pub modified: i64,
    pub data: Option<Seq<u8>>,
}

impl View for FileEntry {
    type V = EntryModel;

    open spec fn view(&self) -> EntryModel {
        EntryModel {
            path: self.path@,
            name: self.name@,
            size: self.size,
            modified: self.modified,
            data: if self.data is Some {
                Some(self.data.unwrap()@)
            } else {
                None
            },
        }
    }
}

/// One indexed record: a file that existed at scan time and passed the
/// size and text filters.
pub struct Document {
    pub path: String,
    pub name: String,
    pub content: String,
    pub modified: i64,
    pub size: u64,
}

/// Mathematical model of an indexed record.
pub struct DocModel {
    pub path: Seq<char>,
    pub name: Seq<char>,
    pub content: Seq<char>,
    pub modified: i64,
    pub size: u64,
}

impl View for Document {
    type V = DocModel;

    open spec fn view(&self) -> DocModel {
        DocModel {
            path: self.path@,
            name: self.name@,
            content: self.content@,
            modified: self.modified,
            size: self.size,
        }
    }
}

impl DeepView for Document {
    type V = DocModel;

    open spec fn deep_view(&self) -> DocModel {
        self.view()
    }
}

/// When an entry is materialized into a document: the file was readable, at
/// most the size cap, free of disqualifying control bytes, and valid UTF-8.
pub open spec fn entry_passes(e: EntryModel) -> bool {
    &&& e.data is Some
    &&& e.size <= MAX_FILE_SIZE
    &&& bytes_look_textual(e.data.unwrap())
    &&& valid_utf8(e.data.unwrap())
}

/// The document an accepted entry becomes.
pub open spec fn doc_of(e: EntryModel) -> DocModel {
    DocModel {
        path: e.path,
        name: e.name,
        content: decode_utf8(e.data.unwrap()),
        modified: e.modified,
        size: e.size,
    }
}

/// Classifies one candidate file: a document comes back exactly when the
/// entry passes the size and text filters, and it holds the decoded content.
pub fn build_document(entry: FileEntry) -> (r: Option<Document>)
    ensures
        r is Some <==> entry_passes(entry@),
        r is Some ==> r.unwrap()@ == doc_of(entry@),
{
    let FileEntry { path, name, size, modified, data } = entry;
    let bytes = match data {
        Some(b) => b,
        None => {
            return None;
        },
    };
    if size > MAX_FILE_SIZE {
        return None;
    }
    if !is_probably_text(bytes.as_slice()) {
        return None;
    }
    let content = match decode_text(bytes) {
        Some(s) => s,
        None => {
            return None;
        },
    };
    Some(Document { path, name, content, modified, size })
}

} // verus!
