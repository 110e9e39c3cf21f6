//! Local search engine core: document classification, an in-memory index
//! store with atomic commit, fuzzy filename lookup, query execution and
//! ranking, and the watch/rebuild scheduler's state machine.

pub mod config;
pub mod docs;
pub mod engine;
pub mod fuzzy;
pub mod laws;
pub mod order;
pub mod pattern;
pub mod postings;
pub mod query;
pub mod store;
pub mod text;
pub mod tok;
pub mod watch;

pub use config::Config;
pub use docs::{build_document, Document, FileEntry, MAX_FILE_SIZE};
pub use engine::{Bookmark, SearchEngine, SearchError, SearchFilters, SearchHistory};
pub use postings::IndexField;
pub use query::{SearchQuery, SearchResult, SearchType};
pub use store::{IndexBuilder, IndexState};
pub use text::is_probably_text;
pub use watch::{watch_start, WatchAction, WatchEvent, WatchState};
