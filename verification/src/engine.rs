//! The owned engine object: committed index state, search history,
//! bookmarks, and stored filter defaults, behind one explicitly-owned value.
//!
//! A query never observes a partially built index: a build cycle's state
//! becomes visible only through `commit`, which replaces the committed state
//! whole.

use vstd::prelude::*;

use crate::fuzzy::{fuzzy_matches, fuzzy_query, take_up_to};
use crate::laws::{lemma_fuzzy_bounded_and_sorted, lemma_query_results_ordered};
use crate::order::lex_le;
use crate::query::{
    execute_query, query_results, query_well_formed, QueryModel, SearchQuery, SearchResult,
    SearchType,
};
use crate::pattern::parse_pattern_exec;
use crate::store::{state_wf, IndexState, StateModel};
use crate::tok::{lower_of, lowercase, tokenize};
use crate::docs::MAX_FILE_SIZE;

verus! {

/// The engine's error taxonomy. A missing configuration is not here: it is
/// treated as the empty default, not as an error.
#[derive(Debug)]
pub enum SearchError {
    /// A query arrived before any successful build; carries the location
    /// where the index was expected.
    IndexNotFound { location: String },
    /// The query string cannot be parsed; it is carried for the caller.
    QuerySyntax { input: String },
    /// Watching was requested with no registered root.
    NoRootsConfigured,
}

impl SearchError {
    /// A short account of the error for display.
    pub fn describe(&self) -> (r: String)
        ensures
            self matches SearchError::IndexNotFound { location } ==> r@ == "no index found at "@
                + location@ + "; build one first"@,
            self matches SearchError::QuerySyntax { input } ==> r@ == "cannot parse query: "@
                + input@,
            self is NoRootsConfigured ==> r@ == "no roots configured; register one first"@,
    {
        match self {
            SearchError::IndexNotFound { location } => {
                let msg = "no index found at ".to_owned();
                msg.concat(location.as_str()).concat("; build one first")
            },
            SearchError::QuerySyntax { input } => {
                let msg = "cannot parse query: ".to_owned();
                msg.concat(input.as_str())
            },
            SearchError::NoRootsConfigured => "no roots configured; register one first".to_owned(),
        }
    }
}

/// The most recent queries, newest first, capped at `max_entries`.
pub struct SearchHistory {
    pub queries: Vec<SearchQuery>,
    pub max_entries: usize,
}

pub struct HistoryModel {
    pub queries: Seq<QueryModel>,
    pub max_entries: usize,
}

impl View for SearchHistory {
    type V = HistoryModel;

    open spec fn view(&self) -> HistoryModel {
        HistoryModel { queries: self.queries.deep_view(), max_entries: self.max_entries }
    }
}

/// A place the user marked to come back to.
pub struct Bookmark {
    pub id: String,
    pub name: String,
    pub path: String,
    pub created: i64,
}

pub struct BookmarkModel {
    pub id: Seq<char>,
    pub name: Seq<char>,
    pub path: Seq<char>,
    pub created: i64,
}

impl View for Bookmark {
    type V = BookmarkModel;

    open spec fn view(&self) -> BookmarkModel {
        BookmarkModel { id: self.id@, name: self.name@, path: self.path@, created: self.created }
    }
}

impl DeepView for Bookmark {
    type V = BookmarkModel;

    open spec fn deep_view(&self) -> BookmarkModel {
        self.view()
    }
}

impl Clone for Bookmark {
    fn clone(&self) -> (res: Self)
        ensures
            res == *self,
    {
        Bookmark {
            id: self.id.clone(),
            name: self.name.clone(),
            path: self.path.clone(),
            created: self.created,
        }
    }
}

/// Stored filter defaults a front end may keep alongside its queries.
pub struct SearchFilters {
    pub file_extensions: Vec<String>,
    pub exclude_patterns: Vec<String>,
    pub include_patterns: Vec<String>,
    pub max_file_size: u64,
    pub min_file_size: u64,
}

pub struct FiltersModel {
    pub file_extensions: Seq<Seq<char>>,
    pub exclude_patterns: Seq<Seq<char>>,
    pub include_patterns: Seq<Seq<char>>,
    pub max_file_size: u64,
    pub min_file_size: u64,
}

impl View for SearchFilters {
    type V = FiltersModel;

    open spec fn view(&self) -> FiltersModel {
        FiltersModel {
            file_extensions: self.file_extensions.deep_view(),
            exclude_patterns: self.exclude_patterns.deep_view(),
            include_patterns: self.include_patterns.deep_view(),
            max_file_size: self.max_file_size,
            min_file_size: self.min_file_size,
        }
    }
}

impl Clone for SearchQuery {
    fn clone(&self) -> (res: Self)
        ensures
            res@ == self@,
    {
        let res = SearchQuery {
            query: self.query.clone(),
            search_type: self.search_type,
            file_types: self.file_types.clone(),
            max_results: self.max_results,
            case_sensitive: self.case_sensitive,
            use_regex: self.use_regex,
            modified_after: self.modified_after,
            modified_before: self.modified_before,
            size_min: self.size_min,
            size_max: self.size_max,
        };
        proof {
            assert(res.file_types.deep_view() =~= self.file_types.deep_view());
        }
        res
    }
}

impl Clone for SearchFilters {
    fn clone(&self) -> (res: Self)
        ensures
            res@ == self@,
    {
        let res = SearchFilters {
            file_extensions: self.file_extensions.clone(),
            exclude_patterns: self.exclude_patterns.clone(),
            include_patterns: self.include_patterns.clone(),
            max_file_size: self.max_file_size,
            min_file_size: self.min_file_size,
        };
        proof {
            assert(res.file_extensions.deep_view() =~= self.file_extensions.deep_view());
            assert(res.exclude_patterns.deep_view() =~= self.exclude_patterns.deep_view());
            assert(res.include_patterns.deep_view() =~= self.include_patterns.deep_view());
        }
        res
    }
}

/// What recording one query does to the history: newest first, truncated to
/// the cap.
pub open spec fn history_push(h: HistoryModel, q: QueryModel) -> HistoryModel {
    let grown = seq![q] + h.queries;
    HistoryModel {
        queries: if grown.len() > h.max_entries {
            grown.take(h.max_entries as int)
        } else {
            grown
        },
        max_entries: h.max_entries,
    }
}

/// The search engine: committed index, history, bookmarks, filters.
pub struct SearchEngine {
    index: Option<IndexState>,
    index_location: String,
    search_history: SearchHistory,
    bookmarks: Vec<Bookmark>,
    filters: SearchFilters,
}

impl SearchEngine {
    /// The committed index, if any build has committed yet.
    pub closed spec fn index_model(&self) -> Option<StateModel> {
        match self.index {
            Some(st) => Some(st@),
            None => None,
        }
    }

    /// Where the index is expected to live; named by `IndexNotFound`.
    pub closed spec fn index_location_model(&self) -> Seq<char> {
        self.index_location@
    }

    pub closed spec fn history_model(&self) -> HistoryModel {
        self.search_history@
    }

    pub closed spec fn bookmarks_model(&self) -> Seq<BookmarkModel> {
        self.bookmarks.deep_view()
    }

    pub closed spec fn filters_model(&self) -> FiltersModel {
        self.filters@
    }

    /// Whatever index is committed is well formed.
    pub closed spec fn wf(&self) -> bool {
        self.index matches Some(st) ==> state_wf(st@)
    }

    /// A fresh engine: no index yet, empty history capped at 100 entries,
    /// no bookmarks, and the stock filter defaults.
    pub fn new() -> (r: Result<SearchEngine, SearchError>)
        ensures
            r is Ok,
            r.unwrap().wf(),
            r.unwrap().index_model() is None,
            r.unwrap().history_model().queries.len() == 0,
            r.unwrap().history_model().max_entries == 100,
            r.unwrap().bookmarks_model().len() == 0,
            r.unwrap().filters_model().file_extensions == seq!["txt"@, "md"@, "rs"@, "js"@, "py"@],
            r.unwrap().filters_model().exclude_patterns == seq!["node_modules"@, ".git"@],
            r.unwrap().filters_model().include_patterns.len() == 0,
            r.unwrap().filters_model().max_file_size == MAX_FILE_SIZE,
            r.unwrap().filters_model().min_file_size == 0,
            r.unwrap().index_location_model().len() == 0,
    {
        let file_extensions: Vec<String> = vec![
            "txt".to_owned(),
            "md".to_owned(),
            "rs".to_owned(),
            "js".to_owned(),
            "py".to_owned(),
        ];
        let exclude_patterns: Vec<String> = vec!["node_modules".to_owned(), ".git".to_owned()];
        let engine = SearchEngine {
            index: None,
            index_location: String::new(),
            search_history: SearchHistory { queries: Vec::new(), max_entries: 100 },
            bookmarks: Vec::new(),
            filters: SearchFilters {
                file_extensions,
                exclude_patterns,
                include_patterns: Vec::new(),
                max_file_size: MAX_FILE_SIZE,
                min_file_size: 0,
            },
        };
        proof {
            assert(engine.filters.file_extensions.deep_view() =~= seq![
                "txt"@,
                "md"@,
                "rs"@,
                "js"@,
                "py"@,
            ]);
            assert(engine.filters.exclude_patterns.deep_view() =~= seq![
                "node_modules"@,
                ".git"@,
            ]);
            assert(engine.search_history.queries.deep_view() =~= Seq::<QueryModel>::empty());
            assert(engine.bookmarks.deep_view() =~= Seq::<BookmarkModel>::empty());
            assert(engine.filters.include_patterns.deep_view() =~= Seq::<Seq<char>>::empty());
        }
        Ok(engine)
    }

    /// Records where the index is expected to live, so that a query before
    /// any build can name the place.
    pub fn set_index_location(&mut self, location: String)
        requires
            old(self).wf(),
        ensures
            final(self).wf(),
            final(self).index_location_model() == location@,
            final(self).index_model() == old(self).index_model(),
            final(self).history_model() == old(self).history_model(),
            final(self).bookmarks_model() == old(self).bookmarks_model(),
            final(self).filters_model() == old(self).filters_model(),
    {
        self.index_location = location;
    }

    /// Atomic commit: the freshly built state replaces the committed one
    /// whole; queries see either the old state or the new, never a mixture.
    pub fn commit(&mut self, state: IndexState)
        requires
            state_wf(state@),
        ensures
            final(self).wf(),
            final(self).index_model() == Some(state@),
            final(self).index_location_model() == old(self).index_location_model(),
            final(self).history_model() == old(self).history_model(),
            final(self).bookmarks_model() == old(self).bookmarks_model(),
            final(self).filters_model() == old(self).filters_model(),
    {
        self.index = Some(state);
    }

    /// Runs one query and records it in the history. Fails with
    /// `IndexNotFound` before any commit, and with `QuerySyntax` when the
    /// query holds no usable term or pattern; otherwise returns exactly the
    /// ranked, truncated results of the committed documents.
    pub fn search(&mut self, query: SearchQuery) -> (r: Result<Vec<SearchResult>, SearchError>)
        requires
            old(self).wf(),
        ensures
            final(self).wf(),
            final(self).index_model() == old(self).index_model(),
            final(self).index_location_model() == old(self).index_location_model(),
            final(self).bookmarks_model() == old(self).bookmarks_model(),
            final(self).filters_model() == old(self).filters_model(),
            final(self).history_model() == history_push(old(self).history_model(), query@),
            r is Ok <==> (old(self).index_model() is Some && query_well_formed(query@)),
            old(self).index_model() is None ==> (r matches Err(SearchError::IndexNotFound {
                location,
            }) && location@ == old(self).index_location_model()),
            old(self).index_model() is Some && !query_well_formed(query@) ==> (r matches Err(
                SearchError::QuerySyntax { input },
            ) && input@ == query@.query),
            old(self).index_model() is Some && query_well_formed(query@) ==> (r matches Ok(hits)
                && hits.deep_view() == query_results(
                old(self).index_model().unwrap().docs,
                query@,
            )),
            r matches Ok(hits) ==> hits@.len() <= query@.max_results,
            r matches Ok(hits) ==> forall|i: int, j: int|
                0 <= i < j < hits@.len() ==> ((#[trigger] hits.deep_view()[i]).score
                    > (#[trigger] hits.deep_view()[j]).score || (hits.deep_view()[i].score
                    == hits.deep_view()[j].score && lex_le(
                    hits.deep_view()[i].path,
                    hits.deep_view()[j].path,
                ))),
    {
        let ghost h0 = self.search_history@;
        let recorded = query.clone();
        let ghost qm = query@;
        self.search_history.queries.insert(0, recorded);
        proof {
            assert(self.search_history.queries.deep_view() =~= seq![qm]
                + old(self).search_history.queries.deep_view());
        }
        if self.search_history.queries.len() > self.search_history.max_entries {
            let cap = self.search_history.max_entries;
            self.search_history.queries.truncate(cap);
            proof {
                assert(self.search_history.queries.deep_view() =~= (seq![qm]
                    + old(self).search_history.queries.deep_view()).take(cap as int));
            }
        }
        proof {
            assert(self.search_history@ == history_push(h0, qm));
        }
        let st = match &self.index {
            None => {
                return Err(SearchError::IndexNotFound { location: self.index_location.clone() });
            },
            Some(st) => st,
        };
        let pattern_mode = query.use_regex || matches!(query.search_type, SearchType::Regex);
        if pattern_mode {
            let parses = if query.query.as_str().unicode_len() == 0 {
                false
            } else if query.case_sensitive {
                parse_pattern_exec(query.query.as_str()).is_some()
            } else {
                let lowered = lowercase(query.query.as_str());
                parse_pattern_exec(lowered.as_str()).is_some()
            };
            if !parses {
                return Err(SearchError::QuerySyntax { input: query.query });
            }
        } else {
            let terms = tokenize(query.query.as_str(), !query.case_sensitive);
            if terms.len() == 0 {
                proof {
                    assert(!query_well_formed(query@));
                }
                return Err(SearchError::QuerySyntax { input: query.query });
            }
        }
        let hits = execute_query(&st.docs, &query);
        proof {
            lemma_query_results_ordered(st@.docs, query@);
        }
        Ok(hits)
    }

    /// Fuzzy filename lookup over the committed name set: up to `k` names in
    /// ascending order whose lowercase form contains the lowercase pattern.
    pub fn fuzzy(&self, pattern: &str, k: usize) -> (r: Result<Vec<String>, SearchError>)
        requires
            self.wf(),
        ensures
            r is Ok <==> self.index_model() is Some,
            self.index_model() is None ==> (r matches Err(SearchError::IndexNotFound { location })
                && location@ == self.index_location_model()),
            self.index_model() matches Some(st) ==> (r matches Ok(names) && names.deep_view()
                == take_up_to(fuzzy_matches(st.names, lower_of(pattern@)), k as int)),
            r matches Ok(names) ==> names@.len() <= k,
            r matches Ok(names) ==> forall|i: int, j: int|
                0 <= i < j < names@.len() ==> crate::order::lex_le(
                    #[trigger] names.deep_view()[i],
                    #[trigger] names.deep_view()[j],
                ),
    {
        match &self.index {
            None => Err(SearchError::IndexNotFound { location: self.index_location.clone() }),
            Some(st) => {
                let names = fuzzy_query(&st.names, pattern, k);
                proof {
                    lemma_fuzzy_bounded_and_sorted(
                        self.index_model().unwrap().names,
                        lower_of(pattern@),
                        k as int,
                    );
                    let s = names.deep_view();
                    assert forall|i: int, j: int| 0 <= i < j < s.len() implies lex_le(
                        #[trigger] s[i],
                        #[trigger] s[j],
                    ) by {
                        assert(crate::store::name_le()(s[i], s[j]));
                    }
                }
                Ok(names)
            },
        }
    }

    /// The recorded queries, newest first.
    pub fn get_search_history(&self) -> (r: Result<Vec<SearchQuery>, SearchError>)
        ensures
            r matches Ok(qs) && qs.deep_view() == self.history_model().queries,
    {
        let copy = self.search_history.queries.clone();
        proof {
            assert forall|i: int|
                0 <= i < copy.deep_view().len() implies #[trigger] copy.deep_view()[i]
                == self.search_history.queries.deep_view()[i] by {
                assert(vstd::pervasive::cloned::<SearchQuery>(
                    self.search_history.queries[i],
                    copy[i],
                ));
            }
            assert(copy.deep_view() =~= self.search_history.queries.deep_view());
        }
        Ok(copy)
    }

    /// Remembers one bookmark.
    pub fn add_bookmark(&mut self, bookmark: Bookmark) -> (r: Result<(), SearchError>)
        requires
            old(self).wf(),
        ensures
            r is Ok,
            final(self).wf(),
            final(self).bookmarks_model() == old(self).bookmarks_model().push(bookmark@),
            final(self).index_model() == old(self).index_model(),
            final(self).history_model() == old(self).history_model(),
            final(self).filters_model() == old(self).filters_model(),
    {
        let ghost b0 = self.bookmarks.deep_view();
        let ghost bm = bookmark@;
        self.bookmarks.push(bookmark);
        proof {
            assert(self.bookmarks.deep_view() =~= b0.push(bm));
        }
        Ok(())
    }

    /// Every remembered bookmark, in insertion order.
    pub fn get_bookmarks(&self) -> (r: Result<Vec<Bookmark>, SearchError>)
        ensures
            r matches Ok(bs) && bs.deep_view() == self.bookmarks_model(),
    {
        let copy = self.bookmarks.clone();
        proof {
            assert forall|i: int|
                0 <= i < copy.deep_view().len() implies #[trigger] copy.deep_view()[i]
                == self.bookmarks.deep_view()[i] by {
                assert(vstd::pervasive::cloned::<Bookmark>(self.bookmarks[i], copy[i]));
            }
            assert(copy.deep_view() =~= self.bookmarks.deep_view());
        }
        Ok(copy)
    }

    /// Replaces the stored filter defaults.
    pub fn update_filters(&mut self, filters: SearchFilters) -> (r: Result<(), SearchError>)
        requires
            old(self).wf(),
        ensures
            r is Ok,
            final(self).wf(),
            final(self).filters_model() == filters@,
            final(self).index_model() == old(self).index_model(),
            final(self).history_model() == old(self).history_model(),
            final(self).bookmarks_model() == old(self).bookmarks_model(),
    {
        self.filters = filters;
        Ok(())
    }

    /// The stored filter defaults.
    pub fn get_filters(&self) -> (r: Result<SearchFilters, SearchError>)
        ensures
            r matches Ok(f) && f@ == self.filters_model(),
    {
        Ok(self.filters.clone())
    }
}

} // verus!
