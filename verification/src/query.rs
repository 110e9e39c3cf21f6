//! Query execution and ranking.
//!
//! A query names its terms, a mode, and optional filters; execution scores
//! every committed document by term frequency over the mode's fields, keeps
//! the documents that pass the filters and match at least one term, and
//! returns them ordered by descending score with ties broken by ascending
//! path, truncated to the caller's result cap.

use vstd::prelude::*;

use crate::docs::{DocModel, Document};
use crate::fuzzy::take_up_to;
use crate::order::{insert_by, lemma_insert_by_contains, lemma_insert_by_position};
use crate::pattern::{parse_pattern, parse_pattern_exec, pattern_found, pattern_search};
use crate::tok::{
    count_term, lemma_count_term_le, lemma_count_term_push, lower_of, lowercase, tokenize,
    tokens_of,
};

verus! {

/// The four query modes.
#[derive(Clone, Copy, PartialEq, Eq, Structural, Debug)]
pub enum SearchType {
    FullText,
    Filename,
    Regex,
    Content,
}

/// One query: the text, its mode, and the optional filters that constrain
/// the candidate set before ranking.
pub struct SearchQuery {
    pub query: String,
    pub search_type: SearchType,
    pub file_types: Vec<String>,
    pub max_results: usize,
    pub case_sensitive: bool,
    pub use_regex: bool,
    pub modified_after: Option<i64>,
    pub modified_before: Option<i64>,
    pub size_min: Option<u64>,
    pub size_max: Option<u64>,
}

/// Mathematical model of a query.
pub struct QueryModel {
    pub query: Seq<char>,
    pub search_type: SearchType,
    pub file_types: Seq<Seq<char>>,
    pub max_results: usize,
    pub case_sensitive: bool,
    pub use_regex: bool,
    pub modified_after: Option<i64>,
    pub modified_before: Option<i64>,
    pub size_min: Option<u64>,
    pub size_max: Option<u64>,
}

impl View for SearchQuery {
    type V = QueryModel;

    open spec fn view(&self) -> QueryModel {
        QueryModel {
            query: self.query@,
            search_type: self.search_type,
            file_types: self.file_types.deep_view(),
            max_results: self.max_results,
            case_sensitive: self.case_sensitive,
            use_regex: self.use_regex,
            modified_after: self.modified_after,
            modified_before: self.modified_before,
            size_min: self.size_min,
            size_max: self.size_max,
        }
    }
}

impl DeepView for SearchQuery {
    type V = QueryModel;

    open spec fn deep_view(&self) -> QueryModel {
        self.view()
    }
}

/// One ranked hit. The content is searchable but not reproduced, so the
/// preview is empty; the score is the integer term-frequency relevance.
pub struct SearchResult {
    pub id: String,
    pub path: String,
    pub name: String,
    pub content_preview: String,
    pub modified: i64,
    pub score: u64,
    pub file_type: String,
    pub size: u64,
}

/// Mathematical model of one hit.
pub struct ResultModel {
    pub id: Seq<char>,
    pub path: Seq<char>,
    pub name: Seq<char>,
    pub content_preview: Seq<char>,
    pub modified: i64,
    pub score: u64,
    pub file_type: Seq<char>,
    pub size: u64,
}

impl View for SearchResult {
    type V = ResultModel;

    open spec fn view(&self) -> ResultModel {
        ResultModel {
            id: self.id@,
            path: self.path@,
            name: self.name@,
            content_preview: self.content_preview@,
            modified: self.modified,
            score: self.score,
            file_type: self.file_type@,
            size: self.size,
        }
    }
}

impl DeepView for SearchResult {
    type V = ResultModel;

    open spec fn deep_view(&self) -> ResultModel {
        self.view()
    }
}

/// The extension of a file name: the characters after the last dot, absent
/// when the name has no dot.
pub open spec fn ext_of(name: Seq<char>) -> Option<Seq<char>>
    decreases name.len(),
{
    if name.len() == 0 {
        None
    } else if name.last() == '.' {
        Some(seq![])
    } else {
        match ext_of(name.drop_last()) {
            None => None,
            Some(e) => Some(e.push(name.last())),
        }
    }
}

pub open spec fn ext_or_empty(name: Seq<char>) -> Seq<char> {
    match ext_of(name) {
        None => seq![],
        Some(e) => e,
    }
}

proof fn lemma_ext_of_no_dot(name: Seq<char>)
    requires
        forall|j: int| 0 <= j < name.len() ==> #[trigger] name[j] != '.',
    ensures
        ext_of(name) is None,
    decreases name.len(),
{
    if name.len() > 0 {
        assert(forall|j: int|
            0 <= j < name.drop_last().len() ==> name.drop_last()[j] == #[trigger] name[j]);
        lemma_ext_of_no_dot(name.drop_last());
    }
}

proof fn lemma_ext_of_last_dot(name: Seq<char>, d: int)
    requires
        0 <= d < name.len(),
        name[d] == '.',
        forall|j: int| d < j < name.len() ==> #[trigger] name[j] != '.',
    ensures
        ext_of(name) == Some(name.skip(d + 1)),
    decreases name.len(),
{
    if d == name.len() - 1 {
        assert(name.last() == '.');
        assert(name.skip(d + 1) =~= Seq::<char>::empty());
    } else {
        assert(name.last() != '.');
        assert(forall|j: int|
            0 <= j < name.drop_last().len() ==> name.drop_last()[j] == #[trigger] name[j]);
        lemma_ext_of_last_dot(name.drop_last(), d);
        assert(name.skip(d + 1) =~= name.drop_last().skip(d + 1).push(name.last()));
    }
}

/// The extension of a file name, as the executable scan from the end finds
/// it.
pub fn file_ext(name: &str) -> (r: Option<String>)
    ensures
        r is Some <==> ext_of(name@) is Some,
        r is Some ==> r.unwrap()@ == ext_of(name@).unwrap(),
{
    let n = name.unicode_len();
    let mut j: usize = n;
    while j > 0
        invariant
            n == name@.len(),
            j <= n,
            forall|t: int| j <= t < n ==> #[trigger] name@[t] != '.',
        decreases j,
    {
        let c = name.get_char(j - 1);
        if c == '.' {
            let e = name.substring_char(j, n);
            proof {
                lemma_ext_of_last_dot(name@, j - 1);
                assert(e@ =~= name@.skip(j as int));
            }
            return Some(e.to_owned());
        }
        j = j - 1;
    }
    proof {
        lemma_ext_of_no_dot(name@);
    }
    None
}

/// The filters of a query that a document must pass to stay a candidate.
pub open spec fn passes_filters(d: DocModel, q: QueryModel) -> bool {
    &&& (q.file_types.len() == 0 || (ext_of(d.name) is Some && q.file_types.contains(
        ext_of(d.name).unwrap(),
    )))
    &&& (q.modified_after is Some ==> d.modified >= q.modified_after.unwrap())
    &&& (q.modified_before is Some ==> d.modified <= q.modified_before.unwrap())
    &&& (q.size_min is Some ==> d.size >= q.size_min.unwrap())
    &&& (q.size_max is Some ==> d.size <= q.size_max.unwrap())
}

/// Executable filter check, against `passes_filters`.
pub fn passes_filters_exec(d: &Document, q: &SearchQuery) -> (r: bool)
    ensures
        r == passes_filters(d@, q@),
{
    if let Some(after) = q.modified_after {
        if d.modified < after {
            return false;
        }
    }
    if let Some(before) = q.modified_before {
        if d.modified > before {
            return false;
        }
    }
    if let Some(lo) = q.size_min {
        if d.size < lo {
            return false;
        }
    }
    if let Some(hi) = q.size_max {
        if d.size > hi {
            return false;
        }
    }
    if q.file_types.len() == 0 {
        return true;
    }
    let ext = match file_ext(d.name.as_str()) {
        Some(e) => e,
        None => {
            return false;
        },
    };
    let m = q.file_types.len();
    for i in 0..m
        invariant
            m == q.file_types@.len(),
            ext@ == ext_of(d@.name).unwrap(),
            ext_of(d@.name) is Some,
            q@.modified_after is Some ==> d@.modified >= q@.modified_after.unwrap(),
            q@.modified_before is Some ==> d@.modified <= q@.modified_before.unwrap(),
            q@.size_min is Some ==> d@.size >= q@.size_min.unwrap(),
            q@.size_max is Some ==> d@.size <= q@.size_max.unwrap(),
            forall|t: int| 0 <= t < i ==> q@.file_types[t] != ext@,
    {
        proof {
            assert(q@.file_types[i as int] == q.file_types@[i as int]@);
        }
        if q.file_types[i] == ext {
            proof {
                assert(q@.file_types.contains(ext_of(d@.name).unwrap()));
            }
            return true;
        }
    }
    proof {
        if q@.file_types.contains(ext_of(d@.name).unwrap()) {
            let t = choose|t: int|
                0 <= t < q@.file_types.len() && q@.file_types[t] == ext_of(d@.name).unwrap();
        }
    }
    false
}

/// Saturating addition: scores add without overflow.
pub open spec fn sat_add(a: u64, b: u64) -> u64 {
    if a + b > u64::MAX {
        u64::MAX
    } else {
        (a + b) as u64
    }
}

proof fn lemma_sat_add_assoc(a: u64, b: u64, c: u64)
    ensures
        sat_add(a, sat_add(b, c)) == sat_add(sat_add(a, b), c),
{
}

/// A term's occurrence count, capped at what a score can hold.
pub open spec fn count_capped(toks: Seq<Seq<char>>, t: Seq<char>) -> u64 {
    if count_term(toks, t) > u64::MAX {
        u64::MAX
    } else {
        count_term(toks, t) as u64
    }
}

/// The relevance a token list earns against the query terms: the saturating
/// sum of every term's occurrence count (disjunctive semantics: any one
/// occurrence makes the score positive).
pub open spec fn score_terms(toks: Seq<Seq<char>>, terms: Seq<Seq<char>>) -> u64
    decreases terms.len(),
{
    if terms.len() == 0 {
        0u64
    } else {
        sat_add(count_capped(toks, terms[0]), score_terms(toks, terms.drop_first()))
    }
}

/// The fields a mode searches, as one token list.
pub open spec fn doc_tokens(d: DocModel, st: SearchType, fold: bool) -> Seq<Seq<char>> {
    match st {
        SearchType::FullText => tokens_of(d.content, fold) + tokens_of(d.name, fold),
        SearchType::Filename => tokens_of(d.name, fold),
        SearchType::Content => tokens_of(d.content, fold),
        SearchType::Regex => seq![],
    }
}

/// A query that asks for pattern interpretation rather than terms.
pub open spec fn is_pattern_query(q: QueryModel) -> bool {
    q.search_type is Regex || q.use_regex
}

/// The text a pattern query is evaluated against: the name when restricted
/// to filenames, otherwise the content.
pub open spec fn pattern_target(d: DocModel, q: QueryModel) -> Seq<char> {
    if q.search_type is Filename {
        d.name
    } else {
        d.content
    }
}

/// Whether a pattern query hits a document: match or no match, no graded
/// relevance. A case-insensitive query lowercases the pattern and the text
/// before parsing and matching.
pub open spec fn pattern_hit(d: DocModel, q: QueryModel) -> bool {
    if q.case_sensitive {
        match parse_pattern(q.query) {
            None => false,
            Some(ts) => pattern_found(ts, pattern_target(d, q)),
        }
    } else {
        match parse_pattern(lower_of(q.query)) {
            None => false,
            Some(ts) => pattern_found(ts, lower_of(pattern_target(d, q))),
        }
    }
}

/// The score of one document for one query.
pub open spec fn doc_score(d: DocModel, q: QueryModel) -> u64 {
    if is_pattern_query(q) {
        if pattern_hit(d, q) {
            1u64
        } else {
            0u64
        }
    } else {
        score_terms(
            doc_tokens(d, q.search_type, !q.case_sensitive),
            tokens_of(q.query, !q.case_sensitive),
        )
    }
}

/// A document stays in the result set when it passes every active filter
/// and matches at all.
pub open spec fn is_candidate(d: DocModel, q: QueryModel) -> bool {
    passes_filters(d, q) && doc_score(d, q) > 0
}

/// A query the engine can execute: a pattern query needs a nonempty pattern
/// that parses; a term query needs at least one term.
pub open spec fn query_well_formed(q: QueryModel) -> bool {
    if is_pattern_query(q) {
        q.query.len() > 0 && (if q.case_sensitive {
            parse_pattern(q.query) is Some
        } else {
            parse_pattern(lower_of(q.query)) is Some
        })
    } else {
        tokens_of(q.query, !q.case_sensitive).len() > 0
    }
}

/// Rank order on (score, document position) pairs: higher scores first,
/// earlier documents — which are committed in ascending path order — first
/// among equal scores.
pub open spec fn rank_le() -> spec_fn((u64, usize), (u64, usize)) -> bool {
    |a: (u64, usize), b: (u64, usize)| a.0 > b.0 || (a.0 == b.0 && a.1 <= b.1)
}

/// The ranked candidate list over the committed documents: every candidate's
/// (score, position) pair, in rank order.
pub open spec fn ranked(docs: Seq<DocModel>, q: QueryModel) -> Seq<(u64, usize)>
    decreases docs.len(),
{
    if docs.len() == 0 {
        seq![]
    } else {
        let prev = ranked(docs.drop_last(), q);
        let d = docs.last();
        if is_candidate(d, q) {
            insert_by(rank_le(), (doc_score(d, q), (docs.len() - 1) as usize), prev)
        } else {
            prev
        }
    }
}

/// Everything a query returns: the ranked candidates, truncated to the
/// caller's cap, each turned into its result record.
pub open spec fn query_results(docs: Seq<DocModel>, q: QueryModel) -> Seq<ResultModel> {
    take_up_to(ranked(docs, q), q.max_results as int).map_values(
        |p: (u64, usize)| result_of(docs[p.1 as int], p.0),
    )
}

/// The result record a scored document becomes. The content preview is
/// empty: content is searchable, never reproduced.
pub open spec fn result_of(d: DocModel, score: u64) -> ResultModel {
    ResultModel {
        id: d.path,
        path: d.path,
        name: d.name,
        content_preview: seq![],
        modified: d.modified,
        score: score,
        file_type: ext_or_empty(d.name),
        size: d.size,
    }
}

/// Every pair the ranking holds points at a document.
pub proof fn lemma_ranked_bounds(docs: Seq<DocModel>, q: QueryModel)
    ensures
        forall|j: int|
            0 <= j < ranked(docs, q).len() ==> (#[trigger] ranked(docs, q)[j]).1 < docs.len(),
    decreases docs.len(),
{
    if docs.len() > 0 {
        lemma_ranked_bounds(docs.drop_last(), q);
        let prev = ranked(docs.drop_last(), q);
        let d = docs.last();
        let rk = ranked(docs, q);
        if is_candidate(d, q) {
            let x = (doc_score(d, q), (docs.len() - 1) as usize);
            assert forall|j: int| 0 <= j < rk.len() implies (#[trigger] rk[j]).1 < docs.len() by {
                assert(rk.contains(rk[j]));
                lemma_insert_by_contains(rank_le(), x, prev, rk[j]);
                if rk[j] != x {
                    assert(prev.contains(rk[j]));
                    let t = choose|t: int| 0 <= t < prev.len() && prev[t] == rk[j];
                    assert(prev[t].1 < docs.drop_last().len());
                }
            }
        } else {
            assert(rk == prev);
            assert forall|j: int| 0 <= j < rk.len() implies (#[trigger] rk[j]).1 < docs.len() by {
                assert(prev[j].1 < docs.drop_last().len());
            }
        }
    }
}

/// Executable rank comparison, against `rank_le`.
fn rank_le_exec(a: (u64, usize), b: (u64, usize)) -> (r: bool)
    ensures
        r == rank_le()(a, b),
{
    a.0 > b.0 || (a.0 == b.0 && a.1 <= b.1)
}

/// Inserts one candidate pair in rank order.
fn insert_ranked(v: &mut Vec<(u64, usize)>, x: (u64, usize))
    ensures
        final(v)@ == insert_by(rank_le(), x, old(v)@),
{
    let n = v.len();
    let mut p: usize = 0;
    while p < n && !rank_le_exec(x, v[p])
        invariant
            n == v@.len(),
            v@ == old(v)@,
            p <= n,
            forall|j: int| 0 <= j < p ==> !rank_le()(x, #[trigger] v@[j]),
        decreases n - p,
    {
        p = p + 1;
    }
    proof {
        lemma_insert_by_position(rank_le(), x, v@, p as int);
    }
    v.insert(p, x);
    proof {
        assert(final(v)@ =~= old(v)@.take(p as int) + seq![x] + old(v)@.skip(p as int));
    }
}

/// Counts how often term `t` occurs in the token list.
fn count_occurrences(toks: &Vec<String>, t: &String) -> (r: u64)
    ensures
        r == count_capped(toks.deep_view(), t@),
{
    let ghost dv = toks.deep_view();
    let n = toks.len();
    let mut c: u64 = 0;
    let mut i: usize = 0;
    proof {
        assert(dv.take(0) =~= Seq::<Seq<char>>::empty());
    }
    while i < n
        invariant
            n == toks@.len(),
            toks.deep_view() == dv,
            i <= n,
            c == count_term(dv.take(i as int), t@),
            c <= i,
        decreases n - i,
    {
        proof {
            assert(dv.take(i as int + 1) =~= dv.take(i as int).push(dv[i as int]));
            lemma_count_term_push(dv.take(i as int), dv[i as int], t@);
            assert(toks@[i as int]@ == dv[i as int]);
        }
        let same = toks[i] == *t;
        if same {
            c = c + 1;
        }
        i = i + 1;
    }
    proof {
        assert(dv.take(n as int) =~= dv);
        lemma_count_term_le(dv, t@);
    }
    c
}

/// The saturating score of a token list against the query terms.
fn score_terms_exec(toks: &Vec<String>, terms: &Vec<String>) -> (r: u64)
    ensures
        r == score_terms(toks.deep_view(), terms.deep_view()),
{
    let ghost tdv = toks.deep_view();
    let ghost qdv = terms.deep_view();
    let n = terms.len();
    let mut acc: u64 = 0;
    let mut i: usize = 0;
    proof {
        assert(qdv.skip(0) =~= qdv);
    }
    while i < n
        invariant
            n == terms@.len(),
            toks.deep_view() == tdv,
            terms.deep_view() == qdv,
            i <= n,
            score_terms(tdv, qdv) == sat_add(acc, score_terms(tdv, qdv.skip(i as int))),
        decreases n - i,
    {
        proof {
            assert(qdv.skip(i as int)[0] == qdv[i as int]);
            assert(qdv.skip(i as int).drop_first() =~= qdv.skip(i as int + 1));
            assert(terms@[i as int]@ == qdv[i as int]);
        }
        let c = count_occurrences(toks, &terms[i]);
        let ghost rest = score_terms(tdv, qdv.skip(i as int + 1));
        proof {
            lemma_sat_add_assoc(acc, c, rest);
        }
        if u64::MAX - acc < c {
            acc = u64::MAX;
        } else {
            acc = acc + c;
        }
        i = i + 1;
    }
    proof {
        assert(qdv.skip(n as int).len() == 0);
    }
    acc
}

/// The score of one document for one query, as executed.
fn doc_score_exec(d: &Document, q: &SearchQuery, terms: &Vec<String>) -> (r: u64)
    requires
        terms.deep_view() == tokens_of(q@.query, !q@.case_sensitive),
    ensures
        r == doc_score(d@, q@),
{
    if q.use_regex || matches!(q.search_type, SearchType::Regex) {
        let target: &str = if matches!(q.search_type, SearchType::Filename) {
            d.name.as_str()
        } else {
            d.content.as_str()
        };
        let hit = if q.case_sensitive {
            match parse_pattern_exec(q.query.as_str()) {
                None => false,
                Some(ts) => pattern_search(target, &ts),
            }
        } else {
            let lt = lowercase(target);
            let lq = lowercase(q.query.as_str());
            match parse_pattern_exec(lq.as_str()) {
                None => false,
                Some(ts) => pattern_search(lt.as_str(), &ts),
            }
        };
        if hit {
            1
        } else {
            0
        }
    } else {
        let fold = !q.case_sensitive;
        let toks: Vec<String> = match q.search_type {
            SearchType::FullText => {
                let mut v = tokenize(d.content.as_str(), fold);
                let mut w = tokenize(d.name.as_str(), fold);
                let ghost vdv = v.deep_view();
                let ghost wdv = w.deep_view();
                v.append(&mut w);
                proof {
                    assert(v.deep_view() =~= vdv + wdv);
                }
                v
            },
            SearchType::Filename => tokenize(d.name.as_str(), fold),
            SearchType::Content => tokenize(d.content.as_str(), fold),
            SearchType::Regex => Vec::new(),
        };
        proof {
            assert(toks.deep_view() == doc_tokens(d@, q@.search_type, !q@.case_sensitive));
        }
        score_terms_exec(&toks, terms)
    }
}

/// Executes a query over the committed documents: exactly the ranked,
/// filtered, truncated results the query model describes.
pub fn execute_query(docs: &Vec<Document>, q: &SearchQuery) -> (r: Vec<SearchResult>)
    ensures
        r.deep_view() == query_results(docs.deep_view(), q@),
{
    let ghost ddv = docs.deep_view();
    let terms = tokenize(q.query.as_str(), !q.case_sensitive);
    let n = docs.len();
    let mut rk: Vec<(u64, usize)> = Vec::new();
    let mut i: usize = 0;
    proof {
        assert(ddv.take(0) =~= Seq::<DocModel>::empty());
        assert(rk@ =~= ranked(ddv.take(0), q@));
    }
    while i < n
        invariant
            n == docs@.len(),
            docs.deep_view() == ddv,
            terms.deep_view() == tokens_of(q@.query, !q@.case_sensitive),
            i <= n,
            rk@ == ranked(ddv.take(i as int), q@),
        decreases n - i,
    {
        let d = &docs[i];
        proof {
            assert(d@ == ddv[i as int]);
            assert(ddv.take(i as int + 1).drop_last() =~= ddv.take(i as int));
            assert(ddv.take(i as int + 1).last() == ddv[i as int]);
        }
        let s = doc_score_exec(d, q, &terms);
        if s > 0 && passes_filters_exec(d, q) {
            insert_ranked(&mut rk, (s, i));
        }
        i = i + 1;
    }
    proof {
        assert(ddv.take(n as int) =~= ddv);
        lemma_ranked_bounds(ddv, q@);
    }
    let top = q.max_results;
    let m = if top < rk.len() {
        top
    } else {
        rk.len()
    };
    let mut out: Vec<SearchResult> = Vec::new();
    let mut j: usize = 0;
    while j < m
        invariant
            m <= rk@.len(),
            m == (if top < rk@.len() {
                top as int
            } else {
                rk@.len() as int
            }),
            top == q.max_results,
            docs.deep_view() == ddv,
            rk@ == ranked(ddv, q@),
            forall|t: int| 0 <= t < rk@.len() ==> (#[trigger] rk@[t]).1 < ddv.len(),
            n == docs@.len(),
            n == ddv.len(),
            j <= m,
            out.deep_view().len() == j,
            forall|t: int|
                0 <= t < j ==> #[trigger] out.deep_view()[t] == result_of(
                    ddv[rk@[t].1 as int],
                    rk@[t].0,
                ),
        decreases m - j,
    {
        let (s, idx) = rk[j];
        let d = &docs[idx];
        proof {
            assert(d@ == ddv[idx as int]);
        }
        let ft = match file_ext(d.name.as_str()) {
            Some(e) => e,
            None => String::new(),
        };
        let item = SearchResult {
            id: d.path.clone(),
            path: d.path.clone(),
            name: d.name.clone(),
            content_preview: String::new(),
            modified: d.modified,
            score: s,
            file_type: ft,
            size: d.size,
        };
        proof {
            assert(item@ == result_of(ddv[idx as int], s));
        }
        let ghost prev = out.deep_view();
        out.push(item);
        proof {
            assert(out.deep_view() =~= prev.push(result_of(ddv[idx as int], s)));
        }
        j = j + 1;
    }
    proof {
        let expect = query_results(ddv, q@);
        assert(take_up_to(rk@, top as int).len() == m);
        assert(expect.len() == m);
        assert forall|t: int| 0 <= t < m implies expect[t] == out.deep_view()[t] by {
            assert(take_up_to(rk@, top as int)[t] == rk@[t]);
        }
        assert(out.deep_view() =~= expect);
    }
    out
}

} // verus!
