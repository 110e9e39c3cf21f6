//! The library's laws: properties that relate several functions, stated and
//! proved over the same models the functions' contracts use. The build
//! invariants themselves — unique committed paths, documents only from
//! passing files, every discovered name in the fuzzy set — are
//! `lemma_build_state_wf` and `lemma_build_state_origin` beside the builder.

use vstd::prelude::*;
use vstd::relations::sorted_by;

use crate::docs::{entry_passes, DocModel, EntryModel, MAX_FILE_SIZE};
use crate::fuzzy::{fuzzy_matches, lemma_fuzzy_matches_sorted, take_up_to};
use crate::tok::lower_of;
use crate::order::{
    insert_by, lemma_insert_by_sorted, lemma_lex_le_refl, lex_le,
};
use crate::text::is_binary_byte;
use crate::query::{
    doc_score, is_candidate, lemma_ranked_bounds, query_results, rank_le, ranked, result_of,
    QueryModel,
};
use crate::store::{build_state, doc_le, name_le};

verus! {

/// A file holding a NUL byte never passes the filters, whatever its size;
/// with `lemma_build_state_origin` — every committed document stems from a
/// passing entry — no such file's content is ever indexed.
pub proof fn lemma_nul_byte_never_passes(e: EntryModel)
    requires
        e.data is Some,
        e.data.unwrap().contains(0u8),
    ensures
        !entry_passes(e),
{
    let bytes = e.data.unwrap();
    let i = choose|i: int| 0 <= i < bytes.len() && bytes[i] == 0u8;
    assert(is_binary_byte(bytes[i]));
}

/// A file over the size cap never passes the filters, so it is excluded from
/// content indexing; by `lemma_build_state_origin` its name still reaches
/// the fuzzy name set, like every discovered file's.
pub proof fn lemma_oversized_never_passes(e: EntryModel)
    requires
        e.size > MAX_FILE_SIZE,
    ensures
        !entry_passes(e),
{
}

/// Fuzzy lookup law: results never exceed the requested cap and come in
/// ascending sorted order.
pub proof fn lemma_fuzzy_bounded_and_sorted(names: Seq<Seq<char>>, lp: Seq<char>, k: int)
    requires
        sorted_by(names, name_le()),
        0 <= k,
    ensures
        take_up_to(fuzzy_matches(names, lp), k).len() <= k,
        sorted_by(take_up_to(fuzzy_matches(names, lp), k), name_le()),
{
    lemma_fuzzy_matches_sorted(names, lp);
    let m = fuzzy_matches(names, lp);
    let t = take_up_to(m, k);
    if k <= m.len() {
        assert forall|i: int, j: int| 0 <= i < j < t.len() implies name_le()(
            #[trigger] t[i],
            #[trigger] t[j],
        ) by {
            assert(t[i] == m[i] && t[j] == m[j]);
            assert(name_le()(m[i], m[j]));
        }
    }
}

proof fn lemma_rank_le_laws()
    ensures
        forall|a: (u64, usize), b: (u64, usize)| #[trigger] rank_le()(a, b) || rank_le()(b, a),
        forall|a: (u64, usize), b: (u64, usize), c: (u64, usize)|
            #[trigger] rank_le()(a, b) && #[trigger] rank_le()(b, c) ==> rank_le()(a, c),
{
}

proof fn lemma_ranked_sorted(docs: Seq<DocModel>, q: QueryModel)
    ensures
        sorted_by(ranked(docs, q), rank_le()),
    decreases docs.len(),
{
    if docs.len() > 0 {
        lemma_ranked_sorted(docs.drop_last(), q);
        if is_candidate(docs.last(), q) {
            lemma_rank_le_laws();
            lemma_insert_by_sorted(
                rank_le(),
                (doc_score(docs.last(), q), (docs.len() - 1) as usize),
                ranked(docs.drop_last(), q),
            );
        }
    }
}

/// Ranking law: results never exceed the caller's cap; scores descend, and
/// equal scores come in ascending path order.
pub proof fn lemma_query_results_ordered(docs: Seq<DocModel>, q: QueryModel)
    requires
        sorted_by(docs, doc_le()),
    ensures
        query_results(docs, q).len() <= q.max_results,
        forall|i: int, j: int|
            0 <= i < j < query_results(docs, q).len() ==> ((#[trigger] query_results(docs, q)[i]).score
                > (#[trigger] query_results(docs, q)[j]).score || (query_results(docs, q)[i].score
                == query_results(docs, q)[j].score && lex_le(
                query_results(docs, q)[i].path,
                query_results(docs, q)[j].path,
            ))),
{
    let rk = ranked(docs, q);
    let tk = take_up_to(rk, q.max_results as int);
    let qr = query_results(docs, q);
    lemma_ranked_sorted(docs, q);
    lemma_ranked_bounds(docs, q);
    assert(qr.len() == tk.len());
    assert forall|i: int, j: int| 0 <= i < j < qr.len() implies ((#[trigger] qr[i]).score
        > (#[trigger] qr[j]).score || (qr[i].score == qr[j].score && lex_le(
        qr[i].path,
        qr[j].path,
    ))) by {
        assert(tk[i] == rk[i] && tk[j] == rk[j]);
        assert(rank_le()(rk[i], rk[j]));
        assert(qr[i] == result_of(docs[rk[i].1 as int], rk[i].0));
        assert(qr[j] == result_of(docs[rk[j].1 as int], rk[j].0));
        assert(rk[i].1 < docs.len() && rk[j].1 < docs.len());
        if rk[i].0 == rk[j].0 {
            if rk[i].1 < rk[j].1 {
                assert(doc_le()(docs[rk[i].1 as int], docs[rk[j].1 as int]));
            } else {
                assert(rk[i].1 == rk[j].1);
                lemma_lex_le_refl(docs[rk[i].1 as int].path);
            }
        }
    }
}

proof fn lemma_ranked_no_candidates(docs: Seq<DocModel>, q: QueryModel)
    requires
        forall|i: int| 0 <= i < docs.len() ==> !is_candidate(#[trigger] docs[i], q),
    ensures
        ranked(docs, q) == Seq::<(u64, usize)>::empty(),
    decreases docs.len(),
{
    if docs.len() == 0 {
        assert(ranked(docs, q) =~= Seq::<(u64, usize)>::empty());
    } else {
        assert(forall|i: int|
            0 <= i < docs.drop_last().len() ==> docs.drop_last()[i] == #[trigger] docs[i]);
        lemma_ranked_no_candidates(docs.drop_last(), q);
        assert(!is_candidate(docs.last(), q)) by {
            assert(docs.last() == docs[docs.len() - 1]);
        }
    }
}

proof fn lemma_ranked_single(docs: Seq<DocModel>, q: QueryModel, w: int)
    requires
        0 <= w < docs.len(),
        is_candidate(docs[w], q),
        forall|i: int| 0 <= i < docs.len() && i != w ==> !is_candidate(#[trigger] docs[i], q),
    ensures
        ranked(docs, q) == seq![(doc_score(docs[w], q), w as usize)],
    decreases docs.len(),
{
    assert(forall|i: int|
        0 <= i < docs.drop_last().len() ==> docs.drop_last()[i] == #[trigger] docs[i]);
    if w == docs.len() - 1 {
        lemma_ranked_no_candidates(docs.drop_last(), q);
        assert(docs.last() == docs[w]);
        assert(ranked(docs, q) == insert_by(
            rank_le(),
            (doc_score(docs[w], q), w as usize),
            Seq::<(u64, usize)>::empty(),
        ));
        assert(insert_by(
            rank_le(),
            (doc_score(docs[w], q), w as usize),
            Seq::<(u64, usize)>::empty(),
        ) =~= seq![(doc_score(docs[w], q), w as usize)]);
    } else {
        assert(docs.last() == docs[docs.len() - 1]);
        assert(!is_candidate(docs.last(), q));
        lemma_ranked_single(docs.drop_last(), q, w);
    }
}

/// Round-trip law: when exactly one committed document is a candidate for a
/// query — it matches and every other document does not — that document
/// comes back as the sole result.
pub proof fn lemma_single_candidate_sole_result(docs: Seq<DocModel>, q: QueryModel, w: int)
    requires
        docs.len() <= usize::MAX,
        0 <= w < docs.len(),
        is_candidate(docs[w], q),
        forall|i: int| 0 <= i < docs.len() && i != w ==> !is_candidate(#[trigger] docs[i], q),
        q.max_results >= 1,
    ensures
        query_results(docs, q) == seq![result_of(docs[w], doc_score(docs[w], q))],
{
    lemma_ranked_single(docs, q, w);
    let rk = ranked(docs, q);
    let tk = take_up_to(rk, q.max_results as int);
    assert(tk == rk);
    assert(w as usize as int == w);
    assert(query_results(docs, q) =~= seq![result_of(docs[w], doc_score(docs[w], q))]);
}

/// Idempotence law: equal submission sequences build equal index states, so
/// after either build every query and every fuzzy lookup answers
/// identically.
pub proof fn lemma_rebuild_idempotent(
    first: Seq<EntryModel>,
    second: Seq<EntryModel>,
    q: QueryModel,
    pattern: Seq<char>,
    k: int,
)
    requires
        first == second,
    ensures
        build_state(first) == build_state(second),
        query_results(build_state(first).docs, q) == query_results(build_state(second).docs, q),
        take_up_to(fuzzy_matches(build_state(first).names, lower_of(pattern)), k) == take_up_to(
            fuzzy_matches(build_state(second).names, lower_of(pattern)),
            k,
        ),
{
}

} // verus!
