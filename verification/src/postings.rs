//! Field-scoped term search: the inverted-index view of a committed state.
//!
//! The index maps a field and a term to the ordered postings list of the
//! documents holding that term in that field: `path` by exact match, `name`
//! and `content` by case-folded tokens, `modified` by numeric range.

use vstd::prelude::*;

use crate::docs::DocModel;
use crate::order::{lemma_lex_le_antisym, lemma_lex_le_refl, str_le};
use crate::store::IndexState;
use crate::tok::{lower_of, lowercase, tokenize, tokens_of};

verus! {

/// The term-searchable fields of the schema. `modified` is the numeric
/// field; it answers range lookups instead.
#[derive(Clone, Copy, PartialEq, Eq, Structural, Debug)]
pub enum IndexField {
    /// The unique key: exact match, never tokenized.
    Path,
    /// The final path component, tokenized and case-folded.
    Name,
    /// The decoded text, tokenized and case-folded; searchable, not
    /// reproduced.
    Content,
}

/// Whether a document holds `term` in `field`: the tokenized fields hold
/// lowercased terms, so the lookup lowercases the term the same way.
pub open spec fn field_matches(d: DocModel, field: IndexField, term: Seq<char>) -> bool {
    match field {
        IndexField::Path => d.path == term,
        IndexField::Name => tokens_of(d.name, true).contains(lower_of(term)),
        IndexField::Content => tokens_of(d.content, true).contains(lower_of(term)),
    }
}

/// The postings list of `(field, term)`: the positions of the matching
/// documents, in ascending order.
pub open spec fn postings_spec(docs: Seq<DocModel>, field: IndexField, term: Seq<char>) -> Seq<
    usize,
>
    decreases docs.len(),
{
    if docs.len() == 0 {
        seq![]
    } else {
        let front = postings_spec(docs.drop_last(), field, term);
        if field_matches(docs.last(), field, term) {
            front.push((docs.len() - 1) as usize)
        } else {
            front
        }
    }
}

/// The postings list of a modified-time range: the positions of the
/// documents whose timestamp lies in `[lo, hi]`, in ascending order.
pub open spec fn modified_range_spec(docs: Seq<DocModel>, lo: i64, hi: i64) -> Seq<usize>
    decreases docs.len(),
{
    if docs.len() == 0 {
        seq![]
    } else {
        let front = modified_range_spec(docs.drop_last(), lo, hi);
        if lo <= docs.last().modified <= hi {
            front.push((docs.len() - 1) as usize)
        } else {
            front
        }
    }
}

/// Postings lists are ordered: strictly ascending document positions, all in
/// range.
pub proof fn lemma_postings_ascending(docs: Seq<DocModel>, field: IndexField, term: Seq<char>)
    requires
        docs.len() <= usize::MAX,
    ensures
        forall|i: int|
            0 <= i < postings_spec(docs, field, term).len() ==> (#[trigger] postings_spec(
                docs,
                field,
                term,
            )[i]) < docs.len(),
        forall|i: int, j: int|
            0 <= i < j < postings_spec(docs, field, term).len() ==> postings_spec(
                docs,
                field,
                term,
            )[i] < postings_spec(docs, field, term)[j],
    decreases docs.len(),
{
    if docs.len() > 0 {
        lemma_postings_ascending(docs.drop_last(), field, term);
        let front = postings_spec(docs.drop_last(), field, term);
        let p = postings_spec(docs, field, term);
        if field_matches(docs.last(), field, term) {
            assert(p == front.push((docs.len() - 1) as usize));
            assert((docs.len() - 1) as usize as int == docs.len() - 1);
            assert forall|i: int| 0 <= i < p.len() implies (#[trigger] p[i]) < docs.len() by {
                if i < p.len() - 1 {
                    assert(p[i] == front[i]);
                    assert(front[i] < docs.drop_last().len());
                }
            }
            assert forall|i: int, j: int| 0 <= i < j < p.len() implies p[i] < p[j] by {
                assert(p[i] == front[i]);
                if j < p.len() - 1 {
                    assert(p[j] == front[j]);
                } else {
                    assert(front[i] < docs.drop_last().len());
                }
            }
        } else {
            assert(p == front);
            assert forall|i: int| 0 <= i < p.len() implies (#[trigger] p[i]) < docs.len() by {
                assert(front[i] < docs.drop_last().len());
            }
        }
    }
}

/// Postings lists are sound and complete: a position is in the list for
/// `(field, term)` exactly when its document holds the term in that field.
pub proof fn lemma_postings_exact(
    docs: Seq<DocModel>,
    field: IndexField,
    term: Seq<char>,
    i: usize,
)
    requires
        docs.len() <= usize::MAX,
    ensures
        postings_spec(docs, field, term).contains(i) <==> (i < docs.len() && field_matches(
            docs[i as int],
            field,
            term,
        )),
    decreases docs.len(),
{
    if docs.len() > 0 {
        lemma_postings_exact(docs.drop_last(), field, term, i);
        let front = postings_spec(docs.drop_last(), field, term);
        let p = postings_spec(docs, field, term);
        let last: usize = (docs.len() - 1) as usize;
        if field_matches(docs.last(), field, term) {
            assert(p == front.push(last));
            if i == last {
                assert(p[p.len() - 1] == i);
                assert(p.contains(i));
            }
            if i != last {
                assert(p.contains(i) <==> front.contains(i)) by {
                    if front.contains(i) {
                        let j = choose|j: int| 0 <= j < front.len() && front[j] == i;
                        assert(p[j] == i);
                    }
                    if p.contains(i) {
                        let j = choose|j: int| 0 <= j < p.len() && p[j] == i;
                        assert(j < p.len() - 1);
                        assert(front[j] == i);
                    }
                }
                if i < docs.len() - 1 {
                    assert(docs.drop_last()[i as int] == docs[i as int]);
                }
            }
        } else {
            assert(p == front);
            if i < docs.len() && i != last {
                assert(docs.drop_last()[i as int] == docs[i as int]);
            }
            if i == last {
                assert(docs.last() == docs[i as int]);
            }
        }
    }
}

/// Executable string equality over characters.
fn str_eq_chars(a: &str, b: &str) -> (r: bool)
    ensures
        r == (a@ == b@),
{
    let le = str_le(a, b);
    let ge = str_le(b, a);
    proof {
        if le && ge {
            lemma_lex_le_antisym(a@, b@);
        }
        if a@ == b@ {
            lemma_lex_le_refl(a@);
        }
    }
    le && ge
}

/// Whether a token list holds the term.
fn token_list_contains(toks: &Vec<String>, t: &String) -> (r: bool)
    ensures
        r == toks.deep_view().contains(t@),
{
    let n = toks.len();
    for i in 0..n
        invariant
            n == toks@.len(),
            forall|j: int| 0 <= j < i ==> toks.deep_view()[j] != t@,
    {
        proof {
            assert(toks.deep_view()[i as int] == toks@[i as int]@);
        }
        let same = toks[i] == *t;
        if same {
            proof {
                assert(toks.deep_view()[i as int] == t@);
            }
            return true;
        }
    }
    proof {
        if toks.deep_view().contains(t@) {
            let j = choose|j: int|
                0 <= j < toks.deep_view().len() && toks.deep_view()[j] == t@;
        }
    }
    false
}

impl IndexState {
    /// Field-scoped term search: the ordered postings list of the documents
    /// holding `term` in `field`.
    pub fn term_postings(&self, field: IndexField, term: &str) -> (r: Vec<usize>)
        ensures
            r@ == postings_spec(self@.docs, field, term@),
    {
        let ghost ddv = self.docs.deep_view();
        let lowered_term = lowercase(term);
        let n = self.docs.len();
        let mut r: Vec<usize> = Vec::new();
        let mut i: usize = 0;
        proof {
            assert(ddv.take(0) =~= Seq::<DocModel>::empty());
            assert(r@ =~= postings_spec(ddv.take(0), field, term@));
        }
        while i < n
            invariant
                n == self.docs@.len(),
                self.docs.deep_view() == ddv,
                lowered_term@ == lower_of(term@),
                i <= n,
                r@ == postings_spec(ddv.take(i as int), field, term@),
            decreases n - i,
        {
            let d = &self.docs[i];
            proof {
                assert(d@ == ddv[i as int]);
                assert(ddv.take(i as int + 1).drop_last() =~= ddv.take(i as int));
                assert(ddv.take(i as int + 1).last() == ddv[i as int]);
            }
            let hit = match field {
                IndexField::Path => str_eq_chars(d.path.as_str(), term),
                IndexField::Name => {
                    let toks = tokenize(d.name.as_str(), true);
                    token_list_contains(&toks, &lowered_term)
                },
                IndexField::Content => {
                    let toks = tokenize(d.content.as_str(), true);
                    token_list_contains(&toks, &lowered_term)
                },
            };
            if hit {
                let ghost prev = r@;
                r.push(i);
                proof {
                    assert(r@ =~= prev.push(i));
                }
            }
            i = i + 1;
        }
        proof {
            assert(ddv.take(n as int) =~= ddv);
        }
        r
    }

    /// Numeric range lookup on the `modified` field: the ordered postings
    /// list of the documents whose timestamp lies in `[lo, hi]`.
    pub fn modified_postings(&self, lo: i64, hi: i64) -> (r: Vec<usize>)
        ensures
            r@ == modified_range_spec(self@.docs, lo, hi),
    {
        let ghost ddv = self.docs.deep_view();
        let n = self.docs.len();
        let mut r: Vec<usize> = Vec::new();
        let mut i: usize = 0;
        proof {
            assert(ddv.take(0) =~= Seq::<DocModel>::empty());
            assert(r@ =~= modified_range_spec(ddv.take(0), lo, hi));
        }
        while i < n
            invariant
                n == self.docs@.len(),
                self.docs.deep_view() == ddv,
                i <= n,
                r@ == modified_range_spec(ddv.take(i as int), lo, hi),
            decreases n - i,
        {
            let d = &self.docs[i];
            proof {
                assert(d@ == ddv[i as int]);
                assert(ddv.take(i as int + 1).drop_last() =~= ddv.take(i as int));
                assert(ddv.take(i as int + 1).last() == ddv[i as int]);
            }
            if lo <= d.modified && d.modified <= hi {
                let ghost prev = r@;
                r.push(i);
                proof {
                    assert(r@ =~= prev.push(i));
                }
            }
            i = i + 1;
        }
        proof {
            assert(ddv.take(n as int) =~= ddv);
        }
        r
    }
}

} // verus!
