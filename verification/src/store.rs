//! The index store: documents and the fuzzy name set, built per scan cycle
//! and committed atomically.
//!
//! An `IndexBuilder` accumulates submitted candidate files; `finish` yields
//! the `IndexState` that a commit makes visible to queries. Documents are
//! kept strictly sorted by path (so paths are unique), names sorted and
//! deduplicated.

use vstd::prelude::*;
use vstd::relations::sorted_by;

use crate::docs::{doc_of, entry_passes, DocModel, Document, EntryModel, FileEntry};
use crate::docs::build_document;
use crate::order::{
    insert_by, lemma_insert_by_contains, lemma_insert_by_len, lemma_insert_by_position,
    lemma_insert_by_sorted, lemma_lex_le_antisym, lemma_lex_le_refl, lemma_lex_le_total,
    lemma_lex_le_trans, lex_le,
};
use crate::order::str_le;

verus! {

/// Order on names: lexicographic.
pub open spec fn name_le() -> spec_fn(Seq<char>, Seq<char>) -> bool {
    |a: Seq<char>, b: Seq<char>| lex_le(a, b)
}

/// Order on documents: lexicographic by path.
pub open spec fn doc_le() -> spec_fn(DocModel, DocModel) -> bool {
    |a: DocModel, b: DocModel| lex_le(a.path, b.path)
}

/// Some document in `docs` has path `p`.
pub open spec fn has_path(docs: Seq<DocModel>, p: Seq<char>) -> bool {
    exists|i: int| 0 <= i < docs.len() && docs[i].path == p
}

/// One committed index state: the searchable documents and the fuzzy name
/// structure's entries.
pub struct IndexState {
    pub docs: Vec<Document>,
    pub names: Vec<String>,
}

/// Mathematical model of an index state.
pub struct StateModel {
    pub docs: Seq<DocModel>,
    pub names: Seq<Seq<char>>,
}

impl View for IndexState {
    type V = StateModel;

    open spec fn view(&self) -> StateModel {
        StateModel { docs: self.docs.deep_view(), names: self.names.deep_view() }
    }
}

/// What one submitted entry does to the name set: inserted in order, once.
pub open spec fn name_step(names: Seq<Seq<char>>, n: Seq<char>) -> Seq<Seq<char>> {
    if names.contains(n) {
        names
    } else {
        insert_by(name_le(), n, names)
    }
}

/// What one submitted entry does to the documents: a passing entry with a
/// fresh path is inserted in path order; everything else changes nothing.
pub open spec fn doc_step(docs: Seq<DocModel>, e: EntryModel) -> Seq<DocModel> {
    if entry_passes(e) && !has_path(docs, e.path) {
        insert_by(doc_le(), doc_of(e), docs)
    } else {
        docs
    }
}

pub open spec fn submit_step(st: StateModel, e: EntryModel) -> StateModel {
    StateModel { docs: doc_step(st.docs, e), names: name_step(st.names, e.name) }
}

/// The index state a sequence of submitted entries builds: the specification
/// the executable builder is held to.
pub open spec fn build_state(entries: Seq<EntryModel>) -> StateModel
    decreases entries.len(),
{
    if entries.len() == 0 {
        StateModel { docs: seq![], names: seq![] }
    } else {
        submit_step(build_state(entries.drop_last()), entries.last())
    }
}

/// Well-formedness of a committed state: documents sorted by path with no
/// duplicate path, names sorted with no duplicate.
pub open spec fn state_wf(st: StateModel) -> bool {
    &&& sorted_by(st.docs, doc_le())
    &&& forall|i: int, j: int|
        0 <= i < j < st.docs.len() ==> (#[trigger] st.docs[i]).path != (#[trigger] st.docs[j]).path
    &&& sorted_by(st.names, name_le())
    &&& forall|i: int, j: int|
        0 <= i < j < st.names.len() ==> #[trigger] st.names[i] != #[trigger] st.names[j]
}

proof fn lemma_name_le_laws()
    ensures
        forall|a: Seq<char>, b: Seq<char>| #[trigger] name_le()(a, b) || name_le()(b, a),
        forall|a: Seq<char>, b: Seq<char>, c: Seq<char>|
            #[trigger] name_le()(a, b) && #[trigger] name_le()(b, c) ==> name_le()(a, c),
{
    assert forall|a: Seq<char>, b: Seq<char>| #[trigger] name_le()(a, b) || name_le()(b, a) by {
        lemma_lex_le_total(a, b);
    }
    assert forall|a: Seq<char>, b: Seq<char>, c: Seq<char>|
        #[trigger] name_le()(a, b) && #[trigger] name_le()(b, c) implies name_le()(a, c) by {
        lemma_lex_le_trans(a, b, c);
    }
}

proof fn lemma_doc_le_laws()
    ensures
        forall|a: DocModel, b: DocModel| #[trigger] doc_le()(a, b) || doc_le()(b, a),
        forall|a: DocModel, b: DocModel, c: DocModel|
            #[trigger] doc_le()(a, b) && #[trigger] doc_le()(b, c) ==> doc_le()(a, c),
{
    assert forall|a: DocModel, b: DocModel| #[trigger] doc_le()(a, b) || doc_le()(b, a) by {
        lemma_lex_le_total(a.path, b.path);
    }
    assert forall|a: DocModel, b: DocModel, c: DocModel|
        #[trigger] doc_le()(a, b) && #[trigger] doc_le()(b, c) implies doc_le()(a, c) by {
        lemma_lex_le_trans(a.path, b.path, c.path);
    }
}

/// Inserting a fresh name keeps names duplicate-free.
proof fn lemma_insert_name_distinct(x: Seq<char>, s: Seq<Seq<char>>)
    requires
        forall|i: int, j: int| 0 <= i < j < s.len() ==> #[trigger] s[i] != #[trigger] s[j],
        !s.contains(x),
    ensures
        forall|i: int, j: int|
            0 <= i < j < insert_by(name_le(), x, s).len() ==> #[trigger] insert_by(
                name_le(),
                x,
                s,
            )[i] != #[trigger] insert_by(name_le(), x, s)[j],
{
    let t = insert_by(name_le(), x, s);
    lemma_insert_by_len(name_le(), x, s);
    assert forall|i: int, j: int| 0 <= i < j < t.len() implies #[trigger] t[i] != #[trigger] t[j] by {
        if t[i] == t[j] {
            let y = t[i];
            lemma_insert_by_two_positions_name(x, s, i, j);
        }
    }
}

/// No value sits at two positions of `insert_by` when the base had no
/// duplicates and the inserted value is fresh.
proof fn lemma_insert_by_two_positions_name(x: Seq<char>, s: Seq<Seq<char>>, i: int, j: int)
    requires
        forall|a: int, b: int| 0 <= a < b < s.len() ==> #[trigger] s[a] != #[trigger] s[b],
        !s.contains(x),
        0 <= i < j < insert_by(name_le(), x, s).len(),
    ensures
        insert_by(name_le(), x, s)[i] != insert_by(name_le(), x, s)[j],
    decreases s.len(),
{
    let leq = name_le();
    let t = insert_by(leq, x, s);
    if s.len() == 0 {
        lemma_insert_by_len(leq, x, s);
        assert(false);
    } else if leq(x, s[0]) {
        // t == seq![x] + s
        if i == 0 {
            if t[j] == x {
                assert(s[j - 1] == x);
                assert(s.contains(x));
            }
        } else {
            assert(s[i - 1] != s[j - 1]);
        }
    } else {
        let u = insert_by(leq, x, s.drop_first());
        // t == seq![s[0]] + u
        assert(forall|k: int|
            0 <= k < s.drop_first().len() ==> s.drop_first()[k] == #[trigger] s[k + 1]);
        assert(!s.drop_first().contains(x)) by {
            if s.drop_first().contains(x) {
                let k = choose|k: int| 0 <= k < s.drop_first().len() && s.drop_first()[k] == x;
                assert(s[k + 1] == x);
            }
        }
        if i == 0 {
            // t[j] is a member of u: either x or an element of s.drop_first()
            let y = t[j];
            assert(u[j - 1] == y);
            assert(u.contains(y));
            lemma_insert_by_contains(leq, x, s.drop_first(), y);
            if y == x {
                if s[0] == x {
                    assert(s.contains(x)) by {
                        assert(s[0] == x);
                    }
                }
            } else {
                let k = choose|k: int|
                    0 <= k < s.drop_first().len() && s.drop_first()[k] == y;
                assert(s[k + 1] == y);
            }
        } else {
            lemma_insert_by_two_positions_name(x, s.drop_first(), i - 1, j - 1);
        }
    }
}

/// The document analogue: inserting a document with a fresh path keeps all
/// paths distinct.
proof fn lemma_insert_doc_two_positions(x: DocModel, s: Seq<DocModel>, i: int, j: int)
    requires
        forall|a: int, b: int|
            0 <= a < b < s.len() ==> (#[trigger] s[a]).path != (#[trigger] s[b]).path,
        !has_path(s, x.path),
        0 <= i < j < insert_by(doc_le(), x, s).len(),
    ensures
        insert_by(doc_le(), x, s)[i].path != insert_by(doc_le(), x, s)[j].path,
    decreases s.len(),
{
    let leq = doc_le();
    let t = insert_by(leq, x, s);
    if s.len() == 0 {
        lemma_insert_by_len(leq, x, s);
        assert(false);
    } else if leq(x, s[0]) {
        if i == 0 {
            if t[j].path == x.path {
                assert(s[j - 1].path == x.path);
                assert(has_path(s, x.path));
            }
        } else {
            assert(s[i - 1].path != s[j - 1].path);
        }
    } else {
        let u = insert_by(leq, x, s.drop_first());
        assert(forall|k: int|
            0 <= k < s.drop_first().len() ==> s.drop_first()[k] == #[trigger] s[k + 1]);
        assert(!has_path(s.drop_first(), x.path)) by {
            if has_path(s.drop_first(), x.path) {
                let k = choose|k: int|
                    0 <= k < s.drop_first().len() && s.drop_first()[k].path == x.path;
                assert(s[k + 1].path == x.path);
            }
        }
        if i == 0 {
            let y = t[j];
            assert(u[j - 1] == y);
            assert(u.contains(y));
            lemma_insert_by_contains(leq, x, s.drop_first(), y);
            if y == x {
                if s[0].path == x.path {
                    assert(has_path(s, x.path)) by {
                        assert(s[0].path == x.path);
                    }
                }
            } else {
                let k = choose|k: int|
                    0 <= k < s.drop_first().len() && s.drop_first()[k] == y;
                assert(s[k + 1] == y);
            }
        } else {
            lemma_insert_doc_two_positions(x, s.drop_first(), i - 1, j - 1);
        }
    }
}

/// Every build is well formed: documents strictly ordered by path — so every
/// committed path is unique — and names sorted without duplicates.
pub proof fn lemma_build_state_wf(entries: Seq<EntryModel>)
    ensures
        state_wf(build_state(entries)),
    decreases entries.len(),
{
    if entries.len() == 0 {
    } else {
        let st = build_state(entries.drop_last());
        let e = entries.last();
        lemma_build_state_wf(entries.drop_last());
        lemma_name_le_laws();
        lemma_doc_le_laws();
        // names
        if !st.names.contains(e.name) {
            lemma_insert_by_sorted(name_le(), e.name, st.names);
            lemma_insert_name_distinct(e.name, st.names);
        }
        // docs
        if entry_passes(e) && !has_path(st.docs, e.path) {
            lemma_insert_by_sorted(doc_le(), doc_of(e), st.docs);
            let t = insert_by(doc_le(), doc_of(e), st.docs);
            assert forall|i: int, j: int| 0 <= i < j < t.len() implies (#[trigger] t[i]).path != (
            #[trigger] t[j]).path by {
                lemma_insert_doc_two_positions(doc_of(e), st.docs, i, j);
            }
        }
    }
}

/// A document in `docs` with the same value is still there after an insert.
proof fn lemma_insert_preserves_membership<A>(leq: spec_fn(A, A) -> bool, x: A, s: Seq<A>, y: A)
    requires
        s.contains(y),
    ensures
        insert_by(leq, x, s).contains(y),
{
    lemma_insert_by_contains(leq, x, s, y);
}

/// Where every committed document comes from, and what every submitted entry
/// contributed: each document stems from a passing entry; every entry's name
/// is in the name set; every passing entry's path is represented.
pub proof fn lemma_build_state_origin(entries: Seq<EntryModel>)
    ensures
        forall|i: int|
            0 <= i < build_state(entries).docs.len() ==> exists|k: int|
                0 <= k < entries.len() && entry_passes(#[trigger] entries[k]) && #[trigger] build_state(
                    entries,
                ).docs[i] == doc_of(entries[k]),
        forall|k: int|
            0 <= k < entries.len() ==> build_state(entries).names.contains(
                (#[trigger] entries[k]).name,
            ),
        forall|k: int|
            0 <= k < entries.len() && entry_passes(#[trigger] entries[k]) ==> has_path(
                build_state(entries).docs,
                entries[k].path,
            ),
        forall|i: int|
            0 <= i < build_state(entries).names.len() ==> exists|k: int|
                0 <= k < entries.len() && #[trigger] build_state(entries).names[i] == entries[k].name,
    decreases entries.len(),
{
    if entries.len() == 0 {
    } else {
        let front = entries.drop_last();
        let st = build_state(front);
        let e = entries.last();
        let st1 = build_state(entries);
        lemma_build_state_origin(front);
        assert(forall|k: int| 0 <= k < front.len() ==> front[k] == #[trigger] entries[k]);
        assert(e == entries[entries.len() - 1]);
        // docs: origin of every document
        assert forall|i: int| 0 <= i < st1.docs.len() implies exists|k: int|
            0 <= k < entries.len() && entry_passes(#[trigger] entries[k]) && #[trigger] st1.docs[i]
                == doc_of(entries[k]) by {
            let d = st1.docs[i];
            if entry_passes(e) && !has_path(st.docs, e.path) {
                assert(st1.docs == insert_by(doc_le(), doc_of(e), st.docs));
                assert(st1.docs.contains(d));
                lemma_insert_by_contains(doc_le(), doc_of(e), st.docs, d);
                if d == doc_of(e) {
                    assert(entry_passes(entries[entries.len() - 1]) && st1.docs[i] == doc_of(
                        entries[entries.len() - 1],
                    ));
                } else {
                    assert(st.docs.contains(d));
                    let q = choose|q: int| 0 <= q < st.docs.len() && st.docs[q] == d;
                    let k = choose|k: int|
                        0 <= k < front.len() && entry_passes(#[trigger] front[k]) && st.docs[q]
                            == doc_of(front[k]);
                    assert(entry_passes(entries[k]) && st1.docs[i] == doc_of(entries[k]));
                }
            } else {
                assert(st1.docs == st.docs);
                let k = choose|k: int|
                    0 <= k < front.len() && entry_passes(#[trigger] front[k]) && st.docs[i]
                        == doc_of(front[k]);
                assert(entry_passes(entries[k]) && st1.docs[i] == doc_of(entries[k]));
            }
        }
        // names: every entry's name present
        assert forall|k: int| 0 <= k < entries.len() implies st1.names.contains(
            (#[trigger] entries[k]).name,
        ) by {
            if st.names.contains(e.name) {
                assert(st1.names == st.names);
                if k < entries.len() - 1 {
                    assert(st.names.contains(front[k].name));
                }
            } else {
                assert(st1.names == insert_by(name_le(), e.name, st.names));
                lemma_insert_by_contains(name_le(), e.name, st.names, entries[k].name);
                if k < entries.len() - 1 {
                    assert(st.names.contains(front[k].name));
                }
            }
        }
        // docs: every passing entry's path represented
        assert forall|k: int|
            0 <= k < entries.len() && entry_passes(#[trigger] entries[k]) implies has_path(
            st1.docs,
            entries[k].path,
        ) by {
            if k < entries.len() - 1 {
                assert(has_path(st.docs, front[k].path));
                let q = choose|q: int| 0 <= q < st.docs.len() && st.docs[q].path == entries[k].path;
                if entry_passes(e) && !has_path(st.docs, e.path) {
                    lemma_insert_preserves_membership(doc_le(), doc_of(e), st.docs, st.docs[q]);
                    let r = choose|r: int|
                        0 <= r < st1.docs.len() && st1.docs[r] == st.docs[q];
                    assert(st1.docs[r].path == entries[k].path);
                } else {
                    assert(st1.docs[q].path == entries[k].path);
                }
            } else {
                if !has_path(st.docs, e.path) {
                    assert(st1.docs == insert_by(doc_le(), doc_of(e), st.docs));
                    lemma_insert_by_contains(doc_le(), doc_of(e), st.docs, doc_of(e));
                    let r = choose|r: int|
                        0 <= r < st1.docs.len() && st1.docs[r] == doc_of(e);
                    assert(st1.docs[r].path == e.path);
                } else {
                    let q = choose|q: int| 0 <= q < st.docs.len() && st.docs[q].path == e.path;
                    if entry_passes(e) {
                        assert(st1.docs == st.docs);
                        assert(st1.docs[q].path == e.path);
                    }
                }
            }
        }
        // names: origin of every name
        assert forall|i: int| 0 <= i < st1.names.len() implies exists|k: int|
            0 <= k < entries.len() && #[trigger] st1.names[i] == entries[k].name by {
            let nm = st1.names[i];
            if st.names.contains(e.name) {
                assert(st1.names == st.names);
                let k = choose|k: int|
                    0 <= k < front.len() && #[trigger] st.names[i] == front[k].name;
                assert(st1.names[i] == entries[k].name);
            } else {
                assert(st1.names == insert_by(name_le(), e.name, st.names));
                assert(st1.names.contains(nm));
                lemma_insert_by_contains(name_le(), e.name, st.names, nm);
                if nm == e.name {
                    assert(st1.names[i] == entries[entries.len() - 1].name);
                } else {
                    assert(st.names.contains(nm));
                    let q = choose|q: int| 0 <= q < st.names.len() && st.names[q] == nm;
                    let k = choose|k: int|
                        0 <= k < front.len() && #[trigger] st.names[q] == front[k].name;
                    assert(st1.names[i] == entries[k].name);
                }
            }
        }
    }
}

/// Inserts `x` into the sorted name list unless it is already there.
fn insert_name(names: &mut Vec<String>, x: String)
    requires
        sorted_by(old(names).deep_view(), name_le()),
    ensures
        final(names).deep_view() == name_step(old(names).deep_view(), x@),
{
    let ghost dv = names.deep_view();
    let n = names.len();
    let mut p: usize = 0;
    while p < n && !str_le(x.as_str(), names[p].as_str())
        invariant
            n == names@.len(),
            names.deep_view() == dv,
            p <= n,
            forall|j: int| 0 <= j < p ==> !lex_le(x@, #[trigger] dv[j]),
        decreases n - p,
    {
        proof {
            assert(dv[p as int] == names@[p as int]@);
        }
        p = p + 1;
    }
    proof {
        assert(p < n ==> lex_le(x@, dv[p as int])) by {
            if p < n {
                assert(dv[p as int] == names@[p as int]@);
            }
        }
        lemma_sorted_name_position(dv, x@, p as int);
    }
    if p < n {
        let same = x == names[p];
        proof {
            assert(names@[p as int]@ == dv[p as int]);
        }
        if same {
            proof {
                assert(dv.contains(x@));
            }
            return ;
        }
    }
    proof {
        assert(!dv.contains(x@));
        lemma_insert_by_position(name_le(), x@, dv, p as int);
    }
    names.insert(p, x);
    proof {
        assert(final(names).deep_view() =~= dv.take(p as int) + seq![x@] + dv.skip(p as int));
    }
}

/// At the first position not strictly below `x`, presence anywhere means
/// presence right there.
proof fn lemma_sorted_name_position(s: Seq<Seq<char>>, x: Seq<char>, p: int)
    requires
        sorted_by(s, name_le()),
        0 <= p <= s.len(),
        forall|j: int| 0 <= j < p ==> !lex_le(x, #[trigger] s[j]),
        p < s.len() ==> lex_le(x, s[p]),
    ensures
        s.contains(x) <==> (p < s.len() && s[p] == x),
{
    if s.contains(x) {
        let q = choose|q: int| 0 <= q < s.len() && s[q] == x;
        lemma_lex_le_refl(x);
        assert(lex_le(x, s[q]));
        assert(q >= p);
        if q > p {
            assert(name_le()(s[p], s[q]));
            lemma_lex_le_antisym(x, s[p]);
        }
    }
}

/// The document analogue of `lemma_sorted_name_position`, on paths.
proof fn lemma_sorted_doc_position(s: Seq<DocModel>, x: Seq<char>, p: int)
    requires
        sorted_by(s, doc_le()),
        0 <= p <= s.len(),
        forall|j: int| 0 <= j < p ==> !lex_le(x, (#[trigger] s[j]).path),
        p < s.len() ==> lex_le(x, s[p].path),
    ensures
        has_path(s, x) <==> (p < s.len() && s[p].path == x),
{
    if has_path(s, x) {
        let q = choose|q: int| 0 <= q < s.len() && s[q].path == x;
        lemma_lex_le_refl(x);
        assert(lex_le(x, s[q].path));
        assert(q >= p);
        if q > p {
            assert(doc_le()(s[p], s[q]));
            lemma_lex_le_antisym(x, s[p].path);
        }
    }
}

/// Inserts a freshly built document in path order, unless its path is
/// already committed (the first submission of a path wins).
fn insert_doc(docs: &mut Vec<Document>, x: Document)
    requires
        sorted_by(old(docs).deep_view(), doc_le()),
    ensures
        final(docs).deep_view() == (if has_path(old(docs).deep_view(), x@.path) {
            old(docs).deep_view()
        } else {
            insert_by(doc_le(), x@, old(docs).deep_view())
        }),
{
    let ghost dv = docs.deep_view();
    let n = docs.len();
    let mut p: usize = 0;
    while p < n && !str_le(x.path.as_str(), docs[p].path.as_str())
        invariant
            n == docs@.len(),
            docs.deep_view() == dv,
            p <= n,
            forall|j: int| 0 <= j < p ==> !lex_le(x@.path, (#[trigger] dv[j]).path),
        decreases n - p,
    {
        proof {
            assert(dv[p as int] == docs@[p as int]@);
        }
        p = p + 1;
    }
    proof {
        assert(p < n ==> lex_le(x@.path, dv[p as int].path)) by {
            if p < n {
                assert(dv[p as int] == docs@[p as int]@);
            }
        }
        lemma_sorted_doc_position(dv, x@.path, p as int);
    }
    if p < n {
        let same = x.path == docs[p].path;
        proof {
            assert(docs@[p as int]@ == dv[p as int]);
        }
        if same {
            proof {
                assert(has_path(dv, x@.path));
            }
            return ;
        }
    }
    proof {
        assert(!has_path(dv, x@.path));
        lemma_insert_by_position(doc_le(), x@, dv, p as int);
    }
    docs.insert(p, x);
    proof {
        assert(final(docs).deep_view() =~= dv.take(p as int) + seq![x@] + dv.skip(p as int));
    }
}

/// Accumulates one build cycle's submissions; progress is observable through
/// `processed` and `total`.
pub struct IndexBuilder {
    state: IndexState,
    processed: usize,
    total: usize,
    seen: Ghost<Seq<EntryModel>>,
}

impl IndexBuilder {
    /// The entries submitted so far.
    pub closed spec fn seen(&self) -> Seq<EntryModel> {
        self.seen@
    }

    pub closed spec fn total_spec(&self) -> usize {
        self.total
    }

    /// The builder tracks exactly the state its submissions build.
    pub closed spec fn inv(&self) -> bool {
        &&& self.state@ == build_state(self.seen@)
        &&& self.processed == self.seen@.len()
    }

    /// A fresh builder for a cycle expecting `total` candidate files.
    pub fn new(total: usize) -> (r: IndexBuilder)
        ensures
            r.inv(),
            r.seen() == Seq::<EntryModel>::empty(),
            r.total_spec() == total,
    {
        let r = IndexBuilder {
            state: IndexState { docs: Vec::new(), names: Vec::new() },
            processed: 0,
            total,
            seen: Ghost(Seq::empty()),
        };
        proof {
            assert(r.state@.docs =~= build_state(r.seen@).docs);
            assert(r.state@.names =~= build_state(r.seen@).names);
            assert(r.state@ == build_state(r.seen@));
        }
        r
    }

    /// Submits one candidate file: its name joins the fuzzy set; a passing
    /// entry with a fresh path becomes a committed document.
    pub fn submit(&mut self, entry: FileEntry)
        requires
            old(self).inv(),
            old(self).seen().len() < usize::MAX,
        ensures
            final(self).inv(),
            final(self).seen() == old(self).seen().push(entry@),
            final(self).total_spec() == old(self).total_spec(),
    {
        let ghost em = entry@;
        let ghost st0 = self.state@;
        proof {
            lemma_build_state_wf(self.seen@);
        }
        let name = entry.name.clone();
        insert_name(&mut self.state.names, name);
        match build_document(entry) {
            Some(doc) => {
                proof {
                    assert(doc@ == doc_of(em));
                }
                insert_doc(&mut self.state.docs, doc);
            },
            None => {
                proof {
                    assert(!entry_passes(em));
                }
            },
        }
        self.processed = self.processed + 1;
        proof {
            self.seen@ = self.seen@.push(em);
            assert(self.seen@.drop_last() =~= old(self).seen@);
            assert(self.seen@.last() == em);
            assert(self.state@ == submit_step(st0, em));
            assert(build_state(self.seen@) == submit_step(build_state(old(self).seen@), em));
        }
    }

    /// How many submissions this cycle has taken so far.
    pub fn processed(&self) -> (r: usize)
        requires
            self.inv(),
        ensures
            r == self.seen().len(),
    {
        self.processed
    }

    /// How many candidate files the cycle expects in all.
    pub fn total(&self) -> (r: usize)
        ensures
            r == self.total_spec(),
    {
        self.total
    }

    /// Ends the cycle: the returned state is exactly the build over every
    /// submitted entry, ready for an atomic commit.
    pub fn finish(self) -> (r: IndexState)
        requires
            self.inv(),
        ensures
            r@ == build_state(self.seen()),
            state_wf(r@),
    {
        proof {
            lemma_build_state_wf(self.seen@);
        }
        self.state
    }
}

} // verus!
