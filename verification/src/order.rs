//! Lexicographic ordering of character sequences and sorted insertion.
//!
//! The fuzzy name structure and the committed document store both keep their
//! entries sorted; this module holds the order itself, a generic sorted
//! insertion at the specification level, and the executable comparison.

use vstd::prelude::*;
use vstd::relations::sorted_by;

verus! {

/// Lexicographic "less than or equal" on character sequences, comparing
/// characters by Unicode scalar value.
pub open spec fn lex_le(a: Seq<char>, b: Seq<char>) -> bool
    decreases a.len(),
{
    if a.len() == 0 {
        true
    } else if b.len() == 0 {
        false
    } else if a[0] == b[0] {
        lex_le(a.drop_first(), b.drop_first())
    } else {
        (a[0] as int) < (b[0] as int)
    }
}

/// Strict lexicographic order.
pub open spec fn lex_lt(a: Seq<char>, b: Seq<char>) -> bool {
    lex_le(a, b) && a != b
}

pub proof fn lemma_lex_le_refl(a: Seq<char>)
    ensures
        lex_le(a, a),
    decreases a.len(),
{
    if a.len() > 0 {
        lemma_lex_le_refl(a.drop_first());
    }
}

pub proof fn lemma_lex_le_total(a: Seq<char>, b: Seq<char>)
    ensures
        lex_le(a, b) || lex_le(b, a),
    decreases a.len(),
{
    if a.len() > 0 && b.len() > 0 {
        if a[0] == b[0] {
            lemma_lex_le_total(a.drop_first(), b.drop_first());
        } else {
            assert(a[0] as int != b[0] as int);
        }
    }
}

pub proof fn lemma_lex_le_antisym(a: Seq<char>, b: Seq<char>)
    requires
        lex_le(a, b),
        lex_le(b, a),
    ensures
        a == b,
    decreases a.len(),
{
    if a.len() == 0 {
        assert(b.len() == 0);
        assert(a =~= b);
    } else {
        assert(b.len() > 0);
        assert(a[0] == b[0]);
        lemma_lex_le_antisym(a.drop_first(), b.drop_first());
        assert(a.drop_first().len() == a.len() - 1);
        assert(b.drop_first().len() == b.len() - 1);
        assert(a.drop_first() =~= b.drop_first());
        assert(a.len() == b.len());
        assert forall|i: int| 0 <= i < a.len() implies a[i] == b[i] by {
            if i >= 1 {
                assert(a.drop_first()[i - 1] == b.drop_first()[i - 1]);
            }
        }
        assert(a =~= b);
    }
}

pub proof fn lemma_lex_le_trans(a: Seq<char>, b: Seq<char>, c: Seq<char>)
    requires
        lex_le(a, b),
        lex_le(b, c),
    ensures
        lex_le(a, c),
    decreases a.len(),
{
    if a.len() > 0 {
        assert(b.len() > 0);
        assert(c.len() > 0);
        if a[0] == b[0] && b[0] == c[0] {
            lemma_lex_le_trans(a.drop_first(), b.drop_first(), c.drop_first());
        }
    }
}

/// Insertion of `x` into `s` just before the first element that `x` is
/// `leq`-below; the basis of every sorted structure in the crate.
pub open spec fn insert_by<A>(leq: spec_fn(A, A) -> bool, x: A, s: Seq<A>) -> Seq<A>
    decreases s.len(),
{
    if s.len() == 0 {
        seq![x]
    } else if leq(x, s[0]) {
        seq![x] + s
    } else {
        seq![s[0]] + insert_by(leq, x, s.drop_first())
    }
}

pub proof fn lemma_insert_by_len<A>(leq: spec_fn(A, A) -> bool, x: A, s: Seq<A>)
    ensures
        insert_by(leq, x, s).len() == s.len() + 1,
    decreases s.len(),
{
    if s.len() > 0 && !leq(x, s[0]) {
        lemma_insert_by_len(leq, x, s.drop_first());
    }
}

pub proof fn lemma_insert_by_contains<A>(leq: spec_fn(A, A) -> bool, x: A, s: Seq<A>, y: A)
    ensures
        insert_by(leq, x, s).contains(y) <==> (y == x || s.contains(y)),
    decreases s.len(),
{
    let t = insert_by(leq, x, s);
    if s.len() == 0 {
        if y == x {
            assert(t[0] == y);
        }
        if t.contains(y) {
            let i = choose|i: int| 0 <= i < t.len() && t[i] == y;
            assert(i == 0);
        }
    } else if leq(x, s[0]) {
        if y == x {
            assert(t[0] == y);
        }
        if s.contains(y) {
            let i = choose|i: int| 0 <= i < s.len() && s[i] == y;
            assert(t[i + 1] == y);
        }
        if t.contains(y) {
            let i = choose|i: int| 0 <= i < t.len() && t[i] == y;
            if i > 0 {
                assert(s[i - 1] == y);
            }
        }
    } else {
        lemma_insert_by_contains(leq, x, s.drop_first(), y);
        let u = insert_by(leq, x, s.drop_first());
        if y == x {
            let i = choose|i: int| 0 <= i < u.len() && u[i] == y;
            assert(t[i + 1] == y);
        }
        if s.contains(y) {
            let i = choose|i: int| 0 <= i < s.len() && s[i] == y;
            if i == 0 {
                assert(t[0] == y);
            } else {
                assert(s.drop_first()[i - 1] == y);
                assert(u.contains(y));
                let j = choose|j: int| 0 <= j < u.len() && u[j] == y;
                assert(t[j + 1] == y);
            }
        }
        if t.contains(y) {
            let i = choose|i: int| 0 <= i < t.len() && t[i] == y;
            if i == 0 {
                assert(s[0] == y);
            } else {
                assert(u[i - 1] == y);
                assert(u.contains(y));
                if s.drop_first().contains(y) {
                    let j = choose|j: int| 0 <= j < s.drop_first().len() && s.drop_first()[j] == y;
                    assert(s[j + 1] == y);
                }
            }
        }
    }
}

pub proof fn lemma_insert_by_sorted<A>(leq: spec_fn(A, A) -> bool, x: A, s: Seq<A>)
    requires
        sorted_by(s, leq),
        forall|a: A, b: A| #[trigger] leq(a, b) || leq(b, a),
        forall|a: A, b: A, c: A| #[trigger] leq(a, b) && #[trigger] leq(b, c) ==> leq(a, c),
    ensures
        sorted_by(insert_by(leq, x, s), leq),
    decreases s.len(),
{
    if s.len() == 0 {
    } else if leq(x, s[0]) {
        let t = seq![x] + s;
        assert forall|i: int, j: int| 0 <= i < j < t.len() implies leq(t[i], t[j]) by {
            if i == 0 {
                assert(leq(x, s[0]));
                if j > 1 {
                    assert(leq(s[0], s[j - 1]));
                }
            } else {
                assert(leq(s[i - 1], s[j - 1]));
            }
        }
    } else {
        assert(leq(s[0], x));
        assert(sorted_by(s.drop_first(), leq)) by {
            assert(forall|i: int, j: int|
                0 <= i < j < s.drop_first().len() ==> leq(
                    #[trigger] s.drop_first()[i],
                    #[trigger] s.drop_first()[j],
                ));
        }
        lemma_insert_by_sorted(leq, x, s.drop_first());
        lemma_insert_by_len(leq, x, s.drop_first());
        let t = seq![s[0]] + insert_by(leq, x, s.drop_first());
        assert forall|i: int, j: int| 0 <= i < j < t.len() implies leq(t[i], t[j]) by {
            if i == 0 {
                let y = t[j];
                assert(insert_by(leq, x, s.drop_first()).contains(y)) by {
                    assert(insert_by(leq, x, s.drop_first())[j - 1] == y);
                }
                lemma_insert_by_contains(leq, x, s.drop_first(), y);
                if y == x {
                    assert(leq(s[0], x));
                } else {
                    assert(s.drop_first().contains(y));
                    let k = choose|k: int|
                        0 <= k < s.drop_first().len() && s.drop_first()[k] == y;
                    assert(s[k + 1] == y);
                    assert(leq(s[0], s[k + 1]));
                }
            } else {
                assert(leq(
                    insert_by(leq, x, s.drop_first())[i - 1],
                    insert_by(leq, x, s.drop_first())[j - 1],
                ));
            }
        }
    }
}

/// Inserting at the first position `p` whose element is not `leq`-below `x`
/// is the same as the recursive insertion: what the executable code does.
pub proof fn lemma_insert_by_position<A>(leq: spec_fn(A, A) -> bool, x: A, s: Seq<A>, p: int)
    requires
        0 <= p <= s.len(),
        forall|j: int| 0 <= j < p ==> !leq(x, #[trigger] s[j]),
        p < s.len() ==> leq(x, s[p]),
    ensures
        insert_by(leq, x, s) =~= s.take(p) + seq![x] + s.skip(p),
    decreases p,
{
    if p == 0 {
        if s.len() == 0 {
            assert(insert_by(leq, x, s) =~= seq![x]);
        }
    } else {
        assert(!leq(x, s[0]));
        assert(forall|j: int|
            0 <= j < p - 1 ==> s.drop_first()[j] == #[trigger] s[j + 1]);
        lemma_insert_by_position(leq, x, s.drop_first(), p - 1);
        assert(s.take(p) =~= seq![s[0]] + s.drop_first().take(p - 1));
        assert(s.skip(p) =~= s.drop_first().skip(p - 1));
    }
}

/// Executable lexicographic comparison of two strings, against `lex_le`.
pub fn str_le(a: &str, b: &str) -> (r: bool)
    ensures
        r == lex_le(a@, b@),
{
    let alen = a.unicode_len();
    let blen = b.unicode_len();
    let mut i: usize = 0;
    proof {
        assert(a@.skip(0) =~= a@);
        assert(b@.skip(0) =~= b@);
    }
    while i < alen && i < blen
        invariant
            alen == a@.len(),
            blen == b@.len(),
            i <= alen,
            i <= blen,
            lex_le(a@, b@) == lex_le(a@.skip(i as int), b@.skip(i as int)),
            lex_le(b@, a@) == lex_le(b@.skip(i as int), a@.skip(i as int)),
        decreases alen - i,
    {
        let ca = a.get_char(i);
        let cb = b.get_char(i);
        proof {
            assert(a@.skip(i as int)[0] == a@[i as int]);
            assert(b@.skip(i as int)[0] == b@[i as int]);
            assert(a@.skip(i as int).drop_first() =~= a@.skip(i as int + 1));
            assert(b@.skip(i as int).drop_first() =~= b@.skip(i as int + 1));
        }
        if ca != cb {
            return (ca as u32) < (cb as u32);
        }
        i = i + 1;
    }
    proof {
        assert(a@.skip(i as int).len() == alen - i);
        assert(b@.skip(i as int).len() == blen - i);
    }
    i == alen
}

} // verus!
