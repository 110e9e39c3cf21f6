//! Fuzzy filename lookup: a bounded, case-insensitive substring scan over
//! the sorted, deduplicated name set of the committed index.

use vstd::prelude::*;
use vstd::relations::sorted_by;

use crate::store::name_le;
use crate::tok::{lower_of, lowercase};

verus! {

/// `needle` occurs contiguously somewhere in `hay`.
pub open spec fn contains_seq(hay: Seq<char>, needle: Seq<char>) -> bool {
    exists|i: int|
        0 <= i && i + needle.len() <= hay.len() && #[trigger] hay.subrange(i, i + needle.len())
            == needle
}

/// A name matches a pattern when its lowercase form contains the lowercase
/// pattern as a substring.
pub open spec fn name_matches(name: Seq<char>, lowered_pattern: Seq<char>) -> bool {
    contains_seq(lower_of(name), lowered_pattern)
}

/// The names matching a lowered pattern, in the order they sit in the set.
pub open spec fn fuzzy_matches(names: Seq<Seq<char>>, lp: Seq<char>) -> Seq<Seq<char>>
    decreases names.len(),
{
    if names.len() == 0 {
        seq![]
    } else if name_matches(names[0], lp) {
        seq![names[0]] + fuzzy_matches(names.drop_first(), lp)
    } else {
        fuzzy_matches(names.drop_first(), lp)
    }
}

/// The first `k` elements, or all of them when fewer.
pub open spec fn take_up_to<A>(s: Seq<A>, k: int) -> Seq<A> {
    if k <= s.len() {
        s.take(k)
    } else {
        s
    }
}

/// Appending one name extends the match list by that name or not at all.
pub proof fn lemma_fuzzy_matches_push(names: Seq<Seq<char>>, x: Seq<char>, lp: Seq<char>)
    ensures
        fuzzy_matches(names.push(x), lp) == if name_matches(x, lp) {
            fuzzy_matches(names, lp).push(x)
        } else {
            fuzzy_matches(names, lp)
        },
    decreases names.len(),
{
    if names.len() == 0 {
        assert(names =~= Seq::<Seq<char>>::empty());
        assert(names.push(x)[0] == x);
        assert(names.push(x).drop_first() =~= names);
        assert(fuzzy_matches(names, lp) == Seq::<Seq<char>>::empty());
        if name_matches(x, lp) {
            assert(fuzzy_matches(names.push(x), lp) == seq![x] + fuzzy_matches(names, lp));
            assert(seq![x] + fuzzy_matches(names, lp) =~= fuzzy_matches(names, lp).push(x));
        } else {
            assert(fuzzy_matches(names.push(x), lp) == fuzzy_matches(names, lp));
        }
    } else {
        assert(names.push(x)[0] == names[0]);
        assert(names.push(x).drop_first() =~= names.drop_first().push(x));
        lemma_fuzzy_matches_push(names.drop_first(), x, lp);
        if name_matches(names[0], lp) {
            assert(fuzzy_matches(names.push(x), lp) == seq![names[0]] + fuzzy_matches(
                names.drop_first().push(x),
                lp,
            ));
            assert(fuzzy_matches(names, lp) == seq![names[0]] + fuzzy_matches(
                names.drop_first(),
                lp,
            ));
            if name_matches(x, lp) {
                assert(seq![names[0]] + fuzzy_matches(names.drop_first(), lp).push(x) =~= (
                seq![names[0]] + fuzzy_matches(names.drop_first(), lp)).push(x));
            }
        } else {
            assert(fuzzy_matches(names.push(x), lp) == fuzzy_matches(
                names.drop_first().push(x),
                lp,
            ));
            assert(fuzzy_matches(names, lp) == fuzzy_matches(names.drop_first(), lp));
        }
    }
}

/// Every match is one of the names.
pub proof fn lemma_fuzzy_matches_membership(names: Seq<Seq<char>>, lp: Seq<char>)
    ensures
        forall|i: int|
            0 <= i < fuzzy_matches(names, lp).len() ==> names.contains(
                #[trigger] fuzzy_matches(names, lp)[i],
            ),
    decreases names.len(),
{
    if names.len() > 0 {
        lemma_fuzzy_matches_membership(names.drop_first(), lp);
        let m = fuzzy_matches(names, lp);
        assert forall|i: int| 0 <= i < m.len() implies names.contains(#[trigger] m[i]) by {
            let rest = fuzzy_matches(names.drop_first(), lp);
            if name_matches(names[0], lp) {
                if i == 0 {
                    assert(names[0] == m[0]);
                } else {
                    assert(m[i] == rest[i - 1]);
                    assert(names.drop_first().contains(m[i]));
                    let j = choose|j: int|
                        0 <= j < names.drop_first().len() && names.drop_first()[j] == m[i];
                    assert(names[j + 1] == m[i]);
                }
            } else {
                assert(m[i] == rest[i]);
                assert(names.drop_first().contains(m[i]));
                let j = choose|j: int|
                    0 <= j < names.drop_first().len() && names.drop_first()[j] == m[i];
                assert(names[j + 1] == m[i]);
            }
        }
    }
}

/// Matching keeps the names' order: the match list of a sorted set is
/// sorted.
pub proof fn lemma_fuzzy_matches_sorted(names: Seq<Seq<char>>, lp: Seq<char>)
    requires
        sorted_by(names, name_le()),
    ensures
        sorted_by(fuzzy_matches(names, lp), name_le()),
    decreases names.len(),
{
    if names.len() > 0 {
        assert(sorted_by(names.drop_first(), name_le())) by {
            assert(forall|i: int, j: int|
                0 <= i < j < names.drop_first().len() ==> name_le()(
                    #[trigger] names.drop_first()[i],
                    #[trigger] names.drop_first()[j],
                ));
        }
        lemma_fuzzy_matches_sorted(names.drop_first(), lp);
        lemma_fuzzy_matches_membership(names.drop_first(), lp);
        let m = fuzzy_matches(names, lp);
        let rest = fuzzy_matches(names.drop_first(), lp);
        if name_matches(names[0], lp) {
            assert forall|i: int, j: int| 0 <= i < j < m.len() implies name_le()(
                #[trigger] m[i],
                #[trigger] m[j],
            ) by {
                if i == 0 {
                    assert(m[j] == rest[j - 1]);
                    assert(names.drop_first().contains(rest[j - 1]));
                    let q = choose|q: int|
                        0 <= q < names.drop_first().len() && names.drop_first()[q] == rest[j - 1];
                    assert(names[q + 1] == rest[j - 1]);
                    assert(name_le()(names[0], names[q + 1]));
                } else {
                    assert(m[i] == rest[i - 1] && m[j] == rest[j - 1]);
                    assert(name_le()(rest[i - 1], rest[j - 1]));
                }
            }
        }
    }
}

/// Match lists concatenate over split name sets.
pub proof fn lemma_fuzzy_matches_concat(a: Seq<Seq<char>>, b: Seq<Seq<char>>, lp: Seq<char>)
    ensures
        fuzzy_matches(a + b, lp) == fuzzy_matches(a, lp) + fuzzy_matches(b, lp),
    decreases b.len(),
{
    if b.len() == 0 {
        assert(a + b =~= a);
        assert(fuzzy_matches(a, lp) + fuzzy_matches(b, lp) =~= fuzzy_matches(a, lp));
    } else {
        assert(b =~= b.drop_last().push(b.last()));
        assert(a + b =~= (a + b.drop_last()).push(b.last()));
        lemma_fuzzy_matches_concat(a, b.drop_last(), lp);
        lemma_fuzzy_matches_push(a + b.drop_last(), b.last(), lp);
        lemma_fuzzy_matches_push(b.drop_last(), b.last(), lp);
        if name_matches(b.last(), lp) {
            assert((fuzzy_matches(a, lp) + fuzzy_matches(b.drop_last(), lp)).push(b.last()) =~= fuzzy_matches(
                a,
                lp,
            ) + fuzzy_matches(b.drop_last(), lp).push(b.last()));
        }
    }
}

/// Executable substring test, against `contains_seq`.
pub fn contains_sub(hay: &str, needle: &str) -> (r: bool)
    ensures
        r == contains_seq(hay@, needle@),
{
    let h = hay.unicode_len();
    let m = needle.unicode_len();
    if m > h {
        proof {
            assert(!contains_seq(hay@, needle@));
        }
        return false;
    }
    if m == 0 {
        proof {
            assert(hay@.subrange(0, 0 + needle@.len() as int) =~= needle@);
        }
        return true;
    }
    let mut i: usize = 0;
    while i <= h - m
        invariant
            h == hay@.len(),
            m == needle@.len(),
            0 < m <= h,
            i <= h - m + 1,
            forall|j: int|
                0 <= j < i ==> #[trigger] hay@.subrange(j, j + needle@.len()) != needle@,
        decreases h - m - i + 1,
    {
        let mut k: usize = 0;
        let mut hit = true;
        while k < m
            invariant
                h == hay@.len(),
                m == needle@.len(),
                i + m <= h,
                k <= m,
                hit ==> forall|t: int| 0 <= t < k ==> hay@[i + t] == needle@[t],
                !hit ==> hay@.subrange(i as int, i + needle@.len()) != needle@,
            decreases m - k,
        {
            if hay.get_char(i + k) != needle.get_char(k) {
                proof {
                    assert(hay@.subrange(i as int, i + needle@.len())[k as int] == hay@[i + k]);
                }
                hit = false;
                k = m;
            } else {
                k = k + 1;
            }
        }
        if hit {
            proof {
                assert(hay@.subrange(i as int, i + needle@.len()) =~= needle@);
            }
            return true;
        }
        i = i + 1;
    }
    proof {
        assert forall|j: int|
            0 <= j && j + needle@.len() <= hay@.len() implies #[trigger] hay@.subrange(
            j,
            j + needle@.len(),
        ) != needle@ by {
            assert(j < i);
        }
    }
    false
}

/// Up to `k` names, in ascending sorted order, whose lowercase form contains
/// the lowercase pattern; the scan stops at the `k`th hit.
pub fn fuzzy_query(names: &Vec<String>, pattern: &str, k: usize) -> (r: Vec<String>)
    ensures
        r.deep_view() == take_up_to(fuzzy_matches(names.deep_view(), lower_of(pattern@)), k as int),
{
    let ghost dv = names.deep_view();
    let ghost lp = lower_of(pattern@);
    let lowered_pattern = lowercase(pattern);
    let n = names.len();
    let mut r: Vec<String> = Vec::new();
    let mut i: usize = 0;
    proof {
        assert(dv.take(0) =~= Seq::<Seq<char>>::empty());
        assert(r.deep_view() =~= fuzzy_matches(dv.take(0), lp));
    }
    while i < n && r.len() < k
        invariant
            n == names@.len(),
            names.deep_view() == dv,
            lowered_pattern@ == lp,
            i <= n,
            r.len() <= k,
            r.deep_view() == fuzzy_matches(dv.take(i as int), lp),
        decreases n - i,
    {
        let lowered_name = lowercase(names[i].as_str());
        proof {
            assert(names@[i as int]@ == dv[i as int]);
            assert(dv.take(i as int + 1) =~= dv.take(i as int).push(dv[i as int]));
            lemma_fuzzy_matches_push(dv.take(i as int), dv[i as int], lp);
        }
        if contains_sub(lowered_name.as_str(), lowered_pattern.as_str()) {
            let ghost prev = r.deep_view();
            let nm = names[i].clone();
            r.push(nm);
            proof {
                assert(r.deep_view() =~= prev.push(dv[i as int]));
            }
        }
        i = i + 1;
    }
    proof {
        let full = fuzzy_matches(dv, lp);
        if r.len() < k {
            assert(i == n);
            assert(dv.take(n as int) =~= dv);
            assert(take_up_to(full, k as int) == r.deep_view());
        } else {
            assert(dv =~= dv.take(i as int) + dv.skip(i as int));
            lemma_fuzzy_matches_concat(dv.take(i as int), dv.skip(i as int), lp);
            assert(full.take(k as int) =~= fuzzy_matches(dv.take(i as int), lp));
        }
    }
    r
}

} // verus!
