//! Tokenization of text into index terms.
//!
//! A term is a maximal run of alphanumeric characters, lowercased unless a
//! query asks for case sensitivity; every other character is a separator.
//! The alphanumeric classification and the lowercase mapping are Unicode's,
//! through the standard library.

use vstd::prelude::*;

verus! {

/// What `char::is_alphanumeric` returns: whether the character is
/// Unicode-alphanumeric, a function of the character alone.
pub uninterp spec fn is_word_char(c: char) -> bool;

/// Relies on char::is_alphanumeric: the Unicode alphanumeric classification
/// depends on the character alone.
#[verifier::external_body]
pub(crate) fn is_word_char_exec(c: char) -> (r: bool)
    ensures
        r == is_word_char(c),
{
    c.is_alphanumeric()
}

/// What `str::to_lowercase` returns: a function of the characters alone.
pub uninterp spec fn lower_of(s: Seq<char>) -> Seq<char>;

/// Relies on str::to_lowercase: the lowercase form depends on the
/// characters alone, and an empty string stays empty.
#[verifier::external_body]
pub(crate) fn lowercase(s: &str) -> (r: String)
    ensures
        r@ == lower_of(s@),
        s@.len() == 0 ==> r@.len() == 0,
{
    s.to_lowercase()
}

/// Length of the run of word characters at the front of `s`.
pub open spec fn word_len(s: Seq<char>) -> nat
    decreases s.len(),
{
    if s.len() == 0 || !is_word_char(s[0]) {
        0
    } else {
        1 + word_len(s.drop_first())
    }
}

pub proof fn lemma_word_len_le(s: Seq<char>)
    ensures
        word_len(s) <= s.len(),
    decreases s.len(),
{
    if s.len() > 0 && is_word_char(s[0]) {
        lemma_word_len_le(s.drop_first());
    }
}

/// `word_len` is exactly the first position that ends the run of word
/// characters, as the executable scan finds it.
pub proof fn lemma_word_len_exact(s: Seq<char>, m: int)
    requires
        0 <= m <= s.len(),
        forall|k: int| 0 <= k < m ==> is_word_char(#[trigger] s[k]),
        m < s.len() ==> !is_word_char(s[m]),
    ensures
        word_len(s) == m,
    decreases m,
{
    if m == 0 {
    } else {
        assert(is_word_char(s[0]));
        assert(forall|k: int| 0 <= k < m - 1 ==> s.drop_first()[k] == #[trigger] s[k + 1]);
        assert(s.drop_first().len() == s.len() - 1);
        lemma_word_len_exact(s.drop_first(), m - 1);
    }
}

/// The terms of `s`, in order of appearance, lowercased when `fold` is set.
pub open spec fn tokens_of(s: Seq<char>, fold: bool) -> Seq<Seq<char>>
    decreases s.len(),
    via tokens_of_decreases
{
    if s.len() == 0 {
        seq![]
    } else if !is_word_char(s[0]) {
        tokens_of(s.drop_first(), fold)
    } else {
        let k = word_len(s) as int;
        let w = if fold {
            lower_of(s.take(k))
        } else {
            s.take(k)
        };
        seq![w] + tokens_of(s.skip(k), fold)
    }
}

#[via_fn]
proof fn tokens_of_decreases(s: Seq<char>, fold: bool) {
    if s.len() > 0 && is_word_char(s[0]) {
        lemma_word_len_le(s);
    }
}

/// How often term `t` occurs in the token list `toks`.
pub open spec fn count_term(toks: Seq<Seq<char>>, t: Seq<char>) -> nat
    decreases toks.len(),
{
    if toks.len() == 0 {
        0
    } else {
        (if toks[0] == t {
            1nat
        } else {
            0nat
        }) + count_term(toks.drop_first(), t)
    }
}

pub proof fn lemma_count_term_le(toks: Seq<Seq<char>>, t: Seq<char>)
    ensures
        count_term(toks, t) <= toks.len(),
    decreases toks.len(),
{
    if toks.len() > 0 {
        lemma_count_term_le(toks.drop_first(), t);
    }
}

pub proof fn lemma_count_term_push(toks: Seq<Seq<char>>, x: Seq<char>, t: Seq<char>)
    ensures
        count_term(toks.push(x), t) == count_term(toks, t) + (if x == t {
            1nat
        } else {
            0nat
        }),
    decreases toks.len(),
{
    if toks.len() == 0 {
        assert(toks.push(x)[0] == x);
        assert(toks.push(x).drop_first() =~= toks);
    } else {
        assert(toks.push(x)[0] == toks[0]);
        assert(toks.push(x).drop_first() =~= toks.drop_first().push(x));
        lemma_count_term_push(toks.drop_first(), x, t);
    }
}

/// Splits `s` into its terms; the heart of both the index writer and the
/// query parser.
pub fn tokenize(s: &str, fold: bool) -> (r: Vec<String>)
    ensures
        r.deep_view() == tokens_of(s@, fold),
{
    let n = s.unicode_len();
    let mut r: Vec<String> = Vec::new();
    let mut i: usize = 0;
    proof {
        assert(s@.skip(0) =~= s@);
        assert(r.deep_view() =~= Seq::<Seq<char>>::empty());
    }
    while i < n
        invariant
            n == s@.len(),
            i <= n,
            tokens_of(s@, fold) == r.deep_view() + tokens_of(s@.skip(i as int), fold),
        decreases n - i,
    {
        let c = s.get_char(i);
        proof {
            assert(s@.skip(i as int)[0] == s@[i as int]);
        }
        if !is_word_char_exec(c) {
            proof {
                assert(s@.skip(i as int).drop_first() =~= s@.skip(i as int + 1));
            }
            i = i + 1;
        } else {
            let ghost rest = s@.skip(i as int);
            let start = i;
            let mut j: usize = i;
            while j < n && is_word_char_exec(s.get_char(j))
                invariant
                    n == s@.len(),
                    start <= j <= n,
                    forall|k: int| start <= k < j ==> is_word_char(#[trigger] s@[k]),
                decreases n - j,
            {
                j = j + 1;
            }
            let piece = s.substring_char(start, j);
            let token = if fold {
                lowercase(piece)
            } else {
                piece.to_owned()
            };
            proof {
                assert(forall|k: int|
                    0 <= k < j - start ==> rest[k] == #[trigger] s@[k + start]);
                assert(rest.len() == n - start);
                lemma_word_len_exact(rest, j - start);
                assert(rest.take(j - start) =~= s@.subrange(start as int, j as int));
                assert(piece@ == rest.take(j - start));
                assert(rest.skip(j - start) =~= s@.skip(j as int));
                assert(tokens_of(rest, fold) == seq![token@] + tokens_of(s@.skip(j as int), fold));
            }
            let ghost tv = token@;
            let ghost prev = r.deep_view();
            r.push(token);
            proof {
                assert(r.deep_view() =~= prev.push(tv));
                assert(prev.push(tv) + tokens_of(s@.skip(j as int), fold) =~= prev + (seq![tv]
                    + tokens_of(s@.skip(j as int), fold)));
            }
            i = j;
        }
    }
    proof {
        assert(s@.skip(i as int).len() == 0);
        assert(tokens_of(s@.skip(i as int), fold) =~= Seq::<Seq<char>>::empty());
        assert(r.deep_view() + Seq::<Seq<char>>::empty() =~= r.deep_view());
    }
    r
}

} // verus!
