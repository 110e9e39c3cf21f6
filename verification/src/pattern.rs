//! The pattern language of the pattern-match query mode: match or no match,
//! no graded relevance.
//!
//! A pattern is a sequence of elements: `.` matches any one character, `\x`
//! matches `x` itself, and every other character matches itself. A trailing
//! backslash is malformed and surfaces as a query syntax error.

use vstd::prelude::*;

verus! {

/// One element of a parsed pattern.
#[derive(Clone, Copy, PartialEq, Eq, Structural, Debug)]
pub enum PatToken {
    /// `.`: matches any single character.
    AnyChar,
    /// Matches exactly this character.
    Lit(char),
}

/// Parses a pattern; `None` exactly on a trailing backslash.
pub open spec fn parse_pattern(p: Seq<char>) -> Option<Seq<PatToken>>
    decreases p.len(),
{
    if p.len() == 0 {
        Some(seq![])
    } else if p[0] == '\\' {
        if p.len() == 1 {
            None
        } else {
            match parse_pattern(p.skip(2)) {
                None => None,
                Some(ts) => Some(seq![PatToken::Lit(p[1])] + ts),
            }
        }
    } else if p[0] == '.' {
        match parse_pattern(p.drop_first()) {
            None => None,
            Some(ts) => Some(seq![PatToken::AnyChar] + ts),
        }
    } else {
        match parse_pattern(p.drop_first()) {
            None => None,
            Some(ts) => Some(seq![PatToken::Lit(p[0])] + ts),
        }
    }
}

pub open spec fn token_matches_char(t: PatToken, c: char) -> bool {
    match t {
        PatToken::AnyChar => true,
        PatToken::Lit(l) => l == c,
    }
}

/// The whole pattern matches `text` at offset `off`.
pub open spec fn tokens_match_at(ts: Seq<PatToken>, text: Seq<char>, off: int) -> bool {
    &&& 0 <= off
    &&& off + ts.len() <= text.len()
    &&& forall|k: int| 0 <= k < ts.len() ==> token_matches_char(#[trigger] ts[k], text[off + k])
}

/// The pattern occurs somewhere in `text`.
pub open spec fn pattern_found(ts: Seq<PatToken>, text: Seq<char>) -> bool {
    exists|off: int| #[trigger] tokens_match_at(ts, text, off)
}

/// Parses a pattern string, as executed.
pub fn parse_pattern_exec(p: &str) -> (r: Option<Vec<PatToken>>)
    ensures
        r is Some <==> parse_pattern(p@) is Some,
        r is Some ==> r.unwrap()@ == parse_pattern(p@).unwrap(),
{
    let n = p.unicode_len();
    let mut out: Vec<PatToken> = Vec::new();
    let mut i: usize = 0;
    proof {
        assert(p@.skip(0) =~= p@);
        assert(out@ + parse_pattern(p@).unwrap() =~= parse_pattern(p@).unwrap());
    }
    while i < n
        invariant
            n == p@.len(),
            i <= n,
            parse_pattern(p@) is Some <==> parse_pattern(p@.skip(i as int)) is Some,
            parse_pattern(p@) is Some ==> parse_pattern(p@).unwrap() == out@ + parse_pattern(
                p@.skip(i as int),
            ).unwrap(),
        decreases n - i,
    {
        let ghost rest = p@.skip(i as int);
        let c = p.get_char(i);
        proof {
            assert(rest[0] == p@[i as int]);
        }
        let ghost prev = out@;
        if c == '\\' {
            if i + 1 == n {
                proof {
                    assert(rest.len() == 1);
                }
                return None;
            }
            let lit = p.get_char(i + 1);
            out.push(PatToken::Lit(lit));
            proof {
                assert(rest[1] == p@[i as int + 1]);
                assert(rest.skip(2) =~= p@.skip(i as int + 2));
                if parse_pattern(p@.skip(i as int + 2)) is Some {
                    assert(prev + (seq![PatToken::Lit(lit)] + parse_pattern(
                        p@.skip(i as int + 2),
                    ).unwrap()) =~= out@ + parse_pattern(p@.skip(i as int + 2)).unwrap());
                }
            }
            i = i + 2;
        } else {
            if c == '.' {
                out.push(PatToken::AnyChar);
            } else {
                out.push(PatToken::Lit(c));
            }
            proof {
                assert(rest.drop_first() =~= p@.skip(i as int + 1));
                if parse_pattern(p@.skip(i as int + 1)) is Some {
                    assert(prev + (seq![out@.last()] + parse_pattern(
                        p@.skip(i as int + 1),
                    ).unwrap()) =~= out@ + parse_pattern(p@.skip(i as int + 1)).unwrap());
                }
            }
            i = i + 1;
        }
    }
    proof {
        assert(p@.skip(i as int).len() == 0);
        assert(parse_pattern(p@.skip(i as int)) == Some(Seq::<PatToken>::empty()));
        assert(out@ + Seq::<PatToken>::empty() =~= out@);
    }
    Some(out)
}

fn token_match_exec(t: PatToken, c: char) -> (r: bool)
    ensures
        r == token_matches_char(t, c),
{
    match t {
        PatToken::AnyChar => true,
        PatToken::Lit(l) => l == c,
    }
}

/// Scans `text` for the pattern, as executed.
pub fn pattern_search(text: &str, ts: &Vec<PatToken>) -> (r: bool)
    ensures
        r == pattern_found(ts@, text@),
{
    let h = text.unicode_len();
    let m = ts.len();
    if m > h {
        proof {
            assert(!pattern_found(ts@, text@));
        }
        return false;
    }
    if m == 0 {
        proof {
            assert(tokens_match_at(ts@, text@, 0));
        }
        return true;
    }
    let mut i: usize = 0;
    while i <= h - m
        invariant
            h == text@.len(),
            m == ts@.len(),
            0 < m <= h,
            i <= h - m + 1,
            forall|j: int| 0 <= j < i ==> !tokens_match_at(ts@, text@, j),
        decreases h - m - i + 1,
    {
        let mut k: usize = 0;
        let mut hit = true;
        while k < m
            invariant
                h == text@.len(),
                m == ts@.len(),
                i + m <= h,
                k <= m,
                hit ==> forall|t: int|
                    0 <= t < k ==> token_matches_char(#[trigger] ts@[t], text@[i + t]),
                !hit ==> !tokens_match_at(ts@, text@, i as int),
            decreases m - k,
        {
            if !token_match_exec(ts[k], text.get_char(i + k)) {
                hit = false;
                k = m;
            } else {
                k = k + 1;
            }
        }
        if hit {
            proof {
                assert(tokens_match_at(ts@, text@, i as int));
            }
            return true;
        }
        i = i + 1;
    }
    proof {
        assert forall|off: int| !tokens_match_at(ts@, text@, off) by {
            if tokens_match_at(ts@, text@, off) {
                assert(0 <= off && off + m <= h);
                assert(off < i);
            }
        }
    }
    false
}

} // verus!
