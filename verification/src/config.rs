//! The registered roots and the last-scan checksum.
//!
//! The checksum hashes the concatenated root-path list alone: it detects a
//! changed root set, never edits to files inside an unchanged set, so only
//! an explicit (non-watch-triggered) rebuild may consult it.

use vstd::prelude::*;
use vstd::utf8::encode_utf8;

verus! {

/// What `init`, `add` and `remove` maintain: the ordered, deduplicated root
/// list, and the checksum recorded by the last successful scan.
pub struct Config {
    pub roots: Vec<String>,
    pub last_scan: Option<u64>,
}

pub struct ConfigModel {
    pub roots: Seq<Seq<char>>,
    pub last_scan: Option<u64>,
}

impl View for Config {
    type V = ConfigModel;

    open spec fn view(&self) -> ConfigModel {
        ConfigModel { roots: self.roots.deep_view(), last_scan: self.last_scan }
    }
}

impl Default for Config {
    /// A missing configuration reads as this empty default.
    fn default() -> (r: Config)
        ensures
            r@.roots.len() == 0,
            r@.last_scan is None,
    {
        let r = Config { roots: Vec::new(), last_scan: None };
        proof {
            assert(r.roots.deep_view() =~= Seq::<Seq<char>>::empty());
        }
        r
    }
}

/// What `xxh3_64` returns: a function of the input bytes alone.
pub uninterp spec fn xxh3_of(bytes: Seq<u8>) -> u64;

/// Relies on xxhash_rust::xxh3::xxh3_64: the 64-bit digest depends on the
/// input bytes alone.
#[verifier::external_body]
fn xxh3_hash(bytes: &[u8]) -> (r: u64)
    ensures
        r == xxh3_of(bytes@),
{
    xxhash_rust::xxh3::xxh3_64(bytes)
}

/// The concatenation of all the parts, in order.
pub open spec fn concat_all(parts: Seq<Seq<char>>) -> Seq<char>
    decreases parts.len(),
{
    if parts.len() == 0 {
        seq![]
    } else {
        concat_all(parts.drop_last()) + parts.last()
    }
}

/// The checksum of a root list: the digest of the concatenated paths'
/// UTF-8 bytes.
pub open spec fn roots_checksum_spec(roots: Seq<Seq<char>>) -> u64 {
    xxh3_of(encode_utf8(concat_all(roots)))
}

/// Computes the root list's checksum.
pub fn roots_checksum(roots: &Vec<String>) -> (r: u64)
    ensures
        r == roots_checksum_spec(roots.deep_view()),
{
    let ghost dv = roots.deep_view();
    let n = roots.len();
    let mut joined = String::new();
    let mut i: usize = 0;
    proof {
        assert(dv.take(0) =~= Seq::<Seq<char>>::empty());
        assert(joined@ =~= concat_all(dv.take(0)));
    }
    while i < n
        invariant
            n == roots@.len(),
            roots.deep_view() == dv,
            i <= n,
            joined@ == concat_all(dv.take(i as int)),
        decreases n - i,
    {
        proof {
            assert(dv.take(i as int + 1).drop_last() =~= dv.take(i as int));
            assert(dv.take(i as int + 1).last() == dv[i as int]);
            assert(roots@[i as int]@ == dv[i as int]);
        }
        joined.append(roots[i].as_str());
        i = i + 1;
    }
    proof {
        assert(dv.take(n as int) =~= dv);
    }
    xxh3_hash(joined.as_str().as_bytes())
}

/// The roots after registering the given paths in order, keeping each root
/// once.
pub open spec fn add_all(roots: Seq<Seq<char>>, paths: Seq<Seq<char>>) -> Seq<Seq<char>>
    decreases paths.len(),
{
    if paths.len() == 0 {
        roots
    } else {
        let grown = if roots.contains(paths[0]) {
            roots
        } else {
            roots.push(paths[0])
        };
        add_all(grown, paths.drop_first())
    }
}

/// The roots after deregistering the given paths.
pub open spec fn remove_all(roots: Seq<Seq<char>>, paths: Seq<Seq<char>>) -> Seq<Seq<char>>
    decreases roots.len(),
{
    if roots.len() == 0 {
        seq![]
    } else {
        let front = remove_all(roots.drop_last(), paths);
        if paths.contains(roots.last()) {
            front
        } else {
            front.push(roots.last())
        }
    }
}

/// Whether the root list already holds this path.
fn roots_contain(roots: &Vec<String>, p: &String) -> (r: bool)
    ensures
        r == roots.deep_view().contains(p@),
{
    let n = roots.len();
    for i in 0..n
        invariant
            n == roots@.len(),
            forall|t: int| 0 <= t < i ==> roots.deep_view()[t] != p@,
    {
        proof {
            assert(roots.deep_view()[i as int] == roots@[i as int]@);
        }
        if roots[i] == *p {
            proof {
                assert(roots.deep_view()[i as int] == p@);
            }
            return true;
        }
    }
    proof {
        if roots.deep_view().contains(p@) {
            let t = choose|t: int|
                0 <= t < roots.deep_view().len() && roots.deep_view()[t] == p@;
        }
    }
    false
}

impl Config {
    /// Registers paths as roots: appended in order, each kept once, without
    /// touching the recorded checksum.
    pub fn add_roots(&mut self, paths: &Vec<String>)
        ensures
            final(self)@.roots == add_all(old(self)@.roots, paths.deep_view()),
            final(self)@.last_scan == old(self)@.last_scan,
    {
        let ghost pdv = paths.deep_view();
        let ghost r0 = self.roots.deep_view();
        let n = paths.len();
        let mut i: usize = 0;
        proof {
            assert(pdv.skip(0) =~= pdv);
        }
        while i < n
            invariant
                n == paths@.len(),
                paths.deep_view() == pdv,
                self.last_scan == old(self).last_scan,
                add_all(r0, pdv) == add_all(self.roots.deep_view(), pdv.skip(i as int)),
                i <= n,
            decreases n - i,
        {
            proof {
                assert(pdv.skip(i as int)[0] == pdv[i as int]);
                assert(pdv.skip(i as int).drop_first() =~= pdv.skip(i as int + 1));
                assert(paths@[i as int]@ == pdv[i as int]);
            }
            let ghost cur = self.roots.deep_view();
            if !roots_contain(&self.roots, &paths[i]) {
                let p = paths[i].clone();
                self.roots.push(p);
                proof {
                    assert(self.roots.deep_view() =~= cur.push(pdv[i as int]));
                }
            }
            i = i + 1;
        }
        proof {
            assert(pdv.skip(n as int).len() == 0);
        }
    }

    /// Deregisters paths. Indexed data for removed roots stays until the
    /// next rebuild.
    pub fn remove_roots(&mut self, paths: &Vec<String>)
        ensures
            final(self)@.roots == remove_all(old(self)@.roots, paths.deep_view()),
            final(self)@.last_scan == old(self)@.last_scan,
    {
        let ghost pdv = paths.deep_view();
        let ghost r0 = self.roots.deep_view();
        let n = self.roots.len();
        let mut kept: Vec<String> = Vec::new();
        let mut i: usize = 0;
        proof {
            assert(r0.take(0) =~= Seq::<Seq<char>>::empty());
            assert(kept.deep_view() =~= remove_all(r0.take(0), pdv));
        }
        while i < n
            invariant
                n == self.roots@.len(),
                self.roots.deep_view() == r0,
                paths.deep_view() == pdv,
                self.last_scan == old(self).last_scan,
                self == old(self),
                i <= n,
                kept.deep_view() == remove_all(r0.take(i as int), pdv),
            decreases n - i,
        {
            proof {
                assert(r0.take(i as int + 1).drop_last() =~= r0.take(i as int));
                assert(r0.take(i as int + 1).last() == r0[i as int]);
                assert(self.roots@[i as int]@ == r0[i as int]);
            }
            let ghost cur = kept.deep_view();
            if !roots_contain(paths, &self.roots[i]) {
                let p = self.roots[i].clone();
                kept.push(p);
                proof {
                    assert(kept.deep_view() =~= cur.push(r0[i as int]));
                }
            }
            i = i + 1;
        }
        proof {
            assert(r0.take(n as int) =~= r0);
        }
        self.roots = kept;
    }

    /// Records the scanned root list's checksum after a successful build.
    pub fn record_scan(&mut self)
        ensures
            final(self)@.roots == old(self)@.roots,
            final(self)@.last_scan == Some(roots_checksum_spec(old(self)@.roots)),
    {
        let h = roots_checksum(&self.roots);
        self.last_scan = Some(h);
    }

    /// The skip heuristic for explicit rebuilds: true exactly when the
    /// stored checksum matches the current root list. It sees only the root
    /// set, never file edits, so a watch-triggered rebuild must not use it.
    pub fn can_skip_rebuild(&self) -> (r: bool)
        ensures
            r == (self@.last_scan == Some(roots_checksum_spec(self@.roots))),
    {
        match self.last_scan {
            None => false,
            Some(h) => {
                let c = roots_checksum(&self.roots);
                h == c
            },
        }
    }
}

} // verus!
