//! Checksum sets: a fingerprint of each watched file, compared as sets.
use vstd::prelude::*;
use crate::bytes::compare_bytes;

verus! {

/// The SHA-256 digest of `data`.
pub uninterp spec fn sha256_of(data: Seq<u8>) -> Seq<u8>;

/// Relies on sha2's `Sha256::digest`: the SHA-256 digest of `data`, which
/// depends on the bytes alone.
#[verifier::external_body]
fn sha256(data: &[u8]) -> (r: Vec<u8>)
    ensures
        r@ == sha256_of(data@),
{
    <sha2::Sha256 as sha2::Digest>::digest(data).to_vec()
}

/// Path and fingerprint of each file, given its path and contents.
pub open spec fn fingerprints(files: Seq<(Seq<u8>, Seq<u8>)>) -> Seq<(Seq<u8>, Seq<u8>)> {
    files.map_values(|f: (Seq<u8>, Seq<u8>)| (f.0, sha256_of(f.1)))
}

/// Two checksum sets are equal when they hold the same (path, fingerprint)
/// pairs, in whatever order.
pub open spec fn sums_equal(a: Seq<(Seq<u8>, Seq<u8>)>, b: Seq<(Seq<u8>, Seq<u8>)>) -> bool {
    a.to_set() == b.to_set()
}

/// What was read of each watched file: its path, and its contents where it
/// could be read.
pub open spec fn reads_view(files: Seq<(Vec<u8>, Option<Vec<u8>>)>) -> Seq<(Seq<u8>, Option<Seq<u8>>)> {
    files.map_values(|f: (Vec<u8>, Option<Vec<u8>>)| (f.0@, match f.1 { Some(c) => Some(c@), None => None }))
}

/// Paths and contents, where every file could be read.
pub open spec fn contents_view(files: Seq<(Seq<u8>, Option<Seq<u8>>)>) -> Seq<(Seq<u8>, Seq<u8>)> {
    files.map_values(|f: (Seq<u8>, Option<Seq<u8>>)| (f.0, f.1->0))
}

/// Every watched file could be read.
pub open spec fn all_read(files: Seq<(Vec<u8>, Option<Vec<u8>>)>) -> bool {
    forall|i: int| 0 <= i < files.len() ==> (#[trigger] files[i]).1 is Some
}

/// `p` is the path of the first watched file that could not be read.
pub open spec fn first_unreadable(files: Seq<(Vec<u8>, Option<Vec<u8>>)>, p: Seq<u8>) -> bool {
    exists|i: int|
        0 <= i < files.len() && (#[trigger] files[i]).1 is None && p == files[i].0@ && forall|j: int|
            0 <= j < i ==> (#[trigger] files[j]).1 is Some
}

/// The fingerprints of the watched files, one (path, digest) pair per file.
pub struct Checksums {
    pub sums: Vec<(Vec<u8>, Vec<u8>)>,
}

impl View for Checksums {
    type V = Seq<(Seq<u8>, Seq<u8>)>;

    open spec fn view(&self) -> Seq<(Seq<u8>, Seq<u8>)> {
        self.sums@.map_values(|p: (Vec<u8>, Vec<u8>)| (p.0@, p.1@))
    }
}

impl Checksums {
    /// The checksum set of the watched files; all or nothing: the path of the
    /// first file that could not be read where there is one.
    pub fn compute(files: &Vec<(Vec<u8>, Option<Vec<u8>>)>) -> (r: Result<Checksums, Vec<u8>>)
        ensures
            r is Ok <==> forall|i: int| 0 <= i < files@.len() ==> (#[trigger] files@[i]).1 is Some,
            r matches Ok(c) ==> c@ == fingerprints(contents_view(reads_view(files@))),
            r matches Err(p) ==> first_unreadable(files@, p@),
    {
        let ghost want = fingerprints(contents_view(reads_view(files@)));
        let mut out: Vec<(Vec<u8>, Vec<u8>)> = Vec::new();
        let mut i: usize = 0;
        while i < files.len()
            invariant
                i <= files.len(),
                want == fingerprints(contents_view(reads_view(files@))),
                forall|j: int| 0 <= j < i ==> (#[trigger] files@[j]).1 is Some,
                out@.len() == i,
                forall|j: int| 0 <= j < i ==> (#[trigger] out@[j]).0@ == want[j].0 && out@[j].1@ == want[j].1,
            decreases files.len() - i,
        {
            match &files[i].1 {
                Some(contents) => {
                    let digest = sha256(contents.as_slice());
                    let path = files[i].0.clone();
                    assert(path@ =~= files@[i as int].0@);
                    out.push((path, digest));
                },
                None => {
                    let path = files[i].0.clone();
                    assert(path@ =~= files@[i as int].0@);
                    return Err(path);
                },
            }
            i = i + 1;
        }
        let r = Checksums { sums: out };
        assert(r@ =~= want);
        Ok(r)
    }

    /// Whether the set holds the pair `(path, digest)`.
    pub fn contains(&self, path: &[u8], digest: &[u8]) -> (r: bool)
        ensures
            r == self@.contains((path@, digest@)),
    {
        let mut i: usize = 0;
        while i < self.sums.len()
            invariant
                i <= self.sums.len(),
                forall|j: int| 0 <= j < i ==> #[trigger] self@[j] != (path@, digest@),
            decreases self.sums.len() - i,
        {
            assert(self@[i as int] == (self.sums@[i as int].0@, self.sums@[i as int].1@));
            if compare_bytes(self.sums[i].0.as_slice(), path) == 0 && compare_bytes(
                self.sums[i].1.as_slice(),
                digest,
            ) == 0 {
                return true;
            }
            i = i + 1;
        }
        false
    }

    /// Whether every pair of `self` is in `other`.
    pub fn is_subset_of(&self, other: &Checksums) -> (r: bool)
        ensures
            r == (self@.to_set() <= other@.to_set()),
    {
        let mut i: usize = 0;
        while i < self.sums.len()
            invariant
                i <= self.sums.len(),
                forall|j: int| 0 <= j < i ==> other@.contains(#[trigger] self@[j]),
            decreases self.sums.len() - i,
        {
            assert(self@[i as int] == (self.sums@[i as int].0@, self.sums@[i as int].1@));
            if !other.contains(self.sums[i].0.as_slice(), self.sums[i].1.as_slice()) {
                assert(self@.to_set().contains(self@[i as int]));
                return false;
            }
            i = i + 1;
        }
        true
    }

    /// The paths of the watched files, in order.
    pub fn paths(&self) -> (r: Vec<Vec<u8>>)
        ensures
            r@.len() == self@.len(),
            forall|i: int| 0 <= i < r@.len() ==> (#[trigger] r@[i])@ == self@[i].0,
    {
        let mut out: Vec<Vec<u8>> = Vec::new();
        let mut i: usize = 0;
        while i < self.sums.len()
            invariant
                i <= self.sums.len(),
                out@.len() == i,
                forall|j: int| 0 <= j < i ==> (#[trigger] out@[j])@ == self@[j].0,
            decreases self.sums.len() - i,
        {
            let p = self.sums[i].0.clone();
            assert(p@ =~= self@[i as int].0);
            out.push(p);
            i = i + 1;
        }
        out
    }
}

/// Whether two checksum sets hold the same (path, fingerprint) pairs; the
/// sole test of whether a cached environment is still valid.
pub fn equal(a: &Checksums, b: &Checksums) -> (r: bool)
    ensures
        r == sums_equal(a@, b@),
{
    let r = a.is_subset_of(b) && b.is_subset_of(a);
    if r {
        assert(a@.to_set() =~= b@.to_set());
    }
    r
}

/// Equality of checksum sets is reflexive and symmetric.
pub proof fn lemma_sums_equal_reflexive_symmetric(a: Seq<(Seq<u8>, Seq<u8>)>, b: Seq<(Seq<u8>, Seq<u8>)>)
    ensures
        sums_equal(a, a),
        sums_equal(a, b) == sums_equal(b, a),
{
}

/// The checksum sets of the same watched files, listed in any order, are equal.
pub proof fn lemma_sums_order_insensitive(f1: Seq<(Seq<u8>, Seq<u8>)>, f2: Seq<(Seq<u8>, Seq<u8>)>)
    requires
        f1.to_set() == f2.to_set(),
    ensures
        sums_equal(fingerprints(f1), fingerprints(f2)),
{
    let f = |x: (Seq<u8>, Seq<u8>)| (x.0, sha256_of(x.1));
    f1.lemma_to_set_map_commutes(f);
    f2.lemma_to_set_map_commutes(f);
}

} // verus!
