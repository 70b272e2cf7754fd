//! The cache entry: the diff of the last successful build and the checksums
//! of the watched files at that time, and its form on disk.
use vstd::prelude::*;
use crate::env::{copy_bytes, Change, ChangeView, Diff};
use crate::sums::Checksums;

verus! {

pub const TAG_ADDED: u8 = 0;

pub const TAG_CHANGED: u8 = 1;

pub const TAG_REMOVED: u8 = 2;

/// The environment change of the last successful build, valid while the
/// checksums match the watched files.
pub struct CacheEntry {
    pub diff: Diff,
    pub sums: Checksums,
}

impl View for CacheEntry {
    type V = (Seq<ChangeView>, Seq<(Seq<u8>, Seq<u8>)>);

    open spec fn view(&self) -> (Seq<ChangeView>, Seq<(Seq<u8>, Seq<u8>)>) {
        (self.diff@, self.sums@)
    }
}

/// A change as a flat record: a tag, the name and up to two values.
pub type Record = (u8, Vec<u8>, Vec<u8>, Vec<u8>);

pub open spec fn record_of(c: ChangeView) -> (u8, Seq<u8>, Seq<u8>, Seq<u8>) {
    match c {
        ChangeView::Added(k, v) => (TAG_ADDED, k, v, Seq::empty()),
        ChangeView::Changed(k, x, y) => (TAG_CHANGED, k, x, y),
        ChangeView::Removed(k, v) => (TAG_REMOVED, k, v, Seq::empty()),
    }
}

/// The flat records of a sequence of changes.
pub open spec fn records_of(d: Seq<ChangeView>) -> Seq<(u8, Seq<u8>, Seq<u8>, Seq<u8>)> {
    d.map_values(|c: ChangeView| record_of(c))
}

pub open spec fn records_view(r: Seq<Record>) -> Seq<(u8, Seq<u8>, Seq<u8>, Seq<u8>)> {
    r.map_values(|x: Record| (x.0, x.1@, x.2@, x.3@))
}

/// A record stands for a change when its tag is known and an unused value is
/// empty.
pub open spec fn record_ok(x: (u8, Seq<u8>, Seq<u8>, Seq<u8>)) -> bool {
    x.0 == TAG_CHANGED || ((x.0 == TAG_ADDED || x.0 == TAG_REMOVED) && x.3.len() == 0)
}

/// The flat records of the changes of a diff, in order.
pub fn to_records(d: &Diff) -> (r: Vec<Record>)
    ensures
        records_view(r@) == records_of(d@),
{
    let mut out: Vec<Record> = Vec::new();
    let mut i: usize = 0;
    while i < d.changes.len()
        invariant
            i <= d.changes.len(),
            records_view(out@) == d@.subrange(0, i as int).map_values(|c: ChangeView| record_of(c)),
        decreases d.changes.len() - i,
    {
        let rec: Record = match &d.changes[i] {
            Change::Added(k, v) => (TAG_ADDED, copy_bytes(k), copy_bytes(v), Vec::new()),
            Change::Changed(k, x, y) => (TAG_CHANGED, copy_bytes(k), copy_bytes(x), copy_bytes(y)),
            Change::Removed(k, v) => (TAG_REMOVED, copy_bytes(k), copy_bytes(v), Vec::new()),
        };
        let ghost rv = (rec.0, rec.1@, rec.2@, rec.3@);
        proof {
            assert(d@[i as int] == d.changes@[i as int]@);
            assert(rv =~= record_of(d@[i as int]));
        }
        let ghost prev = out@;
        out.push(rec);
        proof {
            assert(out@ == prev.push(rec));
            assert(records_view(out@) =~= records_view(prev).push(rv));
            assert(d@.subrange(0, i + 1) =~= d@.subrange(0, i as int).push(d@[i as int]));
            assert(d@.subrange(0, i + 1).map_values(|c: ChangeView| record_of(c)) =~= d@.subrange(0, i as int).map_values(|c: ChangeView| record_of(c)).push(record_of(d@[i as int])));
            assert(records_view(out@) =~= d@.subrange(0, i + 1).map_values(|c: ChangeView| record_of(c)));
        }
        i = i + 1;
    }
    assert(d@.subrange(0, i as int) =~= d@);
    out
}

/// The diff that flat records stand for, or `None` where one of them is not
/// a change.
pub fn from_records(recs: &Vec<Record>) -> (r: Option<Diff>)
    ensures
        r is Some <==> forall|i: int| 0 <= i < recs@.len() ==> #[trigger] record_ok(records_view(recs@)[i]),
        r matches Some(d) ==> records_of(d@) == records_view(recs@),
{
    let mut out = Diff::new();
    let mut i: usize = 0;
    while i < recs.len()
        invariant
            i <= recs.len(),
            forall|j: int| 0 <= j < i ==> #[trigger] record_ok(records_view(recs@)[j]),
            out@.map_values(|c: ChangeView| record_of(c)) == records_view(recs@).subrange(0, i as int),
        decreases recs.len() - i,
    {
        let rec = &recs[i];
        let ghost rv = records_view(recs@)[i as int];
        assert(rv == (rec.0, rec.1@, rec.2@, rec.3@));
        let c = if rec.0 == TAG_CHANGED {
            Change::Changed(copy_bytes(&rec.1), copy_bytes(&rec.2), copy_bytes(&rec.3))
        } else if (rec.0 == TAG_ADDED || rec.0 == TAG_REMOVED) && rec.3.len() == 0 {
            assert(rec.3@ =~= Seq::<u8>::empty());
            if rec.0 == TAG_ADDED {
                Change::Added(copy_bytes(&rec.1), copy_bytes(&rec.2))
            } else {
                Change::Removed(copy_bytes(&rec.1), copy_bytes(&rec.2))
            }
        } else {
            assert(!record_ok(rv));
            return None;
        };
        assert(record_of(c@) =~= rv);
        let ghost prev = out@;
        out.push(c);
        assert(out@.map_values(|c: ChangeView| record_of(c)) =~= prev.map_values(|c: ChangeView| record_of(c)).push(rv));
        assert(records_view(recs@).subrange(0, i + 1) =~= records_view(recs@).subrange(0, i as int).push(rv));
        i = i + 1;
    }
    assert(records_view(recs@).subrange(0, i as int) =~= records_view(recs@));
    Some(out)
}

/// The flat records of any diff are all well formed, and they determine the
/// diff: reading back the records written for a diff gives that diff.
pub proof fn lemma_records_round_trip(d: Seq<ChangeView>, back: Seq<ChangeView>)
    requires
        records_of(back) == records_of(d),
    ensures
        forall|i: int| 0 <= i < d.len() ==> #[trigger] record_ok(records_of(d)[i]),
        back == d,
{
    assert forall|i: int| 0 <= i < d.len() implies #[trigger] record_ok(records_of(d)[i]) by {
        assert(records_of(d)[i] == record_of(d[i]));
    }
    assert(back.len() == d.len()) by {
        assert(records_of(back).len() == back.len());
        assert(records_of(d).len() == d.len());
    }
    assert forall|i: int| 0 <= i < d.len() implies back[i] == d[i] by {
        assert(records_of(back)[i] == records_of(d)[i]);
        assert(record_of(back[i]) == record_of(d[i]));
        match (back[i], d[i]) {
            (ChangeView::Added(k1, v1), ChangeView::Added(k2, v2)) => {},
            (ChangeView::Changed(k1, x1, y1), ChangeView::Changed(k2, x2, y2)) => {},
            (ChangeView::Removed(k1, v1), ChangeView::Removed(k2, v2)) => {},
            _ => {},
        }
    }
    assert(back =~= d);
}

/// The records and checksum pairs that bincode reads from `b`, if it reads any.
pub uninterp spec fn cache_decoded(b: Seq<u8>) -> Option<(Seq<(u8, Seq<u8>, Seq<u8>, Seq<u8>)>, Seq<(Seq<u8>, Seq<u8>)>)>;

/// The bytes of the cache file for `entry`: they decode to the entry's
/// records and checksums.
pub fn save_bytes(entry: &CacheEntry) -> (r: Option<Vec<u8>>)
    ensures
        r is Some,
        r matches Some(b) ==> cache_decoded(b@) == Some((records_of(entry.diff@), entry.sums@)),
{
    let recs = to_records(&entry.diff);
    encode_cache(&recs, &entry.sums.sums)
}

/// The cache entry read from the bytes of a cache file, or `None` where they
/// do not decode to the records of one.
pub fn load_bytes(bytes: &[u8]) -> (r: Option<CacheEntry>)
    ensures
        r is Some <==> (cache_decoded(bytes@) matches Some(x) && forall|i: int|
            0 <= i < x.0.len() ==> #[trigger] record_ok(x.0[i])),
        r matches Some(e) ==> cache_decoded(bytes@) == Some((records_of(e.diff@), e.sums@)),
        forall|d: Seq<ChangeView>, s: Seq<(Seq<u8>, Seq<u8>)>|
            #[trigger] cache_decoded(bytes@) == Some((records_of(d), s)) ==> (r matches Some(e) && e@ == (d, s)),
{
    let r = match decode_cache(bytes) {
        Some((recs, sums)) => {
            let ghost x = cache_decoded(bytes@)->0;
            assert(x.0 == records_view(recs@));
            match from_records(&recs) {
                Some(diff) => Some(CacheEntry { diff, sums: Checksums { sums } }),
                None => None,
            }
        },
        None => None,
    };
    proof {
        assert forall|d: Seq<ChangeView>, s: Seq<(Seq<u8>, Seq<u8>)>|
            #[trigger] cache_decoded(bytes@) == Some((records_of(d), s)) implies (r matches Some(e) && e@ == (d, s)) by {
            lemma_records_round_trip(d, d);
            let x = cache_decoded(bytes@)->0;
            assert forall|i: int| 0 <= i < x.0.len() implies #[trigger] record_ok(x.0[i]) by {
                assert(record_ok(records_of(d)[i]));
            }
            let e = r->0;
            lemma_records_round_trip(d, e.diff@);
        }
    }
    r
}

/// Loading gives back what was saved: bytes that decode to the records of a
/// diff and to checksums give that diff and those checksums.
pub proof fn lemma_save_then_load(
    b: Seq<u8>,
    d: Seq<ChangeView>,
    s: Seq<(Seq<u8>, Seq<u8>)>,
    loaded: (Seq<ChangeView>, Seq<(Seq<u8>, Seq<u8>)>),
)
    requires
        cache_decoded(b) == Some((records_of(d), s)),
        cache_decoded(b) == Some((records_of(loaded.0), loaded.1)),
    ensures
        loaded == (d, s),
{
    lemma_records_round_trip(d, loaded.0);
}

pub open spec fn sums_of(v: Seq<(Vec<u8>, Vec<u8>)>) -> Seq<(Seq<u8>, Seq<u8>)> {
    v.map_values(|p: (Vec<u8>, Vec<u8>)| (p.0@, p.1@))
}

/// Relies on `bincode::serialize` to write the records and checksum pairs:
/// it does not fail on vectors and tuples of bytes, and `bincode::deserialize`
/// reads the same values back from what it writes.
#[verifier::external_body]
fn encode_cache(recs: &Vec<Record>, sums: &Vec<(Vec<u8>, Vec<u8>)>) -> (r: Option<Vec<u8>>)
    ensures
        r is Some,
        r matches Some(b) ==> cache_decoded(b@) == Some((records_view(recs@), sums_of(sums@))),
{
    bincode::serialize(&(recs, sums)).ok()
}

/// Relies on `bincode::deserialize` to read the records and checksum pairs:
/// what it reads depends on the bytes alone.
#[verifier::external_body]
fn decode_cache(bytes: &[u8]) -> (r: Option<(Vec<Record>, Vec<(Vec<u8>, Vec<u8>)>)>)
    ensures
        r is Some <==> cache_decoded(bytes@) is Some,
        r matches Some(x) ==> cache_decoded(bytes@) == Some((records_view(x.0@), sums_of(x.1@))),
{
    bincode::deserialize::<(Vec<Record>, Vec<(Vec<u8>, Vec<u8>)>)>(bytes).ok()
}

} // verus!
