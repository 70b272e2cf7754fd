//! Environment snapshots and the differences between two of them.
use vstd::prelude::*;
use crate::bytes::{
    bytes_lt, compare_bytes, has_prefix, lemma_lt_asymmetric, lemma_lt_irreflexive,
    lemma_lt_total, lemma_lt_transitive, starts_with,
};

verus! {

/// Name/value pairs whose names increase strictly.
pub open spec fn key_sorted(s: Seq<(Seq<u8>, Seq<u8>)>) -> bool {
    forall|i: int, j: int| 0 <= i < j < s.len() ==> #[trigger] bytes_lt(s[i].0, s[j].0)
}

/// The mapping that a list of name/value pairs stands for.
pub open spec fn pairs_map(s: Seq<(Seq<u8>, Seq<u8>)>) -> Map<Seq<u8>, Seq<u8>>
    decreases s.len(),
{
    if s.len() == 0 {
        Map::empty()
    } else {
        pairs_map(s.drop_last()).insert(s.last().0, s.last().1)
    }
}

pub proof fn lemma_pairs_map(s: Seq<(Seq<u8>, Seq<u8>)>)
    requires
        key_sorted(s),
    ensures
        forall|i: int|
            0 <= i < s.len() ==> #[trigger] pairs_map(s).contains_key(s[i].0)
                && pairs_map(s)[s[i].0] == s[i].1,
        forall|k: Seq<u8>|
            #[trigger] pairs_map(s).contains_key(k) ==> exists|i: int|
                0 <= i < s.len() && #[trigger] s[i].0 == k,
    decreases s.len(),
{
    if s.len() > 0 {
        let t = s.drop_last();
        assert(key_sorted(t)) by {
            assert forall|i: int, j: int| 0 <= i < j < t.len() implies #[trigger] bytes_lt(
                t[i].0,
                t[j].0,
            ) by {
                assert(bytes_lt(s[i].0, s[j].0));
            }
        }
        lemma_pairs_map(t);
        assert(pairs_map(s) == pairs_map(t).insert(s.last().0, s.last().1));
        assert forall|i: int| 0 <= i < s.len() implies #[trigger] pairs_map(s).contains_key(
            s[i].0,
        ) && pairs_map(s)[s[i].0] == s[i].1 by {
            if i < s.len() - 1 {
                assert(t[i] == s[i]);
                assert(pairs_map(t).contains_key(t[i].0));
                assert(bytes_lt(s[i].0, s[s.len() - 1].0));
                lemma_lt_irreflexive(s[i].0);
            }
        }
        assert forall|k: Seq<u8>| #[trigger] pairs_map(s).contains_key(k) implies exists|i: int|
            0 <= i < s.len() && #[trigger] s[i].0 == k by {
            if k != s.last().0 {
                assert(pairs_map(t).contains_key(k));
                let i = choose|i: int| 0 <= i < t.len() && #[trigger] t[i].0 == k;
                assert(s[i].0 == k);
            } else {
                assert(s[s.len() - 1].0 == k);
            }
        }
    }
}

/// Copies a byte vector.
pub fn copy_bytes(v: &Vec<u8>) -> (r: Vec<u8>)
    ensures
        r@ == v@,
{
    let r = v.clone();
    assert(r@ =~= v@);
    r
}

/// A point-in-time set of environment variables, kept in increasing order of
/// name, each name once.
pub struct Env {
    pub vars: Vec<(Vec<u8>, Vec<u8>)>,
}

impl Env {
    pub open spec fn pairs(&self) -> Seq<(Seq<u8>, Seq<u8>)> {
        pairs_of(self.vars@)
    }

    pub open spec fn wf(&self) -> bool {
        key_sorted(self.pairs())
    }
}

impl View for Env {
    type V = Map<Seq<u8>, Seq<u8>>;

    open spec fn view(&self) -> Map<Seq<u8>, Seq<u8>> {
        pairs_map(self.pairs())
    }
}

/// One change between two snapshots, as values.
pub enum ChangeView {
    Added(Seq<u8>, Seq<u8>),
    Changed(Seq<u8>, Seq<u8>, Seq<u8>),
    Removed(Seq<u8>, Seq<u8>),
}

/// One change between two snapshots: a variable added with its value, changed
/// from its old to its new value, or removed with its old value.
pub enum Change {
    Added(Vec<u8>, Vec<u8>),
    Changed(Vec<u8>, Vec<u8>, Vec<u8>),
    Removed(Vec<u8>, Vec<u8>),
}

impl View for Change {
    type V = ChangeView;

    open spec fn view(&self) -> ChangeView {
        match self {
            Change::Added(k, v) => ChangeView::Added(k@, v@),
            Change::Changed(k, a, b) => ChangeView::Changed(k@, a@, b@),
            Change::Removed(k, v) => ChangeView::Removed(k@, v@),
        }
    }
}

pub open spec fn change_key(c: ChangeView) -> Seq<u8> {
    match c {
        ChangeView::Added(k, _) => k,
        ChangeView::Changed(k, _, _) => k,
        ChangeView::Removed(k, _) => k,
    }
}

/// `c` is a true record of how `before` became `after`.
pub open spec fn fits(c: ChangeView, before: Map<Seq<u8>, Seq<u8>>, after: Map<Seq<u8>, Seq<u8>>) -> bool {
    match c {
        ChangeView::Added(k, v) => !before.contains_key(k) && after.contains_key(k) && after[k] == v,
        ChangeView::Changed(k, x, y) => before.contains_key(k) && after.contains_key(k)
            && before[k] == x && after[k] == y && x != y,
        ChangeView::Removed(k, v) => before.contains_key(k) && before[k] == v
            && !after.contains_key(k),
    }
}

/// The variable `k` is not the same in both snapshots.
pub open spec fn differs(before: Map<Seq<u8>, Seq<u8>>, after: Map<Seq<u8>, Seq<u8>>, k: Seq<u8>) -> bool {
    before.contains_key(k) != after.contains_key(k) || (before.contains_key(k) && before[k]
        != after[k])
}

pub open spec fn changes_sorted(d: Seq<ChangeView>) -> bool {
    forall|i: int, j: int|
        0 <= i < j < d.len() ==> #[trigger] bytes_lt(change_key(d[i]), change_key(d[j]))
}

/// `d` is the difference from `before` to `after`: one true record for each
/// variable that differs, and none other, in increasing order of name.
pub open spec fn is_diff_of(
    d: Seq<ChangeView>,
    before: Map<Seq<u8>, Seq<u8>>,
    after: Map<Seq<u8>, Seq<u8>>,
) -> bool {
    &&& changes_sorted(d)
    &&& forall|i: int| 0 <= i < d.len() ==> #[trigger] fits(d[i], before, after)
    &&& forall|k: Seq<u8>|
        #[trigger] differs(before, after, k) ==> exists|i: int|
            0 <= i < d.len() && #[trigger] change_key(d[i]) == k
}

/// The difference from `before` to `after` (there is exactly one: see
/// `diff` and `lemma_diff_unique`).
pub open spec fn diff_of(before: Map<Seq<u8>, Seq<u8>>, after: Map<Seq<u8>, Seq<u8>>) -> Seq<ChangeView> {
    choose|d: Seq<ChangeView>| is_diff_of(d, before, after)
}

/// An ordered sequence of changes.
pub struct Diff {
    pub changes: Vec<Change>,
}

impl View for Diff {
    type V = Seq<ChangeView>;

    open spec fn view(&self) -> Seq<ChangeView> {
        self.changes@.map_values(|c: Change| c@)
    }
}

proof fn lemma_step_push(
    old_out: Seq<Change>,
    new_out: Seq<Change>,
    c: Change,
    bp: Seq<(Seq<u8>, Seq<u8>)>,
    ap: Seq<(Seq<u8>, Seq<u8>)>,
    i: int,
    j: int,
    i2: int,
    j2: int,
    k: Seq<u8>,
    bm: Map<Seq<u8>, Seq<u8>>,
    am: Map<Seq<u8>, Seq<u8>>,
)
    requires
        new_out == old_out.push(c),
        change_key(c@) == k,
        fits(c@, bm, am),
        key_sorted(bp),
        key_sorted(ap),
        0 <= i <= i2 <= i + 1,
        0 <= j <= j2 <= j + 1,
        i2 == i + 1 || j2 == j + 1,
        i2 <= bp.len(),
        j2 <= ap.len(),
        i2 == i + 1 ==> bp[i].0 == k,
        j2 == j + 1 ==> ap[j].0 == k,
        i2 == i ==> i < bp.len() ==> bytes_lt(k, bp[i].0),
        j2 == j ==> j < ap.len() ==> bytes_lt(k, ap[j].0),
        changes_sorted(old_out.map_values(|c: Change| c@)),
        forall|r: int| 0 <= r < old_out.len() ==> #[trigger] fits(old_out[r]@, bm, am),
        forall|r: int, p: int| 0 <= r < old_out.len() && i <= p < bp.len() ==> bytes_lt(change_key(#[trigger] old_out[r]@), #[trigger] bp[p].0),
        forall|r: int, q: int| 0 <= r < old_out.len() && j <= q < ap.len() ==> bytes_lt(change_key(#[trigger] old_out[r]@), #[trigger] ap[q].0),
        forall|p: int| 0 <= p < i && #[trigger] differs(bm, am, bp[p].0) ==> exists|r: int| 0 <= r < old_out.len() && #[trigger] change_key(old_out[r]@) == bp[p].0,
        forall|q: int| 0 <= q < j && #[trigger] differs(bm, am, ap[q].0) ==> exists|r: int| 0 <= r < old_out.len() && #[trigger] change_key(old_out[r]@) == ap[q].0,
    ensures
        changes_sorted(new_out.map_values(|c: Change| c@)),
        forall|r: int| 0 <= r < new_out.len() ==> #[trigger] fits(new_out[r]@, bm, am),
        forall|r: int, p: int| 0 <= r < new_out.len() && i2 <= p < bp.len() ==> bytes_lt(change_key(#[trigger] new_out[r]@), #[trigger] bp[p].0),
        forall|r: int, q: int| 0 <= r < new_out.len() && j2 <= q < ap.len() ==> bytes_lt(change_key(#[trigger] new_out[r]@), #[trigger] ap[q].0),
        forall|p: int| 0 <= p < i2 && #[trigger] differs(bm, am, bp[p].0) ==> exists|r: int| 0 <= r < new_out.len() && #[trigger] change_key(new_out[r]@) == bp[p].0,
        forall|q: int| 0 <= q < j2 && #[trigger] differs(bm, am, ap[q].0) ==> exists|r: int| 0 <= r < new_out.len() && #[trigger] change_key(new_out[r]@) == ap[q].0,
{
    let n = old_out.len() as int;
    let ov = old_out.map_values(|c: Change| c@);
    let nv = new_out.map_values(|c: Change| c@);
    assert forall|p: int| i2 <= p < bp.len() implies bytes_lt(k, #[trigger] bp[p].0) by {
        if i2 == i + 1 {
            assert(bytes_lt(bp[i].0, bp[p].0));
        } else if p > i {
            assert(bytes_lt(bp[i].0, bp[p].0));
            lemma_lt_transitive(k, bp[i].0, bp[p].0);
        }
    }
    assert forall|q: int| j2 <= q < ap.len() implies bytes_lt(k, #[trigger] ap[q].0) by {
        if j2 == j + 1 {
            assert(bytes_lt(ap[j].0, ap[q].0));
        } else if q > j {
            assert(bytes_lt(ap[j].0, ap[q].0));
            lemma_lt_transitive(k, ap[j].0, ap[q].0);
        }
    }
    assert forall|r: int| 0 <= r < n implies bytes_lt(change_key(#[trigger] old_out[r]@), k) by {
        if i2 == i + 1 {
            assert(bytes_lt(change_key(old_out[r]@), bp[i].0));
        } else {
            assert(bytes_lt(change_key(old_out[r]@), ap[j].0));
        }
    }
    assert forall|a: int, b: int| 0 <= a < b < nv.len() implies #[trigger] bytes_lt(change_key(nv[a]), change_key(nv[b])) by {
        assert(nv[a] == new_out[a]@);
        assert(nv[b] == new_out[b]@);
        if b < n {
            assert(ov[a] == old_out[a]@);
            assert(ov[b] == old_out[b]@);
            assert(bytes_lt(change_key(ov[a]), change_key(ov[b])));
        } else {
            assert(new_out[a] == old_out[a]);
        }
    }
    assert forall|r: int| 0 <= r < new_out.len() implies #[trigger] fits(new_out[r]@, bm, am) by {
        if r < n {
            assert(new_out[r] == old_out[r]);
        }
    }
    assert forall|p: int| 0 <= p < i2 && #[trigger] differs(bm, am, bp[p].0) implies exists|r: int| 0 <= r < new_out.len() && #[trigger] change_key(new_out[r]@) == bp[p].0 by {
        if p < i {
            let r = choose|r: int| 0 <= r < n && #[trigger] change_key(old_out[r]@) == bp[p].0;
            assert(new_out[r] == old_out[r]);
        } else {
            assert(change_key(new_out[n]@) == bp[p].0);
        }
    }
    assert forall|q: int| 0 <= q < j2 && #[trigger] differs(bm, am, ap[q].0) implies exists|r: int| 0 <= r < new_out.len() && #[trigger] change_key(new_out[r]@) == ap[q].0 by {
        if q < j {
            let r = choose|r: int| 0 <= r < n && #[trigger] change_key(old_out[r]@) == ap[q].0;
            assert(new_out[r] == old_out[r]);
        } else {
            assert(change_key(new_out[n]@) == ap[q].0);
        }
    }
    assert forall|r: int, p: int| 0 <= r < new_out.len() && i2 <= p < bp.len() implies bytes_lt(change_key(#[trigger] new_out[r]@), #[trigger] bp[p].0) by {
        if r < n {
            assert(new_out[r] == old_out[r]);
        }
    }
    assert forall|r: int, q: int| 0 <= r < new_out.len() && j2 <= q < ap.len() implies bytes_lt(change_key(#[trigger] new_out[r]@), #[trigger] ap[q].0) by {
        if r < n {
            assert(new_out[r] == old_out[r]);
        }
    }
}

/// The changes that turn `before` into `after`, in increasing order of name.
pub fn diff(before: &Env, after: &Env) -> (r: Diff)
    requires
        before.wf(),
        after.wf(),
    ensures
        is_diff_of(r@, before@, after@),
        r@ == diff_of(before@, after@),
        before@ == after@ ==> r@.len() == 0,
{
    let ghost bp = before.pairs();
    let ghost ap = after.pairs();
    let ghost bm = before@;
    let ghost am = after@;
    proof {
        lemma_pairs_map(bp);
        lemma_pairs_map(ap);
    }
    let blen = before.vars.len();
    let alen = after.vars.len();
    let mut out: Vec<Change> = Vec::new();
    let mut i: usize = 0;
    let mut j: usize = 0;
    while i < blen || j < alen
        invariant
            blen == bp.len(),
            alen == ap.len(),
            bp == before.pairs(),
            ap == after.pairs(),
            bm == pairs_map(bp),
            am == pairs_map(ap),
            key_sorted(bp),
            key_sorted(ap),
            i <= blen,
            j <= alen,
            changes_sorted(out@.map_values(|c: Change| c@)),
            forall|r: int| 0 <= r < out.len() ==> #[trigger] fits(out@[r]@, bm, am),
            forall|r: int, p: int| 0 <= r < out.len() && i <= p < blen ==> bytes_lt(change_key(#[trigger] out@[r]@), #[trigger] bp[p].0),
            forall|r: int, q: int| 0 <= r < out.len() && j <= q < alen ==> bytes_lt(change_key(#[trigger] out@[r]@), #[trigger] ap[q].0),
            forall|p: int, q: int| 0 <= p < i && j <= q < alen ==> #[trigger] bytes_lt(bp[p].0, ap[q].0),
            forall|p: int, q: int| 0 <= q < j && i <= p < blen ==> #[trigger] bytes_lt(ap[q].0, bp[p].0),
            forall|p: int| 0 <= p < i && #[trigger] differs(bm, am, bp[p].0) ==> exists|r: int| 0 <= r < out.len() && #[trigger] change_key(out@[r]@) == bp[p].0,
            forall|q: int| 0 <= q < j && #[trigger] differs(bm, am, ap[q].0) ==> exists|r: int| 0 <= r < out.len() && #[trigger] change_key(out@[r]@) == ap[q].0,
        decreases blen + alen - i - j,
    {
        proof {
            lemma_pairs_map(bp);
            lemma_pairs_map(ap);
            if i < blen {
                assert(bp[i as int] == (before.vars@[i as int].0@, before.vars@[i as int].1@));
                assert(pairs_map(bp).contains_key(bp[i as int].0));
                assert(bm.contains_key(bp[i as int].0) && bm[bp[i as int].0] == bp[i as int].1);
            }
            if j < alen {
                assert(ap[j as int] == (after.vars@[j as int].0@, after.vars@[j as int].1@));
                assert(pairs_map(ap).contains_key(ap[j as int].0));
                assert(am.contains_key(ap[j as int].0) && am[ap[j as int].0] == ap[j as int].1);
            }
        }
        let ord: i8 = if i == blen {
            1
        } else if j == alen {
            -1
        } else {
            compare_bytes(before.vars[i].0.as_slice(), after.vars[j].0.as_slice())
        };
        let ghost old_out = out@;
        if ord < 0 {
            // before[i] comes first: it is absent from `after`.
            let ghost k = bp[i as int].0;
            proof {
                if am.contains_key(k) {
                    let q = choose|q: int| 0 <= q < ap.len() && #[trigger] ap[q].0 == k;
                    lemma_lt_irreflexive(k);
                    if q < j {
                        assert(bytes_lt(ap[q].0, bp[i as int].0));
                    } else if q > j {
                        assert(bytes_lt(ap[j as int].0, ap[q].0));
                        lemma_lt_transitive(k, ap[j as int].0, k);
                    }
                }
                assert forall|p: int, q: int| 0 <= p < i + 1 && j <= q < alen implies #[trigger] bytes_lt(bp[p].0, ap[q].0) by {
                    if p == i && q > j {
                        assert(bytes_lt(ap[j as int].0, ap[q].0));
                        lemma_lt_transitive(bp[p].0, ap[j as int].0, ap[q].0);
                    }
                }
                assert forall|p: int, q: int| 0 <= q < j && i + 1 <= p < blen implies #[trigger] bytes_lt(ap[q].0, bp[p].0) by {
                    assert(bytes_lt(ap[q].0, bp[i as int].0));
                    assert(bytes_lt(bp[i as int].0, bp[p].0));
                    lemma_lt_transitive(ap[q].0, bp[i as int].0, bp[p].0);
                }
            }
            let c = Change::Removed(copy_bytes(&before.vars[i].0), copy_bytes(&before.vars[i].1));
            assert(bm.contains_key(k) && bm[k] == bp[i as int].1);
            assert(!am.contains_key(k));
            assert(fits(c@, bm, am));
            out.push(c);
            proof { lemma_step_push(old_out, out@, c, bp, ap, i as int, j as int, i as int + 1, j as int, k, bm, am); }
            i = i + 1;
        } else if ord > 0 {
            // after[j] comes first: it is absent from `before`.
            let ghost k = ap[j as int].0;
            proof {
                if bm.contains_key(k) {
                    let p = choose|p: int| 0 <= p < bp.len() && #[trigger] bp[p].0 == k;
                    lemma_lt_irreflexive(k);
                    if p < i {
                        assert(bytes_lt(bp[p].0, ap[j as int].0));
                    } else if p > i {
                        assert(bytes_lt(bp[i as int].0, bp[p].0));
                        lemma_lt_transitive(k, bp[i as int].0, k);
                    }
                }
                assert forall|p: int, q: int| 0 <= q < j + 1 && i <= p < blen implies #[trigger] bytes_lt(ap[q].0, bp[p].0) by {
                    if q == j && p > i {
                        assert(bytes_lt(bp[i as int].0, bp[p].0));
                        lemma_lt_transitive(ap[q].0, bp[i as int].0, bp[p].0);
                    }
                }
                assert forall|p: int, q: int| 0 <= p < i && j + 1 <= q < alen implies #[trigger] bytes_lt(bp[p].0, ap[q].0) by {
                    assert(bytes_lt(bp[p].0, ap[j as int].0));
                    assert(bytes_lt(ap[j as int].0, ap[q].0));
                    lemma_lt_transitive(bp[p].0, ap[j as int].0, ap[q].0);
                }
            }
            let c = Change::Added(copy_bytes(&after.vars[j].0), copy_bytes(&after.vars[j].1));
            out.push(c);
            proof { lemma_step_push(old_out, out@, c, bp, ap, i as int, j as int, i as int, j as int + 1, k, bm, am); }
            j = j + 1;
        } else {
            // The same name on both sides.
            let ghost k = bp[i as int].0;
            proof {
                assert forall|p: int, q: int| 0 <= p < i + 1 && j + 1 <= q < alen implies #[trigger] bytes_lt(bp[p].0, ap[q].0) by {
                    assert(bytes_lt(ap[j as int].0, ap[q].0));
                    if p < i {
                        assert(bytes_lt(bp[p].0, ap[j as int].0));
                        lemma_lt_transitive(bp[p].0, ap[j as int].0, ap[q].0);
                    }
                }
                assert forall|p: int, q: int| 0 <= q < j + 1 && i + 1 <= p < blen implies #[trigger] bytes_lt(ap[q].0, bp[p].0) by {
                    assert(bytes_lt(bp[i as int].0, bp[p].0));
                    if q < j {
                        assert(bytes_lt(ap[q].0, bp[i as int].0));
                        lemma_lt_transitive(ap[q].0, bp[i as int].0, bp[p].0);
                    }
                }
            }
            let same = compare_bytes(before.vars[i].1.as_slice(), after.vars[j].1.as_slice()) == 0;
            if !same {
                let c = Change::Changed(
                    copy_bytes(&before.vars[i].0),
                    copy_bytes(&before.vars[i].1),
                    copy_bytes(&after.vars[j].1),
                );
                assert(bm.contains_key(k) && bm[k] == bp[i as int].1);
                assert(ap[j as int].0 == k);
                assert(am.contains_key(k) && am[k] == ap[j as int].1);
                assert(fits(c@, bm, am));
                out.push(c);
                proof { lemma_step_push(old_out, out@, c, bp, ap, i as int, j as int, i as int + 1, j as int + 1, k, bm, am); }
            } else {
                proof {
                    assert(!differs(bm, am, k));
                    assert forall|r: int, p: int| 0 <= r < out.len() && i + 1 <= p < blen implies bytes_lt(change_key(#[trigger] out@[r]@), #[trigger] bp[p].0) by {
                        assert(bytes_lt(change_key(out@[r]@), bp[i as int].0));
                        assert(bytes_lt(bp[i as int].0, bp[p].0));
                        lemma_lt_transitive(change_key(out@[r]@), bp[i as int].0, bp[p].0);
                    }
                    assert forall|r: int, q: int| 0 <= r < out.len() && j + 1 <= q < alen implies bytes_lt(change_key(#[trigger] out@[r]@), #[trigger] ap[q].0) by {
                        assert(bytes_lt(change_key(out@[r]@), ap[j as int].0));
                        assert(bytes_lt(ap[j as int].0, ap[q].0));
                        lemma_lt_transitive(change_key(out@[r]@), ap[j as int].0, ap[q].0);
                    }
                }
            }
            i = i + 1;
            j = j + 1;
        }
    }
    let r = Diff { changes: out };
    proof {
        lemma_pairs_map(bp);
        lemma_pairs_map(ap);
        assert forall|x: int| 0 <= x < r@.len() implies #[trigger] r@[x] == out@[x]@ by {}
        assert forall|k: Seq<u8>| #[trigger] differs(bm, am, k) implies exists|x: int|
            0 <= x < r@.len() && #[trigger] change_key(r@[x]) == k by {
            if bm.contains_key(k) {
                let p = choose|p: int| 0 <= p < bp.len() && #[trigger] bp[p].0 == k;
                assert(differs(bm, am, bp[p].0));
                let x = choose|x: int| 0 <= x < out.len() && #[trigger] change_key(out@[x]@) == bp[p].0;
                assert(change_key(r@[x]) == k);
            } else {
                let q = choose|q: int| 0 <= q < ap.len() && #[trigger] ap[q].0 == k;
                assert(differs(bm, am, ap[q].0));
                let x = choose|x: int| 0 <= x < out.len() && #[trigger] change_key(out@[x]@) == ap[q].0;
                assert(change_key(r@[x]) == k);
            }
        }
        assert(is_diff_of(r@, bm, am));
        lemma_diff_unique(r@, diff_of(bm, am), bm, am);
        if bm == am {
            lemma_diff_of_self_is_empty(bm, r@);
        }
    }
    r
}

/// `d` without the changes whose name starts with `prefix`, order kept.
pub open spec fn excluded(d: Seq<ChangeView>, prefix: Seq<u8>) -> Seq<ChangeView>
    decreases d.len(),
{
    if d.len() == 0 {
        Seq::empty()
    } else {
        let rest = excluded(d.drop_last(), prefix);
        if has_prefix(change_key(d.last()), prefix) {
            rest
        } else {
            rest.push(d.last())
        }
    }
}

/// Each change with its roles swapped: what was added is removed, and the
/// reverse; a changed value goes back from its new value to its old one.
pub open spec fn reversed_change(c: ChangeView) -> ChangeView {
    match c {
        ChangeView::Added(k, v) => ChangeView::Removed(k, v),
        ChangeView::Changed(k, x, y) => ChangeView::Changed(k, y, x),
        ChangeView::Removed(k, v) => ChangeView::Added(k, v),
    }
}

pub open spec fn reversed(d: Seq<ChangeView>) -> Seq<ChangeView> {
    d.map_values(|c: ChangeView| reversed_change(c))
}

/// Copies a change.
pub fn copy_change(c: &Change) -> (r: Change)
    ensures
        r@ == c@,
{
    match c {
        Change::Added(k, v) => Change::Added(copy_bytes(k), copy_bytes(v)),
        Change::Changed(k, x, y) => Change::Changed(copy_bytes(k), copy_bytes(x), copy_bytes(y)),
        Change::Removed(k, v) => Change::Removed(copy_bytes(k), copy_bytes(v)),
    }
}

/// The name that a change is about.
pub fn key_of(c: &Change) -> (r: &Vec<u8>)
    ensures
        r@ == change_key(c@),
{
    match c {
        Change::Added(k, _) => k,
        Change::Changed(k, _, _) => k,
        Change::Removed(k, _) => k,
    }
}

impl Diff {
    /// An empty diff.
    pub fn new() -> (r: Diff)
        ensures
            r@ == Seq::<ChangeView>::empty(),
    {
        let r = Diff { changes: Vec::new() };
        assert(r@ =~= Seq::<ChangeView>::empty());
        r
    }

    /// Appends a change at the end.
    pub fn push(&mut self, c: Change)
        ensures
            final(self)@ == old(self)@.push(c@),
    {
        self.changes.push(c);
        assert(final(self)@ =~= old(self)@.push(c@));
    }

    /// A copy without the changes whose name starts with `prefix`; `self` is
    /// left as it is.
    pub fn exclude_by_prefix(&self, prefix: &[u8]) -> (r: Diff)
        ensures
            r@ == excluded(self@, prefix@),
    {
        let mut out: Vec<Change> = Vec::new();
        let mut i: usize = 0;
        while i < self.changes.len()
            invariant
                i <= self.changes.len(),
                out@.map_values(|c: Change| c@) == excluded(self@.subrange(0, i as int), prefix@),
            decreases self.changes.len() - i,
        {
            let ghost sub = self@.subrange(0, i + 1);
            proof {
                assert(sub.drop_last() =~= self@.subrange(0, i as int));
                assert(sub.last() == self.changes@[i as int]@);
            }
            let c = &self.changes[i];
            if !starts_with(key_of(c).as_slice(), prefix) {
                out.push(copy_change(c));
            }
            proof {
                assert(out@.map_values(|c: Change| c@) =~= excluded(sub, prefix@));
            }
            i = i + 1;
        }
        assert(self@.subrange(0, i as int) =~= self@);
        Diff { changes: out }
    }
}

/// No variable differs between a snapshot and itself, so the diff of a
/// snapshot with itself is empty.
pub proof fn lemma_diff_of_self_is_empty(s: Map<Seq<u8>, Seq<u8>>, d: Seq<ChangeView>)
    requires
        is_diff_of(d, s, s),
    ensures
        d.len() == 0,
{
    if d.len() > 0 {
        assert(fits(d[0], s, s));
    }
}

/// A diff is determined by the two snapshots it is taken between.
pub proof fn lemma_diff_unique(
    d1: Seq<ChangeView>,
    d2: Seq<ChangeView>,
    before: Map<Seq<u8>, Seq<u8>>,
    after: Map<Seq<u8>, Seq<u8>>,
)
    requires
        is_diff_of(d1, before, after),
        is_diff_of(d2, before, after),
    ensures
        d1 == d2,
{
    lemma_diff_unique_prefix(d1, d2, before, after);
    lemma_diff_unique_prefix(d2, d1, before, after);
    assert(d1 =~= d2);
}

/// Both diffs agree on every index they both have, and `d2` is no shorter.
proof fn lemma_diff_unique_prefix(
    d1: Seq<ChangeView>,
    d2: Seq<ChangeView>,
    before: Map<Seq<u8>, Seq<u8>>,
    after: Map<Seq<u8>, Seq<u8>>,
)
    requires
        is_diff_of(d1, before, after),
        is_diff_of(d2, before, after),
    ensures
        d1.len() <= d2.len(),
        forall|i: int| 0 <= i < d1.len() ==> d1[i] == d2[i],
{
    let n = if d1.len() <= d2.len() { d1.len() as int } else { d2.len() as int };
    assert forall|m: int| 0 <= m < n implies d1[m] == d2[m] by {
        lemma_diff_agree_at(d1, d2, before, after, m);
    }
    if d1.len() > d2.len() {
        let m = d2.len() as int;
        let k = change_key(d1[m]);
        assert(fits(d1[m], before, after));
        assert(differs(before, after, k));
        let j = choose|j: int| 0 <= j < d2.len() && #[trigger] change_key(d2[j]) == k;
        assert(d1[j] == d2[j]);
        assert(bytes_lt(change_key(d1[j]), change_key(d1[m])));
        lemma_lt_irreflexive(k);
    }
}

proof fn lemma_diff_agree_at(
    d1: Seq<ChangeView>,
    d2: Seq<ChangeView>,
    before: Map<Seq<u8>, Seq<u8>>,
    after: Map<Seq<u8>, Seq<u8>>,
    m: int,
)
    requires
        is_diff_of(d1, before, after),
        is_diff_of(d2, before, after),
        0 <= m < d1.len(),
        m < d2.len(),
    ensures
        d1[m] == d2[m],
    decreases m,
{
    if m > 0 {
        lemma_diff_agree_at(d1, d2, before, after, m - 1);
    }
    assert forall|i: int| 0 <= i < m implies d1[i] == d2[i] by {
        lemma_diff_agree_at(d1, d2, before, after, i);
    }
    let k1 = change_key(d1[m]);
    let k2 = change_key(d2[m]);
    assert(fits(d1[m], before, after));
    assert(fits(d2[m], before, after));
    lemma_lt_total(k1, k2);
    lemma_lt_irreflexive(k1);
    lemma_lt_irreflexive(k2);
    if bytes_lt(k1, k2) {
        assert(differs(before, after, k1));
        let j = choose|j: int| 0 <= j < d2.len() && #[trigger] change_key(d2[j]) == k1;
        if j < m {
            assert(d1[j] == d2[j]);
            assert(bytes_lt(change_key(d1[j]), change_key(d1[m])));
        } else if j > m {
            assert(bytes_lt(change_key(d2[m]), change_key(d2[j])));
            lemma_lt_asymmetric(k1, k2);
        }
    } else if bytes_lt(k2, k1) {
        assert(differs(before, after, k2));
        let j = choose|j: int| 0 <= j < d1.len() && #[trigger] change_key(d1[j]) == k2;
        if j < m {
            assert(d1[j] == d2[j]);
            assert(bytes_lt(change_key(d2[j]), change_key(d2[m])));
        } else if j > m {
            assert(bytes_lt(change_key(d1[m]), change_key(d1[j])));
            lemma_lt_asymmetric(k1, k2);
        }
    }
}

/// The diff from `b` to `a` is the diff from `a` to `b` with each change's
/// roles swapped.
pub proof fn lemma_diff_reversed(
    a: Map<Seq<u8>, Seq<u8>>,
    b: Map<Seq<u8>, Seq<u8>>,
    d_ab: Seq<ChangeView>,
    d_ba: Seq<ChangeView>,
)
    requires
        is_diff_of(d_ab, a, b),
        is_diff_of(d_ba, b, a),
    ensures
        d_ba == reversed(d_ab),
{
    let r = reversed(d_ab);
    assert forall|i: int| 0 <= i < r.len() implies change_key(#[trigger] r[i]) == change_key(d_ab[i]) && fits(r[i], b, a) by {
        assert(fits(d_ab[i], a, b));
    }
    assert forall|k: Seq<u8>| #[trigger] differs(b, a, k) implies exists|i: int|
        0 <= i < r.len() && #[trigger] change_key(r[i]) == k by {
        assert(differs(a, b, k));
        let i = choose|i: int| 0 <= i < d_ab.len() && #[trigger] change_key(d_ab[i]) == k;
        assert(change_key(r[i]) == k);
    }
    assert forall|i: int, j: int| 0 <= i < j < r.len() implies #[trigger] bytes_lt(change_key(r[i]), change_key(r[j])) by {
        assert(bytes_lt(change_key(d_ab[i]), change_key(d_ab[j])));
    }
    lemma_diff_unique(d_ba, r, b, a);
}

/// Leaving out the changes under a prefix a second time changes nothing.
pub proof fn lemma_exclude_idempotent(d: Seq<ChangeView>, prefix: Seq<u8>)
    ensures
        excluded(excluded(d, prefix), prefix) == excluded(d, prefix),
    decreases d.len(),
{
    if d.len() > 0 {
        lemma_exclude_idempotent(d.drop_last(), prefix);
        let rest = excluded(d.drop_last(), prefix);
        if !has_prefix(change_key(d.last()), prefix) {
            let e = rest.push(d.last());
            assert(e.drop_last() =~= rest);
        }
    }
}

impl Env {
    /// The snapshot with the given pairs, or `None` where their names do not
    /// increase strictly.
    pub fn from_pairs(vars: Vec<(Vec<u8>, Vec<u8>)>) -> (r: Option<Env>)
        ensures
            r is Some <==> key_sorted(vars@.map_values(|p: (Vec<u8>, Vec<u8>)| (p.0@, p.1@))),
            r matches Some(e) ==> e.vars@ == vars@ && e.wf(),
    {
        let ghost s = vars@.map_values(|p: (Vec<u8>, Vec<u8>)| (p.0@, p.1@));
        let mut i: usize = 1;
        while i < vars.len()
            invariant
                1 <= i,
                s == vars@.map_values(|p: (Vec<u8>, Vec<u8>)| (p.0@, p.1@)),
                vars.len() > 0 ==> i <= vars.len(),
                vars.len() > 0 ==> key_sorted(s.subrange(0, i as int)),
            decreases vars.len() - i,
        {
            assert(s[i - 1] == (vars@[i - 1].0@, vars@[i - 1].1@));
            assert(s[i as int] == (vars@[i as int].0@, vars@[i as int].1@));
            if compare_bytes(vars[i - 1].0.as_slice(), vars[i].0.as_slice()) >= 0 {
                proof {
                    lemma_lt_asymmetric(s[i as int].0, s[i - 1].0);
                    if s[i - 1].0 == s[i as int].0 {
                        lemma_lt_irreflexive(s[i as int].0);
                    }
                    assert(!bytes_lt(s[i - 1].0, s[i as int].0));
                }
                return None;
            }
            proof {
                let t = s.subrange(0, i as int);
                let u = s.subrange(0, i + 1);
                assert forall|a: int, b: int| 0 <= a < b < u.len() implies #[trigger] bytes_lt(u[a].0, u[b].0) by {
                    if b < i {
                        assert(bytes_lt(t[a].0, t[b].0));
                    } else if a < i - 1 {
                        assert(bytes_lt(t[a].0, t[i - 1].0));
                        lemma_lt_transitive(s[a].0, s[i - 1].0, s[i as int].0);
                    }
                }
            }
            i = i + 1;
        }
        if vars.len() > 0 {
            assert(s.subrange(0, i as int) =~= s);
        }
        Some(Env { vars })
    }

    /// The value of the variable `key`, if the snapshot holds it.
    pub fn get(&self, key: &[u8]) -> (r: Option<&Vec<u8>>)
        requires
            self.wf(),
        ensures
            r is Some <==> self@.contains_key(key@),
            r matches Some(v) ==> v@ == self@[key@],
    {
        proof {
            lemma_pairs_map(self.pairs());
        }
        let mut i: usize = 0;
        while i < self.vars.len()
            invariant
                self.wf(),
                i <= self.vars.len(),
                forall|p: int| 0 <= p < i ==> #[trigger] self.pairs()[p].0 != key@,
            decreases self.vars.len() - i,
        {
            assert(self.pairs()[i as int] == (self.vars@[i as int].0@, self.vars@[i as int].1@));
            if compare_bytes(self.vars[i].0.as_slice(), key) == 0 {
                proof {
                    lemma_pairs_map(self.pairs());
                    assert(pairs_map(self.pairs()).contains_key(self.pairs()[i as int].0));
                }
                return Some(&self.vars[i].1);
            }
            i = i + 1;
        }
        proof {
            lemma_pairs_map(self.pairs());
            if self@.contains_key(key@) {
                let p = choose|p: int| 0 <= p < self.pairs().len() && #[trigger] self.pairs()[p].0 == key@;
            }
        }
        None
    }

    /// The snapshot read from the bytes that the capture step wrote, or `None`
    /// where they do not decode or the names do not increase strictly.
    pub fn decode(bytes: &[u8]) -> (r: Option<Env>)
        ensures
            r is Some <==> decodes_sorted(bytes@),
            r matches Some(e) ==> e.wf() && pairs_decoded(bytes@) == Some(e.pairs()),
    {
        match decode_pairs(bytes) {
            Some(vars) => Env::from_pairs(vars),
            None => None,
        }
    }

    /// The bytes that stand for this snapshot in the capture hand-off; they
    /// decode to this snapshot's pairs.
    pub fn encode(&self) -> (r: Option<Vec<u8>>)
        ensures
            r is Some,
            r matches Some(b) ==> pairs_decoded(b@) == Some(self.pairs()),
    {
        encode_pairs(&self.vars)
    }
}

/// The pairs of byte strings that bincode reads from `b`, if it reads any.
pub uninterp spec fn pairs_decoded(b: Seq<u8>) -> Option<Seq<(Seq<u8>, Seq<u8>)>>;

/// The bytes decode to pairs whose names increase strictly.
pub open spec fn decodes_sorted(b: Seq<u8>) -> bool {
    pairs_decoded(b) matches Some(p) && key_sorted(p)
}

pub open spec fn pairs_of(v: Seq<(Vec<u8>, Vec<u8>)>) -> Seq<(Seq<u8>, Seq<u8>)> {
    v.map_values(|p: (Vec<u8>, Vec<u8>)| (p.0@, p.1@))
}

/// Relies on `bincode::deserialize` to read a list of byte-string pairs: what
/// it reads depends on the bytes alone.
#[verifier::external_body]
fn decode_pairs(bytes: &[u8]) -> (r: Option<Vec<(Vec<u8>, Vec<u8>)>>)
    ensures
        r is Some <==> pairs_decoded(bytes@) is Some,
        r matches Some(v) ==> pairs_decoded(bytes@) == Some(pairs_of(v@)),
{
    bincode::deserialize::<Vec<(Vec<u8>, Vec<u8>)>>(bytes).ok()
}

/// Relies on `bincode::serialize` to write a list of byte-string pairs: it
/// does not fail on vectors of byte strings, and `bincode::deserialize` reads
/// the same pairs back from what it writes.
#[verifier::external_body]
fn encode_pairs(vars: &Vec<(Vec<u8>, Vec<u8>)>) -> (r: Option<Vec<u8>>)
    ensures
        r is Some,
        r matches Some(b) ==> pairs_decoded(b@) == Some(pairs_of(vars@)),
{
    bincode::serialize(vars).ok()
}

} // verus!
