//! The race course: an ordered checkpoint sequence with class labels, plus
//! side-checkpoints attached to the segments between consecutive
//! checkpoints, kept sorted by anchor index.

use vstd::prelude::*;
use crate::geom::Point;

verus! {

broadcast use {
    vstd::seq_lib::group_to_multiset_ensures,
    vstd::seq_lib::to_multiset_update,
    vstd::multiset::group_multiset_axioms,
};

/// A primary waypoint with its free-text class label.
pub struct Checkpoint {
    pub point: Point,
    pub label: String,
}

/// A secondary waypoint attached to the segment between checkpoints
/// `anchor` and `anchor + 1`.
#[derive(Clone, Copy, PartialEq, Eq, Structural, Debug)]
pub struct SideCheckpoint {
    pub anchor: usize,
    pub point: Point,
}

/// A race course. Traversal order is array order; `side` is kept sorted
/// ascending by anchor index.
pub struct Race {
    pub checkpoints: Vec<Checkpoint>,
    pub side: Vec<SideCheckpoint>,
}

/// Side-checkpoints are ordered non-decreasing by anchor index.
pub open spec fn side_sorted(s: Seq<SideCheckpoint>) -> bool {
    forall|i: int, j: int|
        0 <= i < j < s.len() ==> #[trigger] s[i].anchor <= #[trigger] s[j].anchor
}

/// No two checkpoints share a location.
pub open spec fn cps_distinct(cp: Seq<Checkpoint>) -> bool {
    forall|i: int, j: int|
        0 <= i < j < cp.len() ==> (#[trigger] cp[i]).point != (#[trigger] cp[j]).point
}

/// No two side-checkpoints share a location.
pub open spec fn sides_distinct(sd: Seq<SideCheckpoint>) -> bool {
    forall|i: int, j: int|
        0 <= i < j < sd.len() ==> (#[trigger] sd[i]).point != (#[trigger] sd[j]).point
}

/// No checkpoint shares a location with a side-checkpoint.
pub open spec fn cp_side_distinct(cp: Seq<Checkpoint>, sd: Seq<SideCheckpoint>) -> bool {
    forall|i: int, j: int|
        0 <= i < cp.len() && 0 <= j < sd.len() ==> (#[trigger] cp[i]).point != (
        #[trigger] sd[j]).point
}

/// Every side-checkpoint anchors a segment whose second endpoint exists
/// among `n_cp` checkpoints.
pub open spec fn anchors_fit(sd: Seq<SideCheckpoint>, n_cp: int) -> bool {
    forall|i: int| 0 <= i < sd.len() ==> (#[trigger] sd[i]).anchor + 1 < n_cp
}

impl Race {
    pub open spec fn cp_points(self) -> Seq<Point> {
        self.checkpoints@.map_values(|c: Checkpoint| c.point)
    }

    pub open spec fn side_points(self) -> Seq<Point> {
        self.side@.map_values(|s: SideCheckpoint| s.point)
    }

    pub open spec fn label_values(self) -> Seq<String> {
        self.checkpoints@.map_values(|c: Checkpoint| c.label)
    }

    /// The point is the location of some checkpoint or side-checkpoint.
    pub open spec fn uses_point(self, p: Point) -> bool {
        self.cp_points().contains(p) || self.side_points().contains(p)
    }

    /// No two course elements share a location.
    pub open spec fn points_distinct(self) -> bool {
        &&& cps_distinct(self.checkpoints@)
        &&& sides_distinct(self.side@)
        &&& cp_side_distinct(self.checkpoints@, self.side@)
    }

    /// Structural well-formedness kept by every operation: side-checkpoints
    /// sorted by anchor, and no location shared between course elements.
    pub open spec fn wf(self) -> bool {
        side_sorted(self.side@) && self.points_distinct()
    }

    /// Every side-checkpoint's segment has both endpoints: its anchor index
    /// is at most `checkpoints.len() - 2`. Deleting a checkpoint does not
    /// re-anchor side-checkpoints, so this can be lost then (a documented
    /// limitation); drawing requires it.
    pub open spec fn anchors_ok(self) -> bool {
        anchors_fit(self.side@, self.checkpoints@.len() as int)
    }

    /// Whether some course element sits at `p`.
    pub fn point_in_use(&self, p: Point) -> (r: bool)
        ensures
            r == self.uses_point(p),
    {
        let mut k: usize = 0;
        while k < self.checkpoints.len()
            invariant
                k <= self.checkpoints@.len(),
                forall|t: int| 0 <= t < k ==> (#[trigger] self.checkpoints@[t]).point != p,
            decreases self.checkpoints@.len() - k,
        {
            if self.checkpoints[k].point == p {
                proof {
                    assert(self.cp_points()[k as int] == p);
                }
                return true;
            }
            k = k + 1;
        }
        let mut k: usize = 0;
        while k < self.side.len()
            invariant
                k <= self.side@.len(),
                forall|t: int| 0 <= t < k ==> (#[trigger] self.side@[t]).point != p,
            decreases self.side@.len() - k,
        {
            if self.side[k].point == p {
                proof {
                    assert(self.side_points()[k as int] == p);
                }
                return true;
            }
            k = k + 1;
        }
        proof {
            assert(!self.cp_points().contains(p));
            assert(!self.side_points().contains(p));
        }
        false
    }
}

/// Sequences with equal multisets hold the same elements.
pub(crate) proof fn lemma_multiset_eq_contains<T>(a: Seq<T>, b: Seq<T>)
    requires
        a.to_multiset() == b.to_multiset(),
    ensures
        forall|x: T| a.contains(x) <==> b.contains(x),
{
    assert forall|x: T| a.contains(x) <==> b.contains(x) by {
        if a.contains(x) {
            assert(a.to_multiset().count(x) > 0);
        }
        if b.contains(x) {
            assert(b.to_multiset().count(x) > 0);
        }
    }
}

/// A permutation of a duplicate-free sequence is duplicate-free.
pub(crate) proof fn lemma_multiset_eq_no_duplicates<T>(a: Seq<T>, b: Seq<T>)
    requires
        a.to_multiset() == b.to_multiset(),
        a.no_duplicates(),
    ensures
        b.no_duplicates(),
{
    a.lemma_multiset_has_no_duplicates();
    b.lemma_multiset_has_no_duplicates_conv();
}

/// Rearranging side-checkpoints (as by sorting) keeps location
/// distinctness and anchor bounds.
pub(crate) proof fn lemma_side_perm_preserves(
    cp: Seq<Checkpoint>,
    pre: Seq<SideCheckpoint>,
    post: Seq<SideCheckpoint>,
    n_cp: int,
)
    requires
        post.to_multiset() == pre.to_multiset(),
        sides_distinct(pre),
        cp_side_distinct(cp, pre),
    ensures
        sides_distinct(post),
        cp_side_distinct(cp, post),
        anchors_fit(pre, n_cp) ==> anchors_fit(post, n_cp),
{
    lemma_multiset_eq_contains(post, pre);
    assert(pre.no_duplicates()) by {
        assert forall|a: int, b: int|
            0 <= a < pre.len() && 0 <= b < pre.len() && a != b implies pre[a] != pre[b] by {
            if a < b {
                assert(pre[a].point != pre[b].point);
            } else {
                assert(pre[b].point != pre[a].point);
            }
        }
    }
    lemma_multiset_eq_no_duplicates(pre, post);
    assert forall|i: int, j: int| 0 <= i < j < post.len() implies (#[trigger] post[i]).point != (
    #[trigger] post[j]).point by {
        assert(post[i] != post[j]);
        assert(pre.contains(post[i]));
        assert(pre.contains(post[j]));
        let t1 = choose|t: int| 0 <= t < pre.len() && pre[t] == post[i];
        let t2 = choose|t: int| 0 <= t < pre.len() && pre[t] == post[j];
        assert(t1 != t2);
        assert(pre[t1].point != pre[t2].point);
    }
    assert forall|i: int, j: int|
        0 <= i < cp.len() && 0 <= j < post.len() implies (#[trigger] cp[i]).point != (
    #[trigger] post[j]).point by {
        assert(pre.contains(post[j]));
        let t = choose|t: int| 0 <= t < pre.len() && pre[t] == post[j];
        assert(pre[t].point != cp[i].point);
    }
    if anchors_fit(pre, n_cp) {
        assert forall|i: int| 0 <= i < post.len() implies (#[trigger] post[i]).anchor + 1
            < n_cp by {
            assert(pre.contains(post[i]));
            let t = choose|t: int| 0 <= t < pre.len() && pre[t] == post[i];
            assert(pre[t].anchor + 1 < n_cp);
        }
    }
}

/// Sort side-checkpoints ascending by anchor index, in place.
///
/// Sorting keeps the elements (as a multiset), and an already-sorted list
/// is returned unchanged, so repeated sorting is a no-op.
pub fn sort_side_checkpoints(v: &mut Vec<SideCheckpoint>)
    ensures
        final(v)@.len() == old(v)@.len(),
        final(v)@.to_multiset() == old(v)@.to_multiset(),
        side_sorted(final(v)@),
        side_sorted(old(v)@) ==> final(v)@ == old(v)@,
{
    let n = v.len();
    if n == 0 {
        return ;
    }
    let mut i: usize = 1;
    while i < n
        invariant
            1 <= i <= n,
            v@.len() == n,
            n == old(v)@.len(),
            v@.to_multiset() == old(v)@.to_multiset(),
            side_sorted(v@.take(i as int)),
            side_sorted(old(v)@) ==> v@ == old(v)@,
        decreases n - i,
    {
        proof {
            assert forall|a: int, b: int|
                0 <= a < b <= i && b != i as int implies (#[trigger] v@[a]).anchor
                <= (#[trigger] v@[b]).anchor by {
                assert(v@.take(i as int)[a] == v@[a]);
                assert(v@.take(i as int)[b] == v@[b]);
            }
        }
        let mut j: usize = i;
        while j > 0 && v[j - 1].anchor > v[j].anchor
            invariant
                0 <= j <= i < n,
                v@.len() == n,
                n == old(v)@.len(),
                v@.to_multiset() == old(v)@.to_multiset(),
                forall|a: int, b: int|
                    0 <= a < b <= i && b != j ==> (#[trigger] v@[a]).anchor
                        <= (#[trigger] v@[b]).anchor,
                side_sorted(old(v)@) ==> v@ == old(v)@,
            decreases j,
        {
            proof {
                if side_sorted(old(v)@) {
                    assert(v@[j - 1].anchor <= v@[j as int].anchor);
                }
            }
            let ghost s = v@;
            let x = v[j - 1];
            let y = v[j];
            v.set(j - 1, y);
            v.set(j, x);
            proof {
                assert(s.contains(x)) by {
                    assert(s[j - 1] == x);
                }
                assert(v@ == s.update(j - 1, y).update(j as int, x));
                assert(s.update(j - 1, y)[j as int] == y);
                assert(v@.to_multiset() =~= s.to_multiset());
            }
            j = j - 1;
        }
        i = i + 1;
        assert(side_sorted(v@.take(i as int)));
    }
    proof {
        assert(v@.take(n as int) =~= v@);
    }
}

} // verus!
