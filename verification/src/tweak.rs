//! Tweak operations on an existing race. Every replacement point is drawn
//! from the pool points that no current course element uses, so locations
//! stay pairwise distinct; operations either fully apply or leave the race
//! unchanged.

use vstd::prelude::*;
use crate::geom::Point;
use crate::race::{
    anchors_fit, cp_side_distinct, lemma_side_perm_preserves, sides_distinct,
    sort_side_checkpoints, Checkpoint, Race, SideCheckpoint,
};
use crate::rng::RaceRng;

verus! {

broadcast use {
    vstd::seq_lib::group_to_multiset_ensures,
    vstd::seq_lib::to_multiset_update,
    vstd::multiset::group_multiset_axioms,
};

/// A tweak needed a fresh unused pool point and none remained.
#[derive(Clone, Copy, PartialEq, Eq, Structural, Debug)]
pub enum TweakError {
    ExhaustedPool,
}

/// Every pool point is already used by some course element.
pub open spec fn pool_exhausted(pool: Seq<Point>, race: Race) -> bool {
    forall|i: int| 0 <= i < pool.len() ==> race.uses_point(#[trigger] pool[i])
}

/// Draw a random pool point that no current course element uses; report
/// the pool as exhausted exactly when no such point exists.
pub fn random_unused_point(pool: &Vec<Point>, race: &Race, rng: &mut RaceRng) -> (r: Result<
    Point,
    TweakError,
>)
    ensures
        r matches Ok(p) ==> pool@.contains(p) && !race.uses_point(p),
        r is Err <==> pool_exhausted(pool@, *race),
{
    let mut unused: Vec<Point> = Vec::new();
    let mut k: usize = 0;
    while k < pool.len()
        invariant
            k <= pool@.len(),
            forall|t: int|
                0 <= t < unused@.len() ==> pool@.contains(#[trigger] unused@[t])
                    && !race.uses_point(unused@[t]),
            unused@.len() == 0 ==> forall|t: int|
                0 <= t < k ==> race.uses_point(#[trigger] pool@[t]),
        decreases pool@.len() - k,
    {
        let p = pool[k];
        if !race.point_in_use(p) {
            unused.push(p);
            proof {
                assert(pool@.contains(pool@[k as int]));
            }
        }
        k = k + 1;
    }
    if unused.len() == 0 {
        return Err(TweakError::ExhaustedPool);
    }
    proof {
        // A surviving candidate witnesses that the pool is not exhausted.
        assert(pool@.contains(unused@[0]));
        let w = choose|t: int| 0 <= t < pool@.len() && pool@[t] == unused@[0];
        assert(!race.uses_point(pool@[w]));
    }
    let i = rng.gen_index(unused.len());
    Ok(unused[i])
}

impl Race {
    /// Remove checkpoint `i`. Side-checkpoints are kept as they are: their
    /// anchors are not re-indexed, so ones that pointed at or past the
    /// removed checkpoint now point at a shifted segment (a documented
    /// limitation carried by `anchors_ok`).
    pub fn delete_checkpoint(&mut self, i: usize)
        requires
            i < old(self).checkpoints@.len(),
            old(self).wf(),
        ensures
            final(self).checkpoints@ == old(self).checkpoints@.remove(i as int),
            final(self).side == old(self).side,
            final(self).wf(),
    {
        let ghost pre = self.checkpoints@;
        self.checkpoints.remove(i);
        proof {
            assert forall|a: int, b: int|
                0 <= a < b < self.checkpoints@.len() implies (#[trigger] self.checkpoints@[a]).point
                != (#[trigger] self.checkpoints@[b]).point by {
                let oa = if a < i { a } else { a + 1 };
                let ob = if b < i { b } else { b + 1 };
                assert(self.checkpoints@[a] == pre[oa]);
                assert(self.checkpoints@[b] == pre[ob]);
            }
            assert forall|a: int, j: int|
                0 <= a < self.checkpoints@.len() && 0 <= j < self.side@.len() implies (
            #[trigger] self.checkpoints@[a]).point != (#[trigger] self.side@[j]).point by {
                let oa = if a < i { a } else { a + 1 };
                assert(self.checkpoints@[a] == pre[oa]);
            }
        }
    }

    /// Replace checkpoint `i`'s point with a fresh unused pool point,
    /// keeping its label and everything else.
    pub fn reroll_checkpoint(&mut self, pool: &Vec<Point>, rng: &mut RaceRng, i: usize) -> (r:
        Result<(), TweakError>)
        requires
            i < old(self).checkpoints@.len(),
            old(self).wf(),
        ensures
            r is Err <==> pool_exhausted(pool@, *old(self)),
            r is Err ==> *final(self) == *old(self),
            r is Ok ==> {
                &&& final(self).side == old(self).side
                &&& final(self).checkpoints@.len() == old(self).checkpoints@.len()
                &&& forall|t: int|
                    0 <= t < old(self).checkpoints@.len() && t != i
                        ==> #[trigger] final(self).checkpoints@[t] == old(self).checkpoints@[t]
                &&& final(self).checkpoints@[i as int].label
                    == old(self).checkpoints@[i as int].label
                &&& pool@.contains(final(self).checkpoints@[i as int].point)
                &&& !old(self).uses_point(final(self).checkpoints@[i as int].point)
                &&& final(self).wf()
                &&& (old(self).anchors_ok() ==> final(self).anchors_ok())
            },
    {
        let p = match random_unused_point(pool, self, rng) {
            Ok(p) => p,
            Err(e) => { return Err(e) },
        };
        let lab = self.checkpoints[i].label.clone();
        self.checkpoints.set(i, Checkpoint { point: p, label: lab });
        proof {
            lemma_fresh_point_checkpoint(*old(self), *self, i as int, p);
        }
        Ok(())
    }

    /// Insert a fresh checkpoint immediately after index `i`, with an
    /// unused pool point and an empty label.
    pub fn add_checkpoint_after(&mut self, pool: &Vec<Point>, rng: &mut RaceRng, i: usize) -> (r:
        Result<(), TweakError>)
        requires
            i < old(self).checkpoints@.len(),
            old(self).wf(),
        ensures
            r is Err <==> pool_exhausted(pool@, *old(self)),
            r is Err ==> *final(self) == *old(self),
            r is Ok ==> {
                &&& final(self).side == old(self).side
                &&& final(self).checkpoints@.len() == old(self).checkpoints@.len() + 1
                &&& forall|t: int|
                    0 <= t <= i ==> #[trigger] final(self).checkpoints@[t]
                        == old(self).checkpoints@[t]
                &&& forall|t: int|
                    i + 1 < t < final(self).checkpoints@.len()
                        ==> #[trigger] final(self).checkpoints@[t] == old(self).checkpoints@[t - 1]
                &&& final(self).checkpoints@[i + 1].label@ == Seq::<char>::empty()
                &&& pool@.contains(final(self).checkpoints@[i + 1].point)
                &&& !old(self).uses_point(final(self).checkpoints@[i + 1].point)
                &&& final(self).wf()
                &&& (old(self).anchors_ok() ==> final(self).anchors_ok())
            },
    {
        let p = match random_unused_point(pool, self, rng) {
            Ok(p) => p,
            Err(e) => { return Err(e) },
        };
        let n = self.checkpoints.len();
        proof {
            assert(i < n);
        }
        self.checkpoints.insert(i + 1, Checkpoint { point: p, label: String::new() });
        proof {
            let pre = old(self).checkpoints@;
            let post = self.checkpoints@;
            assert forall|a: int, b: int|
                0 <= a < b < post.len() implies (#[trigger] post[a]).point != (
            #[trigger] post[b]).point by {
                if a != i + 1 && b != i + 1 {
                    let oa = if a < i + 1 { a } else { a - 1 };
                    let ob = if b < i + 1 { b } else { b - 1 };
                    assert(post[a] == pre[oa]);
                    assert(post[b] == pre[ob]);
                } else if a == i + 1 {
                    assert(post[b] == pre[b - 1]);
                    assert(old(self).cp_points()[b - 1] == pre[b - 1].point);
                } else {
                    let oa = if a < i + 1 { a } else { a - 1 };
                    assert(post[a] == pre[oa]);
                    assert(old(self).cp_points()[oa] == pre[oa].point);
                }
            }
            assert forall|a: int, j: int|
                0 <= a < post.len() && 0 <= j < self.side@.len() implies (
            #[trigger] post[a]).point != (#[trigger] self.side@[j]).point by {
                if a == i + 1 {
                    assert(old(self).side_points()[j] == self.side@[j].point);
                } else {
                    let oa = if a < i + 1 { a } else { a - 1 };
                    assert(post[a] == pre[oa]);
                }
            }
        }
        Ok(())
    }

    /// Remove side-checkpoint `i` (a position in the side-checkpoint list,
    /// not an anchor index).
    pub fn delete_side_checkpoint(&mut self, i: usize)
        requires
            i < old(self).side@.len(),
            old(self).wf(),
        ensures
            final(self).side@ == old(self).side@.remove(i as int),
            final(self).checkpoints == old(self).checkpoints,
            final(self).wf(),
            old(self).anchors_ok() ==> final(self).anchors_ok(),
    {
        let ghost pre = self.side@;
        self.side.remove(i);
        proof {
            assert forall|a: int, b: int|
                0 <= a < b < self.side@.len() implies ((#[trigger] self.side@[a]).anchor
                <= (#[trigger] self.side@[b]).anchor && self.side@[a].point
                != self.side@[b].point) by {
                let oa = if a < i { a } else { a + 1 };
                let ob = if b < i { b } else { b + 1 };
                assert(self.side@[a] == pre[oa]);
                assert(self.side@[b] == pre[ob]);
            }
            assert forall|a: int, j: int|
                0 <= a < self.checkpoints@.len() && 0 <= j < self.side@.len() implies (
            #[trigger] self.checkpoints@[a]).point != (#[trigger] self.side@[j]).point by {
                let oj = if j < i { j } else { j + 1 };
                assert(self.side@[j] == pre[oj]);
            }
            if old(self).anchors_ok() {
                assert forall|t: int|
                    0 <= t < self.side@.len() implies (#[trigger] self.side@[t]).anchor + 1
                    < self.checkpoints@.len() by {
                    let ot = if t < i { t } else { t + 1 };
                    assert(self.side@[t] == pre[ot]);
                }
            }
        }
    }

    /// Replace side-checkpoint `i`'s point with a fresh unused pool point,
    /// keeping its anchor.
    pub fn reroll_side_checkpoint_point(&mut self, pool: &Vec<Point>, rng: &mut RaceRng, i: usize)
        -> (r: Result<(), TweakError>)
        requires
            i < old(self).side@.len(),
            old(self).wf(),
        ensures
            r is Err <==> pool_exhausted(pool@, *old(self)),
            r is Err ==> *final(self) == *old(self),
            r is Ok ==> {
                &&& final(self).checkpoints == old(self).checkpoints
                &&& final(self).side@.len() == old(self).side@.len()
                &&& forall|t: int|
                    0 <= t < old(self).side@.len() && t != i ==> #[trigger] final(self).side@[t]
                        == old(self).side@[t]
                &&& final(self).side@[i as int].anchor == old(self).side@[i as int].anchor
                &&& pool@.contains(final(self).side@[i as int].point)
                &&& !old(self).uses_point(final(self).side@[i as int].point)
                &&& final(self).wf()
                &&& (old(self).anchors_ok() ==> final(self).anchors_ok())
            },
    {
        let p = match random_unused_point(pool, self, rng) {
            Ok(p) => p,
            Err(e) => { return Err(e) },
        };
        let a = self.side[i].anchor;
        self.side.set(i, SideCheckpoint { anchor: a, point: p });
        proof {
            lemma_fresh_point_side(*old(self), *self, i as int, p);
        }
        Ok(())
    }

    /// Replace both the anchor (random segment) and the point (fresh
    /// unused pool point) of side-checkpoint `i`, then re-sort the list by
    /// anchor index.
    pub fn reroll_side_checkpoint(&mut self, pool: &Vec<Point>, rng: &mut RaceRng, i: usize) -> (r:
        Result<(), TweakError>)
        requires
            i < old(self).side@.len(),
            old(self).checkpoints@.len() >= 2,
            old(self).wf(),
        ensures
            r is Err <==> pool_exhausted(pool@, *old(self)),
            r is Err ==> *final(self) == *old(self),
            r is Ok ==> {
                &&& final(self).checkpoints == old(self).checkpoints
                &&& final(self).side@.len() == old(self).side@.len()
                &&& exists|sc: SideCheckpoint|
                    {
                        &&& sc.anchor + 1 < old(self).checkpoints@.len()
                        &&& pool@.contains(sc.point)
                        &&& !old(self).uses_point(sc.point)
                        &&& final(self).side@.to_multiset() == old(self).side@.to_multiset().remove(
                            old(self).side@[i as int],
                        ).insert(sc)
                    }
                &&& final(self).wf()
                &&& (old(self).anchors_ok() ==> final(self).anchors_ok())
            },
    {
        let p = match random_unused_point(pool, self, rng) {
            Ok(p) => p,
            Err(e) => { return Err(e) },
        };
        let a = rng.gen_index(self.checkpoints.len() - 1);
        let sc = SideCheckpoint { anchor: a, point: p };
        self.side.set(i, sc);
        proof {
            lemma_fresh_point_side(*old(self), *self, i as int, p);
        }
        let ghost mid = self.side@;
        sort_side_checkpoints(&mut self.side);
        proof {
            lemma_side_perm_preserves(
                self.checkpoints@,
                mid,
                self.side@,
                self.checkpoints@.len() as int,
            );
            if old(self).anchors_ok() {
                assert(anchors_fit(mid, self.checkpoints@.len() as int));
            }
            assert(mid.to_multiset() == old(self).side@.to_multiset().remove(
                old(self).side@[i as int],
            ).insert(sc)) by {
                assert(old(self).side@.contains(old(self).side@[i as int]));
                assert(mid == old(self).side@.update(i as int, sc));
                assert(mid.to_multiset() =~= old(self).side@.to_multiset().remove(
                    old(self).side@[i as int],
                ).insert(sc));
            }
        }
        Ok(())
    }

    /// Append a side-checkpoint anchored at checkpoint `anchor` with a
    /// fresh unused pool point, then re-sort the list by anchor index. The
    /// side-checkpoint count grows by exactly one.
    pub fn add_side_checkpoint_at(&mut self, pool: &Vec<Point>, rng: &mut RaceRng, anchor: usize)
        -> (r: Result<(), TweakError>)
        requires
            anchor + 1 < old(self).checkpoints@.len(),
            old(self).wf(),
        ensures
            r is Err <==> pool_exhausted(pool@, *old(self)),
            r is Err ==> *final(self) == *old(self),
            r is Ok ==> {
                &&& final(self).checkpoints == old(self).checkpoints
                &&& final(self).side@.len() == old(self).side@.len() + 1
                &&& exists|p: Point|
                    {
                        &&& pool@.contains(p)
                        &&& !old(self).uses_point(p)
                        &&& final(self).side@.to_multiset() == old(self).side@.to_multiset().insert(
                            SideCheckpoint { anchor, point: p },
                        )
                    }
                &&& final(self).wf()
                &&& (old(self).anchors_ok() ==> final(self).anchors_ok())
            },
    {
        let p = match random_unused_point(pool, self, rng) {
            Ok(p) => p,
            Err(e) => { return Err(e) },
        };
        let sc = SideCheckpoint { anchor, point: p };
        self.side.push(sc);
        proof {
            let pre = old(self).side@;
            let mid = self.side@;
            assert forall|a: int, b: int|
                0 <= a < b < mid.len() implies (#[trigger] mid[a]).point != (
            #[trigger] mid[b]).point by {
                if b == pre.len() {
                    assert(mid[a] == pre[a]);
                    assert(old(self).side_points()[a] == pre[a].point);
                } else {
                    assert(mid[a] == pre[a]);
                    assert(mid[b] == pre[b]);
                }
            }
            assert forall|a: int, j: int|
                0 <= a < self.checkpoints@.len() && 0 <= j < mid.len() implies (
            #[trigger] self.checkpoints@[a]).point != (#[trigger] mid[j]).point by {
                if j == pre.len() {
                    assert(old(self).cp_points()[a] == self.checkpoints@[a].point);
                } else {
                    assert(mid[j] == pre[j]);
                }
            }
        }
        let ghost mid = self.side@;
        sort_side_checkpoints(&mut self.side);
        proof {
            lemma_side_perm_preserves(
                self.checkpoints@,
                mid,
                self.side@,
                self.checkpoints@.len() as int,
            );
            if old(self).anchors_ok() {
                assert(anchors_fit(mid, self.checkpoints@.len() as int));
            }
            assert(mid.to_multiset() == old(self).side@.to_multiset().insert(sc));
        }
        Ok(())
    }
}

/// Updating checkpoint `i` to a point no old course element used keeps all
/// locations pairwise distinct.
proof fn lemma_fresh_point_checkpoint(pre: Race, post: Race, i: int, p: Point)
    requires
        pre.wf(),
        0 <= i < pre.checkpoints@.len(),
        post.side == pre.side,
        post.checkpoints@.len() == pre.checkpoints@.len(),
        forall|t: int|
            0 <= t < pre.checkpoints@.len() && t != i ==> #[trigger] post.checkpoints@[t]
                == pre.checkpoints@[t],
        post.checkpoints@[i].point == p,
        !pre.uses_point(p),
    ensures
        post.wf(),
{
    assert forall|a: int, b: int|
        0 <= a < b < post.checkpoints@.len() implies (#[trigger] post.checkpoints@[a]).point != (
    #[trigger] post.checkpoints@[b]).point by {
        if a == i {
            assert(pre.cp_points()[b] == pre.checkpoints@[b].point);
        } else if b == i {
            assert(pre.cp_points()[a] == pre.checkpoints@[a].point);
        }
    }
    assert forall|a: int, j: int|
        0 <= a < post.checkpoints@.len() && 0 <= j < post.side@.len() implies (
    #[trigger] post.checkpoints@[a]).point != (#[trigger] post.side@[j]).point by {
        assert(post.side@[j] == pre.side@[j]);
        if a == i {
            assert(pre.side_points()[j] == pre.side@[j].point);
        }
    }
}

/// Updating side-checkpoint `i` to a point no old course element used
/// keeps all locations pairwise distinct; if its anchor is unchanged the
/// list also stays sorted.
proof fn lemma_fresh_point_side(pre: Race, post: Race, i: int, p: Point)
    requires
        pre.wf(),
        0 <= i < pre.side@.len(),
        post.checkpoints == pre.checkpoints,
        post.side@.len() == pre.side@.len(),
        forall|t: int|
            0 <= t < pre.side@.len() && t != i ==> #[trigger] post.side@[t] == pre.side@[t],
        post.side@[i].point == p,
        !pre.uses_point(p),
    ensures
        sides_distinct(post.side@),
        cp_side_distinct(post.checkpoints@, post.side@),
        post.side@[i].anchor == pre.side@[i].anchor ==> post.wf(),
{
    assert forall|a: int, b: int|
        0 <= a < b < post.side@.len() implies (#[trigger] post.side@[a]).point != (
    #[trigger] post.side@[b]).point by {
        if a == i {
            assert(pre.side_points()[b] == pre.side@[b].point);
        } else if b == i {
            assert(pre.side_points()[a] == pre.side@[a].point);
        }
    }
    assert forall|a: int, j: int|
        0 <= a < post.checkpoints@.len() && 0 <= j < post.side@.len() implies (
    #[trigger] post.checkpoints@[a]).point != (#[trigger] post.side@[j]).point by {
        if j == i {
            assert(pre.cp_points()[a] == pre.checkpoints@[a].point);
        }
    }
    if post.side@[i].anchor == pre.side@[i].anchor {
        assert forall|a: int, b: int|
            0 <= a < b < post.side@.len() implies (#[trigger] post.side@[a]).anchor <= (
        #[trigger] post.side@[b]).anchor by {
            assert(post.side@[a].anchor == pre.side@[a].anchor);
            assert(post.side@[b].anchor == pre.side@[b].anchor);
        }
    }
}

} // verus!
