//! Race generation: shuffle the pool, take the first points as checkpoints
//! and the next ones as side-checkpoint locations, assign shuffled class
//! labels and random segment anchors, and sort the side-checkpoints.

use vstd::prelude::*;
use vstd::multiset::Multiset;
use crate::geom::Point;
use crate::race::{
    lemma_multiset_eq_contains, lemma_multiset_eq_no_duplicates, side_sorted,
    sort_side_checkpoints, Checkpoint, Race, SideCheckpoint,
};
use crate::rng::RaceRng;

verus! {

broadcast use {
    vstd::seq_lib::group_to_multiset_ensures,
    vstd::multiset::group_multiset_axioms,
};

/// Parameters for generating a race: desired main-checkpoint count, desired
/// side-checkpoint count, and the class labels to distribute.
pub struct RaceGenParams {
    pub length: usize,
    pub n_side: usize,
    pub classes: Vec<String>,
}

impl RaceGenParams {
    /// Generation succeeds exactly on these parameters: at least two
    /// checkpoints, enough pool points for every course element, and a
    /// class label available for every checkpoint slot.
    pub open spec fn valid_for(self, pool: Seq<Point>) -> bool {
        &&& self.length >= 2
        &&& self.length + self.n_side <= pool.len()
        &&& self.classes@.len() >= self.length
    }
}

impl Default for RaceGenParams {
    /// Fresh parameters: zero counts and ten empty class label slots,
    /// matching the ten-step length slider.
    fn default() -> (r: Self)
        ensures
            r.length == 0,
            r.n_side == 0,
            r.classes@.len() == 10,
            forall|i: int| 0 <= i < 10 ==> #[trigger] r.classes@[i]@ == Seq::<char>::empty(),
    {
        let mut classes: Vec<String> = Vec::new();
        let mut k: usize = 0;
        while k < 10
            invariant
                k <= 10,
                classes@.len() == k,
                forall|i: int| 0 <= i < k ==> #[trigger] classes@[i]@ == Seq::<char>::empty(),
            decreases 10 - k,
        {
            classes.push(String::new());
            k = k + 1;
        }
        RaceGenParams { length: 0, n_side: 0, classes }
    }
}

/// Rejected generation parameters.
#[derive(Clone, Copy, PartialEq, Eq, Structural, Debug)]
pub enum GenError {
    InvalidParameters,
}

/// What a freshly generated race guarantees, relative to the pool and the
/// parameters it was generated from.
pub open spec fn generated_from(race: Race, pool: Seq<Point>, params: RaceGenParams) -> bool {
    &&& race.checkpoints@.len() == params.length
    &&& race.side@.len() == params.n_side
    &&& forall|i: int|
        0 <= i < race.checkpoints@.len() ==> pool.contains(
            (#[trigger] race.checkpoints@[i]).point,
        )
    &&& forall|i: int| 0 <= i < race.side@.len() ==> pool.contains((#[trigger] race.side@[i]).point)
    &&& race.label_values().to_multiset() == params.classes@.take(
        params.length as int,
    ).to_multiset()
    &&& side_sorted(race.side@)
    &&& race.anchors_ok()
    &&& (pool.no_duplicates() ==> race.points_distinct())
}

/// Uniformly permute a vector in place, drawing indices from the session's
/// random source. The result holds exactly the original elements.
pub fn shuffle<T>(v: &mut Vec<T>, rng: &mut RaceRng)
    ensures
        final(v)@.len() == old(v)@.len(),
        final(v)@.to_multiset() == old(v)@.to_multiset(),
{
    let ghost orig = v@;
    let mut out: Vec<T> = Vec::new();
    while v.len() > 0
        invariant
            out@.len() + v@.len() == orig.len(),
            out@.to_multiset().add(v@.to_multiset()) == orig.to_multiset(),
        decreases v@.len(),
    {
        let i = rng.gen_index(v.len());
        let ghost s = v@;
        let ghost outs = out@;
        let x = v.remove(i);
        out.push(x);
        proof {
            assert(s.contains(s[i as int]));
            assert(s.to_multiset().count(s[i as int]) > 0);
            assert(out@.to_multiset().add(v@.to_multiset()) =~= outs.to_multiset().add(
                s.to_multiset(),
            ));
        }
    }
    proof {
        assert(v@.to_multiset() =~= Multiset::<T>::empty());
        assert(out@.to_multiset().add(v@.to_multiset()) =~= out@.to_multiset());
    }
    *v = out;
}

/// Generate a race from the pool: a uniformly shuffled pool supplies the
/// checkpoint points and then the side-checkpoint points; class labels are
/// truncated to the race length and independently shuffled; each
/// side-checkpoint gets a random segment anchor; side-checkpoints come out
/// sorted by anchor.
pub fn generate(pool: &Vec<Point>, params: &RaceGenParams, rng: &mut RaceRng) -> (r: Result<
    Race,
    GenError,
>)
    ensures
        r is Err <==> !params.valid_for(pool@),
        r matches Ok(race) ==> generated_from(race, pool@, *params),
{
    if !(params.length >= 2 && params.length <= pool.len() && params.n_side <= pool.len()
        - params.length && params.classes.len() >= params.length) {
        return Err(GenError::InvalidParameters);
    }
    let length = params.length;
    let n_side = params.n_side;

    // A shuffled copy of the pool.
    let mut pts: Vec<Point> = Vec::new();
    let mut k: usize = 0;
    while k < pool.len()
        invariant
            k <= pool@.len(),
            pts@ == pool@.take(k as int),
        decreases pool@.len() - k,
    {
        pts.push(pool[k]);
        proof {
            assert(pool@.take(k + 1 as int) =~= pool@.take(k as int).push(pool@[k as int]));
        }
        k = k + 1;
    }
    proof {
        assert(pool@.take(pool@.len() as int) =~= pool@);
    }
    shuffle(&mut pts, rng);

    // The class labels for the race, truncated then shuffled.
    let mut labels: Vec<String> = Vec::new();
    let mut k: usize = 0;
    while k < length
        invariant
            k <= length,
            length <= params.classes@.len(),
            labels@.len() == k,
            forall|t: int| 0 <= t < k ==> #[trigger] labels@[t] == params.classes@[t],
        decreases length - k,
    {
        let lab = params.classes[k].clone();
        labels.push(lab);
        k = k + 1;
    }
    proof {
        assert(labels@ =~= params.classes@.take(length as int));
    }
    shuffle(&mut labels, rng);

    // Zip shuffled points with shuffled labels.
    let mut cps: Vec<Checkpoint> = Vec::new();
    let mut k: usize = 0;
    while k < length
        invariant
            k <= length,
            length <= pts@.len(),
            length <= labels@.len(),
            cps@.len() == k,
            forall|t: int|
                0 <= t < k ==> (#[trigger] cps@[t]).point == pts@[t] && cps@[t].label
                    == labels@[t],
        decreases length - k,
    {
        let lab = labels[k].clone();
        cps.push(Checkpoint { point: pts[k], label: lab });
        k = k + 1;
    }

    // Side-checkpoint locations with random segment anchors.
    let mut sides: Vec<SideCheckpoint> = Vec::new();
    let pts_n = pts.len();
    let mut k: usize = 0;
    while k < n_side
        invariant
            k <= n_side,
            length >= 2,
            length + n_side <= pts@.len(),
            pts@.len() == pts_n,
            sides@.len() == k,
            forall|t: int|
                0 <= t < k ==> (#[trigger] sides@[t]).point == pts@[length + t] && sides@[t].anchor
                    + 1 < length,
        decreases n_side - k,
    {
        let a = rng.gen_index(length - 1);
        sides.push(SideCheckpoint { anchor: a, point: pts[length + k] });
        k = k + 1;
    }
    let ghost presort = sides@;
    sort_side_checkpoints(&mut sides);

    let race = Race { checkpoints: cps, side: sides };
    proof {
        lemma_generate_post(race, pool@, *params, pts@, labels@, presort);
    }
    Ok(race)
}

/// The generated structure satisfies `generated_from`: membership facts
/// survive the shuffles and the side-checkpoint sort, and distinctness of
/// the pool carries over to the course elements.
proof fn lemma_generate_post(
    race: Race,
    pool: Seq<Point>,
    params: RaceGenParams,
    pts: Seq<Point>,
    labels: Seq<String>,
    presort: Seq<SideCheckpoint>,
)
    requires
        params.length >= 2,
        params.length + params.n_side <= pool.len(),
        params.classes@.len() >= params.length,
        pts.len() == pool.len(),
        pts.to_multiset() == pool.to_multiset(),
        labels.to_multiset() == params.classes@.take(params.length as int).to_multiset(),
        labels.len() == params.length,
        race.checkpoints@.len() == params.length,
        forall|t: int|
            0 <= t < params.length ==> (#[trigger] race.checkpoints@[t]).point == pts[t]
                && race.checkpoints@[t].label == labels[t],
        presort.len() == params.n_side,
        forall|t: int|
            0 <= t < params.n_side ==> (#[trigger] presort[t]).point == pts[params.length + t]
                && presort[t].anchor + 1 < params.length,
        race.side@.len() == presort.len(),
        race.side@.to_multiset() == presort.to_multiset(),
        side_sorted(race.side@),
    ensures
        generated_from(race, pool, params),
{
    let cp = race.checkpoints@;
    let sd = race.side@;
    let l = params.length as int;
    let s = params.n_side as int;
    lemma_multiset_eq_contains(pts, pool);
    lemma_multiset_eq_contains(race.side@, presort);

    // Checkpoint points come from the pool.
    assert forall|i: int| 0 <= i < cp.len() implies pool.contains((#[trigger] cp[i]).point) by {
        assert(pts.contains(pts[i]));
    }

    // Side-checkpoint points come from the pool, and anchors fit.
    assert forall|i: int| 0 <= i < sd.len() implies pool.contains((#[trigger] sd[i]).point)
        && sd[i].anchor + 1 < cp.len() by {
        assert(presort.contains(sd[i]));
        let t = choose|t: int| 0 <= t < presort.len() && presort[t] == sd[i];
        assert(pts.contains(pts[l + t]));
    }

    // Labels: positional copy of the shuffled labels.
    assert(race.label_values() =~= labels);

    // Distinct pool points give pairwise-distinct course points.
    if pool.no_duplicates() {
        lemma_multiset_eq_no_duplicates(pool, pts);
        assert forall|i: int, j: int| 0 <= i < j < cp.len() implies (#[trigger] cp[i]).point != (
        #[trigger] cp[j]).point by {
            assert(pts[i] != pts[j]);
        }
        assert forall|i: int, j: int|
            0 <= i < j < presort.len() implies (#[trigger] presort[i]).point != (
        #[trigger] presort[j]).point by {
            assert(pts[l + i] != pts[l + j]);
        }
        assert(presort.no_duplicates());
        lemma_multiset_eq_no_duplicates(presort, sd);
        assert forall|i: int, j: int| 0 <= i < j < sd.len() implies (#[trigger] sd[i]).point != (
        #[trigger] sd[j]).point by {
            assert(presort.contains(sd[i]));
            assert(presort.contains(sd[j]));
            let t1 = choose|t: int| 0 <= t < presort.len() && presort[t] == sd[i];
            let t2 = choose|t: int| 0 <= t < presort.len() && presort[t] == sd[j];
            assert(sd[i] != sd[j]);
            assert(t1 != t2);
            assert(pts[l + t1] != pts[l + t2]);
        }
        assert forall|i: int, j: int|
            0 <= i < cp.len() && 0 <= j < sd.len() implies (#[trigger] cp[i]).point != (
        #[trigger] sd[j]).point by {
            assert(presort.contains(sd[j]));
            let t = choose|t: int| 0 <= t < presort.len() && presort[t] == sd[j];
            assert(pts[i] != pts[l + t]);
        }
    }
}

} // verus!
