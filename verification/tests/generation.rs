use racegen::gen::{generate, GenError, RaceGenParams};
use racegen::geom::Point;
use racegen::pool::default_points;
use racegen::rng::RaceRng;

fn labels(classes: &[&str]) -> Vec<String> {
    classes.iter().map(|s| s.to_string()).collect()
}

#[test]
fn five_checkpoints_from_default_pool() {
    let pool = default_points();
    assert_eq!(pool.len(), 36);
    let params = RaceGenParams {
        length: 5,
        n_side: 0,
        classes: labels(&["A", "B", "C", "D", "E"]),
    };
    let mut rng = RaceRng::seeded(7);
    let race = generate(&pool, &params, &mut rng).unwrap();

    assert_eq!(race.checkpoints.len(), 5);
    assert_eq!(race.side.len(), 0);
    // All points pairwise distinct and drawn from the pool.
    for i in 0..5 {
        assert!(pool.contains(&race.checkpoints[i].point));
        for j in 0..i {
            assert!(race.checkpoints[i].point != race.checkpoints[j].point);
        }
    }
    // Labels are some permutation of the five inputs.
    let mut got: Vec<String> = race.checkpoints.iter().map(|c| c.label.clone()).collect();
    got.sort();
    assert_eq!(got, labels(&["A", "B", "C", "D", "E"]));
}

#[test]
fn side_checkpoints_distinct_and_sorted() {
    let pool = default_points();
    let params = RaceGenParams {
        length: 4,
        n_side: 4,
        classes: labels(&["a", "b", "c", "d"]),
    };
    let mut rng = RaceRng::seeded(99);
    let race = generate(&pool, &params, &mut rng).unwrap();

    assert_eq!(race.checkpoints.len(), 4);
    assert_eq!(race.side.len(), 4);
    for i in 0..race.side.len() {
        let sc = &race.side[i];
        assert!(pool.contains(&sc.point));
        // Anchor leaves the segment's second endpoint in range.
        assert!(sc.anchor + 1 < race.checkpoints.len());
        // Distinct from every checkpoint and every other side-checkpoint.
        for c in race.checkpoints.iter() {
            assert!(c.point != sc.point);
        }
        for j in 0..i {
            assert!(race.side[j].point != sc.point);
            // Sorted non-decreasing by anchor.
            assert!(race.side[j].anchor <= sc.anchor);
        }
    }
}

#[test]
fn generation_rejects_short_race() {
    let pool = default_points();
    let params = RaceGenParams { length: 1, n_side: 0, classes: labels(&["x"]) };
    let mut rng = RaceRng::seeded(1);
    assert!(matches!(generate(&pool, &params, &mut rng), Err(GenError::InvalidParameters)));
}

#[test]
fn generation_rejects_oversized_request() {
    let pool = default_points();
    let params = RaceGenParams {
        length: 35,
        n_side: 2,
        classes: labels(&["x"; 35]),
    };
    let mut rng = RaceRng::seeded(1);
    assert!(matches!(generate(&pool, &params, &mut rng), Err(GenError::InvalidParameters)));
}

#[test]
fn generation_rejects_missing_labels() {
    let pool = default_points();
    let params = RaceGenParams { length: 3, n_side: 0, classes: labels(&["only", "two"]) };
    let mut rng = RaceRng::seeded(1);
    assert!(matches!(generate(&pool, &params, &mut rng), Err(GenError::InvalidParameters)));
}

#[test]
fn generation_from_tiny_pool_uses_whole_pool() {
    let pool = vec![Point { x: 1, y: 1 }, Point { x: 2, y: 2 }, Point { x: 3, y: 3 }];
    let params = RaceGenParams { length: 2, n_side: 1, classes: labels(&["p", "q"]) };
    let mut rng = RaceRng::seeded(5);
    let race = generate(&pool, &params, &mut rng).unwrap();
    assert_eq!(race.checkpoints.len(), 2);
    assert_eq!(race.side.len(), 1);
    // Only one possible anchor with two checkpoints.
    assert_eq!(race.side[0].anchor, 0);
    let mut used: Vec<Point> = race.checkpoints.iter().map(|c| c.point).collect();
    used.push(race.side[0].point);
    used.sort_by_key(|p| p.x);
    assert_eq!(used, pool);
}

#[test]
fn default_params_match_panel() {
    let g = RaceGenParams::default();
    assert_eq!(g.length, 0);
    assert_eq!(g.n_side, 0);
    assert_eq!(g.classes.len(), 10);
    assert!(g.classes.iter().all(|c| c.is_empty()));
}
