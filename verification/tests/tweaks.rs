use racegen::geom::Point;
use racegen::race::{sort_side_checkpoints, Checkpoint, Race, SideCheckpoint};
use racegen::rng::RaceRng;
use racegen::tweak::TweakError;

fn p(x: i64, y: i64) -> Point {
    Point { x, y }
}

fn cp(x: i64, y: i64, label: &str) -> Checkpoint {
    Checkpoint { point: p(x, y), label: label.to_string() }
}

fn five_cp_race() -> Race {
    Race {
        checkpoints: vec![
            cp(10, 10, "one"),
            cp(20, 20, "two"),
            cp(30, 30, "three"),
            cp(40, 40, "four"),
            cp(50, 50, "five"),
        ],
        side: vec![
            SideCheckpoint { anchor: 0, point: p(15, 15) },
            SideCheckpoint { anchor: 2, point: p(35, 35) },
        ],
    }
}

fn wide_pool() -> Vec<Point> {
    let mut pool = vec![
        p(10, 10),
        p(20, 20),
        p(30, 30),
        p(40, 40),
        p(50, 50),
        p(15, 15),
        p(35, 35),
    ];
    pool.push(p(99, 99));
    pool.push(p(98, 98));
    pool
}

#[test]
fn sorting_a_sorted_list_changes_nothing() {
    let mut v = vec![
        SideCheckpoint { anchor: 0, point: p(1, 1) },
        SideCheckpoint { anchor: 1, point: p(2, 2) },
        SideCheckpoint { anchor: 1, point: p(3, 3) },
        SideCheckpoint { anchor: 3, point: p(4, 4) },
    ];
    let before = v.clone();
    sort_side_checkpoints(&mut v);
    assert_eq!(v, before);
}

#[test]
fn sorting_orders_by_anchor() {
    let mut v = vec![
        SideCheckpoint { anchor: 3, point: p(1, 1) },
        SideCheckpoint { anchor: 0, point: p(2, 2) },
        SideCheckpoint { anchor: 2, point: p(3, 3) },
    ];
    sort_side_checkpoints(&mut v);
    assert_eq!(
        v,
        vec![
            SideCheckpoint { anchor: 0, point: p(2, 2) },
            SideCheckpoint { anchor: 2, point: p(3, 3) },
            SideCheckpoint { anchor: 3, point: p(1, 1) },
        ]
    );
}

#[test]
fn delete_checkpoint_shifts_later_ones() {
    // Deleting checkpoint 2 of five leaves former checkpoint 3 at index 2;
    // side-checkpoint anchors are left as they were (a documented gap).
    let mut race = five_cp_race();
    race.delete_checkpoint(2);
    assert_eq!(race.checkpoints.len(), 4);
    assert_eq!(race.checkpoints[2].label, "four");
    assert_eq!(race.checkpoints[2].point, p(40, 40));
    assert_eq!(race.side.len(), 2);
    assert_eq!(race.side[0].anchor, 0);
    assert_eq!(race.side[1].anchor, 2);
}

#[test]
fn reroll_checkpoint_changes_only_that_point() {
    let mut race = five_cp_race();
    let pool = wide_pool();
    let mut rng = RaceRng::seeded(3);
    race.reroll_checkpoint(&pool, &mut rng, 1).unwrap();

    // Only checkpoint 1's point changed; its label and the rest stayed.
    assert_eq!(race.checkpoints[1].label, "two");
    let new_point = race.checkpoints[1].point;
    assert!(new_point == p(99, 99) || new_point == p(98, 98));
    assert_eq!(race.checkpoints[0].point, p(10, 10));
    assert_eq!(race.checkpoints[2].point, p(30, 30));
    assert_eq!(race.checkpoints[3].point, p(40, 40));
    assert_eq!(race.checkpoints[4].point, p(50, 50));
    assert_eq!(race.side, five_cp_race().side);
}

#[test]
fn reroll_fails_on_exhausted_pool() {
    let mut race = five_cp_race();
    // Every pool point is already used by the race.
    let pool = vec![p(10, 10), p(30, 30), p(15, 15)];
    let mut rng = RaceRng::seeded(3);
    assert!(matches!(
        race.reroll_checkpoint(&pool, &mut rng, 0),
        Err(TweakError::ExhaustedPool)
    ));
    // The race is unchanged.
    assert_eq!(race.checkpoints[0].point, p(10, 10));
    assert_eq!(race.checkpoints.len(), 5);
}

#[test]
fn add_checkpoint_after_inserts_unused_point() {
    let mut race = five_cp_race();
    let pool = wide_pool();
    let mut rng = RaceRng::seeded(11);
    race.add_checkpoint_after(&pool, &mut rng, 0).unwrap();
    assert_eq!(race.checkpoints.len(), 6);
    assert_eq!(race.checkpoints[0].point, p(10, 10));
    let added = &race.checkpoints[1];
    assert_eq!(added.label, "");
    assert!(added.point == p(99, 99) || added.point == p(98, 98));
    assert_eq!(race.checkpoints[2].point, p(20, 20));
}

#[test]
fn delete_side_checkpoint_by_position() {
    let mut race = five_cp_race();
    race.delete_side_checkpoint(0);
    assert_eq!(race.side, vec![SideCheckpoint { anchor: 2, point: p(35, 35) }]);
    assert_eq!(race.checkpoints.len(), 5);
}

#[test]
fn reroll_side_point_keeps_anchor() {
    let mut race = five_cp_race();
    let pool = wide_pool();
    let mut rng = RaceRng::seeded(21);
    race.reroll_side_checkpoint_point(&pool, &mut rng, 1).unwrap();
    assert_eq!(race.side[1].anchor, 2);
    assert!(race.side[1].point == p(99, 99) || race.side[1].point == p(98, 98));
    assert_eq!(race.side[0], SideCheckpoint { anchor: 0, point: p(15, 15) });
}

#[test]
fn reroll_side_checkpoint_stays_sorted_and_in_range() {
    let mut race = five_cp_race();
    let pool = wide_pool();
    let mut rng = RaceRng::seeded(8);
    race.reroll_side_checkpoint(&pool, &mut rng, 0).unwrap();
    assert_eq!(race.side.len(), 2);
    for i in 0..race.side.len() {
        assert!(race.side[i].anchor + 1 < race.checkpoints.len());
        if i > 0 {
            assert!(race.side[i - 1].anchor <= race.side[i].anchor);
        }
    }
}

#[test]
fn add_side_checkpoint_grows_list_by_one_and_keeps_order() {
    let mut race = five_cp_race();
    let pool = wide_pool();
    let mut rng = RaceRng::seeded(13);
    race.add_side_checkpoint_at(&pool, &mut rng, 1).unwrap();
    assert_eq!(race.side.len(), 3);
    for i in 1..race.side.len() {
        assert!(race.side[i - 1].anchor <= race.side[i].anchor);
    }
    let added: Vec<&SideCheckpoint> = race.side.iter().filter(|s| s.anchor == 1).collect();
    assert_eq!(added.len(), 1);
    assert!(added[0].point == p(99, 99) || added[0].point == p(98, 98));
}
