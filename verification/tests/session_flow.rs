use racegen::geom::Point;
use racegen::pool::{default_points, find_point_near};
use racegen::rng::RaceRng;
use racegen::session::{EditorState, RaceMode, Session};

fn p(x: i64, y: i64) -> Point {
    Point { x, y }
}

fn working(session: &Session) -> &Vec<Point> {
    match &session.state {
        EditorState::Config(w) => w,
        _ => panic!("not in config state"),
    }
}

#[test]
fn config_click_adds_point_and_right_click_removes_it() {
    // At scale factor one, a click at map point (100, 100) adds exactly
    // Point { 100, 100 }; a right-click within 10 pixels removes exactly
    // that point and no other.
    let mut session = Session::new(vec![p(500, 500)]);
    session.open_config();
    assert_eq!(working(&session).len(), 1);

    session.config_add_point(p(100, 100));
    assert_eq!(working(&session), &vec![p(500, 500), p(100, 100)]);

    // Within 10px: distance from (105, 103) is sqrt(34) < 10.
    let removed = session.config_remove_near(p(105, 103), 10 * 10);
    assert_eq!(removed, Some(1));
    assert_eq!(working(&session), &vec![p(500, 500)]);

    // A right-click near nothing removes nothing.
    let removed = session.config_remove_near(p(100, 100), 10 * 10);
    assert_eq!(removed, None);
    assert_eq!(working(&session).len(), 1);
}

#[test]
fn clicks_on_the_panel_or_off_the_map_do_not_add() {
    // Screen 1600 wide, panel 300x400 anchored top right, map 1500 wide.
    assert!(Session::click_targets_map(100, 100, 1600, 300, 400, 1500));
    // Inside the panel rectangle.
    assert!(!Session::click_targets_map(1400, 100, 1600, 300, 400, 1500));
    // Below the panel but in its column: the panel no longer covers it.
    assert!(Session::click_targets_map(1400, 500, 1600, 300, 400, 1500));
    // Past the right edge of the map.
    assert!(!Session::click_targets_map(1550, 800, 1600, 300, 400, 1500));
}

#[test]
fn save_commits_working_copy_and_back_discards_it() {
    let mut session = Session::new(vec![p(1, 1)]);
    session.open_config();
    session.config_add_point(p(2, 2));
    session.config_save();
    assert_eq!(session.pool, vec![p(1, 1), p(2, 2)]);
    // Saving stays in Config; Back returns to Idle without more changes.
    session.config_add_point(p(3, 3));
    session.config_back();
    assert!(matches!(session.state, EditorState::Idle));
    assert_eq!(session.pool, vec![p(1, 1), p(2, 2)]);
}

#[test]
fn race_flow_generate_tweak_and_back() {
    let mut session = Session::new(default_points());
    session.open_race_gen();
    match &mut session.state {
        EditorState::Race(panel) => match &mut panel.mode {
            RaceMode::Gen(g) => {
                g.length = 3;
                g.n_side = 1;
            },
            RaceMode::Tweak => panic!("expected generation mode"),
        },
        _ => panic!("expected race state"),
    }
    let mut rng = RaceRng::seeded(42);
    session.generate_race(&mut rng).unwrap();
    let race = session.race.as_ref().unwrap();
    assert_eq!(race.checkpoints.len(), 3);
    assert_eq!(race.side.len(), 1);

    session.start_tweak();
    assert!(matches!(
        &session.state,
        EditorState::Race(panel) if matches!(panel.mode, RaceMode::Tweak)
    ));
    // Back from tweaking resets the parameters but keeps the race.
    session.tweak_back();
    match &session.state {
        EditorState::Race(panel) => match &panel.mode {
            RaceMode::Gen(g) => {
                assert_eq!(g.length, 0);
                assert_eq!(g.n_side, 0);
                assert_eq!(g.classes.len(), 10);
            },
            RaceMode::Tweak => panic!("expected generation mode"),
        },
        _ => panic!("expected race state"),
    }
    assert!(session.race.is_some());
}

#[test]
fn generate_race_rejects_invalid_panel_parameters() {
    let mut session = Session::new(default_points());
    session.open_race_gen();
    // Default length is zero, below the minimum of two.
    let mut rng = RaceRng::seeded(1);
    assert!(session.generate_race(&mut rng).is_err());
    assert!(session.race.is_none());
}

#[test]
fn toggle_edit_controls_only_in_race_state() {
    let mut session = Session::new(vec![]);
    session.toggle_edit_controls();
    assert!(matches!(session.state, EditorState::Idle));

    session.open_race_gen();
    session.toggle_edit_controls();
    match &session.state {
        EditorState::Race(panel) => assert!(panel.controls_collapsed),
        _ => panic!("expected race state"),
    }
    session.toggle_edit_controls();
    match &session.state {
        EditorState::Race(panel) => assert!(!panel.controls_collapsed),
        _ => panic!("expected race state"),
    }
}

#[test]
fn find_point_near_picks_first_match_in_iteration_order() {
    let points = vec![p(0, 0), p(4, 0), p(5, 0)];
    // Both later points are within radius 4 of (6, 0); the earlier wins.
    assert_eq!(find_point_near(&points, p(6, 0), 16), Some(1));
    // Strictly-within: a point at exactly the radius does not match.
    assert_eq!(find_point_near(&points, p(9, 0), 16), None);
}
