use racegen::geom::Point;
use racegen::image::{flip_rows, Rgba};
use racegen::layout::{layout, DrawCmd};
use racegen::race::{Checkpoint, Race, SideCheckpoint};

fn p(x: i64, y: i64) -> Point {
    Point { x, y }
}

fn cp(x: i64, y: i64, label: &str) -> Checkpoint {
    Checkpoint { point: p(x, y), label: label.to_string() }
}

#[test]
fn layout_of_plain_route() {
    let race = Race {
        checkpoints: vec![cp(1, 1, "a"), cp(2, 2, "b")],
        side: vec![],
    };
    let cmds = layout(&race);
    assert_eq!(
        cmds,
        vec![
            DrawCmd::MainRing { center: p(1, 1) },
            DrawCmd::MainText { at: p(1, 1), index: 0 },
            DrawCmd::RouteLine { a: p(2, 2), b: p(1, 1) },
            DrawCmd::MainRing { center: p(2, 2) },
            DrawCmd::MainText { at: p(2, 2), index: 1 },
        ]
    );
}

#[test]
fn layout_chains_side_checkpoints_sharing_a_segment() {
    let race = Race {
        checkpoints: vec![cp(0, 0, ""), cp(10, 0, ""), cp(20, 0, "")],
        side: vec![
            SideCheckpoint { anchor: 0, point: p(4, 5) },
            SideCheckpoint { anchor: 0, point: p(6, 5) },
            SideCheckpoint { anchor: 1, point: p(15, 5) },
        ],
    };
    let cmds = layout(&race);
    let side_part = &cmds[8..];
    assert_eq!(
        side_part,
        &[
            // First on segment 0: start line to checkpoint 0, end line
            // chained to the next side-checkpoint on the same segment.
            DrawCmd::SideRing { center: p(4, 5) },
            DrawCmd::SideLine { a: p(4, 5), b: p(0, 0) },
            DrawCmd::SideLine { a: p(4, 5), b: p(6, 5) },
            DrawCmd::SideText { at: p(4, 5), index: 0 },
            // Second on segment 0: no start line, end line to checkpoint 1.
            DrawCmd::SideRing { center: p(6, 5) },
            DrawCmd::SideLine { a: p(6, 5), b: p(10, 0) },
            DrawCmd::SideText { at: p(6, 5), index: 1 },
            // Only one on segment 1: both lines to its endpoints.
            DrawCmd::SideRing { center: p(15, 5) },
            DrawCmd::SideLine { a: p(15, 5), b: p(10, 0) },
            DrawCmd::SideLine { a: p(15, 5), b: p(20, 0) },
            DrawCmd::SideText { at: p(15, 5), index: 2 },
        ]
    );
}

fn px(v: u8) -> Rgba {
    Rgba { r: v, g: v, b: v, a: 255 }
}

#[test]
fn flip_reverses_row_order() {
    // A 2-wide, 3-tall image; rows given bottom-up come back top-down.
    let bottom_up = vec![px(1), px(2), px(3), px(4), px(5), px(6)];
    let flipped = flip_rows(&bottom_up, 2);
    assert_eq!(flipped, vec![px(5), px(6), px(3), px(4), px(1), px(2)]);
}

#[test]
fn flip_of_single_row_is_identity() {
    let row = vec![px(7), px(8), px(9)];
    assert_eq!(flip_rows(&row, 3), row);
}
