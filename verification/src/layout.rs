//! Drawing layout: turns a race into the ordered list of drawing
//! primitives the original map overlay consists of, in map-pixel space.
//! The rendering glue scales every coordinate by its display scale factor
//! (window height over map height live, one for export) and looks label
//! text up by the indices carried in the commands.

use vstd::prelude::*;
use crate::geom::Point;
use crate::race::Race;

verus! {

/// One drawing primitive, in map-pixel coordinates.
#[derive(Clone, Copy, PartialEq, Eq, Structural, Debug)]
pub enum DrawCmd {
    /// Route segment between two consecutive checkpoints.
    RouteLine { a: Point, b: Point },
    /// Ring marker at checkpoint `index`.
    MainRing { center: Point },
    /// Displayed number (`index + 1`) and class label of checkpoint
    /// `index`, anchored beside its ring.
    MainText { at: Point, index: usize },
    /// Ring marker at a side-checkpoint.
    SideRing { center: Point },
    /// Connector from a side-checkpoint towards its segment (or towards a
    /// neighbouring side-checkpoint sharing the segment).
    SideLine { a: Point, b: Point },
    /// Displayed number (`index + 1`) of side-checkpoint `index`.
    SideText { at: Point, index: usize },
}

/// Commands for checkpoint `i`: the route line from its predecessor
/// (skipped for the first checkpoint), its ring, and its two text labels.
pub open spec fn cp_cmds(race: Race, i: int) -> Seq<DrawCmd> {
    let p = race.checkpoints@[i].point;
    let tail = seq![
        DrawCmd::MainRing { center: p },
        DrawCmd::MainText { at: p, index: i as usize },
    ];
    if i > 0 {
        seq![DrawCmd::RouteLine { a: p, b: race.checkpoints@[i - 1].point }] + tail
    } else {
        tail
    }
}

/// Where side-checkpoint `i`'s line towards the start of its segment ends:
/// at its anchor checkpoint, unless the preceding side-checkpoint shares
/// the anchor — then no start line is drawn, avoiding a duplicate segment.
pub open spec fn side_start(race: Race, i: int) -> Option<Point> {
    if i > 0 && race.side@[i - 1].anchor == race.side@[i].anchor {
        None
    } else {
        Some(race.checkpoints@[race.side@[i].anchor as int].point)
    }
}

/// Where side-checkpoint `i`'s line towards the end of its segment ends:
/// at the checkpoint after its anchor, unless the following side-checkpoint
/// shares the anchor — then the line chains to that one's point instead.
pub open spec fn side_end(race: Race, i: int) -> Point {
    if i + 1 < race.side@.len() && race.side@[i + 1].anchor == race.side@[i].anchor {
        race.side@[i + 1].point
    } else {
        race.checkpoints@[race.side@[i].anchor + 1].point
    }
}

/// Commands for side-checkpoint `i`: its ring, its start line if one is
/// drawn, its end line, and its number.
pub open spec fn side_cmds(race: Race, i: int) -> Seq<DrawCmd> {
    let p = race.side@[i].point;
    let start = match side_start(race, i) {
        Some(sp) => seq![DrawCmd::SideLine { a: p, b: sp }],
        None => Seq::<DrawCmd>::empty(),
    };
    seq![DrawCmd::SideRing { center: p }] + start + seq![
        DrawCmd::SideLine { a: p, b: side_end(race, i) },
        DrawCmd::SideText { at: p, index: i as usize },
    ]
}

pub open spec fn cp_cmds_upto(race: Race, n: int) -> Seq<DrawCmd>
    decreases n,
{
    if n <= 0 {
        Seq::empty()
    } else {
        cp_cmds_upto(race, n - 1) + cp_cmds(race, n - 1)
    }
}

pub open spec fn side_cmds_upto(race: Race, n: int) -> Seq<DrawCmd>
    decreases n,
{
    if n <= 0 {
        Seq::empty()
    } else {
        side_cmds_upto(race, n - 1) + side_cmds(race, n - 1)
    }
}

/// The full overlay: all checkpoint commands in traversal order, then all
/// side-checkpoint commands in list order.
pub open spec fn layout_spec(race: Race) -> Seq<DrawCmd> {
    cp_cmds_upto(race, race.checkpoints@.len() as int) + side_cmds_upto(
        race,
        race.side@.len() as int,
    )
}

/// Compute the overlay drawing commands for a race.
pub fn layout(race: &Race) -> (r: Vec<DrawCmd>)
    requires
        race.anchors_ok(),
    ensures
        r@ == layout_spec(*race),
{
    let mut out: Vec<DrawCmd> = Vec::new();
    let n = race.checkpoints.len();
    let mut i: usize = 0;
    while i < n
        invariant
            i <= n,
            n == race.checkpoints@.len(),
            out@ == cp_cmds_upto(*race, i as int),
        decreases n - i,
    {
        let ghost prev = out@;
        let p = race.checkpoints[i].point;
        if i > 0 {
            out.push(DrawCmd::RouteLine { a: p, b: race.checkpoints[i - 1].point });
        }
        out.push(DrawCmd::MainRing { center: p });
        out.push(DrawCmd::MainText { at: p, index: i });
        proof {
            assert(out@ =~= prev + cp_cmds(*race, i as int));
        }
        i = i + 1;
    }
    let m = race.side.len();
    let mut i: usize = 0;
    while i < m
        invariant
            i <= m,
            m == race.side@.len(),
            n == race.checkpoints@.len(),
            race.anchors_ok(),
            out@ == cp_cmds_upto(*race, n as int) + side_cmds_upto(*race, i as int),
        decreases m - i,
    {
        let ghost prev = out@;
        let sc = race.side[i];
        let p = sc.point;
        out.push(DrawCmd::SideRing { center: p });
        let draw_start = if i == 0 {
            true
        } else {
            race.side[i - 1].anchor != sc.anchor
        };
        if draw_start {
            out.push(DrawCmd::SideLine { a: p, b: race.checkpoints[sc.anchor].point });
        }
        let end_p = if i + 1 < m && race.side[i + 1].anchor == sc.anchor {
            race.side[i + 1].point
        } else {
            race.checkpoints[sc.anchor + 1].point
        };
        out.push(DrawCmd::SideLine { a: p, b: end_p });
        out.push(DrawCmd::SideText { at: p, index: i });
        proof {
            assert(out@ =~= prev + side_cmds(*race, i as int));
            assert(out@ =~= cp_cmds_upto(*race, n as int) + side_cmds_upto(*race, i + 1));
        }
        i = i + 1;
    }
    out
}

} // verus!
