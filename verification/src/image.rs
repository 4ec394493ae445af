//! Export image helper: the off-screen render target hands its pixel rows
//! back bottom-up; reversing them yields a conventional top-left-origin
//! buffer fit for file export or the clipboard.

use vstd::prelude::*;
use vstd::arithmetic::div_mod::{lemma_fundamental_div_mod, lemma_fundamental_div_mod_converse};

verus! {

/// One RGBA pixel.
#[derive(Clone, Copy, PartialEq, Eq, Structural, Debug)]
pub struct Rgba {
    pub r: u8,
    pub g: u8,
    pub b: u8,
    pub a: u8,
}

/// Where pixel `idx` of the flipped image comes from in the source: the
/// same column, in the row mirrored vertically.
pub open spec fn src_index(total: int, width: int, idx: int) -> int {
    (total / width - 1 - idx / width) * width + idx % width
}

/// The image with its pixel rows in reverse order.
pub open spec fn flip_spec(s: Seq<Rgba>, width: int) -> Seq<Rgba> {
    Seq::new(s.len(), |idx: int| s[src_index(s.len() as int, width, idx)])
}

/// Reverse the rows of a `width`-wide pixel image.
pub fn flip_rows(pixels: &Vec<Rgba>, width: usize) -> (r: Vec<Rgba>)
    requires
        width > 0,
        pixels@.len() as int % (width as int) == 0,
    ensures
        r@ == flip_spec(pixels@, width as int),
{
    let total = pixels.len();
    let h = total / width;
    proof {
        lemma_fundamental_div_mod(total as int, width as int);
        assert((h * width) as int == (width * h) as int) by (nonlinear_arith);
    }
    let mut out: Vec<Rgba> = Vec::new();
    let mut row: usize = 0;
    while row < h
        invariant
            row <= h,
            total == pixels@.len(),
            width > 0,
            h == total as int / width as int,
            h * width == total,
            out@.len() == row * width,
            forall|idx: int|
                0 <= idx < out@.len() ==> #[trigger] out@[idx] == pixels@[src_index(
                    total as int,
                    width as int,
                    idx,
                )],
        decreases h - row,
    {
        let src = h - 1 - row;
        let mut col: usize = 0;
        while col < width
            invariant
                col <= width,
                row < h,
                src == h - 1 - row,
                total == pixels@.len(),
                width > 0,
                h == total as int / width as int,
                h * width == total,
                out@.len() == row * width + col,
                forall|idx: int|
                    0 <= idx < out@.len() ==> #[trigger] out@[idx] == pixels@[src_index(
                        total as int,
                        width as int,
                        idx,
                    )],
            decreases width - col,
        {
            proof {
                assert(0 <= src * width + col < total) by (nonlinear_arith)
                    requires
                        0 <= src < h,
                        0 <= col < width,
                        h * width == total,
                {}
                assert(0 <= row * width + col < total) by (nonlinear_arith)
                    requires
                        0 <= row < h,
                        0 <= col < width,
                        h * width == total,
                {}
            }
            let x = pixels[src * width + col];
            out.push(x);
            proof {
                let idx = row as int * width as int + col as int;
                lemma_fundamental_div_mod_converse(idx, width as int, row as int, col as int);
                assert(src_index(total as int, width as int, idx) == src as int * width as int
                    + col as int);
                assert(out@[idx] == pixels@[src_index(total as int, width as int, idx)]);
            }
            col = col + 1;
        }
        proof {
            assert(row * width + width == (row + 1) * width) by (nonlinear_arith);
        }
        row = row + 1;
    }
    proof {
        assert(out@ =~= flip_spec(pixels@, width as int));
    }
    out
}

} // verus!
