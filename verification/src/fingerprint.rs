//! Fingerprint extraction from a downsampled 16x16 RGBA grid.
//!
//! Each grid cell is reduced to its squared (R, G, B) channel values; the
//! fingerprint is the sequence of component-wise changes between consecutive
//! cells in raster order, one entry per cell whose color differs from the
//! cell just before it. The first cell only seeds the reference color and
//! never emits an entry, so a fingerprint holds at most 255 entries.

use vstd::prelude::*;

verus! {

/// Number of cells in the downsampled grid (16 columns by 16 rows).
pub const GRID_CELLS: usize = 256;

/// One fingerprint entry: the change in squared (R, G, B) channel values
/// between a grid cell and the cell just before it in raster order.
#[derive(Clone, Copy, Debug, PartialEq, Eq, Structural)]
pub struct ColorDelta {
    pub r: i32,
    pub g: i32,
    pub b: i32,
}

/// A squared 8-bit channel value lies in [0, 65025], so every fingerprint
/// entry lies in [-65025, 65025].
pub open spec fn delta_in_range(d: ColorDelta) -> bool {
    &&& -65025 <= d.r <= 65025
    &&& -65025 <= d.g <= 65025
    &&& -65025 <= d.b <= 65025
}

/// The square of a channel value.
pub open spec fn sq(x: u8) -> int {
    x * x
}

/// The squared (R, G, B) color of grid cell `i` in an RGBA byte buffer.
/// A cell beyond the end of the buffer counts as opaque black, whose squared
/// channels are all zero.
pub open spec fn cell_color(grid: Seq<u8>, i: int) -> (int, int, int) {
    if 0 <= i && 4 * i + 3 < grid.len() {
        (sq(grid[4 * i]), sq(grid[4 * i + 1]), sq(grid[4 * i + 2]))
    } else {
        (0, 0, 0)
    }
}

/// The fingerprint entry for a cell of color `c` whose predecessor has
/// color `p`.
pub open spec fn delta_of(c: (int, int, int), p: (int, int, int)) -> ColorDelta {
    ColorDelta { r: (c.0 - p.0) as i32, g: (c.1 - p.1) as i32, b: (c.2 - p.2) as i32 }
}

/// The fingerprint entries among the first `n` grid cells: for every cell
/// from 1 to `n - 1` whose color differs from its predecessor, the
/// component-wise change. Cell 0 never contributes an entry.
pub open spec fn fingerprint_upto(grid: Seq<u8>, n: int) -> Seq<ColorDelta>
    decreases n,
{
    if n <= 1 {
        Seq::empty()
    } else if cell_color(grid, n - 1) != cell_color(grid, n - 2) {
        fingerprint_upto(grid, n - 1).push(
            delta_of(cell_color(grid, n - 1), cell_color(grid, n - 2)),
        )
    } else {
        fingerprint_upto(grid, n - 1)
    }
}

/// The fingerprint of a full 256-cell grid.
pub open spec fn fingerprint_spec(grid: Seq<u8>) -> Seq<ColorDelta> {
    fingerprint_upto(grid, GRID_CELLS as int)
}

/// The squared channels of any cell lie in [0, 65025].
proof fn lemma_cell_color_in_range(grid: Seq<u8>, i: int)
    ensures
        0 <= cell_color(grid, i).0 <= 65025,
        0 <= cell_color(grid, i).1 <= 65025,
        0 <= cell_color(grid, i).2 <= 65025,
{
    assert forall|x: u8| 0 <= #[trigger] sq(x) <= 65025 by {
        assert(x * x <= 255 * 255) by (nonlinear_arith)
            requires
                0 <= x <= 255,
        ;
    }
}

/// The first `n` cells contribute at most `n - 1` fingerprint entries, and
/// every entry lies in the squared-channel delta range.
proof fn lemma_fingerprint_upto_shape(grid: Seq<u8>, n: int)
    ensures
        fingerprint_upto(grid, n).len() <= if n <= 1 {
            0int
        } else {
            n - 1
        },
        forall|k: int|
            0 <= k < fingerprint_upto(grid, n).len() ==> delta_in_range(
                #[trigger] fingerprint_upto(grid, n)[k],
            ),
    decreases n,
{
    if n > 1 {
        lemma_fingerprint_upto_shape(grid, n - 1);
        if cell_color(grid, n - 1) != cell_color(grid, n - 2) {
            lemma_cell_color_in_range(grid, n - 1);
            lemma_cell_color_in_range(grid, n - 2);
        }
    }
}

/// A fingerprint never has an entry for the first grid cell, so it holds at
/// most 255 entries for the 256 cells of the grid.
pub proof fn lemma_fingerprint_length_bounded(grid: Seq<u8>)
    ensures
        fingerprint_spec(grid).len() <= 255,
{
    lemma_fingerprint_upto_shape(grid, GRID_CELLS as int);
}

/// Every entry of a fingerprint lies in [-65025, 65025] per channel.
pub proof fn lemma_fingerprint_entries_in_range(grid: Seq<u8>)
    ensures
        forall|k: int|
            0 <= k < fingerprint_spec(grid).len() ==> delta_in_range(
                #[trigger] fingerprint_spec(grid)[k],
            ),
{
    lemma_fingerprint_upto_shape(grid, GRID_CELLS as int);
}

/// A grid whose cells all share one color has no color transitions: its
/// fingerprint is empty.
pub proof fn lemma_uniform_grid_empty_fingerprint(grid: Seq<u8>)
    requires
        forall|i: int|
            0 <= i < GRID_CELLS as int ==> #[trigger] cell_color(grid, i) == cell_color(grid, 0),
    ensures
        fingerprint_spec(grid) == Seq::<ColorDelta>::empty(),
{
    lemma_uniform_prefix_empty(grid, GRID_CELLS as int);
}

/// Helper for the uniform-grid law, by induction on the prefix length.
proof fn lemma_uniform_prefix_empty(grid: Seq<u8>, n: int)
    requires
        n <= GRID_CELLS as int,
        forall|i: int|
            0 <= i < GRID_CELLS as int ==> #[trigger] cell_color(grid, i) == cell_color(grid, 0),
    ensures
        fingerprint_upto(grid, n) == Seq::<ColorDelta>::empty(),
    decreases n,
{
    if n > 1 {
        lemma_uniform_prefix_empty(grid, n - 1);
    }
}

/// The squared color of grid cell `i`, as machine integers.
fn cell_color_exec(grid: &Vec<u8>, i: usize) -> (c: (i32, i32, i32))
    requires
        i < GRID_CELLS,
    ensures
        (c.0 as int, c.1 as int, c.2 as int) == cell_color(grid@, i as int),
{
    if grid.len() >= 4 && i < grid.len() / 4 {
        proof {
            assert(4 * (i as int) + 3 < grid@.len()) by (nonlinear_arith)
                requires
                    0 <= i,
                    i < grid@.len() / 4,
            ;
        }
        let r = grid[4 * i] as i32;
        let g = grid[4 * i + 1] as i32;
        let b = grid[4 * i + 2] as i32;
        proof {
            assert(r * r <= 255 * 255 && g * g <= 255 * 255 && b * b <= 255 * 255)
                by (nonlinear_arith)
                requires
                    0 <= r <= 255,
                    0 <= g <= 255,
                    0 <= b <= 255,
            ;
        }
        (r * r, g * g, b * b)
    } else {
        proof {
            assert(!(4 * (i as int) + 3 < grid@.len())) by (nonlinear_arith)
                requires
                    0 <= i,
                    !(grid@.len() >= 4 && i < grid@.len() / 4),
            ;
        }
        (0, 0, 0)
    }
}

/// Walk the 256 grid cells in raster order and collect the change in
/// squared channel values at every color transition, skipping the first
/// cell, which only seeds the reference color.
pub fn extract_fingerprint(grid: &Vec<u8>) -> (fp: Vec<ColorDelta>)
    ensures
        fp@ == fingerprint_spec(grid@),
        fp@.len() <= 255,
{
    let mut fp: Vec<ColorDelta> = Vec::new();
    let mut prev = cell_color_exec(grid, 0);
    let mut i: usize = 1;
    while i < GRID_CELLS
        invariant
            1 <= i <= GRID_CELLS,
            (prev.0 as int, prev.1 as int, prev.2 as int) == cell_color(grid@, i as int - 1),
            fp@ == fingerprint_upto(grid@, i as int),
        decreases GRID_CELLS - i,
    {
        let c = cell_color_exec(grid, i);
        proof {
            lemma_cell_color_in_range(grid@, i as int);
            lemma_cell_color_in_range(grid@, i as int - 1);
        }
        if c.0 != prev.0 || c.1 != prev.1 || c.2 != prev.2 {
            fp.push(ColorDelta { r: c.0 - prev.0, g: c.1 - prev.1, b: c.2 - prev.2 });
        }
        prev = c;
        i = i + 1;
    }
    proof {
        lemma_fingerprint_length_bounded(grid@);
    }
    fp
}

} // verus!
