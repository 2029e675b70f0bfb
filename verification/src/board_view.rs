//! What each cell of the playing board should display: the occupied cells,
//! the currently selected block hovering at the cursor, and the rows and
//! columns that would be cleared if the block were placed.

use vstd::prelude::*;

use crate::block_index::DisplayPointStatus;

verus! {

/// Whether every point of the block, shifted by the cursor, lies on the board.
pub open spec fn block_within(block: Seq<(i32, i32)>, cx: int, cy: int, w: int, h: int) -> bool {
    forall|k: int|
        0 <= k < block.len() ==> 0 <= #[trigger] block[k].0 + cx < w && 0 <= block[k].1 + cy < h
}

/// Whether some point of the block, shifted by the cursor, covers cell (x, y).
pub open spec fn covers(block: Seq<(i32, i32)>, cx: int, cy: int, x: int, y: int) -> bool {
    exists|k: int|
        0 <= k < block.len() && #[trigger] block[k].0 + cx == x && block[k].1 + cy == y
}

/// The board cell (x, y) with the hovering block overlaid on the occupied
/// cells, before any cleared line is shown.
pub open spec fn overlay_cell(
    occ: Seq<bool>,
    w: int,
    block: Seq<(i32, i32)>,
    cx: int,
    cy: int,
    x: int,
    y: int,
) -> DisplayPointStatus {
    if covers(block, cx, cy, x, y) {
        DisplayPointStatus::Hovered { has_conflict: occ[y * w + x] }
    } else if occ[y * w + x] {
        DisplayPointStatus::Occupied
    } else {
        DisplayPointStatus::Unoccupied
    }
}

/// Whether the hovering block overlaps an occupied cell anywhere.
pub open spec fn any_conflict(
    occ: Seq<bool>,
    w: int,
    block: Seq<(i32, i32)>,
    cx: int,
    cy: int,
) -> bool {
    exists|k: int|
        0 <= k < block.len() && #[trigger] occ[(block[k].1 + cy) * w + (block[k].0 + cx)]
}

/// Whether cell (x, y), with the block overlaid, counts towards a cleared
/// line: occupied, or hovered without conflict.
pub open spec fn filled_at(
    occ: Seq<bool>,
    w: int,
    block: Seq<(i32, i32)>,
    cx: int,
    cy: int,
    x: int,
    y: int,
) -> bool {
    overlay_cell(occ, w, block, cx, cy, x, y) is Occupied || overlay_cell(
        occ,
        w,
        block,
        cx,
        cy,
        x,
        y,
    ) == (DisplayPointStatus::Hovered { has_conflict: false })
}

/// Whether placing the block would clear row `y`.
pub open spec fn row_ready(
    occ: Seq<bool>,
    w: int,
    block: Seq<(i32, i32)>,
    cx: int,
    cy: int,
    y: int,
) -> bool {
    forall|x: int| 0 <= x < w ==> #[trigger] filled_at(occ, w, block, cx, cy, x, y)
}

/// Whether placing the block would clear column `x`.
pub open spec fn col_ready(
    occ: Seq<bool>,
    w: int,
    h: int,
    block: Seq<(i32, i32)>,
    cx: int,
    cy: int,
    x: int,
) -> bool {
    forall|y: int| 0 <= y < h ==> #[trigger] filled_at(occ, w, block, cx, cy, x, y)
}

/// What cell (x, y) displays: a cell of a line that placing the block would
/// clear, when the block fits without conflict; otherwise the plain overlay.
pub open spec fn display_cell(
    occ: Seq<bool>,
    w: int,
    h: int,
    block: Seq<(i32, i32)>,
    cx: int,
    cy: int,
    x: int,
    y: int,
) -> DisplayPointStatus {
    if !any_conflict(occ, w, block, cx, cy) && (row_ready(occ, w, block, cx, cy, y) || col_ready(
        occ,
        w,
        h,
        block,
        cx,
        cy,
        x,
    )) {
        DisplayPointStatus::Blast
    } else {
        overlay_cell(occ, w, block, cx, cy, x, y)
    }
}

/// Whether the block, shifted by the would-be cursor, stays on the board.
#[verifier::loop_isolation(false)]
pub fn block_within_bounds(block: &Vec<(i32, i32)>, cx: i32, cy: i32, w: i32, h: i32) -> (r:
    bool)
    ensures
        r == block_within(block@, cx as int, cy as int, w as int, h as int),
{
    let mut k: usize = 0;
    while k < block.len()
        invariant
            0 <= k <= block@.len(),
            forall|j: int|
                0 <= j < k ==> 0 <= #[trigger] block@[j].0 + cx < w && 0 <= block@[j].1 + cy < h,
        decreases block@.len() - k,
    {
        let px = block[k].0 as i64 + cx as i64;
        let py = block[k].1 as i64 + cy as i64;
        if px >= w as i64 || px < 0 || py >= h as i64 || py < 0 {
            return false;
        }
        k += 1;
    }
    true
}

/// Whether some point of the block, shifted by the cursor, covers cell (x, y).
#[verifier::loop_isolation(false)]
fn cell_covered(block: &Vec<(i32, i32)>, cx: i32, cy: i32, x: usize, y: usize) -> (r: bool)
    requires
        x <= i32::MAX as usize,
        y <= i32::MAX as usize,
    ensures
        r == covers(block@, cx as int, cy as int, x as int, y as int),
{
    let mut k: usize = 0;
    while k < block.len()
        invariant
            0 <= k <= block@.len(),
            x <= i32::MAX as usize,
            y <= i32::MAX as usize,
            forall|j: int|
                0 <= j < k ==> !(#[trigger] block@[j].0 + cx == x && block@[j].1 + cy == y),
        decreases block@.len() - k,
    {
        if block[k].0 as i64 + cx as i64 == x as i64 && block[k].1 as i64 + cy as i64
            == y as i64 {
            return true;
        }
        k += 1;
    }
    false
}

/// Whether the hovering block overlaps an occupied cell anywhere.
#[verifier::loop_isolation(false)]
fn scan_conflict(occ: &Vec<bool>, w: usize, h: usize, block: &Vec<(i32, i32)>, cx: i32, cy: i32)
    -> (r: bool)
    requires
        occ@.len() == w * h,
        w * h <= usize::MAX,
        block_within(block@, cx as int, cy as int, w as int, h as int),
    ensures
        r == any_conflict(occ@, w as int, block@, cx as int, cy as int),
{
    let mut k: usize = 0;
    while k < block.len()
        invariant
            0 <= k <= block@.len(),
            occ@.len() == w * h,
            block_within(block@, cx as int, cy as int, w as int, h as int),
            forall|j: int|
                0 <= j < k ==> !(#[trigger] occ@[(block@[j].1 + cy) * w + (block@[j].0 + cx)]),
        decreases block@.len() - k,
    {
        proof {
            assert(0 <= block@[k as int].0 + cx < w && 0 <= block@[k as int].1 + cy < h);
        }
        let bx = (block[k].0 as i64 + cx as i64) as usize;
        let by = (block[k].1 as i64 + cy as i64) as usize;
        proof {
            assert(by * w + bx < w * h) by (nonlinear_arith)
                requires
                    bx < w,
                    by < h,
            ;
        }
        if occ[by * w + bx] {
            return true;
        }
        k += 1;
    }
    false
}

/// Whether every cell of row `y`, with the block overlaid, counts towards a
/// cleared line.
#[verifier::loop_isolation(false)]
fn row_filled(occ: &Vec<bool>, w: usize, h: usize, block: &Vec<(i32, i32)>, cx: i32, cy: i32, y:
    usize) -> (r: bool)
    requires
        occ@.len() == w * h,
        w * h <= usize::MAX,
        y < h,
        w <= i32::MAX as usize,
        h <= i32::MAX as usize,
    ensures
        r == row_ready(occ@, w as int, block@, cx as int, cy as int, y as int),
{
    let mut x: usize = 0;
    while x < w
        invariant
            0 <= x <= w,
            occ@.len() == w * h,
            y < h,
            w <= i32::MAX as usize,
            h <= i32::MAX as usize,
            forall|j: int|
                0 <= j < x ==> #[trigger] filled_at(
                    occ@,
                    w as int,
                    block@,
                    cx as int,
                    cy as int,
                    j,
                    y as int,
                ),
        decreases w - x,
    {
        let cov = cell_covered(block, cx, cy, x, y);
        proof {
            assert((y as int) * (w as int) + (x as int) < w * h) by (nonlinear_arith)
                requires
                    x < w,
                    y < h,
            ;
            assert(0 <= (y as int) * (w as int) + (x as int)) by (nonlinear_arith)
                requires
                    x >= 0,
                    y >= 0,
                    w >= 0,
            ;
        }
        let occupied_here = occ[y * w + x];
        let filled = if cov {
            !occupied_here
        } else {
            occupied_here
        };
        if !filled {
            proof {
                assert(!filled_at(occ@, w as int, block@, cx as int, cy as int, x as int, y as int));
            }
            return false;
        }
        x += 1;
    }
    true
}

/// Whether every cell of column `x`, with the block overlaid, counts towards
/// a cleared line.
#[verifier::loop_isolation(false)]
fn col_filled(occ: &Vec<bool>, w: usize, h: usize, block: &Vec<(i32, i32)>, cx: i32, cy: i32, x:
    usize) -> (r: bool)
    requires
        occ@.len() == w * h,
        w * h <= usize::MAX,
        x < w,
        w <= i32::MAX as usize,
        h <= i32::MAX as usize,
    ensures
        r == col_ready(occ@, w as int, h as int, block@, cx as int, cy as int, x as int),
{
    let mut y: usize = 0;
    while y < h
        invariant
            0 <= y <= h,
            occ@.len() == w * h,
            x < w,
            w <= i32::MAX as usize,
            h <= i32::MAX as usize,
            forall|j: int|
                0 <= j < y ==> #[trigger] filled_at(
                    occ@,
                    w as int,
                    block@,
                    cx as int,
                    cy as int,
                    x as int,
                    j,
                ),
        decreases h - y,
    {
        let cov = cell_covered(block, cx, cy, x, y);
        proof {
            assert((y as int) * (w as int) + (x as int) < w * h) by (nonlinear_arith)
                requires
                    x < w,
                    y < h,
            ;
            assert(0 <= (y as int) * (w as int) + (x as int)) by (nonlinear_arith)
                requires
                    x >= 0,
                    y >= 0,
                    w >= 0,
            ;
        }
        let occupied_here = occ[y * w + x];
        let filled = if cov {
            !occupied_here
        } else {
            occupied_here
        };
        if !filled {
            proof {
                assert(!filled_at(occ@, w as int, block@, cx as int, cy as int, x as int, y as int));
            }
            return false;
        }
        y += 1;
    }
    true
}

/// Compute what every cell of the board should display: the occupied cells
/// with the hovering block overlaid, and, when the block fits without
/// conflict, the rows and columns its placement would clear. Cells are
/// returned row by row, bottom row first, as the board stores them.
#[verifier::loop_isolation(false)]
pub fn display_grid(
    occ: &Vec<bool>,
    w: usize,
    h: usize,
    block: &Vec<(i32, i32)>,
    cx: i32,
    cy: i32,
) -> (r: Vec<DisplayPointStatus>)
    requires
        occ@.len() == w * h,
        w * h <= usize::MAX,
        w <= i32::MAX as usize,
        h <= i32::MAX as usize,
        block_within(block@, cx as int, cy as int, w as int, h as int),
    ensures
        r@.len() == w * h,
        forall|x: int, y: int|
            0 <= x < w && 0 <= y < h ==> #[trigger] r@[y * w + x] == display_cell(
                occ@,
                w as int,
                h as int,
                block@,
                cx as int,
                cy as int,
                x,
                y,
            ),
{
    let conflict = scan_conflict(occ, w, h, block, cx, cy);
    let mut grid: Vec<DisplayPointStatus> = Vec::new();
    let mut y: usize = 0;
    while y < h
        invariant
            0 <= y <= h,
            occ@.len() == w * h,
            w <= i32::MAX as usize,
            h <= i32::MAX as usize,
            block_within(block@, cx as int, cy as int, w as int, h as int),
            conflict == any_conflict(occ@, w as int, block@, cx as int, cy as int),
            grid@.len() == y * w,
            forall|a: int, b: int|
                0 <= a < w && 0 <= b < y ==> #[trigger] grid@[b * w + a] == display_cell(
                    occ@,
                    w as int,
                    h as int,
                    block@,
                    cx as int,
                    cy as int,
                    a,
                    b,
                ),
        decreases h - y,
    {
        let mut x: usize = 0;
        while x < w
            invariant
                0 <= x <= w,
                0 <= y < h,
                occ@.len() == w * h,
                w <= i32::MAX as usize,
                h <= i32::MAX as usize,
                block_within(block@, cx as int, cy as int, w as int, h as int),
                conflict == any_conflict(occ@, w as int, block@, cx as int, cy as int),
                grid@.len() == y * w + x,
                forall|a: int, b: int|
                    0 <= a < w && 0 <= b < y ==> #[trigger] grid@[b * w + a] == display_cell(
                        occ@,
                        w as int,
                        h as int,
                        block@,
                        cx as int,
                        cy as int,
                        a,
                        b,
                    ),
                forall|a: int|
                    0 <= a < x ==> #[trigger] grid@[y * w + a] == display_cell(
                        occ@,
                        w as int,
                        h as int,
                        block@,
                        cx as int,
                        cy as int,
                        a,
                        y as int,
                    ),
            decreases w - x,
        {
            let cov = cell_covered(block, cx, cy, x, y);
            proof {
                assert((y as int) * (w as int) + (x as int) < w * h) by (nonlinear_arith)
                    requires
                        x < w,
                        y < h,
                ;
                assert(0 <= (y as int) * (w as int) + (x as int)) by (nonlinear_arith)
                    requires
                        x >= 0,
                        y >= 0,
                        w >= 0,
                ;
            }
            let occupied_here = occ[y * w + x];
            let base = if cov {
                DisplayPointStatus::Hovered { has_conflict: occupied_here }
            } else if occupied_here {
                DisplayPointStatus::Occupied
            } else {
                DisplayPointStatus::Unoccupied
            };
            let cell = if !conflict && (row_filled(occ, w, h, block, cx, cy, y) || col_filled(
                occ,
                w,
                h,
                block,
                cx,
                cy,
                x,
            )) {
                DisplayPointStatus::Blast
            } else {
                base
            };
            let ghost g0 = grid@;
            grid.push(cell);
            proof {
                assert(cell == display_cell(
                    occ@,
                    w as int,
                    h as int,
                    block@,
                    cx as int,
                    cy as int,
                    x as int,
                    y as int,
                ));
                assert(forall|i: int| 0 <= i < g0.len() ==> grid@[i] == #[trigger] g0[i]);
                assert(grid@[(y as int) * (w as int) + (x as int)] == cell);
                assert forall|a: int, b: int|
                    0 <= a < w && 0 <= b < y implies #[trigger] grid@[b * w + a] == display_cell(
                    occ@,
                    w as int,
                    h as int,
                    block@,
                    cx as int,
                    cy as int,
                    a,
                    b,
                ) by {
                    assert(0 <= b * w + a < (y as int) * (w as int)) by (nonlinear_arith)
                        requires
                            0 <= a < w,
                            0 <= b < y,
                    ;
                    assert(grid@[b * w + a] == g0[b * w + a]);
                }
            }
            x += 1;
        }
        proof {
            assert((y as int + 1) * (w as int) == (y as int) * (w as int) + (w as int))
                by (nonlinear_arith);
        }
        y += 1;
    }
    proof {
        assert((h as int) * (w as int) == (w as int) * (h as int)) by (nonlinear_arith);
    }
    grid
}

} // verus!
