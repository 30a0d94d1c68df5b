//! The ghost model of the line rasterizer: which pixels a Bresenham walk
//! from one endpoint to the other plots.
//!
//! The walk is modelled in three layers, mirroring the algorithm itself:
//! `bres_state` tracks the error accumulator and minor-axis value of a walk
//! whose driving axis is x and whose start is left of its end;
//! `ordered_writes` removes the start/end order assumption by swapping the
//! endpoints; `line_writes_at` removes the axis assumption by swapping the
//! roles of x and y for steep segments.

use vstd::prelude::*;

use crate::tools::iabs;

verus! {

/// The (minor-axis value, error accumulator) pair of the Bresenham walk
/// from (xa, ya) to (xb, yb) after `i` accumulator updates.  The walk
/// starts at minor value `ya` with an empty accumulator; each update adds
/// `2*|yb - ya|` and, when the total exceeds `xb - xa`, steps the minor
/// value one pixel towards `yb` and gives `2*(xb - xa)` back.
pub open spec fn bres_state(xa: int, ya: int, xb: int, yb: int, i: nat) -> (int, int)
    decreases i,
{
    if i == 0 {
        (ya, 0)
    } else {
        let prev = bres_state(xa, ya, xb, yb, (i - 1) as nat);
        let dx = xb - xa;
        let e2 = prev.1 + 2 * iabs(yb - ya);
        if e2 > dx {
            ((if yb > ya {
                prev.0 + 1
            } else {
                prev.0 - 1
            }), e2 - 2 * dx)
        } else {
            (prev.0, e2)
        }
    }
}

/// The walk from (xa, ya) towards (xb, yb), stopped before column `hi`,
/// plots (px, py): one pixel per column in [xa, hi), whose minor value is
/// the walk's state at that column.
pub open spec fn bres_writes_upto(
    xa: int,
    ya: int,
    xb: int,
    yb: int,
    hi: int,
    px: int,
    py: int,
) -> bool {
    xa <= px < hi && py == bres_state(xa, ya, xb, yb, (px - xa) as nat).0
}

/// The full walk from (xa, ya) to (xb, yb) plots (px, py).  The end column
/// `xb` itself is excluded: the walk stops one pixel short of its endpoint.
pub open spec fn bres_writes(xa: int, ya: int, xb: int, yb: int, px: int, py: int) -> bool {
    bres_writes_upto(xa, ya, xb, yb, xb, px, py)
}

/// The partial walk in user-space coordinates: for a steep segment the
/// walk runs in axis-swapped space, so the plotted pixel is the swap of
/// the walked one.
pub open spec fn walk_upto(
    steep: bool,
    xa: int,
    ya: int,
    xb: int,
    yb: int,
    hi: int,
    px: int,
    py: int,
) -> bool {
    if steep {
        bres_writes_upto(xa, ya, xb, yb, hi, py, px)
    } else {
        bres_writes_upto(xa, ya, xb, yb, hi, px, py)
    }
}

/// The walk between the two endpoints, taken with the leftmost one first,
/// plots (px, py).
pub open spec fn ordered_writes(ax: int, ay: int, bx: int, by: int, px: int, py: int) -> bool {
    if ax > bx {
        bres_writes(bx, by, ax, ay, px, py)
    } else {
        bres_writes(ax, ay, bx, by, px, py)
    }
}

/// The rasterized segment from (ax, ay) to (bx, by) plots (px, py).
/// A steep segment - taller than it is wide - is walked with the roles of
/// x and y exchanged, so that the driving axis always advances one pixel
/// per step.
pub open spec fn line_writes_at(ax: int, ay: int, bx: int, by: int, px: int, py: int) -> bool {
    if iabs(ax - bx) < iabs(ay - by) {
        ordered_writes(ay, ax, by, bx, py, px)
    } else {
        ordered_writes(ax, ay, bx, by, px, py)
    }
}

} // verus!
