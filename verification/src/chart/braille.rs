//! `BrailleGrid`: a 2x4-resolution dot buffer for sub-cell line drawing.
//!
//! Each terminal cell is a 2x4 braille dot matrix (8 dots, U+2800..U+28FF),
//! giving 2x horizontal and 4x vertical resolution over plain cells. Lines
//! are rasterized with Bresenham in dot space; each non-empty cell then
//! yields one braille glyph.

use vstd::prelude::*;
use vstd::arithmetic::power2::{pow2, lemma2_to64};

use rdom_tui::Color;

use crate::chart::data::{ConnectPolicy, SeriesStyle};

verus! {

/// First code point of the Unicode braille block (U+2800).
pub const BRAILLE_BASE: u32 = 0x2800;

/// Which bit of a braille cell the dot at sub-cell `(sx, sy)` occupies.
pub open spec fn spec_dot_bit(sx: u8, sy: u8) -> u8 {
    if sx == 0 && sy == 0 {
        0
    } else if sx == 0 && sy == 1 {
        1
    } else if sx == 0 && sy == 2 {
        2
    } else if sx == 0 && sy == 3 {
        6
    } else if sx == 1 && sy == 0 {
        3
    } else if sx == 1 && sy == 1 {
        4
    } else if sx == 1 && sy == 2 {
        5
    } else if sx == 1 && sy == 3 {
        7
    } else {
        0
    }
}

/// Map sub-cell coordinate (`sx`: 0..2, `sy`: 0..4) to its braille bit.
pub fn dot_bit(sx: u8, sy: u8) -> (b: u8)
    ensures
        b == spec_dot_bit(sx, sy),
        b < 8,
        sx < 2 && sy < 4 ==> b == (if sy == 3 {
            6 + sx
        } else {
            3 * sx + sy
        }),
{
    match (sx, sy) {
        (0, 0) => 0,
        (0, 1) => 1,
        (0, 2) => 2,
        (0, 3) => 6,
        (1, 0) => 3,
        (1, 1) => 4,
        (1, 2) => 5,
        (1, 3) => 7,
        _ => 0,
    }
}

/// The eight dots of a cell occupy eight distinct bits: `dot_bit` is a
/// bijection from the 2x4 sub-cell positions onto the bits 0..8.
pub proof fn lemma_dot_bit_bijective(sx1: u8, sy1: u8, sx2: u8, sy2: u8)
    requires
        sx1 < 2,
        sy1 < 4,
        sx2 < 2,
        sy2 < 4,
    ensures
        spec_dot_bit(sx1, sy1) < 8,
        spec_dot_bit(sx1, sy1) == spec_dot_bit(sx2, sy2) <==> (sx1 == sx2 && sy1 == sy2),
{
}

/// `dot_bit` follows the Unicode braille numbering: dots 1-3 run down
/// the left column, dots 4-6 down the right column, and dots 7 and 8 are
/// the bottom row (left, right); the dot numbered `n` is bit `n - 1`.
pub proof fn lemma_dot_bit_unicode(sx: u8, sy: u8)
    requires
        sx < 2,
        sy < 4,
    ensures
        spec_dot_bit(sx, sy) == (if sy == 3 {
            6 + sx
        } else {
            3 * sx + sy
        }),
{
}

/// For a bit position `k < 8`, the mask `1 << k` is `2^k` (and not zero).
proof fn lemma_bit_mask_pow2(k: u8)
    requires
        k < 8,
    ensures
        (1u8 << k) as nat == pow2(k as nat),
        (1u8 << k) != 0,
{
    lemma2_to64();
    assert(1u8 << k != 0u8) by (bit_vector)
        requires
            k < 8u8,
    ;
    if k == 0 {
        assert(1u8 << 0u8 == 1u8) by (bit_vector);
    } else if k == 1 {
        assert(1u8 << 1u8 == 2u8) by (bit_vector);
    } else if k == 2 {
        assert(1u8 << 2u8 == 4u8) by (bit_vector);
    } else if k == 3 {
        assert(1u8 << 3u8 == 8u8) by (bit_vector);
    } else if k == 4 {
        assert(1u8 << 4u8 == 16u8) by (bit_vector);
    } else if k == 5 {
        assert(1u8 << 5u8 == 32u8) by (bit_vector);
    } else if k == 6 {
        assert(1u8 << 6u8 == 64u8) by (bit_vector);
    } else {
        assert(1u8 << 7u8 == 128u8) by (bit_vector);
    }
}

// ── Grid model ──────────────────────────────────────────────────────

/// Mathematical state of a braille grid: its size in cells and, per
/// cell (row-major), the dot bitmask and the color.
pub struct GridModel {
    pub w: nat,
    pub h: nat,
    pub dots: Seq<u8>,
    pub colors: Seq<Color>,
}

/// The per-cell sequences both have one entry per cell.
pub open spec fn model_wf(g: GridModel) -> bool {
    &&& g.dots.len() == g.w * g.h
    &&& g.colors.len() == g.w * g.h
}

/// Whether braille dot `(bx, by)` lies inside the grid.
pub open spec fn in_grid(g: GridModel, bx: int, by: int) -> bool {
    0 <= bx < g.w * 2 && 0 <= by < g.h * 4
}

/// Row-major index of the cell holding braille dot `(bx, by)`.
pub open spec fn cell_index(g: GridModel, bx: int, by: int) -> int {
    (by / 4) * g.w + bx / 2
}

/// Bit mask of braille dot `(bx, by)` within its cell.
pub open spec fn dot_mask(bx: int, by: int) -> u8 {
    1u8 << spec_dot_bit((bx % 2) as u8, (by % 4) as u8)
}

/// The grid after lighting dot `(bx, by)` in color `c`: inside the grid
/// the dot's bit is set and its cell takes the color; outside, nothing
/// changes.
pub open spec fn set_dot_model(g: GridModel, bx: int, by: int, c: Color) -> GridModel {
    if in_grid(g, bx, by) {
        let i = cell_index(g, bx, by);
        GridModel {
            w: g.w,
            h: g.h,
            dots: g.dots.update(i, g.dots[i] | dot_mask(bx, by)),
            colors: g.colors.update(i, c),
        }
    } else {
        g
    }
}

/// The grid after lighting each of `pts` in order, all in color `c`.
pub open spec fn plot_points(g: GridModel, pts: Seq<(int, int)>, c: Color) -> GridModel
    decreases pts.len(),
{
    if pts.len() == 0 {
        g
    } else {
        let p = pts.last();
        set_dot_model(plot_points(g, pts.drop_last(), c), p.0, p.1, c)
    }
}

/// Whether braille dot `(bx, by)` is lit.
pub open spec fn lit(g: GridModel, bx: int, by: int) -> bool {
    in_grid(g, bx, by) && (g.dots[cell_index(g, bx, by)] & dot_mask(bx, by)) != 0
}

proof fn lemma_bit_or(d: u8, b1: u8, b2: u8)
    requires
        b1 < 8,
        b2 < 8,
    ensures
        ((d | (1u8 << b1)) & (1u8 << b2)) != 0 <==> ((d & (1u8 << b2)) != 0 || b1 == b2),
{
    assert(((d | (1u8 << b1)) & (1u8 << b2)) != 0 <==> ((d & (1u8 << b2)) != 0 || b1 == b2))
        by (bit_vector)
        requires
            b1 < 8,
            b2 < 8,
    ;
}

proof fn lemma_cell_index_bounds(g: GridModel, bx: int, by: int)
    requires
        in_grid(g, bx, by),
    ensures
        0 <= cell_index(g, bx, by) < g.w * g.h,
        0 <= bx / 2 < g.w,
        0 <= by / 4 < g.h,
{
    let cx = bx / 2;
    let cy = by / 4;
    let w = g.w as int;
    let h = g.h as int;
    assert(0 <= cy * w + cx < h * w) by (nonlinear_arith)
        requires
            0 <= cx < w,
            0 <= cy < h,
    ;
    assert(h * w == g.w * g.h) by (nonlinear_arith)
        requires
            h == g.h as int,
            w == g.w as int,
    ;
}

proof fn lemma_cell_index_injective(g: GridModel, bx1: int, by1: int, bx2: int, by2: int)
    requires
        in_grid(g, bx1, by1),
        in_grid(g, bx2, by2),
        cell_index(g, bx1, by1) == cell_index(g, bx2, by2),
    ensures
        bx1 / 2 == bx2 / 2,
        by1 / 4 == by2 / 4,
{
    let w = g.w as int;
    let cx1 = bx1 / 2;
    let cx2 = bx2 / 2;
    let cy1 = by1 / 4;
    let cy2 = by2 / 4;
    assert(cy1 == cy2 && cx1 == cx2) by (nonlinear_arith)
        requires
            0 <= cx1 < w,
            0 <= cx2 < w,
            0 <= cy1,
            0 <= cy2,
            cy1 * w + cx1 == cy2 * w + cx2,
    {
        if cy1 < cy2 {
            assert(cy1 * w + w <= cy2 * w);
        } else if cy1 > cy2 {
            assert(cy2 * w + w <= cy1 * w);
        }
    }
}

/// Lighting a dot lights exactly that dot (when it is inside the grid)
/// and leaves every other dot as it was.
pub proof fn lemma_set_dot_lit(g: GridModel, bx: int, by: int, c: Color, qx: int, qy: int)
    requires
        model_wf(g),
    ensures
        model_wf(set_dot_model(g, bx, by, c)),
        set_dot_model(g, bx, by, c).w == g.w,
        set_dot_model(g, bx, by, c).h == g.h,
        lit(set_dot_model(g, bx, by, c), qx, qy) == (lit(g, qx, qy) || (qx == bx && qy == by
            && in_grid(g, bx, by))),
{
    let g2 = set_dot_model(g, bx, by, c);
    if in_grid(g, bx, by) {
        lemma_cell_index_bounds(g, bx, by);
        if in_grid(g, qx, qy) {
            lemma_cell_index_bounds(g, qx, qy);
            let i = cell_index(g, bx, by);
            let j = cell_index(g, qx, qy);
            let b1 = spec_dot_bit((bx % 2) as u8, (by % 4) as u8);
            let b2 = spec_dot_bit((qx % 2) as u8, (qy % 4) as u8);
            lemma_dot_bit_bijective((bx % 2) as u8, (by % 4) as u8, (qx % 2) as u8, (qy % 4) as u8);
            if i == j {
                lemma_cell_index_injective(g, bx, by, qx, qy);
                lemma_bit_or(g.dots[i], b1, b2);
                assert(g2.dots[j] == g.dots[i] | dot_mask(bx, by));
                if b1 == b2 {
                    assert(bx % 2 == qx % 2 && by % 4 == qy % 4);
                    assert(bx == qx && by == qy);
                }
            } else {
                assert(g2.dots[j] == g.dots[j]);
            }
        }
    }
}

/// Plotting points preserves the grid's size and well-formedness.
pub proof fn lemma_plot_points_wf(g: GridModel, pts: Seq<(int, int)>, c: Color)
    requires
        model_wf(g),
    ensures
        model_wf(plot_points(g, pts, c)),
        plot_points(g, pts, c).w == g.w,
        plot_points(g, pts, c).h == g.h,
    decreases pts.len(),
{
    if pts.len() > 0 {
        lemma_plot_points_wf(g, pts.drop_last(), c);
        let p = pts.last();
        lemma_set_dot_lit(plot_points(g, pts.drop_last(), c), p.0, p.1, c, 0, 0);
    }
}

/// Plotting a sequence of points lights exactly the points of the
/// sequence that lie inside the grid, and keeps every dot already lit.
pub proof fn lemma_plot_points_lit(g: GridModel, pts: Seq<(int, int)>, c: Color, qx: int, qy: int)
    requires
        model_wf(g),
    ensures
        lit(plot_points(g, pts, c), qx, qy) == (lit(g, qx, qy) || (in_grid(g, qx, qy) && pts.contains(
            (qx, qy),
        ))),
    decreases pts.len(),
{
    if pts.len() > 0 {
        let rest = pts.drop_last();
        let p = pts.last();
        lemma_plot_points_lit(g, rest, c, qx, qy);
        lemma_plot_points_wf(g, rest, c);
        lemma_set_dot_lit(plot_points(g, rest, c), p.0, p.1, c, qx, qy);
        if pts.contains((qx, qy)) {
            let k = choose|k: int| 0 <= k < pts.len() && pts[k] == (qx, qy);
            if k < pts.len() - 1 {
                assert(rest[k] == (qx, qy));
            }
        }
        if rest.contains((qx, qy)) {
            let k = choose|k: int| 0 <= k < rest.len() && rest[k] == (qx, qy);
            assert(pts[k] == (qx, qy));
        }
    }
}

/// Plotting `a` then `b` is plotting `a + b`.
pub proof fn lemma_plot_points_append(g: GridModel, a: Seq<(int, int)>, b: Seq<(int, int)>, c: Color)
    ensures
        plot_points(g, a + b, c) == plot_points(plot_points(g, a, c), b, c),
    decreases b.len(),
{
    if b.len() == 0 {
        assert(a + b =~= a);
    } else {
        lemma_plot_points_append(g, a, b.drop_last(), c);
        assert((a + b).drop_last() =~= a + b.drop_last());
    }
}

proof fn lemma_plot_points_push(g: GridModel, a: Seq<(int, int)>, p: (int, int), c: Color)
    ensures
        plot_points(g, a.push(p), c) == set_dot_model(plot_points(g, a, c), p.0, p.1, c),
{
    assert(a.push(p).drop_last() =~= a);
}

// ── Bresenham lines ─────────────────────────────────────────────────

pub open spec fn abs_int(v: int) -> int {
    if v < 0 {
        -v
    } else {
        v
    }
}

/// One unit from `a` toward `b`.
pub open spec fn step_toward(a: int, b: int) -> int {
    if a < b {
        a + 1
    } else {
        a - 1
    }
}

/// One Bresenham step from state `(x, y, err)` toward `(x1, y1)`: x moves
/// one unit toward `x1` when `2*err >= dy`, y one unit toward `y1` when
/// `2*err <= dx`, and `err` takes `dy` for an x move and `dx` for a y move.
pub open spec fn bres_next(x: int, y: int, err: int, x1: int, y1: int, dx: int, dy: int) -> (
    int,
    int,
    int,
) {
    let e2 = 2 * err;
    let nx = if e2 >= dy {
        step_toward(x, x1)
    } else {
        x
    };
    let ny = if e2 <= dx {
        step_toward(y, y1)
    } else {
        y
    };
    let nerr = err + (if e2 >= dy {
        dy
    } else {
        0
    }) + (if e2 <= dx {
        dx
    } else {
        0
    });
    (nx, ny, nerr)
}

/// The dots Bresenham's all-octant line visits from state `(x, y, err)`
/// toward `(x1, y1)`, where `dx = |x1 - x0|` and `dy = -|y1 - y0|`. Each
/// step moves x when `2*err >= dy` and y when `2*err <= dx`.
pub open spec fn bres_path(x: int, y: int, err: int, x1: int, y1: int, dx: int, dy: int) -> Seq<
    (int, int),
>
    decreases abs_int(x1 - x) + abs_int(y1 - y),
{
    if x == x1 && y == y1 {
        seq![(x, y)]
    } else {
        let e2 = 2 * err;
        if e2 >= dy && x == x1 {
            seq![(x, y)]
        } else if e2 <= dx && y == y1 {
            seq![(x, y)]
        } else if e2 >= dy || e2 <= dx {
            let n = bres_next(x, y, err, x1, y1, dx, dy);
            seq![(x, y)] + bres_path(n.0, n.1, n.2, x1, y1, dx, dy)
        } else {
            seq![(x, y)]
        }
    }
}

/// The dots of the Bresenham line from `(x0, y0)` to `(x1, y1)`, in
/// drawing order.
pub open spec fn line_points(x0: int, y0: int, x1: int, y1: int) -> Seq<(int, int)> {
    let dx = abs_int(x1 - x0);
    let dy = -abs_int(y1 - y0);
    bres_path(x0, y0, dx + dy, x1, y1, dx, dy)
}

/// The state invariant of the stepping: with `a`, `b` the distances
/// still to go in x and y, `err == dx + dy - dy*a - dx*b`.
pub open spec fn bres_inv(x: int, y: int, err: int, x1: int, y1: int, dx: int, dy: int) -> bool {
    &&& dx >= 0
    &&& dy <= 0
    &&& abs_int(x1 - x) <= dx
    &&& abs_int(y1 - y) <= -dy
    &&& err == (dx + dy) - dy * abs_int(x1 - x) - dx * abs_int(y1 - y)
}

proof fn lemma_bres_step(x: int, y: int, err: int, x1: int, y1: int, dx: int, dy: int)
    requires
        bres_inv(x, y, err, x1, y1, dx, dy),
        !(x == x1 && y == y1),
    ensures
        !(2 * err >= dy && x == x1),
        !(2 * err <= dx && y == y1),
        2 * err >= dy || 2 * err <= dx,
        bres_inv(
            bres_next(x, y, err, x1, y1, dx, dy).0,
            bres_next(x, y, err, x1, y1, dx, dy).1,
            bres_next(x, y, err, x1, y1, dx, dy).2,
            x1,
            y1,
            dx,
            dy,
        ),
{
    let a = abs_int(x1 - x);
    let b = abs_int(y1 - y);
    let e2 = 2 * err;
    let pa = dy * a;
    let pb = dx * b;
    if x == x1 {
        assert(b >= 1);
        assert(pb >= dx) by (nonlinear_arith)
            requires
                pb == dx * b,
                b >= 1,
                dx >= 0,
        ;
        assert(pa == 0) by (nonlinear_arith)
            requires
                pa == dy * a,
                a == 0,
        ;
    }
    if y == y1 {
        assert(a >= 1);
        assert(pa <= dy) by (nonlinear_arith)
            requires
                pa == dy * a,
                a >= 1,
                dy <= 0,
        ;
        assert(pb == 0) by (nonlinear_arith)
            requires
                pb == dx * b,
                b == 0,
        ;
    }
    let mx: int = if e2 >= dy {
        1
    } else {
        0
    };
    let my: int = if e2 <= dx {
        1
    } else {
        0
    };
    assert(dy * (a - mx) == pa - dy * mx) by (nonlinear_arith)
        requires
            pa == dy * a,
    ;
    assert(dx * (b - my) == pb - dx * my) by (nonlinear_arith)
        requires
            pb == dx * b,
    ;
}

/// The line ends exactly at its target.
proof fn lemma_bres_ends(x: int, y: int, err: int, x1: int, y1: int, dx: int, dy: int)
    requires
        bres_inv(x, y, err, x1, y1, dx, dy),
    ensures
        bres_path(x, y, err, x1, y1, dx, dy).len() >= 1,
        bres_path(x, y, err, x1, y1, dx, dy).last() == (x1, y1),
    decreases abs_int(x1 - x) + abs_int(y1 - y),
{
    if !(x == x1 && y == y1) {
        lemma_bres_step(x, y, err, x1, y1, dx, dy);
        let n = bres_next(x, y, err, x1, y1, dx, dy);
        lemma_bres_ends(n.0, n.1, n.2, x1, y1, dx, dy);
    }
}

/// Consecutive dots are 8-neighbours, every dot lies in the bounding box
/// of the current position and the target, and every column and every
/// row between them is visited.
proof fn lemma_bres_shape(x: int, y: int, err: int, x1: int, y1: int, dx: int, dy: int)
    requires
        dx >= 0,
        dy <= 0,
    ensures
        ({
            let p = bres_path(x, y, err, x1, y1, dx, dy);
            &&& p.len() >= 1
            &&& p[0] == (x, y)
            &&& forall|i: int|
                0 <= i < p.len() - 1 ==> neighbours(#[trigger] p[i], p[i + 1])
            &&& forall|i: int|
                0 <= i < p.len() ==> between(x, (#[trigger] p[i]).0, x1) && between(y, p[i].1, y1)
        }),
    decreases abs_int(x1 - x) + abs_int(y1 - y),
{
    let p = bres_path(x, y, err, x1, y1, dx, dy);
    if !(x == x1 && y == y1) {
        let e2 = 2 * err;
        if !(e2 >= dy && x == x1) && !(e2 <= dx && y == y1) && (e2 >= dy || e2 <= dx) {
            let n = bres_next(x, y, err, x1, y1, dx, dy);
            lemma_bres_shape(n.0, n.1, n.2, x1, y1, dx, dy);
            let q = bres_path(n.0, n.1, n.2, x1, y1, dx, dy);
            assert(p == seq![(x, y)] + q);
            assert forall|i: int| 0 <= i < p.len() - 1 implies neighbours(#[trigger] p[i], p[i + 1]) by {
                if i > 0 {
                    assert(p[i] == q[i - 1]);
                    assert(p[i + 1] == q[i]);
                }
            }
            assert forall|i: int| 0 <= i < p.len() implies between(x, (#[trigger] p[i]).0, x1)
                && between(y, p[i].1, y1) by {
                if i > 0 {
                    assert(p[i] == q[i - 1]);
                }
            }
        }
    }
}

/// `m` lies between `a` and `b` (inclusive, either order).
pub open spec fn between(a: int, m: int, b: int) -> bool {
    (a <= m <= b) || (b <= m <= a)
}

/// Two dots are distinct 8-neighbours.
pub open spec fn neighbours(p: (int, int), q: (int, int)) -> bool {
    &&& abs_int(p.0 - q.0) <= 1
    &&& abs_int(p.1 - q.1) <= 1
    &&& p != q
}

proof fn lemma_bres_covers(x: int, y: int, err: int, x1: int, y1: int, dx: int, dy: int, cx: int, cy: int)
    requires
        bres_inv(x, y, err, x1, y1, dx, dy),
    ensures
        between(x, cx, x1) ==> exists|i: int|
            0 <= i < bres_path(x, y, err, x1, y1, dx, dy).len() && (#[trigger] bres_path(
                x,
                y,
                err,
                x1,
                y1,
                dx,
                dy,
            )[i]).0 == cx,
        between(y, cy, y1) ==> exists|i: int|
            0 <= i < bres_path(x, y, err, x1, y1, dx, dy).len() && (#[trigger] bres_path(
                x,
                y,
                err,
                x1,
                y1,
                dx,
                dy,
            )[i]).1 == cy,
    decreases abs_int(x1 - x) + abs_int(y1 - y),
{
    let p = bres_path(x, y, err, x1, y1, dx, dy);
    if x == x1 && y == y1 {
        assert(p[0] == (x, y));
    } else {
        lemma_bres_step(x, y, err, x1, y1, dx, dy);
        let n = bres_next(x, y, err, x1, y1, dx, dy);
        lemma_bres_covers(n.0, n.1, n.2, x1, y1, dx, dy, cx, cy);
        let q = bres_path(n.0, n.1, n.2, x1, y1, dx, dy);
        assert(p == seq![(x, y)] + q);
        assert(p[0] == (x, y));
        if between(x, cx, x1) && cx != x {
            assert(between(n.0, cx, x1));
            let i = choose|i: int| 0 <= i < q.len() && (#[trigger] q[i]).0 == cx;
            assert(p[i + 1] == q[i]);
        }
        if between(y, cy, y1) && cy != y {
            assert(between(n.1, cy, y1));
            let i = choose|i: int| 0 <= i < q.len() && (#[trigger] q[i]).1 == cy;
            assert(p[i + 1] == q[i]);
        }
    }
}

/// In an x-major line every step moves one column.
proof fn lemma_bres_len_x(x: int, y: int, err: int, x1: int, y1: int, dx: int, dy: int)
    requires
        bres_inv(x, y, err, x1, y1, dx, dy),
        dx >= -dy,
        2 * err >= dy,
    ensures
        bres_path(x, y, err, x1, y1, dx, dy).len() == abs_int(x1 - x) + 1,
    decreases abs_int(x1 - x) + abs_int(y1 - y),
{
    if !(x == x1 && y == y1) {
        lemma_bres_step(x, y, err, x1, y1, dx, dy);
        let n = bres_next(x, y, err, x1, y1, dx, dy);
        lemma_bres_len_x(n.0, n.1, n.2, x1, y1, dx, dy);
    }
}

/// In a y-major line every step moves one row.
proof fn lemma_bres_len_y(x: int, y: int, err: int, x1: int, y1: int, dx: int, dy: int)
    requires
        bres_inv(x, y, err, x1, y1, dx, dy),
        -dy >= dx,
        2 * err <= dx,
    ensures
        bres_path(x, y, err, x1, y1, dx, dy).len() == abs_int(y1 - y) + 1,
    decreases abs_int(x1 - x) + abs_int(y1 - y),
{
    if !(x == x1 && y == y1) {
        lemma_bres_step(x, y, err, x1, y1, dx, dy);
        let n = bres_next(x, y, err, x1, y1, dx, dy);
        lemma_bres_len_y(n.0, n.1, n.2, x1, y1, dx, dy);
    }
}

/// Shape of a Bresenham line: it starts at `(x0, y0)`, ends at
/// `(x1, y1)`, has one dot per step along its major axis, moves between 8-neighbouring dots at each step, stays
/// inside the bounding box of its endpoints, and visits every column
/// and every row between them (it has no holes).
pub proof fn lemma_line_shape(x0: int, y0: int, x1: int, y1: int)
    ensures
        ({
            let p = line_points(x0, y0, x1, y1);
            &&& p.len() >= 1
            &&& p[0] == (x0, y0)
            &&& p.last() == (x1, y1)
            &&& p.len() == (if abs_int(x1 - x0) >= abs_int(y1 - y0) {
                abs_int(x1 - x0)
            } else {
                abs_int(y1 - y0)
            }) + 1
            &&& forall|i: int|
                0 <= i < p.len() - 1 ==> neighbours(#[trigger] p[i], p[i + 1])
            &&& forall|i: int|
                0 <= i < p.len() ==> between(x0, (#[trigger] p[i]).0, x1) && between(
                    y0,
                    p[i].1,
                    y1,
                )
            &&& forall|cx: int|
                between(x0, cx, x1) ==> exists|i: int| 0 <= i < p.len() && (#[trigger] p[i]).0 == cx
            &&& forall|cy: int|
                between(y0, cy, y1) ==> exists|i: int| 0 <= i < p.len() && (#[trigger] p[i]).1 == cy
        }),
{
    let dx = abs_int(x1 - x0);
    let dy = -abs_int(y1 - y0);
    let p = line_points(x0, y0, x1, y1);
    assert(p == bres_path(x0, y0, dx + dy, x1, y1, dx, dy));
    assert(bres_inv(x0, y0, dx + dy, x1, y1, dx, dy)) by {
        let a = abs_int(x1 - x0);
        let b = abs_int(y1 - y0);
        assert(dy * a + dx * b == 0) by (nonlinear_arith)
            requires
                a == dx,
                b == -dy,
        ;
    }
    lemma_bres_ends(x0, y0, dx + dy, x1, y1, dx, dy);
    lemma_bres_shape(x0, y0, dx + dy, x1, y1, dx, dy);
    if dx >= -dy {
        lemma_bres_len_x(x0, y0, dx + dy, x1, y1, dx, dy);
    } else {
        lemma_bres_len_y(x0, y0, dx + dy, x1, y1, dx, dy);
    }
    assert forall|cx: int| between(x0, cx, x1) implies exists|i: int|
        0 <= i < p.len() && (#[trigger] p[i]).0 == cx by {
        lemma_bres_covers(x0, y0, dx + dy, x1, y1, dx, dy, cx, y0);
    }
    assert forall|cy: int| between(y0, cy, y1) implies exists|i: int|
        0 <= i < p.len() && (#[trigger] p[i]).1 == cy by {
        lemma_bres_covers(x0, y0, dx + dy, x1, y1, dx, dy, x0, cy);
    }
}

proof fn lemma_cells_fit(w: u16, h: u16)
    ensures
        (w as int) * (h as int) <= usize::MAX,
        (w as nat) * (h as nat) == (w as int) * (h as int),
{
    assert((w as int) * (h as int) <= 65535 * 65535) by (nonlinear_arith)
        requires
            w <= 65535,
            h <= 65535,
    ;
}

// ── The grid ────────────────────────────────────────────────────────

/// Braille dot grid. One `u8` bitmask and one color per terminal cell,
/// row-major.
pub struct BrailleGrid {
    cell_width: u16,
    cell_height: u16,
    dots: Vec<u8>,
    colors: Vec<Color>,
}

impl View for BrailleGrid {
    type V = GridModel;

    closed spec fn view(&self) -> GridModel {
        GridModel {
            w: self.cell_width as nat,
            h: self.cell_height as nat,
            dots: self.dots@,
            colors: self.colors@,
        }
    }
}

impl BrailleGrid {
    /// One dot mask and one color per cell.
    #[verifier::type_invariant]
    spec fn wf(&self) -> bool {
        model_wf(self@)
    }

    /// Width of the grid in terminal cells.
    pub fn cell_width(&self) -> (r: u16)
        ensures
            r == self@.w,
    {
        self.cell_width
    }

    /// Height of the grid in terminal cells.
    pub fn cell_height(&self) -> (r: u16)
        ensures
            r == self@.h,
    {
        self.cell_height
    }

    /// The dot bitmask of every cell, row-major.
    pub fn dots(&self) -> (r: &Vec<u8>)
        ensures
            r@ == self@.dots,
    {
        &self.dots
    }

    /// The color of every cell, row-major.
    pub fn colors(&self) -> (r: &Vec<Color>)
        ensures
            r@ == self@.colors,
    {
        &self.colors
    }

    /// An empty grid of `cell_width` x `cell_height` cells, every cell
    /// colored `fill`.
    pub fn new(cell_width: u16, cell_height: u16, fill: Color) -> (g: Self)
        ensures
            model_wf(g@),
            g@.w == cell_width,
            g@.h == cell_height,
            forall|i: int| 0 <= i < g@.dots.len() ==> g@.dots[i] == 0u8,
            forall|i: int| 0 <= i < g@.colors.len() ==> g@.colors[i] == fill,
    {
        proof {
            lemma_cells_fit(cell_width, cell_height);
        }
        let len = cell_width as usize * cell_height as usize;
        let mut dots: Vec<u8> = Vec::new();
        let mut colors: Vec<Color> = Vec::new();
        let mut i: usize = 0;
        while i < len
            invariant
                i <= len,
                dots.len() == i,
                colors.len() == i,
                forall|k: int| 0 <= k < i ==> dots@[k] == 0u8,
                forall|k: int| 0 <= k < i ==> colors@[k] == fill,
            decreases len - i,
        {
            dots.push(0);
            colors.push(fill);
            i = i + 1;
        }
        BrailleGrid { cell_width, cell_height, dots, colors }
    }

    /// Width of the grid in braille dots (two per cell).
    pub fn braille_width(&self) -> (r: i32)
        ensures
            r == self@.w * 2,
    {
        self.cell_width as i32 * 2
    }

    /// Height of the grid in braille dots (four per cell).
    pub fn braille_height(&self) -> (r: i32)
        ensures
            r == self@.h * 4,
    {
        self.cell_height as i32 * 4
    }

    /// Light a single braille dot in `color`. Out-of-range dots are
    /// ignored.
    pub fn set_dot(&mut self, bx: i32, by: i32, color: Color)
        ensures
            final(self)@ == set_dot_model(old(self)@, bx as int, by as int, color),
    {
        proof {
            use_type_invariant(&*self);
            lemma_set_dot_lit(self@, bx as int, by as int, color, 0, 0);
        }
        if bx < 0 || by < 0 || bx >= self.braille_width() || by >= self.braille_height() {
            return ;
        }
        proof {
            lemma_cell_index_bounds(self@, bx as int, by as int);
        }
        let cx = (bx / 2) as usize;
        let cy = (by / 4) as usize;
        let sx = (bx % 2) as u8;
        let sy = (by % 4) as u8;
        let w = self.cell_width as usize;
        proof {
            lemma_cells_fit(self.cell_width, self.cell_height);
            assert((cy as int) * (w as int) + (cx as int) < self@.w * self@.h);
            assert((cy as int) * (w as int) <= (cy as int) * (w as int) + (cx as int));
        }
        let idx = cy * w + cx;
        if idx < self.dots.len() {
            let bit = dot_bit(sx, sy);
            let d = self.dots[idx] | (1u8 << bit);
            self.dots[idx] = d;
            self.colors[idx] = color;
        }
    }

    /// Draw the Bresenham line from `(x0, y0)` to `(x1, y1)` in braille
    /// dot space: every dot of `line_points` is lit in order (dots
    /// outside the grid are skipped). The stepping arithmetic is done in
    /// 64 bits, so any pair of `i32` endpoints is drawn without overflow.
    pub fn draw_line(&mut self, x0: i32, y0: i32, x1: i32, y1: i32, color: Color)
        ensures
            final(self)@ == plot_points(
                old(self)@,
                line_points(x0 as int, y0 as int, x1 as int, y1 as int),
                color,
            ),
    {
        proof {
            use_type_invariant(&*self);
        }
        let ghost g0 = self@;
        let ghost full = line_points(x0 as int, y0 as int, x1 as int, y1 as int);
        let xa = x0 as i64;
        let ya = y0 as i64;
        let xb = x1 as i64;
        let yb = y1 as i64;
        let dx: i64 = if xb >= xa {
            xb - xa
        } else {
            xa - xb
        };
        let dy: i64 = if yb >= ya {
            ya - yb
        } else {
            yb - ya
        };
        let sx: i64 = if xa < xb {
            1
        } else {
            -1
        };
        let sy: i64 = if ya < yb {
            1
        } else {
            -1
        };
        let mut err: i64 = dx + dy;
        let mut x: i64 = xa;
        let mut y: i64 = ya;
        let ghost mut drawn: Seq<(int, int)> = Seq::empty();
        proof {
            assert(drawn + bres_path(x as int, y as int, err as int, xb as int, yb as int, dx as int, dy as int) =~= full);
        }
        loop
            invariant_except_break
                self@ == plot_points(g0, drawn, color),
                drawn + bres_path(x as int, y as int, err as int, xb as int, yb as int, dx as int, dy as int) == full,
                between(xa as int, x as int, xb as int),
                between(ya as int, y as int, yb as int),
                sx == (if xa < xb { 1int } else { -1int }),
                sy == (if ya < yb { 1int } else { -1int }),
                dx == abs_int(xb - xa),
                dy == -abs_int(yb - ya),
                2 * dy <= err <= 2 * dx,
                xa == x0, ya == y0, xb == x1, yb == y1,
                model_wf(g0),
            ensures
                self@ == plot_points(g0, full, color),
            decreases abs_int(xb - x) + abs_int(yb - y),
        {
            let ghost px = x as int;
            let ghost py = y as int;
            let ghost perr = err as int;
            proof {
                lemma_plot_points_push(g0, drawn, (px, py), color);
            }
            self.set_dot(x as i32, y as i32, color);
            proof {
                drawn = drawn.push((px, py));
                assert(bres_path(px, py, perr, xb as int, yb as int, dx as int, dy as int)[0] == (px, py));
                assert(full == drawn + bres_path(px, py, perr, xb as int, yb as int, dx as int, dy as int).drop_first());
            }
            if x == xb && y == yb {
                proof {
                    assert(full =~= drawn);
                }
                break;
            }
            let e2 = 2 * err;
            if e2 >= dy {
                if x == xb {
                    proof {
                        assert(full =~= drawn);
                    }
                    break;
                }
                err = err + dy;
                x = x + sx;
            }
            if e2 <= dx {
                if y == yb {
                    proof {
                        assert(full =~= drawn);
                    }
                    break;
                }
                err = err + dx;
                y = y + sy;
            }
            proof {
                assert(e2 >= dy || e2 <= dx);
                assert(full =~= drawn + bres_path(x as int, y as int, err as int, xb as int, yb as int, dx as int, dy as int));
            }
        }
    }
}

/// The glyph a cell shows: none when it has no dot lit, else the
/// braille character whose dot pattern is the cell's bitmask.
pub open spec fn glyph(bits: u8) -> Option<char> {
    if bits == 0 {
        None
    } else {
        Some((0x2800 + bits) as char)
    }
}

/// Every other dot of row `by`, from column 0 across `bw` dot columns.
pub open spec fn dash_points(bw: int, by: int) -> Seq<(int, int)> {
    Seq::new(((bw + 1) / 2) as nat, |k: int| (2 * k, by))
}

/// Lighting a single dot in an empty cell makes that cell show the
/// braille character U+2800 + 2^k, where `k` is the Unicode bit of the
/// dot's position in its cell (column `bx % 2`, row `by % 4`): dots 1-3
/// down the left column, 4-6 down the right, 7 and 8 along the bottom.
pub proof fn lemma_single_dot_glyph(g: GridModel, bx: int, by: int, c: Color)
    requires
        model_wf(g),
        in_grid(g, bx, by),
        g.dots[cell_index(g, bx, by)] == 0,
    ensures
        ({
            let sx = bx % 2;
            let sy = by % 4;
            let k = if sy == 3 {
                6 + sx
            } else {
                3 * sx + sy
            };
            glyph(set_dot_model(g, bx, by, c).dots[cell_index(g, bx, by)]) == Some(
                (0x2800 + pow2(k as nat)) as char,
            )
        }),
{
    lemma_cell_index_bounds(g, bx, by);
    let sx = (bx % 2) as u8;
    let sy = (by % 4) as u8;
    lemma_dot_bit_unicode(sx, sy);
    let b = spec_dot_bit(sx, sy);
    lemma_bit_mask_pow2(b);
    let m = dot_mask(bx, by);
    assert(m == 1u8 << b);
    assert(0u8 | m == m) by (bit_vector);
}

/// A cell shows a glyph exactly when at least one of its eight dots is
/// lit; a cell with no dot lit shows nothing.
pub proof fn lemma_cell_glyph_empty(g: GridModel, cx: int, cy: int)
    requires
        model_wf(g),
        0 <= cx < g.w,
        0 <= cy < g.h,
    ensures
        glyph(g.dots[cy * g.w + cx]) is None <==> (forall|sx: int, sy: int|
            0 <= sx < 2 && 0 <= sy < 4 ==> !#[trigger] lit(g, 2 * cx + sx, 4 * cy + sy)),
{
    let i = cy * g.w + cx;
    let bits = g.dots[i];
    assert forall|sx: int, sy: int| 0 <= sx < 2 && 0 <= sy < 4 implies {
        &&& #[trigger] in_grid(g, 2 * cx + sx, 4 * cy + sy)
        &&& cell_index(g, 2 * cx + sx, 4 * cy + sy) == i
        &&& (2 * cx + sx) % 2 == sx
        &&& (4 * cy + sy) % 4 == sy
    } by {
        assert((2 * cx + sx) / 2 == cx);
        assert((4 * cy + sy) / 4 == cy);
    }
    if bits == 0 {
        assert forall|sx: int, sy: int| 0 <= sx < 2 && 0 <= sy < 4 implies !#[trigger] lit(
            g,
            2 * cx + sx,
            4 * cy + sy,
        ) by {
            let m = dot_mask(2 * cx + sx, 4 * cy + sy);
            assert(0u8 & m == 0u8) by (bit_vector);
        }
    } else {
        assert(bits & 1u8 != 0 || bits & 2u8 != 0 || bits & 4u8 != 0 || bits & 8u8 != 0 || bits
            & 16u8 != 0 || bits & 32u8 != 0 || bits & 64u8 != 0 || bits & 128u8 != 0) by (bit_vector)
            requires
                bits != 0u8,
        ;
        let (sx, sy): (int, int) = if bits & 1u8 != 0 {
            (0, 0)
        } else if bits & 2u8 != 0 {
            (0, 1)
        } else if bits & 4u8 != 0 {
            (0, 2)
        } else if bits & 8u8 != 0 {
            (1, 0)
        } else if bits & 16u8 != 0 {
            (1, 1)
        } else if bits & 32u8 != 0 {
            (1, 2)
        } else if bits & 64u8 != 0 {
            (0, 3)
        } else {
            (1, 3)
        };
        lemma_dot_bit_unicode(sx as u8, sy as u8);
        lemma_bit_mask_pow2(spec_dot_bit(sx as u8, sy as u8));
        lemma2_to64();
        assert(lit(g, 2 * cx + sx, 4 * cy + sy));
    }
}

/// Lighting a dot inside the grid gives its cell the dot's color; every
/// other cell keeps its color and its dots.
pub proof fn lemma_set_dot_cells(g: GridModel, bx: int, by: int, c: Color, i: int)
    requires
        model_wf(g),
        0 <= i < g.w * g.h,
    ensures
        set_dot_model(g, bx, by, c).colors[i] == (if in_grid(g, bx, by) && i == cell_index(
            g,
            bx,
            by,
        ) {
            c
        } else {
            g.colors[i]
        }),
        !(in_grid(g, bx, by) && i == cell_index(g, bx, by)) ==> set_dot_model(g, bx, by, c).dots[i]
            == g.dots[i],
{
    if in_grid(g, bx, by) {
        lemma_cell_index_bounds(g, bx, by);
    }
}

/// A dashed row lights every other dot of braille row `by`, starting at
/// the left edge: afterwards a dot is lit exactly when it was lit before,
/// or it is inside the grid, on row `by`, in an even dot column.
pub proof fn lemma_dash_row_lit(g: GridModel, by: int, c: Color, qx: int, qy: int)
    requires
        model_wf(g),
    ensures
        lit(plot_points(g, dash_points((g.w * 2) as int, by), c), qx, qy) == (lit(g, qx, qy) || (
        in_grid(g, qx, qy) && qy == by && qx % 2 == 0)),
{
    let pts = dash_points((g.w * 2) as int, by);
    lemma_plot_points_lit(g, pts, c, qx, qy);
    if in_grid(g, qx, qy) && qy == by && qx % 2 == 0 {
        let k = qx / 2;
        assert(pts[k] == (qx, qy));
        assert(pts.contains((qx, qy)));
    }
    if pts.contains((qx, qy)) {
        let k = choose|k: int| 0 <= k < pts.len() && pts[k] == (qx, qy);
        assert(qx == 2 * k);
    }
}

impl BrailleGrid {
    /// The glyph of cell `(cx, cy)`: `None` for an empty cell (the canvas
    /// background shows through), else the braille character of its dots.
    pub fn cell_glyph(&self, cx: u16, cy: u16) -> (r: Option<char>)
        requires
            cx < self@.w,
            cy < self@.h,
        ensures
            r == glyph(self@.dots[cy * self@.w + cx]),
    {
        proof {
            use_type_invariant(self);
            lemma_cells_fit(self.cell_width, self.cell_height);
            let w = self.cell_width as int;
            let h = self.cell_height as int;
            assert((cy as int) * w + (cx as int) < w * h) by (nonlinear_arith)
                requires
                    0 <= cx < w,
                    0 <= cy < h,
            ;
            assert((cy as int) * w <= (cy as int) * w + (cx as int));
            assert(w * h == self@.w * self@.h);
        }
        let idx = cy as usize * self.cell_width as usize + cx as usize;
        let bits = self.dots[idx];
        if bits == 0 {
            return None;
        }
        proof {
            let b32 = bits as u32;
            assert(0x2800u32 | b32 == 0x2800u32 + b32) by (bit_vector)
                requires
                    b32 < 256u32,
            ;
        }
        match core::char::from_u32(BRAILLE_BASE | bits as u32) {
            Some(ch) => Some(ch),
            None => Some(' '),
        }
    }

    /// Light every other dot of braille row `by` across the grid (a
    /// dashed horizontal line).
    pub fn dash_row(&mut self, by: i32, color: Color)
        ensures
            final(self)@ == plot_points(old(self)@, dash_points((old(self)@.w * 2) as int, by as int), color),
    {
        proof {
            use_type_invariant(&*self);
        }
        let ghost g0 = self@;
        let ghost pts = dash_points(self.cell_width * 2, by as int);
        let bw = self.braille_width();
        let mut bx: i32 = 0;
        let ghost mut k: int = 0;
        while bx < bw
            invariant
                bw == g0.w * 2,
                self@.w == g0.w,
                model_wf(g0),
                0 <= bx,
                bx == 2 * k,
                bx < bw + 2,
                self@ == plot_points(g0, pts.take(k), color),
                pts == dash_points((g0.w * 2) as int, by as int),
            decreases bw - bx,
        {
            proof {
                lemma_plot_points_push(g0, pts.take(k), (bx as int, by as int), color);
                assert(pts.take(k + 1) =~= pts.take(k).push((bx as int, by as int)));
            }
            self.set_dot(bx, by, color);
            bx = bx + 2;
            proof {
                k = k + 1;
            }
        }
        proof {
            assert(pts.take(k) =~= pts);
        }
    }
}

// ── Render pipeline ─────────────────────────────────────────────────

/// A point scaled to braille coordinates.
#[derive(Clone, Copy, Debug, PartialEq, Eq, Structural)]
pub struct ScaledPoint {
    pub bx: i32,
    pub top_by: i32,
}

/// A series scaled and ready to rasterize. `None` marks a gap.
pub struct ScaledSeries {
    pub points: Vec<Option<ScaledPoint>>,
    pub color: Color,
    pub style: SeriesStyle,
    pub connect: ConnectPolicy,
}

/// A scaled point as a pair of integers.
pub open spec fn point_view(o: Option<ScaledPoint>) -> Option<(int, int)> {
    match o {
        Some(p) => Some((p.bx as int, p.top_by as int)),
        None => None,
    }
}

/// The dots a gap-breaking polyline lights, in drawing order: each
/// present point is lit, then joined by a line to the point just before
/// it when that one is present too; a gap breaks the line.
pub open spec fn polyline_points(pts: Seq<Option<(int, int)>>) -> Seq<(int, int)>
    decreases pts.len(),
{
    if pts.len() == 0 {
        Seq::empty()
    } else {
        let rest = polyline_points(pts.drop_last());
        match pts.last() {
            None => rest,
            Some(p) => {
                let seg = if pts.len() >= 2 && pts[pts.len() - 2] is Some {
                    let q = pts[pts.len() - 2]->Some_0;
                    line_points(q.0, q.1, p.0, p.1)
                } else {
                    Seq::empty()
                };
                rest.push(p) + seg
            },
        }
    }
}

/// Rasterize a scaled series into the grid (series style and gap policy
/// decide how the points are joined).
pub fn render_series(grid: &mut BrailleGrid, series: &ScaledSeries)
    ensures
        final(grid)@ == plot_points(
            old(grid)@,
            polyline_points(series.points@.map_values(|o: Option<ScaledPoint>| point_view(o))),
            series.color,
        ),
{
    match series.style {
        SeriesStyle::Line => render_line(grid, series),
    }
}

fn render_line(grid: &mut BrailleGrid, series: &ScaledSeries)
    ensures
        final(grid)@ == plot_points(
            old(grid)@,
            polyline_points(series.points@.map_values(|o: Option<ScaledPoint>| point_view(o))),
            series.color,
        ),
{
    proof {
        use_type_invariant(&*grid);
    }
    let ghost g0 = grid@;
    let ghost pv = series.points@.map_values(|o: Option<ScaledPoint>| point_view(o));
    let color = series.color;
    let n = series.points.len();
    let mut prev: Option<ScaledPoint> = None;
    let mut i: usize = 0;
    while i < n
        invariant
            n == series.points.len(),
            pv == series.points@.map_values(|o: Option<ScaledPoint>| point_view(o)),
            color == series.color,
            i <= n,
            model_wf(g0),
            grid@ == plot_points(g0, polyline_points(pv.take(i as int)), color),
            prev == (if i == 0 {
                None
            } else {
                series.points@[i - 1]
            }),
        decreases n - i,
    {
        let ghost before = polyline_points(pv.take(i as int));
        proof {
            assert(pv.take(i as int + 1).drop_last() =~= pv.take(i as int));
            assert(pv.take(i as int + 1).last() == pv[i as int]);
        }
        match series.points[i] {
            Some(p) => {
                proof {
                    lemma_plot_points_push(g0, before, (p.bx as int, p.top_by as int), color);
                }
                grid.set_dot(p.bx, p.top_by, color);
                match prev {
                    Some(q) => {
                        proof {
                            lemma_plot_points_append(
                                g0,
                                before.push((p.bx as int, p.top_by as int)),
                                line_points(q.bx as int, q.top_by as int, p.bx as int, p.top_by as int),
                                color,
                            );
                            assert(pv.take(i as int + 1)[i - 1] == pv[i - 1]);
                        }
                        grid.draw_line(q.bx, q.top_by, p.bx, p.top_by, color);
                    },
                    None => {
                        proof {
                            if i >= 1 {
                                assert(pv.take(i as int + 1)[i - 1] == pv[i - 1]);
                            }
                            assert(before.push((p.bx as int, p.top_by as int)) + Seq::empty() =~= before.push((p.bx as int, p.top_by as int)));
                        }
                    },
                }
                prev = Some(p);
            },
            None => match series.connect {
                ConnectPolicy::Gap => {
                    prev = None;
                },
            },
        }
        i = i + 1;
    }
    proof {
        assert(pv.take(n as int) =~= pv);
    }
}

/// A polyline lights every present point, and joins every two adjacent
/// present points (no gap between them) with their full Bresenham line.
pub proof fn lemma_polyline_covers(pts: Seq<Option<(int, int)>>, k: int)
    requires
        0 <= k < pts.len(),
        pts[k] is Some,
    ensures
        polyline_points(pts).contains(pts[k]->Some_0),
        k >= 1 && pts[k - 1] is Some ==> {
            let q = pts[k - 1]->Some_0;
            let p = pts[k]->Some_0;
            forall|m: int|
                0 <= m < line_points(q.0, q.1, p.0, p.1).len() ==> polyline_points(pts).contains(
                    #[trigger] line_points(q.0, q.1, p.0, p.1)[m],
                )
        },
    decreases pts.len(),
{
    let n = pts.len() as int;
    let rest = polyline_points(pts.drop_last());
    let all = polyline_points(pts);
    if k < n - 1 {
        lemma_polyline_covers(pts.drop_last(), k);
        assert(pts.drop_last()[k] == pts[k]);
        if k >= 1 {
            assert(pts.drop_last()[k - 1] == pts[k - 1]);
        }
        assert forall|t: (int, int)| rest.contains(t) implies all.contains(t) by {
            let i = choose|i: int| 0 <= i < rest.len() && rest[i] == t;
            match pts.last() {
                None => {},
                Some(p) => {
                    let seg = if pts.len() >= 2 && pts[pts.len() - 2] is Some {
                        let q = pts[pts.len() - 2]->Some_0;
                        line_points(q.0, q.1, p.0, p.1)
                    } else {
                        Seq::empty()
                    };
                    assert(all == rest.push(p) + seg);
                    assert(all[i] == t);
                },
            }
        }
    } else {
        let p = pts[k]->Some_0;
        let seg = if pts.len() >= 2 && pts[pts.len() - 2] is Some {
            let q = pts[pts.len() - 2]->Some_0;
            line_points(q.0, q.1, p.0, p.1)
        } else {
            Seq::empty()
        };
        assert(pts.last() == pts[k]);
        assert(all == rest.push(p) + seg);
        assert(all[rest.len() as int] == p);
        if k >= 1 && pts[k - 1] is Some {
            assert forall|m: int| 0 <= m < seg.len() implies all.contains(#[trigger] seg[m]) by {
                assert(all[rest.len() + 1 + m] == seg[m]);
            }
        }
    }
}

} // verus!
