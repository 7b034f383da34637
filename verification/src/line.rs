//! Straight lines: which pixels a line from one point to another covers.
use vstd::prelude::*;
use vstd::arithmetic::div_mod::{lemma_div_is_ordered, lemma_fundamental_div_mod, lemma_fundamental_div_mod_converse};

use crate::bus::Signal;
use crate::protocol::pixel_signals;

verus! {

/// The distance between two coordinates.
pub open spec fn dist(a: int, b: int) -> int {
    if a >= b {
        a - b
    } else {
        b - a
    }
}

/// Whether the line from (`x0`, `y0`) to (`x1`, `y1`) is closer to vertical
/// than to horizontal; it then advances one row per pixel instead of one column.
pub open spec fn line_steep(x0: u16, y0: u16, x1: u16, y1: u16) -> bool {
    dist(y0 as int, y1 as int) > dist(x0 as int, x1 as int)
}

/// The end points in (major, minor) coordinates, ordered by the major one:
/// the major axis is y for a steep line and x otherwise.
pub open spec fn line_ends(x0: u16, y0: u16, x1: u16, y1: u16) -> (int, int, int, int) {
    let (a0, b0, a1, b1) = if line_steep(x0, y0, x1, y1) {
        (y0 as int, x0 as int, y1 as int, x1 as int)
    } else {
        (x0 as int, y0 as int, x1 as int, y1 as int)
    };
    if a0 > a1 {
        (a1, b1, a0, b0)
    } else {
        (a0, b0, a1, b1)
    }
}

/// How many steps along the minor axis come before the `k`-th pixel of a line
/// that runs `da` along its major and `db` along its minor axis: the minor
/// coordinate rounded from the exact one, half a step starting as slack.
pub open spec fn minor_steps(k: int, da: int, db: int) -> int {
    if da == 0 {
        0
    } else {
        (k * db + da - 1 - da / 2) / da
    }
}

/// The `k`-th pixel of the line, as (x, y).
pub open spec fn line_point(x0: u16, y0: u16, x1: u16, y1: u16, k: int) -> (int, int) {
    let (a0, b0, a1, b1) = line_ends(x0, y0, x1, y1);
    let m = minor_steps(k, a1 - a0, dist(b0, b1));
    let a = a0 + k;
    let b = if b0 < b1 {
        b0 + m
    } else {
        b0 - m
    };
    if line_steep(x0, y0, x1, y1) {
        (b, a)
    } else {
        (a, b)
    }
}

/// The pixels of the line from (`x0`, `y0`) to (`x1`, `y1`), one per step
/// along the major axis, in drawing order.
pub open spec fn line_points(x0: u16, y0: u16, x1: u16, y1: u16) -> Seq<(int, int)> {
    let (a0, b0, a1, b1) = line_ends(x0, y0, x1, y1);
    Seq::new((a1 - a0 + 1) as nat, |k: int| line_point(x0, y0, x1, y1, k))
}

/// Drawing each of `points`, in order, as a single pixel.
pub open spec fn pixels_signals(points: Seq<(int, int)>, color: u16) -> Seq<Signal>
    decreases points.len(),
{
    if points.len() == 0 {
        Seq::empty()
    } else {
        pixels_signals(points.drop_last(), color) + pixel_signals(
            points.last().0 as u16,
            points.last().1 as u16,
            color,
        )
    }
}

/// The color lines are drawn in: white.
pub open spec fn line_color() -> u16 {
    0xffff
}

/// Drawing the line from (`x0`, `y0`) to (`x1`, `y1`).
pub open spec fn line_signals(x0: u16, y0: u16, x1: u16, y1: u16) -> Seq<Signal> {
    pixels_signals(line_points(x0, y0, x1, y1), line_color())
}

/// The rounding error that drawing carries matches the closed form of
/// [`minor_steps`]: `s` steps with error `d` in `[0, da)` after `k` pixels.
pub proof fn lemma_minor_steps_from_error(k: int, da: int, db: int, s: int, d: int)
    requires
        da > 0,
        d == da / 2 - k * db + s * da,
        0 <= d < da,
    ensures
        s == minor_steps(k, da, db),
{
    let x = k * db + da - 1 - da / 2;
    assert(x == s * da + (da - 1 - d));
    lemma_fundamental_div_mod_converse(x, da, s, da - 1 - d);
}

/// The minor coordinate starts at the first end point, reaches the second at
/// the last pixel, and stays between them.
pub proof fn lemma_minor_steps_bounds(k: int, da: int, db: int)
    requires
        0 <= db <= da,
        0 <= k <= da,
    ensures
        minor_steps(0, da, db) == 0,
        minor_steps(da, da, db) == db,
        0 <= minor_steps(k, da, db) <= db,
{
    if da > 0 {
        let r = da - 1 - da / 2;
        assert(0 * db + da - 1 - da / 2 == 0 * da + r);
        lemma_fundamental_div_mod_converse(0 * db + da - 1 - da / 2, da, 0, r);
        assert(da * db + da - 1 - da / 2 == db * da + r) by (nonlinear_arith)
            requires
                r == da - 1 - da / 2,
        ;
        lemma_fundamental_div_mod_converse(da * db + da - 1 - da / 2, da, db, r);
        assert(k * db <= da * db) by (nonlinear_arith)
            requires
                0 <= k <= da,
                0 <= db,
        ;
        assert(0 <= k * db) by (nonlinear_arith)
            requires
                0 <= k,
                0 <= db,
        ;
        lemma_div_is_ordered(0 * db + da - 1 - da / 2, k * db + da - 1 - da / 2, da);
        lemma_div_is_ordered(k * db + da - 1 - da / 2, da * db + da - 1 - da / 2, da);
    }
}

/// From one pixel to the next, the minor coordinate moves by at most one step.
pub proof fn lemma_minor_steps_increment(k: int, da: int, db: int)
    requires
        0 <= db <= da,
        0 <= k,
    ensures
        minor_steps(k + 1, da, db) == minor_steps(k, da, db) || minor_steps(k + 1, da, db)
            == minor_steps(k, da, db) + 1,
{
    if da > 0 {
        let x = k * db + da - 1 - da / 2;
        assert((k + 1) * db == k * db + db) by (nonlinear_arith);
        lemma_fundamental_div_mod(x, da);
        let q = x / da;
        let r = x % da;
        assert(x == q * da + r) by (nonlinear_arith)
            requires
                x == da * (x / da) + (x % da),
                q == x / da,
                r == x % da,
        ;
        if r + db < da {
            lemma_fundamental_div_mod_converse(x + db, da, q, r + db);
        } else {
            assert(x + db == (q + 1) * da + (r + db - da)) by (nonlinear_arith)
                requires
                    x == q * da + r,
            ;
            lemma_fundamental_div_mod_converse(x + db, da, q + 1, r + db - da);
        }
    }
}

/// The major axis runs at least as far as the minor one.
pub proof fn lemma_line_ends_extent(x0: u16, y0: u16, x1: u16, y1: u16)
    ensures
        ({
            let (a0, b0, a1, b1) = line_ends(x0, y0, x1, y1);
            &&& a0 <= a1
            &&& dist(b0, b1) <= a1 - a0
            &&& line_steep(x0, y0, x1, y1) ==> dist(b0, b1) < a1 - a0
        }),
{
}

/// Every pixel of the line lies in the box spanned by its end points.
pub proof fn lemma_line_point_in_box(x0: u16, y0: u16, x1: u16, y1: u16, k: int)
    requires
        0 <= k <= line_ends(x0, y0, x1, y1).2 - line_ends(x0, y0, x1, y1).0,
    ensures
        ({
            let p = line_point(x0, y0, x1, y1, k);
            &&& (x0 <= p.0 <= x1 || x1 <= p.0 <= x0)
            &&& (y0 <= p.1 <= y1 || y1 <= p.1 <= y0)
        }),
{
    let e = line_ends(x0, y0, x1, y1);
    let (a0, b0, a1, b1) = e;
    lemma_line_ends_extent(x0, y0, x1, y1);
    let db = dist(b0, b1);
    let m = minor_steps(k, a1 - a0, db);
    lemma_minor_steps_bounds(k, a1 - a0, db);
    let a = a0 + k;
    let b = if b0 < b1 {
        b0 + m
    } else {
        b0 - m
    };
    assert(line_point(x0, y0, x1, y1, k) == (if line_steep(x0, y0, x1, y1) {
        (b, a)
    } else {
        (a, b)
    }));
    assert(a0 <= a <= a1);

}

/// A line has one pixel per step along its longer axis, and starts and ends
/// at its two end points: at (`x0`, `y0`) unless the other end comes first
/// along the major axis.
pub proof fn law_line_endpoints(x0: u16, y0: u16, x1: u16, y1: u16)
    ensures
        line_points(x0, y0, x1, y1).len() == 1 + if dist(x0 as int, x1 as int) >= dist(
            y0 as int,
            y1 as int,
        ) {
            dist(x0 as int, x1 as int)
        } else {
            dist(y0 as int, y1 as int)
        },
        ({
            let pts = line_points(x0, y0, x1, y1);
            ||| pts[0] == (x0 as int, y0 as int) && pts.last() == (x1 as int, y1 as int)
            ||| pts[0] == (x1 as int, y1 as int) && pts.last() == (x0 as int, y0 as int)
        }),
{
    let (a0, b0, a1, b1) = line_ends(x0, y0, x1, y1);
    lemma_line_ends_extent(x0, y0, x1, y1);
    let da = a1 - a0;
    let db = dist(b0, b1);
    lemma_minor_steps_bounds(0, da, db);
    let pts = line_points(x0, y0, x1, y1);
    assert(pts[0] == line_point(x0, y0, x1, y1, 0));
    assert(pts.last() == line_point(x0, y0, x1, y1, da));
}

/// Successive pixels of a line touch: one step along the major axis, and at
/// most one along the minor axis.
pub proof fn law_line_connected(x0: u16, y0: u16, x1: u16, y1: u16, k: int)
    requires
        0 <= k < line_points(x0, y0, x1, y1).len() - 1,
    ensures
        ({
            let p = line_points(x0, y0, x1, y1)[k];
            let q = line_points(x0, y0, x1, y1)[k + 1];
            &&& dist(p.0, q.0) <= 1
            &&& dist(p.1, q.1) <= 1
            &&& p != q
        }),
{
    let (a0, b0, a1, b1) = line_ends(x0, y0, x1, y1);
    lemma_line_ends_extent(x0, y0, x1, y1);
    let da = a1 - a0;
    let db = dist(b0, b1);
    lemma_minor_steps_increment(k, da, db);
    let pts = line_points(x0, y0, x1, y1);
    assert(pts[k] == line_point(x0, y0, x1, y1, k));
    assert(pts[k + 1] == line_point(x0, y0, x1, y1, k + 1));
}

/// Every pixel of a line lies in the box spanned by its end points.
pub proof fn law_line_in_box(x0: u16, y0: u16, x1: u16, y1: u16, k: int)
    requires
        0 <= k < line_points(x0, y0, x1, y1).len(),
    ensures
        ({
            let p = line_points(x0, y0, x1, y1)[k];
            &&& (x0 <= p.0 <= x1 || x1 <= p.0 <= x0)
            &&& (y0 <= p.1 <= y1 || y1 <= p.1 <= y0)
        }),
{
    lemma_line_point_in_box(x0, y0, x1, y1, k);
    assert(line_points(x0, y0, x1, y1)[k] == line_point(x0, y0, x1, y1, k));
}

/// A line whose two end points coincide is that single pixel.
pub proof fn law_line_single_point(x: u16, y: u16)
    ensures
        line_signals(x, y, x, y) == pixel_signals(x, y, line_color()),
{
    let pts = line_points(x, y, x, y);
    assert(pts.len() == 1);
    assert(pts[0] == line_point(x, y, x, y, 0));
    assert(pts[0] == (x as int, y as int));
    assert(pts.last() == pts[0]);
    assert(pts.drop_last() =~= Seq::<(int, int)>::empty());
    assert(pixels_signals(pts.drop_last(), line_color()) == Seq::<Signal>::empty());
    assert(Seq::<Signal>::empty() + pixel_signals(x, y, line_color()) =~= pixel_signals(
        x,
        y,
        line_color(),
    ));
}

} // verus!
