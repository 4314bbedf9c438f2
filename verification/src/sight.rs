//! Line of sight between two points of the world.
//!
//! The segment from the first point toward the second is sampled every
//! half tile along its longer axis, starting at the first point; sight is
//! clear where no sample lies in a blocking cell. The test is coarse: a
//! segment that grazes a corner between two samples is taken for clear.

use crate::fixed::{
    lemma_product_bound, lemma_trunc_div_bounds, magnitude, mul_i128, trunc_div, HALF,
};
use crate::geometry::Vec2;
use crate::maze::{
    cell_index, lemma_cell_bounds, lemma_cell_of_between, lemma_cell_order, lemma_line_order, Grid,
    Maze,
};
use vstd::prelude::*;

verus! {

/// The longer of the two extents of the segment from `a` to `b`.
pub open spec fn span(a: Vec2, b: Vec2) -> int {
    let dx = magnitude(b.x - a.x);
    let dy = magnitude(b.y - a.y);
    if dx >= dy {
        dx
    } else {
        dy
    }
}

/// Number of samples on the segment from `a` to `b`: one for every half
/// tile of its span, and at least one.
pub open spec fn sample_count(g: Grid, a: Vec2, b: Vec2) -> int {
    let half = g.tile * HALF;
    if span(a, b) < half {
        1
    } else {
        span(a, b) / half
    }
}

/// The step from one sample to the next: the segment scaled so that it
/// spans half a tile, rounded toward zero. A segment shorter than that is
/// its own step.
pub open spec fn sample_step(g: Grid, a: Vec2, b: Vec2) -> (int, int) {
    let half = g.tile * HALF;
    let m = span(a, b);
    if m < half {
        (b.x - a.x, b.y - a.y)
    } else {
        (trunc_div((b.x - a.x) * half, m), trunc_div((b.y - a.y) * half, m))
    }
}

/// The `k`-th sample on the segment from `a` to `b`.
pub open spec fn sample(g: Grid, a: Vec2, b: Vec2, k: int) -> (int, int) {
    let s = sample_step(g, a, b);
    (a.x + k * s.0, a.y + k * s.1)
}

/// Whether the `k`-th sample lies in a blocking cell.
pub open spec fn sample_blocked(g: Grid, a: Vec2, b: Vec2, k: int) -> bool {
    g.blocking(g.cell_of(sample(g, a, b, k).0), g.cell_of(sample(g, a, b, k).1))
}

/// Whether `b` can be seen from `a`: no sample of the segment lies in a
/// blocking cell.
pub open spec fn sight_clear(g: Grid, a: Vec2, b: Vec2) -> bool {
    forall|k: int| 0 <= k < sample_count(g, a, b) ==> !#[trigger] sample_blocked(g, a, b, k)
}

/// `k` steps of a sample step stay within the extent of the segment, on
/// the segment's side of its start.
pub proof fn lemma_steps_within(d: int, half: int, m: int, k: int)
    requires
        0 < half <= m,
        magnitude(d) <= m,
        0 <= k,
        k * half <= m,
    ensures
        d >= 0 ==> 0 <= k * trunc_div(d * half, m) <= d,
        d <= 0 ==> d <= k * trunc_div(d * half, m) <= 0,
{
    let s = trunc_div(d * half, m);
    let ad = magnitude(d);
    let q = (ad * half) / m;
    assert(magnitude(d * half) == ad * half) by (nonlinear_arith)
        requires
            ad == magnitude(d),
            half > 0,
    ;
    lemma_trunc_div_bounds(d * half, m);
    assert(magnitude(s) == q);
    vstd::arithmetic::div_mod::lemma_fundamental_div_mod(ad * half, m);
    vstd::arithmetic::div_mod::lemma_mod_bound(ad * half, m);
    assert(ad * half >= 0) by (nonlinear_arith)
        requires
            ad >= 0,
            half > 0,
    ;
    vstd::arithmetic::div_mod::lemma_div_pos_is_pos(ad * half, m);
    // m * q <= ad * half and k * half <= m give k * q <= ad.
    assert(k * q <= ad) by (nonlinear_arith)
        requires
            m * q <= ad * half,
            k * half <= m,
            0 <= k,
            0 <= q,
            0 <= ad,
            0 < half,
            0 < m,
    {
        if k * q > ad {
            assert(k * q >= ad + 1);
            assert((k * q) * m >= (ad + 1) * m);
            assert((k * q) * m == k * (m * q));
            assert(k * (m * q) <= k * (ad * half));
            assert(k * (ad * half) == ad * (k * half));
            assert(ad * (k * half) <= ad * m);
            assert((ad + 1) * m == ad * m + m);
        }
    }
    if d >= 0 {
        assert(d * half >= 0 && d * half == ad * half) by (nonlinear_arith)
            requires
                d >= 0,
                ad == d,
                half > 0,
        ;
        assert(s == q);
        assert(k * s >= 0) by (nonlinear_arith)
            requires
                k >= 0,
                s >= 0,
        ;
    } else {
        assert(d * half < 0 && -(d * half) == ad * half) by (nonlinear_arith)
            requires
                d < 0,
                ad == -d,
                half > 0,
        ;
        assert(s == -q);
        assert(k * s == -(k * q)) by (nonlinear_arith)
            requires
                s == -q,
        ;
        assert(k * q >= 0) by (nonlinear_arith)
            requires
                k >= 0,
                q >= 0,
        ;
    }
}

/// The samples that are taken lie within the box that the segment spans.
pub proof fn lemma_sample_within(g: Grid, a: Vec2, b: Vec2, k: int)
    requires
        g.wf(),
        0 <= k <= sample_count(g, a, b),
        span(a, b) >= g.tile * HALF,
    ensures
        a.x <= b.x ==> a.x <= sample(g, a, b, k).0 <= b.x,
        b.x <= a.x ==> b.x <= sample(g, a, b, k).0 <= a.x,
        a.y <= b.y ==> a.y <= sample(g, a, b, k).1 <= b.y,
        b.y <= a.y ==> b.y <= sample(g, a, b, k).1 <= a.y,
{
    let half = g.tile * HALF;
    let m = span(a, b);
    assert(half > 0) by (nonlinear_arith)
        requires
            half == g.tile * HALF,
            g.tile > 0,
            HALF == 32768,
    ;
    let n = m / half;
    vstd::arithmetic::div_mod::lemma_fundamental_div_mod(m, half);
    vstd::arithmetic::div_mod::lemma_mod_bound(m, half);
    assert(k * half <= m) by (nonlinear_arith)
        requires
            0 <= k <= n,
            half * n <= m,
            half > 0,
    ;
    lemma_steps_within(b.x - a.x, half, m, k);
    lemma_steps_within(b.y - a.y, half, m, k);
}

/// Absolute value of the difference of two coordinates.
fn extent(from: i64, to: i64) -> (e: i128)
    ensures
        e == magnitude(to - from),
        0 <= e <= 0xffff_ffff_ffff_ffff,
{
    let d: i128 = to as i128 - from as i128;
    if d < 0 {
        -d
    } else {
        d
    }
}

/// One component of the step between samples.
fn step_part(from: i64, to: i64, half: i128, m: i128) -> (s: i128)
    requires
        0 < half <= m,
        half <= 0x8000_0000_0000,
        magnitude(to - from) <= m,
    ensures
        s == trunc_div((to - from) * half, m as int),
        magnitude(s as int) <= half,
{
    let d: i128 = to as i128 - from as i128;
    proof {
        lemma_product_bound(d as int, half as int, 0xffff_ffff_ffff_ffff, 0x8000_0000_0000);
        lemma_product_bound(d as int, half as int, m as int, half as int);
        assert(m * half == half * m) by (nonlinear_arith);
        crate::fixed::lemma_trunc_div_magnitude_le(d * half, m as int, half as int);
    }
    (d * half) / m
}

/// Whether `b` can be seen from `a` through the maze.
pub fn has_los(maze: &Maze, a: Vec2, b: Vec2) -> (clear: bool)
    ensures
        clear == sight_clear(maze@, a, b),
{
    let ghost g = maze@;
    let bs = maze.block_size();
    proof {
        use_type_invariant(maze);
        maze.lemma_inv();
    }
    let half = mul_i128(bs as i128, HALF as i128);
    assert(0 < half <= 0x8000_0000_0000) by {
        assert(1 * 32768 <= bs * HALF <= 0xffff_ffff * 32768);
    }
    let ex = extent(a.x, b.x);
    let ey = extent(a.y, b.y);
    let m = if ex >= ey {
        ex
    } else {
        ey
    };
    assert(m == span(a, b));
    if m < half {
        let i = cell_index(a.x as i128, bs);
        let j = cell_index(a.y as i128, bs);
        let blocked = maze.blocks_at(i, j);
        proof {
            let s = sample_step(g, a, b);
            assert(0 * s.0 == 0 && 0 * s.1 == 0) by (nonlinear_arith);
            assert(sample(g, a, b, 0) == (a.x as int, a.y as int));
            assert(blocked == sample_blocked(g, a, b, 0));
        }
        return !blocked;
    }
    let sx = step_part(a.x, b.x, half, m);
    let sy = step_part(a.y, b.y, half, m);
    let n = m / half;
    let mut x: i128 = a.x as i128;
    let mut y: i128 = a.y as i128;
    let mut k: i128 = 0;
    proof {
        assert(0 * sx == 0 && 0 * sy == 0) by (nonlinear_arith);
        vstd::arithmetic::div_mod::lemma_div_pos_is_pos(m as int, half as int);
        vstd::arithmetic::div_mod::lemma_div_nonincreasing(m as int, half as int);
    }
    while k < n
        invariant
            g == maze@,
            g.wf(),
            bs == g.tile,
            half == g.tile * HALF,
            0 < half <= m,
            m == span(a, b),
            n == sample_count(g, a, b),
            0 <= k <= n,
            n <= 0xffff_ffff_ffff_ffff,
            sx == sample_step(g, a, b).0,
            sy == sample_step(g, a, b).1,
            x == sample(g, a, b, k as int).0,
            y == sample(g, a, b, k as int).1,
            magnitude(sx as int) <= half,
            magnitude(sy as int) <= half,
            forall|q: int| 0 <= q < k ==> !#[trigger] sample_blocked(g, a, b, q),
        decreases n - k,
    {
        proof {
            lemma_sample_within(g, a, b, k as int);
            lemma_sample_within(g, a, b, k + 1);
            assert((k + 1) * sx == k * sx + sx) by (nonlinear_arith);
            assert((k + 1) * sy == k * sy + sy) by (nonlinear_arith);
        }
        let i = cell_index(x, bs);
        let j = cell_index(y, bs);
        if maze.blocks_at(i, j) {
            assert(sample_blocked(g, a, b, k as int));
            return false;
        }
        x = x + sx;
        y = y + sy;
        k = k + 1;
    }
    true
}

/// On an axis along which the segment passes over a whole cell `i`, one
/// of the samples, which lie half a cell apart, lies in that cell.
pub proof fn lemma_sample_lands(a: int, b: int, half: int, i: int) -> (k: int)
    requires
        half > 0,
        a / (2 * half) < i < b / (2 * half) || b / (2 * half) < i < a / (2 * half),
    ensures
        magnitude(b - a) >= 2 * half,
        0 <= k < magnitude(b - a) / half,
        b > a ==> (a + k * half) / (2 * half) == i,
        b < a ==> (a - k * half) / (2 * half) == i,
        b != a,
{
    let cs = 2 * half;
    let ca = a / cs;
    let cb = b / cs;
    lemma_cell_bounds(a, cs);
    lemma_cell_bounds(b, cs);
    assert((i + 1) * cs == i * cs + cs) by (nonlinear_arith);
    let d = magnitude(b - a);
    let n = d / half;
    if ca < i {
        lemma_line_order(ca + 1, i, cs);
        lemma_line_order(i + 1, cb, cs);
        // a < i * cs and (i + 1) * cs <= b
        let t = i * cs - a;
        let k = (t + half - 1) / half;
        vstd::arithmetic::div_mod::lemma_fundamental_div_mod(t + half - 1, half);
        vstd::arithmetic::div_mod::lemma_mod_bound(t + half - 1, half);
        vstd::arithmetic::div_mod::lemma_fundamental_div_mod(d, half);
        vstd::arithmetic::div_mod::lemma_mod_bound(d, half);
        assert(k * half == half * k) by (nonlinear_arith);
        assert(t <= k * half <= t + half - 1);
        lemma_cell_of_between(a + k * half, cs, i);
        assert(k < n) by (nonlinear_arith)
            requires
                half * k < half * n,
                half > 0,
        ;
        assert(k >= 0) by (nonlinear_arith)
            requires
                half * k >= 1,
                half > 0,
        ;
        k
    } else {
        lemma_line_order(cb + 1, i, cs);
        lemma_line_order(i + 1, ca, cs);
        // b < i * cs and (i + 1) * cs <= a
        let t = a - (i + 1) * cs;
        let k = t / half + 1;
        vstd::arithmetic::div_mod::lemma_fundamental_div_mod(t, half);
        vstd::arithmetic::div_mod::lemma_mod_bound(t, half);
        vstd::arithmetic::div_mod::lemma_div_pos_is_pos(t, half);
        vstd::arithmetic::div_mod::lemma_fundamental_div_mod(d, half);
        vstd::arithmetic::div_mod::lemma_mod_bound(d, half);
        assert(k * half == half * (t / half) + half) by (nonlinear_arith)
            requires
                k == t / half + 1,
        ;
        assert(t < k * half <= t + half);
        lemma_cell_of_between(a - k * half, cs, i);
        assert(k < n) by (nonlinear_arith)
            requires
                k * half < half * n,
                half > 0,
        ;
        k
    }
}

/// Two points in the same cell see each other where that cell does not
/// block.
pub proof fn lemma_sight_within_open_cell(g: Grid, a: Vec2, b: Vec2)
    requires
        g.wf(),
        g.cell_of(a.x as int) == g.cell_of(b.x as int),
        g.cell_of(a.y as int) == g.cell_of(b.y as int),
        !g.blocking(g.cell_of(a.x as int), g.cell_of(a.y as int)),
    ensures
        sight_clear(g, a, b),
{
    let cs = g.cell_size();
    let half = g.tile * HALF;
    assert(half > 0 && cs == 2 * half) by (nonlinear_arith)
        requires
            half == g.tile * HALF,
            cs == g.tile * crate::fixed::ONE,
            g.tile > 0,
            HALF == 32768,
            crate::fixed::ONE == 65536,
    ;
    lemma_cell_bounds(a.x as int, cs);
    lemma_cell_bounds(b.x as int, cs);
    lemma_cell_bounds(a.y as int, cs);
    lemma_cell_bounds(b.y as int, cs);
    let cx = g.cell_of(a.x as int);
    let cy = g.cell_of(a.y as int);
    assert((cx + 1) * cs == cx * cs + cs) by (nonlinear_arith);
    assert((cy + 1) * cs == cy * cs + cs) by (nonlinear_arith);
    let m = span(a, b);
    assert(m < 2 * half);
    if m >= half {
        crate::fixed::lemma_quotient_lt(m, half, 2);
    }
    assert(sample_count(g, a, b) <= 1);
    let s = sample_step(g, a, b);
    assert(0 * s.0 == 0 && 0 * s.1 == 0) by (nonlinear_arith);
    assert(sample(g, a, b, 0) == (a.x as int, a.y as int));
    assert(!sample_blocked(g, a, b, 0));
}

/// Two points in the same row, with a blocking cell of that row in a
/// column strictly between theirs, do not see each other.
pub proof fn lemma_sight_blocked_in_row(g: Grid, a: Vec2, b: Vec2, i: int)
    requires
        g.wf(),
        g.cell_of(a.y as int) == g.cell_of(b.y as int),
        g.cell_of(a.x as int) < i < g.cell_of(b.x as int) || g.cell_of(b.x as int) < i < g.cell_of(
            a.x as int,
        ),
        g.blocking(i, g.cell_of(a.y as int)),
    ensures
        !sight_clear(g, a, b),
{
    let cs = g.cell_size();
    let half = g.tile * HALF;
    assert(half > 0 && cs == 2 * half) by (nonlinear_arith)
        requires
            half == g.tile * HALF,
            cs == g.tile * crate::fixed::ONE,
            g.tile > 0,
            HALF == 32768,
            crate::fixed::ONE == 65536,
    ;
    let k = lemma_sample_lands(a.x as int, b.x as int, half, i);
    let r = g.cell_of(a.y as int);
    lemma_cell_bounds(a.y as int, cs);
    lemma_cell_bounds(b.y as int, cs);
    assert((r + 1) * cs == r * cs + cs) by (nonlinear_arith);
    let dx = b.x - a.x;
    let m = span(a, b);
    assert(m == magnitude(dx));
    lemma_whole_step(dx, half);
    let s = sample_step(g, a, b);
    assert(s.0 == (if dx > 0 {
        half
    } else {
        -half
    }));
    assert(k * (-half) == -(k * half)) by (nonlinear_arith);
    lemma_sample_within(g, a, b, k);
    let y = sample(g, a, b, k).1;
    if a.y <= b.y {
        lemma_cell_order(a.y as int, y, cs);
        lemma_cell_order(y, b.y as int, cs);
    } else {
        lemma_cell_order(b.y as int, y, cs);
        lemma_cell_order(y, a.y as int, cs);
    }
    assert(sample_blocked(g, a, b, k));
}

/// Two points in the same column, with a blocking cell of that column in
/// a row strictly between theirs, do not see each other.
pub proof fn lemma_sight_blocked_in_column(g: Grid, a: Vec2, b: Vec2, j: int)
    requires
        g.wf(),
        g.cell_of(a.x as int) == g.cell_of(b.x as int),
        g.cell_of(a.y as int) < j < g.cell_of(b.y as int) || g.cell_of(b.y as int) < j < g.cell_of(
            a.y as int,
        ),
        g.blocking(g.cell_of(a.x as int), j),
    ensures
        !sight_clear(g, a, b),
{
    let cs = g.cell_size();
    let half = g.tile * HALF;
    assert(half > 0 && cs == 2 * half) by (nonlinear_arith)
        requires
            half == g.tile * HALF,
            cs == g.tile * crate::fixed::ONE,
            g.tile > 0,
            HALF == 32768,
            crate::fixed::ONE == 65536,
    ;
    let k = lemma_sample_lands(a.y as int, b.y as int, half, j);
    let c = g.cell_of(a.x as int);
    lemma_cell_bounds(a.x as int, cs);
    lemma_cell_bounds(b.x as int, cs);
    assert((c + 1) * cs == c * cs + cs) by (nonlinear_arith);
    let dy = b.y - a.y;
    let m = span(a, b);
    assert(m == magnitude(dy));
    lemma_whole_step(dy, half);
    let s = sample_step(g, a, b);
    assert(s.1 == (if dy > 0 {
        half
    } else {
        -half
    }));
    assert(k * (-half) == -(k * half)) by (nonlinear_arith);
    lemma_sample_within(g, a, b, k);
    let x = sample(g, a, b, k).0;
    if a.x <= b.x {
        lemma_cell_order(a.x as int, x, cs);
        lemma_cell_order(x, b.x as int, cs);
    } else {
        lemma_cell_order(b.x as int, x, cs);
        lemma_cell_order(x, a.x as int, cs);
    }
    assert(sample_blocked(g, a, b, k));
}

/// Along its longer axis the step between samples is exactly half a
/// tile, toward the far end.
pub proof fn lemma_whole_step(d: int, half: int)
    requires
        d != 0,
        half > 0,
    ensures
        trunc_div(d * half, magnitude(d)) == (if d > 0 {
            half
        } else {
            -half
        }),
{
    let m = magnitude(d);
    vstd::arithmetic::div_mod::lemma_div_multiples_vanish(half, m);
    assert(m * half == half * m) by (nonlinear_arith);
    if d > 0 {
        assert(d * half >= 0) by (nonlinear_arith)
            requires
                d > 0,
                half > 0,
        ;
    } else {
        assert(d * half < 0 && -(d * half) == m * half) by (nonlinear_arith)
            requires
                d < 0,
                m == -d,
                half > 0,
        ;
    }
}

} // verus!
