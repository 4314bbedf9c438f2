//! Casting one ray through the grid.
//!
//! The walk goes from cell to cell across grid lines, always over the
//! line that the ray reaches first, until it stands on a blocking cell or
//! has spent its budget of steps. All comparisons are made on exact
//! integers, so the walk visits the cells that the ray itself visits.

use crate::fixed::{
    div_floor, lemma_product_bound, lemma_quotient_ge, lemma_quotient_le, lemma_quotient_lt,
    lemma_quotient_within, lemma_trunc_div_magnitude_le, magnitude, mul_i128, rem_floor, ONE,
};
use crate::geometry::{is_direction, lemma_direction_has_long_component, Dir, Vec2};
use crate::maze::{blocks, is_blocking, lemma_cell_bounds, Grid, Maze, EMPTY};
use crate::player::Player;
use crate::projector::{ray_angle, slice_of, wall_slice, WallSlice, HALF_FOV};
use vstd::prelude::*;

verus! {

/// Number of steps after which a ray that met no wall is given up.
pub const MAX_STEPS: u32 = 4096;

/// The least distance that a hit reports, so that a divisor made of it is
/// never zero.
pub const MIN_DISTANCE: i64 = 1;

/// The face of a cell that a ray struck.
#[derive(Clone, Copy, Debug, PartialEq, Eq, Structural)]
pub enum Side {
    /// A face that runs north to south: the ray crossed a line between
    /// two columns last.
    Vertical,
    /// A face that runs west to east: the ray crossed a line between two
    /// rows last.
    Horizontal,
}

/// What one cast found.
#[derive(Clone, Copy, Debug, PartialEq, Eq, Structural)]
pub struct Hit {
    /// Distance to the struck face in raw world units, at least
    /// `MIN_DISTANCE`.
    pub perp: i64,
    /// The same distance in raw cells, not limited from below.
    pub perp_cells: i64,
    /// Where along the face the ray struck, as a raw fraction of the face.
    pub tex_u: i64,
    /// Symbol of the struck cell.
    pub tile: char,
    /// Which kind of face was struck.
    pub side: Side,
    /// Direction of the ray.
    pub dir: Dir,
}

/// The state of a walk: the cell it stands on, and for each axis the
/// distance along that axis from the origin to the next grid line ahead.
pub struct Walk {
    /// Column of the cell.
    pub cx: int,
    /// Row of the cell.
    pub cy: int,
    /// Distance along `x` from the origin to the next line between columns.
    pub gx: int,
    /// Distance along `y` from the origin to the next line between rows.
    pub gy: int,
    /// The kind of line that the walk crossed last.
    pub side: Side,
}

/// The step that a ray takes along an axis: -1 where its component is
/// negative, else 1.
pub open spec fn step_of(d: int) -> int {
    if d < 0 {
        -1
    } else {
        1
    }
}

/// Distance along one axis from the coordinate `o` to the grid line at
/// the far side of cell `c`, seen in the direction of `d`.
pub open spec fn gap_ahead(g: Grid, o: int, c: int, d: int) -> int {
    if d < 0 {
        o - c * g.cell_size()
    } else {
        (c + 1) * g.cell_size() - o
    }
}

/// Distance along one axis from the coordinate `o` to the face of cell
/// `c` that a ray with component `d` enters it by.
pub open spec fn face_gap(g: Grid, o: int, c: int, d: int) -> int {
    if d < 0 {
        magnitude((c + 1) * g.cell_size() - o)
    } else {
        magnitude(c * g.cell_size() - o)
    }
}

/// The walk before its first step.
pub open spec fn walk_start(g: Grid, origin: Vec2, dir: (int, int)) -> Walk {
    let cx = g.cell_of(origin.x as int);
    let cy = g.cell_of(origin.y as int);
    Walk {
        cx,
        cy,
        gx: gap_ahead(g, origin.x as int, cx, dir.0),
        gy: gap_ahead(g, origin.y as int, cy, dir.1),
        side: Side::Vertical,
    }
}

/// Whether the ray reaches the next line between columns strictly before
/// the next line between rows. A ray along an axis never crosses the
/// lines that run beside it.
pub open spec fn crosses_column_first(w: Walk, dir: (int, int)) -> bool {
    w.gx * magnitude(dir.1) < w.gy * magnitude(dir.0)
}

/// One step of the walk, over the grid line that the ray reaches first.
pub open spec fn walk_step(g: Grid, w: Walk, dir: (int, int)) -> Walk {
    if crosses_column_first(w, dir) {
        Walk {
            cx: w.cx + step_of(dir.0),
            cy: w.cy,
            gx: w.gx + g.cell_size(),
            gy: w.gy,
            side: Side::Vertical,
        }
    } else {
        Walk {
            cx: w.cx,
            cy: w.cy + step_of(dir.1),
            gx: w.gx,
            gy: w.gy + g.cell_size(),
            side: Side::Horizontal,
        }
    }
}

/// The walk as it stands on the first blocking cell that it steps on, if
/// it does so within `budget` steps.
pub open spec fn walk_to_wall(g: Grid, w: Walk, dir: (int, int), budget: nat) -> Option<Walk>
    decreases budget,
{
    if budget == 0 {
        None
    } else {
        let next = walk_step(g, w, dir);
        if g.blocking(next.cx, next.cy) {
            Some(next)
        } else {
            walk_to_wall(g, next, dir, (budget - 1) as nat)
        }
    }
}

/// Distance from the origin to the struck face, measured along the axis
/// that the ray crossed last.
pub open spec fn axis_gap(g: Grid, origin: Vec2, dir: (int, int), w: Walk) -> int {
    match w.side {
        Side::Vertical => face_gap(g, origin.x as int, w.cx, dir.0),
        Side::Horizontal => face_gap(g, origin.y as int, w.cy, dir.1),
    }
}

/// The component of the direction along the axis that the ray crossed
/// last, and the component along the other axis.
pub open spec fn along(dir: (int, int), side: Side) -> (int, int) {
    match side {
        Side::Vertical => (dir.0, dir.1),
        Side::Horizontal => (dir.1, dir.0),
    }
}

/// Distance to the struck face in raw world units: the distance along
/// the crossed axis, divided by the direction's component on that axis.
pub open spec fn hit_distance(g: Grid, origin: Vec2, dir: (int, int), w: Walk) -> int {
    (axis_gap(g, origin, dir, w) * ONE) / magnitude(along(dir, w.side).0)
}

/// The raw world coordinate, along the struck face, of the point where
/// the ray meets it, rounded down.
pub open spec fn impact(g: Grid, origin: Vec2, dir: (int, int), w: Walk) -> int {
    let d = along(dir, w.side);
    let from = match w.side {
        Side::Vertical => origin.y as int,
        Side::Horizontal => origin.x as int,
    };
    from + (axis_gap(g, origin, dir, w) * d.1) / magnitude(d.0)
}

/// Whether the texture coordinate is mirrored: on vertical faces struck
/// by a ray that runs toward greater `x`, and on horizontal faces struck
/// by a ray that runs toward smaller `y`.
pub open spec fn mirrored(dir: (int, int), side: Side) -> bool {
    (side == Side::Vertical && dir.0 > 0) || (side == Side::Horizontal && dir.1 < 0)
}

/// Where along the face the ray struck, as a raw fraction: the part of
/// the impact coordinate that lies within the cell, mirrored where the
/// face calls for it.
pub open spec fn texture_u(g: Grid, origin: Vec2, dir: (int, int), w: Walk) -> int {
    let frac = (impact(g, origin, dir, w) % g.cell_size()) / g.tile;
    if mirrored(dir, w.side) {
        ONE - frac
    } else {
        frac
    }
}

/// The hit that a walk standing on a blocking cell stands for.
pub open spec fn hit_of(g: Grid, origin: Vec2, dir: Dir, w: Walk) -> Hit {
    let dist = hit_distance(g, origin, dir@, w);
    Hit {
        perp: (if dist < MIN_DISTANCE {
            MIN_DISTANCE as int
        } else {
            dist
        }) as i64,
        perp_cells: (dist / g.tile) as i64,
        tex_u: texture_u(g, origin, dir@, w) as i64,
        tile: g.symbol_at(w.cx, w.cy),
        side: w.side,
        dir,
    }
}

/// What a cast from `origin` in the direction `dir` finds: the first
/// blocking cell on the ray's way, within the budget of steps.
pub open spec fn cast(g: Grid, origin: Vec2, dir: Dir) -> Option<Hit> {
    match walk_to_wall(g, walk_start(g, origin, dir@), dir@, MAX_STEPS as nat) {
        Some(w) => Some(hit_of(g, origin, dir, w)),
        None => None,
    }
}

/// What holds of a walk after `k` steps: each gap is the distance to the
/// grid line at the far side of the current cell, and has grown by at most
/// one cell per step; and on its way the ray reaches the line at the near
/// side of the current cell on either axis no later than the line at the
/// far side on the other.
pub open spec fn walk_inv(g: Grid, origin: Vec2, dir: (int, int), w: Walk, k: int) -> bool {
    &&& w.gx == gap_ahead(g, origin.x as int, w.cx, dir.0)
    &&& w.gy == gap_ahead(g, origin.y as int, w.cy, dir.1)
    &&& 0 <= w.gx <= (k + 1) * g.cell_size()
    &&& 0 <= w.gy <= (k + 1) * g.cell_size()
    &&& dir.0 >= 0 ==> w.gx > 0
    &&& dir.1 >= 0 ==> w.gy > 0
    &&& magnitude(w.cx - g.cell_of(origin.x as int)) <= k
    &&& magnitude(w.cy - g.cell_of(origin.y as int)) <= k
    &&& (w.gx - g.cell_size()) * magnitude(dir.1) <= w.gy * magnitude(dir.0)
    &&& (w.gy - g.cell_size()) * magnitude(dir.0) <= w.gx * magnitude(dir.1)
}

/// What holds of a walk that has just taken a step: the ray moves along
/// the axis that it crossed, and it reached the line that it crossed
/// while it was within the current cell on the other axis, no earlier
/// than that cell's near line and no later than its far line.
pub open spec fn just_stepped(g: Grid, dir: (int, int), w: Walk) -> bool {
    match w.side {
        Side::Vertical => {
            &&& w.gx >= g.cell_size()
            &&& dir.0 != 0
            &&& (w.gx - g.cell_size()) * magnitude(dir.1) < w.gy * magnitude(dir.0)
            &&& (w.gy - g.cell_size()) * magnitude(dir.0) <= (w.gx - g.cell_size()) * magnitude(
                dir.1,
            )
        },
        Side::Horizontal => {
            &&& w.gy >= g.cell_size()
            &&& dir.1 != 0
            &&& (w.gy - g.cell_size()) * magnitude(dir.0) <= w.gx * magnitude(dir.1)
            &&& (w.gx - g.cell_size()) * magnitude(dir.1) <= (w.gy - g.cell_size()) * magnitude(
                dir.0,
            )
        },
    }
}

/// The walk starts with both gaps within one cell.
pub proof fn lemma_walk_start(g: Grid, origin: Vec2, dir: (int, int))
    requires
        g.wf(),
    ensures
        walk_inv(g, origin, dir, walk_start(g, origin, dir), 0),
{
    let cs = g.cell_size();
    assert(cs > 0) by (nonlinear_arith)
        requires
            cs == g.tile * ONE,
            g.tile > 0,
            ONE == 65536,
    ;
    lemma_cell_bounds(origin.x as int, cs);
    lemma_cell_bounds(origin.y as int, cs);
    let w = walk_start(g, origin, dir);
    lemma_behind_is_no_later(w.gx - cs, magnitude(dir.1), w.gy, magnitude(dir.0));
    lemma_behind_is_no_later(w.gy - cs, magnitude(dir.0), w.gx, magnitude(dir.1));
}

/// A line that lies behind is reached no later than one that lies ahead.
pub proof fn lemma_behind_is_no_later(p: int, b: int, q: int, a: int)
    by (nonlinear_arith)
    requires
        p <= 0,
        q >= 0,
        a >= 0,
        b >= 0,
    ensures
        p * b <= q * a,
{
}

/// Moving the far line farther keeps it no earlier.
pub proof fn lemma_farther_is_no_earlier(p: int, b: int, q: int, a: int, cs: int)
    by (nonlinear_arith)
    requires
        p * b <= q * a,
        a >= 0,
        cs >= 0,
    ensures
        p * b <= (q + cs) * a,
{
}

/// A step keeps the invariant of the walk, and leaves the walk in the
/// state of one that has just stepped.
pub proof fn lemma_walk_step(g: Grid, origin: Vec2, dir: (int, int), w: Walk, k: int)
    requires
        g.wf(),
        is_direction(dir.0, dir.1),
        k >= 0,
        walk_inv(g, origin, dir, w, k),
    ensures
        walk_inv(g, origin, dir, walk_step(g, w, dir), k + 1),
        just_stepped(g, dir, walk_step(g, w, dir)),
{
    let cs = g.cell_size();
    let next = walk_step(g, w, dir);
    lemma_direction_has_long_component(dir.0, dir.1);
    assert(cs > 0) by (nonlinear_arith)
        requires
            cs == g.tile * ONE,
            g.tile > 0,
            ONE == 65536,
    ;
    assert((k + 2) * cs == (k + 1) * cs + cs) by (nonlinear_arith);
    if crosses_column_first(w, dir) {
        assert(dir.0 != 0) by (nonlinear_arith)
            requires
                w.gx * magnitude(dir.1) < w.gy * magnitude(dir.0),
                w.gx >= 0,
                magnitude(dir.1) >= 0,
        ;
        lemma_gap_step(cs, origin.x as int, w.cx, dir.0);
        assert(next.gx - cs == w.gx);
        lemma_farther_is_no_earlier(w.gy - cs, magnitude(dir.0), w.gx, magnitude(dir.1), cs);
    } else {
        if dir.1 == 0 {
            // A ray along the rows has its next column line in front of
            // it, so it would have crossed that one.
            assert(w.gy * magnitude(dir.0) > 0) by (nonlinear_arith)
                requires
                    w.gy > 0,
                    magnitude(dir.0) > 0,
            ;
            assert(w.gx * magnitude(dir.1) == 0) by (nonlinear_arith)
                requires
                    magnitude(dir.1) == 0,
            ;
        }
        lemma_gap_step(cs, origin.y as int, w.cy, dir.1);
        assert(next.gy - cs == w.gy);
        lemma_farther_is_no_earlier(w.gx - cs, magnitude(dir.1), w.gy, magnitude(dir.0), cs);
    }
}

/// Stepping to the next cell moves the line ahead by one cell.
pub proof fn lemma_gap_step(cs: int, o: int, c: int, d: int)
    ensures
        d < 0 ==> o - (c + step_of(d)) * cs == (o - c * cs) + cs,
        d >= 0 ==> (c + step_of(d) + 1) * cs - o == ((c + 1) * cs - o) + cs,
{
    assert((c - 1) * cs == c * cs - cs) by (nonlinear_arith);
    assert((c + 2) * cs == (c + 1) * cs + cs) by (nonlinear_arith);
}

/// After a step over an axis, the distance to the face that was entered
/// is the gap of that axis less one cell.
pub proof fn lemma_face_gap(g: Grid, o: int, c: int, d: int)
    requires
        gap_ahead(g, o, c, d) >= g.cell_size(),
    ensures
        face_gap(g, o, c, d) == gap_ahead(g, o, c, d) - g.cell_size(),
{
    let cs = g.cell_size();
    assert((c + 1) * cs == c * cs + cs) by (nonlinear_arith);
}

/// The distance of a hit is at most twice the larger of the two gaps:
/// the direction has a component of at least one half, and the axis that
/// was crossed was the one whose line the ray reached first.
pub proof fn lemma_distance_bound(gap: int, other: int, a: int, b: int)
    by (nonlinear_arith)
    requires
        0 <= gap,
        0 <= other,
        0 < a <= 65536,
        0 <= b <= 65536,
        a >= 32768 || b >= 32768,
        gap * b <= other * a,
    ensures
        gap * 65536 <= (2 * gap) * a || gap * 65536 <= (2 * other) * a,
{
    if a >= 32768 {
        assert(gap * 65536 <= (2 * gap) * a);
    } else {
        assert(gap * 65536 <= 2 * (gap * b));
        assert(2 * (gap * b) <= 2 * (other * a));
        assert(gap * 65536 <= (2 * other) * a);
    }
}

/// Bounds on what a hit is made of, for a walk that has just stepped.
pub proof fn lemma_hit_bounds(g: Grid, origin: Vec2, dir: (int, int), w: Walk, k: int)
    requires
        g.wf(),
        is_direction(dir.0, dir.1),
        k >= 1,
        walk_inv(g, origin, dir, w, k),
        just_stepped(g, dir, w),
    ensures
        axis_gap(g, origin, dir, w) == (match w.side {
            Side::Vertical => w.gx,
            Side::Horizontal => w.gy,
        }) - g.cell_size(),
        0 <= axis_gap(g, origin, dir, w) <= k * g.cell_size(),
        along(dir, w.side).0 != 0,
        0 <= hit_distance(g, origin, dir, w) <= 2 * ((k + 1) * g.cell_size()),
{
    let cs = g.cell_size();
    lemma_direction_has_long_component(dir.0, dir.1);
    assert((k + 1) * cs == k * cs + cs) by (nonlinear_arith);
    let a = magnitude(along(dir, w.side).0);
    let b = magnitude(along(dir, w.side).1);
    let gap = axis_gap(g, origin, dir, w);
    match w.side {
        Side::Vertical => {
            lemma_face_gap(g, origin.x as int, w.cx, dir.0);
            assert(gap * ONE >= 0) by (nonlinear_arith)
                requires
                    gap >= 0,
                    ONE == 65536,
            ;
            lemma_distance_bound(gap, w.gy, a, b);
            if gap * 65536 <= (2 * gap) * a {
                lemma_quotient_le(gap * ONE, a, 2 * gap);
            } else {
                lemma_quotient_le(gap * ONE, a, 2 * w.gy);
            }
        },
        Side::Horizontal => {
            lemma_face_gap(g, origin.y as int, w.cy, dir.1);
            assert(gap * ONE >= 0) by (nonlinear_arith)
                requires
                    gap >= 0,
                    ONE == 65536,
            ;
            lemma_distance_bound(gap, w.gx, a, b);
            if gap * 65536 <= (2 * gap) * a {
                lemma_quotient_le(gap * ONE, a, 2 * gap);
            } else {
                lemma_quotient_le(gap * ONE, a, 2 * w.gx);
            }
        },
    }
}

/// Absolute value of a direction's component.
fn component_size(d: i64) -> (a: i128)
    requires
        -ONE <= d <= ONE,
    ensures
        a == magnitude(d as int),
        0 <= a <= ONE,
{
    if d < 0 {
        -(d as i128)
    } else {
        d as i128
    }
}

/// Distance along one axis from `o` to the grid line at the far side of
/// cell `c`, seen in the direction of `d`.
fn first_gap(o: i64, c: i64, cs: i64, d: i64) -> (gap: i128)
    requires
        cs > 0,
        c == (o as int) / (cs as int),
    ensures
        gap == (if d < 0 {
            o - c * cs
        } else {
            (c + 1) * cs - o
        }),
        0 <= gap <= cs,
{
    proof {
        lemma_cell_bounds(o as int, cs as int);
        assert((c + 1) * cs == c * cs + cs) by (nonlinear_arith);
    }
    let near = mul_i128(c as i128, cs as i128);
    if d < 0 {
        o as i128 - near
    } else {
        near + cs as i128 - o as i128
    }
}

/// Casts a ray from `origin` in the direction `dir` and reports the first
/// blocking cell that it enters, or `None` where it enters none within
/// `MAX_STEPS` steps.
pub fn cast_ray(maze: &Maze, origin: Vec2, dir: Dir) -> (hit: Option<Hit>)
    ensures
        hit == cast(maze@, origin, dir),
        hit matches Some(h) ==> {
            &&& h.perp >= MIN_DISTANCE
            &&& h.perp_cells >= 0
            &&& 0 <= h.tex_u <= ONE
            &&& (h.tex_u == ONE ==> mirrored(dir@, h.side))
            &&& blocks(h.tile)
            &&& h.dir == dir
        },
{
    let ghost g = maze@;
    let ghost d = dir@;
    let cs = maze.cell_size();
    let bs = maze.block_size();
    let dx = dir.x();
    let dy = dir.y();
    let adx = component_size(dx);
    let ady = component_size(dy);
    let start = maze.world_to_cell(origin);
    let mut map_x: i64 = start.0;
    let mut map_y: i64 = start.1;
    let mut gx: i128 = first_gap(origin.x, map_x, cs, dx);
    let mut gy: i128 = first_gap(origin.y, map_y, cs, dy);
    let step_x: i64 = if dx < 0 {
        -1
    } else {
        1
    };
    let step_y: i64 = if dy < 0 {
        -1
    } else {
        1
    };
    let mut side = Side::Vertical;
    let mut tile: char = EMPTY;
    let mut found = false;
    let mut n: u32 = 0;
    let ghost w0 = walk_start(g, origin, d);
    let ghost mut w = w0;
    proof {
        use_type_invariant(maze);
        maze.lemma_inv();
        lemma_walk_start(g, origin, d);
        crate::maze::lemma_cell_index_bound(origin.x as int, cs as int);
        crate::maze::lemma_cell_index_bound(origin.y as int, cs as int);
    }
    while n < MAX_STEPS && !found
        invariant
            g == maze@,
            d == dir@,
            g.wf(),
            is_direction(d.0, d.1),
            cs == g.cell_size(),
            ONE <= cs <= 0xffff_ffff_0000,
            dx == d.0,
            dy == d.1,
            adx == magnitude(d.0),
            ady == magnitude(d.1),
            step_x == step_of(d.0),
            step_y == step_of(d.1),
            n <= MAX_STEPS,
            w0 == walk_start(g, origin, d),
            -0x2_0000_0000_0000 <= w0.cx <= 0x2_0000_0000_0000,
            -0x2_0000_0000_0000 <= w0.cy <= 0x2_0000_0000_0000,
            w == (Walk { cx: map_x as int, cy: map_y as int, gx: gx as int, gy: gy as int, side }),
            walk_inv(g, origin, d, w, n as int),
            n >= 1 ==> just_stepped(g, d, w),
            !found ==> walk_to_wall(g, w0, d, MAX_STEPS as nat) == walk_to_wall(
                g,
                w,
                d,
                (MAX_STEPS - n) as nat,
            ),
            found ==> n >= 1 && walk_to_wall(g, w0, d, MAX_STEPS as nat) == Some(w) && tile
                == g.symbol_at(w.cx, w.cy) && blocks(tile),
        decreases MAX_STEPS - n + (if found { 0int } else { 1int }),
    {
        proof {
            lemma_walk_step(g, origin, d, w, n as int);
            assert((n + 1) * cs <= 4097 * cs) by (nonlinear_arith)
                requires
                    n <= 4096,
                    cs > 0,
            ;
            assert((n + 2) * cs <= 4098 * cs) by (nonlinear_arith)
                requires
                    n <= 4096,
                    cs > 0,
            ;
        }
        let left = mul_i128(gx, ady);
        let right = mul_i128(gy, adx);
        if left < right {
            gx = gx + cs as i128;
            map_x = map_x + step_x;
            side = Side::Vertical;
        } else {
            gy = gy + cs as i128;
            map_y = map_y + step_y;
            side = Side::Horizontal;
        }
        n = n + 1;
        proof {
            w = walk_step(g, w, d);
        }
        tile = maze.cell_at(map_x, map_y);
        if is_blocking(tile) {
            found = true;
        }
    }
    if !found {
        return None;
    }
    proof {
        lemma_hit_bounds(g, origin, d, w, n as int);
        assert((n + 1) * cs <= 4097 * cs) by (nonlinear_arith)
            requires
                n <= 4096,
                cs > 0,
        ;
        assert(n * cs <= 4096 * cs) by (nonlinear_arith)
            requires
                n <= 4096,
                cs > 0,
        ;
    }
    let (gap, axis, other, from): (i128, i128, i64, i64) = match side {
        Side::Vertical => (gx - cs as i128, adx, dy, origin.y),
        Side::Horizontal => (gy - cs as i128, ady, dx, origin.x),
    };
    let dist = mul_i128(gap, ONE as i128) / axis;
    let travel = div_floor(mul_i128(gap, other as i128), axis);
    proof {
        lemma_product_bound(gap as int, other as int, 4096 * cs, ONE as int);
        lemma_quotient_within(gap as int, other as int, axis as int, (4096 * cs) * ONE);
    }
    let at = from as i128 + travel;
    let within = rem_floor(at, cs as i128);
    let frac = within / (bs as i128);
    proof {
        lemma_quotient_lt(within as int, bs as int, ONE as int);
    }
    let flip = match side {
        Side::Vertical => dx > 0,
        Side::Horizontal => dy < 0,
    };
    let tex_u = if flip {
        ONE as i128 - frac
    } else {
        frac
    };
    let perp = if dist < MIN_DISTANCE as i128 {
        MIN_DISTANCE as i128
    } else {
        dist
    };
    proof {
        vstd::arithmetic::div_mod::lemma_div_pos_is_pos(dist as int, bs as int);
        vstd::arithmetic::div_mod::lemma_div_nonincreasing(dist as int, bs as int);
    }
    Some(
        Hit {
            perp: perp as i64,
            perp_cells: (dist / (bs as i128)) as i64,
            tex_u: tex_u as i64,
            tile,
            side,
            dir,
        },
    )
}

/// Number of steps that a walk can take from an inner cell before it
/// must stand outside the grid: each step brings it nearer to the edge
/// that it moves toward on that axis.
pub open spec fn room(g: Grid, w: Walk, dir: (int, int)) -> int {
    (if dir.0 < 0 {
        w.cx + 1
    } else {
        g.width() - w.cx
    }) + (if dir.1 < 0 {
        w.cy + 1
    } else {
        g.height() - w.cy
    }) - 1
}

/// A walk from a cell inside the grid stands on a blocking cell after at
/// most `room` steps, because every cell outside the grid blocks.
pub proof fn lemma_walk_reaches_wall(g: Grid, w: Walk, dir: (int, int), budget: nat)
    requires
        g.in_bounds(w.cx, w.cy),
        budget >= room(g, w, dir),
    ensures
        walk_to_wall(g, w, dir, budget) is Some,
    decreases budget,
{
    let next = walk_step(g, w, dir);
    if !g.blocking(next.cx, next.cy) {
        assert(g.in_bounds(next.cx, next.cy));
        lemma_walk_reaches_wall(g, next, dir, (budget - 1) as nat);
    }
}

/// In a grid whose width and height together do not exceed the budget of
/// steps, every cast finds a wall, from whatever origin and in whatever
/// direction: the rim of the world is solid.
pub proof fn lemma_cast_always_hits(g: Grid, origin: Vec2, dir: Dir)
    requires
        g.wf(),
        g.width() + g.height() <= MAX_STEPS,
    ensures
        cast(g, origin, dir) is Some,
{
    let w0 = walk_start(g, origin, dir@);
    let next = walk_step(g, w0, dir@);
    if !g.blocking(next.cx, next.cy) {
        assert(g.in_bounds(next.cx, next.cy));
        lemma_walk_reaches_wall(g, next, dir@, (MAX_STEPS - 1) as nat);
    }
}

/// The texture coordinate of a hit is a fraction of the face: from 0 up
/// to, but not including, 1 on a face that is not mirrored, and from
/// above 0 up to 1 on a mirrored one.
pub proof fn lemma_texture_range(g: Grid, origin: Vec2, dir: (int, int), w: Walk)
    requires
        g.wf(),
    ensures
        !mirrored(dir, w.side) ==> 0 <= texture_u(g, origin, dir, w) < ONE,
        mirrored(dir, w.side) ==> 0 < texture_u(g, origin, dir, w) <= ONE,
{
    let cs = g.cell_size();
    let at = impact(g, origin, dir, w);
    assert(cs > 0) by (nonlinear_arith)
        requires
            cs == g.tile * ONE,
            g.tile > 0,
            ONE == 65536,
    ;
    vstd::arithmetic::div_mod::lemma_mod_bound(at, cs);
    lemma_quotient_lt(at % cs, g.tile, ONE as int);
}

/// The texture coordinate that a cast reports lies from 0 to 1, and below
/// 1 wherever the struck face is not mirrored.
pub proof fn lemma_cast_texture_range(g: Grid, origin: Vec2, dir: Dir)
    requires
        g.wf(),
    ensures
        cast(g, origin, dir) matches Some(h) ==> 0 <= h.tex_u <= ONE && (h.tex_u == ONE ==> mirrored(
            dir@,
            h.side,
        )),
{
    match walk_to_wall(g, walk_start(g, origin, dir@), dir@, MAX_STEPS as nat) {
        Some(w) => {
            lemma_texture_range(g, origin, dir@, w);
        },
        None => {},
    }
}

/// The index of the cell that lies `i` cells ahead of cell `c` on an
/// axis, for a ray whose component on that axis is `d`.
pub open spec fn ahead(c: int, d: int, i: int) -> int {
    if d < 0 {
        c - i
    } else {
        c + i
    }
}

/// A ray along a row goes from column to column, and stops on the first
/// blocking cell of that row.
pub proof fn lemma_walk_along_row(g: Grid, w: Walk, dir: (int, int), k: int, budget: nat)
    requires
        dir.1 == 0,
        dir.0 != 0,
        w.gy > 0,
        1 <= k <= budget,
        forall|i: int| 1 <= i < k ==> !#[trigger] g.blocking(ahead(w.cx, dir.0, i), w.cy),
        g.blocking(ahead(w.cx, dir.0, k), w.cy),
    ensures
        walk_to_wall(g, w, dir, budget) == Some(
            Walk {
                cx: ahead(w.cx, dir.0, k),
                cy: w.cy,
                gx: w.gx + k * g.cell_size(),
                gy: w.gy,
                side: Side::Vertical,
            },
        ),
    decreases k,
{
    let cs = g.cell_size();
    let next = walk_step(g, w, dir);
    assert(crosses_column_first(w, dir)) by (nonlinear_arith)
        requires
            w.gy > 0,
            magnitude(dir.0) > 0,
            magnitude(dir.1) == 0,
    ;
    assert(next.cx == ahead(w.cx, dir.0, 1));
    assert(k * cs == (k - 1) * cs + cs) by (nonlinear_arith);
    if k > 1 {
        assert(!g.blocking(ahead(w.cx, dir.0, 1), w.cy));
        assert forall|i: int| 1 <= i < k - 1 implies !#[trigger] g.blocking(
            ahead(next.cx, dir.0, i),
            next.cy,
        ) by {
            assert(ahead(next.cx, dir.0, i) == ahead(w.cx, dir.0, i + 1));
            assert(!g.blocking(ahead(w.cx, dir.0, i + 1), w.cy));
        }
        assert(ahead(next.cx, dir.0, k - 1) == ahead(w.cx, dir.0, k));
        lemma_walk_along_row(g, next, dir, k - 1, (budget - 1) as nat);
    } else {
        assert(k * cs == cs) by (nonlinear_arith)
            requires
                k == 1,
        ;
        assert(g.blocking(next.cx, next.cy));
    }
}

/// A ray along a column goes from row to row, and stops on the first
/// blocking cell of that column.
pub proof fn lemma_walk_along_column(g: Grid, w: Walk, dir: (int, int), k: int, budget: nat)
    requires
        dir.0 == 0,
        w.gx >= 0,
        1 <= k <= budget,
        forall|i: int| 1 <= i < k ==> !#[trigger] g.blocking(w.cx, ahead(w.cy, dir.1, i)),
        g.blocking(w.cx, ahead(w.cy, dir.1, k)),
    ensures
        walk_to_wall(g, w, dir, budget) == Some(
            Walk {
                cx: w.cx,
                cy: ahead(w.cy, dir.1, k),
                gx: w.gx,
                gy: w.gy + k * g.cell_size(),
                side: Side::Horizontal,
            },
        ),
    decreases k,
{
    let cs = g.cell_size();
    let next = walk_step(g, w, dir);
    assert(!crosses_column_first(w, dir)) by (nonlinear_arith)
        requires
            w.gx >= 0,
            magnitude(dir.1) >= 0,
            magnitude(dir.0) == 0,
    ;
    assert(next.cy == ahead(w.cy, dir.1, 1));
    assert(k * cs == (k - 1) * cs + cs) by (nonlinear_arith);
    if k > 1 {
        assert(!g.blocking(w.cx, ahead(w.cy, dir.1, 1)));
        assert forall|i: int| 1 <= i < k - 1 implies !#[trigger] g.blocking(
            next.cx,
            ahead(next.cy, dir.1, i),
        ) by {
            assert(ahead(next.cy, dir.1, i) == ahead(w.cy, dir.1, i + 1));
            assert(!g.blocking(w.cx, ahead(w.cy, dir.1, i + 1)));
        }
        assert(ahead(next.cy, dir.1, k - 1) == ahead(w.cy, dir.1, k));
        lemma_walk_along_column(g, next, dir, k - 1, (budget - 1) as nat);
    } else {
        assert(k * cs == cs) by (nonlinear_arith)
            requires
                k == 1,
        ;
        assert(g.blocking(next.cx, next.cy));
    }
}

/// The distance from a coordinate to the entry face of the cell `k` cells
/// ahead of its own is positive or zero, and at most `k` cells.
pub proof fn lemma_face_gap_ahead(g: Grid, o: int, d: int, k: int)
    requires
        g.wf(),
        k >= 1,
    ensures
        0 <= face_gap(g, o, ahead(g.cell_of(o), d, k), d) <= k * g.cell_size(),
        d >= 0 ==> face_gap(g, o, ahead(g.cell_of(o), d, k), d) > 0,
{
    let cs = g.cell_size();
    let c = g.cell_of(o);
    assert(cs > 0) by (nonlinear_arith)
        requires
            cs == g.tile * ONE,
            g.tile > 0,
            ONE == 65536,
    ;
    lemma_cell_bounds(o, cs);
    assert((c + k) * cs == c * cs + k * cs) by (nonlinear_arith);
    assert((c - k + 1) * cs == c * cs - k * cs + cs) by (nonlinear_arith);
    assert((c + 1) * cs == c * cs + cs) by (nonlinear_arith);
    assert(k * cs >= cs) by (nonlinear_arith)
        requires
            k >= 1,
            cs > 0,
    ;
}

/// A ray that runs exactly along a row toward a wall `k` cells ahead, with
/// no blocking cell before it, strikes that wall on a vertical face and
/// reports the exact distance from its origin to that face.
pub proof fn lemma_cast_along_row(g: Grid, origin: Vec2, dir: Dir, k: int)
    requires
        g.wf(),
        dir@.1 == 0,
        magnitude(dir@.0) == ONE,
        1 <= k <= MAX_STEPS,
        forall|i: int|
            1 <= i < k ==> !#[trigger] g.blocking(
                ahead(g.cell_of(origin.x as int), dir@.0, i),
                g.cell_of(origin.y as int),
            ),
        g.blocking(ahead(g.cell_of(origin.x as int), dir@.0, k), g.cell_of(origin.y as int)),
    ensures
        cast(g, origin, dir) matches Some(h) && h.side == Side::Vertical && h.tile == g.symbol_at(
            ahead(g.cell_of(origin.x as int), dir@.0, k),
            g.cell_of(origin.y as int),
        ) && h.perp == vstd::math::max(
            MIN_DISTANCE as int,
            face_gap(g, origin.x as int, ahead(g.cell_of(origin.x as int), dir@.0, k), dir@.0),
        ),
{
    let cs = g.cell_size();
    let w0 = walk_start(g, origin, dir@);
    lemma_walk_start(g, origin, dir@);
    lemma_walk_along_row(g, w0, dir@, k, MAX_STEPS as nat);
    let gap = face_gap(g, origin.x as int, ahead(w0.cx, dir@.0, k), dir@.0);
    lemma_face_gap_ahead(g, origin.x as int, dir@.0, k);
    vstd::arithmetic::div_mod::lemma_div_multiples_vanish(gap, ONE as int);
    assert(k * cs <= 4096 * 0xffff_ffff_0000) by (nonlinear_arith)
        requires
            1 <= k <= 4096,
            0 < cs <= 0xffff_ffff_0000,
    ;
    assert(cs <= 0xffff_ffff_0000) by (nonlinear_arith)
        requires
            cs == g.tile * ONE,
            0 < g.tile <= 0xffff_ffff,
            ONE == 65536,
    ;
}

/// A ray that runs exactly along a column toward a wall `k` cells ahead,
/// with no blocking cell before it, strikes that wall on a horizontal face
/// and reports the exact distance from its origin to that face.
pub proof fn lemma_cast_along_column(g: Grid, origin: Vec2, dir: Dir, k: int)
    requires
        g.wf(),
        dir@.0 == 0,
        magnitude(dir@.1) == ONE,
        1 <= k <= MAX_STEPS,
        forall|i: int|
            1 <= i < k ==> !#[trigger] g.blocking(
                g.cell_of(origin.x as int),
                ahead(g.cell_of(origin.y as int), dir@.1, i),
            ),
        g.blocking(g.cell_of(origin.x as int), ahead(g.cell_of(origin.y as int), dir@.1, k)),
    ensures
        cast(g, origin, dir) matches Some(h) && h.side == Side::Horizontal && h.tile
            == g.symbol_at(
            g.cell_of(origin.x as int),
            ahead(g.cell_of(origin.y as int), dir@.1, k),
        ) && h.perp == vstd::math::max(
            MIN_DISTANCE as int,
            face_gap(g, origin.y as int, ahead(g.cell_of(origin.y as int), dir@.1, k), dir@.1),
        ),
{
    let cs = g.cell_size();
    let w0 = walk_start(g, origin, dir@);
    lemma_walk_start(g, origin, dir@);
    lemma_walk_along_column(g, w0, dir@, k, MAX_STEPS as nat);
    let gap = face_gap(g, origin.y as int, ahead(w0.cy, dir@.1, k), dir@.1);
    lemma_face_gap_ahead(g, origin.y as int, dir@.1, k);
    vstd::arithmetic::div_mod::lemma_div_multiples_vanish(gap, ONE as int);
    assert(cs <= 0xffff_ffff_0000) by (nonlinear_arith)
        requires
            cs == g.tile * ONE,
            0 < g.tile <= 0xffff_ffff,
            ONE == 65536,
    ;
    assert(k * cs <= 4096 * 0xffff_ffff_0000) by (nonlinear_arith)
        requires
            1 <= k <= 4096,
            0 < cs <= 0xffff_ffff_0000,
    ;
}

/// What column `x` of a screen `screen_h` rows high shows, for a camera
/// at `origin` and a ray through that column in the direction `dir`:
/// the strip of the wall that the ray strikes, or nothing where it
/// strikes none.
pub open spec fn column(g: Grid, origin: Vec2, dir: Dir, x: usize, screen_h: int) -> Option<
    WallSlice,
> {
    match cast(g, origin, dir) {
        Some(h) => Some(slice_of(h, x, screen_h, g.tile)),
        None => None,
    }
}

/// What a screen shows: for each ray, from the left, its column.
pub open spec fn frame(g: Grid, origin: Vec2, rays: Seq<Dir>, screen_h: int) -> Seq<
    Option<WallSlice>,
> {
    Seq::new(rays.len(), |x: int| column(g, origin, rays[x], x as usize, screen_h))
}

/// The angles of the rays through the columns of a screen `screen_w`
/// columns wide, from the left, for the player's heading.
pub fn ray_angles(player: &Player, screen_w: u32) -> (angles: Vec<i64>)
    ensures
        angles@.len() == screen_w,
        forall|x: int|
            0 <= x < screen_w ==> #[trigger] angles@[x] == ray_angle(
                player@.heading,
                x,
                screen_w as int,
            ),
{
    let heading = player.heading();
    let mut angles: Vec<i64> = Vec::new();
    let mut x: u32 = 0;
    while x < screen_w
        invariant
            x <= screen_w,
            heading == player@.heading,
            -0x4_0000 < heading < 0x4_0000,
            angles@.len() == x,
            forall|k: int|
                0 <= k < x ==> #[trigger] angles@[k] == ray_angle(
                    player@.heading,
                    k,
                    screen_w as int,
                ),
        decreases screen_w - x,
    {
        let off: i128 = 2 * (x as i128) - screen_w as i128;
        let num = mul_i128(off, HALF_FOV as i128);
        proof {
            lemma_product_bound(off as int, HALF_FOV as int, screen_w as int, HALF_FOV as int);
            assert(screen_w * HALF_FOV == HALF_FOV * screen_w) by (nonlinear_arith);
            lemma_trunc_div_magnitude_le(num as int, screen_w as int, HALF_FOV as int);
        }
        let share = num / (screen_w as i128);
        angles.push((heading as i128 + share) as i64);
        x = x + 1;
    }
    angles
}

/// Projects the walls onto the columns of a screen `screen_h` rows high:
/// casts one ray per column from where the player stands, in the
/// directions given from the left column to the right, and turns each hit
/// into the strip that the column shows. A column whose ray strikes
/// nothing shows nothing.
pub fn render_3d_scene(maze: &Maze, player: &Player, rays: &Vec<Dir>, screen_h: u32) -> (slices:
    Vec<Option<WallSlice>>)
    ensures
        slices@ == frame(maze@, player@.pos, rays@, screen_h as int),
{
    let origin = player.pos();
    let tile = maze.block_size();
    let mut slices: Vec<Option<WallSlice>> = Vec::new();
    let mut x: usize = 0;
    while x < rays.len()
        invariant
            x <= rays@.len(),
            origin == player@.pos,
            tile == maze@.tile,
            slices@.len() == x,
            forall|k: int|
                0 <= k < x ==> #[trigger] slices@[k] == column(
                    maze@,
                    origin,
                    rays@[k],
                    k as usize,
                    screen_h as int,
                ),
        decreases rays@.len() - x,
    {
        let slice = match cast_ray(maze, origin, rays[x]) {
            Some(hit) => Some(wall_slice(&hit, x, screen_h, tile)),
            None => None,
        };
        slices.push(slice);
        x = x + 1;
    }
    assert(slices@ =~= frame(maze@, origin, rays@, screen_h as int));
    slices
}

/// Whether the point where the ray meets the struck face lies on that
/// face: between the two grid lines that bound the struck cell.
pub open spec fn on_face(g: Grid, origin: Vec2, dir: (int, int), w: Walk) -> bool {
    let at = impact(g, origin, dir, w);
    match w.side {
        Side::Vertical => w.cy * g.cell_size() <= at <= (w.cy + 1) * g.cell_size(),
        Side::Horizontal => w.cx * g.cell_size() <= at <= (w.cx + 1) * g.cell_size(),
    }
}

/// Along the face, the impact lies between its two ends: `far` is the gap
/// of the other axis, `gap` the distance travelled along the crossed
/// axis, `a` and `d` the components of the direction.
proof fn lemma_impact_between(gap: int, a: int, d: int, far: int, cs: int)
    requires
        a > 0,
        gap >= 0,
        gap * magnitude(d) <= far * a,
        (far - cs) * a <= gap * magnitude(d),
    ensures
        d >= 0 ==> far - cs <= (gap * d) / a <= far,
        d < 0 ==> -far <= (gap * d) / a <= cs - far,
{
    let n = gap * d;
    if d >= 0 {
        lemma_quotient_le(n, a, far);
        lemma_quotient_ge(n, a, far - cs);
    } else {
        assert(n == -(gap * magnitude(d))) by (nonlinear_arith)
            requires
                n == gap * d,
                magnitude(d) == -d,
        ;
        assert((-far) * a == -(far * a)) by (nonlinear_arith);
        assert((cs - far) * a == -((far - cs) * a)) by (nonlinear_arith);
        lemma_quotient_ge(n, a, -far);
        lemma_quotient_le(n, a, cs - far);
    }
}

/// The walk is exact: where it has just crossed a line, the ray meets
/// that line within the cell that the walk stands on.
pub proof fn lemma_impact_on_face(g: Grid, origin: Vec2, dir: (int, int), w: Walk, k: int)
    requires
        g.wf(),
        k >= 1,
        walk_inv(g, origin, dir, w, k),
        just_stepped(g, dir, w),
    ensures
        on_face(g, origin, dir, w),
{
    let cs = g.cell_size();
    match w.side {
        Side::Vertical => {
            lemma_face_gap(g, origin.x as int, w.cx, dir.0);
            assert((w.cy + 1) * cs == w.cy * cs + cs) by (nonlinear_arith);
            lemma_impact_between(w.gx - cs, magnitude(dir.0), dir.1, w.gy, cs);
        },
        Side::Horizontal => {
            lemma_face_gap(g, origin.y as int, w.cy, dir.1);
            assert((w.cx + 1) * cs == w.cx * cs + cs) by (nonlinear_arith);
            lemma_impact_between(w.gy - cs, magnitude(dir.1), dir.0, w.gx, cs);
        },
    }
}

/// A walk that reaches a wall has taken at least one step and keeps what
/// holds of walks.
pub proof fn lemma_walk_to_wall(
    g: Grid,
    origin: Vec2,
    dir: (int, int),
    w: Walk,
    k: int,
    budget: nat,
) -> (steps: int)
    requires
        g.wf(),
        is_direction(dir.0, dir.1),
        k >= 0,
        walk_inv(g, origin, dir, w, k),
        walk_to_wall(g, w, dir, budget) is Some,
    ensures
        k < steps <= k + budget,
        walk_inv(g, origin, dir, walk_to_wall(g, w, dir, budget)->0, steps),
        just_stepped(g, dir, walk_to_wall(g, w, dir, budget)->0),
        g.blocking(
            walk_to_wall(g, w, dir, budget)->0.cx,
            walk_to_wall(g, w, dir, budget)->0.cy,
        ),
    decreases budget,
{
    let next = walk_step(g, w, dir);
    lemma_walk_step(g, origin, dir, w, k);
    if g.blocking(next.cx, next.cy) {
        k + 1
    } else {
        lemma_walk_to_wall(g, origin, dir, next, k + 1, (budget - 1) as nat)
    }
}

/// Every hit is a hit of the ray: the cell that a cast reports blocks,
/// and the ray meets the reported face of that cell between the lines
/// that bound the cell.
pub proof fn lemma_cast_is_exact(g: Grid, origin: Vec2, dir: Dir)
    requires
        g.wf(),
        is_direction(dir@.0, dir@.1),
    ensures
        walk_to_wall(g, walk_start(g, origin, dir@), dir@, MAX_STEPS as nat) matches Some(w)
            ==> g.blocking(w.cx, w.cy) && on_face(g, origin, dir@, w) && cast(g, origin, dir)
            == Some(hit_of(g, origin, dir, w)),
{
    let w0 = walk_start(g, origin, dir@);
    lemma_walk_start(g, origin, dir@);
    if walk_to_wall(g, w0, dir@, MAX_STEPS as nat) is Some {
        let steps = lemma_walk_to_wall(g, origin, dir@, w0, 0, MAX_STEPS as nat);
        let w = walk_to_wall(g, w0, dir@, MAX_STEPS as nat)->0;
        lemma_impact_on_face(g, origin, dir@, w, steps);
    }
}

} // verus!
