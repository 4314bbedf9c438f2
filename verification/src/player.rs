//! The player: a position, a heading, and movement that slides along
//! walls.
//!
//! One tick turns the heading by what the controls ask for, then moves
//! the position by the intended displacement, one axis at a time: each
//! axis is taken only where the player's bounding box, moved along that
//! axis alone, touches no blocking cell.

use crate::fixed::{
    fits_i64, fx_mul, fx_prod, int_sqrt, isqrt, lemma_fx_prod_bound, lemma_product_bound,
    lemma_trunc_div_magnitude_le, magnitude, mul_i128, rem_floor, trunc_div, wide_prod, HALF, ONE,
};
use crate::geometry::{Dir, Vec2};
use crate::maze::{cell_index, Grid, Maze, DOOR, SPAWN};
use vstd::prelude::*;

verus! {

/// Half a turn, in raw radians.
pub const PI: i64 = 205887;

/// A whole turn, in raw radians.
pub const TWO_PI: i64 = 411774;

/// Walking speed of a new player, in raw world units per second.
pub const WALK_SPEED: i64 = 11141120;

/// The largest walking speed that a player can have.
pub const MAX_WALK_SPEED: i64 = 0x1_0000_0000;

/// Half the edge of the player's bounding box, in raw world units.
pub const COLLISION_RADIUS: i64 = 786432;

/// Raw radians of turn per raw unit of pointer movement.
pub const MOUSE_SENSITIVITY: i64 = 210;

/// Raw radians per second that the right stick turns at full deflection.
pub const PAD_TURN_SPEED: i64 = 235930;

/// Raw radians per second that the directional pad turns.
pub const DPAD_TURN_SPEED: i64 = 170394;

/// Raw radians per second that the turn keys turn.
pub const KEY_TURN_SPEED: i64 = 183501;

/// Factor by which each sprint control multiplies the speed.
pub const SPRINT_FACTOR: i64 = 88474;

/// Deflection below which a stick counts as centred.
pub const STICK_DEADZONE: i64 = 11796;

/// The state of a gamepad in one tick. Axes are raw values, -1 to 1 at
/// full deflection.
#[derive(Clone, Copy, Debug)]
pub struct Pad {
    /// The right stick, from left to right: turns.
    pub right_x: i32,
    /// The left stick, from left to right: strafes.
    pub left_x: i32,
    /// The left stick, from up to down: walks back where it is positive.
    pub left_y: i32,
    /// Whether the directional pad is held to the left.
    pub dpad_left: bool,
    /// Whether the directional pad is held to the right.
    pub dpad_right: bool,
    /// Whether the sprint button is held.
    pub sprint: bool,
}

/// Everything that the input devices ask for in one tick.
#[derive(Clone, Copy, Debug)]
pub struct Controls {
    /// Pointer movement along the screen's width since the last tick, raw.
    pub mouse_dx: i32,
    /// The gamepad, where one is connected.
    pub pad: Option<Pad>,
    /// Whether the key that turns left is held.
    pub turn_left: bool,
    /// Whether the key that turns right is held.
    pub turn_right: bool,
    /// Whether the key that walks forward is held.
    pub forward: bool,
    /// Whether the key that walks back is held.
    pub back: bool,
    /// Whether the key that strafes left is held.
    pub strafe_left: bool,
    /// Whether the key that strafes right is held.
    pub strafe_right: bool,
    /// Whether the sprint key is held.
    pub sprint: bool,
}

/// The mathematical model of a player.
pub struct Pose {
    /// Where the player stands.
    pub pos: Vec2,
    /// The heading in raw radians.
    pub heading: int,
    /// The walking speed in raw world units per second.
    pub walk_speed: int,
}

/// The angle in the range from above `-PI` to `PI` that differs from `a`
/// by whole turns.
pub open spec fn wrap_angle(a: int) -> int {
    PI - ((PI - a) % (TWO_PI as int))
}

/// A stick's deflection, or 0 where it is within the dead zone.
pub open spec fn dead(v: int, dz: int) -> int {
    if magnitude(v) < dz {
        0
    } else {
        v
    }
}

/// `v` where the control is held, else 0.
pub open spec fn held(b: bool, v: int) -> int {
    if b {
        v
    } else {
        0
    }
}

/// Turn that a gamepad asks for in a tick of `dt` raw seconds.
pub open spec fn pad_turn(p: Pad, dt: int) -> int {
    fx_prod(fx_prod(dead(p.right_x as int, STICK_DEADZONE as int), PAD_TURN_SPEED as int), dt)
        + held(p.dpad_right, fx_prod(DPAD_TURN_SPEED as int, dt)) - held(
        p.dpad_left,
        fx_prod(DPAD_TURN_SPEED as int, dt),
    )
}

/// Turn that all controls together ask for in a tick of `dt` raw seconds.
pub open spec fn turn_delta(c: Controls, dt: int) -> int {
    fx_prod(c.mouse_dx as int, MOUSE_SENSITIVITY as int) + (match c.pad {
        Some(p) => pad_turn(p, dt),
        None => 0,
    }) + held(c.turn_right, fx_prod(KEY_TURN_SPEED as int, dt)) - held(
        c.turn_left,
        fx_prod(KEY_TURN_SPEED as int, dt),
    )
}

/// The movement that the controls ask for, in the player's own frame:
/// forward, and to the right.
pub open spec fn intent(c: Controls) -> (int, int) {
    let pad = match c.pad {
        Some(p) => (
            -dead(p.left_y as int, STICK_DEADZONE as int),
            dead(p.left_x as int, STICK_DEADZONE as int),
        ),
        None => (0, 0),
    };
    (
        held(c.forward, ONE as int) - held(c.back, ONE as int) + pad.0,
        held(c.strafe_right, ONE as int) - held(c.strafe_left, ONE as int) + pad.1,
    )
}

/// The speed of a tick: the walking speed, times the sprint factor for
/// each sprint control that is held.
pub open spec fn speed_of(c: Controls, walk: int) -> int {
    let base = if c.pad matches Some(p) && p.sprint {
        fx_prod(walk, SPRINT_FACTOR as int)
    } else {
        walk
    };
    if c.sprint {
        fx_prod(base, SPRINT_FACTOR as int)
    } else {
        base
    }
}

/// The intent turned into the world's frame, for a heading whose cosine
/// and sine are `h`: forward along the heading, right along the heading
/// turned by a quarter.
pub open spec fn world_delta(i: (int, int), h: (int, int)) -> (int, int) {
    (fx_prod(h.0, i.0) - fx_prod(h.1, i.1), fx_prod(h.1, i.0) + fx_prod(h.0, i.1))
}

/// Length of a vector, rounded down.
pub open spec fn length_of(v: (int, int)) -> int {
    int_sqrt(v.0 * v.0 + v.1 * v.1)
}

/// The vector scaled to length 1; the zero vector stays as it is.
pub open spec fn unit_of(v: (int, int)) -> (int, int) {
    let len = length_of(v);
    if len > 0 {
        (trunc_div(v.0 * ONE, len), trunc_div(v.1 * ONE, len))
    } else {
        v
    }
}

/// The displacement of one tick: the direction of the intent in the
/// world, at the tick's speed for `dt` raw seconds.
pub open spec fn displacement(c: Controls, h: (int, int), walk: int, dt: int) -> (int, int) {
    let mv = world_delta(intent(c), h);
    if mv == (0int, 0int) {
        (0, 0)
    } else {
        let u = unit_of(mv);
        let step = fx_prod(speed_of(c, walk), dt);
        (fx_prod(u.0, step), fx_prod(u.1, step))
    }
}

/// Whether the box of half-edge `r` around `(x, y)` has a corner in a
/// blocking cell.
pub open spec fn collides_at(g: Grid, x: int, y: int, r: int) -> bool {
    ||| g.blocking(g.cell_of(x - r), g.cell_of(y - r))
    ||| g.blocking(g.cell_of(x + r), g.cell_of(y - r))
    ||| g.blocking(g.cell_of(x - r), g.cell_of(y + r))
    ||| g.blocking(g.cell_of(x + r), g.cell_of(y + r))
}

/// Whether the player can stand at `(x, y)`: both coordinates can be
/// held in 64 bits, and the box there touches no blocking cell.
pub open spec fn free_at(g: Grid, x: int, y: int, r: int) -> bool {
    fits_i64(x) && fits_i64(y) && !collides_at(g, x, y, r)
}

/// Where a move by `delta` from `pos` ends: first the move along `x` is
/// taken if the place it leads to is free, then the move along `y`, from
/// wherever the first left the player.
pub open spec fn slide(g: Grid, pos: Vec2, delta: (int, int), r: int) -> Vec2 {
    let x1 = if free_at(g, pos.x + delta.0, pos.y as int, r) {
        (pos.x + delta.0) as i64
    } else {
        pos.x
    };
    let y1 = if free_at(g, x1 as int, pos.y + delta.1, r) {
        (pos.y + delta.1) as i64
    } else {
        pos.y
    };
    Vec2 { x: x1, y: y1 }
}

/// A stick's deflection, or 0 where it is within the dead zone `dz`.
pub fn deadzone(v: i64, dz: i64) -> (r: i64)
    ensures
        r == dead(v as int, dz as int),
{
    if dz > 0 && v < dz && v > -dz {
        0
    } else {
        v
    }
}

/// Product of two raw values whose size is known, as a 64-bit value.
fn scaled(a: i64, b: i64, Ghost(ma): Ghost<int>, Ghost(mb): Ghost<int>) -> (r: i64)
    requires
        magnitude(a as int) <= ma,
        magnitude(b as int) <= mb * ONE,
        ma * mb <= i64::MAX,
    ensures
        r == fx_prod(a as int, b as int),
        magnitude(r as int) <= ma * mb,
{
    proof {
        lemma_fx_prod_bound(a as int, b as int, ma, mb);
    }
    fx_mul(a, b) as i64
}

/// The angle in the range from above `-PI` to `PI` that differs from `a`
/// by whole turns.
pub fn wrap(a: i64) -> (r: i64)
    ensures
        r == wrap_angle(a as int),
        -PI < r <= PI,
{
    wrap_sum(a, 0)
}

/// The sum of two angles, brought into the range from above `-PI` to `PI`.
fn wrap_sum(a: i64, b: i64) -> (r: i64)
    ensures
        r == wrap_angle(a + b),
        -PI < r <= PI,
{
    let sum: i128 = a as i128 + b as i128;
    let m = rem_floor(PI as i128 - sum, TWO_PI as i128);
    (PI as i128 - m) as i64
}

/// Whether the box of half-edge `r` around `(x, y)` has a corner in a
/// blocking cell of the maze.
pub fn collides(maze: &Maze, x: i64, y: i64, r: i64) -> (hit: bool)
    ensures
        hit == collides_at(maze@, x as int, y as int, r as int),
{
    let bs = maze.block_size();
    let lo_x = cell_index(x as i128 - r as i128, bs);
    let hi_x = cell_index(x as i128 + r as i128, bs);
    let lo_y = cell_index(y as i128 - r as i128, bs);
    let hi_y = cell_index(y as i128 + r as i128, bs);
    maze.blocks_at(lo_x, lo_y) || maze.blocks_at(hi_x, lo_y) || maze.blocks_at(lo_x, hi_y)
        || maze.blocks_at(hi_x, hi_y)
}

/// The vector scaled to length 1; the zero vector stays as it is.
pub fn norm(v: Vec2) -> (u: Vec2)
    ensures
        (u.x as int, u.y as int) == unit_of((v.x as int, v.y as int)),
        magnitude(u.x as int) <= ONE || (v.x == 0 && v.y == 0),
        magnitude(u.y as int) <= ONE || (v.x == 0 && v.y == 0),
{
    let xx = wide_prod(v.x, v.x);
    let yy = wide_prod(v.y, v.y);
    proof {
        assert(xx >= 0 && yy >= 0) by (nonlinear_arith)
            requires
                xx == v.x * v.x,
                yy == v.y * v.y,
        ;
    }
    let sum: u128 = xx as u128 + yy as u128;
    let len = isqrt(sum);
    if len > 0 {
        proof {
            lemma_component_within_length(v.x as int, v.y as int, len as int);
            lemma_component_within_length(v.y as int, v.x as int, len as int);
            lemma_product_bound(v.x as int, ONE as int, len as int, ONE as int);
            lemma_product_bound(v.y as int, ONE as int, len as int, ONE as int);
            assert(len * ONE == ONE * len) by (nonlinear_arith);
            lemma_trunc_div_magnitude_le(v.x * ONE, len as int, ONE as int);
            lemma_trunc_div_magnitude_le(v.y * ONE, len as int, ONE as int);
        }
        let ux = wide_prod(v.x, ONE) / (len as i128);
        let uy = wide_prod(v.y, ONE) / (len as i128);
        Vec2 { x: ux as i64, y: uy as i64 }
    } else {
        proof {
            lemma_component_within_length(v.x as int, v.y as int, 0);
            lemma_component_within_length(v.y as int, v.x as int, 0);
        }
        v
    }
}

/// No component of a vector is longer than the vector.
pub proof fn lemma_component_within_length(x: int, y: int, len: int)
    by (nonlinear_arith)
    requires
        0 <= len,
        x * x + y * y < (len + 1) * (len + 1),
    ensures
        -len <= x <= len,
{
    if x > len {
        assert(x * x >= (len + 1) * (len + 1));
    }
    if x < -len {
        assert(x * x >= (len + 1) * (len + 1));
    }
}

/// A player in the world.
pub struct Player {
    pos: Vec2,
    a: i64,
    walk_speed: i64,
}

impl View for Player {
    type V = Pose;

    closed spec fn view(&self) -> Pose {
        Pose { pos: self.pos, heading: self.a as int, walk_speed: self.walk_speed as int }
    }
}

impl Player {
    /// The heading lies in the range from above `-PI` to `PI`, and the
    /// walking speed is not negative and not above the largest one.
    #[verifier::type_invariant]
    pub closed spec fn inv(&self) -> bool {
        &&& -PI < self.a <= PI
        &&& 0 <= self.walk_speed <= MAX_WALK_SPEED
    }

    /// A player at `pos` who looks along the rows toward greater `x` and
    /// walks at `WALK_SPEED`.
    pub fn new(pos: Vec2) -> (p: Player)
        ensures
            p@ == (Pose { pos, heading: 0, walk_speed: WALK_SPEED as int }),
    {
        Player { pos, a: 0, walk_speed: WALK_SPEED }
    }

    /// Where the player stands.
    pub fn pos(&self) -> (p: Vec2)
        ensures
            p == self@.pos,
    {
        self.pos
    }

    /// The heading in raw radians, in the range from above `-PI` to `PI`.
    pub fn heading(&self) -> (a: i64)
        ensures
            a == self@.heading,
            -PI < a <= PI,
    {
        proof {
            use_type_invariant(self);
        }
        self.a
    }

    /// The walking speed in raw world units per second.
    pub fn walk_speed(&self) -> (s: i64)
        ensures
            s == self@.walk_speed,
            0 <= s <= MAX_WALK_SPEED,
    {
        proof {
            use_type_invariant(self);
        }
        self.walk_speed
    }

    /// Turns the heading by `delta` raw radians.
    pub fn turn(&mut self, delta: i64)
        ensures
            final(self)@ == (Pose { heading: wrap_angle(old(self)@.heading + delta), ..old(self)@ }),
    {
        proof {
            use_type_invariant(&*self);
        }
        self.a = wrap_sum(self.a, delta);
    }

    /// The heading that `update` will leave for these controls and this
    /// length of tick.
    pub fn heading_after(&self, controls: &Controls, dt: u32) -> (a: i64)
        ensures
            a == wrap_angle(self@.heading + turn_delta(*controls, dt as int)),
            -PI < a <= PI,
    {
        proof {
            use_type_invariant(self);
        }
        wrap_sum(self.a, turn_of(controls, dt))
    }

    /// Moves by `delta` as far as the maze lets the player: along `x` if
    /// the box fits there, then along `y` if it fits there.
    pub fn try_move(&mut self, maze: &Maze, delta: Vec2)
        ensures
            final(self)@ == (Pose {
                pos: slide(
                    maze@,
                    old(self)@.pos,
                    (delta.x as int, delta.y as int),
                    COLLISION_RADIUS as int,
                ),
                ..old(self)@
            }),
    {
        proof {
            use_type_invariant(&*self);
        }
        let nx: i128 = self.pos.x as i128 + delta.x as i128;
        let ny: i128 = self.pos.y as i128 + delta.y as i128;
        if nx >= i64::MIN as i128 && nx <= i64::MAX as i128 {
            if !collides(maze, nx as i64, self.pos.y, COLLISION_RADIUS) {
                self.pos.x = nx as i64;
            }
        }
        if ny >= i64::MIN as i128 && ny <= i64::MAX as i128 {
            if !collides(maze, self.pos.x, ny as i64, COLLISION_RADIUS) {
                self.pos.y = ny as i64;
            }
        }
    }

    /// One tick: turns the heading by what the controls ask for, then
    /// moves by the tick's displacement with sliding collision. `facing`
    /// is the cosine and sine of the heading after the turn, that is of
    /// `heading_after`. Reports whether the position changed.
    pub fn update(&mut self, controls: &Controls, facing: Dir, maze: &Maze, dt: u32) -> (moved: bool)
        ensures
            final(self)@ == (Pose {
                pos: slide(
                    maze@,
                    old(self)@.pos,
                    displacement(*controls, facing@, old(self)@.walk_speed, dt as int),
                    COLLISION_RADIUS as int,
                ),
                heading: wrap_angle(old(self)@.heading + turn_delta(*controls, dt as int)),
                walk_speed: old(self)@.walk_speed,
            }),
            moved == (final(self)@.pos != old(self)@.pos),
    {
        proof {
            use_type_invariant(&*self);
        }
        let before = self.pos;
        self.a = self.heading_after(controls, dt);
        let delta = displacement_of(controls, facing, self.walk_speed, dt);
        if delta.x != 0 || delta.y != 0 {
            self.try_move(maze, delta);
        }
        self.pos.x != before.x || self.pos.y != before.y
    }
}

/// `v` where the control is held, else 0.
fn if_held(b: bool, v: i64) -> (r: i64)
    ensures
        r == held(b, v as int),
{
    if b {
        v
    } else {
        0
    }
}

/// Turn that all controls together ask for in a tick of `dt` raw seconds.
pub fn turn_of(controls: &Controls, dt: u32) -> (t: i64)
    ensures
        t == turn_delta(*controls, dt as int),
        magnitude(t as int) <= 0x8_0000_0000_0000,
{
    let mouse = scaled(controls.mouse_dx as i64, MOUSE_SENSITIVITY, Ghost(0x8000_0000), Ghost(1));
    let key = scaled(KEY_TURN_SPEED, dt as i64, Ghost(183501), Ghost(65536));
    let pad: i64 = match controls.pad {
        Some(p) => {
            let rx = deadzone(p.right_x as i64, STICK_DEADZONE);
            let rate = scaled(rx, PAD_TURN_SPEED, Ghost(0x8000_0000), Ghost(4));
            let stick = scaled(rate, dt as i64, Ghost(0x2_0000_0000), Ghost(65536));
            let dpad = scaled(DPAD_TURN_SPEED, dt as i64, Ghost(170394), Ghost(65536));
            stick + if_held(p.dpad_right, dpad) - if_held(p.dpad_left, dpad)
        },
        None => 0,
    };
    mouse + pad + if_held(controls.turn_right, key) - if_held(controls.turn_left, key)
}

/// The movement that the controls ask for, in the player's own frame.
pub fn intent_of(controls: &Controls) -> (i: (i64, i64))
    ensures
        (i.0 as int, i.1 as int) == intent(*controls),
        magnitude(i.0 as int) <= 0x1_0000_0000,
        magnitude(i.1 as int) <= 0x1_0000_0000,
{
    let (pf, ps): (i64, i64) = match controls.pad {
        Some(p) => (
            -deadzone(p.left_y as i64, STICK_DEADZONE),
            deadzone(p.left_x as i64, STICK_DEADZONE),
        ),
        None => (0, 0),
    };
    (
        if_held(controls.forward, ONE) - if_held(controls.back, ONE) + pf,
        if_held(controls.strafe_right, ONE) - if_held(controls.strafe_left, ONE) + ps,
    )
}

/// The speed of a tick, for a walking speed of `walk`.
pub fn speed(controls: &Controls, walk: i64) -> (s: i64)
    requires
        0 <= walk <= MAX_WALK_SPEED,
    ensures
        s == speed_of(*controls, walk as int),
        magnitude(s as int) <= 0x4_0000_0000,
{
    let pad_sprint = match controls.pad {
        Some(p) => p.sprint,
        None => false,
    };
    let base = if pad_sprint {
        scaled(walk, SPRINT_FACTOR, Ghost(0x1_0000_0000), Ghost(2))
    } else {
        walk
    };
    if controls.sprint {
        scaled(base, SPRINT_FACTOR, Ghost(0x2_0000_0000), Ghost(2))
    } else {
        base
    }
}

/// The displacement of one tick, for a heading whose cosine and sine are
/// `facing`.
pub fn displacement_of(controls: &Controls, facing: Dir, walk: i64, dt: u32) -> (d: Vec2)
    requires
        0 <= walk <= MAX_WALK_SPEED,
    ensures
        (d.x as int, d.y as int) == displacement(*controls, facing@, walk as int, dt as int),
{
    let i = intent_of(controls);
    let c = facing.x();
    let s = facing.y();
    let fc = scaled(c, i.0, Ghost(65536), Ghost(65536));
    let fs = scaled(s, i.0, Ghost(65536), Ghost(65536));
    let tc = scaled(c, i.1, Ghost(65536), Ghost(65536));
    let ts = scaled(s, i.1, Ghost(65536), Ghost(65536));
    let mv = Vec2 { x: fc - ts, y: fs + tc };
    if mv.x == 0 && mv.y == 0 {
        return Vec2 { x: 0, y: 0 };
    }
    let u = norm(mv);
    let step = scaled(speed(controls, walk), dt as i64, Ghost(0x4_0000_0000), Ghost(65536));
    let x = scaled(u.x, step, Ghost(65536), Ghost(0x4_0000_0000));
    let y = scaled(u.y, step, Ghost(65536), Ghost(0x4_0000_0000));
    Vec2 { x, y }
}

/// Where a player starts in a level: in the middle of the first cell that
/// holds the spawn symbol, and in the middle of the cell in column 1 and
/// row 1 where the level names no place to start.
pub open spec fn spawn_point(g: Grid) -> Vec2 {
    match g.marker(SPAWN) {
        Some(p) => p,
        None => Vec2 { x: g.center(1) as i64, y: g.center(1) as i64 },
    }
}

/// The point half a tile ahead of `pos`, for a heading whose cosine and
/// sine are `h`.
pub open spec fn point_ahead(g: Grid, pos: Vec2, h: (int, int)) -> (int, int) {
    (pos.x + fx_prod(h.0, g.tile * HALF), pos.y + fx_prod(h.1, g.tile * HALF))
}

/// Whether the cell half a tile ahead of `pos` is a door.
pub open spec fn door_ahead(g: Grid, pos: Vec2, h: (int, int)) -> bool {
    g.symbol_at(g.cell_of(point_ahead(g, pos, h).0), g.cell_of(point_ahead(g, pos, h).1)) == DOOR
}

/// A new player at the place where the level lets players start.
pub fn spawn_player_from_maze(maze: &Maze) -> (p: Player)
    ensures
        p@ == (Pose { pos: spawn_point(maze@), heading: 0, walk_speed: WALK_SPEED as int }),
{
    match maze.find_marker(SPAWN) {
        Some(place) => Player::new(place),
        None => {
            let bs = maze.block_size();
            let mid = mul_i128(3, mul_i128(bs as i128, HALF as i128));
            assert(0 <= mid <= 3 * (0xffff_ffff * 32768)) by {
                assert(0 <= bs * HALF <= 0xffff_ffff * 32768);
            }
            Player::new(Vec2 { x: mid as i64, y: mid as i64 })
        },
    }
}

/// Whether the player stands in front of a door: the cell half a tile
/// ahead, along a heading whose cosine and sine are `facing`, is one.
pub fn is_near_door_use(maze: &Maze, player: &Player, facing: Dir) -> (near: bool)
    ensures
        near == door_ahead(maze@, player@.pos, facing@),
{
    let bs = maze.block_size();
    let reach = mul_i128(bs as i128, HALF as i128);
    assert(0 <= reach <= 0x8000_0000 * ONE) by {
        assert(0 <= bs * HALF <= 0xffff_ffff * 32768);
    }
    let ax = scaled(facing.x(), reach as i64, Ghost(65536), Ghost(0x8000_0000));
    let ay = scaled(facing.y(), reach as i64, Ghost(65536), Ghost(0x8000_0000));
    let pos = player.pos();
    let i = cell_index(pos.x as i128 + ax as i128, bs);
    let j = cell_index(pos.y as i128 + ay as i128, bs);
    maze.cell_at(i, j) == DOOR
}

/// Raw distance that a player walks between two steps that can be heard.
pub const STEP_LENGTH: i64 = 2228224;

/// The distance walked since the last step, after a walk of length `len`
/// is added to `walked`, and whether a step falls in that walk. One walk
/// holds at most one step; what it is longer by stays for the next. A
/// distance that 64 bits cannot hold is cut to the largest that they can.
pub open spec fn after_walk(walked: int, len: int) -> (int, bool) {
    if len <= 0 {
        (walked, false)
    } else if walked + len >= STEP_LENGTH {
        (crate::fixed::clamp_to(walked + len - STEP_LENGTH, 0, i64::MAX as int), true)
    } else {
        (walked + len, false)
    }
}

/// Measures the way that a player walks, and tells where steps fall.
pub struct StepMeter {
    walked: i64,
}

impl View for StepMeter {
    type V = int;

    closed spec fn view(&self) -> int {
        self.walked as int
    }
}

impl StepMeter {
    #[verifier::type_invariant]
    pub closed spec fn inv(&self) -> bool {
        self.walked >= 0
    }

    /// A meter that has measured nothing.
    pub fn new() -> (m: StepMeter)
        ensures
            m@ == 0,
    {
        StepMeter { walked: 0 }
    }

    /// Raw distance walked since the last step.
    pub fn walked(&self) -> (w: i64)
        ensures
            w == self@,
            w >= 0,
    {
        proof {
            use_type_invariant(self);
        }
        self.walked
    }

    /// Forgets what was measured.
    pub fn reset(&mut self)
        ensures
            final(self)@ == 0,
    {
        self.walked = 0;
    }

    /// Adds a walk by the displacement `by`, and reports whether a step
    /// falls in it.
    pub fn advance(&mut self, by: Vec2) -> (step: bool)
        ensures
            (final(self)@, step) == after_walk(
                old(self)@,
                length_of((by.x as int, by.y as int)),
            ),
    {
        proof {
            use_type_invariant(&*self);
        }
        let xx = wide_prod(by.x, by.x);
        let yy = wide_prod(by.y, by.y);
        proof {
            assert(xx >= 0 && yy >= 0) by (nonlinear_arith)
                requires
                    xx == by.x * by.x,
                    yy == by.y * by.y,
            ;
        }
        let len = isqrt(xx as u128 + yy as u128);
        if len == 0 {
            return false;
        }
        let total: i128 = self.walked as i128 + len as i128;
        if total >= STEP_LENGTH as i128 {
            let rest = total - STEP_LENGTH as i128;
            self.walked = if rest > i64::MAX as i128 {
                i64::MAX
            } else {
                rest as i64
            };
            true
        } else {
            self.walked = total as i64;
            false
        }
    }
}

/// A move along `x` alone into a place where the box would touch a
/// blocking cell leaves the player where it is.
pub proof fn lemma_blocked_along_x_stays(g: Grid, pos: Vec2, dx: int, r: int)
    requires
        collides_at(g, pos.x + dx, pos.y as int, r),
    ensures
        slide(g, pos, (dx, 0), r) == pos,
{
}

/// A move along `y` alone into a place where the box would touch a
/// blocking cell leaves the player where it is.
pub proof fn lemma_blocked_along_y_stays(g: Grid, pos: Vec2, dy: int, r: int)
    requires
        collides_at(g, pos.x as int, pos.y + dy, r),
    ensures
        slide(g, pos, (0, dy), r) == pos,
{
}

/// A diagonal move whose part along `x` is blocked and whose part along
/// `y` is free slides along `y`: `x` stays and `y` advances by the whole
/// of its part.
pub proof fn lemma_slides_along_y(g: Grid, pos: Vec2, delta: (int, int), r: int)
    requires
        collides_at(g, pos.x + delta.0, pos.y as int, r),
        free_at(g, pos.x as int, pos.y + delta.1, r),
    ensures
        slide(g, pos, delta, r).x == pos.x,
        slide(g, pos, delta, r).y == pos.y + delta.1,
{
}

/// A diagonal move whose part along `x` is free and whose part along `y`
/// is blocked from there slides along `x`: `y` stays and `x` advances by
/// the whole of its part.
pub proof fn lemma_slides_along_x(g: Grid, pos: Vec2, delta: (int, int), r: int)
    requires
        free_at(g, pos.x + delta.0, pos.y as int, r),
        collides_at(g, pos.x + delta.0, pos.y + delta.1, r),
    ensures
        slide(g, pos, delta, r).x == pos.x + delta.0,
        slide(g, pos, delta, r).y == pos.y,
{
}

/// A player who stands free stands free after every move: no move ends
/// with the box in a blocking cell.
pub proof fn lemma_slide_stays_free(g: Grid, pos: Vec2, delta: (int, int), r: int)
    requires
        free_at(g, pos.x as int, pos.y as int, r),
    ensures
        free_at(g, slide(g, pos, delta, r).x as int, slide(g, pos, delta, r).y as int, r),
{
}

/// A move changes each coordinate by the whole of its part or not at all.
pub proof fn lemma_slide_is_all_or_nothing(g: Grid, pos: Vec2, delta: (int, int), r: int)
    ensures
        slide(g, pos, delta, r).x == pos.x || slide(g, pos, delta, r).x == pos.x + delta.0,
        slide(g, pos, delta, r).y == pos.y || slide(g, pos, delta, r).y == pos.y + delta.1,
{
}

/// A wrapped angle lies in the range from above `-PI` to `PI` and differs
/// from the angle by whole turns; an angle in that range is left as it
/// is.
pub proof fn lemma_wrap_angle(a: int)
    ensures
        -PI < wrap_angle(a) <= PI,
        (wrap_angle(a) - a) % (TWO_PI as int) == 0,
        -PI < a <= PI ==> wrap_angle(a) == a,
{
    let t = TWO_PI as int;
    let q = (PI - a) / t;
    vstd::arithmetic::div_mod::lemma_fundamental_div_mod(PI - a, t);
    vstd::arithmetic::div_mod::lemma_mod_bound(PI - a, t);
    // wrap_angle(a) - a == t * q
    assert(wrap_angle(a) - a == t * q);
    vstd::arithmetic::div_mod::lemma_mod_multiples_basic(q, t);
    assert(t * q == q * t) by (nonlinear_arith);
    if -PI < a <= PI {
        vstd::arithmetic::div_mod::lemma_small_mod((PI - a) as nat, t as nat);
    }
}

/// With a heading along the rows and nothing asked to the side, the
/// displacement of a tick has no part along the columns.
pub proof fn lemma_straight_along_rows(c: Controls, h: (int, int), walk: int, dt: int)
    requires
        h.1 == 0,
        intent(c).1 == 0,
    ensures
        displacement(c, h, walk, dt).1 == 0,
{
    let i = intent(c);
    let mv = world_delta(i, h);
    lemma_zero_products(i.0, h.0);
    assert(mv.1 == 0);
    if mv != (0int, 0int) {
        let len = length_of(mv);
        let step = fx_prod(speed_of(c, walk), dt);
        lemma_zero_products(ONE as int, step);
        if len > 0 {
            vstd::arithmetic::div_mod::lemma_div_basics(len);
        }
    }
}

/// With a heading along the columns and nothing asked to the side, the
/// displacement of a tick has no part along the rows.
pub proof fn lemma_straight_along_columns(c: Controls, h: (int, int), walk: int, dt: int)
    requires
        h.0 == 0,
        intent(c).1 == 0,
    ensures
        displacement(c, h, walk, dt).0 == 0,
{
    let i = intent(c);
    let mv = world_delta(i, h);
    lemma_zero_products(i.0, h.1);
    assert(mv.0 == 0);
    if mv != (0int, 0int) {
        let len = length_of(mv);
        let step = fx_prod(speed_of(c, walk), dt);
        lemma_zero_products(ONE as int, step);
        if len > 0 {
            vstd::arithmetic::div_mod::lemma_div_basics(len);
        }
    }
}

/// A tick that asks for nothing to the side, with a heading along the
/// rows, straight at a place where the box would touch a blocking cell,
/// leaves the player where it is.
pub proof fn lemma_head_on_along_rows(
    g: Grid,
    pos: Vec2,
    c: Controls,
    h: (int, int),
    walk: int,
    dt: int,
    r: int,
)
    requires
        h.1 == 0,
        intent(c).1 == 0,
        collides_at(g, pos.x + displacement(c, h, walk, dt).0, pos.y as int, r),
    ensures
        slide(g, pos, displacement(c, h, walk, dt), r) == pos,
{
    lemma_straight_along_rows(c, h, walk, dt);
    lemma_blocked_along_x_stays(g, pos, displacement(c, h, walk, dt).0, r);
}

/// A tick that asks for nothing to the side, with a heading along the
/// columns, straight at a place where the box would touch a blocking
/// cell, leaves the player where it is.
pub proof fn lemma_head_on_along_columns(
    g: Grid,
    pos: Vec2,
    c: Controls,
    h: (int, int),
    walk: int,
    dt: int,
    r: int,
)
    requires
        h.0 == 0,
        intent(c).1 == 0,
        collides_at(g, pos.x as int, pos.y + displacement(c, h, walk, dt).1, r),
    ensures
        slide(g, pos, displacement(c, h, walk, dt), r) == pos,
{
    lemma_straight_along_columns(c, h, walk, dt);
    lemma_blocked_along_y_stays(g, pos, displacement(c, h, walk, dt).1, r);
}

/// Products with a factor of zero are zero, as raw products are.
pub proof fn lemma_zero_products(a: int, b: int)
    ensures
        fx_prod(0, a) == 0,
        fx_prod(a, 0) == 0,
        fx_prod(0, b) == 0,
        fx_prod(b, 0) == 0,
        0 * ONE == 0,
{
    assert(0 * a == 0 && a * 0 == 0 && 0 * b == 0 && b * 0 == 0) by (nonlinear_arith);
    vstd::arithmetic::div_mod::lemma_div_basics(ONE as int);
}

} // verus!
