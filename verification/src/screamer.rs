//! The proximity trigger of a level.
//!
//! A level that holds the trigger's symbol has a trigger in the middle of
//! that cell. It goes off when the player comes within reach of it and can
//! see it, stays active for a fixed time, and can then go off again.

use crate::fixed::{lemma_product_bound, mul_i128};
use crate::geometry::Vec2;
use crate::maze::{Grid, Maze, TRIGGER};
use crate::sight::{has_los, sight_clear};
use vstd::prelude::*;

verus! {

/// Reach of the trigger in raw tiles.
pub const TRIGGER_REACH: i64 = 78643;

/// Raw seconds for which the trigger stays active.
pub const TRIGGER_TIME: i64 = 78643;

/// The state of a level's trigger.
#[derive(Clone, Copy, Debug, PartialEq, Eq, Structural)]
pub struct ScreamerState {
    /// Where the trigger lies.
    pub pos: Vec2,
    /// Whether it has gone off and its time has not run out.
    pub active: bool,
    /// Raw seconds that are left of its active time.
    pub timer: i64,
    /// Whether the level has a trigger at all.
    pub enabled: bool,
}

/// Whether `b` lies within `reach` raw world units of `a`.
pub open spec fn within(a: Vec2, b: Vec2, reach: int) -> bool {
    (b.x - a.x) * (b.x - a.x) + (b.y - a.y) * (b.y - a.y) <= reach * reach
}

/// Whether the trigger goes off for a player at `player`: it lies within
/// reach, and the player can see it.
pub open spec fn goes_off(g: Grid, s: ScreamerState, player: Vec2) -> bool {
    within(player, s.pos, g.tile * TRIGGER_REACH) && sight_clear(g, player, s.pos)
}

/// The state of the trigger after a tick of `dt` raw seconds.
pub open spec fn after_tick(g: Grid, s: ScreamerState, player: Vec2, dt: int) -> ScreamerState {
    if !s.enabled {
        s
    } else if s.active {
        if s.timer - dt <= 0 {
            ScreamerState { active: false, timer: 0, ..s }
        } else {
            ScreamerState { timer: (s.timer - dt) as i64, ..s }
        }
    } else if goes_off(g, s, player) {
        ScreamerState { active: true, timer: TRIGGER_TIME, ..s }
    } else {
        s
    }
}

/// Whether the trigger goes off in this tick.
pub open spec fn fires(g: Grid, s: ScreamerState, player: Vec2) -> bool {
    s.enabled && !s.active && goes_off(g, s, player)
}

/// The state of a trigger when a level starts: enabled and placed where
/// the level has a place for it, else disabled and left where it was.
pub open spec fn at_start(s: ScreamerState, place: Option<Vec2>) -> ScreamerState {
    match place {
        Some(p) => ScreamerState { pos: p, active: false, timer: 0, enabled: true },
        None => ScreamerState { pos: s.pos, active: false, timer: 0, enabled: false },
    }
}

/// Whether `b` lies within `reach` raw world units of `a`.
pub fn is_within(a: Vec2, b: Vec2, reach: i64) -> (near: bool)
    requires
        0 <= reach <= 0x4000_0000_0000_0000,
    ensures
        near == within(a, b, reach as int),
{
    let dx: i128 = b.x as i128 - a.x as i128;
    let dy: i128 = b.y as i128 - a.y as i128;
    let r: i128 = reach as i128;
    if dx > r || dx < -r || dy > r || dy < -r {
        proof {
            if dx > r || dx < -r {
                lemma_beyond_reach(dx as int, dy as int, r as int);
            } else {
                lemma_beyond_reach(dy as int, dx as int, r as int);
            }
        }
        return false;
    }
    let xx = mul_i128(dx, dx);
    let yy = mul_i128(dy, dy);
    let rr = mul_i128(r, r);
    proof {
        lemma_product_bound(dx as int, dx as int, r as int, r as int);
        lemma_product_bound(dy as int, dy as int, r as int, r as int);
        lemma_product_bound(r as int, r as int, 0x4000_0000_0000_0000, 0x4000_0000_0000_0000);
    }
    xx + yy <= rr
}

/// A point that lies farther than `r` along one axis lies farther than
/// `r`.
pub proof fn lemma_beyond_reach(d: int, e: int, r: int)
    by (nonlinear_arith)
    requires
        r >= 0,
        d > r || d < -r,
    ensures
        d * d + e * e > r * r,
{
    assert(d * d >= (r + 1) * (r + 1));
    assert(e * e >= 0);
}

/// Where the trigger of a level lies: in the middle of the first cell
/// that holds its symbol, if there is one and a position can name it.
pub fn find_screamer_pos(maze: &Maze) -> (place: Option<Vec2>)
    ensures
        place == maze@.marker(TRIGGER),
{
    maze.find_marker(TRIGGER)
}

impl ScreamerState {
    /// A trigger that is disabled, at the origin.
    pub fn new() -> (s: ScreamerState)
        ensures
            s == (ScreamerState { pos: Vec2 { x: 0, y: 0 }, active: false, timer: 0, enabled: false }),
    {
        ScreamerState { pos: Vec2 { x: 0, y: 0 }, active: false, timer: 0, enabled: false }
    }

    /// Sets the trigger up for the start of a level.
    pub fn reset(&mut self, maze: &Maze) -> (place: Option<Vec2>)
        ensures
            *final(self) == at_start(*old(self), maze@.marker(TRIGGER)),
            place == maze@.marker(TRIGGER),
    {
        let place = find_screamer_pos(maze);
        match place {
            Some(p) => {
                self.pos = p;
                self.enabled = true;
            },
            None => {
                self.enabled = false;
            },
        }
        self.active = false;
        self.timer = 0;
        place
    }
}

/// One tick of the trigger, for a player at `player`: counts an active
/// trigger down, and sets off one that is ready, in reach and in sight.
/// Reports whether the trigger went off in this tick.
pub fn update_screamer(maze: &Maze, player: Vec2, screamer: &mut ScreamerState, dt: u32) -> (fired:
    bool)
    ensures
        *final(screamer) == after_tick(maze@, *old(screamer), player, dt as int),
        fired == fires(maze@, *old(screamer), player),
{
    if !screamer.enabled {
        return false;
    }
    if screamer.active {
        let left: i128 = screamer.timer as i128 - dt as i128;
        if left <= 0 {
            screamer.active = false;
            screamer.timer = 0;
        } else {
            screamer.timer = left as i64;
        }
        return false;
    }
    let bs = maze.block_size();
    let reach = mul_i128(bs as i128, TRIGGER_REACH as i128);
    assert(0 <= reach <= 0xffff_ffff * 78643) by {
        assert(0 <= bs * TRIGGER_REACH <= 0xffff_ffff * 78643);
    }
    if is_within(player, screamer.pos, reach as i64) && has_los(maze, player, screamer.pos) {
        screamer.active = true;
        screamer.timer = TRIGGER_TIME;
        return true;
    }
    false
}

} // verus!
