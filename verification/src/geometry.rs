//! Points and directions of the world plane, in raw fixed-point units.

use crate::fixed::{magnitude, HALF, ONE};
use vstd::prelude::*;

verus! {

/// A point or a displacement of the world plane. `x` grows to the east,
/// as the columns of the grid do, and `y` to the north, as its rows do.
#[derive(Clone, Copy, Debug, PartialEq, Eq, Structural)]
pub struct Vec2 {
    /// The raw coordinate along the rows.
    pub x: i64,
    /// The raw coordinate along the columns.
    pub y: i64,
}

impl Vec2 {
    /// The point with the given raw coordinates.
    pub fn new(x: i64, y: i64) -> (p: Vec2)
        ensures
            p.x == x,
            p.y == y,
    {
        Vec2 { x, y }
    }

    /// The origin, and the displacement that moves nothing.
    pub fn zero() -> (p: Vec2)
        ensures
            p.x == 0,
            p.y == 0,
    {
        Vec2 { x: 0, y: 0 }
    }
}

/// The least square of the length of a direction: that of a vector
/// shorter than 1 by two raw units.
pub const MIN_LENGTH_SQUARED: i64 = 4294705156;

/// The largest square of the length of a direction: that of a vector
/// longer than 1 by two raw units.
pub const MAX_LENGTH_SQUARED: i64 = 4295229444;

/// Whether `(x, y)` can be the cosine and sine of an angle as raw values:
/// no component exceeds 1 in magnitude, and the length is 1 but for what
/// the rounding of the components, to the nearest raw value or toward
/// zero, can take from it or add to it.
pub open spec fn is_direction(x: int, y: int) -> bool {
    &&& magnitude(x) <= ONE
    &&& magnitude(y) <= ONE
    &&& MIN_LENGTH_SQUARED <= x * x + y * y <= MAX_LENGTH_SQUARED
}

/// The longer component of a direction is at least one half.
pub proof fn lemma_direction_has_long_component(x: int, y: int)
    by (nonlinear_arith)
    requires
        is_direction(x, y),
    ensures
        magnitude(x) >= HALF || magnitude(y) >= HALF,
        x != 0 || y != 0,
{
    if magnitude(x) < 32768 && magnitude(y) < 32768 {
        assert(x * x <= 32767 * 32767);
        assert(y * y <= 32767 * 32767);
    }
}

/// The direction of a ray or of a heading: the cosine and the sine of its
/// angle as raw values.
#[derive(Clone, Copy, Debug, PartialEq, Eq, Structural)]
pub struct Dir {
    x: i64,
    y: i64,
}

impl View for Dir {
    type V = (int, int);

    closed spec fn view(&self) -> (int, int) {
        (self.x as int, self.y as int)
    }
}

impl Dir {
    /// The components make a direction.
    #[verifier::type_invariant]
    pub closed spec fn inv(&self) -> bool {
        is_direction(self.x as int, self.y as int)
    }

    /// The direction with the given components, if they make one.
    pub fn new(x: i64, y: i64) -> (d: Option<Dir>)
        ensures
            d is Some <==> is_direction(x as int, y as int),
            d matches Some(v) ==> v@ == (x as int, y as int),
    {
        if x < -ONE || x > ONE || y < -ONE || y > ONE {
            return None;
        }
        proof {
            crate::fixed::lemma_product_bound(x as int, x as int, ONE as int, ONE as int);
            crate::fixed::lemma_product_bound(y as int, y as int, ONE as int, ONE as int);
            assert(ONE * ONE == 0x1_0000_0000) by (nonlinear_arith)
                requires
                    ONE == 65536,
            ;
        }
        let len2 = x * x + y * y;
        if MIN_LENGTH_SQUARED <= len2 && len2 <= MAX_LENGTH_SQUARED {
            Some(Dir { x, y })
        } else {
            None
        }
    }

    /// The direction that points east, along the rows.
    pub fn east() -> (d: Dir)
        ensures
            d@ == (ONE as int, 0int),
    {
        assert(ONE * ONE + 0 * 0 == 0x1_0000_0000) by (nonlinear_arith)
            requires
                ONE == 65536,
        ;
        Dir { x: ONE, y: 0 }
    }

    /// The direction that points west.
    pub fn west() -> (d: Dir)
        ensures
            d@ == (-(ONE as int), 0int),
    {
        assert((-ONE) * (-ONE) + 0 * 0 == 0x1_0000_0000) by (nonlinear_arith)
            requires
                ONE == 65536,
        ;
        Dir { x: -ONE, y: 0 }
    }

    /// The direction that points north, along the columns.
    pub fn north() -> (d: Dir)
        ensures
            d@ == (0int, ONE as int),
    {
        assert(0 * 0 + ONE * ONE == 0x1_0000_0000) by (nonlinear_arith)
            requires
                ONE == 65536,
        ;
        Dir { x: 0, y: ONE }
    }

    /// The direction that points south.
    pub fn south() -> (d: Dir)
        ensures
            d@ == (0int, -(ONE as int)),
    {
        assert(0 * 0 + (-ONE) * (-ONE) == 0x1_0000_0000) by (nonlinear_arith)
            requires
                ONE == 65536,
        ;
        Dir { x: 0, y: -ONE }
    }

    /// The component along the rows: the cosine.
    pub fn x(&self) -> (v: i64)
        ensures
            v == self@.0,
            is_direction(self@.0, self@.1),
    {
        proof {
            use_type_invariant(self);
        }
        self.x
    }

    /// The component along the columns: the sine.
    pub fn y(&self) -> (v: i64)
        ensures
            v == self@.1,
            is_direction(self@.0, self@.1),
    {
        proof {
            use_type_invariant(self);
        }
        self.y
    }
}

} // verus!
