//! From a hit to the strip of wall that a screen column shows.
//!
//! A wall at the distance of one tile fills the height of the screen; the
//! strip is centred on the middle of the screen and cut at its edges. The
//! farther the wall, the darker the strip, but never fully dark.

use crate::caster::{Hit, MIN_DISTANCE};
use crate::fixed::{fx_prod, fx_quot, lemma_trunc_div_bounds, mul_i128, trunc_div, ONE};
use vstd::prelude::*;

verus! {

/// Half the field of view in raw radians: a twelfth of a turn.
pub const HALF_FOV: i64 = 34315;

/// The field of view in raw radians: a sixth of a turn.
pub const FOV: i64 = 68630;

/// The largest height of a strip, in heights of the screen.
pub const MAX_HEIGHT_FACTOR: i64 = 4;

/// How fast the brightness falls with the distance in cells.
pub const SHADE_FALLOFF: i64 = 9830;

/// The brightness of a wall that is infinitely far away.
pub const MIN_BRIGHTNESS: i64 = 16384;

/// What one screen column shows of a wall.
#[derive(Clone, Copy, Debug, PartialEq, Eq, Structural)]
pub struct WallSlice {
    /// The column of the screen, counted from the left.
    pub screen_x: usize,
    /// The raw height at which the strip starts, from the top of the screen.
    pub top: i64,
    /// The raw height at which the strip ends.
    pub bottom: i64,
    /// Where along the wall's face the strip lies, as a raw fraction.
    pub tex_u: i64,
    /// Raw brightness of the strip, from `MIN_BRIGHTNESS` to 1.
    pub brightness: i64,
    /// The brightness as the level of a colour channel.
    pub tint: u8,
    /// Symbol of the cell that the strip belongs to.
    pub tile: char,
}

/// The angle of the ray through column `x` of a screen `screen_w` columns
/// wide: the heading, plus a share of half the field of view that runs
/// from -1 at the left edge to 1 at the right edge.
pub open spec fn ray_angle(heading: int, x: int, screen_w: int) -> int {
    heading + trunc_div((2 * x - screen_w) * HALF_FOV, screen_w)
}

/// Raw height of the strip for a wall at raw distance `perp`: the height
/// of the screen times the size of a tile over the distance, and at most
/// `MAX_HEIGHT_FACTOR` heights of the screen.
pub open spec fn column_height(screen_h: int, tile: int, perp: int) -> int {
    let full = ((screen_h * ONE) * (tile * ONE)) / perp;
    let cap = MAX_HEIGHT_FACTOR * (screen_h * ONE);
    if full < cap {
        full
    } else {
        cap
    }
}

/// Raw height at which a strip of raw height `h` starts.
pub open spec fn slice_top(screen_h: int, h: int) -> int {
    let t = (screen_h * ONE - h) / 2;
    if t < 0 {
        0
    } else {
        t
    }
}

/// Raw height at which a strip of raw height `h` ends.
pub open spec fn slice_bottom(screen_h: int, h: int) -> int {
    let b = (screen_h * ONE + h) / 2;
    if b > screen_h * ONE {
        screen_h * ONE
    } else {
        b
    }
}

/// Raw brightness of a wall at a distance of `cells` raw cells.
pub open spec fn brightness(cells: int) -> int {
    MIN_BRIGHTNESS + fx_prod(
        ONE - MIN_BRIGHTNESS,
        fx_quot(ONE as int, ONE + fx_prod(SHADE_FALLOFF as int, cells)),
    )
}

/// The level of a colour channel for a raw brightness.
pub open spec fn tint_of(b: int) -> int {
    (255 * b) / (ONE as int)
}

/// The distance that a strip is drawn for: that of the hit, and at least
/// `MIN_DISTANCE`.
pub open spec fn drawn_distance(h: Hit) -> int {
    if h.perp < MIN_DISTANCE {
        MIN_DISTANCE as int
    } else {
        h.perp as int
    }
}

/// The strip that column `x` of a screen `screen_h` rows high shows of a
/// hit.
pub open spec fn slice_of(h: Hit, x: usize, screen_h: int, tile: int) -> WallSlice {
    let height = column_height(screen_h, tile, drawn_distance(h));
    WallSlice {
        screen_x: x,
        top: slice_top(screen_h, height) as i64,
        bottom: slice_bottom(screen_h, height) as i64,
        tex_u: h.tex_u,
        brightness: brightness(h.perp_cells as int) as i64,
        tint: tint_of(brightness(h.perp_cells as int)) as u8,
        tile: h.tile,
    }
}

/// The brightness lies from `MIN_BRIGHTNESS` to 1, and is 1 at distance 0.
pub proof fn lemma_brightness_range(cells: int)
    requires
        cells >= 0,
    ensures
        MIN_BRIGHTNESS <= brightness(cells) <= ONE,
        ONE + fx_prod(SHADE_FALLOFF as int, cells) >= ONE,
        0 <= fx_quot(ONE as int, ONE + fx_prod(SHADE_FALLOFF as int, cells)) <= ONE,
        63 <= tint_of(brightness(cells)) <= 255,
        brightness(0) == ONE,
{
    let kc = fx_prod(SHADE_FALLOFF as int, cells);
    assert(SHADE_FALLOFF * cells >= 0) by (nonlinear_arith)
        requires
            cells >= 0,
            SHADE_FALLOFF == 9830,
    ;
    lemma_trunc_div_bounds(SHADE_FALLOFF * cells, ONE as int);
    let den = ONE + kc;
    let base = fx_quot(ONE as int, den);
    assert(ONE * ONE == 0x1_0000_0000) by (nonlinear_arith)
        requires
            ONE == 65536,
    ;
    lemma_trunc_div_bounds(ONE * ONE, den);
    assert(base <= ONE) by {
        assert(ONE * ONE <= ONE * den) by (nonlinear_arith)
            requires
                den >= ONE,
                ONE == 65536,
        ;
        crate::fixed::lemma_quotient_le(ONE * ONE, den, ONE as int);
    }
    let lit = (ONE - MIN_BRIGHTNESS) * base;
    assert(0 <= lit <= 49152 * 65536) by (nonlinear_arith)
        requires
            lit == (ONE - MIN_BRIGHTNESS) * base,
            0 <= base <= 65536,
            ONE == 65536,
            MIN_BRIGHTNESS == 16384,
    ;
    lemma_trunc_div_bounds(lit, ONE as int);
    crate::fixed::lemma_quotient_le(lit, ONE as int, 49152);
    let b = brightness(cells);
    assert(MIN_BRIGHTNESS <= b <= ONE);
    assert(63 <= (255 * b) / 65536 <= 255);
    // At distance 0 nothing is taken off.
    assert(SHADE_FALLOFF * 0 == 0);
    assert(fx_prod(SHADE_FALLOFF as int, 0) == 0);
    assert(fx_quot(ONE as int, ONE + 0) == ONE) by {
        vstd::arithmetic::div_mod::lemma_div_multiples_vanish(ONE as int, ONE as int);
    }
    assert((ONE - MIN_BRIGHTNESS) * ONE == 49152 * 65536) by (nonlinear_arith)
        requires
            ONE == 65536,
            MIN_BRIGHTNESS == 16384,
    ;
}

/// A wall that is farther away is no brighter.
pub proof fn lemma_brightness_falls(near: int, far: int)
    requires
        0 <= near <= far,
    ensures
        brightness(far) <= brightness(near),
{
    let one = ONE as int;
    lemma_brightness_range(near);
    lemma_brightness_range(far);
    // The product with the falloff grows with the distance.
    assert(0 <= SHADE_FALLOFF * near <= SHADE_FALLOFF * far) by (nonlinear_arith)
        requires
            0 <= near <= far,
            SHADE_FALLOFF == 9830,
    ;
    vstd::arithmetic::div_mod::lemma_div_is_ordered(SHADE_FALLOFF * near, SHADE_FALLOFF * far, one);
    let dn = one + fx_prod(SHADE_FALLOFF as int, near);
    let df = one + fx_prod(SHADE_FALLOFF as int, far);
    assert(0 < dn <= df);
    // A larger divisor gives a smaller share.
    assert(one * one == 0x1_0000_0000) by (nonlinear_arith)
        requires
            one == 65536,
    ;
    vstd::arithmetic::div_mod::lemma_div_is_ordered_by_denominator(one * one, dn, df);
    let bn = fx_quot(one, dn);
    let bf = fx_quot(one, df);
    assert(0 <= bf <= bn);
    assert(0 <= (one - MIN_BRIGHTNESS) * bf <= (one - MIN_BRIGHTNESS) * bn) by (nonlinear_arith)
        requires
            0 <= bf <= bn,
            one == 65536,
            MIN_BRIGHTNESS == 16384,
    ;
    vstd::arithmetic::div_mod::lemma_div_is_ordered(
        (one - MIN_BRIGHTNESS) * bf,
        (one - MIN_BRIGHTNESS) * bn,
        one,
    );
}

/// The rays of a screen fan out from the heading: the ray through the
/// left edge lies half the field of view to its left, and no ray lies
/// farther than that to either side.
pub proof fn lemma_ray_angle_range(heading: int, x: int, screen_w: int)
    requires
        0 <= x < screen_w,
    ensures
        heading - HALF_FOV <= ray_angle(heading, x, screen_w) <= heading + HALF_FOV,
        ray_angle(heading, 0, screen_w) == heading - HALF_FOV,
{
    let n = (2 * x - screen_w) * HALF_FOV;
    crate::fixed::lemma_product_bound(2 * x - screen_w, HALF_FOV as int, screen_w, HALF_FOV as int);
    assert(screen_w * HALF_FOV == HALF_FOV * screen_w) by (nonlinear_arith);
    crate::fixed::lemma_trunc_div_magnitude_le(n, screen_w, HALF_FOV as int);
    assert((0 - screen_w) * HALF_FOV == -(HALF_FOV * screen_w)) by (nonlinear_arith);
    vstd::arithmetic::div_mod::lemma_div_multiples_vanish(HALF_FOV as int, screen_w);
}

/// Raw brightness of a wall at a distance of `cells` raw cells.
pub fn shade(cells: i64) -> (b: i64)
    requires
        cells >= 0,
    ensures
        b == brightness(cells as int),
        MIN_BRIGHTNESS <= b <= ONE,
{
    proof {
        lemma_brightness_range(cells as int);
    }
    let kc = crate::fixed::fx_mul(SHADE_FALLOFF, cells);
    let den: i128 = ONE as i128 + kc;
    let base = mul_i128(ONE as i128, ONE as i128) / den;
    let lit = mul_i128((ONE - MIN_BRIGHTNESS) as i128, base) / (ONE as i128);
    (MIN_BRIGHTNESS as i128 + lit) as i64
}

/// The level of a colour channel for a raw brightness.
pub fn tint(b: i64) -> (t: u8)
    requires
        0 <= b <= ONE,
    ensures
        t == tint_of(b as int),
{
    ((255 * (b as i128)) / (ONE as i128)) as u8
}

/// The strip that column `x` of a screen `screen_h` rows high shows of a
/// hit, for tiles of `tile` world units.
pub fn wall_slice(hit: &Hit, x: usize, screen_h: u32, tile: u32) -> (s: WallSlice)
    requires
        hit.perp_cells >= 0,
    ensures
        s == slice_of(*hit, x, screen_h as int, tile as int),
        0 <= s.top <= s.bottom <= screen_h * ONE,
{
    let perp: i128 = if hit.perp < MIN_DISTANCE {
        MIN_DISTANCE as i128
    } else {
        hit.perp as i128
    };
    let rows = mul_i128(screen_h as i128, ONE as i128);
    let size = mul_i128(tile as i128, ONE as i128);
    assert(0 <= rows <= 0xffff_ffff_0000 && 0 <= size <= 0xffff_ffff_0000) by {
        assert(0 <= screen_h * ONE <= 0xffff_ffff * 65536);
        assert(0 <= tile * ONE <= 0xffff_ffff * 65536);
    }
    let area = mul_i128(rows, size);
    proof {
        crate::fixed::lemma_product_bound(
            rows as int,
            size as int,
            0xffff_ffff_0000,
            0xffff_ffff_0000,
        );
        assert(area >= 0) by (nonlinear_arith)
            requires
                area == rows * size,
                rows >= 0,
                size >= 0,
        ;
        vstd::arithmetic::div_mod::lemma_div_pos_is_pos(area as int, perp as int);
    }
    let full = area / perp;
    let cap = mul_i128(MAX_HEIGHT_FACTOR as i128, rows);
    let height = if full < cap {
        full
    } else {
        cap
    };
    let top = if height >= rows {
        0
    } else {
        (rows - height) / 2
    };
    let low = (rows + height) / 2;
    let bottom = if low > rows {
        rows
    } else {
        low
    };
    let b = shade(hit.perp_cells);
    WallSlice {
        screen_x: x,
        top: top as i64,
        bottom: bottom as i64,
        tex_u: hit.tex_u,
        brightness: b,
        tint: tint(b),
        tile: hit.tile,
    }
}

} // verus!
