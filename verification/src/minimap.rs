//! The overlay map: the grid drawn small in a corner of the screen.
//!
//! Every cell becomes a square of fixed size, coloured by what the cell
//! holds; the player becomes a disc, with two short lines that show the
//! edges of the field of view. All of it is a change of coordinates, made
//! anew for every frame. Pixel coordinates that a screen could not hold
//! are limited to the range of 32 bits.

use crate::fixed::{clamp_to, fx_prod, lemma_fx_prod_bound, magnitude, mul_i128, trunc_div, ONE};
use crate::geometry::{Dir, Vec2};
use crate::maze::{kind_of, tile_kind, Grid, Maze, TileKind};
use crate::player::Player;
use vstd::prelude::*;

verus! {

/// A quarter of the field of view in raw radians.
pub const QUARTER_FOV: i64 = 17157;

/// Raw radius of the player's disc, in edge lengths of a square.
pub const MARKER_RADIUS: i64 = 22938;

/// Raw length of the lines at the edges of the field of view, in edge
/// lengths of a square.
pub const EDGE_LENGTH: i64 = 98304;

/// Width in pixels of the frame around the squares.
pub const FRAME_PAD: i32 = 4;

/// How the overlay is laid out.
#[derive(Clone, Copy, Debug, PartialEq, Eq, Structural)]
pub struct MiniMapCfg {
    /// Edge length of the square of one cell, in pixels.
    pub tile_px: i32,
    /// Distance of the squares from the left and the top of the screen.
    pub margin: i32,
}

/// A rectangle of the screen, in pixels.
#[derive(Clone, Copy, Debug, PartialEq, Eq, Structural)]
pub struct Rect {
    /// The left edge.
    pub x: i32,
    /// The top edge.
    pub y: i32,
    /// The width.
    pub w: i32,
    /// The height.
    pub h: i32,
}

/// The square of one cell and what the cell holds.
#[derive(Clone, Copy, Debug, PartialEq, Eq, Structural)]
pub struct MapTile {
    /// Where the square lies.
    pub rect: Rect,
    /// What the cell holds.
    pub kind: TileKind,
}

/// The disc that shows the player: its middle in pixels and its raw
/// radius.
#[derive(Clone, Copy, Debug, PartialEq, Eq, Structural)]
pub struct Marker {
    /// The column of the pixel in the middle.
    pub x: i32,
    /// The row of the pixel in the middle.
    pub y: i32,
    /// The raw radius in pixels.
    pub radius: i64,
}

/// A line of the screen, in pixels.
#[derive(Clone, Copy, Debug, PartialEq, Eq, Structural)]
pub struct Segment {
    /// The column of the first end.
    pub x0: i32,
    /// The row of the first end.
    pub y0: i32,
    /// The column of the second end.
    pub x1: i32,
    /// The row of the second end.
    pub y1: i32,
}

/// Everything that the overlay shows in one frame.
#[derive(Debug)]
pub struct MiniMap {
    /// The background behind the squares.
    pub frame: Rect,
    /// The squares of the cells, row by row from the top, each row from
    /// the left.
    pub tiles: Vec<MapTile>,
    /// The player.
    pub player: Marker,
    /// The line along the left edge of the field of view.
    pub left: Segment,
    /// The line along the right edge of the field of view.
    pub right: Segment,
}

/// A pixel coordinate: `v`, limited to what 32 bits hold.
pub open spec fn pixel(v: int) -> int {
    clamp_to(v, i32::MIN as int, i32::MAX as int)
}

/// The pixel that holds a raw screen coordinate.
pub open spec fn pixel_of(raw: int) -> int {
    pixel(trunc_div(raw, ONE as int))
}

/// The background: the squares of all cells with a frame around them.
pub open spec fn frame_rect(g: Grid, cfg: MiniMapCfg) -> Rect {
    Rect {
        x: pixel(cfg.margin - FRAME_PAD) as i32,
        y: pixel(cfg.margin - FRAME_PAD) as i32,
        w: pixel(g.width() * cfg.tile_px + 2 * FRAME_PAD) as i32,
        h: pixel(g.height() * cfg.tile_px + 2 * FRAME_PAD) as i32,
    }
}

/// The square of the cell in column `i` and row `j`.
pub open spec fn cell_tile(g: Grid, cfg: MiniMapCfg, i: int, j: int) -> MapTile {
    MapTile {
        rect: Rect {
            x: pixel(cfg.margin + i * cfg.tile_px) as i32,
            y: pixel(cfg.margin + j * cfg.tile_px) as i32,
            w: cfg.tile_px,
            h: cfg.tile_px,
        },
        kind: kind_of(g.symbol_at(i, j)),
    }
}

/// The raw screen coordinate of the raw world coordinate `v`.
pub open spec fn on_map(g: Grid, cfg: MiniMapCfg, v: int) -> int {
    cfg.margin * ONE + trunc_div(v * cfg.tile_px, g.tile)
}

/// The disc of a player at `pos`.
pub open spec fn marker_of(g: Grid, cfg: MiniMapCfg, pos: Vec2) -> Marker {
    Marker {
        x: pixel_of(on_map(g, cfg, pos.x as int)) as i32,
        y: pixel_of(on_map(g, cfg, pos.y as int)) as i32,
        radius: (cfg.tile_px * MARKER_RADIUS) as i64,
    }
}

/// The line from a player at `pos` along the direction `d`.
pub open spec fn edge_of(g: Grid, cfg: MiniMapCfg, pos: Vec2, d: (int, int)) -> Segment {
    let len = cfg.tile_px * EDGE_LENGTH;
    Segment {
        x0: pixel_of(on_map(g, cfg, pos.x as int)) as i32,
        y0: pixel_of(on_map(g, cfg, pos.y as int)) as i32,
        x1: pixel_of(on_map(g, cfg, pos.x as int) + fx_prod(len, d.0)) as i32,
        y1: pixel_of(on_map(g, cfg, pos.y as int) + fx_prod(len, d.1)) as i32,
    }
}

/// A pixel coordinate: `v`, limited to what 32 bits hold.
fn to_pixel(v: i128) -> (p: i32)
    ensures
        p == pixel(v as int),
{
    if v < i32::MIN as i128 {
        i32::MIN
    } else if v > i32::MAX as i128 {
        i32::MAX
    } else {
        v as i32
    }
}

/// The pixels that `k` squares span.
fn squares(k: usize, cfg: &MiniMapCfg) -> (px: i128)
    ensures
        px == k * cfg.tile_px,
        magnitude(px as int) <= 0x8000_0000_0000_0000_0000_0000,
{
    proof {
        crate::fixed::lemma_product_bound(
            k as int,
            cfg.tile_px as int,
            0x1_0000_0000_0000_0000,
            0x8000_0000,
        );
    }
    (k as i128) * (cfg.tile_px as i128)
}

/// The raw screen coordinate of the raw world coordinate `v`.
fn place(v: i64, cfg: &MiniMapCfg, bs: u32) -> (raw: i128)
    requires
        bs > 0,
    ensures
        raw == cfg.margin * ONE + trunc_div(v * cfg.tile_px, bs as int),
        magnitude(raw as int) <= 0x1_0000_0000_0000_0000_0000_0000,
{
    let scaled = mul_i128(v as i128, cfg.tile_px as i128);
    proof {
        crate::fixed::lemma_product_bound(
            v as int,
            cfg.tile_px as int,
            0x8000_0000_0000_0000,
            0x8000_0000,
        );
        crate::fixed::lemma_trunc_div_bounds(scaled as int, bs as int);
    }
    let inset = mul_i128(cfg.margin as i128, ONE as i128);
    assert(magnitude(inset as int) <= 0x8000_0000 * 65536) by {
        assert(-0x8000_0000 * 65536 <= cfg.margin * ONE <= 0x8000_0000 * 65536);
    }
    inset + scaled / (bs as i128)
}

/// The raw offset of the far end of an edge line along one axis.
fn reach(cfg: &MiniMapCfg, d: i64) -> (r: i128)
    requires
        -ONE <= d <= ONE,
    ensures
        r == fx_prod(cfg.tile_px * EDGE_LENGTH, d as int),
        magnitude(r as int) <= 0x1_0000_0000_0000,
{
    let len = mul_i128(cfg.tile_px as i128, EDGE_LENGTH as i128);
    assert(magnitude(len as int) <= 0x8000_0000 * 98304) by {
        assert(-0x8000_0000 * 98304 <= cfg.tile_px * EDGE_LENGTH <= 0x8000_0000 * 98304);
    }
    proof {
        lemma_fx_prod_bound(len as int, d as int, 0x1_0000_0000_0000, 1);
    }
    crate::fixed::fx_mul(len as i64, d)
}

/// The angles of the two edges of the field of view as the overlay shows
/// them: a quarter of the field of view to either side of the heading.
pub fn fov_edge_angles(player: &Player) -> (edges: (i64, i64))
    ensures
        edges.0 == player@.heading - QUARTER_FOV,
        edges.1 == player@.heading + QUARTER_FOV,
{
    let a = player.heading();
    (a - QUARTER_FOV, a + QUARTER_FOV)
}

/// The overlay for one frame. `left` and `right` are the cosine and sine
/// of the two angles of `fov_edge_angles`.
pub fn draw_minimap(maze: &Maze, player: &Player, cfg: MiniMapCfg, left: Dir, right: Dir) -> (m:
    MiniMap)
    ensures
        m.frame == frame_rect(maze@, cfg),
        m.tiles@.len() == maze@.width() * maze@.height(),
        forall|i: int, j: int|
            maze@.in_bounds(i, j) ==> #[trigger] m.tiles@[j * maze@.width() + i] == cell_tile(
                maze@,
                cfg,
                i,
                j,
            ),
        m.player == marker_of(maze@, cfg, player@.pos),
        m.left == edge_of(maze@, cfg, player@.pos, left@),
        m.right == edge_of(maze@, cfg, player@.pos, right@),
{
    let ghost g = maze@;
    let w = maze.width();
    let h = maze.height();
    let bs = maze.block_size();
    let tile = cfg.tile_px as i128;
    let inset = cfg.margin as i128;
    let pad = FRAME_PAD as i128;
    let frame = Rect {
        x: to_pixel(inset - pad),
        y: to_pixel(inset - pad),
        w: to_pixel(squares(w, &cfg) + 2 * pad),
        h: to_pixel(squares(h, &cfg) + 2 * pad),
    };
    let mut tiles: Vec<MapTile> = Vec::new();
    let mut j: usize = 0;
    while j < h
        invariant
            g == maze@,
            w == g.width(),
            h == g.height(),
            tile == cfg.tile_px,
            inset == cfg.margin,
            j <= h,
            tiles@.len() == j * w,
            forall|i2: int, j2: int|
                0 <= i2 < w && 0 <= j2 < j ==> #[trigger] tiles@[j2 * g.width() + i2] == cell_tile(
                    g,
                    cfg,
                    i2,
                    j2,
                ),
        decreases h - j,
    {
        let mut i: usize = 0;
        proof {
            assert(j * w + 0 == j * w);
        }
        while i < w
            invariant
                g == maze@,
                w == g.width(),
                h == g.height(),
                tile == cfg.tile_px,
                inset == cfg.margin,
                j < h,
                i <= w,
                tiles@.len() == j * w + i,
                forall|i2: int, j2: int|
                    0 <= i2 < w && 0 <= j2 < j ==> #[trigger] tiles@[j2 * g.width() + i2]
                        == cell_tile(g, cfg, i2, j2),
                forall|i2: int|
                    0 <= i2 < i ==> #[trigger] tiles@[j * g.width() + i2] == cell_tile(
                        g,
                        cfg,
                        i2,
                        j as int,
                    ),
            decreases w - i,
        {
            let ghost before = tiles@;
            let kind = tile_kind(maze.get(i, j));
            let rect = Rect {
                x: to_pixel(inset + squares(i, &cfg)),
                y: to_pixel(inset + squares(j, &cfg)),
                w: cfg.tile_px,
                h: cfg.tile_px,
            };
            tiles.push(MapTile { rect, kind });
            proof {
                assert forall|i2: int, j2: int| 0 <= i2 < w && 0 <= j2 < j implies #[trigger] tiles@[j2
                    * g.width() + i2] == cell_tile(g, cfg, i2, j2) by {
                    lemma_row_major(i2, j2, w as int, j as int);
                    assert(before[j2 * g.width() + i2] == cell_tile(g, cfg, i2, j2));
                }
                assert forall|i2: int| 0 <= i2 < i + 1 implies #[trigger] tiles@[j * g.width() + i2]
                    == cell_tile(g, cfg, i2, j as int) by {
                    if i2 < i {
                        assert(before[j * g.width() + i2] == cell_tile(g, cfg, i2, j as int));
                    }
                }
            }
            i = i + 1;
        }
        proof {
            assert((j + 1) * w == j * w + w) by (nonlinear_arith);
        }
        j = j + 1;
    }
    assert(h * w == w * h) by (nonlinear_arith);
    let pos = player.pos();
    let cx = place(pos.x, &cfg, bs);
    let cy = place(pos.y, &cfg, bs);
    let px = to_pixel(cx / (ONE as i128));
    let py = to_pixel(cy / (ONE as i128));
    let radius = mul_i128(tile, MARKER_RADIUS as i128);
    assert(magnitude(radius as int) <= 0x8000_0000 * 22938) by {
        assert(-0x8000_0000 * 22938 <= cfg.tile_px * MARKER_RADIUS <= 0x8000_0000 * 22938);
    }
    let lx = reach(&cfg, left.x());
    let ly = reach(&cfg, left.y());
    let rx = reach(&cfg, right.x());
    let ry = reach(&cfg, right.y());
    MiniMap {
        frame,
        tiles,
        player: Marker { x: px, y: py, radius: radius as i64 },
        left: Segment {
            x0: px,
            y0: py,
            x1: to_pixel((cx + lx) / (ONE as i128)),
            y1: to_pixel((cy + ly) / (ONE as i128)),
        },
        right: Segment {
            x0: px,
            y0: py,
            x1: to_pixel((cx + rx) / (ONE as i128)),
            y1: to_pixel((cy + ry) / (ONE as i128)),
        },
    }
}

/// In row-major order, the cells of an earlier row come before those of
/// a later one.
pub proof fn lemma_row_major(i: int, j: int, w: int, rows: int)
    by (nonlinear_arith)
    requires
        0 <= i < w,
        0 <= j < rows,
    ensures
        0 <= j * w + i < rows * w,
{
    assert(j * w + w <= rows * w) by {
        assert((j + 1) * w <= rows * w);
    }
}

} // verus!
