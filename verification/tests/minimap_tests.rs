use raycaster::fixed::ONE;
use raycaster::geometry::{Dir, Vec2};
use raycaster::maze::{Maze, TileKind};
use raycaster::minimap::{
    draw_minimap, fov_edge_angles, MapTile, Marker, MiniMapCfg, Rect, Segment, QUARTER_FOV,
};
use raycaster::player::Player;
use raycaster::projector::FOV;

fn cfg() -> MiniMapCfg {
    MiniMapCfg { tile_px: 6, margin: 8 }
}

fn level() -> Maze {
    Maze::from_str_map("#####\n#P D#\n# S?#\n#####\n", 64)
}

#[test]
fn the_edges_lie_a_quarter_of_the_field_of_view_to_either_side() {
    assert_eq!(QUARTER_FOV, FOV / 4);
    let mut p = Player::new(Vec2::new(0, 0));
    assert_eq!(fov_edge_angles(&p), (-QUARTER_FOV, QUARTER_FOV));
    p.turn(ONE);
    assert_eq!(fov_edge_angles(&p), (ONE - QUARTER_FOV, ONE + QUARTER_FOV));
}

#[test]
fn the_frame_lies_around_all_squares() {
    let p = Player::new(Vec2::new(96 * ONE, 96 * ONE));
    let map = draw_minimap(&level(), &p, cfg(), Dir::east(), Dir::east());
    assert_eq!(map.frame, Rect { x: 4, y: 4, w: 38, h: 32 });
}

#[test]
fn every_cell_has_its_square() {
    let maze = level();
    let p = Player::new(Vec2::new(96 * ONE, 96 * ONE));
    let map = draw_minimap(&maze, &p, cfg(), Dir::east(), Dir::east());
    assert_eq!(map.tiles.len(), 20);
    for j in 0..4 {
        for i in 0..5 {
            let tile = map.tiles[j * 5 + i];
            assert_eq!(tile.rect, Rect { x: 8 + 6 * i as i32, y: 8 + 6 * j as i32, w: 6, h: 6 });
        }
    }
    assert_eq!(map.tiles[0].kind, TileKind::Wall);
    assert_eq!(map.tiles[6].kind, TileKind::Spawn);
    assert_eq!(map.tiles[7].kind, TileKind::Floor);
    assert_eq!(map.tiles[8].kind, TileKind::Door);
    assert_eq!(map.tiles[12].kind, TileKind::Trigger);
    assert_eq!(map.tiles[13].kind, TileKind::Floor);
    assert_eq!(map.tiles[19].kind, TileKind::Wall);
    assert_eq!(
        map.tiles[8],
        MapTile { rect: Rect { x: 26, y: 14, w: 6, h: 6 }, kind: TileKind::Door }
    );
}

#[test]
fn the_player_is_drawn_where_it_stands() {
    let maze = level();
    let p = Player::new(Vec2::new(160 * ONE, 96 * ONE));
    let left = Dir::new(63302, -16962).unwrap();
    let right = Dir::new(63302, 16962).unwrap();
    let map = draw_minimap(&maze, &p, cfg(), left, right);
    assert_eq!(map.player, Marker { x: 23, y: 17, radius: 137628 });
    assert_eq!(map.left, Segment { x0: 23, y0: 17, x1: 31, y1: 14 });
    assert_eq!(map.right, Segment { x0: 23, y0: 17, x1: 31, y1: 19 });
    let ahead = draw_minimap(&maze, &p, cfg(), Dir::east(), Dir::east());
    assert_eq!(ahead.left, Segment { x0: 23, y0: 17, x1: 32, y1: 17 });
}

#[test]
fn a_player_between_pixels_is_drawn_on_the_pixel_below() {
    let maze = level();
    let p = Player::new(Vec2::new(100 * ONE + 5, 33 * ONE));
    let left = Dir::new(63302, -16962).unwrap();
    let right = Dir::new(63302, 16962).unwrap();
    let map = draw_minimap(&maze, &p, cfg(), left, right);
    assert_eq!((map.player.x, map.player.y), (17, 11));
    assert_eq!((map.left.x1, map.left.y1), (26, 8));
    assert_eq!((map.right.x1, map.right.y1), (26, 13));
}

#[test]
fn an_empty_maze_has_a_frame_and_no_squares() {
    let maze = Maze::from_str_map("", 64);
    let p = Player::new(Vec2::new(0, 0));
    let map = draw_minimap(&maze, &p, cfg(), Dir::east(), Dir::north());
    assert!(map.tiles.is_empty());
    assert_eq!(map.frame, Rect { x: 4, y: 4, w: 8, h: 8 });
    assert_eq!((map.player.x, map.player.y), (8, 8));
    assert_eq!(map.right, Segment { x0: 8, y0: 8, x1: 8, y1: 17 });
}

#[test]
fn coordinates_beyond_the_screen_are_limited() {
    let maze = level();
    let far = Player::new(Vec2::new(i64::MAX, i64::MIN));
    let big = MiniMapCfg { tile_px: i32::MAX, margin: i32::MAX };
    let map = draw_minimap(&maze, &far, big, Dir::east(), Dir::west());
    assert_eq!(map.frame, Rect { x: i32::MAX - 4, y: i32::MAX - 4, w: i32::MAX, h: i32::MAX });
    assert_eq!(map.tiles[0].rect, Rect { x: i32::MAX, y: i32::MAX, w: i32::MAX, h: i32::MAX });
    assert_eq!((map.player.x, map.player.y), (i32::MAX, i32::MIN));
    assert_eq!(map.player.radius, i32::MAX as i64 * 22938);
    let small = MiniMapCfg { tile_px: i32::MIN, margin: i32::MIN };
    let map = draw_minimap(&maze, &far, small, Dir::east(), Dir::west());
    assert_eq!(map.frame.x, i32::MIN);
    assert_eq!(map.tiles[19].rect.x, i32::MIN);
    assert_eq!((map.player.x, map.player.y), (i32::MIN, i32::MAX));
}
