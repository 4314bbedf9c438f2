use raycaster::caster::{cast_ray, ray_angles, render_3d_scene, Hit, Side};
use raycaster::fixed::{HALF, ONE};
use raycaster::geometry::{Dir, Vec2};
use raycaster::maze::Maze;
use raycaster::player::Player;
use raycaster::projector::{shade, tint, wall_slice, WallSlice, FOV, HALF_FOV, MIN_BRIGHTNESS};

fn hit_at(perp: i64, perp_cells: i64) -> Hit {
    Hit { perp, perp_cells, tex_u: 12345, tile: 'D', side: Side::Vertical, dir: Dir::east() }
}

fn toward(angle: f64) -> Dir {
    let x = (angle.cos() * ONE as f64).round() as i64;
    let y = (angle.sin() * ONE as f64).round() as i64;
    Dir::new(x, y).unwrap()
}

fn rays_of(player: &Player, screen_w: u32) -> Vec<Dir> {
    ray_angles(player, screen_w).iter().map(|a| toward(*a as f64 / ONE as f64)).collect()
}

#[test]
fn the_field_of_view_is_a_sixth_of_a_turn() {
    assert_eq!(FOV, 2 * HALF_FOV);
    let sixth = std::f64::consts::PI / 3.0;
    assert!((FOV as f64 / ONE as f64 - sixth).abs() < 1e-4);
}

#[test]
fn brightness_falls_with_the_distance() {
    assert_eq!(shade(0), ONE);
    assert_eq!(shade(HALF), 62106);
    assert_eq!(shade(ONE), 59125);
    assert_eq!(shade(5 * ONE), 44470);
    assert_eq!(shade(1000 * ONE), 16709);
    assert_eq!(shade(i64::MAX), MIN_BRIGHTNESS);
}

#[test]
fn brightness_follows_the_hyperbola() {
    for tenth in 0..200 {
        let cells = tenth as f64 / 10.0;
        let want = 0.25 + 0.75 / (1.0 + 0.15 * cells);
        let got = shade((cells * ONE as f64) as i64) as f64 / ONE as f64;
        assert!((got - want).abs() < 1e-4, "{cells} cells: {got} against {want}");
    }
}

#[test]
fn tint_is_the_brightness_in_256_levels() {
    assert_eq!(tint(ONE), 255);
    assert_eq!(tint(62106), 241);
    assert_eq!(tint(59125), 230);
    assert_eq!(tint(MIN_BRIGHTNESS), 63);
    assert_eq!(tint(0), 0);
}

#[test]
fn a_wall_at_one_tile_fills_the_screen() {
    let s = wall_slice(&hit_at(64 * ONE, ONE), 7, 640, 64);
    assert_eq!(
        s,
        WallSlice {
            screen_x: 7,
            top: 0,
            bottom: 640 * ONE,
            tex_u: 12345,
            brightness: 59125,
            tint: 230,
            tile: 'D',
        }
    );
}

#[test]
fn a_wall_at_two_tiles_fills_half_the_screen() {
    let s = wall_slice(&hit_at(128 * ONE, 2 * ONE), 0, 640, 64);
    assert_eq!(s.top, 160 * ONE);
    assert_eq!(s.bottom, 480 * ONE);
}

#[test]
fn a_wall_at_half_a_tile_is_cut_at_the_edges_of_the_screen() {
    let s = wall_slice(&hit_at(32 * ONE, HALF), 3, 640, 64);
    assert_eq!(s.top, 0);
    assert_eq!(s.bottom, 640 * ONE);
    assert_eq!(s.brightness, 62106);
    assert_eq!(s.tint, 241);
}

#[test]
fn a_strip_between_rows_keeps_its_fraction() {
    let s = wall_slice(&hit_at(100 * ONE, 100 * ONE / 64), 0, 600, 64);
    assert_eq!(s.top, 7077888);
    assert_eq!(s.bottom, 32243712);
    assert_eq!(s.top, 108 * ONE);
    assert_eq!(s.bottom, 492 * ONE);
}

#[test]
fn a_hit_without_distance_is_drawn_at_the_least_distance() {
    let near = wall_slice(&hit_at(1, 0), 0, 640, 64);
    assert_eq!((near.top, near.bottom), (0, 640 * ONE));
    assert_eq!(near.brightness, ONE);
    let none = wall_slice(&hit_at(0, 0), 0, 640, 64);
    assert_eq!(none, near);
    let less = wall_slice(&hit_at(-5, 0), 0, 640, 64);
    assert_eq!(less, near);
}

#[test]
fn a_screen_without_rows_shows_strips_without_height() {
    let s = wall_slice(&hit_at(64 * ONE, ONE), 0, 0, 64);
    assert_eq!((s.top, s.bottom), (0, 0));
}

#[test]
fn the_largest_screen_and_tile_do_not_overflow() {
    let s = wall_slice(&hit_at(1, i64::MAX), usize::MAX, u32::MAX, u32::MAX);
    assert_eq!(s.top, 0);
    assert_eq!(s.bottom, u32::MAX as i64 * ONE);
    assert_eq!(s.brightness, MIN_BRIGHTNESS);
    let far = wall_slice(&hit_at(i64::MAX, 0), 0, u32::MAX, 1);
    assert_eq!(far.bottom - far.top, 1);
}

#[test]
fn ray_angles_run_from_the_left_edge_to_the_right() {
    let player = Player::new(Vec2::new(0, 0));
    assert_eq!(ray_angles(&player, 4), vec![-HALF_FOV, -17157, 0, 17157]);
    assert_eq!(ray_angles(&player, 1), vec![-HALF_FOV]);
    assert_eq!(ray_angles(&player, 0), Vec::<i64>::new());
    let wide = ray_angles(&player, 1024);
    assert_eq!(wide.len(), 1024);
    assert_eq!(wide[0], -HALF_FOV);
    assert_eq!(wide[512], 0);
    assert_eq!(wide[256], -HALF_FOV / 2);
    assert_eq!(wide[1023], (1022 * HALF_FOV) / 1024);
    for x in 1..1024 {
        assert!(wide[x - 1] <= wide[x]);
        assert_eq!(wide[x], -wide[1024 - x]);
    }
}

#[test]
fn ray_angles_turn_with_the_heading() {
    let mut player = Player::new(Vec2::new(0, 0));
    player.turn(ONE);
    assert_eq!(ray_angles(&player, 4), vec![ONE - HALF_FOV, ONE - 17157, ONE, ONE + 17157]);
}

#[test]
fn a_frame_has_one_column_for_each_ray() {
    let maze = Maze::from_str_map("#####\n#   #\n#   #\n#   #\n#####\n", 64);
    let player = Player::new(Vec2::new(160 * ONE, 160 * ONE));
    let rays = rays_of(&player, 320);
    let frame = render_3d_scene(&maze, &player, &rays, 200);
    assert_eq!(frame.len(), 320);
    for (x, column) in frame.iter().enumerate() {
        let slice = column.expect("the room is walled in");
        assert_eq!(slice.screen_x, x);
        assert_eq!(slice.tile, '#');
        assert!(0 <= slice.top && slice.top <= slice.bottom && slice.bottom <= 200 * ONE);
        assert!((0..=ONE).contains(&slice.tex_u));
        assert!(slice.brightness >= MIN_BRIGHTNESS && slice.brightness <= ONE);
        let hit = cast_ray(&maze, player.pos(), rays[x]).unwrap();
        assert_eq!(slice, wall_slice(&hit, x, 200, 64));
    }
    let middle = frame[160].unwrap();
    assert_eq!((middle.top, middle.bottom), (33 * ONE + 21845, 166 * ONE + 43690));
    assert_eq!(middle.tex_u, HALF);
}

#[test]
fn a_frame_made_twice_is_the_same() {
    let maze = Maze::from_str_map("######\n# D  #\n#   ##\n#    #\n######\n", 64);
    let mut player = Player::new(Vec2::new(150 * ONE, 170 * ONE));
    player.turn(-78643);
    let rays = rays_of(&player, 200);
    let first = render_3d_scene(&maze, &player, &rays, 480);
    let second = render_3d_scene(&maze, &player, &rays, 480);
    assert_eq!(first, second);
    assert!(first.iter().any(|c| c.map(|s| s.tile) == Some('D')));
}

#[test]
fn a_column_whose_ray_strikes_nothing_shows_nothing() {
    let long: String = " ".repeat(5000);
    let maze = Maze::from_str_map(&long, 64);
    let player = Player::new(Vec2::new(32 * ONE, 32 * ONE));
    let rays = vec![Dir::east(), Dir::west(), Dir::east()];
    let frame = render_3d_scene(&maze, &player, &rays, 100);
    assert_eq!(frame.len(), 3);
    assert!(frame[0].is_none());
    assert_eq!(frame[1].map(|s| s.screen_x), Some(1));
    assert!(frame[2].is_none());
}

#[test]
fn a_frame_without_rays_is_empty() {
    let maze = Maze::from_str_map("###\n# #\n###\n", 64);
    let player = Player::new(Vec2::new(96 * ONE, 96 * ONE));
    assert!(render_3d_scene(&maze, &player, &Vec::new(), 100).is_empty());
}

#[test]
fn a_farther_wall_is_never_brighter() {
    let mut last = shade(0);
    for cells in (0..40 * ONE).step_by(1013) {
        let b = shade(cells);
        assert!(b <= last);
        last = b;
    }
}
