use raycaster::caster::{cast_ray, Side, MAX_STEPS, MIN_DISTANCE};
use raycaster::fixed::{HALF, ONE};
use raycaster::geometry::{Dir, Vec2};
use raycaster::maze::Maze;

fn px(x: i64, y: i64) -> Vec2 {
    Vec2::new(x * ONE, y * ONE)
}

fn toward(angle: f64) -> Dir {
    let x = (angle.cos() * ONE as f64).round() as i64;
    let y = (angle.sin() * ONE as f64).round() as i64;
    Dir::new(x, y).expect("a unit vector is a direction")
}

fn cell_with_walls_around() -> Maze {
    Maze::from_str_map("###\n# #\n###\n", 64)
}

fn room_of_three_by_three() -> Maze {
    Maze::from_str_map("#####\n#   #\n#   #\n#   #\n#####\n", 64)
}

fn corridor() -> Maze {
    Maze::from_str_map("#######\n#     #\n#######\n", 64)
}

#[test]
fn directions_are_vectors_of_length_one() {
    assert!(Dir::new(ONE, 0).is_some());
    assert!(Dir::new(0, -ONE).is_some());
    assert!(Dir::new(46341, 46341).is_some());
    assert!(Dir::new(46340, -46340).is_some());
    assert!(Dir::new(-39322, 52429).is_some());
    assert!(Dir::new(ONE, 1).is_some());
    assert!(Dir::new(ONE, 300).is_some());
    assert!(Dir::new(ONE - 2, 0).is_some());
    assert!(Dir::new(ONE - 3, 0).is_none());
    assert!(Dir::new(ONE, 600).is_none());
    assert!(Dir::new(46339, 46339).is_none());
    assert!(Dir::new(46343, 46343).is_none());
    assert!(Dir::new(0, 0).is_none());
    assert!(Dir::new(HALF, 0).is_none());
    assert!(Dir::new(HALF, HALF).is_none());
    assert!(Dir::new(ONE + 1, 0).is_none());
    assert!(Dir::new(0, -ONE - 1).is_none());
    assert!(Dir::new(ONE, ONE).is_none());
    assert!(Dir::new(i64::MIN, i64::MAX).is_none());
    assert!(Dir::new(i64::MAX, 0).is_none());
}

#[test]
fn directions_keep_their_components() {
    let d = Dir::new(-39322, 52429).unwrap();
    assert_eq!((d.x(), d.y()), (-39322, 52429));
    assert_eq!((Dir::east().x(), Dir::east().y()), (ONE, 0));
    assert_eq!((Dir::west().x(), Dir::west().y()), (-ONE, 0));
    assert_eq!((Dir::north().x(), Dir::north().y()), (0, ONE));
    assert_eq!((Dir::south().x(), Dir::south().y()), (0, -ONE));
}

#[test]
fn every_angle_gives_a_direction() {
    for k in 0..3600 {
        let a = (k as f64) * std::f64::consts::PI / 1800.0;
        let (c, s) = (a.cos() * ONE as f64, a.sin() * ONE as f64);
        assert!(Dir::new(c.round() as i64, s.round() as i64).is_some(), "angle {a}");
        assert!(Dir::new(c.trunc() as i64, s.trunc() as i64).is_some(), "angle {a}");
        assert!(Dir::new(c.floor() as i64, s.floor() as i64).is_some(), "angle {a}");
    }
}

#[test]
fn ray_from_the_middle_of_the_only_free_cell_going_east() {
    let maze = cell_with_walls_around();
    let hit = cast_ray(&maze, px(96, 96), toward(0.0)).expect("the cell is walled in");
    assert_eq!(hit.perp, 32 * ONE);
    assert_eq!(hit.perp_cells, HALF);
    assert_eq!(hit.tex_u, HALF);
    assert_eq!(hit.tile, '#');
    assert_eq!(hit.side, Side::Vertical);
    assert_eq!((hit.dir.x(), hit.dir.y()), (ONE, 0));
}

#[test]
fn rays_from_the_middle_of_the_only_free_cell_along_the_axes() {
    let maze = cell_with_walls_around();
    for (dir, side) in [
        (Dir::east(), Side::Vertical),
        (Dir::west(), Side::Vertical),
        (Dir::north(), Side::Horizontal),
        (Dir::south(), Side::Horizontal),
    ] {
        let hit = cast_ray(&maze, px(96, 96), dir).unwrap();
        assert_eq!(hit.perp, 32 * ONE);
        assert_eq!(hit.perp_cells, HALF);
        assert_eq!(hit.tex_u, HALF);
        assert_eq!(hit.side, side);
        assert_eq!(hit.tile, '#');
    }
}

#[test]
fn distance_along_a_row_is_the_distance_to_the_face() {
    let maze = corridor();
    let east = cast_ray(&maze, px(96, 96), Dir::east()).unwrap();
    assert_eq!(east.perp, 288 * ONE);
    assert_eq!(east.perp_cells, 4 * ONE + HALF);
    assert_eq!(east.side, Side::Vertical);
    let west = cast_ray(&maze, px(352, 96), Dir::west()).unwrap();
    assert_eq!(west.perp, 288 * ONE);
    assert_eq!(west.perp_cells, 4 * ONE + HALF);
    assert_eq!(west.side, Side::Vertical);
}

#[test]
fn distance_along_a_row_for_every_whole_number_of_cells() {
    let maze = corridor();
    for n in 1..=5 {
        let from = Vec2::new((384 - 64 * n) * ONE, 100 * ONE);
        let hit = cast_ray(&maze, from, Dir::east()).unwrap();
        assert_eq!(hit.perp, n * 64 * ONE, "{n} cells");
        assert_eq!(hit.perp_cells, n * ONE);
    }
}

#[test]
fn distance_along_a_row_keeps_the_fraction_of_the_origin() {
    let maze = corridor();
    let from = Vec2::new(100 * ONE + ONE / 4, 70 * ONE);
    let hit = cast_ray(&maze, from, Dir::east()).unwrap();
    assert_eq!(hit.perp, 283 * ONE + 3 * ONE / 4);
    let back = cast_ray(&maze, from, Dir::west()).unwrap();
    assert_eq!(back.perp, 36 * ONE + ONE / 4);
}

#[test]
fn distance_along_a_column_is_the_distance_to_the_face() {
    let maze = Maze::from_str_map("###\n# #\n# #\n# #\n# #\n###\n", 64);
    let up = cast_ray(&maze, px(96, 100), Dir::north()).unwrap();
    assert_eq!(up.perp, 220 * ONE);
    assert_eq!(up.side, Side::Horizontal);
    let down = cast_ray(&maze, px(96, 100), Dir::south()).unwrap();
    assert_eq!(down.perp, 36 * ONE);
    assert_eq!(down.side, Side::Horizontal);
}

#[test]
fn texture_coordinate_follows_the_offset_along_the_face() {
    let maze = cell_with_walls_around();
    let quarter = Vec2::new(96 * ONE, 80 * ONE);
    let west = cast_ray(&maze, quarter, Dir::west()).unwrap();
    assert_eq!(west.tex_u, ONE / 4);
    let east = cast_ray(&maze, quarter, Dir::east()).unwrap();
    assert_eq!(east.tex_u, 3 * ONE / 4);
    let across = Vec2::new(112 * ONE, 96 * ONE);
    let north = cast_ray(&maze, across, Dir::north()).unwrap();
    assert_eq!(north.tex_u, 3 * ONE / 4);
    let south = cast_ray(&maze, across, Dir::south()).unwrap();
    assert_eq!(south.tex_u, ONE / 4);
}

#[test]
fn mirrored_face_struck_at_its_first_line_has_texture_coordinate_one() {
    let maze = cell_with_walls_around();
    let hit = cast_ray(&maze, px(96, 64), Dir::east()).unwrap();
    assert_eq!(hit.tex_u, ONE);
    let plain = cast_ray(&maze, px(96, 64), Dir::west()).unwrap();
    assert_eq!(plain.tex_u, 0);
}

#[test]
fn a_ray_on_the_diagonal_crosses_rows_first() {
    let maze = room_of_three_by_three();
    let d = Dir::new(46341, 46341).unwrap();
    let hit = cast_ray(&maze, px(160, 160), d).unwrap();
    assert_eq!(hit.side, Side::Horizontal);
    assert_eq!(hit.perp, 8897452);
    assert_eq!(hit.perp_cells, 8897452 / 64);
    assert_eq!(hit.tex_u, 0);
    assert_eq!(hit.tile, '#');
}

#[test]
fn a_ray_on_the_other_diagonal_is_mirrored() {
    let maze = room_of_three_by_three();
    let d = Dir::new(46341, -46341).unwrap();
    let hit = cast_ray(&maze, px(160, 160), d).unwrap();
    assert_eq!(hit.side, Side::Horizontal);
    assert_eq!(hit.perp, 8897452);
    assert_eq!(hit.tex_u, ONE);
}

#[test]
fn a_steep_ray_strikes_a_horizontal_face() {
    let maze = room_of_three_by_three();
    // Three to the right for every four up: the far wall is 96 away along
    // the columns, which the ray reaches after 120 along itself.
    let d = Dir::new(39322, 52429).unwrap();
    let hit = cast_ray(&maze, px(160, 160), d).unwrap();
    assert_eq!(hit.side, Side::Horizontal);
    assert_eq!(hit.perp, (96i64 * ONE * ONE) / 52429);
    assert!((hit.perp - 120 * ONE).abs() < 64);
    let at = 160 * ONE + (96i64 * ONE * 39322) / 52429;
    assert_eq!(hit.tex_u, (at % (64 * ONE)) / 64);
    assert!((hit.tex_u - 5 * ONE / 8).abs() < 8);
}

#[test]
fn a_door_is_struck_like_a_wall() {
    let maze = Maze::from_str_map("#####\n#  D#\n#####\n", 64);
    let hit = cast_ray(&maze, px(96, 96), Dir::east()).unwrap();
    assert_eq!(hit.tile, 'D');
    assert_eq!(hit.perp, 96 * ONE);
}

#[test]
fn markers_do_not_stop_a_ray() {
    let maze = Maze::from_str_map("######\n# PSx#\n######\n", 64);
    let hit = cast_ray(&maze, px(96, 96), Dir::east()).unwrap();
    assert_eq!(hit.tile, '#');
    assert_eq!(hit.perp, 224 * ONE);
}

#[test]
fn the_cell_of_the_origin_is_not_tested() {
    let maze = cell_with_walls_around();
    let hit = cast_ray(&maze, px(32, 96), Dir::east()).unwrap();
    assert_eq!(hit.perp, 96 * ONE);
    let hit = cast_ray(&maze, px(32, 32), Dir::east()).unwrap();
    assert_eq!(hit.perp, 32 * ONE);
}

#[test]
fn outside_the_grid_everything_is_wall() {
    let maze = cell_with_walls_around();
    let hit = cast_ray(&maze, px(-100, 96), Dir::east()).unwrap();
    assert_eq!(hit.tile, '#');
    assert_eq!(hit.perp, 36 * ONE);
    let hit = cast_ray(&maze, px(1000, -1000), Dir::north()).unwrap();
    assert_eq!(hit.tile, '#');
    assert_eq!(hit.perp, 40 * ONE);
}

#[test]
fn a_ray_that_starts_on_the_face_has_the_least_distance() {
    let maze = cell_with_walls_around();
    let hit = cast_ray(&maze, px(64, 96), Dir::west()).unwrap();
    assert_eq!(hit.perp, MIN_DISTANCE);
    assert_eq!(hit.perp_cells, 0);
    assert_eq!(hit.tile, '#');
}

#[test]
fn all_rays_from_the_middle_of_a_walled_room_strike_a_wall() {
    let maze = room_of_three_by_three();
    for deg in 0..360 {
        let dir = toward((deg as f64).to_radians());
        let hit = cast_ray(&maze, px(160, 160), dir);
        let hit = hit.unwrap_or_else(|| panic!("no hit at {deg} degrees"));
        assert_eq!(hit.tile, '#');
        assert!(hit.perp >= 96 * ONE - 16, "{deg} degrees: {}", hit.perp);
        assert!(hit.perp <= 136 * ONE, "{deg} degrees: {}", hit.perp);
        assert!((0..=ONE).contains(&hit.tex_u), "{deg} degrees: {}", hit.tex_u);
    }
}

#[test]
fn distances_agree_with_the_geometry_of_the_room() {
    let maze = room_of_three_by_three();
    for deg in 0..360 {
        let a = (deg as f64).to_radians();
        let hit = cast_ray(&maze, px(160, 160), toward(a)).unwrap();
        let along = 96.0 / a.cos().abs().max(a.sin().abs());
        let got = hit.perp as f64 / ONE as f64;
        assert!((got - along).abs() < 0.01, "{deg} degrees: {got} against {along}");
    }
}

#[test]
fn texture_coordinates_stay_within_the_face() {
    let maze = Maze::from_str_map("#######\n#  #  #\n#     #\n## D  #\n#     #\n#######\n", 48);
    for k in 0..720 {
        let dir = toward((k as f64) * 0.5f64.to_radians());
        for from in [px(70, 100), px(100, 190), px(250, 60), px(200, 200)] {
            let hit = cast_ray(&maze, from, dir).unwrap();
            assert!((0..=ONE).contains(&hit.tex_u));
            assert!(hit.perp >= MIN_DISTANCE);
            assert!(hit.perp_cells >= 0);
            assert!(hit.tile == '#' || hit.tile == 'D');
        }
    }
}

#[test]
fn a_ray_gives_up_after_its_budget_of_steps() {
    let long: String = " ".repeat(5000);
    let maze = Maze::from_str_map(&long, 64);
    assert_eq!(maze.width(), 5000);
    let steps = MAX_STEPS as i64;
    let just_in_reach = px((5000 - steps) * 64 + 32, 32);
    let hit = cast_ray(&maze, just_in_reach, Dir::east()).expect("the rim is in reach");
    assert_eq!(hit.perp, (steps * 64 - 32) * ONE);
    let out_of_reach = px((5000 - steps - 1) * 64 + 32, 32);
    assert!(cast_ray(&maze, out_of_reach, Dir::east()).is_none());
    assert!(cast_ray(&maze, out_of_reach, Dir::west()).is_some());
    assert!(cast_ray(&maze, out_of_reach, Dir::north()).is_some());
}

#[test]
fn the_same_cast_gives_the_same_hit() {
    let maze = room_of_three_by_three();
    let dir = toward(1.0);
    let a = cast_ray(&maze, px(130, 170), dir).unwrap();
    let b = cast_ray(&maze, px(130, 170), dir).unwrap();
    assert_eq!(a, b);
}

#[test]
fn far_origins_are_cast_from_without_overflow() {
    let maze = cell_with_walls_around();
    for from in [
        Vec2::new(i64::MAX, i64::MAX),
        Vec2::new(i64::MIN, i64::MIN),
        Vec2::new(i64::MAX, i64::MIN),
    ] {
        for deg in (0..360).step_by(15) {
            let hit = cast_ray(&maze, from, toward((deg as f64).to_radians())).unwrap();
            assert_eq!(hit.tile, '#');
            assert!(hit.perp <= 128 * ONE);
        }
    }
    let wide = Maze::new(vec![vec![' '; 3]], u32::MAX);
    let hit = cast_ray(&wide, Vec2::new(i64::MAX, 5), Dir::new(46341, 46341).unwrap()).unwrap();
    assert!(hit.perp >= MIN_DISTANCE);
}

#[test]
fn all_rays_from_the_middle_of_a_ring_strike_the_rim() {
    let maze = Maze::from_str_map("#####\n#   #\n# # #\n#   #\n#####\n", 64);
    for deg in 0..360 {
        let dir = toward((deg as f64).to_radians());
        let hit = cast_ray(&maze, px(160, 160), dir).expect("the ring is walled in");
        assert_eq!(hit.tile, '#');
        assert!((0..=ONE).contains(&hit.tex_u));
        assert!(hit.perp >= 96 * ONE - 16 && hit.perp <= 136 * ONE);
    }
}
