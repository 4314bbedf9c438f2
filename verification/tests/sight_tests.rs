use raycaster::fixed::ONE;
use raycaster::geometry::Vec2;
use raycaster::maze::Maze;
use raycaster::screamer::{
    find_screamer_pos, is_within, update_screamer, ScreamerState, TRIGGER_REACH, TRIGGER_TIME,
};
use raycaster::sight::has_los;

const TICK: u32 = 655;

fn px(x: i64, y: i64) -> Vec2 {
    Vec2::new(x * ONE, y * ONE)
}

fn two_rooms() -> Maze {
    Maze::from_str_map("#######\n#  #  #\n#     #\n#  #  #\n#######\n", 64)
}

fn with_trigger() -> Maze {
    Maze::from_str_map("#######\n#  # S#\n#     #\n#######\n", 64)
}

#[test]
fn points_in_the_same_open_cell_see_each_other() {
    let maze = two_rooms();
    for (a, b) in [
        (px(70, 70), px(120, 120)),
        (px(127, 64), px(64, 127)),
        (px(100, 100), px(100, 100)),
        (Vec2::new(128 * ONE - 1, 128 * ONE - 1), px(64, 64)),
    ] {
        assert!(has_los(&maze, a, b));
        assert!(has_los(&maze, b, a));
    }
}

#[test]
fn points_in_the_same_blocking_cell_do_not_see_each_other() {
    let maze = two_rooms();
    assert!(!has_los(&maze, px(10, 10), px(20, 30)));
    assert!(!has_los(&maze, px(200, 100), px(210, 90)));
}

#[test]
fn a_wall_between_two_points_of_a_row_blocks_sight() {
    let maze = two_rooms();
    for (xa, xb) in [(100, 300), (70, 380), (127, 256), (190, 257)] {
        for (ya, yb) in [(96, 96), (65, 127), (127, 70)] {
            assert!(!has_los(&maze, px(xa, ya), px(xb, yb)), "{xa},{ya} to {xb},{yb}");
            assert!(!has_los(&maze, px(xb, yb), px(xa, ya)), "{xb},{yb} to {xa},{ya}");
        }
    }
}

#[test]
fn a_wall_between_two_points_of_a_column_blocks_sight() {
    let maze = Maze::from_str_map("#####\n#   #\n# # #\n#   #\n#####\n", 64);
    for (ya, yb) in [(100, 220), (70, 250), (127, 192)] {
        for (xa, xb) in [(160, 160), (130, 190), (191, 128)] {
            assert!(!has_los(&maze, px(xa, ya), px(xb, yb)));
            assert!(!has_los(&maze, px(xb, yb), px(xa, ya)));
        }
    }
}

#[test]
fn the_gap_between_the_rooms_lets_sight_through() {
    let maze = two_rooms();
    assert!(has_los(&maze, px(100, 160), px(350, 160)));
    assert!(has_los(&maze, px(350, 180), px(100, 140)));
    assert!(has_los(&maze, px(96, 96), px(96, 220)));
}

#[test]
fn sight_is_tested_from_the_first_point_only_up_to_the_last_sample() {
    let maze = two_rooms();
    // The second point lies in a wall less than half a tile beyond the
    // last sample, which still lies in the open.
    assert!(has_los(&maze, px(100, 100), px(100, 60)));
    // From the wall the first sample blocks.
    assert!(!has_los(&maze, px(100, 60), px(100, 100)));
}

#[test]
fn points_far_outside_the_grid_do_not_see_each_other() {
    let maze = two_rooms();
    assert!(!has_los(&maze, Vec2::new(i64::MIN, i64::MIN), Vec2::new(i64::MAX, i64::MAX)));
    assert!(!has_los(&maze, px(100, 100), Vec2::new(i64::MAX, 100 * ONE)));
    assert!(!has_los(&maze, Vec2::new(i64::MAX, i64::MIN), px(100, 100)));
}

#[test]
fn within_compares_the_distance_with_the_reach() {
    assert!(is_within(px(0, 0), px(3, 4), 5 * ONE));
    assert!(!is_within(px(0, 0), px(3, 4), 5 * ONE - 1));
    assert!(is_within(px(10, 10), px(7, 6), 5 * ONE));
    assert!(is_within(px(1, 1), px(1, 1), 0));
    assert!(!is_within(px(1, 1), Vec2::new(ONE + 1, ONE), 0));
    assert!(!is_within(Vec2::new(i64::MIN, i64::MIN), Vec2::new(i64::MAX, i64::MAX), 1 << 62));
    assert!(is_within(Vec2::new(i64::MAX, i64::MAX), Vec2::new(i64::MAX - 3, i64::MAX - 4), 5));
}

#[test]
fn the_trigger_lies_in_the_middle_of_its_cell() {
    assert_eq!(find_screamer_pos(&with_trigger()), Some(px(352, 96)));
    assert_eq!(find_screamer_pos(&two_rooms()), None);
}

#[test]
fn reset_enables_the_trigger_where_the_level_has_one() {
    let mut s = ScreamerState { pos: px(1, 2), active: true, timer: 77, enabled: false };
    assert_eq!(s.reset(&with_trigger()), Some(px(352, 96)));
    assert_eq!(s, ScreamerState { pos: px(352, 96), active: false, timer: 0, enabled: true });
    s.active = true;
    s.timer = 5;
    assert_eq!(s.reset(&two_rooms()), None);
    assert_eq!(s, ScreamerState { pos: px(352, 96), active: false, timer: 0, enabled: false });
    assert_eq!(
        ScreamerState::new(),
        ScreamerState { pos: px(0, 0), active: false, timer: 0, enabled: false }
    );
}

#[test]
fn a_disabled_trigger_never_goes_off() {
    let maze = with_trigger();
    let mut s = ScreamerState { pos: px(352, 96), active: false, timer: 0, enabled: false };
    assert!(!update_screamer(&maze, px(352, 100), &mut s, TICK));
    assert_eq!(s, ScreamerState { pos: px(352, 96), active: false, timer: 0, enabled: false });
    let mut t = ScreamerState { pos: px(352, 96), active: true, timer: 500, enabled: false };
    assert!(!update_screamer(&maze, px(352, 100), &mut t, TICK));
    assert_eq!(t.timer, 500);
    assert!(t.active);
}

#[test]
fn the_trigger_goes_off_within_reach_and_in_sight() {
    assert_eq!(TRIGGER_REACH, (1.2 * ONE as f64) as i64);
    assert_eq!(TRIGGER_TIME, (1.2 * ONE as f64) as i64);
    let maze = with_trigger();
    let mut s = ScreamerState::new();
    s.reset(&maze);
    assert!(update_screamer(&maze, px(352, 160), &mut s, TICK));
    assert_eq!(s, ScreamerState { pos: px(352, 96), active: true, timer: TRIGGER_TIME, enabled: true });
}

#[test]
fn the_reach_is_one_and_a_fifth_tiles() {
    let maze = with_trigger();
    let reach = 64 * TRIGGER_REACH;
    let at = |x: i64| {
        let mut s = ScreamerState::new();
        s.reset(&maze);
        update_screamer(&maze, Vec2::new(x, 96 * ONE), &mut s, TICK)
    };
    assert!(at(352 * ONE - reach));
    assert!(!at(352 * ONE - reach - 1));
    assert!(at(352 * ONE + 20 * ONE));
}

#[test]
fn the_trigger_does_not_go_off_behind_a_wall() {
    let maze = Maze::from_str_map("#####\n# # #\n#   #\n#####\n", 64);
    let at_the_wall = ScreamerState { pos: px(194, 96), active: false, timer: 0, enabled: true };
    let mut s = at_the_wall;
    assert!(is_within(px(126, 96), s.pos, 64 * TRIGGER_REACH));
    assert!(!has_los(&maze, px(126, 96), s.pos));
    assert!(!update_screamer(&maze, px(126, 96), &mut s, TICK));
    assert_eq!(s, at_the_wall);
    assert!(update_screamer(&maze, px(224, 150), &mut s, TICK));
    assert!(s.active);
}

#[test]
fn an_active_trigger_counts_down_and_then_rests() {
    let maze = with_trigger();
    let mut s = ScreamerState::new();
    s.reset(&maze);
    let by = px(352, 160);
    assert!(update_screamer(&maze, by, &mut s, TICK));
    let mut ticks = 0;
    while s.active {
        assert!(!update_screamer(&maze, by, &mut s, TICK));
        ticks += 1;
        if s.active {
            assert_eq!(s.timer, TRIGGER_TIME - ticks * TICK as i64);
        }
    }
    assert_eq!(ticks, (TRIGGER_TIME + TICK as i64 - 1) / TICK as i64);
    assert_eq!(s.timer, 0);
    assert!(update_screamer(&maze, by, &mut s, TICK));
    assert_eq!(s.timer, TRIGGER_TIME);
}

#[test]
fn a_long_tick_ends_the_active_time_at_once() {
    let maze = with_trigger();
    let mut s = ScreamerState { pos: px(352, 96), active: true, timer: TRIGGER_TIME, enabled: true };
    assert!(!update_screamer(&maze, px(0, 0), &mut s, u32::MAX));
    assert_eq!(s, ScreamerState { pos: px(352, 96), active: false, timer: 0, enabled: true });
    let mut t = ScreamerState { pos: px(352, 96), active: true, timer: i64::MIN, enabled: true };
    assert!(!update_screamer(&maze, px(0, 0), &mut t, 0));
    assert_eq!((t.active, t.timer), (false, 0));
    let mut u = ScreamerState { pos: px(352, 96), active: true, timer: i64::MAX, enabled: true };
    assert!(!update_screamer(&maze, px(0, 0), &mut u, 1));
    assert_eq!((u.active, u.timer), (true, i64::MAX - 1));
}
