use raycaster::fixed::ONE;
use raycaster::geometry::Vec2;
use raycaster::levels::{start_level, Levels, LEVEL_TILE};
use raycaster::screamer::ScreamerState;

fn files() -> Vec<(String, String)> {
    vec![
        ("01".to_string(), "###\n#P#\n###\n".to_string()),
        ("02".to_string(), "#####\n#  S#\n# P #\n#####\n".to_string()),
        ("last one".to_string(), "####\n#  #\n####".to_string()),
    ]
}

#[test]
fn levels_are_read_in_their_order() {
    let levels = Levels::from_texts(&files());
    assert_eq!(levels.len(), 3);
    assert_eq!(levels.index(), 0);
    assert_eq!(levels.active().width(), 3);
    assert_eq!(levels.active().block_size(), LEVEL_TILE);
    assert_eq!(levels.active().block_size(), 64);
    assert_eq!(levels.name(0), "01");
    assert_eq!(levels.name(1), "02");
    assert_eq!(levels.name(2), "last one");
}

#[test]
fn a_level_that_does_not_exist_has_the_default_name() {
    let levels = Levels::from_texts(&files());
    assert_eq!(levels.name(3), "nivel");
    assert_eq!(levels.name(usize::MAX), "nivel");
    let none = Levels::from_texts(&Vec::new());
    assert_eq!(none.name(0), "nivel");
}

#[test]
fn next_goes_on_until_the_last_level() {
    let mut levels = Levels::from_texts(&files());
    assert!(levels.next());
    assert_eq!(levels.index(), 1);
    assert_eq!(levels.active().width(), 5);
    assert!(levels.next());
    assert_eq!(levels.index(), 2);
    assert_eq!(levels.active().width(), 4);
    assert!(!levels.next());
    assert_eq!(levels.index(), 2);
    assert_eq!(levels.len(), 3);
}

#[test]
fn set_current_stops_at_the_last_level() {
    let mut levels = Levels::from_texts(&files());
    levels.set_current(2);
    assert_eq!(levels.index(), 2);
    levels.set_current(1);
    assert_eq!(levels.index(), 1);
    levels.set_current(3);
    assert_eq!(levels.index(), 2);
    levels.set_current(usize::MAX);
    assert_eq!(levels.index(), 2);
    levels.set_current(0);
    assert_eq!(levels.index(), 0);
}

#[test]
fn without_levels_the_index_stays_zero() {
    let mut levels = Levels::from_texts(&Vec::new());
    assert_eq!(levels.len(), 0);
    assert_eq!(levels.index(), 0);
    assert!(!levels.next());
    levels.set_current(5);
    assert_eq!(levels.index(), 0);
}

#[test]
fn starting_a_level_places_player_and_trigger() {
    let mut levels = Levels::from_texts(&files());
    let mut screamer = ScreamerState::new();
    let player = start_level(&mut levels, 1, &mut screamer);
    assert_eq!(levels.index(), 1);
    assert_eq!(player.pos(), Vec2::new(160 * ONE, 160 * ONE));
    assert_eq!(player.heading(), 0);
    assert_eq!(
        screamer,
        ScreamerState { pos: Vec2::new(224 * ONE, 96 * ONE), active: false, timer: 0, enabled: true }
    );
}

#[test]
fn starting_a_level_without_markers_uses_the_defaults() {
    let mut levels = Levels::from_texts(&files());
    let mut screamer =
        ScreamerState { pos: Vec2::new(5, 6), active: true, timer: 99, enabled: true };
    let player = start_level(&mut levels, 7, &mut screamer);
    assert_eq!(levels.index(), 2);
    assert_eq!(player.pos(), Vec2::new(96 * ONE, 96 * ONE));
    assert_eq!(
        screamer,
        ScreamerState { pos: Vec2::new(5, 6), active: false, timer: 0, enabled: false }
    );
}
