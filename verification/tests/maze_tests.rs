use raycaster::fixed::ONE;
use raycaster::geometry::Vec2;
use raycaster::maze::{is_blocking, tile_kind, Maze, TileKind};

fn rows(lines: &[&str]) -> Vec<Vec<char>> {
    lines.iter().map(|l| l.chars().collect()).collect()
}

#[test]
fn new_takes_its_size_from_the_rows() {
    let m = Maze::new(rows(&["#####", "#P D#", "#####"]), 64);
    assert_eq!(m.width(), 5);
    assert_eq!(m.height(), 3);
    assert_eq!(m.block_size(), 64);
    assert_eq!(m.cell_size(), 64 * ONE);
}

#[test]
fn new_of_no_rows_is_empty() {
    let m = Maze::new(Vec::new(), 32);
    assert_eq!(m.width(), 0);
    assert_eq!(m.height(), 0);
    assert_eq!(m.cell(0, 0), '#');
    assert!(m.is_blocking_at(0, 0));
    assert_eq!(m.find_char('#'), None);
}

#[test]
fn out_of_range_cells_are_walls() {
    let m = Maze::new(rows(&["   ", "   "]), 64);
    assert_eq!(m.cell(-1, 0), '#');
    assert_eq!(m.cell(0, -1), '#');
    assert_eq!(m.cell(3, 0), '#');
    assert_eq!(m.cell(0, 2), '#');
    assert_eq!(m.cell(1, 1), ' ');
    assert_eq!(m.cell(isize::MIN, isize::MAX), '#');
    assert_eq!(m.cell_i32(i32::MAX, 0), '#');
    assert_eq!(m.cell_i32(2, 1), ' ');
    assert_eq!(m.cell_at(i64::MIN, 0), '#');
    assert_eq!(m.get(usize::MAX, 0), '#');
    assert_eq!(m.get(2, 1), ' ');
}

#[test]
fn every_coordinate_outside_the_grid_blocks() {
    let m = Maze::new(rows(&["  ", "  ", "  "]), 64);
    for i in -4isize..6 {
        for j in -4isize..7 {
            let inside = (0..2).contains(&i) && (0..3).contains(&j);
            assert_eq!(m.is_blocking_at(i, j), !inside, "cell {i},{j}");
            assert_eq!(m.blocks_at(i as i64, j as i64), !inside);
        }
    }
}

#[test]
fn walls_and_doors_block_and_nothing_else_does() {
    let m = Maze::new(rows(&["#DPS x"]), 64);
    assert!(m.is_blocking_at(0, 0));
    assert!(m.is_blocking_at(1, 0));
    assert!(!m.is_blocking_at(2, 0));
    assert!(!m.is_blocking_at(3, 0));
    assert!(!m.is_blocking_at(4, 0));
    assert!(!m.is_blocking_at(5, 0));
    assert!(is_blocking('#'));
    assert!(is_blocking('D'));
    assert!(!is_blocking('d'));
}

#[test]
fn only_door_cells_are_doors() {
    let m = Maze::new(rows(&["#D ", " D#"]), 64);
    assert!(m.is_door_at(1, 0));
    assert!(m.is_door_at(1, 1));
    assert!(!m.is_door_at(0, 0));
    assert!(!m.is_door_at(2, 0));
    assert!(!m.is_door_at(-1, 0));
    assert!(!m.is_door_at(1, 2));
}

#[test]
fn tile_kinds_of_the_symbols() {
    assert_eq!(tile_kind('#'), TileKind::Wall);
    assert_eq!(tile_kind('D'), TileKind::Door);
    assert_eq!(tile_kind('P'), TileKind::Spawn);
    assert_eq!(tile_kind('S'), TileKind::Trigger);
    assert_eq!(tile_kind(' '), TileKind::Floor);
    assert_eq!(tile_kind('?'), TileKind::Floor);
}

#[test]
fn find_char_goes_row_by_row_from_the_top() {
    let m = Maze::new(rows(&["#####", "#  S#", "#S  #", "#####"]), 64);
    assert_eq!(m.find_char('S'), Some((3, 1)));
    assert_eq!(m.find_char('#'), Some((0, 0)));
    assert_eq!(m.find_char('P'), None);
}

#[test]
fn find_char_goes_from_left_to_right_in_a_row() {
    let m = Maze::new(rows(&["  S S "]), 64);
    assert_eq!(m.find_char('S'), Some((2, 0)));
}

#[test]
fn cell_center_is_half_a_tile_into_the_cell() {
    let m = Maze::new(rows(&["   ", "   "]), 64);
    assert_eq!(m.cell_center_world((0, 0)), Vec2::new(32 * ONE, 32 * ONE));
    assert_eq!(m.cell_center_world((2, 1)), Vec2::new(160 * ONE, 96 * ONE));
    assert_eq!(m.cell_center_world((-1, -2)), Vec2::new(-32 * ONE, -96 * ONE));
    assert_eq!(m.cell_center(2, 1), Some(Vec2::new(160 * ONE, 96 * ONE)));
}

#[test]
fn cell_center_of_an_odd_tile_keeps_the_half() {
    let m = Maze::new(rows(&[" "]), 5);
    assert_eq!(m.cell_center_world((1, 0)), Vec2::new(7 * ONE + ONE / 2, 2 * ONE + ONE / 2));
}

#[test]
fn cell_center_that_no_position_can_name_is_none() {
    let m = Maze::new(rows(&[" "]), u32::MAX);
    assert_eq!(m.cell_center(1 << 40, 0), None);
    assert_eq!(m.cell_center(0, 1 << 40), None);
    assert!(m.cell_center(1 << 10, 0).is_some());
}

#[test]
fn world_to_cell_rounds_down() {
    let m = Maze::new(rows(&["   "]), 64);
    assert_eq!(m.world_to_cell(Vec2::new(0, 0)), (0, 0));
    assert_eq!(m.world_to_cell(Vec2::new(64 * ONE - 1, 64 * ONE)), (0, 1));
    assert_eq!(m.world_to_cell(Vec2::new(96 * ONE, 200 * ONE)), (1, 3));
    assert_eq!(m.world_to_cell(Vec2::new(-1, -64 * ONE)), (-1, -1));
    assert_eq!(m.world_to_cell(Vec2::new(-64 * ONE - 1, -ONE)), (-2, -1));
}

#[test]
fn world_to_cell_at_the_ends_of_the_range() {
    let m = Maze::new(rows(&[" "]), 1);
    assert_eq!(m.world_to_cell(Vec2::new(i64::MAX, i64::MIN)), (i64::MAX >> 16, i64::MIN >> 16));
}

#[test]
fn from_str_map_reads_one_row_per_line() {
    let m = Maze::from_str_map("###\n#P#\n###\n", 64);
    assert_eq!(m.width(), 3);
    assert_eq!(m.height(), 3);
    assert_eq!(m.cell(1, 1), 'P');
    assert_eq!(m.cell(0, 2), '#');
    assert_eq!(m.block_size(), 64);
}

#[test]
fn from_str_map_takes_a_last_line_without_line_feed() {
    let m = Maze::from_str_map("ab\ncd", 64);
    assert_eq!(m.height(), 2);
    assert_eq!(m.cell(0, 1), 'c');
    assert_eq!(m.cell(1, 1), 'd');
}

#[test]
fn from_str_map_passes_over_empty_lines() {
    let m = Maze::from_str_map("\n\nab\n\ncd\n\n", 64);
    assert_eq!(m.height(), 2);
    assert_eq!(m.cell(0, 0), 'a');
    assert_eq!(m.cell(1, 1), 'd');
}

#[test]
fn from_str_map_fills_short_rows_with_empty_tiles() {
    let m = Maze::from_str_map("#\n####\n##\n", 64);
    assert_eq!(m.width(), 4);
    assert_eq!(m.height(), 3);
    assert_eq!(m.cell(0, 0), '#');
    assert_eq!(m.cell(1, 0), ' ');
    assert_eq!(m.cell(3, 0), ' ');
    assert_eq!(m.cell(3, 1), '#');
    assert_eq!(m.cell(2, 2), ' ');
    assert!(!m.is_blocking_at(3, 2));
}

#[test]
fn from_str_map_takes_carriage_returns_as_part_of_the_line_end() {
    let m = Maze::from_str_map("ab\r\ncd\r\n\r\n", 64);
    assert_eq!(m.width(), 2);
    assert_eq!(m.height(), 2);
    assert_eq!(m.cell(1, 0), 'b');
    assert_eq!(m.cell(1, 1), 'd');
}

#[test]
fn from_str_map_keeps_a_carriage_return_that_ends_the_text() {
    let m = Maze::from_str_map("ab\ncd\r", 64);
    assert_eq!(m.width(), 3);
    assert_eq!(m.cell(2, 1), '\r');
    assert_eq!(m.cell(2, 0), ' ');
}

#[test]
fn from_str_map_reads_as_the_standard_line_splitter_does() {
    let texts = ["", "\n", "a", "a\n", "a\r\nb", "\r\n", "a\r", "x\n\ny\r\n\r\nzz", "é#\n☃"];
    for text in texts {
        let m = Maze::from_str_map(text, 64);
        let expect: Vec<Vec<char>> =
            text.lines().map(|l| l.chars().collect::<Vec<char>>()).filter(|r| !r.is_empty()).collect();
        assert_eq!(m.height(), expect.len(), "text {text:?}");
        for (j, row) in expect.iter().enumerate() {
            for (i, c) in row.iter().enumerate() {
                assert_eq!(m.get(i, j), *c, "text {text:?}");
            }
        }
    }
}

#[test]
fn from_str_map_of_an_empty_text_is_an_empty_maze() {
    let m = Maze::from_str_map("", 64);
    assert_eq!(m.width(), 0);
    assert_eq!(m.height(), 0);
    assert!(m.is_blocking_at(0, 0));
}

#[test]
fn find_marker_names_the_middle_of_the_first_cell() {
    let m = Maze::from_str_map("####\n# S#\n#S #\n####", 64);
    assert_eq!(m.find_marker('S'), Some(Vec2::new(160 * ONE, 96 * ONE)));
    assert_eq!(m.find_marker('P'), None);
}

#[test]
fn a_clone_answers_as_the_maze_does() {
    let m = Maze::from_str_map("#D#\n#P \n", 48);
    let c = m.clone();
    assert_eq!(c.width(), m.width());
    assert_eq!(c.height(), m.height());
    assert_eq!(c.block_size(), 48);
    for j in 0..2 {
        for i in 0..3 {
            assert_eq!(c.get(i, j), m.get(i, j));
        }
    }
}
