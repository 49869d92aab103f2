use candy_maze::grid::{can_stand, find_char, is_wall, player_cell, tile_at, Maze};
use candy_maze::player::{collision_radius, process_events, turn_heading, Player, ANGLE_FULL};

fn grid(rows: &[&str]) -> Maze {
    rows.iter().map(|r| r.chars().collect()).collect()
}

#[test]
fn walkable_symbols_are_not_walls() {
    for c in [' ', 'g', 'p', 'b', 'V'] {
        assert!(!is_wall(c));
    }
    for c in ['#', '+', '-', '|', '1', 'x'] {
        assert!(is_wall(c));
    }
}

#[test]
fn tile_lookup_inside_and_outside() {
    let m = grid(&["#####", "#p  #", "###"]);
    assert_eq!(tile_at(&m, 70, 70, 64), Some('p'));
    assert_eq!(tile_at(&m, 0, 0, 64), Some('#'));
    assert_eq!(tile_at(&m, -1, 70, 64), None);
    assert_eq!(tile_at(&m, 70, -5, 64), None);
    assert_eq!(tile_at(&m, 64 * 5, 70, 64), None);
    assert_eq!(tile_at(&m, 64 * 3, 64 * 2, 64), None);
    assert_eq!(tile_at(&m, 64 * 2, 64 * 2, 64), Some('#'));
    assert_eq!(tile_at(&m, 0, 64 * 3, 64), None);
}

#[test]
fn find_char_first_in_row_major_order() {
    let m = grid(&["# b#", "bp b"]);
    assert_eq!(find_char(&m, 'b'), Some((2, 0)));
    assert_eq!(find_char(&m, 'p'), Some((1, 1)));
    assert_eq!(find_char(&m, 'z'), None);
    let empty: Maze = Vec::new();
    assert_eq!(find_char(&empty, 'p'), None);
}

#[test]
fn player_cell_divides_and_clamps() {
    assert_eq!(player_cell(96, 130, 64), (1, 2));
    assert_eq!(player_cell(-5, 63, 64), (0, 0));
}

#[test]
fn clearance_check_is_repeatable() {
    let m = grid(&["#####", "#p  #", "#####"]);
    let r = collision_radius(64);
    assert_eq!(r, 21);
    let first = can_stand(&m, 96, 96, r, 64);
    let second = can_stand(&m, 96, 96, r, 64);
    assert!(first);
    assert_eq!(first, second);
    let a = can_stand(&m, 240, 96, r, 64);
    let b = can_stand(&m, 240, 96, r, 64);
    assert!(!a);
    assert_eq!(a, b);
}

#[test]
fn move_into_wall_stops_short_and_slides() {
    let m = grid(&["#####", "#p  #", "#####"]);
    let mut p = Player { x: 224, y: 96, a: 0, fov: ANGLE_FULL / 6 };
    process_events(&mut p, &m, 64, 0, 40, 0);
    assert_eq!((p.x, p.y), (226, 96));
    assert!(p.x + 21 < 256);
    let m2 = grid(&["#####", "#p  #", "#   #", "#####"]);
    let mut q = Player { x: 224, y: 96, a: 0, fov: ANGLE_FULL / 6 };
    process_events(&mut q, &m2, 64, 0, 40, 10);
    assert_eq!((q.x, q.y), (226, 106));
}

#[test]
fn free_move_takes_the_whole_step() {
    let m = grid(&["#####", "#p  #", "#####"]);
    let mut p = Player { x: 96, y: 96, a: 0, fov: ANGLE_FULL / 6 };
    process_events(&mut p, &m, 64, 0, 30, 0);
    assert_eq!((p.x, p.y), (126, 96));
    process_events(&mut p, &m, 64, 0, 0, 0);
    assert_eq!((p.x, p.y), (126, 96));
}

#[test]
fn blocked_step_falls_back_to_slip() {
    let m = grid(&["###", "#p#", "###"]);
    let mut p = Player { x: 96, y: 96, a: 100, fov: ANGLE_FULL / 6 };
    process_events(&mut p, &m, 64, 0, 20, 0);
    assert_eq!((p.x, p.y), (98, 96));
    process_events(&mut p, &m, 64, 0, 0, -20);
    assert_eq!((p.x, p.y), (98, 94));
}

#[test]
fn blocked_step_and_slip_stays_put() {
    let m = grid(&["###", "#p#", "###"]);
    let mut p = Player { x: 105, y: 96, a: 100, fov: ANGLE_FULL / 6 };
    process_events(&mut p, &m, 64, 0, 20, 0);
    assert_eq!((p.x, p.y), (105, 96));
}

#[test]
fn heading_wraps_both_ways() {
    assert_eq!(turn_heading(65000, 1000), 464);
    assert_eq!(turn_heading(100, -200), ANGLE_FULL - 100);
    assert_eq!(turn_heading(0, 0), 0);
    let m = grid(&["###", "#p#", "###"]);
    let mut p = Player { x: 96, y: 96, a: 65000, fov: 7 };
    process_events(&mut p, &m, 64, 1000, 0, 0);
    assert_eq!(p.a, 464);
    assert_eq!(p.fov, 7);
}
