use candy_maze::framebuffer::{Color, Framebuffer};
use candy_maze::level::{clock_digits, count_collected, level_outcome, load_level, Outcome};
use candy_maze::minimap::render_minimap;
use candy_maze::player::Player;
use candy_maze::sprite::Sprite;

fn grid(rows: &[&str]) -> Vec<Vec<char>> {
    rows.iter().map(|r| r.chars().collect()).collect()
}

#[test]
fn pixel_writes_stay_on_the_canvas() {
    let mut fb = Framebuffer::new(3, 2);
    assert_eq!(fb.color_buffer.len(), 6);
    assert!(fb.color_buffer.iter().all(|c| *c == Color::new(0, 0, 0, 255)));
    fb.set_pixel(1, 1);
    assert_eq!(fb.color_buffer[4], Color::new(255, 255, 255, 255));
    let snapshot = fb.color_buffer.clone();
    fb.set_pixel(5, 5);
    fb.set_pixel_with_color_i32(-1, 0, Color::new(1, 1, 1, 255));
    fb.set_pixel_with_color_i32(0, 2, Color::new(1, 1, 1, 255));
    assert_eq!(fb.color_buffer, snapshot);
    fb.set_current_color(Color::new(9, 9, 9, 255));
    fb.set_pixel(2, 0);
    assert_eq!(fb.color_buffer[2], Color::new(9, 9, 9, 255));
    fb.set_pixel_with_color_i32(0, 1, Color::new(7, 7, 7, 255));
    assert_eq!(fb.color_buffer[3], Color::new(7, 7, 7, 255));
}

#[test]
fn clear_fills_with_background() {
    let mut fb = Framebuffer::new(2, 2);
    fb.set_pixel(0, 0);
    fb.set_background_color(Color::new(4, 5, 6, 255));
    fb.clear();
    assert!(fb.color_buffer.iter().all(|c| *c == Color::new(4, 5, 6, 255)));
}

#[test]
fn filled_circle_covers_the_disc_only() {
    let mut fb = Framebuffer::new(5, 5);
    let red = Color::new(230, 41, 55, 255);
    fb.draw_circle_filled(2, 2, 1, red);
    let painted: Vec<usize> = (0..25).filter(|&i| fb.color_buffer[i] == red).collect();
    assert_eq!(painted, vec![7, 11, 12, 13, 17]);
    let mut edge = Framebuffer::new(3, 3);
    edge.draw_circle_filled(0, 0, 1, red);
    let painted: Vec<usize> = (0..9).filter(|&i| edge.color_buffer[i] == red).collect();
    assert_eq!(painted, vec![0, 1, 3]);
}

#[test]
fn fill_rect_is_clipped() {
    let mut fb = Framebuffer::new(4, 3);
    let c = Color::new(1, 2, 3, 255);
    fb.fill_rect(2, 1, 5, 5, c);
    let painted: Vec<usize> = (0..12).filter(|&i| fb.color_buffer[i] == c).collect();
    assert_eq!(painted, vec![6, 7, 10, 11]);
}

#[test]
fn minimap_layers_dot_sprites_tiles_backdrop() {
    let m = grid(&["###", "# #", "###"]);
    let mut fb = Framebuffer::new(60, 60);
    let player = Player { x: 96, y: 96, a: 0, fov: 0 };
    let sprites = vec![Sprite { x: 96, y: 96, kind: 'b', collected: false }];
    render_minimap(&mut fb, &m, 64, &player, &sprites);
    let at = |x: usize, y: usize| fb.color_buffer[y * 60 + x];
    assert_eq!(at(22, 22), Color::new(230, 41, 55, 255));
    assert_eq!(at(10, 10), Color::new(130, 130, 130, 255));
    assert_eq!(at(18, 18), Color::new(130, 130, 130, 255));
    assert_eq!(at(40, 40), Color::new(0, 0, 0, 255));
    let mut fb2 = Framebuffer::new(60, 60);
    let gone = vec![Sprite { x: 96, y: 96, kind: 'b', collected: true }];
    render_minimap(&mut fb2, &m, 64, &player, &gone);
    assert_eq!(fb2.color_buffer[18 * 60 + 18], Color::new(20, 20, 30, 255));
    assert_eq!(fb2.color_buffer[22 * 60 + 22], Color::new(230, 41, 55, 255));
}

#[test]
fn load_level_finds_spawn_sprites_and_clears_markers() {
    let (maze, sprites, spawn) = load_level(grid(&["#####", "#pb #", "#V 3#", "#####"]), 64);
    assert_eq!(spawn, (96, 96));
    assert_eq!(
        sprites,
        vec![
            Sprite { x: 160, y: 96, kind: 'b', collected: false },
            Sprite { x: 96, y: 160, kind: 'V', collected: false },
        ]
    );
    assert_eq!(maze, grid(&["#####", "#   #", "#   #", "#####"]));
    let (_, none, fallback) = load_level(grid(&["###", "# #", "###"]), 64);
    assert!(none.is_empty());
    assert_eq!(fallback, (96, 96));
}

#[test]
fn level_outcome_rules() {
    assert_eq!(level_outcome(3, 3, 5), Outcome::Won);
    assert_eq!(level_outcome(3, 3, 0), Outcome::Won);
    assert_eq!(level_outcome(3, 2, -1), Outcome::Lost);
    assert_eq!(level_outcome(3, 3, -1), Outcome::Lost);
    assert_eq!(level_outcome(0, 0, 10), Outcome::Playing);
    assert_eq!(level_outcome(3, 2, 0), Outcome::Playing);
}

#[test]
fn counts_and_clock() {
    let mut v = vec![Sprite::new_cell(1, 1, 64, 'b'), Sprite::new_cell(2, 1, 64, 'b')];
    assert_eq!(count_collected(&v), 0);
    v[1].collected = true;
    assert_eq!(count_collected(&v), 1);
    assert_eq!(clock_digits(75), (1, 0));
    assert_eq!(clock_digits(-3), (0, 0));
    assert_eq!(clock_digits(42), (0, 42));
}
