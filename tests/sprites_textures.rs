use candy_maze::caster::DIR_ONE;
use candy_maze::framebuffer::{Color, Framebuffer};
use candy_maze::grid::player_cell;
use candy_maze::player::Player;
use candy_maze::render::Camera;
use candy_maze::sprite::{
    collect_sprites, draw_sprite, is_chroma, load_sprites_from_maze, sprite_rect, Sprite,
};
use candy_maze::texture::{Image, TextureManager};

fn four_colours() -> Image {
    Image {
        width: 2,
        height: 2,
        pixels: vec![
            Color::new(255, 0, 0, 255),
            Color::new(0, 255, 0, 255),
            Color::new(0, 0, 255, 255),
            Color::new(255, 255, 255, 255),
        ],
    }
}

fn camera(w: u32) -> Camera {
    Camera { dir_x: DIR_ONE, dir_y: 0, proj_dist: 20, rays: vec![(DIR_ONE, 0); w as usize] }
}

#[test]
fn texel_lookup_clamps_and_falls_back_to_white() {
    let mut tm = TextureManager::new();
    tm.insert('#', four_colours());
    assert_eq!(tm.get_pixel_color('#', 1, 0), Color::new(0, 255, 0, 255));
    assert_eq!(tm.get_pixel_color('#', 5, 5), Color::new(255, 255, 255, 255));
    assert_eq!(tm.get_pixel_color('#', 0, 9), Color::new(0, 0, 255, 255));
    assert_eq!(tm.get_pixel_color('z', 0, 0), Color::new(255, 255, 255, 255));
    assert_eq!(tm.image_size('#'), (2, 2));
    assert_eq!(tm.image_size('z'), (128, 128));
}

#[test]
fn sample_uv_uses_fractional_parts_and_flips_v() {
    let mut tm = TextureManager::new();
    tm.insert('#', four_colours());
    assert_eq!(tm.sample_uv('#', 0, 0), Color::new(0, 0, 255, 255));
    assert_eq!(tm.sample_uv('#', 65535, 65535), Color::new(0, 255, 0, 255));
    assert_eq!(tm.sample_uv('#', 65536, 0), Color::new(255, 255, 255, 255));
    assert_eq!(tm.sample_uv('#', 0, 65536), Color::new(255, 0, 0, 255));
    assert_eq!(tm.sample_uv('#', 65536, 65536), Color::new(0, 255, 0, 255));
    assert_eq!(tm.sample_uv('#', 200000, 300000), Color::new(0, 255, 0, 255));
    assert_eq!(tm.sample_uv('q', 100, 100), Color::new(255, 255, 255, 255));
}

#[test]
fn insert_replaces_an_earlier_image() {
    let mut tm = TextureManager::new();
    tm.insert('#', four_colours());
    let red = Image { width: 1, height: 1, pixels: vec![Color::new(9, 8, 7, 255)] };
    tm.insert('#', red);
    tm.insert('+', four_colours());
    assert_eq!(tm.get_pixel_color('#', 1, 1), Color::new(9, 8, 7, 255));
    assert_eq!(tm.image_size('#'), (1, 1));
    assert_eq!(tm.get_pixel_color('+', 1, 1), Color::new(255, 255, 255, 255));
}

#[test]
fn sprite_at_cell_centre() {
    let s = Sprite::new_cell(2, 3, 64, 'b');
    assert_eq!(s, Sprite { x: 160, y: 224, kind: 'b', collected: false });
}

#[test]
fn sprites_come_from_markers_in_row_major_order() {
    let m: Vec<Vec<char>> = vec!["#b#".chars().collect(), "V p".chars().collect()];
    let v = load_sprites_from_maze(&m, 64);
    assert_eq!(v.len(), 2);
    assert_eq!(v[0], Sprite { x: 96, y: 32, kind: 'b', collected: false });
    assert_eq!(v[1], Sprite { x: 32, y: 96, kind: 'V', collected: false });
}

#[test]
fn sprite_in_player_cell_is_collected_and_stays_collected() {
    let mut v = vec![Sprite::new_cell(1, 1, 64, 'b'), Sprite::new_cell(2, 1, 64, 'V')];
    let (ci, cj) = player_cell(100, 90, 64);
    collect_sprites(&mut v, ci, cj, 64);
    assert!(v[0].collected);
    assert!(!v[1].collected);
    collect_sprites(&mut v, ci, cj, 64);
    assert!(v[0].collected);
    assert!(!v[1].collected);
    collect_sprites(&mut v, 5, 5, 64);
    assert!(v[0].collected);
}

#[test]
fn chroma_key_tolerates_small_differences() {
    assert!(is_chroma(Color::new(152, 0, 136, 255)));
    assert!(is_chroma(Color::new(153, 1, 137, 255)));
    assert!(!is_chroma(Color::new(154, 1, 137, 255)));
    assert!(!is_chroma(Color::new(152, 0, 136, 254)));
}

#[test]
fn sprite_behind_player_is_culled() {
    let player = Player { x: 96, y: 96, a: 0, fov: 0 };
    let behind = Sprite { x: 32, y: 96, kind: 'b', collected: false };
    let cam = camera(40);
    assert!(sprite_rect(&player, &behind, &cam, 64, 40, 30).is_none());
    let mut fb = Framebuffer::new(40, 30);
    let before = fb.color_buffer.clone();
    let depth = vec![1000i64; 40];
    let tm = TextureManager::new();
    draw_sprite(&mut fb, &player, &behind, &tm, &depth, 64, &cam);
    assert_eq!(fb.color_buffer, before);
}

#[test]
fn visible_sprite_square_and_pixels() {
    let player = Player { x: 96, y: 96, a: 0, fov: 0 };
    let s = Sprite { x: 224, y: 96, kind: 'b', collected: false };
    let cam = camera(40);
    let r = sprite_rect(&player, &s, &cam, 64, 40, 30).unwrap();
    assert_eq!((r.left, r.top, r.size), (18, 13, 5));
    assert_eq!((r.x0, r.x1, r.y0, r.y1), (18, 22, 13, 17));
    let mut fb = Framebuffer::new(40, 30);
    let depth = vec![1000i64; 40];
    let tm = TextureManager::new();
    draw_sprite(&mut fb, &player, &s, &tm, &depth, 64, &cam);
    let white = Color::new(255, 255, 255, 255);
    let black = Color::new(0, 0, 0, 255);
    assert_eq!(fb.color_buffer[15 * 40 + 20], white);
    assert_eq!(fb.color_buffer[13 * 40 + 18], white);
    assert_eq!(fb.color_buffer[12 * 40 + 20], black);
    assert_eq!(fb.color_buffer[15 * 40 + 23], black);
}

#[test]
fn occluded_column_gets_no_sprite_pixels() {
    let player = Player { x: 96, y: 96, a: 0, fov: 0 };
    let s = Sprite { x: 224, y: 96, kind: 'b', collected: false };
    let cam = camera(40);
    let mut fb = Framebuffer::new(40, 30);
    let mut depth = vec![1000i64; 40];
    depth[20] = 100;
    let tm = TextureManager::new();
    draw_sprite(&mut fb, &player, &s, &tm, &depth, 64, &cam);
    let black = Color::new(0, 0, 0, 255);
    for y in 13..=17 {
        assert_eq!(fb.color_buffer[y * 40 + 20], black);
        assert_eq!(fb.color_buffer[y * 40 + 19], Color::new(255, 255, 255, 255));
    }
}

#[test]
fn chroma_and_transparent_texels_are_skipped() {
    let player = Player { x: 96, y: 96, a: 0, fov: 0 };
    let s = Sprite { x: 224, y: 96, kind: 'V', collected: false };
    let cam = camera(40);
    let mut tm = TextureManager::new();
    tm.insert('V', Image { width: 1, height: 1, pixels: vec![Color::new(152, 0, 136, 255)] });
    let mut fb = Framebuffer::new(40, 30);
    let before = fb.color_buffer.clone();
    draw_sprite(&mut fb, &player, &s, &tm, &vec![1000i64; 40], 64, &cam);
    assert_eq!(fb.color_buffer, before);
    tm.insert('V', Image { width: 1, height: 1, pixels: vec![Color::new(1, 2, 3, 0)] });
    draw_sprite(&mut fb, &player, &s, &tm, &vec![1000i64; 40], 64, &cam);
    assert_eq!(fb.color_buffer, before);
}
