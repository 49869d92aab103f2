use candy_maze::caster::{cast_ray, Intersect, DIR_ONE};
use candy_maze::framebuffer::{Color, Framebuffer};
use candy_maze::grid::{find_char, Maze};
use candy_maze::level::spawn_point;
use candy_maze::player::Player;
use candy_maze::render::{
    corrected_distance, plan_slice, render_world, shade, shade_channel, wall_u, Camera,
};
use candy_maze::texture::TextureManager;

fn grid(rows: &[&str]) -> Maze {
    rows.iter().map(|r| r.chars().collect()).collect()
}

fn corridor() -> Maze {
    grid(&["#####", "#p  #", "#####"])
}

#[test]
fn cast_east_from_spawn_hits_east_wall() {
    let m = corridor();
    assert_eq!(find_char(&m, 'p'), Some((1, 1)));
    let (x, y) = spawn_point(&m, 64);
    assert_eq!((x, y), (96, 96));
    let hit = cast_ray(&m, x, y, DIR_ONE, 0, 64);
    assert_eq!(hit.distance, 3 * 64 + 64 - 96);
    assert_eq!(hit.impact, '#');
    assert_eq!((hit.hit_x, hit.hit_y), (256, 96));
}

#[test]
fn cast_west_and_north_stop_at_first_sample_past_the_edge() {
    let m = corridor();
    let west = cast_ray(&m, 96, 96, -DIR_ONE, 0, 64);
    assert_eq!(west.distance, 34);
    assert_eq!((west.hit_x, west.hit_y), (62, 96));
    let north = cast_ray(&m, 96, 96, 0, -DIR_ONE, 64);
    assert_eq!(north.distance, 34);
    assert_eq!(north.impact, '#');
    assert_eq!((north.hit_x, north.hit_y), (96, 62));
}

#[test]
fn cast_distance_never_below_one() {
    let m = corridor();
    let inside = cast_ray(&m, 10, 10, DIR_ONE, 0, 64);
    assert_eq!(inside.distance, 1);
    assert_eq!(inside.impact, '#');
    assert_eq!((inside.hit_x, inside.hit_y), (10, 10));
    let outside = cast_ray(&m, -5, 96, DIR_ONE, 0, 64);
    assert_eq!(outside.distance, 1);
    assert_eq!(outside.impact, '#');
    assert_eq!((outside.hit_x, outside.hit_y), (0, 96));
}

#[test]
fn cast_reports_the_struck_material() {
    let m = grid(&["#####", "#p +#", "#####"]);
    let hit = cast_ray(&m, 96, 96, DIR_ONE, 0, 64);
    assert_eq!(hit.impact, '+');
    assert_eq!(hit.distance, 96);
}

#[test]
fn farther_origin_reports_no_shorter_distance() {
    let m = corridor();
    let near = cast_ray(&m, 160, 96, DIR_ONE, 0, 64);
    let far = cast_ray(&m, 96, 96, DIR_ONE, 0, 64);
    assert_eq!(near.distance, 96);
    assert_eq!(far.distance, 160);
    assert!(far.distance >= near.distance);
}

#[test]
fn corrected_distance_scales_by_cosine_and_floors() {
    let one2 = DIR_ONE * DIR_ONE;
    assert_eq!(corrected_distance(160, one2), 160);
    assert_eq!(corrected_distance(160, one2 / 2), 80);
    assert_eq!(corrected_distance(5, -100), 1);
    assert_eq!(corrected_distance(1, one2 / 3), 1);
}

#[test]
fn wall_u_picks_the_axis_along_the_struck_edge() {
    assert_eq!(wall_u(256, 96, 64), 32768);
    assert_eq!(wall_u(100, 128, 64), 36864);
    assert_eq!(wall_u(100, 110, 64), 36864);
    assert_eq!(wall_u(110, 100, 64), 36864);
    assert_eq!(wall_u(256, 128, 64), 0);
}

#[test]
fn shading_darkens_with_distance_down_to_sixty_percent() {
    assert_eq!(shade_channel(200, 1), 199);
    assert_eq!(shade_channel(200, 10000), 120);
    assert_eq!(shade_channel(0, 5), 0);
    let c = shade(Color::new(200, 100, 50, 255), 1);
    assert_eq!(c, Color::new(199, 99, 49, 255));
}

#[test]
fn slice_is_centred_and_clipped() {
    let hit = Intersect { distance: 160, impact: '#', hit_x: 256, hit_y: 96 };
    let s = plan_slice(&hit, DIR_ONE * DIR_ONE, 64, 692, 600);
    assert_eq!(s.corrected, 160);
    assert_eq!((s.top, s.bot), (162, 438));
    assert_eq!(s.material, '#');
    assert_eq!(s.u, 32768);
    let close = Intersect { distance: 1, impact: 'g', hit_x: 100, hit_y: 128 };
    let t = plan_slice(&close, DIR_ONE * DIR_ONE, 64, 692, 600);
    assert_eq!((t.top, t.bot), (0, 599));
    assert_eq!(t.material, 'g');
    let other = Intersect { distance: 50, impact: 'x', hit_x: 0, hit_y: 0 };
    assert_eq!(plan_slice(&other, DIR_ONE * DIR_ONE, 64, 692, 600).material, '#');
}

#[test]
fn render_world_fills_depth_buffer_with_corrected_distances() {
    let m = corridor();
    let mut fb = Framebuffer::new(4, 3);
    let player = Player { x: 96, y: 96, a: 0, fov: 0 };
    let cam = Camera {
        dir_x: DIR_ONE,
        dir_y: 0,
        proj_dist: 2,
        rays: vec![(DIR_ONE, 0), (DIR_ONE, 0), (0, -DIR_ONE), (0, DIR_ONE)],
    };
    let mut depth = vec![0i64; 4];
    let tm = TextureManager::new();
    render_world(&mut fb, &m, 64, &player, &cam, &mut depth, &tm);
    assert_eq!(depth, vec![160, 160, 1, 1]);
    for (col, ray) in cam.rays.iter().enumerate() {
        let hit = cast_ray(&m, 96, 96, ray.0, ray.1, 64);
        let dot = ray.0 * cam.dir_x + ray.1 * cam.dir_y;
        assert_eq!(depth[col], corrected_distance(hit.distance, dot));
    }
    assert_eq!(fb.color_buffer[0], Color::new(0xC7, 0xD9, 0xDD, 255));
    assert_eq!(fb.color_buffer[4], Color::new(205, 205, 205, 255));
    assert_eq!(fb.color_buffer[8], Color::new(255, 170, 170, 255));
}
