use vstd::prelude::*;

use vstd::arithmetic::div_mod::lemma_fundamental_div_mod;

use crate::caster::{cast_inputs, cast_ray, cast_spec, Intersect, DIR_ONE, MAX_RAY};
use crate::framebuffer::{lemma_index_split, Color, Framebuffer};
use crate::grid::{grid_view, Maze, MAX_GRID};
use crate::player::Player;
use crate::texture::{TextureManager, UV_ONE};

verus! {

/// Largest projection-plane distance, in pixels, the renderer accepts.
pub const MAX_PROJ: i64 = 1048576;

/// Largest screen side, in pixels, the renderer accepts.
pub const MAX_SCREEN: u32 = 65536;

/// What the renderer needs of the view besides the player's position: the
/// heading as a unit vector and one ray direction per screen column, both in
/// `DIR_ONE` units, and the distance to the projection plane in pixels.
pub struct Camera {
    pub dir_x: i64,
    pub dir_y: i64,
    pub proj_dist: i64,
    pub rays: Vec<(i64, i64)>,
}

/// How one screen column is drawn.
pub struct Slice {
    /// Ray distance corrected for the ray's angle to the heading, at least 1.
    pub corrected: i64,
    /// First wall row.
    pub top: u32,
    /// Last wall row.
    pub bot: u32,
    /// Material whose texture covers the wall.
    pub material: char,
    /// Horizontal texture coordinate, in `UV_ONE` units.
    pub u: u64,
}

/// Colour above the walls.
pub open spec fn sky() -> Color {
    Color { r: 0xC7, g: 0xD9, b: 0xDD, a: 255 }
}

/// Colour below the walls.
pub open spec fn ground() -> Color {
    Color { r: 255, g: 170, b: 170, a: 255 }
}

/// Raw distance times the cosine of the ray's angle to the heading (`dot`
/// is the dot product of the two unit vectors, in `DIR_ONE` squared units),
/// rounded down and floored at 1.
pub open spec fn corrected_spec(distance: int, dot: int) -> int {
    let raw = distance * dot / (DIR_ONE * DIR_ONE);
    if raw < 1 {
        1
    } else {
        raw
    }
}

/// First wall row for a slice `stake` pixels tall on a screen `h` rows tall.
pub open spec fn top_spec(h: int, stake: int) -> int {
    let hh = h / 2;
    let half = stake / 2;
    if half >= hh {
        0
    } else {
        hh - half
    }
}

/// Last wall row for a slice `stake` pixels tall on a screen `h` rows tall.
pub open spec fn bot_spec(h: int, stake: int) -> int {
    let hh = h / 2;
    let half = stake / 2;
    if hh + half > h - 1 {
        h - 1
    } else {
        hh + half
    }
}

/// Materials with a texture of their own; every other solid symbol is drawn
/// with the texture of `'#'`.
pub open spec fn material_spec(c: char) -> char {
    if c == '+' || c == '-' || c == '|' || c == 'g' {
        c
    } else {
        '#'
    }
}

/// Position of pixel coordinate `c` within its tile, in `UV_ONE` units.
pub open spec fn frac_spec(c: int, bs: int) -> int {
    (c % bs) * UV_ONE / bs
}

/// Pixel coordinate `c` lies within a thousandth of a tile of a tile edge.
pub open spec fn near_edge(c: int, bs: int) -> bool {
    1000 * (c % bs) < bs || 1000 * (c % bs) > 999 * bs
}

/// Distance of coordinate `c` from the middle of its tile, doubled.
pub open spec fn off_centre(c: int, bs: int) -> int {
    let t = 2 * (c % bs) - bs;
    if t < 0 {
        -t
    } else {
        t
    }
}

/// The horizontal texture coordinate of a hit at `(hx, hy)`: on a vertical
/// tile edge it runs along y, on a horizontal edge along x; at a corner, or
/// away from any edge, along the axis that lies nearer the tile's middle.
pub open spec fn wall_u_spec(hx: int, hy: int, bs: int) -> int {
    let nx = near_edge(hx, bs);
    let ny = near_edge(hy, bs);
    if nx && !ny {
        frac_spec(hy, bs)
    } else if ny && !nx {
        frac_spec(hx, bs)
    } else if off_centre(hx, bs) > off_centre(hy, bs) {
        frac_spec(hy, bs)
    } else {
        frac_spec(hx, bs)
    }
}

/// The slice drawn for a hit `hit` of a ray whose dot product with the
/// heading is `dot`.
pub open spec fn slice_spec(hit: Intersect, dot: int, bs: int, proj: int, h: int) -> Slice {
    let corr = corrected_spec(hit.distance as int, dot);
    let stake = bs * proj / corr;
    Slice {
        corrected: corr as i64,
        top: top_spec(h, stake) as u32,
        bot: bot_spec(h, stake) as u32,
        material: material_spec(hit.impact),
        u: wall_u_spec(hit.hit_x as int, hit.hit_y as int, bs) as u64,
    }
}

/// One colour channel darkened with distance: multiplied by
/// `1 / (1 + 0.0015 * corr)`, but by no less than 0.6, and rounded down.
pub open spec fn shade_channel_spec(c: int, corr: int) -> int {
    let fog = c * 10000 / (10000 + 15 * corr);
    let floor = c * 6 / 10;
    if fog > floor {
        fog
    } else {
        floor
    }
}

/// `c` darkened for distance `corr`; alpha is kept.
pub open spec fn shade_spec(c: Color, corr: int) -> Color {
    Color {
        r: shade_channel_spec(c.r as int, corr) as u8,
        g: shade_channel_spec(c.g as int, corr) as u8,
        b: shade_channel_spec(c.b as int, corr) as u8,
        a: c.a,
    }
}

/// Vertical texture coordinate of row `y` of a wall spanning rows
/// `top..=bot`, in `UV_ONE` units: 0 at the top, `UV_ONE` at the bottom.
pub open spec fn v_spec(y: int, top: int, bot: int) -> int {
    let span = if bot - top < 1 {
        1
    } else {
        bot - top
    };
    (y - top) * UV_ONE / span
}

/// The colour of row `y` of a column drawn as `s`.
pub open spec fn column_pixel(tm: TextureManager, s: Slice, y: int) -> Color {
    if y < s.top {
        sky()
    } else if y <= s.bot {
        shade_spec(
            tm.sample_spec(s.material, s.u as int, v_spec(y, s.top as int, s.bot as int)),
            s.corrected as int,
        )
    } else {
        ground()
    }
}

/// The slice of screen column `col` for a player at `p` looking through `cam`.
pub open spec fn column_slice(
    g: Seq<Seq<char>>,
    p: Player,
    cam: Camera,
    bs: int,
    h: int,
    col: int,
) -> Slice {
    let ray = cam.rays@[col];
    let hit = cast_spec(g, p.x as int, p.y as int, ray.0 as int, ray.1 as int, bs);
    slice_spec(hit, ray.0 * cam.dir_x + ray.1 * cam.dir_y, bs, cam.proj_dist as int, h)
}

/// Inputs the renderer accepts.
pub open spec fn view_inputs(g: Seq<Seq<char>>, p: Player, cam: Camera, bs: int) -> bool {
    &&& -DIR_ONE <= cam.dir_x <= DIR_ONE
    &&& -DIR_ONE <= cam.dir_y <= DIR_ONE
    &&& 0 < cam.proj_dist <= MAX_PROJ
    &&& forall|i: int|
        0 <= i < cam.rays@.len() ==> cast_inputs(
            g,
            p.x as int,
            p.y as int,
            (#[trigger] cam.rays@[i]).0 as int,
            cam.rays@[i].1 as int,
            bs,
        )
}

/// Ray distance corrected for the ray's angle to the heading.
pub fn corrected_distance(distance: i64, dot: i64) -> (r: i64)
    requires
        1 <= distance <= MAX_RAY,
        -2 * DIR_ONE * DIR_ONE <= dot <= 2 * DIR_ONE * DIR_ONE,
    ensures
        r == corrected_spec(distance as int, dot as int),
        1 <= r <= 2 * MAX_RAY,
{
    assert(-4 * MAX_RAY * DIR_ONE * DIR_ONE <= distance * dot <= 4 * MAX_RAY * DIR_ONE * DIR_ONE)
        by (nonlinear_arith)
        requires
            1 <= distance <= MAX_RAY,
            -2 * DIR_ONE * DIR_ONE <= dot <= 2 * DIR_ONE * DIR_ONE;
    let prod: i128 = distance as i128 * dot as i128;
    let one2: i128 = DIR_ONE as i128 * DIR_ONE as i128;
    if prod < one2 {
        assert(distance * dot / (DIR_ONE * DIR_ONE) < 1) by (nonlinear_arith)
            requires distance * dot < DIR_ONE * DIR_ONE;
        1
    } else {
        assert(distance * dot / (DIR_ONE * DIR_ONE) <= 2 * distance) by (nonlinear_arith)
            requires dot <= 2 * DIR_ONE * DIR_ONE, distance >= 1;
        assert(distance * dot / (DIR_ONE * DIR_ONE) >= 1) by (nonlinear_arith)
            requires distance * dot >= DIR_ONE * DIR_ONE;
        (prod / one2) as i64
    }
}

/// The horizontal texture coordinate of a wall hit at `(hx, hy)`.
pub fn wall_u(hx: u64, hy: u64, bs: u64) -> (u: u64)
    requires
        0 < bs <= MAX_GRID,
    ensures
        u == wall_u_spec(hx as int, hy as int, bs as int),
        u <= UV_ONE,
{
    let mx = hx % bs;
    let my = hy % bs;
    let nx = 1000 * mx < bs || 1000 * mx > 999 * bs;
    let ny = 1000 * my < bs || 1000 * my > 999 * bs;
    proof {
        assert((mx as int) * (UV_ONE as int) / (bs as int) <= UV_ONE) by (nonlinear_arith)
            requires mx < bs, bs > 0;
        assert((my as int) * (UV_ONE as int) / (bs as int) <= UV_ONE) by (nonlinear_arith)
            requires my < bs, bs > 0;
    }
    let fx = mx * UV_ONE / bs;
    let fy = my * UV_ONE / bs;
    let cx: i64 = 2 * mx as i64 - bs as i64;
    let cy: i64 = 2 * my as i64 - bs as i64;
    let ax: i64 = if cx < 0 { -cx } else { cx };
    let ay: i64 = if cy < 0 { -cy } else { cy };
    if nx && !ny {
        fy
    } else if ny && !nx {
        fx
    } else if ax > ay {
        fy
    } else {
        fx
    }
}

/// One colour channel darkened for corrected distance `corr`.
pub fn shade_channel(c: u8, corr: i64) -> (r: u8)
    requires
        1 <= corr <= 2 * MAX_RAY,
    ensures
        r == shade_channel_spec(c as int, corr as int),
{
    let ci = c as i64;
    let fog = ci * 10000 / (10000 + 15 * corr);
    let floor = ci * 6 / 10;
    proof {
        assert(ci * 10000 / (10000 + 15 * corr) <= ci) by (nonlinear_arith)
            requires 0 <= ci, corr >= 1;
    }
    if fog > floor {
        fog as u8
    } else {
        floor as u8
    }
}

/// `c` darkened for corrected distance `corr`.
pub fn shade(c: Color, corr: i64) -> (r: Color)
    requires
        1 <= corr <= 2 * MAX_RAY,
    ensures
        r == shade_spec(c, corr as int),
{
    Color {
        r: shade_channel(c.r, corr),
        g: shade_channel(c.g, corr),
        b: shade_channel(c.b, corr),
        a: c.a,
    }
}

/// The slice drawn for `hit`, a ray whose dot product with the heading is
/// `dot`, on a screen `h` rows tall.
pub fn plan_slice(hit: &Intersect, dot: i64, bs: usize, proj: i64, h: u32) -> (s: Slice)
    requires
        1 <= hit.distance <= MAX_RAY,
        -2 * DIR_ONE * DIR_ONE <= dot <= 2 * DIR_ONE * DIR_ONE,
        0 < bs <= MAX_GRID,
        0 < proj <= MAX_PROJ,
        1 <= h <= MAX_SCREEN,
    ensures
        s == slice_spec(*hit, dot as int, bs as int, proj as int, h as int),
        s.top <= s.bot < h,
        1 <= s.corrected <= 2 * MAX_RAY,
{
    let corr = corrected_distance(hit.distance, dot);
    assert(0 <= bs * proj <= MAX_GRID * MAX_PROJ) by (nonlinear_arith)
        requires 0 < bs <= MAX_GRID, 0 < proj <= MAX_PROJ;
    let stake: i64 = bs as i64 * proj / corr;
    assert(stake <= bs * proj) by (nonlinear_arith)
        requires stake == (bs as int) * (proj as int) / (corr as int), corr >= 1, bs * proj >= 0;
    let hh: i64 = h as i64 / 2;
    let half: i64 = stake / 2;
    let top: i64 = if half >= hh { 0 } else { hh - half };
    let bot: i64 = if hh + half > h as i64 - 1 { h as i64 - 1 } else { hh + half };
    let material = if hit.impact == '+' || hit.impact == '-' || hit.impact == '|' || hit.impact
        == 'g' {
        hit.impact
    } else {
        '#'
    };
    let u = wall_u(hit.hit_x, hit.hit_y, bs as u64);
    Slice { corrected: corr, top: top as u32, bot: bot as u32, material, u }
}

/// Draws screen column `col` as `s`: sky above, textured and shaded wall,
/// ground below.
pub fn draw_column(fb: &mut Framebuffer, col: u32, s: &Slice, texman: &TextureManager)
    requires
        old(fb).wf(),
        col < old(fb).width,
        texman.wf(),
        s.top <= s.bot,
        1 <= s.corrected <= 2 * MAX_RAY,
    ensures
        final(fb).wf(),
        final(fb).width == old(fb).width,
        final(fb).height == old(fb).height,
        final(fb).background() == old(fb).background(),
        final(fb).current() == old(fb).current(),
        forall|p: int|
            0 <= p < final(fb).color_buffer@.len() ==> final(fb).color_buffer@[p] == if p
                % (final(fb).width as int) == col {
                column_pixel(*texman, *s, p / (final(fb).width as int))
            } else {
                old(fb).color_buffer@[p]
            },
{
    let ghost w = fb.width as int;
    let h = fb.height;
    let ghost hh = fb.height as int;
    let mut y: u32 = 0;
    while y < h
        invariant
            fb.wf(),
            fb.width == old(fb).width,
            fb.height == old(fb).height,
            h == fb.height,
            hh == fb.height,
            fb.background() == old(fb).background(),
            fb.current() == old(fb).current(),
            w == fb.width,
            col < w,
            y <= h,
            texman.wf(),
            s.top <= s.bot,
            1 <= s.corrected <= 2 * MAX_RAY,
            forall|p: int|
                0 <= p < fb.color_buffer@.len() ==> #[trigger] fb.color_buffer@[p] == if p % w
                    == col && p / w < y {
                    column_pixel(*texman, *s, p / w)
                } else {
                    old(fb).color_buffer@[p]
                },
        decreases h - y,
    {
        let c = if y < s.top {
            Color::new(0xC7, 0xD9, 0xDD, 255)
        } else if y <= s.bot {
            let span: u64 = if s.bot - s.top < 1 { 1 } else { (s.bot - s.top) as u64 };
            assert((y - s.top) * UV_ONE <= (s.bot - s.top) * UV_ONE) by (nonlinear_arith)
                requires y <= s.bot, s.top <= y;
            let v: u64 = (y - s.top) as u64 * UV_ONE / span;
            shade(texman.sample_uv(s.material, s.u, v), s.corrected)
        } else {
            Color::new(255, 170, 170, 255)
        };
        assert(c == column_pixel(*texman, *s, y as int));
        let ghost prev = fb.color_buffer@;
        fb.set_pixel_color(col, y, c);
        proof {
            let q = (y as int) * w + (col as int);
            lemma_index_split(w, col as int, y as int);
            assert(fb.color_buffer@ == prev.update(q, c));
            assert(0 <= q < w * hh) by (nonlinear_arith)
                requires q == (y as int) * w + (col as int), 0 <= col < w, 0 <= y < hh;
            assert forall|p: int| 0 <= p < fb.color_buffer@.len() implies #[trigger] fb.color_buffer@[p]
                == if p % w == col && p / w < y + 1 {
                column_pixel(*texman, *s, p / w)
            } else {
                old(fb).color_buffer@[p]
            } by {
                if p != q {
                    lemma_fundamental_div_mod(p, w);
                    assert(prev[p] == fb.color_buffer@[p]);
                    if p % w == col && p / w == y {
                        assert(p == w * (p / w) + p % w);
                        assert(p == q) by (nonlinear_arith)
                            requires p == w * (p / w) + p % w, p % w == col, p / w == y, q == y * w + col;
                    }
                }
            }
        }
        y = y + 1;
    }
    proof {
        assert forall|p: int| 0 <= p < fb.color_buffer@.len() implies #[trigger] fb.color_buffer@[p]
            == if p % w == col {
            column_pixel(*texman, *s, p / w)
        } else {
            old(fb).color_buffer@[p]
        } by {
            assert(p / w < hh) by (nonlinear_arith)
                requires 0 <= p < w * hh, w > 0;
        }
    }
}

/// Draws the walls for one frame and records each column's corrected
/// distance in `depth_buffer`.
pub fn render_world(
    framebuffer: &mut Framebuffer,
    maze: &Maze,
    block_size: usize,
    player: &Player,
    cam: &Camera,
    depth_buffer: &mut Vec<i64>,
    texman: &TextureManager,
)
    requires
        old(framebuffer).wf(),
        1 <= old(framebuffer).height <= MAX_SCREEN,
        cam.rays@.len() == old(framebuffer).width,
        old(depth_buffer)@.len() == old(framebuffer).width,
        texman.wf(),
        view_inputs(grid_view(maze), *player, *cam, block_size as int),
    ensures
        final(framebuffer).wf(),
        final(framebuffer).width == old(framebuffer).width,
        final(framebuffer).height == old(framebuffer).height,
        final(depth_buffer)@.len() == old(depth_buffer)@.len(),
        forall|col: int|
            0 <= col < final(depth_buffer)@.len() ==> final(depth_buffer)@[col]
                == column_slice(
                grid_view(maze),
                *player,
                *cam,
                block_size as int,
                final(framebuffer).height as int,
                col,
            ).corrected,
        forall|p: int|
            0 <= p < final(framebuffer).color_buffer@.len() ==> final(framebuffer).color_buffer@[p]
                == column_pixel(
                *texman,
                column_slice(
                    grid_view(maze),
                    *player,
                    *cam,
                    block_size as int,
                    final(framebuffer).height as int,
                    p % (final(framebuffer).width as int),
                ),
                p / (final(framebuffer).width as int),
            ),
{
    let ghost g = grid_view(maze);
    let ghost w = framebuffer.width as int;
    let ghost h = framebuffer.height as int;
    let num_rays = framebuffer.width;
    let mut i: u32 = 0;
    while i < num_rays
        invariant
            framebuffer.wf(),
            framebuffer.width == old(framebuffer).width,
            framebuffer.height == old(framebuffer).height,
            w == framebuffer.width,
            h == framebuffer.height,
            num_rays == w,
            1 <= h <= MAX_SCREEN,
            i <= num_rays,
            cam.rays@.len() == w,
            depth_buffer@.len() == w,
            texman.wf(),
            g == grid_view(maze),
            view_inputs(g, *player, *cam, block_size as int),
            forall|col: int|
                0 <= col < i ==> #[trigger] depth_buffer@[col] == column_slice(
                    g,
                    *player,
                    *cam,
                    block_size as int,
                    h,
                    col,
                ).corrected,
            forall|p: int|
                0 <= p < framebuffer.color_buffer@.len() ==> #[trigger] framebuffer.color_buffer@[p]
                    == if p % w < i {
                    column_pixel(*texman, column_slice(g, *player, *cam, block_size as int, h, p % w), p / w)
                } else {
                    old(framebuffer).color_buffer@[p]
                },
        decreases num_rays - i,
    {
        let ray = cam.rays[i as usize];
        assert(cast_inputs(g, player.x as int, player.y as int, ray.0 as int, ray.1 as int, block_size as int));
        let hit = cast_ray(maze, player.x, player.y, ray.0, ray.1, block_size);
        assert(-2 * DIR_ONE * DIR_ONE <= ray.0 * cam.dir_x + ray.1 * cam.dir_y <= 2 * DIR_ONE * DIR_ONE)
            by (nonlinear_arith)
            requires
                -DIR_ONE <= ray.0 <= DIR_ONE,
                -DIR_ONE <= ray.1 <= DIR_ONE,
                -DIR_ONE <= cam.dir_x <= DIR_ONE,
                -DIR_ONE <= cam.dir_y <= DIR_ONE;
        assert(-DIR_ONE * DIR_ONE <= ray.0 * cam.dir_x <= DIR_ONE * DIR_ONE) by (nonlinear_arith)
            requires -DIR_ONE <= ray.0 <= DIR_ONE, -DIR_ONE <= cam.dir_x <= DIR_ONE;
        assert(-DIR_ONE * DIR_ONE <= ray.1 * cam.dir_y <= DIR_ONE * DIR_ONE) by (nonlinear_arith)
            requires -DIR_ONE <= ray.1 <= DIR_ONE, -DIR_ONE <= cam.dir_y <= DIR_ONE;
        let dot = ray.0 * cam.dir_x + ray.1 * cam.dir_y;
        let s = plan_slice(&hit, dot, block_size, cam.proj_dist, framebuffer.height);
        assert(s == column_slice(g, *player, *cam, block_size as int, h, i as int));
        depth_buffer.set(i as usize, s.corrected);
        draw_column(framebuffer, i, &s, texman);
        proof {
            assert forall|p: int| 0 <= p < framebuffer.color_buffer@.len() implies #[trigger] framebuffer.color_buffer@[p]
                == if p % w < i + 1 {
                column_pixel(*texman, column_slice(g, *player, *cam, block_size as int, h, p % w), p / w)
            } else {
                old(framebuffer).color_buffer@[p]
            } by {
            }
        }
        i = i + 1;
    }
}

} // verus!
