use vstd::prelude::*;

use vstd::arithmetic::div_mod::lemma_fundamental_div_mod;

use crate::caster::{DIR_ONE, MAX_RAY};
use crate::framebuffer::{lemma_index_split, Color, Framebuffer};
use crate::grid::{grid_view, Maze, MAX_GRID};
use crate::player::{Player, MAX_POS};
use crate::render::{Camera, MAX_PROJ, MAX_SCREEN};
use crate::texture::TextureManager;

verus! {

/// A billboard standing at the centre of a tile.
#[derive(Clone, Copy, PartialEq, Eq, Structural, Debug)]
pub struct Sprite {
    pub x: i64,
    pub y: i64,
    pub kind: char,
    pub collected: bool,
}

/// Centre, in world pixels, of tile `i` for tiles `block` pixels wide.
pub open spec fn cell_centre(i: int, block: int) -> int {
    i * block + block / 2
}

impl Sprite {
    /// An uncollected sprite of kind `kind` at the centre of cell `(i, j)`.
    pub fn new_cell(i: usize, j: usize, block: usize, kind: char) -> (s: Sprite)
        requires
            i <= MAX_GRID,
            j <= MAX_GRID,
            block <= MAX_GRID,
        ensures
            s.x == cell_centre(i as int, block as int),
            s.y == cell_centre(j as int, block as int),
            s.kind == kind,
            !s.collected,
    {
        assert(0 <= i * block <= MAX_GRID * MAX_GRID) by (nonlinear_arith)
            requires i <= MAX_GRID, block <= MAX_GRID;
        assert(0 <= j * block <= MAX_GRID * MAX_GRID) by (nonlinear_arith)
            requires j <= MAX_GRID, block <= MAX_GRID;
        let x = (i as i64) * (block as i64) + (block as i64) / 2;
        let y = (j as i64) * (block as i64) + (block as i64) / 2;
        Sprite { x, y, kind, collected: false }
    }
}

/// Cell index of world coordinate `c`; negative coordinates count as zero.
pub open spec fn cell_of(c: int, bs: int) -> int {
    (if c < 0 {
        0
    } else {
        c
    }) / bs
}

/// `s` after the player stood in cell `(ci, cj)`: a sprite in that cell is
/// collected; nothing else changes.
pub open spec fn collect_one(s: Sprite, ci: int, cj: int, bs: int) -> Sprite {
    if cell_of(s.x as int, bs) == ci && cell_of(s.y as int, bs) == cj {
        Sprite { collected: true, ..s }
    } else {
        s
    }
}

/// The sprite list after the player stood in cell `(ci, cj)`.
pub open spec fn collect_spec(v: Seq<Sprite>, ci: int, cj: int, bs: int) -> Seq<Sprite> {
    v.map_values(|s: Sprite| collect_one(s, ci, cj, bs))
}

/// Marks collected every sprite standing in cell `(ci, cj)`.
pub fn collect_sprites(sprites: &mut Vec<Sprite>, ci: usize, cj: usize, bs: usize)
    requires
        bs > 0,
    ensures
        final(sprites)@ == collect_spec(old(sprites)@, ci as int, cj as int, bs as int),
{
    let mut k: usize = 0;
    while k < sprites.len()
        invariant
            bs > 0,
            k <= sprites@.len(),
            sprites@.len() == old(sprites)@.len(),
            forall|q: int|
                0 <= q < k ==> sprites@[q] == collect_one(
                    old(sprites)@[q],
                    ci as int,
                    cj as int,
                    bs as int,
                ),
            forall|q: int| k <= q < sprites@.len() ==> sprites@[q] == old(sprites)@[q],
        decreases sprites@.len() - k,
    {
        let s = sprites[k];
        let si: u64 = if s.x < 0 { 0 } else { s.x as u64 };
        let sj: u64 = if s.y < 0 { 0 } else { s.y as u64 };
        if !s.collected && si / bs as u64 == ci as u64 && sj / bs as u64 == cj as u64 {
            sprites.set(k, Sprite { collected: true, ..s });
        }
        k = k + 1;
    }
    assert(sprites@ =~= collect_spec(old(sprites)@, ci as int, cj as int, bs as int));
}

/// Collecting twice in the same cell is the same as collecting once, and a
/// sprite in that cell is collected afterwards.
pub proof fn lemma_collect_idempotent(v: Seq<Sprite>, ci: int, cj: int, bs: int)
    ensures
        collect_spec(collect_spec(v, ci, cj, bs), ci, cj, bs) == collect_spec(v, ci, cj, bs),
        forall|k: int|
            0 <= k < v.len() && cell_of(v[k].x as int, bs) == ci && cell_of(v[k].y as int, bs)
                == cj ==> (#[trigger] collect_spec(v, ci, cj, bs)[k]).collected,
        forall|k: int|
            0 <= k < v.len() && v[k].collected ==> (#[trigger] collect_spec(v, ci, cj, bs)[k]).collected,
{
    assert(collect_spec(collect_spec(v, ci, cj, bs), ci, cj, bs) =~= collect_spec(v, ci, cj, bs));
}

/// Grid symbols that mark a collectible.
pub open spec fn marker(c: char) -> bool {
    c == 'b' || c == 'V'
}

/// The sprites found in rows `0..j` plus the first `i` cells of row `j`.
pub open spec fn sprites_upto(g: Seq<Seq<char>>, bs: int, j: int, i: int) -> Seq<Sprite>
    decreases j, i,
{
    if j <= 0 && i <= 0 {
        Seq::empty()
    } else if i <= 0 {
        sprites_upto(g, bs, j - 1, g[j - 1].len() as int)
    } else {
        let prev = sprites_upto(g, bs, j, i - 1);
        let c = g[j][i - 1];
        if marker(c) {
            prev.push(
                Sprite {
                    x: cell_centre(i - 1, bs) as i64,
                    y: cell_centre(j, bs) as i64,
                    kind: c,
                    collected: false,
                },
            )
        } else {
            prev
        }
    }
}

/// One sprite for each collectible marker of the grid, in row-major order.
pub fn load_sprites_from_maze(maze: &Maze, block: usize) -> (v: Vec<Sprite>)
    requires
        maze@.len() <= MAX_GRID,
        forall|j: int| 0 <= j < maze@.len() ==> (#[trigger] maze@[j])@.len() <= MAX_GRID,
        block <= MAX_GRID,
    ensures
        v@ == sprites_upto(grid_view(maze), block as int, maze@.len() as int, 0),
{
    let ghost g = grid_view(maze);
    let mut v: Vec<Sprite> = Vec::new();
    let mut j: usize = 0;
    while j < maze.len()
        invariant
            g == grid_view(maze),
            g.len() == maze@.len(),
            maze@.len() <= MAX_GRID,
            forall|q: int| 0 <= q < maze@.len() ==> (#[trigger] maze@[q])@.len() <= MAX_GRID,
            block <= MAX_GRID,
            j <= maze@.len(),
            v@ == sprites_upto(g, block as int, j as int, 0),
        decreases maze@.len() - j,
    {
        let row = &maze[j];
        assert(g[j as int] == row@);
        let mut i: usize = 0;
        while i < row.len()
            invariant
                g == grid_view(maze),
                g.len() == maze@.len(),
                j < maze@.len(),
                g[j as int] == row@,
                row@.len() <= MAX_GRID,
                j <= MAX_GRID,
                block <= MAX_GRID,
                i <= row@.len(),
                v@ == sprites_upto(g, block as int, j as int, i as int),
            decreases row@.len() - i,
        {
            let c = row[i];
            if c == 'b' || c == 'V' {
                v.push(Sprite::new_cell(i, j, block, c));
            }
            i = i + 1;
        }
        j = j + 1;
    }
    v
}

/// Colour treated as transparent in sprite images.
pub open spec fn chroma_key() -> Color {
    Color { r: 152, g: 0, b: 136, a: 255 }
}

/// Absolute difference of two channel values.
pub open spec fn channel_diff(a: int, b: int) -> int {
    if a < b {
        b - a
    } else {
        a - b
    }
}

/// `c` is within 3 (summed over red, green and blue) of the chroma key and
/// equally opaque.
pub open spec fn chroma_spec(c: Color) -> bool {
    let k = chroma_key();
    &&& channel_diff(c.r as int, k.r as int) + channel_diff(c.g as int, k.g as int)
        + channel_diff(c.b as int, k.b as int) <= 3
    &&& c.a == k.a
}

/// Whether `c` counts as the transparent chroma-key colour.
pub fn is_chroma(c: Color) -> (r: bool)
    ensures
        r == chroma_spec(c),
{
    let dr: u16 = if c.r < 152 { 152 - c.r as u16 } else { c.r as u16 - 152 };
    let dg: u16 = c.g as u16;
    let db: u16 = if c.b < 136 { 136 - c.b as u16 } else { c.b as u16 - 136 };
    dr + dg + db <= 3 && c.a == 255
}

/// Where a visible sprite lands on screen.
pub struct SpriteRect {
    /// Depth of the sprite along the heading, in 1/`DIR_ONE` pixels.
    pub fwd: i64,
    /// Left edge of the unclipped square.
    pub left: i64,
    /// Top edge of the unclipped square.
    pub top: i64,
    /// Side of the unclipped square.
    pub size: i64,
    /// Clipped column range, inclusive.
    pub x0: u32,
    pub x1: u32,
    /// Clipped row range, inclusive.
    pub y0: u32,
    pub y1: u32,
}

/// Depth of `s` in front of `p` along the heading, in 1/`DIR_ONE` pixels:
/// the distance times the cosine of the angle to the heading.
pub open spec fn forward_spec(p: Player, s: Sprite, cam: Camera) -> int {
    (s.x - p.x) * cam.dir_x + (s.y - p.y) * cam.dir_y
}

/// Offset of `s` to the right of the heading, in 1/`DIR_ONE` pixels: the
/// distance times the sine of the angle to the heading.
pub open spec fn lateral_spec(p: Player, s: Sprite, cam: Camera) -> int {
    (s.y - p.y) * cam.dir_x - (s.x - p.x) * cam.dir_y
}

/// Absolute value.
pub open spec fn abs_spec(a: int) -> int {
    if a < 0 {
        -a
    } else {
        a
    }
}

/// `a / b` rounded towards zero.
pub open spec fn trunc_div(a: int, b: int) -> int {
    if a >= 0 {
        a / b
    } else {
        -((-a) / b)
    }
}

/// `a` clamped into `[lo, hi]`.
pub open spec fn clamp_spec(a: int, lo: int, hi: int) -> int {
    if a < lo {
        lo
    } else if a > hi {
        hi
    } else {
        a
    }
}

/// The angle to the sprite is within half the field of view (whose tangent
/// is `half_w / proj`) on either side of the heading.
pub open spec fn in_view(fwd: int, lat: int, proj: int, half_w: int) -> bool {
    fwd > 0 && abs_spec(lat) * proj <= fwd * half_w
}

/// The screen square of sprite `s` seen by `p` through `cam` on a `w` by `h`
/// screen, or `None` when the sprite is out of view or its square clips
/// away to nothing.
pub open spec fn rect_spec(p: Player, s: Sprite, cam: Camera, bs: int, w: int, h: int) -> Option<
    SpriteRect,
> {
    let fwd = forward_spec(p, s, cam);
    let lat = lateral_spec(p, s, cam);
    let proj = cam.proj_dist as int;
    if !in_view(fwd, lat, proj, w / 2) {
        None
    } else {
        let size = bs * proj * DIR_ONE / (2 * fwd);
        let cx = w / 2 + trunc_div(lat * proj, fwd);
        let half = size / 2;
        let left = cx - half;
        let top = h / 2 - half;
        let x0 = clamp_spec(left, 0, w - 1);
        let x1 = clamp_spec(cx + half, 0, w - 1);
        let y0 = clamp_spec(top, 0, h - 1);
        let y1 = clamp_spec(h / 2 + half, 0, h - 1);
        if x1 <= x0 || y1 <= y0 {
            None
        } else {
            Some(
                SpriteRect {
                    fwd: fwd as i64,
                    left: left as i64,
                    top: top as i64,
                    size: size as i64,
                    x0: x0 as u32,
                    x1: x1 as u32,
                    y0: y0 as u32,
                    y1: y1 as u32,
                },
            )
        }
    }
}

/// Texel column for screen column `sx`: the image runs right to left across
/// the square, nearest neighbour.
pub open spec fn tex_x_spec(r: SpriteRect, tw: int, sx: int) -> int {
    let off = clamp_spec(sx - r.left, 0, r.size as int);
    (2 * (r.size - off) * (tw - 1) + r.size) / (2 * r.size)
}

/// Texel row for screen row `sy`, nearest neighbour.
pub open spec fn tex_y_spec(r: SpriteRect, th: int, sy: int) -> int {
    let off = clamp_spec(sy - r.top, 0, r.size as int);
    (2 * off * (th - 1) + r.size) / (2 * r.size)
}

/// The texel drawn at `(sx, sy)`.
pub open spec fn sprite_texel(tm: TextureManager, kind: char, r: SpriteRect, sx: int, sy: int) -> Color {
    let size = tm.size_spec(kind);
    tm.pixel_spec(kind, tex_x_spec(r, size.0 as int, sx), tex_y_spec(r, size.1 as int, sy))
}

/// No wall recorded in `depth` for column `col` lies nearer than depth `fwd`
/// (columns past the buffer's end count as open).
pub open spec fn column_open(depth: Seq<i64>, col: int, fwd: int) -> bool {
    !(col < depth.len() && fwd > depth[col] * DIR_ONE)
}

/// Pixel `(sx, sy)` is painted by the sprite: inside its square, in an
/// unoccluded column, and with a texel that is neither fully transparent nor
/// the chroma key.
pub open spec fn sprite_drawn(
    tm: TextureManager,
    kind: char,
    r: SpriteRect,
    depth: Seq<i64>,
    sx: int,
    sy: int,
) -> bool {
    let c = sprite_texel(tm, kind, r, sx, sy);
    &&& r.x0 <= sx <= r.x1
    &&& r.y0 <= sy <= r.y1
    &&& column_open(depth, sx, r.fwd as int)
    &&& c.a != 0
    &&& !chroma_spec(c)
}

/// The colour of buffer entry `p` after drawing a sprite with square `rect`
/// over `old` on a canvas `w` pixels wide.
pub open spec fn after_sprite(
    tm: TextureManager,
    kind: char,
    rect: Option<SpriteRect>,
    depth: Seq<i64>,
    old: Seq<Color>,
    w: int,
    p: int,
) -> Color {
    match rect {
        Some(r) => if sprite_drawn(tm, kind, r, depth, p % w, p / w) {
            sprite_texel(tm, kind, r, p % w, p / w)
        } else {
            old[p]
        },
        None => old[p],
    }
}

/// Inputs the sprite code accepts.
pub open spec fn sprite_inputs(p: Player, s: Sprite, cam: Camera, bs: int, w: int, h: int) -> bool {
    &&& -MAX_POS <= p.x <= MAX_POS
    &&& -MAX_POS <= p.y <= MAX_POS
    &&& -MAX_POS <= s.x <= MAX_POS
    &&& -MAX_POS <= s.y <= MAX_POS
    &&& -DIR_ONE <= cam.dir_x <= DIR_ONE
    &&& -DIR_ONE <= cam.dir_y <= DIR_ONE
    &&& 0 < cam.proj_dist <= MAX_PROJ
    &&& 0 < bs <= MAX_GRID
    &&& 1 <= w <= MAX_SCREEN
    &&& 1 <= h <= MAX_SCREEN
}

/// Where sprite `s` lands on a `w` by `h` screen.
pub fn sprite_rect(player: &Player, s: &Sprite, cam: &Camera, bs: usize, w: u32, h: u32) -> (r:
    Option<SpriteRect>)
    requires
        sprite_inputs(*player, *s, *cam, bs as int, w as int, h as int),
    ensures
        r == rect_spec(*player, *s, *cam, bs as int, w as int, h as int),
        r matches Some(rr) ==> 2 <= rr.size <= MAX_GRID * MAX_PROJ * DIR_ONE && rr.x1 < w && rr.y1
            < h && rr.fwd > 0 && -(MAX_GRID * MAX_PROJ * DIR_ONE) <= rr.left <= MAX_SCREEN && -(
        MAX_GRID * MAX_PROJ * DIR_ONE) <= rr.top <= MAX_SCREEN,
{
    let dx = s.x as i128 - player.x as i128;
    let dy = s.y as i128 - player.y as i128;
    let ghost bnd = 2 * MAX_POS * DIR_ONE;
    assert(-bnd <= dx * cam.dir_x <= bnd) by (nonlinear_arith)
        requires -2 * MAX_POS <= dx <= 2 * MAX_POS, -DIR_ONE <= cam.dir_x <= DIR_ONE, bnd == 2 * MAX_POS * DIR_ONE;
    assert(-bnd <= dy * cam.dir_y <= bnd) by (nonlinear_arith)
        requires -2 * MAX_POS <= dy <= 2 * MAX_POS, -DIR_ONE <= cam.dir_y <= DIR_ONE, bnd == 2 * MAX_POS * DIR_ONE;
    assert(-bnd <= dy * cam.dir_x <= bnd) by (nonlinear_arith)
        requires -2 * MAX_POS <= dy <= 2 * MAX_POS, -DIR_ONE <= cam.dir_x <= DIR_ONE, bnd == 2 * MAX_POS * DIR_ONE;
    assert(-bnd <= dx * cam.dir_y <= bnd) by (nonlinear_arith)
        requires -2 * MAX_POS <= dx <= 2 * MAX_POS, -DIR_ONE <= cam.dir_y <= DIR_ONE, bnd == 2 * MAX_POS * DIR_ONE;
    let fwd: i128 = dx * cam.dir_x as i128 + dy * cam.dir_y as i128;
    let lat: i128 = dy * cam.dir_x as i128 - dx * cam.dir_y as i128;
    assert(fwd == forward_spec(*player, *s, *cam));
    assert(lat == lateral_spec(*player, *s, *cam));
    let proj = cam.proj_dist as i128;
    let half_w = w as i128 / 2;
    let alat: i128 = if lat < 0 { -lat } else { lat };
    assert(0 <= alat * proj <= 2 * bnd * MAX_PROJ) by (nonlinear_arith)
        requires 0 <= alat <= 2 * bnd, 0 < proj <= MAX_PROJ;
    assert(-2 * bnd * MAX_SCREEN <= fwd * half_w <= 2 * bnd * MAX_SCREEN) by (nonlinear_arith)
        requires -2 * bnd <= fwd <= 2 * bnd, 0 <= half_w <= MAX_SCREEN;
    if !(fwd > 0 && alat * proj <= fwd * half_w) {
        return None;
    }
    assert(0 <= bs * proj * DIR_ONE <= MAX_GRID * MAX_PROJ * DIR_ONE) by (nonlinear_arith)
        requires 0 < bs <= MAX_GRID, 0 < proj <= MAX_PROJ;
    let size: i128 = bs as i128 * proj * DIR_ONE as i128 / (2 * fwd);
    assert(size <= bs * proj * DIR_ONE) by (nonlinear_arith)
        requires size == (bs as int) * (proj as int) * (DIR_ONE as int) / (2 * (fwd as int)), fwd >= 1, bs * proj * DIR_ONE >= 0;
    assert((alat as int) * (proj as int) / (fwd as int) <= half_w) by (nonlinear_arith)
        requires alat * proj <= fwd * half_w, fwd >= 1, alat * proj >= 0;
    let off: i128 = if lat >= 0 { lat * proj / fwd } else { -((-lat) * proj / fwd) };
    assert((-lat) * proj == -(lat * proj)) by (nonlinear_arith);
    assert(off == trunc_div(lat * proj, fwd as int));
    assert(size == (bs as int) * (cam.proj_dist as int) * DIR_ONE / (2 * (fwd as int)));
    let cx = half_w + off;
    let half = size / 2;
    let left = cx - half;
    let top = h as i128 / 2 - half;
    let wm = w as i128 - 1;
    let hm = h as i128 - 1;
    let x0 = if left < 0 { 0 } else if left > wm { wm } else { left };
    let right = cx + half;
    let x1 = if right < 0 { 0 } else if right > wm { wm } else { right };
    let y0 = if top < 0 { 0 } else if top > hm { hm } else { top };
    let bottom = h as i128 / 2 + half;
    let y1 = if bottom < 0 { 0 } else if bottom > hm { hm } else { bottom };
    if x1 <= x0 || y1 <= y0 {
        return None;
    }
    assert(half >= 1);
    Some(
        SpriteRect {
            fwd: fwd as i64,
            left: left as i64,
            top: top as i64,
            size: size as i64,
            x0: x0 as u32,
            x1: x1 as u32,
            y0: y0 as u32,
            y1: y1 as u32,
        },
    )
}

/// Texel index along a side of `n` texels for offset `off` of `size`.
fn texel_index(off: i64, size: i64, n: u32) -> (t: u32)
    requires
        0 <= off <= size,
        2 <= size <= MAX_GRID * MAX_PROJ * DIR_ONE,
        n >= 1,
    ensures
        t == (2 * off * (n - 1) + size) / (2 * size),
        t < n,
{
    assert(0 <= 2 * off * (n - 1) + size < 2 * size * n) by (nonlinear_arith)
        requires 0 <= off <= size, size >= 2, n >= 1;
    assert((2 * off * (n - 1) + size) / (2 * size) < n) by (nonlinear_arith)
        requires 0 <= 2 * off * (n - 1) + size < 2 * size * n, size >= 2;
    assert(2 * off * (n - 1) + size <= 2 * (MAX_GRID * MAX_PROJ * DIR_ONE) * 4294967296 + MAX_GRID
        * MAX_PROJ * DIR_ONE) by (nonlinear_arith)
        requires 0 <= off <= size, size <= MAX_GRID * MAX_PROJ * DIR_ONE, 1 <= n <= 4294967295;
    let num: i128 = 2 * off as i128 * (n as i128 - 1) + size as i128;
    (num / (2 * size as i128)) as u32
}

/// Draws column `sx` of a sprite whose square is `r`, skipping transparent
/// texels; the caller has checked that no wall hides the column.
fn draw_sprite_column(
    fb: &mut Framebuffer,
    sx: u32,
    r: &SpriteRect,
    kind: char,
    texman: &TextureManager,
    depth_buffer: &Vec<i64>,
)
    requires
        old(fb).wf(),
        texman.wf(),
        r.x0 <= sx <= r.x1 < old(fb).width,
        r.y0 <= r.y1 < old(fb).height,
        2 <= r.size <= MAX_GRID * MAX_PROJ * DIR_ONE,
        -(MAX_GRID * MAX_PROJ * DIR_ONE) <= r.left <= MAX_SCREEN,
        -(MAX_GRID * MAX_PROJ * DIR_ONE) <= r.top <= MAX_SCREEN,
        column_open(depth_buffer@, sx as int, r.fwd as int),
    ensures
        final(fb).wf(),
        final(fb).width == old(fb).width,
        final(fb).height == old(fb).height,
        final(fb).background() == old(fb).background(),
        final(fb).current() == old(fb).current(),
        forall|p: int|
            0 <= p < final(fb).color_buffer@.len() ==> final(fb).color_buffer@[p] == if p
                % (final(fb).width as int) == sx && sprite_drawn(
                *texman,
                kind,
                *r,
                depth_buffer@,
                sx as int,
                p / (final(fb).width as int),
            ) {
                sprite_texel(*texman, kind, *r, sx as int, p / (final(fb).width as int))
            } else {
                old(fb).color_buffer@[p]
            },
{
    let ghost w = fb.width as int;
    let ghost hh = fb.height as int;
    let (tw, th) = texman.image_size(kind);
    let offx: i64 = if (sx as i64) < r.left {
        0
    } else if sx as i64 - r.left > r.size {
        r.size
    } else {
        sx as i64 - r.left
    };
    let tx = texel_index(r.size - offx, r.size, tw);
    let mut sy: u32 = r.y0;
    while sy <= r.y1
        invariant
            fb.wf(),
            fb.width == old(fb).width,
            fb.height == old(fb).height,
            fb.background() == old(fb).background(),
            fb.current() == old(fb).current(),
            w == fb.width,
            hh == fb.height,
            texman.wf(),
            r.x0 <= sx <= r.x1 < w,
            r.y0 <= sy <= r.y1 + 1,
            r.y1 < hh,
            2 <= r.size <= MAX_GRID * MAX_PROJ * DIR_ONE,
            -(MAX_GRID * MAX_PROJ * DIR_ONE) <= r.top <= MAX_SCREEN,
            column_open(depth_buffer@, sx as int, r.fwd as int),
            (tw, th) == texman.size_spec(kind),
            tw >= 1,
            th >= 1,
            tx == tex_x_spec(*r, tw as int, sx as int),
            forall|p: int|
                0 <= p < fb.color_buffer@.len() ==> #[trigger] fb.color_buffer@[p] == if p % w == sx
                    && p / w < sy && sprite_drawn(*texman, kind, *r, depth_buffer@, sx as int, p / w) {
                    sprite_texel(*texman, kind, *r, sx as int, p / w)
                } else {
                    old(fb).color_buffer@[p]
                },
        decreases r.y1 + 1 - sy,
    {
        let offy: i64 = if (sy as i64) < r.top {
            0
        } else if sy as i64 - r.top > r.size {
            r.size
        } else {
            sy as i64 - r.top
        };
        let ty = texel_index(offy, r.size, th);
        let c = texman.get_pixel_color(kind, tx, ty);
        assert(c == sprite_texel(*texman, kind, *r, sx as int, sy as int));
        if c.a != 0 && !is_chroma(c) {
            let ghost prev = fb.color_buffer@;
            fb.set_pixel_color(sx, sy, c);
            proof {
                let q = (sy as int) * w + (sx as int);
                lemma_index_split(w, sx as int, sy as int);
                assert(fb.color_buffer@ == prev.update(q, c));
                assert(0 <= q < w * hh) by (nonlinear_arith)
                    requires q == (sy as int) * w + (sx as int), 0 <= sx < w, 0 <= sy < hh;
                assert forall|p: int| 0 <= p < fb.color_buffer@.len() implies #[trigger] fb.color_buffer@[p]
                    == if p % w == sx && p / w < sy + 1 && sprite_drawn(*texman, kind, *r, depth_buffer@, sx as int, p / w) {
                    sprite_texel(*texman, kind, *r, sx as int, p / w)
                } else {
                    old(fb).color_buffer@[p]
                } by {
                    if p != q {
                        lemma_fundamental_div_mod(p, w);
                        assert(prev[p] == fb.color_buffer@[p]);
                        if p % w == sx && p / w == sy {
                            assert(p == q) by (nonlinear_arith)
                                requires p == w * (p / w) + p % w, p % w == sx, p / w == sy, q == sy * w + sx;
                        }
                    }
                }
            }
        } else {
            proof {
                assert forall|p: int| 0 <= p < fb.color_buffer@.len() implies #[trigger] fb.color_buffer@[p]
                    == if p % w == sx && p / w < sy + 1 && sprite_drawn(*texman, kind, *r, depth_buffer@, sx as int, p / w) {
                    sprite_texel(*texman, kind, *r, sx as int, p / w)
                } else {
                    old(fb).color_buffer@[p]
                } by {
                }
            }
        }
        sy = sy + 1;
    }
}

/// Composites sprite `sprite` onto the canvas: out of view or degenerate
/// squares draw nothing; otherwise every pixel of the clipped square whose
/// column no nearer wall hides, and whose texel is neither transparent nor
/// the chroma key, takes that texel.
pub fn draw_sprite(
    fb: &mut Framebuffer,
    player: &Player,
    sprite: &Sprite,
    texman: &TextureManager,
    depth_buffer: &Vec<i64>,
    block_size: usize,
    cam: &Camera,
)
    requires
        old(fb).wf(),
        texman.wf(),
        sprite_inputs(
            *player,
            *sprite,
            *cam,
            block_size as int,
            old(fb).width as int,
            old(fb).height as int,
        ),
        forall|k: int| 0 <= k < depth_buffer@.len() ==> 0 <= #[trigger] depth_buffer@[k] <= 2 * MAX_RAY,
    ensures
        final(fb).wf(),
        final(fb).width == old(fb).width,
        final(fb).height == old(fb).height,
        forall|p: int|
            0 <= p < final(fb).color_buffer@.len() ==> final(fb).color_buffer@[p] == after_sprite(
                *texman,
                sprite.kind,
                rect_spec(
                    *player,
                    *sprite,
                    *cam,
                    block_size as int,
                    old(fb).width as int,
                    old(fb).height as int,
                ),
                depth_buffer@,
                old(fb).color_buffer@,
                old(fb).width as int,
                p,
            ),
{
    let ghost w = fb.width as int;
    let ghost hh = fb.height as int;
    let rect = sprite_rect(player, sprite, cam, block_size, fb.width, fb.height);
    let r = match rect {
        Some(r) => r,
        None => {
            return;
        },
    };
    let mut sx: u32 = r.x0;
    while sx <= r.x1
        invariant
            fb.wf(),
            fb.width == old(fb).width,
            fb.height == old(fb).height,
            w == fb.width,
            hh == fb.height,
            texman.wf(),
            rect == Some(r),
            rect == rect_spec(*player, *sprite, *cam, block_size as int, w, hh),
            r.x0 <= sx <= r.x1 + 1,
            r.x1 < w,
            r.y0 <= r.y1 < hh,
            2 <= r.size <= MAX_GRID * MAX_PROJ * DIR_ONE,
            -(MAX_GRID * MAX_PROJ * DIR_ONE) <= r.left <= MAX_SCREEN,
            -(MAX_GRID * MAX_PROJ * DIR_ONE) <= r.top <= MAX_SCREEN,
            r.fwd > 0,
            forall|k: int| 0 <= k < depth_buffer@.len() ==> 0 <= #[trigger] depth_buffer@[k] <= 2 * MAX_RAY,
            forall|p: int|
                0 <= p < fb.color_buffer@.len() ==> #[trigger] fb.color_buffer@[p] == if p % w < sx
                    && sprite_drawn(*texman, sprite.kind, r, depth_buffer@, p % w, p / w) {
                    sprite_texel(*texman, sprite.kind, r, p % w, p / w)
                } else {
                    old(fb).color_buffer@[p]
                },
        decreases r.x1 + 1 - sx,
    {
        let hidden = (sx as usize) < depth_buffer.len() && r.fwd > depth_buffer[sx as usize]
            * DIR_ONE;
        if !hidden {
            draw_sprite_column(fb, sx, &r, sprite.kind, texman, depth_buffer);
            proof {
                assert forall|p: int| 0 <= p < fb.color_buffer@.len() implies #[trigger] fb.color_buffer@[p]
                    == if p % w < sx + 1 && sprite_drawn(*texman, sprite.kind, r, depth_buffer@, p % w, p / w) {
                    sprite_texel(*texman, sprite.kind, r, p % w, p / w)
                } else {
                    old(fb).color_buffer@[p]
                } by {
                }
            }
        } else {
            proof {
                assert forall|p: int| 0 <= p < fb.color_buffer@.len() implies #[trigger] fb.color_buffer@[p]
                    == if p % w < sx + 1 && sprite_drawn(*texman, sprite.kind, r, depth_buffer@, p % w, p / w) {
                    sprite_texel(*texman, sprite.kind, r, p % w, p / w)
                } else {
                    old(fb).color_buffer@[p]
                } by {
                    if p % w == sx {
                        assert(!column_open(depth_buffer@, sx as int, r.fwd as int));
                    }
                }
            }
        }
        sx = sx + 1;
    }
    proof {
        assert forall|p: int| 0 <= p < fb.color_buffer@.len() implies #[trigger] fb.color_buffer@[p]
            == after_sprite(*texman, sprite.kind, rect, depth_buffer@, old(fb).color_buffer@, w, p) by {
            lemma_fundamental_div_mod(p, w);
        }
    }
}

/// A sprite exactly behind the viewer (on the heading's line, on the far
/// side) gets no screen square and leaves every pixel as it was, whatever
/// the field of view.
pub proof fn lemma_behind_never_drawn(
    p: Player,
    s: Sprite,
    cam: Camera,
    bs: int,
    w: int,
    h: int,
    tm: TextureManager,
    depth: Seq<i64>,
    old: Seq<Color>,
)
    requires
        lateral_spec(p, s, cam) == 0,
        forward_spec(p, s, cam) < 0,
    ensures
        rect_spec(p, s, cam, bs, w, h) is None,
        forall|q: int|
            0 <= q < old.len() ==> #[trigger] after_sprite(
                tm,
                s.kind,
                rect_spec(p, s, cam, bs, w, h),
                depth,
                old,
                w,
                q,
            ) == old[q],
{
}

/// A sprite lying deeper than the wall recorded for a column paints nothing
/// in that column.
pub proof fn lemma_occluded_column_untouched(
    tm: TextureManager,
    kind: char,
    r: SpriteRect,
    depth: Seq<i64>,
    col: int,
    row: int,
)
    requires
        0 <= col < depth.len(),
        r.fwd > depth[col] * DIR_ONE,
    ensures
        !sprite_drawn(tm, kind, r, depth, col, row),
{
}

} // verus!
