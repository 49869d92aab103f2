use vstd::prelude::*;

use crate::framebuffer::{in_disc, in_rect, lemma_row_in_range, Color, Framebuffer};
use crate::grid::{grid_view, Maze, MAX_GRID};
use crate::player::Player;
use crate::render::MAX_SCREEN;
use crate::sprite::{cell_of, Sprite};

verus! {

/// Side, in screen pixels, of one tile on the minimap.
pub const MINI: u64 = 8;

/// Screen column of the minimap's left edge.
pub const MINI_X: u64 = 10;

/// Screen row of the minimap's top edge.
pub const MINI_Y: u64 = 10;

/// Radius of the player's dot.
pub const DOT_RADIUS: i32 = 4;

/// Colour behind the minimap's tiles.
pub open spec fn backdrop() -> Color {
    Color { r: 20, g: 20, b: 30, a: 255 }
}

/// Colour of `'+'`, `'-'` and `'|'` walls on the minimap.
pub open spec fn dark_purple() -> Color {
    Color { r: 112, g: 31, b: 126, a: 255 }
}

/// Colour of the goal on the minimap.
pub open spec fn green() -> Color {
    Color { r: 0, g: 228, b: 48, a: 255 }
}

/// Colour of other tiles and of sprite marks on the minimap.
pub open spec fn gray() -> Color {
    Color { r: 130, g: 130, b: 130, a: 255 }
}

/// Colour of the player's dot.
pub open spec fn red() -> Color {
    Color { r: 230, g: 41, b: 55, a: 255 }
}

/// Minimap colour of a non-empty tile.
pub open spec fn tile_colour(c: char) -> Color {
    if c == '+' || c == '-' || c == '|' {
        dark_purple()
    } else if c == 'g' {
        green()
    } else {
        gray()
    }
}

/// Minimap cell under screen column `x`, if any.
pub open spec fn mini_cell(x: int, origin: int) -> int {
    (x - origin) / (MINI as int)
}

/// The non-empty tile drawn under screen pixel `(x, y)`, if any.
pub open spec fn tile_cover(g: Seq<Seq<char>>, x: int, y: int) -> Option<char> {
    if x >= MINI_X && y >= MINI_Y {
        let i = mini_cell(x, MINI_X as int);
        let j = mini_cell(y, MINI_Y as int);
        if j < g.len() && i < g[j].len() && g[j][i] != ' ' {
            Some(g[j][i])
        } else {
            None
        }
    } else {
        None
    }
}

/// Uncollected sprite `s` is marked over screen pixel `(x, y)`.
pub open spec fn sprite_covers(s: Sprite, bs: int, x: int, y: int) -> bool {
    &&& !s.collected
    &&& x >= MINI_X
    &&& y >= MINI_Y
    &&& mini_cell(x, MINI_X as int) == cell_of(s.x as int, bs)
    &&& mini_cell(y, MINI_Y as int) == cell_of(s.y as int, bs)
}

/// Screen position of the player's dot for world coordinate `c`.
pub open spec fn dot_coord(c: int, origin: int, bs: int) -> int {
    origin + (2 * MINI * c + bs) / (2 * bs)
}

/// The colour of screen pixel `(x, y)` after the minimap is drawn over
/// `before`: the player's dot on top, then sprite marks, then tiles, then the
/// backdrop, which spans the first row's width and all rows.
pub open spec fn minimap_pixel(
    g: Seq<Seq<char>>,
    sprites: Seq<Sprite>,
    p: Player,
    bs: int,
    before: Color,
    x: int,
    y: int,
) -> Color {
    if in_disc(
        x - dot_coord(p.x as int, MINI_X as int, bs),
        y - dot_coord(p.y as int, MINI_Y as int, bs),
        DOT_RADIUS as int,
    ) {
        red()
    } else if exists|k: int| 0 <= k < sprites.len() && sprite_covers(#[trigger] sprites[k], bs, x, y) {
        gray()
    } else if tile_cover(g, x, y) is Some {
        tile_colour(tile_cover(g, x, y)->Some_0)
    } else if in_rect(
        x,
        y,
        MINI_X as int,
        MINI_Y as int,
        g[0].len() * MINI,
        g.len() * MINI,
    ) {
        backdrop()
    } else {
        before
    }
}

/// The tiles-and-backdrop layer, with tiles drawn for rows before `j` and the
/// first `i` cells of row `j`.
pub open spec fn tiles_layer(g: Seq<Seq<char>>, before: Color, x: int, y: int, j: int, i: int) -> Color {
    let done = tile_cover(g, x, y) is Some && (mini_cell(y, MINI_Y as int) < j || (mini_cell(
        y,
        MINI_Y as int,
    ) == j && mini_cell(x, MINI_X as int) < i));
    if done {
        tile_colour(tile_cover(g, x, y)->Some_0)
    } else if in_rect(
        x,
        y,
        MINI_X as int,
        MINI_Y as int,
        g[0].len() * MINI,
        g.len() * MINI,
    ) {
        backdrop()
    } else {
        before
    }
}

/// The sprite-mark layer over `under`, with the first `n` sprites drawn.
pub open spec fn sprites_layer(sprites: Seq<Sprite>, bs: int, under: Color, x: int, y: int, n: int) -> Color {
    if exists|k: int| 0 <= k < n && sprite_covers(#[trigger] sprites[k], bs, x, y) {
        gray()
    } else {
        under
    }
}

/// Draws the overhead map: backdrop, tiles, uncollected sprites and the
/// player's dot.
pub fn render_minimap(
    fb: &mut Framebuffer,
    maze: &Maze,
    block_size: usize,
    player: &Player,
    sprites: &Vec<Sprite>,
)
    requires
        old(fb).wf(),
        old(fb).width <= MAX_SCREEN,
        old(fb).height <= MAX_SCREEN,
        1 <= maze@.len() <= MAX_GRID,
        forall|j: int| 0 <= j < maze@.len() ==> (#[trigger] maze@[j])@.len() <= MAX_GRID,
        0 < block_size <= MAX_GRID,
        0 <= player.x <= MAX_GRID * block_size,
        0 <= player.y <= MAX_GRID * block_size,
    ensures
        final(fb).wf(),
        final(fb).width == old(fb).width,
        final(fb).height == old(fb).height,
        forall|p: int|
            0 <= p < final(fb).color_buffer@.len() ==> final(fb).color_buffer@[p] == minimap_pixel(
                grid_view(maze),
                sprites@,
                *player,
                block_size as int,
                old(fb).color_buffer@[p],
                p % (old(fb).width as int),
                p / (old(fb).width as int),
            ),
{
    let ghost g = grid_view(maze);
    let ghost w = fb.width as int;
    let ghost bs = block_size as int;
    let ghost start = fb.color_buffer@;
    assert(g[0] == maze@[0]@);
    let bw = maze[0].len() as u64 * MINI;
    let bh = maze.len() as u64 * MINI;
    fb.fill_rect(MINI_X, MINI_Y, bw, bh, Color::new(20, 20, 30, 255));
    let mut j: usize = 0;
    while j < maze.len()
        invariant
            fb.wf(),
            fb.width == old(fb).width,
            fb.height == old(fb).height,
            w == fb.width,
            g == grid_view(maze),
            g.len() == maze@.len(),
            1 <= maze@.len() <= MAX_GRID,
            forall|q: int| 0 <= q < maze@.len() ==> (#[trigger] maze@[q])@.len() <= MAX_GRID,
            bw == g[0].len() * MINI,
            bh == g.len() * MINI,
            start == old(fb).color_buffer@,
            j <= maze@.len(),
            forall|p: int|
                0 <= p < fb.color_buffer@.len() ==> #[trigger] fb.color_buffer@[p] == tiles_layer(
                    g,
                    start[p],
                    p % w,
                    p / w,
                    j as int,
                    0,
                ),
        decreases maze@.len() - j,
    {
        let row = &maze[j];
        assert(g[j as int] == row@);
        let mut i: usize = 0;
        while i < row.len()
            invariant
                fb.wf(),
                fb.width == old(fb).width,
                fb.height == old(fb).height,
                w == fb.width,
                g == grid_view(maze),
                g.len() == maze@.len(),
                j < maze@.len() <= MAX_GRID,
                g[j as int] == row@,
                row@.len() <= MAX_GRID,
                bw == g[0].len() * MINI,
                bh == g.len() * MINI,
                start == old(fb).color_buffer@,
                i <= row@.len(),
                forall|p: int|
                    0 <= p < fb.color_buffer@.len() ==> #[trigger] fb.color_buffer@[p] == tiles_layer(
                        g,
                        start[p],
                        p % w,
                        p / w,
                        j as int,
                        i as int,
                    ),
            decreases row@.len() - i,
        {
            let c = row[i];
            if c != ' ' {
                let col = if c == '+' || c == '-' || c == '|' {
                    Color::new(112, 31, 126, 255)
                } else if c == 'g' {
                    Color::new(0, 228, 48, 255)
                } else {
                    Color::new(130, 130, 130, 255)
                };
                let x0 = MINI_X + i as u64 * MINI;
                let y0 = MINI_Y + j as u64 * MINI;
                fb.fill_rect(x0, y0, MINI, MINI, col);
                proof {
                    assert forall|p: int| 0 <= p < fb.color_buffer@.len() implies #[trigger] fb.color_buffer@[p]
                        == tiles_layer(g, start[p], p % w, p / w, j as int, i + 1) by {
                        let x = p % w;
                        let y = p / w;
                        if in_rect(x, y, x0 as int, y0 as int, MINI as int, MINI as int) {
                            assert(mini_cell(x, MINI_X as int) == i);
                            assert(mini_cell(y, MINI_Y as int) == j);
                            assert(tile_cover(g, x, y) == Some(c));
                        }
                    }
                }
            } else {
                proof {
                    assert forall|p: int| 0 <= p < fb.color_buffer@.len() implies #[trigger] fb.color_buffer@[p]
                        == tiles_layer(g, start[p], p % w, p / w, j as int, i + 1) by {
                        let x = p % w;
                        let y = p / w;
                        if tile_cover(g, x, y) is Some && mini_cell(y, MINI_Y as int) == j && mini_cell(x, MINI_X as int) == i {
                            assert(g[j as int][i as int] == c);
                        }
                    }
                }
            }
            i = i + 1;
        }
        proof {
            assert forall|p: int| 0 <= p < fb.color_buffer@.len() implies #[trigger] fb.color_buffer@[p]
                == tiles_layer(g, start[p], p % w, p / w, j + 1, 0) by {
                let x = p % w;
                let y = p / w;
                if tile_cover(g, x, y) is Some && mini_cell(y, MINI_Y as int) == j {
                    assert(mini_cell(x, MINI_X as int) < row@.len());
                }
            }
        }
        j = j + 1;
    }
    let ghost tiles = fb.color_buffer@;
    let mut k: usize = 0;
    while k < sprites.len()
        invariant
            fb.wf(),
            fb.width == old(fb).width,
            fb.height == old(fb).height,
            w == fb.width,
            0 < block_size <= MAX_GRID,
            bs == block_size,
            fb.width <= MAX_SCREEN,
            fb.height <= MAX_SCREEN,
            k <= sprites@.len(),
            tiles.len() == fb.color_buffer@.len(),
            forall|p: int|
                0 <= p < fb.color_buffer@.len() ==> #[trigger] fb.color_buffer@[p] == sprites_layer(
                    sprites@,
                    bs,
                    tiles[p],
                    p % w,
                    p / w,
                    k as int,
                ),
        decreases sprites@.len() - k,
    {
        let s = sprites[k];
        if !s.collected {
            let si: u64 = (if s.x < 0 { 0 } else { s.x as u64 }) / block_size as u64;
            let sj: u64 = (if s.y < 0 { 0 } else { s.y as u64 }) / block_size as u64;
            if si < fb.width as u64 && sj < fb.height as u64 {
                fb.fill_rect(MINI_X + si * MINI, MINI_Y + sj * MINI, MINI, MINI, Color::new(130, 130, 130, 255));
            }
        }
        proof {
            assert forall|p: int| 0 <= p < fb.color_buffer@.len() implies #[trigger] fb.color_buffer@[p]
                == sprites_layer(sprites@, bs, tiles[p], p % w, p / w, k + 1) by {
                let x = p % w;
                let y = p / w;
                lemma_row_in_range(w, fb.height as int, p);
                if sprite_covers(sprites@[k as int], bs, x, y) {
                    assert(0 <= k < k + 1 && sprite_covers(sprites@[k as int], bs, x, y));
                } else {
                    if exists|q: int| 0 <= q < k + 1 && sprite_covers(#[trigger] sprites@[q], bs, x, y) {
                        let q = choose|q: int| 0 <= q < k + 1 && sprite_covers(#[trigger] sprites@[q], bs, x, y);
                        assert(q < k);
                    }
                }
            }
        }
        k = k + 1;
    }
    proof {
        assert forall|p: int| 0 <= p < fb.color_buffer@.len() implies #[trigger] fb.color_buffer@[p]
            == sprites_layer(sprites@, bs, tiles_layer(g, start[p], p % w, p / w, g.len() as int, 0), p % w, p / w, sprites@.len() as int) by {
        }
    }
    let jx = dot_pos(player.x, MINI_X, block_size);
    let jy = dot_pos(player.y, MINI_Y, block_size);
    fb.draw_circle_filled(jx, jy, DOT_RADIUS, Color::new(230, 41, 55, 255));
}

/// Screen position of the player's dot for world coordinate `c`, rounded to
/// the nearest pixel.
fn dot_pos(c: i64, origin: u64, bs: usize) -> (r: i32)
    requires
        0 <= c <= MAX_GRID * bs,
        0 < bs <= MAX_GRID,
        origin == MINI_X || origin == MINI_Y,
    ensures
        r == dot_coord(c as int, origin as int, bs as int),
        0 <= r <= 1048576,
{
    assert(0 <= 2 * MINI * c + bs <= 2 * MINI * MAX_GRID * bs + bs) by (nonlinear_arith)
        requires 0 <= c <= MAX_GRID * bs, bs > 0;
    assert(2 * MINI * MAX_GRID * bs + bs <= 2 * MINI * MAX_GRID * MAX_GRID + MAX_GRID) by (nonlinear_arith)
        requires 0 < bs <= MAX_GRID;
    assert((2 * MINI * c + bs) / (2 * bs) <= MINI * MAX_GRID + 1) by (nonlinear_arith)
        requires 0 <= 2 * MINI * c + bs <= 2 * MINI * MAX_GRID * bs + bs, bs > 0;
    let v = (2 * MINI * c as u64 + bs as u64) / (2 * bs as u64);
    (origin + v) as i32
}

} // verus!
