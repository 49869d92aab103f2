use vstd::prelude::*;

use crate::grid::{
    grid_view, is_wall, open_at, tile_at, tile_spec, Maze, MAX_COORD, MAX_GRID,
};

verus! {

/// Fixed-point scale of direction vectors: a component of `DIR_ONE` is 1.0.
pub const DIR_ONE: i64 = 16384;

/// Distance in pixels between two consecutive samples of a ray.
pub const RAY_STEP: i64 = 2;

/// Where a ray stopped.
pub struct Intersect {
    /// Distance marched, in pixels, never below 1.
    pub distance: i64,
    /// Symbol of the tile struck; `'#'` when the ray left the grid.
    pub impact: char,
    /// World pixel column of the stopping sample (0 when it lies left of the grid).
    pub hit_x: u64,
    /// World pixel row of the stopping sample (0 when it lies above the grid).
    pub hit_y: u64,
}

/// One coordinate of the sample at distance `d`, in 1/`DIR_ONE` pixel units.
pub open spec fn sub_coord(o: int, dir: int, d: int) -> int {
    o * DIR_ONE + d * dir
}

/// One coordinate of the sample at distance `d`, in whole pixels.
pub open spec fn pixel_coord(o: int, dir: int, d: int) -> int {
    sub_coord(o, dir, d) / (DIR_ONE as int)
}

/// The sample at distance `d` lies off the grid or on a solid tile.
pub open spec fn ray_blocked(
    g: Seq<Seq<char>>,
    ox: int,
    oy: int,
    dx: int,
    dy: int,
    bs: int,
    d: int,
) -> bool {
    !open_at(g, pixel_coord(ox, dx, d), pixel_coord(oy, dy, d), bs)
}

/// Sample number `k` (at distance `k * RAY_STEP`) is blocked.
pub open spec fn sample_blocked(
    g: Seq<Seq<char>>,
    ox: int,
    oy: int,
    dx: int,
    dy: int,
    bs: int,
    k: int,
) -> bool {
    ray_blocked(g, ox, oy, dx, dy, bs, k * RAY_STEP)
}

/// Sample number `n` is the first blocked one.
pub open spec fn first_hit(
    g: Seq<Seq<char>>,
    ox: int,
    oy: int,
    dx: int,
    dy: int,
    bs: int,
    n: int,
) -> bool {
    &&& n >= 0
    &&& sample_blocked(g, ox, oy, dx, dy, bs, n)
    &&& forall|k: int| 0 <= k < n ==> !#[trigger] sample_blocked(g, ox, oy, dx, dy, bs, k)
}

/// The number of the first blocked sample (meaningful when one exists).
pub open spec fn hit_index(g: Seq<Seq<char>>, ox: int, oy: int, dx: int, dy: int, bs: int) -> int {
    choose|n: int| first_hit(g, ox, oy, dx, dy, bs, n)
}

/// The distance a cast reports: the first blocked sample's, at least 1.
pub open spec fn ray_distance(
    g: Seq<Seq<char>>,
    ox: int,
    oy: int,
    dx: int,
    dy: int,
    bs: int,
) -> int {
    let d = hit_index(g, ox, oy, dx, dy, bs) * RAY_STEP;
    if d < 1 {
        1
    } else {
        d
    }
}

/// What a cast stopping at distance `d` reports.
pub open spec fn hit_record(
    g: Seq<Seq<char>>,
    ox: int,
    oy: int,
    dx: int,
    dy: int,
    bs: int,
    d: int,
    r: Intersect,
) -> bool {
    let px = pixel_coord(ox, dx, d);
    let py = pixel_coord(oy, dy, d);
    &&& r.distance == (if d < 1 { 1 } else { d })
    &&& r.impact == (match tile_spec(g, px, py, bs) {
        Some(t) => t,
        None => '#',
    })
    &&& r.hit_x == (if px < 0 { 0 } else { px })
    &&& r.hit_y == (if py < 0 { 0 } else { py })
}

/// The full result of a cast from `(ox, oy)` along `(dx, dy)`.
pub open spec fn cast_spec(g: Seq<Seq<char>>, ox: int, oy: int, dx: int, dy: int, bs: int) -> Intersect {
    let d = hit_index(g, ox, oy, dx, dy, bs) * RAY_STEP;
    let px = pixel_coord(ox, dx, d);
    let py = pixel_coord(oy, dy, d);
    Intersect {
        distance: (if d < 1 { 1 } else { d }) as i64,
        impact: match tile_spec(g, px, py, bs) {
            Some(t) => t,
            None => '#',
        },
        hit_x: (if px < 0 { 0 } else { px }) as u64,
        hit_y: (if py < 0 { 0 } else { py }) as u64,
    }
}

/// Largest distance a cast can report.
pub const MAX_RAY: i64 = 8590065666;

/// A direction the caster accepts: components within one unit, and one of
/// them at least half a unit long (true of any unit vector after rounding).
pub open spec fn ray_direction(dx: int, dy: int) -> bool {
    &&& -DIR_ONE <= dx <= DIR_ONE
    &&& -DIR_ONE <= dy <= DIR_ONE
    &&& (dx >= DIR_ONE / 2 || dx <= -DIR_ONE / 2 || dy >= DIR_ONE / 2 || dy <= -DIR_ONE / 2)
}

/// Inputs the caster accepts.
pub open spec fn cast_inputs(g: Seq<Seq<char>>, ox: int, oy: int, dx: int, dy: int, bs: int) -> bool {
    &&& 0 < bs <= MAX_GRID
    &&& g.len() <= MAX_GRID
    &&& forall|j: int| 0 <= j < g.len() ==> #[trigger] g[j].len() <= MAX_GRID
    &&& -MAX_COORD <= ox <= MAX_COORD
    &&& -MAX_COORD <= oy <= MAX_COORD
    &&& ray_direction(dx, dy)
}

/// At most one sample is the first blocked one.
pub proof fn lemma_first_hit_unique(
    g: Seq<Seq<char>>,
    ox: int,
    oy: int,
    dx: int,
    dy: int,
    bs: int,
    n: int,
    m: int,
)
    requires
        first_hit(g, ox, oy, dx, dy, bs, n),
        first_hit(g, ox, oy, dx, dy, bs, m),
    ensures
        n == m,
{
    if n < m {
        assert(!sample_blocked(g, ox, oy, dx, dy, bs, n));
    } else if m < n {
        assert(!sample_blocked(g, ox, oy, dx, dy, bs, m));
    }
}

/// Where some sample is blocked, a first blocked sample exists.
pub proof fn lemma_first_hit_exists(
    g: Seq<Seq<char>>,
    ox: int,
    oy: int,
    dx: int,
    dy: int,
    bs: int,
    n: int,
)
    requires
        n >= 0,
        sample_blocked(g, ox, oy, dx, dy, bs, n),
    ensures
        first_hit(g, ox, oy, dx, dy, bs, hit_index(g, ox, oy, dx, dy, bs)),
        hit_index(g, ox, oy, dx, dy, bs) <= n,
    decreases n,
{
    if forall|k: int| 0 <= k < n ==> !#[trigger] sample_blocked(g, ox, oy, dx, dy, bs, k) {
        assert(first_hit(g, ox, oy, dx, dy, bs, n));
        lemma_first_hit_unique(g, ox, oy, dx, dy, bs, n, hit_index(g, ox, oy, dx, dy, bs));
    } else {
        let k = choose|k: int| 0 <= k < n && #[trigger] sample_blocked(g, ox, oy, dx, dy, bs, k);
        lemma_first_hit_exists(g, ox, oy, dx, dy, bs, k);
    }
}

/// Moving the origin back along the ray by `s` pixels (a whole number of
/// steps) over open ground never shortens the reported distance: a ray that
/// starts farther from the same wall reports at least the same distance.
pub proof fn lemma_distance_monotone(
    g: Seq<Seq<char>>,
    ox: int,
    oy: int,
    dx: int,
    dy: int,
    bs: int,
    s: int,
    ox2: int,
    oy2: int,
    n: int,
)
    requires
        s >= 0,
        s % 2 == 0,
        ox2 * DIR_ONE + s * dx == ox * DIR_ONE,
        oy2 * DIR_ONE + s * dy == oy * DIR_ONE,
        forall|k: int|
            0 <= k < s / 2 ==> !#[trigger] sample_blocked(g, ox2, oy2, dx, dy, bs, k),
        n >= 0,
        sample_blocked(g, ox, oy, dx, dy, bs, n),
    ensures
        ray_distance(g, ox2, oy2, dx, dy, bs) >= ray_distance(g, ox, oy, dx, dy, bs),
        ray_distance(g, ox2, oy2, dx, dy, bs) >= s,
{
    let h = s / 2;
    assert forall|k: int| #[trigger] sample_blocked(g, ox2, oy2, dx, dy, bs, k + h)
        == sample_blocked(g, ox, oy, dx, dy, bs, k) by {
        assert(sub_coord(ox2, dx, (k + h) * RAY_STEP) == sub_coord(ox, dx, k * RAY_STEP))
            by (nonlinear_arith)
            requires
                ox2 * DIR_ONE + s * dx == ox * DIR_ONE,
                h * 2 == s;
        assert(sub_coord(oy2, dy, (k + h) * RAY_STEP) == sub_coord(oy, dy, k * RAY_STEP))
            by (nonlinear_arith)
            requires
                oy2 * DIR_ONE + s * dy == oy * DIR_ONE,
                h * 2 == s;
    }
    lemma_first_hit_exists(g, ox, oy, dx, dy, bs, n);
    let m = hit_index(g, ox, oy, dx, dy, bs);
    assert(sample_blocked(g, ox2, oy2, dx, dy, bs, m + h));
    lemma_first_hit_exists(g, ox2, oy2, dx, dy, bs, m + h);
    let m2 = hit_index(g, ox2, oy2, dx, dy, bs);
    if m2 < h {
        assert(!sample_blocked(g, ox2, oy2, dx, dy, bs, m2));
    }
    assert(m2 >= h);
    assert(sample_blocked(g, ox2, oy2, dx, dy, bs, (m2 - h) + h));
    if m2 - h < m {
        assert(!sample_blocked(g, ox, oy, dx, dy, bs, m2 - h));
    }
}

/// A pixel coordinate inside `[0, w * bs)` comes from a sub-pixel coordinate
/// inside `[0, w * bs * DIR_ONE)`.
proof fn lemma_pixel_range(s: int, w: int, bs: int)
    requires
        bs > 0,
        w >= 0,
        0 <= s / (DIR_ONE as int),
        (s / (DIR_ONE as int)) / bs < w,
    ensures
        0 <= s < w * bs * DIR_ONE,
{
    let one = DIR_ONE as int;
    let p = s / one;
    assert(s == one * p + s % one) by (nonlinear_arith)
        requires one > 0, p == s / one;
    assert(0 <= s % one < one) by (nonlinear_arith)
        requires one > 0;
    assert(p == bs * (p / bs) + p % bs) by (nonlinear_arith)
        requires bs > 0;
    assert(0 <= p % bs < bs) by (nonlinear_arith)
        requires bs > 0;
    assert(p / bs + 1 <= w);
    assert(p < w * bs) by (nonlinear_arith)
        requires p == bs * (p / bs) + p % bs, p % bs < bs, p / bs + 1 <= w, bs > 0;
    assert(s < w * bs * one) by (nonlinear_arith)
        requires s == one * p + s % one, s % one < one, p < w * bs, one > 0, p >= 0;
}

/// A ray that starts on the grid is blocked by the time it has marched
/// `2 * (w + 1) * bs` pixels, where no dimension of the grid exceeds `w` tiles.
proof fn lemma_ray_leaves_grid(
    g: Seq<Seq<char>>,
    ox: int,
    oy: int,
    dx: int,
    dy: int,
    bs: int,
    w: int,
)
    requires
        bs > 0,
        w >= 0,
        g.len() <= w,
        forall|j: int| 0 <= j < g.len() ==> #[trigger] g[j].len() <= w,
        ray_direction(dx, dy),
        !ray_blocked(g, ox, oy, dx, dy, bs, 0),
    ensures
        ray_blocked(g, ox, oy, dx, dy, bs, 2 * (w + 1) * bs),
{
    let one = DIR_ONE as int;
    let l = 2 * (w + 1) * bs;
    assert(sub_coord(ox, dx, 0) == ox * one);
    assert(sub_coord(oy, dy, 0) == oy * one);
    let px0 = pixel_coord(ox, dx, 0);
    let py0 = pixel_coord(oy, dy, 0);
    assert((ox * one) / one == ox) by (nonlinear_arith)
        requires one > 0;
    assert((oy * one) / one == oy) by (nonlinear_arith)
        requires one > 0;
    assert(tile_spec(g, px0, py0, bs).is_some());
    let j0 = py0 / bs;
    assert(g[j0].len() <= w);
    lemma_pixel_range(ox * one, w, bs);
    lemma_pixel_range(oy * one, w, bs);
    if !ray_blocked(g, ox, oy, dx, dy, bs, l) {
        let sx = sub_coord(ox, dx, l);
        let sy = sub_coord(oy, dy, l);
        assert(tile_spec(g, sx / one, sy / one, bs).is_some());
        let j = (sy / one) / bs;
        assert(g[j].len() <= w);
        lemma_pixel_range(sx, w, bs);
        lemma_pixel_range(sy, w, bs);
        assert(l * one / 2 == (w + 1) * bs * one) by (nonlinear_arith)
            requires l == 2 * (w + 1) * bs;
        if dx >= one / 2 {
            assert(l * dx >= l * (one / 2)) by (nonlinear_arith)
                requires dx >= one / 2, l >= 0;
            assert(l * (one / 2) == (w + 1) * bs * one) by (nonlinear_arith)
                requires l == 2 * (w + 1) * bs, one == 16384;
            assert((w + 1) * bs * one == w * bs * one + bs * one) by (nonlinear_arith);
        } else if dx <= -(one / 2) {
            assert(l * dx <= -(l * (one / 2))) by (nonlinear_arith)
                requires dx <= -(one / 2), l >= 0;
            assert(l * (one / 2) == (w + 1) * bs * one) by (nonlinear_arith)
                requires l == 2 * (w + 1) * bs, one == 16384;
            assert((w + 1) * bs * one == w * bs * one + bs * one) by (nonlinear_arith);
        } else if dy >= one / 2 {
            assert(l * dy >= l * (one / 2)) by (nonlinear_arith)
                requires dy >= one / 2, l >= 0;
            assert(l * (one / 2) == (w + 1) * bs * one) by (nonlinear_arith)
                requires l == 2 * (w + 1) * bs, one == 16384;
            assert((w + 1) * bs * one == w * bs * one + bs * one) by (nonlinear_arith);
        } else {
            assert(l * dy <= -(l * (one / 2))) by (nonlinear_arith)
                requires dy <= -(one / 2), l >= 0;
            assert(l * (one / 2) == (w + 1) * bs * one) by (nonlinear_arith)
                requires l == 2 * (w + 1) * bs, one == 16384;
            assert((w + 1) * bs * one == w * bs * one + bs * one) by (nonlinear_arith);
        }
    }
}

/// Marches a ray from `(ox, oy)` along `(dx, dy)` (in `DIR_ONE` units) in
/// steps of `RAY_STEP` pixels and reports the first sample that leaves the
/// grid or lands on a solid tile.
pub fn cast_ray(maze: &Maze, ox: i64, oy: i64, dx: i64, dy: i64, block_size: usize) -> (r:
    Intersect)
    requires
        cast_inputs(grid_view(maze), ox as int, oy as int, dx as int, dy as int, block_size as int),
    ensures
        first_hit(
            grid_view(maze),
            ox as int,
            oy as int,
            dx as int,
            dy as int,
            block_size as int,
            hit_index(grid_view(maze), ox as int, oy as int, dx as int, dy as int, block_size as int),
        ),
        hit_record(
            grid_view(maze),
            ox as int,
            oy as int,
            dx as int,
            dy as int,
            block_size as int,
            hit_index(grid_view(maze), ox as int, oy as int, dx as int, dy as int, block_size as int)
                * RAY_STEP,
            r,
        ),
        r.distance == ray_distance(
            grid_view(maze),
            ox as int,
            oy as int,
            dx as int,
            dy as int,
            block_size as int,
        ),
        r.distance >= 1,
        r.distance <= MAX_RAY,
        r == cast_spec(
            grid_view(maze),
            ox as int,
            oy as int,
            dx as int,
            dy as int,
            block_size as int,
        ),
{
    let ghost g = grid_view(maze);
    let ghost bs = block_size as int;
    let mut w: usize = maze.len();
    let mut k: usize = 0;
    while k < maze.len()
        invariant
            k <= maze@.len(),
            g == grid_view(maze),
            g.len() == maze@.len(),
            cast_inputs(g, ox as int, oy as int, dx as int, dy as int, bs),
            maze@.len() <= w <= MAX_GRID,
            forall|j: int| 0 <= j < k ==> #[trigger] g[j].len() <= w,
        decreases maze@.len() - k,
    {
        assert(g[k as int] == maze@[k as int]@);
        if maze[k].len() > w {
            w = maze[k].len();
        }
        k = k + 1;
    }
    assert(0 <= (w as int + 1) * bs <= (MAX_GRID + 1) * MAX_GRID) by (nonlinear_arith)
        requires 0 <= w <= MAX_GRID, 0 < bs <= MAX_GRID;
    let span: i64 = (w as i64 + 1) * block_size as i64;
    let limit: i64 = 2 * span;
    assert(limit == 2 * (w + 1) * bs) by (nonlinear_arith)
        requires limit == 2 * span, span == (w + 1) * bs;
    let mut d: i64 = 0;
    while d <= limit
        invariant
            g == grid_view(maze),
            cast_inputs(g, ox as int, oy as int, dx as int, dy as int, bs),
            bs == block_size as int,
            g.len() <= w <= MAX_GRID,
            forall|j: int| 0 <= j < g.len() ==> #[trigger] g[j].len() <= w,
            limit == 2 * (w + 1) * bs,
            limit == 2 * span,
            0 <= span <= (MAX_GRID + 1) * MAX_GRID,
            0 <= d <= limit + RAY_STEP,
            d % RAY_STEP == 0,
            d > 0 ==> !ray_blocked(g, ox as int, oy as int, dx as int, dy as int, bs, 0),
            forall|q: int|
                0 <= q < d / RAY_STEP ==> !#[trigger] sample_blocked(g, ox as int, oy as int, dx as int, dy as int, bs, q),
        decreases limit + RAY_STEP - d,
    {
        assert(0 <= d * DIR_ONE <= (2 * (MAX_GRID + 1) * MAX_GRID + 2) * DIR_ONE) by (nonlinear_arith)
            requires 0 <= d <= 2 * (MAX_GRID + 1) * MAX_GRID + 2;
        assert(-DIR_ONE * d <= d * dx <= DIR_ONE * d) by (nonlinear_arith)
            requires -DIR_ONE <= dx <= DIR_ONE, d >= 0;
        assert(-DIR_ONE * d <= d * dy <= DIR_ONE * d) by (nonlinear_arith)
            requires -DIR_ONE <= dy <= DIR_ONE, d >= 0;
        let sx: i64 = ox * DIR_ONE + d * dx;
        let sy: i64 = oy * DIR_ONE + d * dy;
        let px: i64 = if sx < 0 { -1 } else { sx / DIR_ONE };
        let py: i64 = if sy < 0 { -1 } else { sy / DIR_ONE };
        proof {
            assert(sx == sub_coord(ox as int, dx as int, d as int));
            assert(sy == sub_coord(oy as int, dy as int, d as int));
            assert(sx < 0 ==> pixel_coord(ox as int, dx as int, d as int) < 0);
            assert(sy < 0 ==> pixel_coord(oy as int, dy as int, d as int) < 0);
        }
        let t = tile_at(maze, px, py, block_size);
        let ghost dd = d as int;
        assert(tile_spec(g, px as int, py as int, bs) == tile_spec(
            g,
            pixel_coord(ox as int, dx as int, dd),
            pixel_coord(oy as int, dy as int, dd),
            bs,
        ));
        let blocked = match t {
            Some(c) => is_wall(c),
            None => true,
        };
        if blocked {
            let ghost n = d / RAY_STEP;
            assert(n * RAY_STEP == d);
            assert(sample_blocked(g, ox as int, oy as int, dx as int, dy as int, bs, n));
            assert(first_hit(g, ox as int, oy as int, dx as int, dy as int, bs, n));
            proof {
                lemma_first_hit_unique(
                    g,
                    ox as int,
                    oy as int,
                    dx as int,
                    dy as int,
                    bs,
                    n,
                    hit_index(g, ox as int, oy as int, dx as int, dy as int, bs),
                );
            }
            let impact = match t {
                Some(c) => c,
                None => '#',
            };
            let hx: u64 = if px < 0 { 0 } else { px as u64 };
            let hy: u64 = if py < 0 { 0 } else { py as u64 };
            let distance: i64 = if d < 1 { 1 } else { d };
            return Intersect { distance, impact, hit_x: hx, hit_y: hy };
        }
        proof {
            assert forall|q: int| 0 <= q < (d as int + RAY_STEP) / (RAY_STEP as int) implies !sample_blocked(g, ox as int, oy as int, dx as int, dy as int, bs, q) by {
                if q == d / RAY_STEP {
                    assert(q * RAY_STEP == d);
                }
            }
        }
        d = d + RAY_STEP;
    }
    proof {
        assert((limit / RAY_STEP) * RAY_STEP == limit);
        assert(!sample_blocked(g, ox as int, oy as int, dx as int, dy as int, bs, limit / RAY_STEP));
        assert(!sample_blocked(g, ox as int, oy as int, dx as int, dy as int, bs, 0));
        lemma_ray_leaves_grid(g, ox as int, oy as int, dx as int, dy as int, bs, w as int);
    }
    Intersect { distance: 1, impact: '#', hit_x: 0, hit_y: 0 }
}

} // verus!
