use vstd::prelude::*;

use crate::grid::{absent, find_char, first_occurrence, grid_bounded, grid_view, Maze, MAX_GRID};
use crate::sprite::{cell_centre, load_sprites_from_maze, sprites_upto, Sprite};

verus! {

/// Symbols that only mark where things start and are cleared to floor once
/// a level is loaded.
pub open spec fn start_marker(c: char) -> bool {
    c == 'p' || c == 'V' || c == 'b' || c == '1' || c == '2' || c == '3'
}

/// `g` with every start marker replaced by empty floor.
pub open spec fn cleared(g: Seq<Seq<char>>) -> Seq<Seq<char>> {
    g.map_values(|row: Seq<char>| row.map_values(|c: char| if start_marker(c) { ' ' } else { c }))
}

/// The cell the player starts in: the first `'p'`, or `(1, 1)` when there is none.
pub open spec fn spawn_cell(g: Seq<Seq<char>>, i: int, j: int) -> bool {
    ||| first_occurrence(g, 'p', i, j)
    ||| (absent(g, 'p') && i == 1 && j == 1)
}

/// Replaces every start marker of the grid with empty floor.
pub fn clear_markers(maze: &mut Maze)
    ensures
        grid_view(final(maze)) == cleared(grid_view(old(maze))),
{
    let ghost g0 = grid_view(maze);
    let mut j: usize = 0;
    while j < maze.len()
        invariant
            g0 == grid_view(old(maze)),
            maze@.len() == g0.len(),
            j <= maze@.len(),
            forall|q: int| 0 <= q < j ==> (#[trigger] maze@[q])@ == cleared(g0)[q],
            forall|q: int| j <= q < maze@.len() ==> (#[trigger] maze@[q])@ == g0[q],
        decreases maze@.len() - j,
    {
        let mut row = maze[j].clone();
        assert(row@ == g0[j as int]);
        let mut i: usize = 0;
        while i < row.len()
            invariant
                j < g0.len(),
                row@.len() == g0[j as int].len(),
                i <= row@.len(),
                forall|q: int| 0 <= q < i ==> row@[q] == cleared(g0)[j as int][q],
                forall|q: int| i <= q < row@.len() ==> row@[q] == g0[j as int][q],
            decreases row@.len() - i,
        {
            let c = row[i];
            if c == 'p' || c == 'V' || c == 'b' || c == '1' || c == '2' || c == '3' {
                row.set(i, ' ');
            }
            i = i + 1;
        }
        assert(row@ =~= cleared(g0)[j as int]);
        maze.set(j, row);
        j = j + 1;
    }
    assert forall|q: int| 0 <= q < maze@.len() implies #[trigger] grid_view(maze)[q] == cleared(g0)[q] by {
        assert(grid_view(maze)[q] == maze@[q]@);
    }
    assert(grid_view(maze) =~= cleared(g0));
}

/// Centre of the player's start cell.
pub fn spawn_point(maze: &Maze, block_size: usize) -> (r: (i64, i64))
    requires
        grid_bounded(grid_view(maze)),
        block_size <= MAX_GRID,
    ensures
        exists|i: int, j: int|
            spawn_cell(grid_view(maze), i, j) && r.0 == cell_centre(i, block_size as int) && r.1
                == cell_centre(j, block_size as int),
{
    let (pi, pj) = match find_char(maze, 'p') {
        Some(c) => c,
        None => (1, 1),
    };
    assert(pi <= MAX_GRID && pj <= MAX_GRID);
    assert(0 <= pi * block_size <= MAX_GRID * MAX_GRID) by (nonlinear_arith)
        requires pi <= MAX_GRID, block_size <= MAX_GRID;
    assert(0 <= pj * block_size <= MAX_GRID * MAX_GRID) by (nonlinear_arith)
        requires pj <= MAX_GRID, block_size <= MAX_GRID;
    let x = pi as i64 * block_size as i64 + block_size as i64 / 2;
    let y = pj as i64 * block_size as i64 + block_size as i64 / 2;
    assert(spawn_cell(grid_view(maze), pi as int, pj as int));
    (x, y)
}

/// Prepares a freshly read grid for play: the start position, one sprite
/// per collectible marker, and the grid with all start markers cleared.
pub fn load_level(maze: Maze, block_size: usize) -> (r: (Maze, Vec<Sprite>, (i64, i64)))
    requires
        grid_bounded(grid_view(&maze)),
        block_size <= MAX_GRID,
    ensures
        grid_view(&r.0) == cleared(grid_view(&maze)),
        r.1@ == sprites_upto(grid_view(&maze), block_size as int, maze@.len() as int, 0),
        exists|i: int, j: int|
            spawn_cell(grid_view(&maze), i, j) && r.2.0 == cell_centre(i, block_size as int)
                && r.2.1 == cell_centre(j, block_size as int),
{
    let mut maze = maze;
    let spawn = spawn_point(&maze, block_size);
    assert(forall|j: int| 0 <= j < maze@.len() ==> (#[trigger] maze@[j])@ == grid_view(&maze)[j]);
    let sprites = load_sprites_from_maze(&maze, block_size);
    clear_markers(&mut maze);
    (maze, sprites, spawn)
}

/// What the frame loop does after a frame of play.
#[derive(PartialEq, Eq, Structural, Debug, Clone, Copy)]
pub enum Outcome {
    Playing,
    Won,
    Lost,
}

/// The level is won once every sprite (of at least one) is collected in
/// time, and lost once time has run out.
pub open spec fn outcome_spec(total: int, collected: int, remaining: int) -> Outcome {
    if total > 0 && collected >= total && remaining >= 0 {
        Outcome::Won
    } else if remaining < 0 {
        Outcome::Lost
    } else {
        Outcome::Playing
    }
}

/// Decides the level's state from the sprite count, the collected count and
/// the whole seconds left.
pub fn level_outcome(total: u32, collected: u32, remaining: i32) -> (o: Outcome)
    ensures
        o == outcome_spec(total as int, collected as int, remaining as int),
{
    if total > 0 && collected >= total && remaining >= 0 {
        Outcome::Won
    } else if remaining < 0 {
        Outcome::Lost
    } else {
        Outcome::Playing
    }
}

/// Number of collected sprites among the first `n`.
pub open spec fn collected_upto(v: Seq<Sprite>, n: int) -> int
    decreases n,
{
    if n <= 0 {
        0
    } else {
        collected_upto(v, n - 1) + if v[n - 1].collected {
            1int
        } else {
            0int
        }
    }
}

/// How many sprites have been collected.
pub fn count_collected(sprites: &Vec<Sprite>) -> (n: usize)
    ensures
        n == collected_upto(sprites@, sprites@.len() as int),
{
    let mut n: usize = 0;
    let mut k: usize = 0;
    while k < sprites.len()
        invariant
            k <= sprites@.len(),
            n == collected_upto(sprites@, k as int),
            n <= k,
        decreases sprites@.len() - k,
    {
        if sprites[k].collected {
            n = n + 1;
        }
        k = k + 1;
    }
    n
}

/// Minutes and seconds shown on the clock for `secs` seconds, which are
/// first clamped into `[0, 60]`.
pub fn clock_digits(secs: i32) -> (r: (i32, i32))
    ensures
        ({
            let s = if secs < 0 {
                0
            } else if secs > 60 {
                60
            } else {
                secs as int
            };
            r.0 == s / 60 && r.1 == s % 60
        }),
{
    let s = if secs < 0 {
        0
    } else if secs > 60 {
        60
    } else {
        secs
    };
    (s / 60, s % 60)
}

} // verus!
