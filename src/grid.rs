use vstd::prelude::*;

verus! {

/// A level: rows of tile symbols. Rows may differ in length.
pub type Maze = Vec<Vec<char>>;

/// Largest number of rows, columns, and pixels per tile the library accepts.
pub const MAX_GRID: usize = 65536;

/// Largest absolute world coordinate (in pixels) the library accepts.
pub const MAX_COORD: i64 = 1099511627776;

/// The grid as a sequence of rows of symbols.
pub open spec fn grid_view(m: &Maze) -> Seq<Seq<char>> {
    m.deep_view()
}

/// Symbols a body may stand on and a ray may pass through: empty floor, the
/// goal, the player's spawn and the two kinds of collectible.
pub open spec fn walkable(c: char) -> bool {
    c == ' ' || c == 'g' || c == 'p' || c == 'b' || c == 'V'
}

/// The grid is small enough for all arithmetic on it to fit in machine words.
pub open spec fn grid_bounded(g: Seq<Seq<char>>) -> bool {
    &&& g.len() <= MAX_GRID
    &&& forall|j: int| 0 <= j < g.len() ==> #[trigger] g[j].len() <= MAX_GRID
}

/// The tile under the world point `(x, y)`, or `None` when the point lies
/// left of or above the grid, below its last row or right of its row's end.
pub open spec fn tile_spec(g: Seq<Seq<char>>, x: int, y: int, bs: int) -> Option<char> {
    if x < 0 || y < 0 {
        None
    } else {
        let i = x / bs;
        let j = y / bs;
        if j < g.len() && i < g[j].len() {
            Some(g[j][i])
        } else {
            None
        }
    }
}

/// The world point `(x, y)` lies on a walkable tile of the grid.
pub open spec fn open_at(g: Seq<Seq<char>>, x: int, y: int, bs: int) -> bool {
    match tile_spec(g, x, y, bs) {
        Some(t) => walkable(t),
        None => false,
    }
}

/// A body of radius `r` centred on `(x, y)` fits: its eight probe points, four
/// on the axes and four on the diagonals of the enclosing square, all lie on
/// walkable tiles.
pub open spec fn stand_spec(g: Seq<Seq<char>>, x: int, y: int, r: int, bs: int) -> bool {
    &&& open_at(g, x - r, y, bs)
    &&& open_at(g, x + r, y, bs)
    &&& open_at(g, x, y - r, bs)
    &&& open_at(g, x, y + r, bs)
    &&& open_at(g, x - r, y - r, bs)
    &&& open_at(g, x + r, y - r, bs)
    &&& open_at(g, x - r, y + r, bs)
    &&& open_at(g, x + r, y + r, bs)
}

/// The symbol `c` blocks rays and bodies. This is the one predicate both the
/// caster and the motion code consult.
pub fn is_wall(c: char) -> (r: bool)
    ensures
        r == !walkable(c),
{
    !(c == ' ' || c == 'g' || c == 'p' || c == 'b' || c == 'V')
}

/// The tile under world point `(x, y)` for tiles `bs` pixels wide.
pub fn tile_at(maze: &Maze, x: i64, y: i64, bs: usize) -> (r: Option<char>)
    requires
        bs > 0,
    ensures
        r == tile_spec(grid_view(maze), x as int, y as int, bs as int),
{
    if x < 0 || y < 0 {
        return None;
    }
    let i64v: u64 = x as u64 / bs as u64;
    let j64v: u64 = y as u64 / bs as u64;
    if j64v >= maze.len() as u64 {
        return None;
    }
    let j = j64v as usize;
    let row = &maze[j];
    proof {
        assert(grid_view(maze)[j as int] == row@);
    }
    if i64v >= row.len() as u64 {
        return None;
    }
    Some(row[i64v as usize])
}

/// Whether a body of radius `r` can stand at `(x, y)`.
pub fn can_stand(maze: &Maze, x: i64, y: i64, r: i64, bs: usize) -> (ok: bool)
    requires
        bs > 0,
        -MAX_COORD <= x <= MAX_COORD,
        -MAX_COORD <= y <= MAX_COORD,
        0 <= r <= MAX_COORD,
    ensures
        ok == stand_spec(grid_view(maze), x as int, y as int, r as int, bs as int),
{
    let xs: [i64; 8] = [x - r, x + r, x, x, x - r, x + r, x - r, x + r];
    let ys: [i64; 8] = [y, y, y - r, y + r, y - r, y - r, y + r, y + r];
    let ghost g = grid_view(maze);
    let mut k: usize = 0;
    while k < 8
        invariant
            k <= 8,
            g == grid_view(maze),
            bs > 0,
            xs@ == seq![(x - r) as i64, (x + r) as i64, x, x, (x - r) as i64, (x + r) as i64, (x - r) as i64, (x + r) as i64],
            ys@ == seq![y, y, (y - r) as i64, (y + r) as i64, (y - r) as i64, (y - r) as i64, (y + r) as i64, (y + r) as i64],
            -MAX_COORD <= x <= MAX_COORD,
            -MAX_COORD <= y <= MAX_COORD,
            0 <= r <= MAX_COORD,
            forall|q: int| 0 <= q < k ==> open_at(g, xs@[q] as int, ys@[q] as int, bs as int),
        decreases 8 - k,
    {
        match tile_at(maze, xs[k], ys[k], bs) {
            Some(t) => {
                if is_wall(t) {
                    assert(!open_at(g, xs@[k as int] as int, ys@[k as int] as int, bs as int));
                    return false;
                }
            },
            None => {
                assert(!open_at(g, xs@[k as int] as int, ys@[k as int] as int, bs as int));
                return false;
            },
        }
        k = k + 1;
    }
    assert(open_at(g, xs@[0] as int, ys@[0] as int, bs as int));
    assert(open_at(g, xs@[1] as int, ys@[1] as int, bs as int));
    assert(open_at(g, xs@[2] as int, ys@[2] as int, bs as int));
    assert(open_at(g, xs@[3] as int, ys@[3] as int, bs as int));
    assert(open_at(g, xs@[4] as int, ys@[4] as int, bs as int));
    assert(open_at(g, xs@[5] as int, ys@[5] as int, bs as int));
    assert(open_at(g, xs@[6] as int, ys@[6] as int, bs as int));
    assert(open_at(g, xs@[7] as int, ys@[7] as int, bs as int));
    true
}

/// Calling the clearance check twice on the same grid, position and radius
/// gives the same answer: it depends on nothing else.
pub proof fn lemma_can_stand_deterministic(
    m1: Seq<Seq<char>>,
    m2: Seq<Seq<char>>,
    x: int,
    y: int,
    r: int,
    bs: int,
)
    requires
        m1 == m2,
    ensures
        stand_spec(m1, x, y, r, bs) == stand_spec(m2, x, y, r, bs),
{
}

/// `(i, j)` is the first cell holding `target` in row-major order.
pub open spec fn first_occurrence(g: Seq<Seq<char>>, target: char, i: int, j: int) -> bool {
    &&& 0 <= j < g.len()
    &&& 0 <= i < g[j].len()
    &&& g[j][i] == target
    &&& forall|jj: int, ii: int|
        0 <= jj < j && 0 <= ii < g[jj].len() ==> g[jj][ii] != target
    &&& forall|ii: int| 0 <= ii < i ==> g[j][ii] != target
}

/// No cell of the grid holds `target`.
pub open spec fn absent(g: Seq<Seq<char>>, target: char) -> bool {
    forall|jj: int, ii: int| 0 <= jj < g.len() && 0 <= ii < g[jj].len() ==> g[jj][ii] != target
}

/// The first cell, scanning rows top to bottom and each row left to right,
/// that holds `target`, as `(column, row)`.
pub fn find_char(maze: &Maze, target: char) -> (r: Option<(usize, usize)>)
    ensures
        match r {
            Some((i, j)) => first_occurrence(grid_view(maze), target, i as int, j as int),
            None => absent(grid_view(maze), target),
        },
{
    let ghost g = grid_view(maze);
    let mut j: usize = 0;
    while j < maze.len()
        invariant
            j <= maze@.len(),
            g == grid_view(maze),
            g.len() == maze@.len(),
            forall|jj: int, ii: int|
                0 <= jj < j && 0 <= ii < g[jj].len() ==> g[jj][ii] != target,
        decreases maze@.len() - j,
    {
        let row = &maze[j];
        assert(g[j as int] == row@);
        let mut i: usize = 0;
        while i < row.len()
            invariant
                i <= row@.len(),
                j < g.len(),
                g[j as int] == row@,
                g == grid_view(maze),
                forall|ii: int| 0 <= ii < i ==> row@[ii] != target,
                forall|jj: int, ii: int|
                    0 <= jj < j && 0 <= ii < g[jj].len() ==> g[jj][ii] != target,
            decreases row@.len() - i,
        {
            if row[i] == target {
                return Some((i, j));
            }
            i = i + 1;
        }
        j = j + 1;
    }
    None
}

/// The grid cell `(column, row)` containing world point `(x, y)`; negative
/// coordinates count as zero.
pub fn player_cell(x: i64, y: i64, bs: usize) -> (r: (usize, usize))
    requires
        bs > 0,
        x <= usize::MAX,
        y <= usize::MAX,
    ensures
        r.0 as int == (if x < 0 { 0 } else { x as int }) / bs as int,
        r.1 as int == (if y < 0 { 0 } else { y as int }) / bs as int,
{
    let cx: usize = if x < 0 { 0 } else { x as usize };
    let cy: usize = if y < 0 { 0 } else { y as usize };
    (cx / bs, cy / bs)
}

} // verus!
