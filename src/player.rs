use vstd::prelude::*;

use crate::grid::{can_stand, grid_view, stand_spec, Maze, MAX_GRID};

verus! {

/// Angle units in one full turn.
pub const ANGLE_FULL: i64 = 65536;

/// Collision radius as a percentage of the tile size.
pub const PLAYER_RADIUS_PERCENT: i64 = 33;

/// Sideways nudge, in pixels, tried when a step along one axis is blocked.
pub const SLIP: i64 = 2;

/// Largest coordinate or step magnitude the motion code accepts.
pub const MAX_POS: i64 = 274877906944;

/// The viewer: position in world pixels, heading and field of view in
/// `ANGLE_FULL`-per-turn units.
pub struct Player {
    pub x: i64,
    pub y: i64,
    pub a: i64,
    pub fov: i64,
}

/// `a` taken into `[0, ANGLE_FULL)`.
pub open spec fn wrap_angle(a: int) -> int {
    a % (ANGLE_FULL as int)
}

/// Radius of the body that must fit among the walls.
pub open spec fn radius_spec(bs: int) -> int {
    bs * PLAYER_RADIUS_PERCENT / 100
}

/// Where one axis of a move ends: the full step if the body fits there, else a
/// `SLIP`-pixel nudge in the step's direction if the body fits there, else
/// no change.
pub open spec fn axis_target(pos: int, step: int, fits_full: bool, fits_slip: bool) -> int {
    if fits_full {
        pos + step
    } else if fits_slip {
        pos + slip_offset(step)
    } else {
        pos
    }
}

/// The nudge tried after a blocked step: forwards for a positive step,
/// backwards otherwise.
pub open spec fn slip_offset(step: int) -> int {
    if step > 0 {
        SLIP as int
    } else {
        -SLIP
    }
}

/// Where the X phase of a move ends.
pub open spec fn moved_x(g: Seq<Seq<char>>, x: int, y: int, sx: int, bs: int) -> int {
    let r = radius_spec(bs);
    axis_target(
        x,
        sx,
        stand_spec(g, x + sx, y, r, bs),
        stand_spec(g, x + slip_offset(sx), y, r, bs),
    )
}

/// Where the Y phase of a move ends, starting from column `x`.
pub open spec fn moved_y(g: Seq<Seq<char>>, x: int, y: int, sy: int, bs: int) -> int {
    let r = radius_spec(bs);
    axis_target(
        y,
        sy,
        stand_spec(g, x, y + sy, r, bs),
        stand_spec(g, x, y + slip_offset(sy), r, bs),
    )
}

/// Inputs the motion code accepts.
pub open spec fn motion_inputs(p: Player, bs: int, turn: int, sx: int, sy: int) -> bool {
    &&& 0 < bs <= MAX_GRID
    &&& 0 <= p.a < ANGLE_FULL
    &&& -ANGLE_FULL <= turn <= ANGLE_FULL
    &&& -MAX_POS <= p.x <= MAX_POS
    &&& -MAX_POS <= p.y <= MAX_POS
    &&& -MAX_POS <= sx <= MAX_POS
    &&& -MAX_POS <= sy <= MAX_POS
}

/// Turns `a` by `turn` and wraps the result into `[0, ANGLE_FULL)`.
pub fn turn_heading(a: i64, turn: i64) -> (r: i64)
    requires
        0 <= a < ANGLE_FULL,
        -ANGLE_FULL <= turn <= ANGLE_FULL,
    ensures
        r == wrap_angle(a + turn),
        0 <= r < ANGLE_FULL,
{
    let mut n = a + turn;
    if n >= ANGLE_FULL {
        n = n - ANGLE_FULL;
    }
    if n < 0 {
        n = n + ANGLE_FULL;
    }
    n
}

/// The collision radius for tiles `bs` pixels wide.
pub fn collision_radius(bs: usize) -> (r: i64)
    requires
        bs <= MAX_GRID,
    ensures
        r == radius_spec(bs as int),
        0 <= r <= bs,
{
    bs as i64 * PLAYER_RADIUS_PERCENT / 100
}

/// Advances the player by one frame: turns the heading by `turn`, then moves
/// by `(step_x, step_y)` pixels, one axis at a time, so that the body slides
/// along walls instead of entering them. A zero step leaves the position alone.
pub fn process_events(
    player: &mut Player,
    maze: &Maze,
    block_size: usize,
    turn: i64,
    step_x: i64,
    step_y: i64,
)
    requires
        motion_inputs(*old(player), block_size as int, turn as int, step_x as int, step_y as int),
    ensures
        final(player).a == wrap_angle(old(player).a + turn),
        final(player).fov == old(player).fov,
        (step_x == 0 && step_y == 0) ==> (final(player).x == old(player).x && final(player).y
            == old(player).y),
        (step_x != 0 || step_y != 0) ==> {
            &&& final(player).x == moved_x(
                grid_view(maze),
                old(player).x as int,
                old(player).y as int,
                step_x as int,
                block_size as int,
            )
            &&& final(player).y == moved_y(
                grid_view(maze),
                final(player).x as int,
                old(player).y as int,
                step_y as int,
                block_size as int,
            )
        },
        stand_spec(
            grid_view(maze),
            old(player).x as int,
            old(player).y as int,
            radius_spec(block_size as int),
            block_size as int,
        ) ==> stand_spec(
            grid_view(maze),
            final(player).x as int,
            final(player).y as int,
            radius_spec(block_size as int),
            block_size as int,
        ),
{
    player.a = turn_heading(player.a, turn);
    if step_x == 0 && step_y == 0 {
        return;
    }
    let r = collision_radius(block_size);
    let nx = player.x + step_x;
    if can_stand(maze, nx, player.y, r, block_size) {
        player.x = nx;
    } else {
        let slip: i64 = if step_x > 0 { SLIP } else { -SLIP };
        let probe = player.x + slip;
        if can_stand(maze, probe, player.y, r, block_size) {
            player.x = probe;
        }
    }
    let ny = player.y + step_y;
    if can_stand(maze, player.x, ny, r, block_size) {
        player.y = ny;
    } else {
        let slip: i64 = if step_y > 0 { SLIP } else { -SLIP };
        let probe = player.y + slip;
        if can_stand(maze, player.x, probe, r, block_size) {
            player.y = probe;
        }
    }
}

} // verus!
