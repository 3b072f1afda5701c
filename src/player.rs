use vstd::prelude::*;

use crate::caster::{Dir, DIR_LIMIT};
use crate::maze::{cell_spec, get_cell, maze_view, Maze, EMPTY};

verus! {

/// Angles are measured in hundredths of a degree; this is a full turn.
pub const TURN: i64 = 36000;

/// Half a turn.
pub const HALF_TURN: i64 = 18000;

/// Largest magnitude of an angle that `normalize_angle` takes.
pub const ANGLE_LIMIT: i64 = 0x1000_0000;

/// How far the viewer turns per frame while a turn key is held.
pub const ROTATION_SPEED: i64 = 720;

/// How far the viewer walks per frame, in world units.
pub const MOVE_SPEED: i64 = 80;

/// Largest magnitude of the viewer's coordinates.
pub const POS_LIMIT: i64 = 0x4000_0000;

/// The viewer: position, facing angle, field of view and remaining lives.
#[derive(Clone, Copy, Debug, PartialEq, Eq, Structural)]
pub struct Player {
    pub x: i64,
    pub y: i64,
    pub a: i64,
    pub fov: i64,
    pub lives: u32,
}

/// The keys held during a frame.
#[derive(Clone, Copy, Debug, PartialEq, Eq, Structural)]
pub struct Controls {
    pub left: bool,
    pub right: bool,
    pub up: bool,
    pub down: bool,
}

/// `r` is the angle `v` brought into `(-HALF_TURN, HALF_TURN]`.
pub open spec fn is_normalized(r: int, v: int) -> bool {
    &&& -HALF_TURN < r <= HALF_TURN
    &&& (r - v) % (TURN as int) == 0
}

pub open spec fn player_ok(p: Player) -> bool {
    &&& -POS_LIMIT <= p.x <= POS_LIMIT
    &&& -POS_LIMIT <= p.y <= POS_LIMIT
    &&& -HALF_TURN < p.a <= HALF_TURN
    &&& 0 < p.fov <= TURN
}

/// Brings an angle into `(-HALF_TURN, HALF_TURN]` by whole turns.
pub fn normalize_angle(v: i64) -> (r: i64)
    requires
        -ANGLE_LIMIT <= v <= ANGLE_LIMIT,
    ensures
        is_normalized(r as int, v as int),
{
    let mut r: i64 = v;
    let ghost mut turns: int = 0;
    while r > HALF_TURN
        invariant
            -ANGLE_LIMIT <= r <= ANGLE_LIMIT,
            r - v == turns * TURN,
        decreases r + ANGLE_LIMIT,
    {
        r = r - TURN;
        proof {
            turns = turns - 1;
        }
    }
    while r <= -HALF_TURN
        invariant
            -ANGLE_LIMIT <= r <= HALF_TURN,
            r - v == turns * TURN,
        decreases HALF_TURN - r,
    {
        r = r + TURN;
        proof {
            turns = turns + 1;
        }
    }
    assert((turns * TURN) % (TURN as int) == 0) by (nonlinear_arith);
    r
}

/// An angle has one normalized form.
pub proof fn lemma_normalized_unique(r1: int, r2: int, v: int)
    requires
        is_normalized(r1, v),
        is_normalized(r2, v),
    ensures
        r1 == r2,
{
    let t = TURN as int;
    assert((r1 - r2) % t == 0) by {
        vstd::arithmetic::div_mod::lemma_mod_sub_multiples_vanish(0, t);
        assert(r1 - r2 == (r1 - v) - (r2 - v));
        vstd::arithmetic::div_mod::lemma_fundamental_div_mod(r1 - v, t);
        vstd::arithmetic::div_mod::lemma_fundamental_div_mod(r2 - v, t);
        let q = (r1 - v) / t - (r2 - v) / t;
        assert(r1 - r2 == t * q) by (nonlinear_arith)
            requires
                r1 - v == t * ((r1 - v) / t) + 0,
                r2 - v == t * ((r2 - v) / t) + 0,
                q == (r1 - v) / t - (r2 - v) / t,
        ;
        vstd::arithmetic::div_mod::lemma_mod_multiples_basic(q, t);
        assert(q * t == t * q) by (nonlinear_arith);
    }
    let diff = r1 - r2;
    assert(-t < diff < t);
    if diff != 0 {
        vstd::arithmetic::div_mod::lemma_fundamental_div_mod(diff, t);
        if diff > 0 {
            vstd::arithmetic::div_mod::lemma_small_mod(diff as nat, t as nat);
        } else {
            vstd::arithmetic::div_mod::lemma_small_mod((diff + t) as nat, t as nat);
            vstd::arithmetic::div_mod::lemma_mod_add_multiples_vanish(diff, t);
        }
    }
}

/// The change of angle that the held keys ask for.
pub open spec fn turn_delta(c: Controls) -> int {
    (if c.right { ROTATION_SPEED as int } else { 0 }) - (if c.left { ROTATION_SPEED as int } else { 0 })
}

/// The angle after turning: always accepted, then normalized.
pub fn turned_angle(a: i64, controls: Controls) -> (r: i64)
    requires
        -HALF_TURN < a <= HALF_TURN,
    ensures
        is_normalized(r as int, a + turn_delta(controls)),
{
    let mut b: i64 = a;
    if controls.right {
        b = b + ROTATION_SPEED;
    }
    if controls.left {
        b = b - ROTATION_SPEED;
    }
    normalize_angle(b)
}

/// Whether a destination may be entered: an empty cell, or a point outside
/// the grid, which counts as empty.
pub open spec fn passable(maze: Seq<Seq<char>>, x: int, y: int, block_size: int) -> bool {
    match cell_spec(maze, x, y, block_size) {
        Some(c) => c == EMPTY,
        None => true,
    }
}

/// The viewer's position after proposing a step by `(dx, dy)`: the step is
/// taken only where the destination is passable.
pub open spec fn moved(maze: Seq<Seq<char>>, x: int, y: int, dx: int, dy: int, block_size: int) -> (int, int) {
    if passable(maze, x + dx, y + dy, block_size) {
        (x + dx, y + dy)
    } else {
        (x, y)
    }
}

/// Proposes a step by `(dx, dy)`; returns whether it was taken.
pub fn try_move(player: &mut Player, maze: &Maze, dx: i64, dy: i64, block_size: usize) -> (taken: bool)
    requires
        block_size > 0,
        -2 * POS_LIMIT <= old(player).x <= 2 * POS_LIMIT,
        -2 * POS_LIMIT <= old(player).y <= 2 * POS_LIMIT,
        -DIR_LIMIT <= dx <= DIR_LIMIT,
        -DIR_LIMIT <= dy <= DIR_LIMIT,
    ensures
        taken == passable(maze_view(maze), old(player).x + dx, old(player).y + dy, block_size as int),
        (final(player).x as int, final(player).y as int) == moved(
            maze_view(maze),
            old(player).x as int,
            old(player).y as int,
            dx as int,
            dy as int,
            block_size as int,
        ),
        final(player).a == old(player).a,
        final(player).fov == old(player).fov,
        final(player).lives == old(player).lives,
{
    let nx: i64 = player.x + dx;
    let ny: i64 = player.y + dy;
    let cell = get_cell(maze, nx, ny, block_size);
    let open = match cell {
        Some(c) => c == EMPTY,
        None => true,
    };
    if open {
        player.x = nx;
        player.y = ny;
        true
    } else {
        false
    }
}

/// Applies a frame's keys: the viewer turns, then steps back by `forward`
/// where the back key is held, then forward by `forward` where the forward key
/// is held. `forward` is the step of `MOVE_SPEED` along the angle after turning.
pub fn process_events(player: &mut Player, controls: Controls, forward: Dir, maze: &Maze, block_size: usize)
    requires
        block_size > 0,
        player_ok(*old(player)),
        -MOVE_SPEED <= forward.dx <= MOVE_SPEED,
        -MOVE_SPEED <= forward.dy <= MOVE_SPEED,
    ensures
        is_normalized(final(player).a as int, old(player).a + turn_delta(controls)),
        final(player).fov == old(player).fov,
        final(player).lives == old(player).lives,
        ({
            let m = maze_view(maze);
            let bs = block_size as int;
            let back = if controls.down {
                moved(m, old(player).x as int, old(player).y as int, -forward.dx, -forward.dy, bs)
            } else {
                (old(player).x as int, old(player).y as int)
            };
            let ahead = if controls.up {
                moved(m, back.0, back.1, forward.dx as int, forward.dy as int, bs)
            } else {
                back
            };
            (final(player).x as int, final(player).y as int) == ahead
        }),
{
    player.a = turned_angle(player.a, controls);
    if controls.down {
        try_move(player, maze, -forward.dx, -forward.dy, block_size);
    }
    if controls.up {
        try_move(player, maze, forward.dx, forward.dy, block_size);
    }
}

} // verus!
