use vstd::prelude::*;

use crate::maze::{cell_spec, get_cell, maze_view, Maze, EMPTY};

verus! {

/// Largest magnitude of a coordinate of a ray's origin.
pub const COORD_LIMIT: i64 = 0x100_0000_0000;

/// Largest magnitude of a component of a ray's step vector.
pub const DIR_LIMIT: i64 = 0x1000;

/// Largest side of a cell.
pub const BLOCK_LIMIT: usize = 0x1000_0000;

/// Distance beyond which a ray that met no wall gives up.
pub const MAX_DISTANCE: i64 = 0x1_0000;

/// Horizontal resolution of a wall texture.
pub const TEXTURE_WIDTH: u64 = 128;

/// A step vector: how far a ray advances along each axis in one step.
#[derive(Clone, Copy, Debug, PartialEq, Eq, Structural)]
pub struct Dir {
    pub dx: i64,
    pub dy: i64,
}

/// What a ray met: the distance to the point where it stopped, the cell found
/// there (`EMPTY` where it met no wall), the texture column struck, and the
/// number of steps taken.
#[derive(Clone, Copy, Debug, PartialEq, Eq, Structural)]
pub struct Intersect {
    pub distance: u64,
    pub impact: char,
    pub tx: u64,
    pub steps: u64,
}

pub open spec fn abs_int(v: int) -> int {
    if v < 0 { -v } else { v }
}

pub open spec fn dir_ok(d: Dir) -> bool {
    -DIR_LIMIT <= d.dx <= DIR_LIMIT && -DIR_LIMIT <= d.dy <= DIR_LIMIT
}

pub open spec fn origin_ok(x: i64, y: i64) -> bool {
    -COORD_LIMIT <= x <= COORD_LIMIT && -COORD_LIMIT <= y <= COORD_LIMIT
}

/// Coordinate of a ray after `k` steps.
pub open spec fn ray_at(o: int, d: int, k: int) -> int {
    o + k * d
}

/// Whether the point lies in a cell of the grid that is not empty.
pub open spec fn is_wall(maze: Seq<Seq<char>>, x: int, y: int, block_size: int) -> bool {
    match cell_spec(maze, x, y, block_size) {
        Some(c) => c != EMPTY,
        None => false,
    }
}

/// `r` is the integer square root of `n`.
pub open spec fn is_isqrt(r: int, n: int) -> bool {
    r * r <= n < (r + 1) * (r + 1)
}

/// How close to a cell's side a hit counts as having crossed that side: the
/// larger component of the step.
pub open spec fn margin_of(d: Dir) -> int {
    if abs_int(d.dx as int) < abs_int(d.dy as int) { abs_int(d.dy as int) } else { abs_int(d.dx as int) }
}

/// The position across the struck face, given the hit's offsets within its
/// cell: the x offset where the hit lies away from the cell's left and right
/// sides (so a horizontal face was crossed), else the y offset.
pub open spec fn face_offset(hx: int, hy: int, margin: int, block_size: int) -> int {
    if margin < hx && hx < block_size - margin { hx } else { hy }
}

/// The texture column for a hit at the given offsets within its cell.
pub open spec fn texture_column(hx: int, hy: int, margin: int, block_size: int) -> int {
    face_offset(hx, hy, margin, block_size) * TEXTURE_WIDTH as int / block_size
}

/// Whether step `k` of a ray along `d` lies beyond `MAX_DISTANCE` from its
/// origin; a ray that does not move is beyond reach at once.
pub open spec fn beyond_reach(d: Dir, k: int) -> bool {
    (k * d.dx) * (k * d.dx) + (k * d.dy) * (k * d.dy) > MAX_DISTANCE * MAX_DISTANCE || (d.dx == 0 && d.dy == 0)
}

/// `r` is what a ray from `(ox, oy)` stepping by `d` meets: the first step at
/// which it stands in a wall or lies beyond `MAX_DISTANCE`.
pub open spec fn cast_result(
    maze: Seq<Seq<char>>,
    ox: int,
    oy: int,
    d: Dir,
    block_size: int,
    r: Intersect,
) -> bool {
    let k = r.steps as int;
    let x = ray_at(ox, d.dx as int, k);
    let y = ray_at(oy, d.dy as int, k);
    &&& k <= MAX_DISTANCE + 1
    &&& forall|j: int|
        0 <= j < k ==> !#[trigger] is_wall(
            maze,
            ray_at(ox, d.dx as int, j),
            ray_at(oy, d.dy as int, j),
            block_size,
        ) && !beyond_reach(d, j)
    &&& (is_wall(maze, x, y, block_size) || beyond_reach(d, k))
    &&& is_isqrt(r.distance as int, (k * d.dx) * (k * d.dx) + (k * d.dy) * (k * d.dy))
    &&& if is_wall(maze, x, y, block_size) {
        &&& r.impact == cell_spec(maze, x, y, block_size).unwrap()
        &&& r.tx == texture_column(x % block_size, y % block_size, margin_of(d), block_size)
    } else {
        &&& r.impact == EMPTY
        &&& r.tx == 0
    }
}

/// What a ray from `(ox, oy)` stepping by `d` meets.
pub open spec fn cast_spec(maze: Seq<Seq<char>>, ox: int, oy: int, d: Dir, block_size: int) -> Intersect {
    choose|r: Intersect| cast_result(maze, ox, oy, d, block_size, r)
}

/// A number has one integer square root.
pub proof fn lemma_isqrt_unique(r1: int, r2: int, n: int)
    requires
        r1 >= 0,
        r2 >= 0,
        is_isqrt(r1, n),
        is_isqrt(r2, n),
    ensures
        r1 == r2,
{
    if r1 < r2 {
        assert((r1 + 1) * (r1 + 1) <= r2 * r2) by (nonlinear_arith)
            requires
                0 <= r1 + 1 <= r2,
        ;
    } else if r2 < r1 {
        assert((r2 + 1) * (r2 + 1) <= r1 * r1) by (nonlinear_arith)
            requires
                0 <= r2 + 1 <= r1,
        ;
    }
}

/// A ray meets one thing: `cast_result` determines its result.
pub proof fn lemma_cast_unique(
    maze: Seq<Seq<char>>,
    ox: int,
    oy: int,
    d: Dir,
    block_size: int,
    r1: Intersect,
    r2: Intersect,
)
    requires
        cast_result(maze, ox, oy, d, block_size, r1),
        cast_result(maze, ox, oy, d, block_size, r2),
    ensures
        r1 == r2,
{
    let k1 = r1.steps as int;
    let k2 = r2.steps as int;
    if k1 < k2 {
        assert(!is_wall(maze, ray_at(ox, d.dx as int, k1), ray_at(oy, d.dy as int, k1), block_size)
            && !beyond_reach(d, k1));
    } else if k2 < k1 {
        assert(!is_wall(maze, ray_at(ox, d.dx as int, k2), ray_at(oy, d.dy as int, k2), block_size)
            && !beyond_reach(d, k2));
    }
    lemma_isqrt_unique(
        r1.distance as int,
        r2.distance as int,
        (k1 * d.dx) * (k1 * d.dx) + (k1 * d.dy) * (k1 * d.dy),
    );
}

/// The result that `cast_result` admits is `cast_spec`.
pub proof fn lemma_cast_spec(
    maze: Seq<Seq<char>>,
    ox: int,
    oy: int,
    d: Dir,
    block_size: int,
    r: Intersect,
)
    requires
        cast_result(maze, ox, oy, d, block_size, r),
    ensures
        r == cast_spec(maze, ox, oy, d, block_size),
{
    lemma_cast_unique(maze, ox, oy, d, block_size, r, cast_spec(maze, ox, oy, d, block_size));
}

/// A ray cast straight along the x axis, from a point of an empty stretch of
/// its row toward the wall that ends it, stops within one step past the
/// wall's face: with `face` the x coordinate of that face, the distance lies
/// in `[face - ox, face - ox + step)`. As the step shrinks, the distance
/// comes to the distance of the face.
pub proof fn lemma_axis_ray_distance(
    maze: Seq<Seq<char>>,
    ox: int,
    oy: int,
    step: int,
    block_size: int,
    wall_col: int,
    r: Intersect,
)
    requires
        block_size > 0,
        0 < step <= block_size,
        step <= DIR_LIMIT,
        ox >= 0,
        oy >= 0,
        oy / block_size < maze.len(),
        ox / block_size < wall_col < maze[oy / block_size].len(),
        forall|i: int| ox / block_size <= i < wall_col ==> #[trigger] maze[oy / block_size][i] == EMPTY,
        maze[oy / block_size][wall_col] != EMPTY,
        wall_col * block_size - ox <= MAX_DISTANCE,
        cast_result(maze, ox, oy, Dir { dx: step as i64, dy: 0 }, block_size, r),
    ensures
        wall_col * block_size - ox <= r.distance < wall_col * block_size - ox + step,
        r.impact == maze[oy / block_size][wall_col],
{
    let d = Dir { dx: step as i64, dy: 0 };
    let face = wall_col * block_size;
    let row = oy / block_size;
    vstd::arithmetic::div_mod::lemma_fundamental_div_mod(ox, block_size);
    vstd::arithmetic::div_mod::lemma_fundamental_div_mod(oy, block_size);
    assert(ox < face) by {
        assert((ox / block_size + 1) * block_size <= wall_col * block_size) by (nonlinear_arith)
            requires
                ox / block_size + 1 <= wall_col,
                block_size > 0,
        ;
        assert((ox / block_size + 1) * block_size == block_size * (ox / block_size) + block_size)
            by (nonlinear_arith);
    }
    // The first step that reaches the face.
    let q = (face - ox - 1) / step + 1;
    vstd::arithmetic::div_mod::lemma_fundamental_div_mod(face - ox - 1, step);
    assert((q - 1) * step <= face - ox - 1 < q * step) by (nonlinear_arith)
        requires
            face - ox - 1 == step * ((face - ox - 1) / step) + (face - ox - 1) % step,
            0 <= (face - ox - 1) % step < step,
            q == (face - ox - 1) / step + 1,
    ;
    assert(q >= 1) by (nonlinear_arith)
        requires
            face - ox - 1 >= 0,
            step > 0,
            q == (face - ox - 1) / step + 1,
    ;
    assert forall|j: int| 0 <= j < q implies !#[trigger] is_wall(
        maze,
        ray_at(ox, d.dx as int, j),
        ray_at(oy, d.dy as int, j),
        block_size,
    ) && !beyond_reach(d, j) by {
        let x = ox + j * step;
        assert(ox <= x < face) by (nonlinear_arith)
            requires
                0 <= j < q,
                (q - 1) * step <= face - ox - 1,
                x == ox + j * step,
                step > 0,
        ;
        assert((j * step) * (j * step) + (j * 0) * (j * 0) <= MAX_DISTANCE * MAX_DISTANCE) by (nonlinear_arith)
            requires
                0 <= j * step < MAX_DISTANCE,
        ;
        assert(0 <= j * step) by (nonlinear_arith)
            requires
                0 <= j,
                step > 0,
        ;
        assert(j * step == x - ox);
        assert(!beyond_reach(d, j));
        let c = x / block_size;
        vstd::arithmetic::div_mod::lemma_div_is_ordered(ox, x, block_size);
        vstd::arithmetic::div_mod::lemma_fundamental_div_mod(x, block_size);
        assert(c < wall_col) by (nonlinear_arith)
            requires
                x == block_size * c + x % block_size,
                x % block_size >= 0,
                x < wall_col * block_size,
                block_size > 0,
        ;
        assert((c + 1) * block_size == block_size * c + block_size) by (nonlinear_arith);
        assert(c * block_size == block_size * c) by (nonlinear_arith);
        assert((row + 1) * block_size == block_size * row + block_size) by (nonlinear_arith);
        assert(row * block_size == block_size * row) by (nonlinear_arith);
        assert(ox / block_size <= c);
        crate::maze::lemma_cell_at_inside(maze, c, row, block_size, x, oy);
        assert(ray_at(oy, d.dy as int, j) == oy);
        assert(ray_at(ox, d.dx as int, j) == x);
    }
    let xq = ox + q * step;
    assert(face <= xq < face + step) by (nonlinear_arith)
        requires
            (q - 1) * step <= face - ox - 1 < q * step,
            xq == ox + q * step,
    ;
    assert((wall_col + 1) * block_size == face + block_size) by (nonlinear_arith)
        requires
            face == wall_col * block_size,
    ;
    assert((row + 1) * block_size == block_size * row + block_size) by (nonlinear_arith);
    assert(row * block_size == block_size * row) by (nonlinear_arith);
    crate::maze::lemma_cell_at_inside(maze, wall_col, row, block_size, xq, oy);
    assert(ray_at(ox, d.dx as int, q) == xq);
    assert(ray_at(oy, d.dy as int, q) == oy);
    assert(is_wall(maze, ray_at(ox, d.dx as int, q), ray_at(oy, d.dy as int, q), block_size));
    let k = r.steps as int;
    if k < q {
        assert(!is_wall(maze, ray_at(ox, d.dx as int, k), ray_at(oy, d.dy as int, k), block_size)
            && !beyond_reach(d, k));
        assert(false);
    }
    if k > q {
        assert(false);
    }
    assert(k == q);
    assert((k * d.dx) * (k * d.dx) + (k * d.dy) * (k * d.dy) == (q * step) * (q * step)) by (nonlinear_arith)
        requires
            k == q,
            d.dx == step,
            d.dy == 0,
    ;
    assert(q * step >= 0) by (nonlinear_arith)
        requires
            q >= 1,
            step > 0,
    ;
    assert(is_isqrt(q * step, (q * step) * (q * step))) by (nonlinear_arith)
        requires
            q * step >= 0,
    ;
    lemma_isqrt_unique(r.distance as int, q * step, (q * step) * (q * step));
}

/// Texture columns follow the offset across a face without a jump: offsets
/// that differ by at most one texel's width (`block_size / TEXTURE_WIDTH`) give
/// texture columns that differ by at most one.
pub proof fn lemma_texture_column_continuous(o1: int, o2: int, block_size: int)
    requires
        block_size > 0,
        0 <= o1 <= o2,
        (o2 - o1) * TEXTURE_WIDTH <= block_size,
    ensures
        0 <= o2 * TEXTURE_WIDTH as int / block_size - o1 * TEXTURE_WIDTH as int / block_size <= 1,
{
    let t = TEXTURE_WIDTH as int;
    assert(o1 * t <= o2 * t <= o1 * t + block_size) by (nonlinear_arith)
        requires
            0 <= o1 <= o2,
            (o2 - o1) * t <= block_size,
            t > 0,
    ;
    vstd::arithmetic::div_mod::lemma_div_is_ordered(o1 * t, o2 * t, block_size);
    vstd::arithmetic::div_mod::lemma_div_is_ordered(o2 * t, o1 * t + block_size, block_size);
    vstd::arithmetic::div_mod::lemma_div_plus_one(o1 * t, block_size);
}

/// Two rays from one point that strike horizontal wall faces at points at
/// most one texel's width apart sample the wall without a seam: within one
/// cell their texture columns differ by at most one, and across the border
/// of two cells, where each cell repeats the texture, the columns are the
/// last and the first.
pub proof fn lemma_hits_texture_continuous(
    maze: Seq<Seq<char>>,
    ox: int,
    oy: int,
    d1: Dir,
    d2: Dir,
    block_size: int,
    r1: Intersect,
    r2: Intersect,
)
    requires
        block_size > 0,
        cast_result(maze, ox, oy, d1, block_size, r1),
        cast_result(maze, ox, oy, d2, block_size, r2),
        ({
            let x1 = ray_at(ox, d1.dx as int, r1.steps as int);
            let y1 = ray_at(oy, d1.dy as int, r1.steps as int);
            let x2 = ray_at(ox, d2.dx as int, r2.steps as int);
            let y2 = ray_at(oy, d2.dy as int, r2.steps as int);
            &&& is_wall(maze, x1, y1, block_size)
            &&& is_wall(maze, x2, y2, block_size)
            &&& margin_of(d1) < x1 % block_size < block_size - margin_of(d1)
            &&& margin_of(d2) < x2 % block_size < block_size - margin_of(d2)
            &&& abs_int(x1 - x2) * TEXTURE_WIDTH <= block_size
        }),
    ensures
        ({
            let x1 = ray_at(ox, d1.dx as int, r1.steps as int);
            let x2 = ray_at(ox, d2.dx as int, r2.steps as int);
            &&& x1 / block_size == x2 / block_size ==> abs_int(r1.tx - r2.tx) <= 1
            &&& x1 / block_size != x2 / block_size ==> abs_int(r1.tx - r2.tx) == TEXTURE_WIDTH - 1
        }),
{
    let x1 = ray_at(ox, d1.dx as int, r1.steps as int);
    let x2 = ray_at(ox, d2.dx as int, r2.steps as int);
    let y1 = ray_at(oy, d1.dy as int, r1.steps as int);
    let y2 = ray_at(oy, d2.dy as int, r2.steps as int);
    assert(x1 >= 0 && x2 >= 0) by {
        assert(cell_spec(maze, x1, y1, block_size) is Some);
        assert(cell_spec(maze, x2, y2, block_size) is Some);
    }
    if x1 <= x2 {
        lemma_offsets_texture_continuous(x1, x2, block_size);
    } else {
        lemma_offsets_texture_continuous(x2, x1, block_size);
    }
}

/// The texture columns of two points of a face at most one texel's width
/// apart: within one cell they differ by at most one; across a cell border
/// they are the last column and the first.
proof fn lemma_offsets_texture_continuous(x1: int, x2: int, block_size: int)
    requires
        block_size > 0,
        0 <= x1 <= x2,
        (x2 - x1) * TEXTURE_WIDTH <= block_size,
    ensures
        x1 / block_size == x2 / block_size ==> abs_int(
            (x1 % block_size) * TEXTURE_WIDTH as int / block_size - (x2 % block_size) * TEXTURE_WIDTH as int
                / block_size,
        ) <= 1,
        x1 / block_size != x2 / block_size ==> (x1 % block_size) * TEXTURE_WIDTH as int / block_size
            == TEXTURE_WIDTH - 1 && (x2 % block_size) * TEXTURE_WIDTH as int / block_size == 0,
{
    let t = TEXTURE_WIDTH as int;
    let b = block_size;
    vstd::arithmetic::div_mod::lemma_fundamental_div_mod(x1, b);
    vstd::arithmetic::div_mod::lemma_fundamental_div_mod(x2, b);
    let c1 = x1 / b;
    let c2 = x2 / b;
    let o1 = x1 % b;
    let o2 = x2 % b;
    vstd::arithmetic::div_mod::lemma_div_is_ordered(x1, x2, b);
    if c1 == c2 {
        assert(o2 - o1 == x2 - x1) by (nonlinear_arith)
            requires
                x1 == b * c1 + o1,
                x2 == b * c2 + o2,
                c1 == c2,
        ;
        lemma_texture_column_continuous(o1, o2, b);
    } else {
        assert(x2 - x1 < b) by (nonlinear_arith)
            requires
                (x2 - x1) * t <= b,
                t == 128,
                b > 0,
                x2 >= x1,
        ;
        assert(c2 == c1 + 1 && o1 + (x2 - x1) == b + o2) by (nonlinear_arith)
            requires
                x1 == b * c1 + o1,
                x2 == b * c2 + o2,
                0 <= o1 < b,
                0 <= o2 < b,
                c1 < c2,
                x2 - x1 < b,
        ;
        let delta = x2 - x1;
        assert(o1 * t >= (t - 1) * b && o1 * t < t * b) by (nonlinear_arith)
            requires
                o1 == b - delta + o2,
                delta * t <= b,
                o2 >= 0,
                o1 < b,
                t == 128,
        ;
        assert(o2 * t < b) by (nonlinear_arith)
            requires
                o2 < delta,
                delta * t <= b,
                o2 >= 0,
                t == 128,
        ;
        vstd::arithmetic::div_mod::lemma_fundamental_div_mod_converse(o1 * t, b, t - 1, o1 * t - (t - 1) * b);
        vstd::arithmetic::div_mod::lemma_fundamental_div_mod_converse(o2 * t, b, 0, o2 * t);
    }
}

/// Integer square root, rounded down.
pub fn isqrt(n: u64) -> (r: u64)
    ensures
        is_isqrt(r as int, n as int),
{
    let mut lo: u64 = 0;
    let mut hi: u64 = 0x1_0000_0000;
    assert(n < 0x1_0000_0000 * 0x1_0000_0000) by (nonlinear_arith)
        requires n <= u64::MAX;
    while hi - lo > 1
        invariant
            lo < hi <= 0x1_0000_0000,
            lo * lo <= n,
            n < hi * hi,
        decreases hi - lo,
    {
        let mid: u64 = lo + (hi - lo) / 2;
        assert(mid * mid <= 0xffff_ffff * 0xffff_ffff) by (nonlinear_arith)
            requires mid <= 0xffff_ffff;
        if mid * mid <= n {
            lo = mid;
        } else {
            hi = mid;
        }
    }
    lo
}

/// Casts a ray from `(ox, oy)` that advances by `d` each step, stopping at the
/// first point that lies in a wall or beyond `MAX_DISTANCE`.
pub fn cast_ray(maze: &Maze, ox: i64, oy: i64, d: Dir, block_size: usize) -> (r: Intersect)
    requires
        0 < block_size <= BLOCK_LIMIT,
        origin_ok(ox, oy),
        dir_ok(d),
    ensures
        cast_result(maze_view(maze), ox as int, oy as int, d, block_size as int, r),
        r == cast_spec(maze_view(maze), ox as int, oy as int, d, block_size as int),
        r.tx < TEXTURE_WIDTH,
{
    let ghost m = maze_view(maze);
    let mut k: i64 = 0;
    loop
        invariant
            0 <= k <= MAX_DISTANCE + 1,
            0 < block_size <= BLOCK_LIMIT,
            origin_ok(ox, oy),
            dir_ok(d),
            m == maze_view(maze),
            forall|j: int|
                0 <= j < k ==> !#[trigger] is_wall(
                    m,
                    ray_at(ox as int, d.dx as int, j),
                    ray_at(oy as int, d.dy as int, j),
                    block_size as int,
                ) && !beyond_reach(d, j),
        decreases MAX_DISTANCE + 1 - k,
    {
        assert(-0x1001_1000 <= k * d.dx <= 0x1001_1000 && -0x1001_1000 <= k * d.dy <= 0x1001_1000)
            by (nonlinear_arith)
            requires
                0 <= k <= 0x1_0001,
                -0x1000 <= d.dx <= 0x1000,
                -0x1000 <= d.dy <= 0x1000,
        ;
        let sx: i64 = k * d.dx;
        let sy: i64 = k * d.dy;
        let x: i64 = ox + sx;
        let y: i64 = oy + sy;
        let c = get_cell(maze, x, y, block_size);
        let wall = match c {
            Some(ch) => ch != EMPTY,
            None => false,
        };
        let ax: u64 = if sx < 0 { (-sx) as u64 } else { sx as u64 };
        let ay: u64 = if sy < 0 { (-sy) as u64 } else { sy as u64 };
        assert(ax * ax <= 0x1001_1000 * 0x1001_1000 && ay * ay <= 0x1001_1000 * 0x1001_1000)
            by (nonlinear_arith)
            requires
                ax <= 0x1001_1000,
                ay <= 0x1001_1000,
        ;
        assert(ax * ax == sx * sx && ay * ay == sy * sy) by (nonlinear_arith)
            requires
                ax == abs_int(sx as int),
                ay == abs_int(sy as int),
        ;
        let sq: u64 = ax * ax + ay * ay;
        let beyond = sq > (MAX_DISTANCE * MAX_DISTANCE) as u64 || (d.dx == 0 && d.dy == 0);
        assert(sx == k * d.dx && sy == k * d.dy);
        assert(beyond == beyond_reach(d, k as int));
        if wall || beyond {
            let distance = isqrt(sq);
            if wall {
                let ch = c.unwrap();
                let mx: u64 = if d.dx < 0 { (-d.dx) as u64 } else { d.dx as u64 };
                let my: u64 = if d.dy < 0 { (-d.dy) as u64 } else { d.dy as u64 };
                let margin: u64 = if mx < my { my } else { mx };
                let bs: u64 = block_size as u64;
                let hx: u64 = x as u64 % bs;
                let hy: u64 = y as u64 % bs;
                let off: u64 = if margin < hx && hx < bs - margin { hx } else { hy };
                assert(off * TEXTURE_WIDTH <= bs * TEXTURE_WIDTH) by (nonlinear_arith)
                    requires off < bs;
                let tx: u64 = off * TEXTURE_WIDTH / bs;
                assert(tx < TEXTURE_WIDTH) by (nonlinear_arith)
                    requires
                        off < bs,
                        tx == off * TEXTURE_WIDTH / (bs as int),
                ;
                let r = Intersect { distance, impact: ch, tx, steps: k as u64 };
                proof {
                    lemma_cast_spec(m, ox as int, oy as int, d, block_size as int, r);
                }
                return r;
            } else {
                let r = Intersect { distance, impact: EMPTY, tx: 0, steps: k as u64 };
                proof {
                    lemma_cast_spec(m, ox as int, oy as int, d, block_size as int, r);
                }
                return r;
            }
        }
        assert(k <= MAX_DISTANCE) by (nonlinear_arith)
            requires
                (k * d.dx) * (k * d.dx) + (k * d.dy) * (k * d.dy) <= MAX_DISTANCE * MAX_DISTANCE,
                d.dx != 0 || d.dy != 0,
                k >= 0,
        ;
        k = k + 1;
    }
}

} // verus!
