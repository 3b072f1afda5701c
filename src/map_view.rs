use vstd::prelude::*;

use crate::caster::{cast_ray, cast_spec, dir_ok, is_wall, origin_ok, ray_at, Dir, Intersect, BLOCK_LIMIT, MAX_DISTANCE};
use crate::framebuffer::{Color, Framebuffer, SIZE_LIMIT};
use crate::maze::{maze_view, Maze, EMPTY};
use crate::player::{player_ok, Player, POS_LIMIT};
use crate::sprites::{sprite_ok, Sprite, SPRITE_LIMIT};

verus! {


/// World units per pixel of the top-down view.
pub const WORLD_PER_PIXEL: i64 = 16;

pub open spec fn wall_color() -> Color {
    Color { r: 135, g: 60, b: 190, a: 255 }
}

/// Paints the pixels of the rectangle `[x0, x0 + w) x [y0, y0 + h)` that lie
/// in the buffer with `color`.
pub fn fill_rect(fb: &mut Framebuffer, x0: u64, y0: u64, w: u64, h: u64, color: Color)
    requires
        old(fb).wf(),
        x0 + w <= u32::MAX,
        y0 + h <= u32::MAX,
    ensures
        final(fb).wf(),
        final(fb).width == old(fb).width,
        final(fb).height == old(fb).height,
        final(fb).background_color == old(fb).background_color,
        forall|x: int, y: int|
            #![trigger final(fb).px(x, y)]
            final(fb).in_bounds(x, y) ==> final(fb).px(x, y) == if x0 <= x < x0 + w && y0 <= y < y0 + h {
                color
            } else {
                old(fb).px(x, y)
            },
{
    fb.set_current_color(color);
    let mut x: u64 = x0;
    while x < x0 + w
        invariant
            x0 <= x <= x0 + w <= u32::MAX,
            y0 + h <= u32::MAX,
            fb.wf(),
            fb.width == old(fb).width,
            fb.height == old(fb).height,
            fb.background_color == old(fb).background_color,
            fb.current_color == color,
            forall|x2: int, y2: int|
                #![trigger fb.px(x2, y2)]
                fb.in_bounds(x2, y2) ==> fb.px(x2, y2) == if x0 <= x2 < x && y0 <= y2 < y0 + h {
                    color
                } else {
                    old(fb).px(x2, y2)
                },
        decreases x0 + w - x,
    {
        let mut y: u64 = y0;
        while y < y0 + h
            invariant
                x0 <= x < x0 + w <= u32::MAX,
                y0 <= y <= y0 + h <= u32::MAX,
                fb.wf(),
                fb.width == old(fb).width,
                fb.height == old(fb).height,
                fb.background_color == old(fb).background_color,
                fb.current_color == color,
                forall|x2: int, y2: int|
                    #![trigger fb.px(x2, y2)]
                    fb.in_bounds(x2, y2) ==> fb.px(x2, y2) == if (x0 <= x2 < x && y0 <= y2 < y0 + h) || (x2
                        == x && y0 <= y2 < y) {
                        color
                    } else {
                        old(fb).px(x2, y2)
                    },
            decreases y0 + h - y,
        {
            fb.set_pixel(x as u32, y as u32);
            y = y + 1;
        }
        x = x + 1;
    }
}

/// Draws one cell of a map as a square of side `size` at `(x0, y0)`: a wall
/// fills it, an empty cell leaves it.
pub fn draw_cell(fb: &mut Framebuffer, x0: u64, y0: u64, size: u64, cell: char)
    requires
        old(fb).wf(),
        x0 + size <= u32::MAX,
        y0 + size <= u32::MAX,
    ensures
        final(fb).wf(),
        final(fb).width == old(fb).width,
        final(fb).height == old(fb).height,
        final(fb).background_color == old(fb).background_color,
        forall|x: int, y: int|
            #![trigger final(fb).px(x, y)]
            final(fb).in_bounds(x, y) ==> final(fb).px(x, y) == if cell != EMPTY && x0 <= x < x0 + size && y0
                <= y < y0 + size {
                wall_color()
            } else {
                old(fb).px(x, y)
            },
{
    if cell == EMPTY {
        return;
    }
    fill_rect(fb, x0, y0, size, size, Color { r: 135, g: 60, b: 190, a: 255 });
}

/// Whether pixel `(x, y)` lies in the square of a wall cell of a map drawn
/// with cells `size` pixels wide from `(ox, oy)`.
pub open spec fn on_map_wall(maze: Seq<Seq<char>>, ox: int, oy: int, size: int, x: int, y: int) -> bool {
    is_wall(maze, x - ox, y - oy, size)
}

/// Whether the cell that holds map pixel `(x, y)` comes before cell `(i, j)`
/// in row-major order.
pub open spec fn drawn_before(ox: int, oy: int, size: int, x: int, y: int, i: int, j: int) -> bool {
    let ci = (x - ox) / size;
    let cj = (y - oy) / size;
    cj < j || (cj == j && ci < i)
}

/// Draws every cell of the maze as a square of side `size`, offset by
/// `(ox, oy)`: the pixels in the square of a wall cell take the wall color,
/// the others keep theirs.
pub fn draw_cells(fb: &mut Framebuffer, maze: &Maze, ox: u64, oy: u64, size: u64)
    requires
        old(fb).wf(),
        size <= SIZE_LIMIT,
        ox <= SIZE_LIMIT,
        oy <= SIZE_LIMIT,
    ensures
        final(fb).wf(),
        final(fb).width == old(fb).width,
        final(fb).height == old(fb).height,
        final(fb).background_color == old(fb).background_color,
        forall|x: int, y: int|
            #![trigger final(fb).px(x, y)]
            final(fb).in_bounds(x, y) ==> final(fb).px(x, y) == if on_map_wall(
                maze_view(maze),
                ox as int,
                oy as int,
                size as int,
                x,
                y,
            ) {
                wall_color()
            } else {
                old(fb).px(x, y)
            },
{
    let ghost m = maze_view(maze);
    let ghost z = size as int;
    if size == 0 {
        return;
    }
    let mut j: usize = 0;
    while j < maze.len()
        invariant
            j <= maze@.len(),
            m == maze_view(maze),
            z == size,
            fb.wf(),
            fb.width == old(fb).width,
            fb.height == old(fb).height,
            fb.background_color == old(fb).background_color,
            0 < size <= SIZE_LIMIT,
            ox <= SIZE_LIMIT,
            oy <= SIZE_LIMIT,
            forall|x: int, y: int|
                #![trigger fb.px(x, y)]
                fb.in_bounds(x, y) ==> fb.px(x, y) == if on_map_wall(m, ox as int, oy as int, z, x, y) && drawn_before(
                    ox as int,
                    oy as int,
                    z,
                    x,
                    y,
                    0,
                    j as int,
                ) {
                    wall_color()
                } else {
                    old(fb).px(x, y)
                },
        decreases maze@.len() - j,
    {
        let mut i: usize = 0;
        while i < maze[j].len()
            invariant
                j < maze@.len(),
                i <= maze@[j as int]@.len(),
                m == maze_view(maze),
                z == size,
                fb.wf(),
                fb.width == old(fb).width,
                fb.height == old(fb).height,
                fb.background_color == old(fb).background_color,
                0 < size <= SIZE_LIMIT,
                ox <= SIZE_LIMIT,
                oy <= SIZE_LIMIT,
                forall|x: int, y: int|
                    #![trigger fb.px(x, y)]
                    fb.in_bounds(x, y) ==> fb.px(x, y) == if on_map_wall(m, ox as int, oy as int, z, x, y)
                        && drawn_before(ox as int, oy as int, z, x, y, i as int, j as int) {
                        wall_color()
                    } else {
                        old(fb).px(x, y)
                    },
            decreases maze@[j as int]@.len() - i,
        {
            let ghost before = *fb;
            let cell = maze[j][i];
            if i as u64 <= SIZE_LIMIT as u64 && j as u64 <= SIZE_LIMIT as u64 {
                assert(i * size <= SIZE_LIMIT * SIZE_LIMIT && j * size <= SIZE_LIMIT * SIZE_LIMIT) by (nonlinear_arith)
                    requires
                        i <= SIZE_LIMIT,
                        j <= SIZE_LIMIT,
                        size <= SIZE_LIMIT,
                ;
                let x0: u64 = ox + i as u64 * size;
                let y0: u64 = oy + j as u64 * size;
                draw_cell(fb, x0, y0, size, cell);
            }
            assert forall|x: int, y: int| fb.in_bounds(x, y) implies fb.px(x, y) == if on_map_wall(
                m,
                ox as int,
                oy as int,
                z,
                x,
                y,
            ) && drawn_before(ox as int, oy as int, z, x, y, i + 1, j as int) {
                wall_color()
            } else {
                old(fb).px(x, y)
            } by {
                assert(before.in_bounds(x, y));
                lemma_map_cell(m, ox as int, oy as int, z, x, y, i as int, j as int, fb.width as int, fb.height as int);
            }
            i = i + 1;
        }
        assert forall|x: int, y: int| fb.in_bounds(x, y) implies fb.px(x, y) == if on_map_wall(
            m,
            ox as int,
            oy as int,
            z,
            x,
            y,
        ) && drawn_before(ox as int, oy as int, z, x, y, 0, j + 1) {
            wall_color()
        } else {
            old(fb).px(x, y)
        } by {
            if on_map_wall(m, ox as int, oy as int, z, x, y) && (y - oy) / z == j {
                assert((x - ox) / z < m[j as int].len());
            }
        }
        j = j + 1;
    }
}

/// How a map pixel relates to the square of cell `(i, j)`: it lies in the
/// square exactly when its cell is `(i, j)`; a wall pixel's cell lies in the
/// maze; and a cell beyond `SIZE_LIMIT` has no pixel within a buffer.
proof fn lemma_map_cell(
    m: Seq<Seq<char>>,
    ox: int,
    oy: int,
    z: int,
    x: int,
    y: int,
    i: int,
    j: int,
    width: int,
    height: int,
)
    requires
        z > 0,
        ox >= 0,
        oy >= 0,
        0 <= x < width <= SIZE_LIMIT,
        0 <= y < height <= SIZE_LIMIT,
        0 <= j < m.len(),
        0 <= i < m[j].len(),
    ensures
        (ox + i * z <= x < ox + i * z + z && oy + j * z <= y < oy + j * z + z) <==> (x - ox >= 0 && y - oy >= 0
            && (x - ox) / z == i && (y - oy) / z == j),
        (x - ox >= 0 && (x - ox) / z == i) ==> i <= SIZE_LIMIT,
        (y - oy >= 0 && (y - oy) / z == j) ==> j <= SIZE_LIMIT,
        on_map_wall(m, ox, oy, z, x, y) && (x - ox) / z == i && (y - oy) / z == j ==> m[j][i] != EMPTY,
        on_map_wall(m, ox, oy, z, x, y) ==> x - ox >= 0 && y - oy >= 0,
{
    assert((i + 1) * z == i * z + z) by (nonlinear_arith);
    assert((j + 1) * z == j * z + z) by (nonlinear_arith);
    if ox + i * z <= x < ox + i * z + z {
        crate::maze::lemma_div_in_cell(x - ox, i, z);
    }
    if oy + j * z <= y < oy + j * z + z {
        crate::maze::lemma_div_in_cell(y - oy, j, z);
    }
    if x - ox >= 0 {
        vstd::arithmetic::div_mod::lemma_fundamental_div_mod(x - ox, z);
        let q = (x - ox) / z;
        assert(q * z <= x - ox < q * z + z) by (nonlinear_arith)
            requires
                x - ox == z * q + (x - ox) % z,
                0 <= (x - ox) % z < z,
        ;
        assert(q <= x - ox) by (nonlinear_arith)
            requires
                q * z <= x - ox,
                z >= 1,
                x - ox >= 0,
        ;
    }
    if y - oy >= 0 {
        vstd::arithmetic::div_mod::lemma_fundamental_div_mod(y - oy, z);
        let q = (y - oy) / z;
        assert(q * z <= y - oy < q * z + z) by (nonlinear_arith)
            requires
                y - oy == z * q + (y - oy) % z,
                0 <= (y - oy) % z < z,
        ;
        assert(q <= y - oy) by (nonlinear_arith)
            requires
                q * z <= y - oy,
                z >= 1,
                y - oy >= 0,
        ;
    }
}

/// The pixel of the top-down view that shows a world coordinate.
pub open spec fn map_pixel(v: int) -> int {
    v / WORLD_PER_PIXEL as int
}

/// Whether step `k` of a ray from `(ox, oy)` along `d` lies on pixel `(x, y)`
/// of the top-down view.
pub open spec fn on_trace_step(ox: int, oy: int, d: Dir, k: int, x: int, y: int) -> bool {
    let wx = ray_at(ox, d.dx as int, k);
    let wy = ray_at(oy, d.dy as int, k);
    wx >= 0 && wy >= 0 && map_pixel(wx) == x && map_pixel(wy) == y
}

/// Whether a ray passed over pixel `(x, y)` in its first `n` steps.
pub open spec fn on_trace(ox: int, oy: int, d: Dir, n: int, x: int, y: int) -> bool {
    exists|k: int| 0 <= k < n && #[trigger] on_trace_step(ox, oy, d, k, x, y)
}

/// Casts a ray like `cast_ray` and plots, in the current color, each point
/// that it passed through before it stopped, on the top-down view.
pub fn trace_ray(fb: &mut Framebuffer, maze: &Maze, ox: i64, oy: i64, d: Dir, block_size: usize) -> (r: Intersect)
    requires
        old(fb).wf(),
        0 < block_size <= BLOCK_LIMIT,
        origin_ok(ox, oy),
        dir_ok(d),
    ensures
        r == cast_spec(maze_view(maze), ox as int, oy as int, d, block_size as int),
        final(fb).wf(),
        final(fb).width == old(fb).width,
        final(fb).height == old(fb).height,
        final(fb).background_color == old(fb).background_color,
        final(fb).current_color == old(fb).current_color,
        forall|x: int, y: int|
            #![trigger final(fb).px(x, y)]
            final(fb).in_bounds(x, y) ==> final(fb).px(x, y) == if on_trace(
                ox as int,
                oy as int,
                d,
                r.steps as int,
                x,
                y,
            ) {
                old(fb).current_color
            } else {
                old(fb).px(x, y)
            },
{
    let r = cast_ray(maze, ox, oy, d, block_size);
    let mut k: u64 = 0;
    while k < r.steps
        invariant
            k <= r.steps <= MAX_DISTANCE + 1,
            origin_ok(ox, oy),
            dir_ok(d),
            fb.wf(),
            fb.width == old(fb).width,
            fb.height == old(fb).height,
            fb.background_color == old(fb).background_color,
            fb.current_color == old(fb).current_color,
            forall|x: int, y: int|
                #![trigger fb.px(x, y)]
                fb.in_bounds(x, y) ==> fb.px(x, y) == if on_trace(ox as int, oy as int, d, k as int, x, y) {
                    old(fb).current_color
                } else {
                    old(fb).px(x, y)
                },
        decreases r.steps - k,
    {
        assert(-0x1001_1000 <= k * d.dx <= 0x1001_1000 && -0x1001_1000 <= k * d.dy <= 0x1001_1000)
            by (nonlinear_arith)
            requires
                0 <= k <= 0x1_0001,
                -0x1000 <= d.dx <= 0x1000,
                -0x1000 <= d.dy <= 0x1000,
        ;
        let x: i64 = ox + k as i64 * d.dx;
        let y: i64 = oy + k as i64 * d.dy;
        let ghost before = *fb;
        if 0 <= x && 0 <= y {
            let px: i64 = x / WORLD_PER_PIXEL;
            let py: i64 = y / WORLD_PER_PIXEL;
            if px <= u32::MAX as i64 && py <= u32::MAX as i64 {
                fb.set_pixel(px as u32, py as u32);
            }
        }
        assert forall|x2: int, y2: int| fb.in_bounds(x2, y2) implies fb.px(x2, y2) == if on_trace(
            ox as int,
            oy as int,
            d,
            k + 1,
            x2,
            y2,
        ) {
            old(fb).current_color
        } else {
            old(fb).px(x2, y2)
        } by {
            assert(before.in_bounds(x2, y2));
            if on_trace_step(ox as int, oy as int, d, k as int, x2, y2) {
                assert(on_trace(ox as int, oy as int, d, k + 1, x2, y2));
            } else if on_trace(ox as int, oy as int, d, k + 1, x2, y2) {
                let j = choose|j: int| 0 <= j < k + 1 && #[trigger] on_trace_step(ox as int, oy as int, d, j, x2, y2);
                assert(j < k);
                assert(on_trace(ox as int, oy as int, d, k as int, x2, y2));
            }
        }
        k = k + 1;
    }
    r
}

/// Draws the top-down view: the maze's walls, the viewer as a red point, and
/// the traces of rays cast along `rays`. The viewer's pixel is red where no
/// trace passes over it; a pixel that is neither the viewer's nor on a trace
/// shows the map.
pub fn render_maze(fb: &mut Framebuffer, maze: &Maze, block_size: usize, player: &Player, rays: &Vec<Dir>)
    requires
        old(fb).wf(),
        player_ok(*player),
        0 < block_size <= BLOCK_LIMIT,
        block_size as int / (WORLD_PER_PIXEL as int) <= SIZE_LIMIT,
        forall|i: int| 0 <= i < rays@.len() ==> dir_ok(#[trigger] rays@[i]),
    ensures
        player.x >= 0 && player.y >= 0 && final(fb).in_bounds(map_pixel(player.x as int), map_pixel(player.y as int))
            && !(exists|i: int|
            0 <= i < rays@.len() && #[trigger] on_trace(
                player.x as int,
                player.y as int,
                rays@[i],
                cast_spec(maze_view(maze), player.x as int, player.y as int, rays@[i], block_size as int).steps as int,
                map_pixel(player.x as int),
                map_pixel(player.y as int),
            )) ==> final(fb).px(map_pixel(player.x as int), map_pixel(player.y as int)) == (Color {
            r: 230,
            g: 41,
            b: 55,
            a: 255,
        }),
        final(fb).wf(),
        final(fb).width == old(fb).width,
        final(fb).height == old(fb).height,
        final(fb).background_color == old(fb).background_color,
        forall|x: int, y: int|
            #![trigger final(fb).px(x, y)]
            final(fb).in_bounds(x, y) && !(player.x >= 0 && player.y >= 0 && x == map_pixel(player.x as int) && y
                == map_pixel(player.y as int)) && !(exists|i: int|
                0 <= i < rays@.len() && #[trigger] on_trace(
                    player.x as int,
                    player.y as int,
                    rays@[i],
                    cast_spec(maze_view(maze), player.x as int, player.y as int, rays@[i], block_size as int).steps
                        as int,
                    x,
                    y,
                )) ==> final(fb).px(x, y) == if on_map_wall(
                maze_view(maze),
                0,
                0,
                block_size as int / (WORLD_PER_PIXEL as int),
                x,
                y,
            ) {
                wall_color()
            } else {
                old(fb).px(x, y)
            },
{
    let size: u64 = block_size as u64 / WORLD_PER_PIXEL as u64;
    draw_cells(fb, maze, 0, 0, size);
    let ghost map = *fb;
    fb.set_current_color(Color { r: 230, g: 41, b: 55, a: 255 });
    let ghost marked = *fb;
    assert(forall|x: int, y: int| marked.px(x, y) == map.px(x, y));
    if player.x >= 0 && player.y >= 0 {
        fb.set_pixel((player.x / WORLD_PER_PIXEL) as u32, (player.y / WORLD_PER_PIXEL) as u32);
    }
    let ghost dotted = *fb;
    fb.set_current_color(Color { r: 245, g: 245, b: 245, a: 255 });
    let ghost base = *fb;
    assert(forall|x: int, y: int| base.px(x, y) == dotted.px(x, y));
    assert forall|x: int, y: int| base.in_bounds(x, y) && !(player.x >= 0 && player.y >= 0 && x == map_pixel(player.x as int)
        && y == map_pixel(player.y as int)) implies base.px(x, y) == map.px(x, y) by {
        assert(marked.in_bounds(x, y));
        if player.x >= 0 && player.y >= 0 {
            assert(((player.x / WORLD_PER_PIXEL) as u32) as int == map_pixel(player.x as int));
            assert(((player.y / WORLD_PER_PIXEL) as u32) as int == map_pixel(player.y as int));
        }
    }
    let mut i: usize = 0;
    while i < rays.len()
        invariant
            i <= rays@.len(),
            fb.wf(),
            fb.width == old(fb).width,
            fb.height == old(fb).height,
            fb.background_color == old(fb).background_color,
            base.width == fb.width,
            base.height == fb.height,
            player_ok(*player),
            0 < block_size <= BLOCK_LIMIT,
            forall|j: int| 0 <= j < rays@.len() ==> dir_ok(#[trigger] rays@[j]),
            forall|x: int, y: int|
                #![trigger fb.px(x, y)]
                fb.in_bounds(x, y) && !(exists|j: int|
                    0 <= j < i && #[trigger] on_trace(
                        player.x as int,
                        player.y as int,
                        rays@[j],
                        cast_spec(maze_view(maze), player.x as int, player.y as int, rays@[j], block_size as int).steps
                            as int,
                        x,
                        y,
                    )) ==> fb.px(x, y) == base.px(x, y),
        decreases rays@.len() - i,
    {
        let ghost before = *fb;
        let r = trace_ray(fb, maze, player.x, player.y, rays[i], block_size);
        assert forall|x: int, y: int| fb.in_bounds(x, y) && !(exists|j: int|
            0 <= j < i + 1 && #[trigger] on_trace(
                player.x as int,
                player.y as int,
                rays@[j],
                cast_spec(maze_view(maze), player.x as int, player.y as int, rays@[j], block_size as int).steps as int,
                x,
                y,
            )) implies fb.px(x, y) == base.px(x, y) by {
            assert(before.in_bounds(x, y));
            assert(!on_trace(player.x as int, player.y as int, rays@[i as int], r.steps as int, x, y));
        }
        i = i + 1;
    }
    assert forall|x: int, y: int| fb.in_bounds(x, y) && !(player.x >= 0 && player.y >= 0 && x == map_pixel(player.x as int)
        && y == map_pixel(player.y as int)) && !(exists|j: int|
        0 <= j < rays@.len() && #[trigger] on_trace(
            player.x as int,
            player.y as int,
            rays@[j],
            cast_spec(maze_view(maze), player.x as int, player.y as int, rays@[j], block_size as int).steps as int,
            x,
            y,
        )) implies fb.px(x, y) == if on_map_wall(
        maze_view(maze),
        0,
        0,
        block_size as int / (WORLD_PER_PIXEL as int),
        x,
        y,
    ) {
        wall_color()
    } else {
        old(fb).px(x, y)
    } by {
        assert(base.in_bounds(x, y));
        assert(map.in_bounds(x, y));
    }
}

/// The position on a mini-map anchored at `origin` of a world coordinate,
/// scaled by `cell / world_block`.
pub open spec fn minimap_coord(origin: int, v: int, cell: int, world_block: int) -> int {
    origin + v * cell / world_block
}

/// Scaling by `cell / world_block`, at most one, does not grow a coordinate.
proof fn lemma_scale_down(v: int, cell: int, world_block: int)
    requires
        0 <= v,
        0 <= cell <= world_block,
        0 < world_block,
    ensures
        0 <= v * cell / world_block <= v,
{
    assert(v * cell <= v * world_block) by (nonlinear_arith)
        requires
            0 <= v,
            cell <= world_block,
    ;
    assert(0 <= v * cell) by (nonlinear_arith)
        requires
            0 <= v,
            0 <= cell,
    ;
    vstd::arithmetic::div_mod::lemma_div_is_ordered(v * cell, v * world_block, world_block);
    vstd::arithmetic::div_mod::lemma_div_multiples_vanish(v, world_block);
    assert(v * world_block == world_block * v) by (nonlinear_arith);
    vstd::arithmetic::div_mod::lemma_div_pos_is_pos(v * cell, world_block);
}

/// Draws a marker: the square `[1, 5)` pixels right of and below `(x, y)`.
fn draw_marker(fb: &mut Framebuffer, x: u64, y: u64, color: Color)
    requires
        old(fb).wf(),
        x <= 0x8000_0000,
        y <= 0x8000_0000,
    ensures
        final(fb).wf(),
        final(fb).width == old(fb).width,
        final(fb).height == old(fb).height,
        final(fb).background_color == old(fb).background_color,
        forall|x2: int, y2: int|
            #![trigger final(fb).px(x2, y2)]
            final(fb).in_bounds(x2, y2) ==> final(fb).px(x2, y2) == if x + 1 <= x2 < x + 5 && y + 1 <= y2 < y
                + 5 {
                color
            } else {
                old(fb).px(x2, y2)
            },
{
    fill_rect(fb, x + 1, y + 1, 4, 4, color);
}

/// Where a mini-map anchored at `(ox, oy)` with cells `cell` pixels wide
/// shows the world point `(x, y)`, or `None` where it falls left of or above
/// the screen.
pub fn minimap_point(ox: u64, oy: u64, x: i64, y: i64, cell: u64, world_block: u64) -> (r: Option<(u64, u64)>)
    requires
        ox <= SIZE_LIMIT,
        oy <= SIZE_LIMIT,
        cell <= world_block,
        0 < world_block,
        -SPRITE_LIMIT <= x <= SPRITE_LIMIT,
        -SPRITE_LIMIT <= y <= SPRITE_LIMIT,
    ensures
        match r {
            Some((a, b)) => x >= 0 && y >= 0 && a == minimap_coord(ox as int, x as int, cell as int, world_block as int)
                && b == minimap_coord(oy as int, y as int, cell as int, world_block as int),
            None => x < 0 || y < 0,
        },
        r matches Some((a, b)) ==> a <= ox + SPRITE_LIMIT && b <= oy + SPRITE_LIMIT,
{
    if x < 0 || y < 0 {
        return None;
    }
    assert(x * cell <= SPRITE_LIMIT * world_block && y * cell <= SPRITE_LIMIT * world_block) by (nonlinear_arith)
        requires
            0 <= x <= SPRITE_LIMIT,
            0 <= y <= SPRITE_LIMIT,
            cell <= world_block,
    ;
    proof {
        lemma_scale_down(x as int, cell as int, world_block as int);
        lemma_scale_down(y as int, cell as int, world_block as int);
    }
    let a: u64 = (x as u128 * cell as u128 / world_block as u128) as u64;
    let b: u64 = (y as u128 * cell as u128 / world_block as u128) as u64;
    Some((ox + a, oy + b))
}


/// Whether pixel `(x, y)` lies in the marker of world point `(px, py)` on a
/// mini-map anchored at `(ox, oy)`.
pub open spec fn in_marker(ox: int, oy: int, cell: int, world_block: int, px: int, py: int, x: int, y: int) -> bool {
    let a = minimap_coord(ox, px, cell, world_block);
    let b = minimap_coord(oy, py, cell, world_block);
    px >= 0 && py >= 0 && a + 1 <= x < a + 5 && b + 1 <= y < b + 5
}

/// Draws a marker at the mini-map position of a world point, where there is one.
fn mark_point(fb: &mut Framebuffer, ox: u64, oy: u64, x: i64, y: i64, cell: u64, world_block: u64, color: Color)
    requires
        old(fb).wf(),
        ox <= SIZE_LIMIT,
        oy <= SIZE_LIMIT,
        cell <= world_block,
        0 < world_block,
        -SPRITE_LIMIT <= x <= SPRITE_LIMIT,
        -SPRITE_LIMIT <= y <= SPRITE_LIMIT,
    ensures
        final(fb).wf(),
        final(fb).width == old(fb).width,
        final(fb).height == old(fb).height,
        final(fb).background_color == old(fb).background_color,
        forall|x2: int, y2: int|
            #![trigger final(fb).px(x2, y2)]
            final(fb).in_bounds(x2, y2) ==> final(fb).px(x2, y2) == if in_marker(
                ox as int,
                oy as int,
                cell as int,
                world_block as int,
                x as int,
                y as int,
                x2,
                y2,
            ) {
                color
            } else {
                old(fb).px(x2, y2)
            },
{
    match minimap_point(ox, oy, x, y, cell, world_block) {
        Some((a, b)) => draw_marker(fb, a, b, color),
        None => {},
    }
}

/// Whether pixel `(x, y)` lies in the marker of any of the first `n` enemies.
pub open spec fn in_enemy_marker(ox: int, oy: int, cell: int, world_block: int, es: Seq<Sprite>, n: int, x: int, y: int) -> bool {
    exists|k: int| 0 <= k < n && #[trigger] in_marker(ox, oy, cell, world_block, es[k].x as int, es[k].y as int, x, y)
}

/// Draws the mini-map anchored at `(ox, oy)`: the maze with cells `cell`
/// pixels wide, then markers for the viewer (black), the rescue target (pink)
/// and each enemy (red), at their positions scaled by `cell / world_block`.
/// A pixel that no marker covers shows the map.
pub fn render_minmap(
    fb: &mut Framebuffer,
    maze: &Maze,
    cell: u64,
    world_block: u64,
    player: &Player,
    princess: &Sprite,
    enemies: &Vec<Sprite>,
    ox: u64,
    oy: u64,
)
    requires
        old(fb).wf(),
        ox <= SIZE_LIMIT,
        oy <= SIZE_LIMIT,
        cell <= SIZE_LIMIT,
        0 < world_block,
        cell <= world_block,
        player_ok(*player),
        sprite_ok(*princess),
        forall|i: int| 0 <= i < enemies@.len() ==> sprite_ok(#[trigger] enemies@[i]),
    ensures
        final(fb).wf(),
        final(fb).width == old(fb).width,
        final(fb).height == old(fb).height,
        final(fb).background_color == old(fb).background_color,
        forall|x: int, y: int|
            #![trigger final(fb).px(x, y)]
            final(fb).in_bounds(x, y) ==> final(fb).px(x, y) == if in_enemy_marker(
                ox as int,
                oy as int,
                cell as int,
                world_block as int,
                enemies@,
                enemies@.len() as int,
                x,
                y,
            ) {
                Color { r: 230, g: 41, b: 55, a: 255 }
            } else if in_marker(ox as int, oy as int, cell as int, world_block as int, princess.x as int, princess.y as int, x, y) {
                Color { r: 255, g: 109, b: 194, a: 255 }
            } else if in_marker(ox as int, oy as int, cell as int, world_block as int, player.x as int, player.y as int, x, y) {
                Color { r: 0, g: 0, b: 0, a: 255 }
            } else if on_map_wall(maze_view(maze), ox as int, oy as int, cell as int, x, y) {
                wall_color()
            } else {
                old(fb).px(x, y)
            },
{
    draw_cells(fb, maze, ox, oy, cell);
    mark_point(fb, ox, oy, player.x, player.y, cell, world_block, Color { r: 0, g: 0, b: 0, a: 255 });
    mark_point(fb, ox, oy, princess.x, princess.y, cell, world_block, Color { r: 255, g: 109, b: 194, a: 255 });
    let ghost base = *fb;
    let mut i: usize = 0;
    while i < enemies.len()
        invariant
            i <= enemies@.len(),
            fb.wf(),
            fb.width == old(fb).width,
            fb.height == old(fb).height,
            fb.background_color == old(fb).background_color,
            base.width == fb.width,
            base.height == fb.height,
            ox <= SIZE_LIMIT,
            oy <= SIZE_LIMIT,
            cell <= world_block,
            0 < world_block,
            forall|j: int| 0 <= j < enemies@.len() ==> sprite_ok(#[trigger] enemies@[j]),
            forall|x: int, y: int|
                #![trigger fb.px(x, y)]
                fb.in_bounds(x, y) ==> fb.px(x, y) == if in_enemy_marker(
                    ox as int,
                    oy as int,
                    cell as int,
                    world_block as int,
                    enemies@,
                    i as int,
                    x,
                    y,
                ) {
                    Color { r: 230, g: 41, b: 55, a: 255 }
                } else {
                    base.px(x, y)
                },
        decreases enemies@.len() - i,
    {
        let e = enemies[i];
        let ghost before = *fb;
        mark_point(fb, ox, oy, e.x, e.y, cell, world_block, Color { r: 230, g: 41, b: 55, a: 255 });
        assert forall|x: int, y: int| fb.in_bounds(x, y) implies fb.px(x, y) == if in_enemy_marker(
            ox as int,
            oy as int,
            cell as int,
            world_block as int,
            enemies@,
            i + 1,
            x,
            y,
        ) {
            Color { r: 230, g: 41, b: 55, a: 255 }
        } else {
            base.px(x, y)
        } by {
            assert(before.in_bounds(x, y));
            if in_marker(ox as int, oy as int, cell as int, world_block as int, e.x as int, e.y as int, x, y) {
                assert(in_enemy_marker(ox as int, oy as int, cell as int, world_block as int, enemies@, i + 1, x, y));
            } else if in_enemy_marker(ox as int, oy as int, cell as int, world_block as int, enemies@, i + 1, x, y) {
                let k = choose|k: int| 0 <= k < i + 1 && #[trigger] in_marker(
                    ox as int,
                    oy as int,
                    cell as int,
                    world_block as int,
                    enemies@[k].x as int,
                    enemies@[k].y as int,
                    x,
                    y,
                );
                assert(k < i);
                assert(in_enemy_marker(ox as int, oy as int, cell as int, world_block as int, enemies@, i as int, x, y));
            }
        }
        i = i + 1;
    }
}

} // verus!
