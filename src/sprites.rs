use vstd::prelude::*;

use crate::caster::{cast_ray, cast_spec, is_isqrt, isqrt, lemma_isqrt_unique, Dir, BLOCK_LIMIT};
use crate::framebuffer::SIZE_LIMIT;
use crate::maze::{maze_view, Maze};
use crate::player::{is_normalized, lemma_normalized_unique, normalize_angle, player_ok, Player, POS_LIMIT, TURN};

verus! {

/// Screen size of a sprite: `screen_height * SPRITE_SCALE / distance` pixels.
pub const SPRITE_SCALE: u64 = 640;

/// Sprites nearer than this are not drawn.
pub const MIN_SPRITE_DIST: u64 = 800;

/// Sprites farther than this are not drawn.
pub const MAX_SPRITE_DIST: u64 = 16000;

/// Length of a step of the ray that tests whether a wall hides a sprite.
pub const STEP_LENGTH: i64 = 16;

/// A billboard: a position, the key of its texture, and the rectangle of the
/// texture that holds its current animation frame.
#[derive(Clone, Copy, Debug, PartialEq, Eq, Structural)]
pub struct Sprite {
    pub x: i64,
    pub y: i64,
    pub texture_key: char,
    pub frame_width: u32,
    pub frame_height: u32,
    pub start_anim_x: u32,
    pub start_anim_y: u32,
}

impl Sprite {
    pub fn new(
        x: i64,
        y: i64,
        start_anim_x: u32,
        start_anim_y: u32,
        texture_key: char,
        frame_width: u32,
        frame_height: u32,
    ) -> (s: Sprite)
        ensures
            s == (Sprite { x, y, texture_key, frame_width, frame_height, start_anim_x, start_anim_y }),
    {
        Sprite { x, y, texture_key, frame_width, frame_height, start_anim_x, start_anim_y }
    }
}

impl Sprite {
    /// A sprite whose animation frame is the top left `frame_width` by
    /// `frame_height` rectangle of its texture.
    pub open spec fn new_spec(x: i64, y: i64, texture_key: char, frame_width: u32, frame_height: u32) -> Sprite {
        Sprite { x, y, texture_key, frame_width, frame_height, start_anim_x: 0, start_anim_y: 0 }
    }
}

/// Largest magnitude of a sprite's coordinates: the viewer's bound and room
/// for an enemy that chases a viewer at the edge to step past it.
pub const SPRITE_LIMIT: i64 = POS_LIMIT + 64;

pub open spec fn sprite_ok(s: Sprite) -> bool {
    &&& -SPRITE_LIMIT <= s.x <= SPRITE_LIMIT
    &&& -SPRITE_LIMIT <= s.y <= SPRITE_LIMIT
    &&& s.start_anim_x + s.frame_width <= u32::MAX
    &&& s.start_anim_y + s.frame_height <= u32::MAX
}

/// The distance from the viewer to the sprite, rounded down.
pub open spec fn sprite_distance(p: Player, s: Sprite) -> int {
    let vx = s.x - p.x;
    let vy = s.y - p.y;
    choose|r: int| r >= 0 && #[trigger] is_isqrt(r, vx * vx + vy * vy)
}

/// `v * STEP_LENGTH / d`, rounded toward zero.
pub open spec fn scale_toward_zero(v: int, d: int) -> int {
    if v < 0 { -((-v) * STEP_LENGTH / d) } else { v * STEP_LENGTH / d }
}

/// The step of the ray cast along the sprite's bearing: the vector to the
/// sprite scaled to `STEP_LENGTH`.
pub open spec fn occlusion_dir(p: Player, s: Sprite) -> Dir {
    let d = sprite_distance(p, s);
    Dir {
        dx: scale_toward_zero(s.x - p.x, d) as i64,
        dy: scale_toward_zero(s.y - p.y, d) as i64,
    }
}

/// Whether the sprite lies outside the culling cone, narrower than half the
/// field of view: `|diff| > fov / 2.9`.
pub open spec fn outside_cone(diff: int, fov: int) -> bool {
    29 * (if diff < 0 { -diff } else { diff }) > 10 * fov
}

/// Whether a wall lies at or before the sprite along its bearing.
pub open spec fn hidden_by_wall(maze: Seq<Seq<char>>, p: Player, s: Sprite, block_size: int) -> bool {
    sprite_distance(p, s) >= cast_spec(maze, p.x as int, p.y as int, occlusion_dir(p, s), block_size).distance
}

/// Whether the sprite is out of the visible range or behind a wall, whatever
/// its bearing.
pub open spec fn sprite_hidden(maze: Seq<Seq<char>>, p: Player, s: Sprite, block_size: int) -> bool {
    sprite_distance(p, s) < MIN_SPRITE_DIST || sprite_distance(p, s) > MAX_SPRITE_DIST || hidden_by_wall(
        maze,
        p,
        s,
        block_size,
    )
}

/// Whether the sprite is drawn, given its bearing relative to the view `diff`.
pub open spec fn sprite_visible(maze: Seq<Seq<char>>, p: Player, s: Sprite, diff: int, block_size: int) -> bool {
    &&& !outside_cone(diff, p.fov as int)
    &&& MIN_SPRITE_DIST <= sprite_distance(p, s) <= MAX_SPRITE_DIST
    &&& !hidden_by_wall(maze, p, s, block_size)
}

/// The screen rectangle `[start_x, end_x) x [start_y, end_y)` of a drawn
/// sprite, and its side `size` before clipping.
#[derive(Clone, Copy, Debug, PartialEq, Eq, Structural)]
pub struct Placement {
    pub start_x: u64,
    pub start_y: u64,
    pub end_x: u64,
    pub end_y: u64,
    pub size: u64,
}

/// Where a sprite at distance `d` and relative bearing `diff` lands on a
/// screen: its size is `height * SPRITE_SCALE / d`, its center column is
/// `(diff / fov + 1/2) * width`, and it is centered on the midline. The box
/// starts at the floor of center minus half the size, at least 0, and spans
/// the size rounded down, clipped to the screen.
pub open spec fn placement_spec(diff: int, d: int, fov: int, width: int, height: int) -> Placement {
    let size = height * SPRITE_SCALE as int / d;
    // center - size / 2 == a / q - b / q, with the real center and size
    let a = (2 * diff + fov) * width * d;
    let b = height * SPRITE_SCALE as int * fov;
    let q = 2 * fov * d;
    let start_x = if a > b { (a - b) / q } else { 0 };
    // height / 2 - size / 2 == (height * d - height * SPRITE_SCALE) / (2 * d)
    let hd = height * d;
    let hs = height * SPRITE_SCALE as int;
    let start_y = if hd > hs { (hd - hs) / (2 * d) } else { 0 };
    Placement {
        start_x: start_x as u64,
        start_y: start_y as u64,
        end_x: (if start_x + size < width { start_x + size } else { width }) as u64,
        end_y: (if start_y + size < height { start_y + size } else { height }) as u64,
        size: size as u64,
    }
}

pub open spec fn placement_ok(pl: Placement, width: int, height: int) -> bool {
    &&& pl.start_x <= pl.end_x <= width
    &&& pl.start_y <= pl.end_y <= height
    &&& pl.end_x <= pl.start_x + pl.size
    &&& pl.end_y <= pl.start_y + pl.size
    &&& pl.size <= SIZE_LIMIT
}

/// The distance from the viewer to the sprite.
pub fn distance_to(p: &Player, s: &Sprite) -> (d: u64)
    requires
        player_ok(*p),
        sprite_ok(*s),
    ensures
        d == sprite_distance(*p, *s),
        is_isqrt(d as int, (s.x - p.x) * (s.x - p.x) + (s.y - p.y) * (s.y - p.y)),
{
    let vx: i64 = s.x - p.x;
    let vy: i64 = s.y - p.y;
    let ax: u64 = if vx < 0 { (-vx) as u64 } else { vx as u64 };
    let ay: u64 = if vy < 0 { (-vy) as u64 } else { vy as u64 };
    assert(ax * ax <= 0x8000_0040 * 0x8000_0040 && ay * ay <= 0x8000_0040 * 0x8000_0040) by (nonlinear_arith)
        requires
            ax <= 0x8000_0040,
            ay <= 0x8000_0040,
    ;
    assert(ax * ax == vx * vx && ay * ay == vy * vy) by (nonlinear_arith)
        requires
            ax == (if vx < 0 { -vx } else { vx as int }),
            ay == (if vy < 0 { -vy } else { vy as int }),
    ;
    let d = isqrt(ax * ax + ay * ay);
    proof {
        let n = (s.x - p.x) * (s.x - p.x) + (s.y - p.y) * (s.y - p.y);
        let c = choose|r: int| r >= 0 && is_isqrt(r, n);
        assert(d >= 0 && is_isqrt(d as int, n));
        lemma_isqrt_unique(d as int, c, n);
    }
    d
}

/// Decides whether and where a sprite is drawn. `bearing` is the angle from
/// the viewer to the sprite. A sprite outside the culling cone, too near
/// (the viewer's own position included) or too far, or with a wall at or
/// before it along its bearing, is not drawn.
pub fn place_sprite(
    maze: &Maze,
    player: &Player,
    sprite: &Sprite,
    bearing: i64,
    block_size: usize,
    screen_width: u64,
    screen_height: u64,
) -> (r: Option<Placement>)
    requires
        player_ok(*player),
        sprite_ok(*sprite),
        -TURN <= bearing <= TURN,
        0 < block_size <= BLOCK_LIMIT,
        screen_width <= SIZE_LIMIT,
        screen_height <= SIZE_LIMIT,
    ensures
        forall|diff: int|
            #[trigger] is_normalized(diff, bearing - player.a) ==> (r is Some <==> sprite_visible(
                maze_view(maze),
                *player,
                *sprite,
                diff,
                block_size as int,
            )) && (r is Some ==> r == Some(
                placement_spec(
                    diff,
                    sprite_distance(*player, *sprite),
                    player.fov as int,
                    screen_width as int,
                    screen_height as int,
                ),
            )),
        r matches Some(pl) ==> placement_ok(pl, screen_width as int, screen_height as int),
        exists|diff: int| #[trigger] is_normalized(diff, bearing - player.a),
        sprite_distance(*player, *sprite) < MIN_SPRITE_DIST ==> r is None,
        sprite_distance(*player, *sprite) > MAX_SPRITE_DIST ==> r is None,
        hidden_by_wall(maze_view(maze), *player, *sprite, block_size as int) ==> r is None,
{
    let diff = normalize_angle(bearing - player.a);
    proof {
        assert(is_normalized(diff as int, bearing - player.a));
        assert forall|e: int| #[trigger] is_normalized(e, bearing - player.a) implies e == diff by {
            lemma_normalized_unique(e, diff as int, bearing - player.a);
        }
    }
    let d = distance_to(player, sprite);
    let mag: i64 = if diff < 0 { -diff } else { diff };
    let outside = 29 * mag > 10 * player.fov;
    if d < MIN_SPRITE_DIST || d > MAX_SPRITE_DIST {
        return None;
    }
    let vx: i64 = sprite.x - player.x;
    let vy: i64 = sprite.y - player.y;
    proof {
        let n = vx * vx + vy * vy;
        assert(vx * vx <= n && vy * vy <= n) by (nonlinear_arith)
            requires n == vx * vx + vy * vy;
        lemma_root_bound(vx as int, d as int, n);
        lemma_root_bound(vy as int, d as int, n);
    }
    let qx: i64 = if vx < 0 { -((-vx) * STEP_LENGTH / d as i64) } else { vx * STEP_LENGTH / d as i64 };
    let qy: i64 = if vy < 0 { -((-vy) * STEP_LENGTH / d as i64) } else { vy * STEP_LENGTH / d as i64 };
    proof {
        lemma_scaled_small(vx as int, d as int);
        lemma_scaled_small(vy as int, d as int);
    }
    let dir = Dir { dx: qx, dy: qy };
    let ray = cast_ray(maze, player.x, player.y, dir, block_size);
    if d >= ray.distance {
        return None;
    }
    if outside {
        return None;
    }
    assert(screen_height * SPRITE_SCALE <= SIZE_LIMIT * SPRITE_SCALE) by (nonlinear_arith)
        requires
            screen_height <= SIZE_LIMIT,
    ;
    let size: u64 = screen_height * SPRITE_SCALE / d;
    assert(size <= screen_height) by (nonlinear_arith)
        requires
            size == screen_height * SPRITE_SCALE / (d as int),
            d >= MIN_SPRITE_DIST,
    ;
    let fov: u64 = player.fov as u64;
    assert(0 <= 2 * diff + fov <= 2 * fov) by {
        assert(29 * mag <= 10 * fov);
    }
    let span: u64 = (2 * diff + player.fov) as u64;
    assert(span * screen_width <= 0x20000 * SIZE_LIMIT && span * screen_width * d <= 0x20000 * SIZE_LIMIT
        * MAX_SPRITE_DIST) by (nonlinear_arith)
        requires
            span <= 2 * fov,
            fov <= TURN,
            screen_width <= SIZE_LIMIT,
            d <= MAX_SPRITE_DIST,
    ;
    assert(0 < 2 * fov * d <= 2 * TURN * MAX_SPRITE_DIST) by (nonlinear_arith)
        requires
            0 < fov <= TURN,
            0 < d <= MAX_SPRITE_DIST,
    ;
    assert(screen_height * d <= SIZE_LIMIT * MAX_SPRITE_DIST) by (nonlinear_arith)
        requires
            screen_height <= SIZE_LIMIT,
            d <= MAX_SPRITE_DIST,
    ;
    assert(screen_height * SPRITE_SCALE * fov <= SIZE_LIMIT * SPRITE_SCALE * TURN) by (nonlinear_arith)
        requires
            screen_height <= SIZE_LIMIT,
            fov <= TURN,
    ;
    let a: u64 = span * screen_width * d;
    let b: u64 = screen_height * SPRITE_SCALE * fov;
    let q: u64 = 2 * fov * d;
    proof {
        lemma_start_within(a as int, b as int, q as int, span as int, fov as int, screen_width as int, d as int);
        lemma_start_within(
            (screen_height * d) as int,
            (screen_height * SPRITE_SCALE) as int,
            2 * d as int,
            1,
            1,
            screen_height as int,
            d as int,
        );
    }
    let start_x: u64 = if a > b { (a - b) / q } else { 0 };
    let hd: u64 = screen_height * d;
    let hs: u64 = screen_height * SPRITE_SCALE;
    let start_y: u64 = if hd > hs { (hd - hs) / (2 * d) } else { 0 };
    let end_x: u64 = if start_x + size < screen_width { start_x + size } else { screen_width };
    let end_y: u64 = if start_y + size < screen_height { start_y + size } else { screen_height };
    Some(Placement { start_x, start_y, end_x, end_y, size })
}

/// The floor of `(a - b) / q` where `a = span * w * d` and `q = 2 * f * d`
/// with `span <= 2 * f` lies within `[0, w]`: the sprite's box starts on the
/// screen or at its right edge.
proof fn lemma_start_within(a: int, b: int, q: int, span: int, f: int, w: int, d: int)
    requires
        a == span * w * d,
        q == 2 * f * d,
        0 <= span <= 2 * f,
        f > 0,
        w >= 0,
        d > 0,
        b >= 0,
    ensures
        a > b ==> 0 <= (a - b) / q <= w,
{
    if a > b {
        assert(a - b <= q * w) by (nonlinear_arith)
            requires
                a == span * w * d,
                q == 2 * f * d,
                span <= 2 * f,
                w >= 0,
                d > 0,
                b >= 0,
        ;
        assert(q > 0) by (nonlinear_arith)
            requires
                q == 2 * f * d,
                f > 0,
                d > 0,
        ;
        vstd::arithmetic::div_mod::lemma_div_is_ordered(a - b, q * w, q);
        vstd::arithmetic::div_mod::lemma_div_multiples_vanish(w, q);
        assert(q * w == w * q) by (nonlinear_arith);
        vstd::arithmetic::div_mod::lemma_div_pos_is_pos(a - b, q);
    }
}

/// A coordinate of a vector is at most the vector's length.
pub proof fn lemma_root_bound(v: int, d: int, n: int)
    requires
        d >= 0,
        v * v <= n,
        is_isqrt(d, n),
    ensures
        -d <= v <= d,
{
    if v > d {
        assert((d + 1) * (d + 1) <= v * v) by (nonlinear_arith)
            requires
                0 <= d + 1 <= v,
        ;
    } else if v < -d {
        assert((d + 1) * (d + 1) <= v * v) by (nonlinear_arith)
            requires
                0 <= d + 1 <= -v,
        ;
    }
}

/// Scaling a coordinate of a vector by `STEP_LENGTH / length` stays within `STEP_LENGTH`.
proof fn lemma_scaled_small(v: int, d: int)
    requires
        d > 0,
        -d <= v <= d,
    ensures
        -STEP_LENGTH <= scale_toward_zero(v, d) <= STEP_LENGTH,
{
    if v < 0 {
        assert((-v) * STEP_LENGTH / d <= STEP_LENGTH) by (nonlinear_arith)
            requires
                0 <= -v <= d,
                d > 0,
        ;
        assert((-v) * STEP_LENGTH / d >= 0) by (nonlinear_arith)
            requires
                0 <= -v,
                d > 0,
        ;
    } else {
        assert(v * STEP_LENGTH / d <= STEP_LENGTH) by (nonlinear_arith)
            requires
                0 <= v <= d,
                d > 0,
        ;
        assert(v * STEP_LENGTH / d >= 0) by (nonlinear_arith)
            requires
                0 <= v,
                d > 0,
        ;
    }
}

} // verus!
