use vstd::prelude::*;

use crate::caster::{cast_ray, cast_spec, dir_ok, Dir, BLOCK_LIMIT};
use crate::framebuffer::{Color, Framebuffer, SIZE_LIMIT};
use crate::maze::{maze_view, Maze};
use crate::player::{is_normalized, player_ok, Player, HALF_TURN, TURN};
use crate::sprites::{
    hidden_by_wall, place_sprite, placement_ok, placement_spec, sprite_distance, sprite_hidden, sprite_ok,
    sprite_visible, Placement, Sprite, MIN_SPRITE_DIST,
};
use crate::textures::{texel_of, TextureManager};
pub use crate::hud::{render_live, render_lives, render_sword};
pub use crate::map_view::{draw_cell, fill_rect, minimap_point, render_maze, render_minmap};

verus! {

/// Calibration of wall height: a wall at distance `d` is
/// `(screen_height / 2) * PROJECTION / d` pixels tall.
pub const PROJECTION: u64 = 1920;

/// Vertical resolution of a wall texture.
pub const TEXTURE_HEIGHT: u64 = 128;

pub open spec fn sky_color() -> Color {
    Color { r: 130, g: 130, b: 130, a: 255 }
}

pub open spec fn ground_color() -> Color {
    Color { r: 190, g: 33, b: 55, a: 255 }
}

/// The vertical band of screen rows that shows one column's wall.
#[derive(Clone, Copy, Debug, PartialEq, Eq, Structural)]
pub struct Slab {
    pub height: u64,
    pub top: u64,
    pub bottom: u64,
}

/// The distance used for projection: a distance of zero counts as one.
pub open spec fn projected_distance(distance: int) -> int {
    if distance > 0 { distance } else { 1 }
}

/// Height of the wall slab for a wall at `distance`, rounded down: the
/// real height is `(screen_height / 2) * PROJECTION / distance`.
pub open spec fn slab_height(distance: int, screen_height: int) -> int {
    screen_height * PROJECTION as int / (2 * projected_distance(distance))
}

/// The slab for a wall at `distance`: the rows from the floor of
/// `screen_height / 2 - height / 2` to the floor of `screen_height / 2 +
/// height / 2` (end excluded), both taken with the real height and clipped to
/// the screen.
pub open spec fn slab_spec(distance: int, screen_height: int) -> Slab {
    let d = projected_distance(distance);
    let hp = screen_height * PROJECTION as int;
    let hd = 2 * screen_height * d;
    let bottom = (hd + hp) / (4 * d);
    Slab {
        height: slab_height(distance, screen_height) as u64,
        top: (if hp >= hd { 0 } else { (hd - hp) / (4 * d) }) as u64,
        bottom: (if bottom < screen_height { bottom } else { screen_height }) as u64,
    }
}

/// The texture row shown at screen row `y` of a slab.
pub open spec fn texture_row(y: int, top: int, bottom: int) -> int {
    (y - top) * TEXTURE_HEIGHT as int / (bottom - top)
}

/// The angle cast for column `i` of `width`: the field of view spread evenly
/// across the columns, starting at its left edge.
pub open spec fn column_angle_spec(a: int, fov: int, i: int, width: int) -> int {
    a - fov / 2 + fov * i / width
}

/// Projects a wall at `distance` onto a screen of `screen_height` rows.
pub fn project_column(distance: u64, screen_height: u64) -> (s: Slab)
    requires
        screen_height <= SIZE_LIMIT,
    ensures
        s == slab_spec(distance as int, screen_height as int),
        s.top <= s.bottom <= screen_height,
{
    let d: u128 = if distance > 0 { distance as u128 } else { 1 };
    let h: u128 = screen_height as u128;
    assert(h * d <= 0x8000 * 0xffff_ffff_ffff_ffff && 2 * h * d <= 0x10000 * 0xffff_ffff_ffff_ffff)
        by (nonlinear_arith)
        requires
            h <= 0x8000,
            d <= 0xffff_ffff_ffff_ffff,
    ;
    assert(h * 1920 <= 0x8000 * 1920) by (nonlinear_arith)
        requires
            h <= 0x8000,
    ;
    let hp: u128 = h * PROJECTION as u128;
    let hd: u128 = 2 * h * d;
    let height: u128 = hp / (2 * d);
    assert((hp as int) / (2 * d as int) <= hp) by (nonlinear_arith)
        requires
            d >= 1,
            hp >= 0,
    ;
    let top: u128 = if hp >= hd { 0 } else { (hd - hp) / (4 * d) };
    let b: u128 = (hd + hp) / (4 * d);
    let bottom: u128 = if b < h { b } else { h };
    proof {
        lemma_slab_rows_ordered(h as int, d as int, hp as int);
    }
    Slab { height: height as u64, top: top as u64, bottom: bottom as u64 }
}

/// The top row of a slab lies above its bottom row and within the screen.
proof fn lemma_slab_rows_ordered(h: int, d: int, hp: int)
    requires
        0 <= h,
        d >= 1,
        hp >= 0,
    ensures
        hp < 2 * h * d ==> (2 * h * d - hp) / (4 * d) <= (2 * h * d + hp) / (4 * d),
        hp < 2 * h * d ==> (2 * h * d - hp) / (4 * d) <= h,
{
    if hp < 2 * h * d {
        vstd::arithmetic::div_mod::lemma_div_is_ordered(2 * h * d - hp, 2 * h * d + hp, 4 * d);
        assert(2 * h * d <= 4 * d * h) by (nonlinear_arith)
            requires
                h >= 0,
                d >= 1,
        ;
        vstd::arithmetic::div_mod::lemma_div_is_ordered(2 * h * d - hp, 4 * d * h, 4 * d);
        vstd::arithmetic::div_mod::lemma_div_multiples_vanish(h, 4 * d);
        assert(4 * d * h == (4 * d) * h) by (nonlinear_arith);
    }
}

/// The angle cast for column `i` of a screen `width` columns wide.
pub fn column_angle(a: i64, fov: i64, i: u64, width: u64) -> (r: i64)
    requires
        -HALF_TURN < a <= HALF_TURN,
        0 < fov <= TURN,
        0 < width <= SIZE_LIMIT,
        i <= width,
    ensures
        r == column_angle_spec(a as int, fov as int, i as int, width as int),
{
    assert(0 <= fov * i <= TURN * SIZE_LIMIT) by (nonlinear_arith)
        requires
            0 < fov <= TURN,
            i <= SIZE_LIMIT,
    ;
    assert(fov * i / (width as int) <= fov) by (nonlinear_arith)
        requires
            0 < fov,
            i <= width,
            0 < width,
    ;
    let spread: i64 = fov * i as i64 / width as i64;
    a - fov / 2 + spread
}

/// Paints the rows `[y0, y1)` with `color`.
pub fn fill_rows(fb: &mut Framebuffer, y0: usize, y1: usize, color: Color)
    requires
        old(fb).wf(),
        y0 <= y1 <= old(fb).height,
    ensures
        final(fb).wf(),
        final(fb).width == old(fb).width,
        final(fb).height == old(fb).height,
        final(fb).background_color == old(fb).background_color,
        forall|x: int, y: int|
            #![trigger final(fb).px(x, y)]
            final(fb).in_bounds(x, y) ==> final(fb).px(x, y) == if y0 <= y < y1 {
                color
            } else {
                old(fb).px(x, y)
            },
{
    fb.set_current_color(color);
    let mut y: usize = y0;
    while y < y1
        invariant
            y0 <= y <= y1 <= fb.height,
            fb.wf(),
            fb.width == old(fb).width,
            fb.height == old(fb).height,
            fb.background_color == old(fb).background_color,
            fb.current_color == color,
            forall|x2: int, y2: int|
                #![trigger fb.px(x2, y2)]
                fb.in_bounds(x2, y2) ==> fb.px(x2, y2) == if y0 <= y2 < y {
                    color
                } else {
                    old(fb).px(x2, y2)
                },
        decreases y1 - y,
    {
        let mut x: usize = 0;
        while x < fb.width
            invariant
                y0 <= y < y1 <= fb.height,
                x <= fb.width,
                fb.wf(),
                fb.width == old(fb).width,
                fb.height == old(fb).height,
                fb.background_color == old(fb).background_color,
                fb.current_color == color,
                forall|x2: int, y2: int|
                    #![trigger fb.px(x2, y2)]
                    fb.in_bounds(x2, y2) ==> fb.px(x2, y2) == if (y0 <= y2 < y) || (y2 == y && x2 < x) {
                        color
                    } else {
                        old(fb).px(x2, y2)
                    },
            decreases fb.width - x,
        {
            fb.set_pixel(x as u32, y as u32);
            x = x + 1;
        }
        y = y + 1;
    }
}

/// Draws the slab of column `col`: each of its rows shows the texel of the
/// struck cell's texture at column `tx` and the row that the slab maps it to.
pub fn draw_column(fb: &mut Framebuffer, col: usize, slab: Slab, impact: char, tx: u32, tm: &TextureManager)
    requires
        old(fb).wf(),
        tm.wf(),
        col < old(fb).width,
        slab.top <= slab.bottom <= old(fb).height,
    ensures
        final(fb).wf(),
        final(fb).width == old(fb).width,
        final(fb).height == old(fb).height,
        final(fb).background_color == old(fb).background_color,
        forall|x: int, y: int|
            #![trigger final(fb).px(x, y)]
            final(fb).in_bounds(x, y) ==> final(fb).px(x, y) == if x == col && slab.top <= y < slab.bottom {
                texel_of(tm.textures@, impact, tx as int, texture_row(y, slab.top as int, slab.bottom as int))
            } else {
                old(fb).px(x, y)
            },
{
    let mut y: u64 = slab.top;
    let span: u64 = slab.bottom - slab.top;
    while y < slab.bottom
        invariant
            slab.top <= y <= slab.bottom <= fb.height,
            span == slab.bottom - slab.top,
            col < fb.width,
            tm.wf(),
            fb.wf(),
            fb.width == old(fb).width,
            fb.height == old(fb).height,
            fb.background_color == old(fb).background_color,
            forall|x2: int, y2: int|
                #![trigger fb.px(x2, y2)]
                fb.in_bounds(x2, y2) ==> fb.px(x2, y2) == if x2 == col && slab.top <= y2 < y {
                    texel_of(tm.textures@, impact, tx as int, texture_row(y2, slab.top as int, slab.bottom as int))
                } else {
                    old(fb).px(x2, y2)
                },
        decreases slab.bottom - y,
    {
        assert((y - slab.top) * TEXTURE_HEIGHT / (span as int) <= TEXTURE_HEIGHT) by (nonlinear_arith)
            requires
                0 <= y - slab.top < span,
        ;
        let ty: u64 = (y - slab.top) * TEXTURE_HEIGHT / span;
        let color = tm.get_pixel_color(impact, tx, ty as u32);
        let ghost before = *fb;
        fb.set_current_color(color);
        assert(forall|x2: int, y2: int| fb.px(x2, y2) == before.px(x2, y2));
        fb.set_pixel(col as u32, y as u32);
        assert forall|x2: int, y2: int| fb.in_bounds(x2, y2) implies fb.px(x2, y2) == if x2 == col && slab.top <= y2 < y + 1 {
                    texel_of(tm.textures@, impact, tx as int, texture_row(y2, slab.top as int, slab.bottom as int))
                } else {
                    old(fb).px(x2, y2)
                } by {
            if x2 == col && y2 == y {
            } else {
                assert(before.in_bounds(x2, y2));
                assert(fb.px(x2, y2) == before.px(x2, y2));
            }
        }
        y = y + 1;
    }
}

/// The color that the 3D view shows at row `y` of a column cast along `d`:
/// the wall's texel within the slab, else sky above the midline and ground below.
pub open spec fn view_pixel(
    maze: Seq<Seq<char>>,
    p: Player,
    block_size: int,
    tm: TextureManager,
    d: Dir,
    screen_height: int,
    y: int,
) -> Color {
    let hit = cast_spec(maze, p.x as int, p.y as int, d, block_size);
    let s = slab_spec(hit.distance as int, screen_height);
    if s.top <= y < s.bottom {
        texel_of(tm.textures@, hit.impact, hit.tx as int, texture_row(y, s.top as int, s.bottom as int))
    } else if y < screen_height / 2 {
        sky_color()
    } else {
        ground_color()
    }
}

/// Draws the 3D view: sky and ground, then one wall slab per column, where
/// column `i` casts along `dirs[i]`, the step vector of `column_angle` for `i`.
pub fn render_3d(
    fb: &mut Framebuffer,
    maze: &Maze,
    player: &Player,
    block_size: usize,
    tm: &TextureManager,
    dirs: &Vec<Dir>,
)
    requires
        old(fb).wf(),
        tm.wf(),
        player_ok(*player),
        0 < block_size <= BLOCK_LIMIT,
        dirs@.len() == old(fb).width,
        forall|i: int| 0 <= i < dirs@.len() ==> dir_ok(#[trigger] dirs@[i]),
    ensures
        final(fb).wf(),
        final(fb).width == old(fb).width,
        final(fb).height == old(fb).height,
        final(fb).background_color == old(fb).background_color,
        forall|x: int, y: int|
            #![trigger final(fb).px(x, y)]
            final(fb).in_bounds(x, y) ==> final(fb).px(x, y) == view_pixel(
                maze_view(maze),
                *player,
                block_size as int,
                *tm,
                dirs@[x],
                final(fb).height as int,
                y,
            ),
{
    let h: usize = fb.height;
    let hh: usize = h / 2;
    fill_rows(fb, 0, hh, Color { r: 130, g: 130, b: 130, a: 255 });
    fill_rows(fb, hh, h, Color { r: 190, g: 33, b: 55, a: 255 });
    let ghost bg = *fb;
    let mut i: usize = 0;
    while i < fb.width
        invariant
            i <= fb.width,
            fb.wf(),
            fb.width == old(fb).width,
            fb.height == h,
            hh == h / 2,
            fb.background_color == old(fb).background_color,
            tm.wf(),
            player_ok(*player),
            0 < block_size <= BLOCK_LIMIT,
            dirs@.len() == fb.width,
            forall|j: int| 0 <= j < dirs@.len() ==> dir_ok(#[trigger] dirs@[j]),
            forall|x2: int, y2: int|
                #![trigger fb.px(x2, y2)]
                fb.in_bounds(x2, y2) ==> fb.px(x2, y2) == if x2 < i {
                    view_pixel(maze_view(maze), *player, block_size as int, *tm, dirs@[x2], h as int, y2)
                } else if y2 < hh {
                    sky_color()
                } else {
                    ground_color()
                },
        decreases fb.width - i,
    {
        let hit = cast_ray(maze, player.x, player.y, dirs[i], block_size);
        let slab = project_column(hit.distance, h as u64);
        draw_column(fb, i, slab, hit.impact, hit.tx as u32, tm);
        i = i + 1;
    }
}


/// The color that a sprite placed at `pl` gives pixel `(x, y)` of its
/// rectangle: the texel of its animation frame scaled to the rectangle.
pub open spec fn sprite_texel(s: Sprite, tm: TextureManager, pl: Placement, x: int, y: int) -> Color {
    let tx = s.start_anim_x + (x - pl.start_x) * s.frame_width / (pl.size as int);
    let ty = s.start_anim_y + (y - pl.start_y) * s.frame_height / (pl.size as int);
    texel_of(tm.textures@, s.texture_key, tx, ty)
}

/// The color of pixel `(x, y)` after drawing a sprite placed at `pl` over `fb`:
/// inside the rectangle, a texel that is not fully transparent replaces it.
pub open spec fn over_sprite(fb: Framebuffer, s: Sprite, tm: TextureManager, pl: Placement, x: int, y: int) -> Color {
    over_color(fb.px(x, y), s, tm, pl, x, y)
}

/// The color of a pixel that had color `prev` after drawing a sprite placed
/// at `pl`.
pub open spec fn over_color(prev: Color, s: Sprite, tm: TextureManager, pl: Placement, x: int, y: int) -> Color {
    if pl.start_x <= x < pl.end_x && pl.start_y <= y < pl.end_y && sprite_texel(s, tm, pl, x, y).a > 0 {
        sprite_texel(s, tm, pl, x, y)
    } else {
        prev
    }
}

/// The angle `v` brought into `(-HALF_TURN, HALF_TURN]`.
pub open spec fn normalize_spec(v: int) -> int {
    choose|r: int| is_normalized(r, v)
}

/// The color of a pixel that had color `prev` after `draw_sprite` with the
/// given sprite and bearing, on a buffer of the given size.
pub open spec fn sprite_drawn(
    prev: Color,
    maze: Seq<Seq<char>>,
    p: Player,
    tm: TextureManager,
    s: Sprite,
    bearing: int,
    block_size: int,
    width: int,
    height: int,
    x: int,
    y: int,
) -> Color {
    let diff = normalize_spec(bearing - p.a);
    if sprite_visible(maze, p, s, diff, block_size) {
        over_color(prev, s, tm, placement_spec(diff, sprite_distance(p, s), p.fov as int, width, height), x, y)
    } else {
        prev
    }
}

/// The color of a pixel that had color `prev` after drawing the first `n`
/// sprites of `ss`, sprite `i` at bearing `bs[i]`, in order.
pub open spec fn sprites_over(
    prev: Color,
    maze: Seq<Seq<char>>,
    p: Player,
    tm: TextureManager,
    ss: Seq<Sprite>,
    bs: Seq<i64>,
    n: int,
    block_size: int,
    width: int,
    height: int,
    x: int,
    y: int,
) -> Color
    decreases n,
{
    if n <= 0 {
        prev
    } else {
        sprite_drawn(
            sprites_over(prev, maze, p, tm, ss, bs, n - 1, block_size, width, height, x, y),
            maze,
            p,
            tm,
            ss[n - 1],
            bs[n - 1] as int,
            block_size,
            width,
            height,
            x,
            y,
        )
    }
}

/// `a * f / s` is at most `f` where `a < s`.
proof fn lemma_scaled_within(a: int, f: int, s: int)
    requires
        0 <= a < s,
        f >= 0,
    ensures
        0 <= a * f / s <= f,
{
    assert(a * f <= s * f) by (nonlinear_arith)
        requires
            0 <= a < s,
            f >= 0,
    ;
    vstd::arithmetic::div_mod::lemma_div_is_ordered(a * f, s * f, s);
    vstd::arithmetic::div_mod::lemma_div_multiples_vanish(f, s);
    assert(s * f == f * s) by (nonlinear_arith);
    vstd::arithmetic::div_mod::lemma_div_pos_is_pos(a * f, s);
    assert(a * f >= 0) by (nonlinear_arith)
        requires
            a >= 0,
            f >= 0,
    ;
}

/// Draws a placed sprite, column by column, skipping transparent texels.
pub fn rasterize_sprite(fb: &mut Framebuffer, s: &Sprite, tm: &TextureManager, pl: Placement)
    requires
        old(fb).wf(),
        tm.wf(),
        sprite_ok(*s),
        placement_ok(pl, old(fb).width as int, old(fb).height as int),
    ensures
        final(fb).wf(),
        final(fb).width == old(fb).width,
        final(fb).height == old(fb).height,
        final(fb).background_color == old(fb).background_color,
        forall|x: int, y: int|
            #![trigger final(fb).px(x, y)]
            final(fb).in_bounds(x, y) ==> final(fb).px(x, y) == over_sprite(*old(fb), *s, *tm, pl, x, y),
{
    let ghost start = *fb;
    let mut x: u64 = pl.start_x;
    while x < pl.end_x
        invariant
            pl.start_x <= x <= pl.end_x,
            placement_ok(pl, fb.width as int, fb.height as int),
            fb.wf(),
            tm.wf(),
            sprite_ok(*s),
            start == *old(fb),
            fb.width == old(fb).width,
            fb.height == old(fb).height,
            fb.background_color == old(fb).background_color,
            forall|x2: int, y2: int|
                #![trigger fb.px(x2, y2)]
                fb.in_bounds(x2, y2) ==> fb.px(x2, y2) == if x2 < x {
                    over_sprite(start, *s, *tm, pl, x2, y2)
                } else {
                    start.px(x2, y2)
                },
        decreases pl.end_x - x,
    {
        let mut y: u64 = pl.start_y;
        while y < pl.end_y
            invariant
                pl.start_x <= x < pl.end_x,
                pl.start_y <= y <= pl.end_y,
                placement_ok(pl, fb.width as int, fb.height as int),
                fb.wf(),
                tm.wf(),
                sprite_ok(*s),
                start == *old(fb),
                fb.width == old(fb).width,
                fb.height == old(fb).height,
                fb.background_color == old(fb).background_color,
                forall|x2: int, y2: int|
                    #![trigger fb.px(x2, y2)]
                    fb.in_bounds(x2, y2) ==> fb.px(x2, y2) == if x2 < x || (x2 == x && y2 < y) {
                        over_sprite(start, *s, *tm, pl, x2, y2)
                    } else {
                        start.px(x2, y2)
                    },
            decreases pl.end_y - y,
        {
            let size: u64 = pl.size;
            proof {
                lemma_scaled_within((x - pl.start_x) as int, s.frame_width as int, size as int);
                lemma_scaled_within((y - pl.start_y) as int, s.frame_height as int, size as int);
            }
            assert((x - pl.start_x) * s.frame_width <= SIZE_LIMIT * 0xffff_ffff) by (nonlinear_arith)
                requires
                    0 <= x - pl.start_x < SIZE_LIMIT,
                    s.frame_width <= 0xffff_ffff,
            ;
            assert((y - pl.start_y) * s.frame_height <= SIZE_LIMIT * 0xffff_ffff) by (nonlinear_arith)
                requires
                    0 <= y - pl.start_y < SIZE_LIMIT,
                    s.frame_height <= 0xffff_ffff,
            ;
            let tx: u64 = s.start_anim_x as u64 + (x - pl.start_x) * s.frame_width as u64 / size;
            let ty: u64 = s.start_anim_y as u64 + (y - pl.start_y) * s.frame_height as u64 / size;
            let color = tm.get_pixel_color(s.texture_key, tx as u32, ty as u32);
            let ghost before = *fb;
            if color.a > 0 {
                fb.set_current_color(color);
                assert(forall|x2: int, y2: int| fb.px(x2, y2) == before.px(x2, y2));
                fb.set_pixel(x as u32, y as u32);
            }
            assert forall|x2: int, y2: int| fb.in_bounds(x2, y2) implies fb.px(x2, y2) == if x2 < x || (x2
                == x && y2 < y + 1) {
                over_sprite(start, *s, *tm, pl, x2, y2)
            } else {
                start.px(x2, y2)
            } by {
                assert(before.in_bounds(x2, y2));
                if x2 == x && y2 == y {
                    assert(sprite_texel(*s, *tm, pl, x2, y2) == color);
                } else {
                    assert(fb.px(x2, y2) == before.px(x2, y2));
                }
            }
            y = y + 1;
        }
        x = x + 1;
    }
}

/// Draws a sprite seen from the viewer, where `place_sprite` places it; a
/// sprite that it does not place leaves the buffer as it was.
pub fn draw_sprite(
    fb: &mut Framebuffer,
    maze: &Maze,
    player: &Player,
    sprite: &Sprite,
    tm: &TextureManager,
    bearing: i64,
    block_size: usize,
)
    requires
        old(fb).wf(),
        tm.wf(),
        player_ok(*player),
        sprite_ok(*sprite),
        -TURN <= bearing <= TURN,
        0 < block_size <= BLOCK_LIMIT,
    ensures
        final(fb).wf(),
        final(fb).width == old(fb).width,
        final(fb).height == old(fb).height,
        final(fb).background_color == old(fb).background_color,
        forall|diff: int|
            #[trigger] is_normalized(diff, bearing - player.a) ==> if sprite_visible(
                maze_view(maze),
                *player,
                *sprite,
                diff,
                block_size as int,
            ) {
                let pl = placement_spec(
                    diff,
                    sprite_distance(*player, *sprite),
                    player.fov as int,
                    old(fb).width as int,
                    old(fb).height as int,
                );
                forall|x: int, y: int|
                    #![trigger final(fb).px(x, y)]
                    final(fb).in_bounds(x, y) ==> final(fb).px(x, y) == over_sprite(*old(fb), *sprite, *tm, pl, x, y)
            } else {
                *final(fb) == *old(fb)
            },
        sprite_distance(*player, *sprite) < MIN_SPRITE_DIST ==> *final(fb) == *old(fb),
        hidden_by_wall(maze_view(maze), *player, *sprite, block_size as int) ==> *final(fb) == *old(fb),
        sprite_hidden(maze_view(maze), *player, *sprite, block_size as int) ==> *final(fb) == *old(fb),
        forall|x: int, y: int|
            #![trigger final(fb).px(x, y)]
            final(fb).in_bounds(x, y) ==> final(fb).px(x, y) == sprite_drawn(
                old(fb).px(x, y),
                maze_view(maze),
                *player,
                *tm,
                *sprite,
                bearing as int,
                block_size as int,
                old(fb).width as int,
                old(fb).height as int,
                x,
                y,
            ),
{
    let placed = place_sprite(maze, player, sprite, bearing, block_size, fb.width as u64, fb.height as u64);
    let ghost diff = normalize_spec(bearing - player.a);
    assert(is_normalized(diff, bearing - player.a));
    match placed {
        Some(pl) => {
            rasterize_sprite(fb, sprite, tm, pl);
        },
        None => {},
    }
}

/// Draws each enemy, then the rescue target; `bearings[i]` is the angle from
/// the viewer to enemy `i`, `princess_bearing` the one to the rescue target.
pub fn render_enemies(
    fb: &mut Framebuffer,
    maze: &Maze,
    player: &Player,
    tm: &TextureManager,
    enemies: &Vec<Sprite>,
    bearings: &Vec<i64>,
    princess: &Sprite,
    princess_bearing: i64,
    block_size: usize,
)
    requires
        old(fb).wf(),
        tm.wf(),
        player_ok(*player),
        sprite_ok(*princess),
        -TURN <= princess_bearing <= TURN,
        0 < block_size <= BLOCK_LIMIT,
        bearings@.len() == enemies@.len(),
        forall|i: int| 0 <= i < enemies@.len() ==> sprite_ok(#[trigger] enemies@[i]),
        forall|i: int| 0 <= i < bearings@.len() ==> -TURN <= #[trigger] bearings@[i] <= TURN,
    ensures
        final(fb).wf(),
        final(fb).width == old(fb).width,
        final(fb).height == old(fb).height,
        final(fb).background_color == old(fb).background_color,
        (forall|i: int|
            0 <= i < enemies@.len() ==> sprite_hidden(maze_view(maze), *player, #[trigger] enemies@[i], block_size as int))
            && sprite_hidden(maze_view(maze), *player, *princess, block_size as int) ==> *final(fb) == *old(fb),
        forall|x: int, y: int|
            #![trigger final(fb).px(x, y)]
            final(fb).in_bounds(x, y) ==> final(fb).px(x, y) == sprites_over(
                old(fb).px(x, y),
                maze_view(maze),
                *player,
                *tm,
                enemies@.push(*princess),
                bearings@.push(princess_bearing),
                enemies@.len() as int + 1,
                block_size as int,
                old(fb).width as int,
                old(fb).height as int,
                x,
                y,
            ),
{
    let ghost ss = enemies@.push(*princess);
    let ghost bs = bearings@.push(princess_bearing);
    let mut i: usize = 0;
    while i < enemies.len()
        invariant
            fb.wf(),
            tm.wf(),
            fb.width == old(fb).width,
            fb.height == old(fb).height,
            fb.background_color == old(fb).background_color,
            player_ok(*player),
            0 < block_size <= BLOCK_LIMIT,
            bearings@.len() == enemies@.len(),
            forall|j: int| 0 <= j < enemies@.len() ==> sprite_ok(#[trigger] enemies@[j]),
            forall|j: int| 0 <= j < bearings@.len() ==> -TURN <= #[trigger] bearings@[j] <= TURN,
            i <= enemies@.len(),
            (forall|j: int|
                0 <= j < i ==> sprite_hidden(maze_view(maze), *player, #[trigger] enemies@[j], block_size as int))
                ==> *fb == *old(fb),
            ss == enemies@.push(*princess),
            bs == bearings@.push(princess_bearing),
            forall|x: int, y: int|
                #![trigger fb.px(x, y)]
                fb.in_bounds(x, y) ==> fb.px(x, y) == sprites_over(
                    old(fb).px(x, y),
                    maze_view(maze),
                    *player,
                    *tm,
                    ss,
                    bs,
                    i as int,
                    block_size as int,
                    old(fb).width as int,
                    old(fb).height as int,
                    x,
                    y,
                ),
        decreases enemies@.len() - i,
    {
        let ghost before = *fb;
        draw_sprite(fb, maze, player, &enemies[i], tm, bearings[i], block_size);
        assert(ss[i as int] == enemies@[i as int] && bs[i as int] == bearings@[i as int]);
        assert forall|x: int, y: int| fb.in_bounds(x, y) implies fb.px(x, y) == sprites_over(
            old(fb).px(x, y),
            maze_view(maze),
            *player,
            *tm,
            ss,
            bs,
            i + 1,
            block_size as int,
            old(fb).width as int,
            old(fb).height as int,
            x,
            y,
        ) by {
            assert(before.in_bounds(x, y));
        }
        i = i + 1;
    }
    let ghost before = *fb;
    draw_sprite(fb, maze, player, princess, tm, princess_bearing, block_size);
    let ghost n = enemies@.len() as int;
    assert(ss[n] == *princess && bs[n] == princess_bearing);
    assert forall|x: int, y: int| fb.in_bounds(x, y) implies fb.px(x, y) == sprites_over(
        old(fb).px(x, y),
        maze_view(maze),
        *player,
        *tm,
        ss,
        bs,
        n + 1,
        block_size as int,
        old(fb).width as int,
        old(fb).height as int,
        x,
        y,
    ) by {
        assert(before.in_bounds(x, y));
    }
}

} // verus!
