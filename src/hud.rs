use vstd::prelude::*;

use crate::framebuffer::{Framebuffer, SIZE_LIMIT};
use crate::player::Player;
use crate::renderer::{over_sprite, rasterize_sprite};
use crate::sprites::{placement_ok, Placement, Sprite};
use crate::textures::TextureManager;

verus! {

/// The placement of a square image of side `size` at `(x0, y0)`, clipped to
/// a buffer of the given size.
pub open spec fn image_placement(x0: int, y0: int, size: int, width: int, height: int) -> Placement {
    let sx = if x0 < width { x0 } else { width };
    let sy = if y0 < height { y0 } else { height };
    Placement {
        start_x: sx as u64,
        start_y: sy as u64,
        end_x: (if x0 + size < width { x0 + size } else { width }) as u64,
        end_y: (if y0 + size < height { y0 + size } else { height }) as u64,
        size: size as u64,
    }
}

/// The square image of side `size` at `(x0, y0)` clipped to the buffer.
pub fn place_image(fb: &Framebuffer, x0: u64, y0: u64, size: u64) -> (pl: Placement)
    requires
        fb.wf(),
        size <= SIZE_LIMIT,
        x0 <= SIZE_LIMIT,
        y0 <= SIZE_LIMIT,
    ensures
        pl == image_placement(x0 as int, y0 as int, size as int, fb.width as int, fb.height as int),
        placement_ok(pl, fb.width as int, fb.height as int),
{
    let w: u64 = fb.width as u64;
    let h: u64 = fb.height as u64;
    let sx: u64 = if x0 < w { x0 } else { w };
    let sy: u64 = if y0 < h { y0 } else { h };
    let ex: u64 = if x0 + size < w { x0 + size } else { w };
    let ey: u64 = if y0 + size < h { y0 + size } else { h };
    Placement { start_x: sx, start_y: sy, end_x: ex, end_y: ey, size }
}

/// The sword held at the bottom left: the 64-pixel texture `'s'` shown five
/// times larger.
pub open spec fn sword_sprite() -> Sprite {
    Sprite { x: 0, y: 0, texture_key: 's', frame_width: 64, frame_height: 64, start_anim_x: 0, start_anim_y: 0 }
}

/// Draws the sword, 320 pixels square, 10 pixels from the left edge and
/// resting on the bottom edge; transparent texels are skipped.
pub fn render_sword(fb: &mut Framebuffer, tm: &TextureManager)
    requires
        old(fb).wf(),
        tm.wf(),
    ensures
        final(fb).wf(),
        final(fb).width == old(fb).width,
        final(fb).height == old(fb).height,
        final(fb).background_color == old(fb).background_color,
        forall|x: int, y: int|
            #![trigger final(fb).px(x, y)]
            final(fb).in_bounds(x, y) ==> final(fb).px(x, y) == over_sprite(
                *old(fb),
                sword_sprite(),
                *tm,
                image_placement(
                    10,
                    if old(fb).height >= 320 { old(fb).height - 320 } else { 0 },
                    320,
                    old(fb).width as int,
                    old(fb).height as int,
                ),
                x,
                y,
            ),
{
    let h: u64 = fb.height as u64;
    let y0: u64 = if h >= 320 { h - 320 } else { 0 };
    let pl = place_image(fb, 10, y0, 320);
    let sword = Sprite { x: 0, y: 0, texture_key: 's', frame_width: 64, frame_height: 64, start_anim_x: 0, start_anim_y: 0 };
    rasterize_sprite(fb, &sword, tm, pl);
}

/// A life: the 64-pixel texture `'h'` shown 80 pixels square.
pub open spec fn life_sprite() -> Sprite {
    Sprite { x: 0, y: 0, texture_key: 'h', frame_width: 64, frame_height: 64, start_anim_x: 0, start_anim_y: 0 }
}

/// Draws one life icon with its top left corner at `(x0, y0)`.
pub fn render_live(fb: &mut Framebuffer, tm: &TextureManager, x0: u64, y0: u64)
    requires
        old(fb).wf(),
        tm.wf(),
        x0 <= SIZE_LIMIT,
        y0 <= SIZE_LIMIT,
    ensures
        final(fb).wf(),
        final(fb).width == old(fb).width,
        final(fb).height == old(fb).height,
        final(fb).background_color == old(fb).background_color,
        forall|x: int, y: int|
            #![trigger final(fb).px(x, y)]
            final(fb).in_bounds(x, y) ==> final(fb).px(x, y) == over_sprite(
                *old(fb),
                life_sprite(),
                *tm,
                image_placement(x0 as int, y0 as int, 80, old(fb).width as int, old(fb).height as int),
                x,
                y,
            ),
{
    let pl = place_image(fb, x0, y0, 80);
    let life = Sprite { x: 0, y: 0, texture_key: 'h', frame_width: 64, frame_height: 64, start_anim_x: 0, start_anim_y: 0 };
    rasterize_sprite(fb, &life, tm, pl);
}

/// Left edge of the icon of life `i`: icons start 10 pixels from the left
/// and lie 96 pixels apart.
pub open spec fn life_x(i: int) -> int {
    10 + i * 96
}

/// Where the icon of life `i` lies on a buffer of the given size.
pub open spec fn life_placement(i: int, width: int, height: int) -> Placement {
    image_placement(life_x(i), 10, 80, width, height)
}

/// Whether pixel `(x, y)` lies in the icon of life `i`.
pub open spec fn in_life_icon(i: int, width: int, height: int, x: int, y: int) -> bool {
    let pl = life_placement(i, width, height);
    pl.start_x <= x < pl.end_x && pl.start_y <= y < pl.end_y
}

/// Draws one icon per remaining life along the top edge, 10 pixels down.
pub fn render_lives(fb: &mut Framebuffer, tm: &TextureManager, player: &Player)
    requires
        old(fb).wf(),
        tm.wf(),
    ensures
        final(fb).wf(),
        final(fb).width == old(fb).width,
        final(fb).height == old(fb).height,
        final(fb).background_color == old(fb).background_color,
        forall|i: int, x: int, y: int|
            #![trigger in_life_icon(i, final(fb).width as int, final(fb).height as int, x, y), final(fb).px(x, y)]
            final(fb).in_bounds(x, y) && 0 <= i < player.lives && in_life_icon(
                i,
                final(fb).width as int,
                final(fb).height as int,
                x,
                y,
            ) ==> final(fb).px(x, y) == over_sprite(
                *old(fb),
                life_sprite(),
                *tm,
                life_placement(i, old(fb).width as int, old(fb).height as int),
                x,
                y,
            ),
        forall|x: int, y: int|
            #![trigger final(fb).px(x, y)]
            final(fb).in_bounds(x, y) && (forall|i: int|
                0 <= i < player.lives ==> !#[trigger] in_life_icon(
                    i,
                    final(fb).width as int,
                    final(fb).height as int,
                    x,
                    y,
                )) ==> final(fb).px(x, y) == old(fb).px(x, y),
{
    let ghost w = fb.width as int;
    let ghost h = fb.height as int;
    let mut i: u64 = 0;
    while i < player.lives as u64
        invariant
            i <= player.lives,
            fb.wf(),
            tm.wf(),
            fb.width == old(fb).width,
            fb.height == old(fb).height,
            w == fb.width,
            h == fb.height,
            fb.background_color == old(fb).background_color,
            forall|k: int, x: int, y: int|
                #![trigger in_life_icon(k, w, h, x, y), fb.px(x, y)]
                fb.in_bounds(x, y) && 0 <= k < i && in_life_icon(k, w, h, x, y) ==> fb.px(x, y) == over_sprite(
                    *old(fb),
                    life_sprite(),
                    *tm,
                    life_placement(k, w, h),
                    x,
                    y,
                ),
            forall|x: int, y: int|
                #![trigger fb.px(x, y)]
                fb.in_bounds(x, y) && (forall|k: int| 0 <= k < i ==> !#[trigger] in_life_icon(k, w, h, x, y))
                    ==> fb.px(x, y) == old(fb).px(x, y),
        decreases player.lives - i,
    {
        let ghost before = *fb;
        let x0: u64 = 10 + i * 96;
        if x0 <= SIZE_LIMIT as u64 {
            render_live(fb, tm, x0, 10);
        }
        assert forall|x: int, y: int| fb.in_bounds(x, y) && !in_life_icon(i as int, w, h, x, y) implies fb.px(x, y)
            == before.px(x, y) by {
            assert(before.in_bounds(x, y));
        }
        assert forall|x: int, y: int| fb.in_bounds(x, y) && in_life_icon(i as int, w, h, x, y) implies fb.px(x, y)
            == over_sprite(*old(fb), life_sprite(), *tm, life_placement(i as int, w, h), x, y) by {
            assert(before.in_bounds(x, y));
            assert forall|k: int| 0 <= k < i implies !#[trigger] in_life_icon(k, w, h, x, y) by {
                assert(life_x(k) + 96 <= life_x(i as int));
            }
        }
        assert forall|k: int, x: int, y: int|
            fb.in_bounds(x, y) && 0 <= k < i + 1 && #[trigger] in_life_icon(k, w, h, x, y) implies fb.px(x, y)
            == over_sprite(*old(fb), life_sprite(), *tm, life_placement(k, w, h), x, y) by {
            if k < i {
                assert(life_x(k) + 96 <= life_x(i as int));
                assert(!in_life_icon(i as int, w, h, x, y));
                assert(before.in_bounds(x, y));
            }
        }
        i = i + 1;
    }
}

} // verus!
