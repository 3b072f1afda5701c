use knight_maze::caster::{cast_ray, isqrt, Dir, MAX_DISTANCE};
use knight_maze::framebuffer::{Color, Framebuffer};
use knight_maze::game::{centered_left, start_enemies, start_player, start_princess, update_world, GameState};
use knight_maze::maze::{get_cell, parse_maze, Maze};
use knight_maze::player::{normalize_angle, process_events, try_move, turned_angle, Controls, Player};
use knight_maze::renderer::{
    column_angle, draw_cell, draw_sprite, fill_rect, render_enemies, minimap_point, project_column, render_3d, render_lives,
    render_sword,
};
use knight_maze::sprites::{distance_to, place_sprite, Sprite, MIN_SPRITE_DIST};
use knight_maze::textures::{Texture, TextureManager};

const BS: usize = 1600;

fn ring() -> Maze {
    parse_maze("###\n# #\n###\n")
}

fn viewer(x: i64, y: i64, a: i64) -> Player {
    Player { x, y, a, fov: 6000, lives: 3 }
}

fn white() -> Color {
    Color::new(255, 255, 255, 255)
}

fn solid(key: char, w: u32, h: u32, c: Color) -> Texture {
    Texture::new(key, w, h, vec![c; (w * h) as usize])
}

#[test]
fn parse_splits_lines_and_drops_carriage_returns() {
    let m = parse_maze("ab\r\ncd\n");
    assert_eq!(m, vec![vec!['a', 'b'], vec!['c', 'd']]);
    assert_eq!(parse_maze(""), Vec::<Vec<char>>::new());
    assert_eq!(parse_maze("x"), vec![vec!['x']]);
    assert_eq!(parse_maze("a\n\nb"), vec![vec!['a'], vec![], vec!['b']]);
    assert_eq!(parse_maze("a\r"), vec![vec!['a', '\r']]);
    assert_eq!(parse_maze("x\r\na\r"), vec![vec!['x'], vec!['a', '\r']]);
}

#[test]
fn cell_lookup_inside_cells() {
    let m = ring();
    assert_eq!(get_cell(&m, 1600, 1600, BS), Some(' '));
    assert_eq!(get_cell(&m, 3199, 3199, BS), Some(' '));
    assert_eq!(get_cell(&m, 2400, 2400, BS), Some(' '));
    assert_eq!(get_cell(&m, 0, 0, BS), Some('#'));
    assert_eq!(get_cell(&m, 3200, 2400, BS), Some('#'));
    assert_eq!(get_cell(&m, 4799, 4799, BS), Some('#'));
}

#[test]
fn cell_lookup_outside_grid_is_absent() {
    let m = ring();
    assert_eq!(get_cell(&m, 4800, 0, BS), None);
    assert_eq!(get_cell(&m, 0, 4800, BS), None);
    assert_eq!(get_cell(&m, -1, 0, BS), None);
    assert_eq!(get_cell(&m, 0, -1, BS), None);
}

#[test]
fn ring_center_ray_hits_east_wall_at_half_a_cell() {
    let m = ring();
    let r = cast_ray(&m, 2400, 2400, Dir { dx: 16, dy: 0 }, BS);
    assert_eq!(r.distance, 800);
    assert_eq!(r.impact, '#');
    assert_eq!(r.steps, 50);
}

#[test]
fn ring_viewer_cannot_step_into_east_wall() {
    let m = ring();
    let mut p = viewer(2400, 2400, 0);
    let taken = try_move(&mut p, &m, 900, 0, BS);
    assert!(!taken);
    assert_eq!((p.x, p.y), (2400, 2400));
}

#[test]
fn corridor_ray_distance_within_one_step_of_face() {
    let m = parse_maze("#####\n#   #\n#####");
    for step in [1i64, 2, 7, 16, 48, 100] {
        let r = cast_ray(&m, 2000, 2400, Dir { dx: step, dy: 0 }, BS);
        // face of the wall at column 4 lies at x = 6400
        let exact = 6400 - 2000;
        assert!(r.distance as i64 >= exact);
        assert!((r.distance as i64) < exact + step);
        assert_eq!(r.impact, '#');
    }
}

#[test]
fn ray_through_open_space_gives_up_past_max_distance() {
    let m = parse_maze("   ");
    let r = cast_ray(&m, 100, 100, Dir { dx: 0, dy: -3 }, BS);
    // the first step with 9 * k * k > 65536 * 65536
    assert_eq!(r.steps, 21846);
    assert_eq!(r.impact, ' ');
    assert_eq!(r.tx, 0);
    assert_eq!(r.distance, 65538);
    assert!(r.distance as i64 > MAX_DISTANCE);
}

#[test]
fn unit_step_ray_reaches_distant_face() {
    let m = parse_maze(" #");
    let r = cast_ray(&m, 0, 0, Dir { dx: 1, dy: 0 }, 5000);
    assert_eq!(r.distance, 5000);
    assert_eq!(r.impact, '#');
}

#[test]
fn motionless_ray_stops_at_once() {
    let m = parse_maze("   ");
    let r = cast_ray(&m, 100, 100, Dir { dx: 0, dy: 0 }, BS);
    assert_eq!((r.steps, r.distance, r.impact), (0, 0, ' '));
}

#[test]
fn ray_starting_in_wall_stops_at_once() {
    let m = ring();
    let r = cast_ray(&m, 100, 100, Dir { dx: 16, dy: 0 }, BS);
    assert_eq!(r.steps, 0);
    assert_eq!(r.distance, 0);
    assert_eq!(r.impact, '#');
}

#[test]
fn diagonal_ray_distance_is_euclidean() {
    let m = parse_maze("#####\n#   #\n#   #\n#   #\n#####");
    let r = cast_ray(&m, 2000, 2000, Dir { dx: 12, dy: 16 }, BS);
    // each step has length 20
    assert_eq!(r.distance, 20 * r.steps);
}

#[test]
fn texture_offset_continuous_along_flat_wall() {
    let m = parse_maze("#########\n#       #\n#       #\n#########");
    let mut prev: Option<u64> = None;
    for dx in -8i64..=8 {
        // every ray meets the wall cell in column 4 after seven steps
        let r = cast_ray(&m, 7200, 1700, Dir { dx, dy: -16 }, BS);
        assert_eq!(r.steps, 7);
        assert_eq!(r.impact, '#');
        if let Some(p) = prev {
            let diff = if r.tx > p { r.tx - p } else { p - r.tx };
            assert!(diff <= 1, "jump from {} to {}", p, r.tx);
        }
        prev = Some(r.tx);
    }
}

#[test]
fn texture_column_formula() {
    let m = ring();
    // hits the north wall at x = 2400, halfway across the cell
    let r = cast_ray(&m, 2400, 2400, Dir { dx: 0, dy: -16 }, BS);
    assert_eq!(r.tx, 800 * 128 / 1600);
    // hits the east wall at y = 2000: the y offset is used
    let r2 = cast_ray(&m, 2400, 2000, Dir { dx: 16, dy: 0 }, BS);
    assert_eq!(r2.tx, 400 * 128 / 1600);
}

#[test]
fn isqrt_values() {
    assert_eq!(isqrt(0), 0);
    assert_eq!(isqrt(1), 1);
    assert_eq!(isqrt(15), 3);
    assert_eq!(isqrt(16), 4);
    assert_eq!(isqrt(u64::MAX), 0xffff_ffff);
}

#[test]
fn slab_height_follows_projection_formula() {
    let s = project_column(1920, 900);
    assert_eq!(s.height, 450 * 1920 / 1920);
    assert_eq!((s.top, s.bottom), (225, 675));
    assert_eq!(450 - s.top, s.bottom - 450);
    let s2 = project_column(3000, 900);
    assert_eq!(s2.height, 450 * 1920 / 3000);
    assert_eq!(s2.height, 288);
    assert_eq!((s2.top, s2.bottom), (306, 594));
}

#[test]
fn slab_is_clipped_to_screen() {
    let s = project_column(100, 900);
    assert_eq!(s.height, 8640);
    assert_eq!((s.top, s.bottom), (0, 900));
    let z = project_column(0, 900);
    assert_eq!((z.top, z.bottom), (0, 900));
}

#[test]
fn column_angles_span_field_of_view() {
    assert_eq!(column_angle(6000, 6000, 0, 1300), 3000);
    assert_eq!(column_angle(6000, 6000, 650, 1300), 6000);
    assert_eq!(column_angle(6000, 6000, 1300, 1300), 9000);
}

#[test]
fn angle_normalization() {
    assert_eq!(normalize_angle(18000), 18000);
    assert_eq!(normalize_angle(-18000), 18000);
    assert_eq!(normalize_angle(54000), 18000);
    assert_eq!(normalize_angle(-17999), -17999);
    assert_eq!(normalize_angle(36100), 100);
    assert_eq!(normalize_angle(-36100), -100);
}

#[test]
fn turning_is_always_accepted() {
    let c = Controls { left: false, right: true, up: false, down: false };
    assert_eq!(turned_angle(17900, c), -17380);
    let l = Controls { left: true, right: false, up: false, down: false };
    assert_eq!(turned_angle(0, l), -720);
    let both = Controls { left: true, right: true, up: false, down: false };
    assert_eq!(turned_angle(500, both), 500);
}

#[test]
fn step_into_empty_cell_moves_by_displacement() {
    let m = ring();
    let mut p = viewer(2400, 2400, 0);
    assert!(try_move(&mut p, &m, 80, -45, BS));
    assert_eq!((p.x, p.y), (2480, 2355));
}

#[test]
fn step_outside_grid_is_taken() {
    let m = parse_maze("   ");
    let mut p = viewer(100, 100, 0);
    assert!(try_move(&mut p, &m, -200, 0, BS));
    assert_eq!((p.x, p.y), (-100, 100));
    let mut q = viewer(100, 1500, 0);
    assert!(try_move(&mut q, &m, 0, 80, BS));
    assert_eq!((q.x, q.y), (100, 1580));
}

#[test]
fn slab_rows_follow_real_height() {
    // height 100 * 1920 / (2 * 24624) = 3.9: rows from 48.05 to 51.95
    let s = project_column(24624, 100);
    assert_eq!(s.height, 3);
    assert_eq!((s.top, s.bottom), (48, 51));
    // odd screen height: the midline is at 450.5
    let o = project_column(1920, 901);
    assert_eq!((o.top, o.bottom), (225, 675));
}

#[test]
fn sprite_box_starts_at_floor_of_left_edge() {
    let m = parse_maze("############\n#          #\n############");
    let p = viewer(2400, 2400, 0);
    let s = Sprite::new(15200, 2400, 0, 0, 'g', 64, 64);
    // size 100 * 640 / 12800 = 5, center 10: left edge 7.5
    let pl = place_sprite(&m, &p, &s, 0, BS, 20, 100).unwrap();
    assert_eq!(pl.size, 5);
    assert_eq!((pl.start_x, pl.end_x), (7, 12));
    assert_eq!((pl.start_y, pl.end_y), (47, 52));
}

#[test]
fn step_into_wall_leaves_position() {
    let m = ring();
    let mut p = viewer(3150, 2400, 0);
    assert!(!try_move(&mut p, &m, 80, 0, BS));
    assert_eq!((p.x, p.y), (3150, 2400));
    let mut q = viewer(2400, 1620, 0);
    assert!(!try_move(&mut q, &m, 0, -80, BS));
    assert_eq!((q.x, q.y), (2400, 1620));
}

#[test]
fn process_events_turns_then_moves() {
    let m = ring();
    let mut p = viewer(2400, 2400, 0);
    let c = Controls { left: false, right: true, up: true, down: false };
    process_events(&mut p, c, Dir { dx: 79, dy: 10 }, &m, BS);
    assert_eq!(p.a, 720);
    assert_eq!((p.x, p.y), (2479, 2410));
    let back = Controls { left: false, right: false, up: false, down: true };
    process_events(&mut p, back, Dir { dx: 79, dy: 10 }, &m, BS);
    assert_eq!((p.x, p.y), (2400, 2400));
    let both = Controls { left: false, right: false, up: true, down: true };
    process_events(&mut p, both, Dir { dx: 80, dy: 0 }, &m, BS);
    assert_eq!((p.x, p.y), (2400, 2400));
}

#[test]
fn sprite_at_viewer_position_is_culled() {
    let m = ring();
    let p = viewer(2400, 2400, 0);
    let s = Sprite::new(2400, 2400, 0, 0, 'g', 64, 64);
    assert_eq!(distance_to(&p, &s), 0);
    assert!(distance_to(&p, &s) < MIN_SPRITE_DIST);
    assert_eq!(place_sprite(&m, &p, &s, 0, BS, 200, 100), None);
    let mut fb = Framebuffer::new(200, 100);
    let before = fb.buffer.clone();
    let mut tm = TextureManager::new();
    tm.add(solid('g', 64, 64, white()));
    draw_sprite(&mut fb, &m, &p, &s, &tm, 0, BS);
    assert_eq!(fb.buffer, before);
}

#[test]
fn sprite_behind_wall_is_not_drawn() {
    let m = parse_maze("##########\n#   #    #\n##########");
    let p = viewer(2400, 2400, 0);
    let s = Sprite::new(10400, 2400, 0, 0, 'g', 64, 64);
    assert_eq!(place_sprite(&m, &p, &s, 0, BS, 200, 100), None);
    let mut fb = Framebuffer::new(200, 100);
    let before = fb.buffer.clone();
    let mut tm = TextureManager::new();
    tm.add(solid('g', 64, 64, white()));
    draw_sprite(&mut fb, &m, &p, &s, &tm, 0, BS);
    assert_eq!(fb.buffer, before);
}

#[test]
fn visible_sprite_is_placed_and_drawn() {
    let m = parse_maze("##########\n#        #\n##########");
    let p = viewer(2400, 2400, 0);
    let s = Sprite::new(6400, 2400, 0, 0, 'g', 64, 64);
    let pl = place_sprite(&m, &p, &s, 0, BS, 200, 100).unwrap();
    // size 100 * 640 / 4000 = 16, centered at column 100 and row 50
    assert_eq!(pl.size, 16);
    assert_eq!((pl.start_x, pl.end_x), (92, 108));
    assert_eq!((pl.start_y, pl.end_y), (42, 58));
    let mut fb = Framebuffer::new(200, 100);
    let mut tm = TextureManager::new();
    let red = Color::new(200, 0, 0, 255);
    tm.add(solid('g', 64, 64, red));
    draw_sprite(&mut fb, &m, &p, &s, &tm, 0, BS);
    assert_eq!(fb.get_pixel(100, 50), red);
    assert_eq!(fb.get_pixel(91, 50), Color::new(0, 0, 0, 255));
}

#[test]
fn sprite_outside_cone_or_range_is_culled() {
    let m = parse_maze("##########\n#        #\n#        #\n##########");
    let p = viewer(2400, 2400, 0);
    let s = Sprite::new(6400, 2400, 0, 0, 'g', 64, 64);
    // 2100 * 29 > 6000 * 10: outside the narrowed cone
    assert_eq!(place_sprite(&m, &p, &s, 2100, BS, 200, 100), None);
    assert!(place_sprite(&m, &p, &s, 2000, BS, 200, 100).is_some());
    let near = Sprite::new(3100, 2400, 0, 0, 'g', 64, 64);
    assert_eq!(place_sprite(&m, &p, &near, 0, BS, 200, 100), None);
}

#[test]
fn transparent_texels_are_skipped() {
    let m = parse_maze("##########\n#        #\n##########");
    let p = viewer(2400, 2400, 0);
    let s = Sprite::new(6400, 2400, 0, 0, 'g', 64, 64);
    let mut fb = Framebuffer::new(200, 100);
    let mut tm = TextureManager::new();
    tm.add(solid('g', 64, 64, Color::new(10, 20, 30, 0)));
    let before = fb.buffer.clone();
    draw_sprite(&mut fb, &m, &p, &s, &tm, 0, BS);
    assert_eq!(fb.buffer, before);
}

#[test]
fn render_3d_draws_slab_sky_and_ground() {
    let m = ring();
    let p = viewer(2400, 2400, 0);
    let mut fb = Framebuffer::new(4, 100);
    let mut tm = TextureManager::new();
    let wall = Color::new(1, 2, 3, 255);
    tm.add(solid('#', 128, 128, wall));
    let dirs = vec![Dir { dx: 16, dy: 0 }; 4];
    render_3d(&mut fb, &m, &p, BS, &tm, &dirs);
    // wall at 800: height 50 * 1920 / 800 = 120, clipped to the screen
    assert_eq!(fb.get_pixel(0, 0), wall);
    assert_eq!(fb.get_pixel(3, 99), wall);
    let far = viewer(1700, 2400, 0);
    let mut fb2 = Framebuffer::new(2, 100);
    render_3d(&mut fb2, &m, &far, BS, &tm, &vec![Dir { dx: 16, dy: 0 }; 2]);
    // wall at 1504: height 50 * 1920 / 1504 = 63.8, rows 18.08 to 81.9
    assert_eq!(fb2.get_pixel(0, 17), Color::new(130, 130, 130, 255));
    assert_eq!(fb2.get_pixel(0, 18), wall);
    assert_eq!(fb2.get_pixel(1, 80), wall);
    assert_eq!(fb2.get_pixel(1, 81), Color::new(190, 33, 55, 255));
}

#[test]
fn framebuffer_ignores_pixels_outside() {
    let mut fb = Framebuffer::new(3, 2);
    fb.set_current_color(white());
    fb.set_pixel(3, 0);
    fb.set_pixel(0, 2);
    assert!(fb.buffer.iter().all(|c| *c == Color::new(0, 0, 0, 255)));
    fb.set_pixel(2, 1);
    assert_eq!(fb.get_pixel(2, 1), white());
    assert_eq!(fb.buffer[5], white());
    fb.set_background_color(Color::new(0, 121, 241, 255));
    fb.clear();
    assert!(fb.buffer.iter().all(|c| *c == Color::new(0, 121, 241, 255)));
}

#[test]
fn texture_lookup_falls_back_to_white() {
    let mut tm = TextureManager::new();
    let c = Color::new(9, 9, 9, 255);
    tm.add(Texture::new('a', 2, 2, vec![c, c, Color::new(1, 1, 1, 1), c]));
    assert_eq!(tm.get_pixel_color('a', 0, 1), Color::new(1, 1, 1, 1));
    assert_eq!(tm.get_pixel_color('a', 2, 0), white());
    assert_eq!(tm.get_pixel_color('b', 0, 0), white());
    assert!(tm.get_texture('a').is_some());
    assert!(tm.get_texture('z').is_none());
}

#[test]
fn rectangles_and_cells() {
    let mut fb = Framebuffer::new(10, 10);
    let c = Color::new(5, 5, 5, 255);
    fill_rect(&mut fb, 8, 8, 4, 4, c);
    assert_eq!(fb.get_pixel(9, 9), c);
    assert_eq!(fb.get_pixel(7, 9), Color::new(0, 0, 0, 255));
    draw_cell(&mut fb, 0, 0, 3, ' ');
    assert_eq!(fb.get_pixel(0, 0), Color::new(0, 0, 0, 255));
    draw_cell(&mut fb, 0, 0, 3, '#');
    assert_eq!(fb.get_pixel(2, 2), Color::new(135, 60, 190, 255));
    assert_eq!(fb.get_pixel(3, 2), Color::new(0, 0, 0, 255));
}

#[test]
fn minimap_scales_world_points() {
    assert_eq!(minimap_point(1030, 10, 2400, 2400, 20, 1600), Some((1060, 40)));
    assert_eq!(minimap_point(1030, 10, -1, 2400, 20, 1600), None);
}

#[test]
fn hud_icons_are_scaled_textures() {
    let mut fb = Framebuffer::new(400, 400);
    let mut tm = TextureManager::new();
    let s = Color::new(50, 60, 70, 255);
    tm.add(solid('s', 64, 64, s));
    let h = Color::new(220, 0, 0, 255);
    tm.add(solid('h', 64, 64, h));
    render_sword(&mut fb, &tm);
    assert_eq!(fb.get_pixel(10, 80), s);
    assert_eq!(fb.get_pixel(329, 399), s);
    assert_eq!(fb.get_pixel(9, 80), Color::new(0, 0, 0, 255));
    assert_eq!(fb.get_pixel(330, 399), Color::new(0, 0, 0, 255));
    let p = viewer(0, 0, 0);
    let mut fb2 = Framebuffer::new(300, 100);
    render_lives(&mut fb2, &tm, &p);
    assert_eq!(fb2.get_pixel(10, 10), h);
    assert_eq!(fb2.get_pixel(89, 89), h);
    assert_eq!(fb2.get_pixel(95, 10), Color::new(0, 0, 0, 255));
    assert_eq!(fb2.get_pixel(106, 10), h);
    assert_eq!(fb2.get_pixel(202, 10), h);
}

#[test]
fn chasing_enemy_steps_toward_viewer() {
    let mut p = viewer(2400, 2400, 0);
    let mut es = vec![Sprite::new(4400, 2400, 0, 0, 'g', 64, 64), Sprite::new(20000, 2400, 0, 0, 'g', 64, 64)];
    let princess = Sprite::new(9000, 9000, 0, 0, 'p', 14, 35);
    let out = update_world(&mut p, &mut es, &princess);
    assert_eq!(out.state, GameState::Playing);
    assert_eq!(out.chasers, 1);
    assert_eq!((es[0].x, es[0].y), (4368, 2400));
    assert_eq!((es[1].x, es[1].y), (20000, 2400));
    assert_eq!(p.lives, 3);
}

#[test]
fn caught_viewer_loses_life_and_restarts() {
    let mut p = viewer(5000, 5000, 0);
    let mut es = vec![Sprite::new(5100, 5000, 0, 0, 'g', 64, 64)];
    let princess = Sprite::new(9000, 9000, 0, 0, 'p', 14, 35);
    let out = update_world(&mut p, &mut es, &princess);
    assert_eq!(p.lives, 2);
    assert_eq!((p.x, p.y), (2400, 2400));
    assert_eq!(out.state, GameState::Playing);
    p.x = 5000;
    p.y = 5000;
    p.lives = 1;
    es[0] = Sprite::new(5100, 5000, 0, 0, 'g', 64, 64);
    let out2 = update_world(&mut p, &mut es, &princess);
    assert_eq!(p.lives, 0);
    assert_eq!(out2.state, GameState::GameOver);
}

#[test]
fn enemy_next_to_viewer_still_steps() {
    let mut p = viewer(5000, 5000, 0);
    let mut es = vec![Sprite::new(5016, 5000, 0, 0, 'g', 64, 64)];
    let princess = Sprite::new(9000, 9000, 0, 0, 'p', 14, 35);
    update_world(&mut p, &mut es, &princess);
    assert_eq!((es[0].x, es[0].y), (4984, 5000));
}

#[test]
fn reaching_princess_wins() {
    let mut p = viewer(8800, 9000, 0);
    let mut es: Vec<Sprite> = Vec::new();
    let princess = Sprite::new(9000, 9000, 0, 0, 'p', 14, 35);
    let out = update_world(&mut p, &mut es, &princess);
    assert_eq!(out.state, GameState::Win);
    assert_eq!(out.chasers, 0);
}

#[test]
fn start_of_game() {
    let p = start_player();
    assert_eq!((p.x, p.y, p.a, p.fov, p.lives), (2400, 2400, 6000, 6000, 3));
    let es = start_enemies();
    assert_eq!(es.len(), 4);
    assert_eq!((es[3].x, es[3].y, es[3].texture_key), (8000, 6720, 'g'));
    let pr = start_princess();
    assert_eq!((pr.frame_width, pr.frame_height, pr.texture_key), (14, 35, 'p'));
    assert_eq!(centered_left(1300, 400), 450);
    assert_eq!(centered_left(100, 400), -150);
}

#[test]
fn enemies_then_princess_are_drawn_in_order() {
    let m = parse_maze("##########\n#        #\n##########");
    let p = viewer(2400, 2400, 0);
    let e = Sprite::new(6400, 2400, 0, 0, 'g', 64, 64);
    let princess = Sprite::new(6400, 2400, 0, 0, 'p', 64, 64);
    let far = Sprite::new(6400, 2400, 0, 0, 'g', 64, 64);
    let mut tm = TextureManager::new();
    let red = Color::new(200, 0, 0, 255);
    let pink = Color::new(255, 109, 194, 255);
    tm.add(solid('g', 64, 64, red));
    tm.add(solid('p', 64, 64, pink));
    let mut fb = Framebuffer::new(200, 100);
    render_enemies(&mut fb, &m, &p, &tm, &vec![e], &vec![0], &princess, 0, BS);
    // the rescue target, drawn last, covers the enemy at the same place
    assert_eq!(fb.get_pixel(100, 50), pink);
    let mut fb2 = Framebuffer::new(200, 100);
    // a rescue target outside the culling cone leaves the enemy visible
    render_enemies(&mut fb2, &m, &p, &tm, &vec![far], &vec![0], &princess, 9000, BS);
    assert_eq!(fb2.get_pixel(100, 50), red);
}
