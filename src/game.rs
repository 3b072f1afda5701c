use vstd::prelude::*;

use crate::player::{player_ok, Player, POS_LIMIT};
use crate::sprites::{distance_to, lemma_root_bound, sprite_distance, sprite_ok, Sprite, SPRITE_LIMIT};

verus! {

/// Where the viewer starts, and returns to after being caught.
pub const START_X: i64 = 2400;

pub const START_Y: i64 = 2400;

/// Enemies nearer than this chase the viewer.
pub const CHASE_RADIUS: u64 = 3200;

/// An enemy or the rescue target nearer than this touches the viewer.
pub const CATCH_RADIUS: u64 = 480;

/// How far a chasing enemy moves per frame.
pub const CHASE_SPEED: i64 = 32;

/// The screens of the game.
#[derive(Clone, Copy, Debug, PartialEq, Eq, Structural)]
pub enum GameState {
    MainMenu,
    Playing,
    Win,
    GameOver,
}

/// What a frame of play decided besides the new positions: the next state and
/// how many enemies chased the viewer (each plays a sound).
#[derive(Clone, Copy, Debug, PartialEq, Eq, Structural)]
pub struct FrameOutcome {
    pub state: GameState,
    pub chasers: u32,
}

/// `v * CHASE_SPEED / d`, rounded toward zero.
pub open spec fn chase_offset(v: int, d: int) -> int {
    if v < 0 { -((-v) * CHASE_SPEED / d) } else { v * CHASE_SPEED / d }
}

/// Whether the enemy chases the viewer this frame.
pub open spec fn chases(p: Player, e: Sprite) -> bool {
    sprite_distance(p, e) < CHASE_RADIUS
}

/// The enemy after a frame: a chasing enemy not on the viewer steps
/// `CHASE_SPEED` toward it, scaled by the distance along each axis.
pub open spec fn enemy_after(p: Player, e: Sprite) -> Sprite {
    let d = sprite_distance(p, e);
    if chases(p, e) && d > 0 {
        Sprite { x: (e.x + chase_offset(p.x - e.x, d)) as i64, y: (e.y + chase_offset(p.y - e.y, d)) as i64, ..e }
    } else {
        e
    }
}

/// Whether the enemy catches the viewer this frame.
pub open spec fn catches(p: Player, e: Sprite) -> bool {
    sprite_distance(p, e) < CATCH_RADIUS
}

/// The viewer after meeting an enemy: a caught viewer loses a life and
/// returns to the start.
pub open spec fn player_after(p: Player, e: Sprite) -> Player {
    if catches(p, e) {
        Player { x: START_X, y: START_Y, lives: if p.lives > 0 { (p.lives - 1) as u32 } else { 0 }, ..p }
    } else {
        p
    }
}

/// The viewer, the first `i` enemies, whether any caught the viewer, and the
/// number that chased, after the first `i` enemies have had their turn.
pub open spec fn chase_all(p: Player, es: Seq<Sprite>, i: int) -> (Player, Seq<Sprite>, bool, nat)
    decreases i,
{
    if i <= 0 {
        (p, seq![], false, 0)
    } else {
        let prev = chase_all(p, es, i - 1);
        let q = prev.0;
        let e = es[i - 1];
        (
            player_after(q, e),
            prev.1.push(enemy_after(q, e)),
            prev.2 || catches(q, e),
            prev.3 + if chases(q, e) { 1nat } else { 0nat },
        )
    }
}

/// The state after a frame of play: touching the rescue target wins; else a
/// catch that leaves no lives loses.
pub open spec fn state_after(p: Player, caught: bool, princess: Sprite) -> GameState {
    if sprite_distance(p, princess) < CATCH_RADIUS {
        GameState::Win
    } else if caught && p.lives == 0 {
        GameState::GameOver
    } else {
        GameState::Playing
    }
}

/// The viewer at the start of a game: at the start point, facing a sixth of a
/// turn from the x axis, with a sixth of a turn of view and three lives.
pub fn start_player() -> (p: Player)
    ensures
        p == (Player { x: START_X, y: START_Y, a: 6000, fov: 6000, lives: 3 }),
        player_ok(p),
{
    Player { x: START_X, y: START_Y, a: 6000, fov: 6000, lives: 3 }
}

/// The enemies at the start of a game.
pub fn start_enemies() -> (es: Vec<Sprite>)
    ensures
        es@ == seq![
            Sprite::new_spec(17440, 2640, 'g', 64, 64),
            Sprite::new_spec(2880, 11040, 'g', 64, 64),
            Sprite::new_spec(17120, 9440, 'g', 64, 64),
            Sprite::new_spec(8000, 6720, 'g', 64, 64),
        ],
        forall|i: int| 0 <= i < es@.len() ==> sprite_ok(#[trigger] es@[i]),
{
    let mut es: Vec<Sprite> = Vec::new();
    es.push(Sprite::new(17440, 2640, 0, 0, 'g', 64, 64));
    es.push(Sprite::new(2880, 11040, 0, 0, 'g', 64, 64));
    es.push(Sprite::new(17120, 9440, 0, 0, 'g', 64, 64));
    es.push(Sprite::new(8000, 6720, 0, 0, 'g', 64, 64));
    assert(es@ =~= seq![
        Sprite::new_spec(17440, 2640, 'g', 64, 64),
        Sprite::new_spec(2880, 11040, 'g', 64, 64),
        Sprite::new_spec(17120, 9440, 'g', 64, 64),
        Sprite::new_spec(8000, 6720, 'g', 64, 64),
    ]);
    es
}

/// The rescue target at the start of a game.
pub fn start_princess() -> (s: Sprite)
    ensures
        s == Sprite::new_spec(8000, 8000, 'p', 14, 35),
        sprite_ok(s),
{
    Sprite::new(8000, 8000, 0, 0, 'p', 14, 35)
}

/// The left edge that centers an item `item_width` wide on a screen
/// `screen_width` wide.
pub fn centered_left(screen_width: u32, item_width: u32) -> (x: i64)
    ensures
        x == screen_width / 2 - item_width / 2,
{
    (screen_width / 2) as i64 - (item_width / 2) as i64
}

/// Moves one coordinate of an enemy `CHASE_SPEED` toward the viewer.
fn chase_coordinate(e: i64, p: i64, d: u64) -> (r: i64)
    requires
        -SPRITE_LIMIT <= e <= SPRITE_LIMIT,
        -POS_LIMIT <= p <= POS_LIMIT,
        0 < d <= CHASE_RADIUS,
        -d <= p - e <= d,
    ensures
        r == e + chase_offset(p - e, d as int),
        -SPRITE_LIMIT <= r <= SPRITE_LIMIT,
{
    let v: i64 = p - e;
    let m: i64 = if v < 0 { -v } else { v };
    if d > CHASE_SPEED as u64 {
        assert(m * CHASE_SPEED / (d as int) <= m) by (nonlinear_arith)
            requires
                m >= 0,
                d > CHASE_SPEED,
        ;
    } else {
        assert(m * CHASE_SPEED / (d as int) <= CHASE_SPEED) by (nonlinear_arith)
            requires
                0 <= m <= d,
                d > 0,
        ;
    }
    assert(m * CHASE_SPEED / (d as int) >= 0) by (nonlinear_arith)
        requires
            m >= 0,
            d > 0,
    ;
    let step: i64 = m * CHASE_SPEED / d as i64;
    if v < 0 {
        e - step
    } else {
        e + step
    }
}

/// Plays one frame: each enemy in turn chases the viewer and may catch it,
/// then the rescue target is checked.
pub fn update_world(player: &mut Player, enemies: &mut Vec<Sprite>, princess: &Sprite) -> (r: FrameOutcome)
    requires
        player_ok(*old(player)),
        forall|i: int| 0 <= i < old(enemies)@.len() ==> sprite_ok(#[trigger] old(enemies)@[i]),
        sprite_ok(*princess),
        old(enemies)@.len() <= u32::MAX,
    ensures
        ({
            let res = chase_all(*old(player), old(enemies)@, old(enemies)@.len() as int);
            &&& *final(player) == res.0
            &&& final(enemies)@ == res.1
            &&& r.chasers == res.3
            &&& r.state == state_after(res.0, res.2, *princess)
        }),
        player_ok(*final(player)),
        forall|i: int| 0 <= i < final(enemies)@.len() ==> sprite_ok(#[trigger] final(enemies)@[i]),
{
    let ghost p0 = *player;
    let ghost es = enemies@;
    let n = enemies.len();
    let mut out: Vec<Sprite> = Vec::new();
    let mut caught = false;
    let mut chasers: u32 = 0;
    let mut i: usize = 0;
    while i < n
        invariant
            i <= n == es.len() <= u32::MAX,
            es == enemies@,
            player_ok(*player),
            forall|j: int| 0 <= j < es.len() ==> sprite_ok(#[trigger] es[j]),
            forall|j: int| 0 <= j < out@.len() ==> sprite_ok(#[trigger] out@[j]),
            chase_all(p0, es, i as int) == (*player, out@, caught, chasers as nat),
            chasers <= i,
            sprite_ok(*princess),
        decreases n - i,
    {
        let mut e = enemies[i];
        let q = *player;
        let d = distance_to(player, &e);
        if d < CHASE_RADIUS {
            chasers = chasers + 1;
            if d > 0 {
                proof {
                    let n = (e.x - player.x) * (e.x - player.x) + (e.y - player.y) * (e.y - player.y);
                    assert((player.x - e.x) * (player.x - e.x) <= n && (player.y - e.y) * (player.y - e.y) <= n)
                        by (nonlinear_arith)
                        requires
                            n == (e.x - player.x) * (e.x - player.x) + (e.y - player.y) * (e.y - player.y),
                    ;
                    lemma_root_bound(player.x - e.x, d as int, n);
                    lemma_root_bound(player.y - e.y, d as int, n);
                }
                e.x = chase_coordinate(e.x, player.x, d);
                e.y = chase_coordinate(e.y, player.y, d);
            }
        }
        if d < CATCH_RADIUS {
            caught = true;
            player.x = START_X;
            player.y = START_Y;
            if player.lives > 0 {
                player.lives = player.lives - 1;
            }
        }
        assert(e == enemy_after(q, es[i as int]));
        out.push(e);
        i = i + 1;
    }
    *enemies = out;
    let state = if distance_to(player, princess) < CATCH_RADIUS {
        GameState::Win
    } else if caught && player.lives == 0 {
        GameState::GameOver
    } else {
        GameState::Playing
    };
    FrameOutcome { state, chasers }
}

} // verus!
