//! The per-tick simulation step: entity motion, enemy fire selection,
//! collision resolution, wave progression and difficulty scaling, together
//! with the drawing of every entity group into the frame buffer.
//!
//! `spec_step` is the mathematical tick: `step` is proved to realise it
//! exactly, and the laws module derives the global properties from it.

use crate::render::blank_frame;
use crate::render::clear_buffer;
use crate::render::digits_blit;
use crate::render::draw_enemy_bullets;
use crate::render::draw_game_over;
use crate::render::draw_invaders;
use crate::render::draw_lives;
use crate::render::draw_player_bullets;
use crate::render::draw_score_at;
use crate::render::enemy_bullets_blit;
use crate::render::invaders_blit;
use crate::render::lemma_player_sprite;
use crate::render::lives_blit;
use crate::render::player_bullets_blit;
use crate::render::player_sprite_pixels;
use crate::render::score_digits_spec;
use crate::compositor::blit_spec;
use crate::compositor::insert_drawing;
use crate::drawings::SPRITE_H;
use crate::drawings::SPRITE_W;
use crate::drawings::get_player;
use crate::rng::random_byte;
use crate::state::enemy_bullet_ok;
use crate::state::full_grid;
use crate::state::player_bullet_ok;
use crate::state::Input;
use crate::state::Point;
use crate::state::SimState;
use crate::state::StateView;
use crate::state::ANCHOR_MAX_X;
use crate::state::ANCHOR_MIN_X;
use crate::state::ANCHOR_START_X;
use crate::state::ANCHOR_START_Y;
use crate::state::BULLET_SPEED;
use crate::state::CELL;
use crate::state::COLS;
use crate::state::COORD_LIMIT;
use crate::state::FIRE_INTERVAL;
use crate::state::GRID;
use crate::state::HEIGHT;
use crate::state::HIT_BOX;
use crate::state::PLAYER_SPEED;
use crate::state::PLAYER_W;
use crate::state::ROWS;
use crate::state::ROW_DROP;
use crate::state::WIDTH;
use vstd::prelude::*;

verus! {

/// A point from mathematical coordinates; callers keep them in `i32` range.
pub open spec fn pt(x: int, y: int) -> Point {
    Point { x: x as i32, y: y as i32 }
}

/// A player bullet one tick later: straight up by the bullet speed.
pub open spec fn bullet_up(b: Point) -> Point {
    pt(b.x as int, b.y as int - BULLET_SPEED as int)
}

/// An enemy bullet one tick later: straight down by the bullet speed.
pub open spec fn bullet_down(b: Point) -> Point {
    pt(b.x as int, b.y as int + BULLET_SPEED as int)
}

/// All player bullets advanced, keeping order; those that would leave the
/// top of the field (new y not above zero) are dropped.
pub open spec fn advance_player_bullets_spec(bs: Seq<Point>) -> Seq<Point>
    decreases bs.len(),
{
    if bs.len() == 0 {
        Seq::empty()
    } else {
        let rest = advance_player_bullets_spec(bs.drop_last());
        let b = bs.last();
        if b.y as int - BULLET_SPEED as int > 0 {
            rest.push(bullet_up(b))
        } else {
            rest
        }
    }
}

/// All enemy bullets advanced, keeping order; those that would reach the
/// bottom of the field (new y at or past the field height) are dropped.
pub open spec fn advance_enemy_bullets_spec(bs: Seq<Point>) -> Seq<Point>
    decreases bs.len(),
{
    if bs.len() == 0 {
        Seq::empty()
    } else {
        let rest = advance_enemy_bullets_spec(bs.drop_last());
        let b = bs.last();
        if b.y as int + (BULLET_SPEED as int) < HEIGHT as int {
            rest.push(bullet_down(b))
        } else {
            rest
        }
    }
}

/// The grid anchor's x one tick later, before any reversal: one velocity
/// step, clamped from below at the minimum bound.
pub open spec fn swept_anchor_x(v: StateView) -> int {
    let raw = v.anchor.x as int + v.velocity as int;
    if raw < ANCHOR_MIN_X as int {
        ANCHOR_MIN_X as int
    } else {
        raw
    }
}

/// Whether this tick reverses the sweep: the anchor passed the right bound
/// or sits on the left one.
pub open spec fn sweep_flips(v: StateView) -> bool {
    swept_anchor_x(v) > ANCHOR_MAX_X as int || swept_anchor_x(v) == ANCHOR_MIN_X as int
}

/// The anchor one tick later: swept horizontally, dropped one row step on a
/// reversal.
pub open spec fn swept_anchor(v: StateView) -> Point {
    pt(
        swept_anchor_x(v),
        if sweep_flips(v) {
            v.anchor.y as int + ROW_DROP as int
        } else {
            v.anchor.y as int
        },
    )
}

/// The sweep velocity one tick later: negated on a reversal.
pub open spec fn swept_velocity(v: StateView) -> i32 {
    if sweep_flips(v) {
        (0 - v.velocity as int) as i32
    } else {
        v.velocity
    }
}

/// Ticks between enemy shots: the base interval shrunk by the wave counter,
/// floored at one tick so the division can never degenerate.
pub open spec fn fire_interval_of(wave: u32) -> int {
    if wave >= 1 && FIRE_INTERVAL as int / (wave as int) >= 1 {
        FIRE_INTERVAL as int / (wave as int)
    } else {
        1
    }
}

/// Whether the grid fires this tick.
pub open spec fn fire_due(time: u64, wave: u32) -> bool {
    (time as int) % fire_interval_of(wave) == 0
}

/// The lowest alive row of a column at or above row `j`, scanning upwards
/// from the bottom of the grid.
pub open spec fn lowest_alive_row_from(grid: Seq<bool>, col: int, j: int) -> Option<int>
    decreases j + 1,
{
    if j < 0 {
        None
    } else if grid[col * ROWS as int + j] {
        Some(j)
    } else {
        lowest_alive_row_from(grid, col, j - 1)
    }
}

/// The lowest alive row of a column, if any.
pub open spec fn lowest_alive_row(grid: Seq<bool>, col: int) -> Option<int> {
    lowest_alive_row_from(grid, col, ROWS as int - 1)
}

/// The screen position of grid cell `(col, row)` under the given anchor.
pub open spec fn spawn_point(anchor: Point, col: int, row: int) -> Point {
    pt(anchor.x as int + col * CELL as int, anchor.y as int + row * CELL as int)
}

/// The enemy bullets after this tick's fire selection: when a shot is due,
/// the random byte picks a column, and the lowest alive enemy of that column
/// fires from its screen position; a fully dead column fires nothing.
pub open spec fn fired_enemy_bullets(v: StateView, anchor1: Point, ebs: Seq<Point>, r: u8) -> Seq<Point> {
    if fire_due(v.time, v.wave) {
        let col = (r as int) % (COLS as int);
        match lowest_alive_row(v.invaders, col) {
            Some(row) => ebs.push(spawn_point(anchor1, col, row)),
            None => ebs,
        }
    } else {
        ebs
    }
}

/// Point-in-box: the closed square of hit-box side whose top-left is `corner`.
pub open spec fn in_box(corner: Point, b: Point) -> bool {
    &&& corner.x as int <= b.x as int <= corner.x as int + HIT_BOX as int
    &&& corner.y as int <= b.y as int <= corner.y as int + HIT_BOX as int
}

/// The top-left corner of grid cell `n` (column-major index) under `anchor`.
pub open spec fn invader_corner(anchor: Point, n: int) -> Point {
    pt(
        anchor.x as int + (n / ROWS as int) * CELL as int,
        anchor.y as int + (n % ROWS as int) * CELL as int,
    )
}

/// The first cell at or after `n`, in column-major scan order, that is alive
/// and whose box contains the bullet.
pub open spec fn first_hit_from(grid: Seq<bool>, anchor: Point, b: Point, n: int) -> Option<int>
    decreases GRID as int - n,
{
    if !(0 <= n < GRID as int) {
        None
    } else if grid[n] && in_box(invader_corner(anchor, n), b) {
        Some(n)
    } else {
        first_hit_from(grid, anchor, b, n + 1)
    }
}

/// Player-bullet collision resolution from bullet `k` onwards: each bullet
/// kills the first alive enemy whose box holds it, earning ten times the
/// wave counter, and is consumed; a bullet with no hit survives in order.
pub open spec fn resolve_from(
    bs: Seq<Point>,
    k: int,
    grid: Seq<bool>,
    score: int,
    surv: Seq<Point>,
    anchor: Point,
    wave: u32,
) -> (Seq<bool>, int, Seq<Point>)
    decreases bs.len() - k,
{
    if !(0 <= k < bs.len()) {
        (grid, score, surv)
    } else {
        match first_hit_from(grid, anchor, bs[k], 0) {
            Some(n) => resolve_from(
                bs,
                k + 1,
                grid.update(n, false),
                score + (wave as int) * 10,
                surv,
                anchor,
                wave,
            ),
            None => resolve_from(bs, k + 1, grid, score, surv.push(bs[k]), anchor, wave),
        }
    }
}

/// How many liveness flags are set.
pub open spec fn alive_count(grid: Seq<bool>) -> int
    decreases grid.len(),
{
    if grid.len() == 0 {
        0
    } else {
        alive_count(grid.drop_last()) + if grid.last() {
            1int
        } else {
            0int
        }
    }
}

/// Whether no liveness flag is set.
pub open spec fn all_dead(grid: Seq<bool>) -> bool {
    forall|n: int| 0 <= n < grid.len() ==> !grid[n]
}

/// How many enemy bullets lie inside the player's box.
pub open spec fn player_hit_count(bs: Seq<Point>, p: Point) -> int
    decreases bs.len(),
{
    if bs.len() == 0 {
        0
    } else {
        player_hit_count(bs.drop_last(), p) + if in_box(p, bs.last()) {
            1int
        } else {
            0int
        }
    }
}

/// The enemy bullets that miss the player, in order.
pub open spec fn surviving_enemy_bullets(bs: Seq<Point>, p: Point) -> Seq<Point>
    decreases bs.len(),
{
    if bs.len() == 0 {
        Seq::empty()
    } else {
        let rest = surviving_enemy_bullets(bs.drop_last(), p);
        if in_box(p, bs.last()) {
            rest
        } else {
            rest.push(bs.last())
        }
    }
}

/// The lives left after this tick's enemy-bullet hits; each hit costs one
/// life, and the count floors at zero.
pub open spec fn lives_after(lives: u32, hits: int) -> u32 {
    if hits >= lives as int {
        0u32
    } else {
        (lives as int - hits) as u32
    }
}

/// One whole tick of the simulation, mathematically.
///
/// With no lives left the state freezes (only the terminal-frame flag may
/// rise). Otherwise, in order: player bullets advance and out-of-field ones
/// drop; enemy bullets advance and out-of-field ones drop; the grid sweeps
/// and possibly reverses and descends; a due shot spawns from the random
/// column's lowest alive enemy; player bullets resolve against the grid,
/// scoring ten per kill times the wave counter; enemy bullets resolve
/// against the player, costing lives; a fully cleared grid refills, resets
/// the anchor, clears player bullets and raises the wave counter; fire input
/// spawns a bullet at the player, and held keys move the player, clamped to
/// the field; the tick counter rises.
pub open spec fn spec_step(v: StateView, input: Input, r: u8) -> StateView {
    if v.lives == 0 {
        StateView {
            player: v.player,
            bullets: v.bullets,
            enemy_bullets: v.enemy_bullets,
            invaders: v.invaders,
            anchor: v.anchor,
            velocity: v.velocity,
            lives: v.lives,
            score: v.score,
            wave: v.wave,
            time: v.time,
            finished: true,
        }
    } else {
        let bullets1 = advance_player_bullets_spec(v.bullets);
        let ebullets1 = advance_enemy_bullets_spec(v.enemy_bullets);
        let anchor1 = swept_anchor(v);
        let velocity1 = swept_velocity(v);
        let ebullets2 = fired_enemy_bullets(v, anchor1, ebullets1, r);
        let resolved = resolve_from(bullets1, 0, v.invaders, v.score as int, Seq::empty(), anchor1, v.wave);
        let grid1 = resolved.0;
        let score1 = resolved.1;
        let bullets2 = resolved.2;
        let hits = player_hit_count(ebullets2, v.player);
        let ebullets3 = surviving_enemy_bullets(ebullets2, v.player);
        let lives1 = lives_after(v.lives, hits);
        let cleared = all_dead(grid1);
        let grid2 = if cleared {
            Seq::new(GRID as nat, |n: int| true)
        } else {
            grid1
        };
        let anchor2 = if cleared {
            Point { x: ANCHOR_START_X, y: ANCHOR_START_Y }
        } else {
            anchor1
        };
        let wave1 = if cleared {
            (v.wave as int + 1) as u32
        } else {
            v.wave
        };
        let bullets3 = if cleared {
            Seq::empty()
        } else {
            bullets2
        };
        let bullets4 = if input.fire {
            bullets3.push(v.player)
        } else {
            bullets3
        };
        let px1: i32 = if input.left && v.player.x > 0 {
            if v.player.x as int - PLAYER_SPEED as int >= 0 {
                (v.player.x as int - PLAYER_SPEED as int) as i32
            } else {
                0i32
            }
        } else {
            v.player.x
        };
        let px2: i32 = if input.right && (px1 as int) < WIDTH as int - PLAYER_W as int {
            if px1 as int + PLAYER_SPEED as int <= WIDTH as int - PLAYER_W as int {
                (px1 as int + PLAYER_SPEED as int) as i32
            } else {
                (WIDTH as int - PLAYER_W as int) as i32
            }
        } else {
            px1
        };
        StateView {
            player: Point { x: px2, y: v.player.y },
            bullets: bullets4,
            enemy_bullets: ebullets3,
            invaders: grid2,
            anchor: anchor2,
            velocity: velocity1,
            lives: lives1,
            score: score1 as u64,
            wave: wave1,
            time: (v.time as int + 1) as u64,
            finished: v.finished,
        }
    }
}

/// The frame one active tick draws, composed in layer order onto a blank
/// buffer: the advanced player bullets, the enemy bullets at their
/// pre-advance positions, the player, the alive enemies under the swept
/// anchor, the lives indicator, and the decimal score after this tick's
/// kills at the top-left corner. The newly fired enemy bullet is not in it:
/// fire selection runs after the enemy bullets are drawn.
pub open spec fn frame_of(v: StateView, len: nat) -> Seq<u32> {
    let bullets1 = advance_player_bullets_spec(v.bullets);
    let anchor1 = swept_anchor(v);
    let score1 = resolve_from(bullets1, 0, v.invaders, v.score as int, Seq::empty(), anchor1, v.wave).1;
    let b1 = player_bullets_blit(blank_frame(len), bullets1, 0);
    let b2 = enemy_bullets_blit(b1, v.enemy_bullets, 0);
    let b3 = blit_spec(
        b2,
        player_sprite_pixels(),
        SPRITE_W as int,
        SPRITE_H as int,
        v.player.x as int,
        v.player.y as int,
    );
    let b4 = invaders_blit(b3, v.invaders, anchor1, 0);
    let b5 = lives_blit(b4, v.lives as int, 0);
    digits_blit(b5, score_digits_spec(score1 as u64), 0, 10, 10)
}

/// The flag count never drops below zero.
pub proof fn lemma_alive_nonneg(grid: Seq<bool>)
    ensures
        alive_count(grid) >= 0,
    decreases grid.len(),
{
    if grid.len() > 0 {
        lemma_alive_nonneg(grid.drop_last());
    }
}

/// The flag count never exceeds the grid size.
pub proof fn lemma_alive_le_len(grid: Seq<bool>)
    ensures
        alive_count(grid) <= grid.len(),
    decreases grid.len(),
{
    if grid.len() > 0 {
        lemma_alive_le_len(grid.drop_last());
    }
}

/// Clearing a set flag lowers the flag count by exactly one.
pub proof fn lemma_alive_update(grid: Seq<bool>, n: int)
    requires
        0 <= n < grid.len(),
        grid[n],
    ensures
        alive_count(grid.update(n, false)) == alive_count(grid) - 1,
    decreases grid.len(),
{
    let updated = grid.update(n, false);
    if n == grid.len() - 1 {
        assert(updated.drop_last() =~= grid.drop_last());
    } else {
        assert(updated.drop_last() =~= grid.drop_last().update(n, false));
        lemma_alive_update(grid.drop_last(), n);
    }
}

/// What a found first hit means: the cell is in range, alive, and holds the
/// bullet; when nothing is found, no cell at or after `n` does.
pub proof fn lemma_first_hit_from(grid: Seq<bool>, anchor: Point, b: Point, n: int)
    requires
        0 <= n,
    ensures
        match first_hit_from(grid, anchor, b, n) {
            Some(m) => n <= m < GRID as int && grid[m] && in_box(invader_corner(anchor, m), b)
                && (forall|q: int| n <= q < m ==> !(grid[q] && in_box(#[trigger] invader_corner(anchor, q), b))),
            None => forall|q: int| n <= q < GRID as int ==> !(grid[q] && in_box(#[trigger] invader_corner(anchor, q), b)),
        },
    decreases GRID as int - n,
{
    if 0 <= n < GRID as int {
        if !(grid[n] && in_box(invader_corner(anchor, n), b)) {
            lemma_first_hit_from(grid, anchor, b, n + 1);
        }
    }
}

/// Advances every player bullet one tick, dropping those that leave the top
/// of the field.
fn advance_player_bullets(bullets: &mut Vec<Point>)
    requires
        forall|k: int| 0 <= k < old(bullets)@.len() ==> player_bullet_ok(#[trigger] old(bullets)@[k]),
    ensures
        final(bullets)@ == advance_player_bullets_spec(old(bullets)@),
{
    let mut kept: Vec<Point> = Vec::new();
    let n = bullets.len();
    let mut k: usize = 0;
    while k < n
        invariant
            bullets@ == old(bullets)@,
            n == bullets@.len(),
            k <= n,
            forall|m: int| 0 <= m < bullets@.len() ==> player_bullet_ok(#[trigger] bullets@[m]),
            kept@ == advance_player_bullets_spec(old(bullets)@.take(k as int)),
        decreases n - k,
    {
        let b = bullets[k];
        proof {
            assert(old(bullets)@.take(k as int + 1).drop_last() =~= old(bullets)@.take(k as int));
            assert(old(bullets)@.take(k as int + 1).last() == b);
        }
        if b.y - BULLET_SPEED > 0 {
            kept.push(Point { x: b.x, y: b.y - BULLET_SPEED });
            proof {
                assert(Point { x: b.x, y: (b.y - BULLET_SPEED) as i32 } == bullet_up(b));
            }
        }
        k = k + 1;
    }
    proof {
        assert(old(bullets)@.take(n as int) =~= old(bullets)@);
    }
    *bullets = kept;
}

/// Advances every enemy bullet one tick, dropping those that reach the
/// bottom of the field.
fn advance_enemy_bullets(bullets: &mut Vec<Point>)
    requires
        forall|k: int| 0 <= k < old(bullets)@.len() ==> enemy_bullet_ok(#[trigger] old(bullets)@[k]),
    ensures
        final(bullets)@ == advance_enemy_bullets_spec(old(bullets)@),
{
    let mut kept: Vec<Point> = Vec::new();
    let n = bullets.len();
    let mut k: usize = 0;
    while k < n
        invariant
            bullets@ == old(bullets)@,
            n == bullets@.len(),
            k <= n,
            forall|m: int| 0 <= m < bullets@.len() ==> enemy_bullet_ok(#[trigger] bullets@[m]),
            kept@ == advance_enemy_bullets_spec(old(bullets)@.take(k as int)),
        decreases n - k,
    {
        let b = bullets[k];
        proof {
            assert(old(bullets)@.take(k as int + 1).drop_last() =~= old(bullets)@.take(k as int));
            assert(old(bullets)@.take(k as int + 1).last() == b);
        }
        if b.y + BULLET_SPEED < HEIGHT as i32 {
            kept.push(Point { x: b.x, y: b.y + BULLET_SPEED });
            proof {
                assert(Point { x: b.x, y: (b.y + BULLET_SPEED) as i32 } == bullet_down(b));
            }
        }
        k = k + 1;
    }
    proof {
        assert(old(bullets)@.take(n as int) =~= old(bullets)@);
    }
    *bullets = kept;
}

/// Scans the grid in column-major order for the first alive enemy whose box
/// holds the bullet.
fn scan_hit(grid: &Vec<bool>, anchor: Point, b: Point) -> (r: Option<usize>)
    requires
        grid@.len() == GRID as int,
        ANCHOR_MIN_X as int <= anchor.x as int <= ANCHOR_MAX_X as int + 1,
        ANCHOR_START_Y as int <= anchor.y as int <= COORD_LIMIT as int,
    ensures
        match r {
            Some(n) => n < GRID && first_hit_from(grid@, anchor, b, 0) == Some(n as int),
            None => first_hit_from(grid@, anchor, b, 0) is None,
        },
{
    let mut n: usize = 0;
    while n < GRID
        invariant
            grid@.len() == GRID as int,
            ANCHOR_MIN_X as int <= anchor.x as int <= ANCHOR_MAX_X as int + 1,
            ANCHOR_START_Y as int <= anchor.y as int <= COORD_LIMIT as int,
            n <= GRID,
            first_hit_from(grid@, anchor, b, 0) == first_hit_from(grid@, anchor, b, n as int),
        decreases GRID - n,
    {
        let ex = anchor.x + ((n / ROWS) as i32) * CELL;
        let ey = anchor.y + ((n % ROWS) as i32) * CELL;
        let hit = grid[n] && b.x >= ex && b.x <= ex + HIT_BOX && b.y >= ey && b.y <= ey + HIT_BOX;
        proof {
            assert(invader_corner(anchor, n as int) == Point { x: ex, y: ey });
        }
        if hit {
            return Some(n);
        }
        n = n + 1;
    }
    None
}

/// Resolves every player bullet against the grid: the first alive enemy
/// whose box holds a bullet dies and scores, and the bullet is consumed;
/// bullets with no hit survive in order. Exactly `resolve_from`.
fn resolve_collisions(
    bullets: &mut Vec<Point>,
    grid: &mut Vec<bool>,
    anchor: Point,
    wave: u32,
    score: &mut u64,
)
    requires
        old(grid)@.len() == GRID as int,
        ANCHOR_MIN_X as int <= anchor.x as int <= ANCHOR_MAX_X as int + 1,
        ANCHOR_START_Y as int <= anchor.y as int <= COORD_LIMIT as int,
        1 <= wave,
        (*old(score)) as int + 10 * (wave as int) * alive_count(old(grid)@) <= u64::MAX as int,
    ensures
        final(grid)@ == resolve_from(
            old(bullets)@, 0, old(grid)@, (*old(score)) as int, Seq::empty(), anchor, wave).0,
        (*final(score)) as int == resolve_from(
            old(bullets)@, 0, old(grid)@, (*old(score)) as int, Seq::empty(), anchor, wave).1,
        final(bullets)@ == resolve_from(
            old(bullets)@, 0, old(grid)@, (*old(score)) as int, Seq::empty(), anchor, wave).2,
        final(grid)@.len() == GRID as int,
{
    let ghost target = resolve_from(
        old(bullets)@, 0, old(grid)@, (*old(score)) as int, Seq::empty(), anchor, wave);
    let ghost grid0 = grid@;
    let ghost score0 = *score;
    let mut kept: Vec<Point> = Vec::new();
    let n = bullets.len();
    let mut k: usize = 0;
    proof {
        lemma_alive_nonneg(grid@);
    }
    while k < n
        invariant
            bullets@ == old(bullets)@,
            n == bullets@.len(),
            k <= n,
            grid@.len() == GRID as int,
            1 <= wave,
            0 <= alive_count(grid@),
            *score as int + 10 * (wave as int) * alive_count(grid@)
                == score0 as int + 10 * (wave as int) * alive_count(grid0),
            score0 as int + 10 * (wave as int) * alive_count(grid0) <= u64::MAX as int,
            resolve_from(bullets@, k as int, grid@, *score as int, kept@, anchor, wave) == target,
            ANCHOR_MIN_X as int <= anchor.x as int <= ANCHOR_MAX_X as int + 1,
            ANCHOR_START_Y as int <= anchor.y as int <= COORD_LIMIT as int,
        decreases n - k,
    {
        let b = bullets[k];
        let found = scan_hit(grid, anchor, b);
        match found {
            Some(cell) => {
                proof {
                    lemma_first_hit_from(grid@, anchor, b, 0);
                    lemma_alive_update(grid@, cell as int);
                    lemma_alive_nonneg(grid@.update(cell as int, false));
                    assert(10 * (wave as int) * (alive_count(grid@) - 1)
                        == 10 * (wave as int) * alive_count(grid@) - 10 * (wave as int))
                        by (nonlinear_arith);
                }
                grid[cell] = false;
                *score = *score + (wave as u64) * 10;
            },
            None => {
                kept.push(b);
            },
        }
        k = k + 1;
    }
    *bullets = kept;
}

/// Resolves every enemy bullet against the player's box: each hit costs one
/// life (never below zero) and consumes the bullet; the rest survive in
/// order.
fn resolve_player_hits(bullets: &mut Vec<Point>, player: Point, lives: &mut u32)
    requires
        0 <= player.x as int <= WIDTH as int - PLAYER_W as int,
        player.y as int <= COORD_LIMIT as int,
    ensures
        final(bullets)@ == surviving_enemy_bullets(old(bullets)@, player),
        *final(lives) == lives_after(*old(lives), player_hit_count(old(bullets)@, player)),
{
    let mut kept: Vec<Point> = Vec::new();
    let n = bullets.len();
    let mut k: usize = 0;
    while k < n
        invariant
            bullets@ == old(bullets)@,
            n == bullets@.len(),
            k <= n,
            0 <= player.x as int <= WIDTH as int - PLAYER_W as int,
            player.y as int <= COORD_LIMIT as int,
            kept@ == surviving_enemy_bullets(old(bullets)@.take(k as int), player),
            *lives == lives_after(*old(lives), player_hit_count(old(bullets)@.take(k as int), player)),
            0 <= player_hit_count(old(bullets)@.take(k as int), player),
        decreases n - k,
    {
        let b = bullets[k];
        proof {
            assert(old(bullets)@.take(k as int + 1).drop_last() =~= old(bullets)@.take(k as int));
            assert(old(bullets)@.take(k as int + 1).last() == b);
            crate::laws::lemma_player_hit_count_nonneg(old(bullets)@.take(k as int + 1), player);
        }
        let hit = b.x >= player.x && b.x <= player.x + HIT_BOX && b.y >= player.y && b.y
            <= player.y + HIT_BOX;
        if hit {
            if *lives > 0 {
                *lives = *lives - 1;
            }
        } else {
            kept.push(b);
        }
        k = k + 1;
    }
    proof {
        assert(old(bullets)@.take(n as int) =~= old(bullets)@);
    }
    *bullets = kept;
}

/// Whether every liveness flag of the grid is clear.
fn grid_all_dead(grid: &Vec<bool>) -> (r: bool)
    ensures
        r == all_dead(grid@),
{
    let n = grid.len();
    let mut k: usize = 0;
    while k < n
        invariant
            n == grid@.len(),
            k <= n,
            forall|m: int| 0 <= m < k as int ==> !grid@[m],
        decreases n - k,
    {
        if grid[k] {
            return false;
        }
        k = k + 1;
    }
    true
}

/// One tick of the game, deterministically: `rand_byte` stands for the drawn
/// random byte that picks the firing column. Advances the whole entity
/// state exactly as `spec_step` says and draws the frame into `buffer`
/// (entities at their layered positions while lives remain; the centred
/// final score once they are gone).
pub fn step(state: &mut SimState, buffer: &mut Vec<u32>, input: Input, rand_byte: u8)
    requires
        old(state).wf(),
        old(buffer)@.len() == WIDTH * HEIGHT,
        old(state).time < u64::MAX,
        old(state).wave < u32::MAX,
        old(state).score as int + 480 * (old(state).wave as int) <= u64::MAX as int,
        old(state).anchor.y as int <= COORD_LIMIT as int - 100,
    ensures
        final(state)@ == spec_step(old(state)@, input, rand_byte),
        final(state).wf(),
        final(buffer)@.len() == old(buffer)@.len(),
        old(state).lives != 0 ==> final(buffer)@ == frame_of(old(state)@, old(buffer)@.len()),
        old(state).lives == 0 && !old(state).finished ==> final(buffer)@
            == crate::render::game_over_frame(old(state).score, old(buffer)@.len()),
        old(state).lives == 0 && old(state).finished ==> final(buffer)@ == old(buffer)@,
{
    let ghost v0 = old(state)@;
    let ghost len0 = old(buffer)@.len();
    proof {
        crate::laws::lemma_step_preserves_inv(v0, input, rand_byte);
    }
    if state.lives == 0 {
        if !state.finished {
            draw_game_over(buffer, state.score);
            state.finished = true;
        }
        proof {
            assert(state@ =~= spec_step(v0, input, rand_byte));
        }
        return;
    }
    clear_buffer(buffer);
    proof {
        assert(buffer@ =~= blank_frame(len0));
    }

    advance_player_bullets(&mut state.bullets);
    let ghost bullets1 = state.bullets@;
    proof {
        crate::laws::lemma_advance_player_bullets_props(v0.bullets);
    }
    draw_player_bullets(buffer, &state.bullets);
    let ghost frame1 = buffer@;
    proof {
        assert(frame1 == player_bullets_blit(blank_frame(len0), bullets1, 0));
    }

    draw_enemy_bullets(buffer, &state.enemy_bullets);
    let ghost frame2 = buffer@;
    proof {
        assert(frame2 == enemy_bullets_blit(frame1, v0.enemy_bullets, 0));
    }
    advance_enemy_bullets(&mut state.enemy_bullets);
    let ghost ebullets1 = state.enemy_bullets@;
    proof {
        crate::laws::lemma_advance_enemy_bullets_props(v0.enemy_bullets);
    }

    let player_sprite = get_player();
    proof {
        lemma_player_sprite(player_sprite);
    }
    insert_drawing(buffer, state.player.x as usize, state.player.y as usize, &player_sprite);
    let ghost frame3 = buffer@;
    proof {
        assert(frame3 == blit_spec(
            frame2,
            player_sprite_pixels(),
            SPRITE_W as int,
            SPRITE_H as int,
            v0.player.x as int,
            v0.player.y as int,
        ));
    }

    // sweep the grid anchor, reversing and descending at the bounds
    let raw = state.anchor.x + state.velocity;
    let nx = if raw < ANCHOR_MIN_X {
        ANCHOR_MIN_X
    } else {
        raw
    };
    if nx > ANCHOR_MAX_X || nx == ANCHOR_MIN_X {
        state.velocity = -state.velocity;
        state.anchor.y = state.anchor.y + ROW_DROP;
    }
    state.anchor.x = nx;
    let ghost anchor1 = state.anchor;
    let ghost velocity1 = state.velocity;
    proof {
        assert(anchor1 == swept_anchor(v0));
        assert(velocity1 == swept_velocity(v0));
    }

    // enemy fire selection
    let shrunk = FIRE_INTERVAL / state.wave;
    let interval: u32 = if shrunk == 0 {
        1
    } else {
        shrunk
    };
    proof {
        assert(interval as int == fire_interval_of(v0.wave));
    }
    if state.time % (interval as u64) == 0 {
        let col = (rand_byte % 12) as usize;
        let base = col * ROWS;
        proof {
            assert(col as int == (rand_byte as int) % (COLS as int));
            assert(base as int == col as int * ROWS as int);
        }
        let row_opt: Option<usize> = if state.invaders[base + 3] {
            Some(3)
        } else if state.invaders[base + 2] {
            Some(2)
        } else if state.invaders[base + 1] {
            Some(1)
        } else if state.invaders[base] {
            Some(0)
        } else {
            None
        };
        proof {
            reveal_with_fuel(lowest_alive_row_from, 5);
            assert(lowest_alive_row_from(v0.invaders, col as int, -1) is None);
            assert(match row_opt {
                Some(j) => lowest_alive_row(v0.invaders, col as int) == Some(j as int),
                None => lowest_alive_row(v0.invaders, col as int) is None,
            });
        }
        match row_opt {
            Some(row) => {
                let sp = Point {
                    x: state.anchor.x + (col as i32) * CELL,
                    y: state.anchor.y + (row as i32) * CELL,
                };
                proof {
                    assert(sp == spawn_point(anchor1, col as int, row as int));
                }
                state.enemy_bullets.push(sp);
            },
            None => {},
        }
    }
    let ghost ebullets2 = state.enemy_bullets@;
    proof {
        assert(ebullets2 == fired_enemy_bullets(v0, anchor1, ebullets1, rand_byte));
    }

    draw_invaders(buffer, &state.invaders, state.anchor);
    let ghost frame4 = buffer@;
    proof {
        assert(frame4 == invaders_blit(frame3, v0.invaders, anchor1, 0));
    }

    // player bullets against the grid
    proof {
        lemma_alive_le_len(state.invaders@);
        lemma_alive_nonneg(state.invaders@);
        assert(10 * (v0.wave as int) * alive_count(state.invaders@) <= 480 * (v0.wave as int))
            by (nonlinear_arith)
            requires
                0 <= alive_count(state.invaders@) <= 48,
                1 <= v0.wave as int,
        ;
    }
    resolve_collisions(&mut state.bullets, &mut state.invaders, state.anchor, state.wave, &mut state.score);
    let ghost resolved = resolve_from(bullets1, 0, v0.invaders, v0.score as int, Seq::empty(), anchor1, v0.wave);
    proof {
        assert(state.invaders@ == resolved.0);
        assert(state.score as int == resolved.1);
        assert(state.bullets@ == resolved.2);
    }

    draw_lives(buffer, state.lives);
    let ghost frame5 = buffer@;
    proof {
        assert(frame5 == lives_blit(frame4, v0.lives as int, 0));
    }
    draw_score_at(buffer, state.score, 10, 10);
    proof {
        assert(state.score == resolved.1 as u64);
        assert(buffer@ == digits_blit(frame5, score_digits_spec(resolved.1 as u64), 0, 10, 10));
        assert(buffer@ == frame_of(v0, len0));
    }

    // enemy bullets against the player
    resolve_player_hits(&mut state.enemy_bullets, state.player, &mut state.lives);

    // wave clear: refill the grid, reset the anchor, start the next wave
    if grid_all_dead(&state.invaders) {
        state.invaders = full_grid();
        state.anchor = Point { x: ANCHOR_START_X, y: ANCHOR_START_Y };
        state.bullets = Vec::new();
        state.wave = state.wave + 1;
        proof {
            assert(state.invaders@ =~= Seq::new(GRID as nat, |n: int| true));
        }
    }

    // input: fire, then move with clamping
    if input.fire {
        state.bullets.push(state.player);
    }
    if input.left && state.player.x > 0 {
        let moved = state.player.x - PLAYER_SPEED;
        state.player.x = if moved < 0 {
            0
        } else {
            moved
        };
    }
    if input.right && state.player.x < WIDTH as i32 - PLAYER_W {
        let moved = state.player.x + PLAYER_SPEED;
        state.player.x = if moved > WIDTH as i32 - PLAYER_W {
            WIDTH as i32 - PLAYER_W
        } else {
            moved
        };
    }

    state.time = state.time + 1;
    proof {
        assert(state@ =~= spec_step(v0, input, rand_byte));
    }
}

/// One tick with the random byte drawn from the thread-local generator: the
/// resulting state is `spec_step` of the old one under some byte.
pub fn step_with_random(state: &mut SimState, buffer: &mut Vec<u32>, input: Input)
    requires
        old(state).wf(),
        old(buffer)@.len() == WIDTH * HEIGHT,
        old(state).time < u64::MAX,
        old(state).wave < u32::MAX,
        old(state).score as int + 480 * (old(state).wave as int) <= u64::MAX as int,
        old(state).anchor.y as int <= COORD_LIMIT as int - 100,
    ensures
        exists|r: u8| final(state)@ == spec_step(old(state)@, input, r),
        final(state).wf(),
        final(buffer)@.len() == old(buffer)@.len(),
        old(state).lives != 0 ==> final(buffer)@ == frame_of(old(state)@, old(buffer)@.len()),
        old(state).lives == 0 && !old(state).finished ==> final(buffer)@
            == crate::render::game_over_frame(old(state).score, old(buffer)@.len()),
        old(state).lives == 0 && old(state).finished ==> final(buffer)@ == old(buffer)@,
{
    let r = random_byte();
    step(state, buffer, input, r);
}

} // verus!
