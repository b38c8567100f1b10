//! The global laws of the simulation, proved of `spec_step`: bound
//! preservation, bullet monotonicity, collision accounting, wave reset,
//! lives monotonicity and the terminal freeze.

use crate::state::enemy_bullet_ok;
use crate::state::inv;
use crate::state::player_bullet_ok;
use crate::state::Input;
use crate::state::Point;
use crate::state::StateView;
use crate::state::ANCHOR_MAX_X;
use crate::state::ANCHOR_MIN_X;
use crate::state::ANCHOR_START_X;
use crate::state::ANCHOR_START_Y;
use crate::state::BULLET_SPEED;
use crate::state::COLS;
use crate::state::COORD_LIMIT;
use crate::state::GRID;
use crate::state::HEIGHT;
use crate::state::PLAYER_W;
use crate::state::ROWS;
use crate::state::WIDTH;
use crate::step::advance_enemy_bullets_spec;
use crate::step::advance_player_bullets_spec;
use crate::step::alive_count;
use crate::step::all_dead;
use crate::step::bullet_down;
use crate::step::bullet_up;
use crate::step::fire_due;
use crate::step::fired_enemy_bullets;
use crate::step::first_hit_from;
use crate::step::in_box;
use crate::step::invader_corner;
use crate::step::lemma_alive_le_len;
use crate::step::lemma_alive_nonneg;
use crate::step::lemma_alive_update;
use crate::step::lemma_first_hit_from;
use crate::step::lowest_alive_row;
use crate::step::lowest_alive_row_from;
use crate::step::player_hit_count;
use crate::step::resolve_from;
use crate::step::spawn_point;
use crate::step::spec_step;
use crate::step::surviving_enemy_bullets;
use crate::step::swept_anchor;
use vstd::prelude::*;

verus! {

/// Every advanced player bullet comes from an old one, eight higher and
/// still above the top; well-formedness carries over.
pub proof fn lemma_advance_player_bullets_props(bs: Seq<Point>)
    requires
        forall|k: int| 0 <= k < bs.len() ==> player_bullet_ok(#[trigger] bs[k]),
    ensures
        ({
            let a = advance_player_bullets_spec(bs);
            &&& a.len() <= bs.len()
            &&& (forall|q: int| 0 <= q < a.len() ==> player_bullet_ok(#[trigger] a[q]))
            &&& (forall|q: int|
                0 <= q < a.len() ==> exists|m: int|
                    0 <= m < bs.len() && #[trigger] a[q] == bullet_up(bs[m]) && bs[m].y as int
                        - BULLET_SPEED as int > 0)
        }),
    decreases bs.len(),
{
    if bs.len() > 0 {
        lemma_advance_player_bullets_props(bs.drop_last());
        let a = advance_player_bullets_spec(bs);
        let rest = advance_player_bullets_spec(bs.drop_last());
        let b = bs.last();
        assert forall|q: int| 0 <= q < a.len() implies exists|m: int|
            0 <= m < bs.len() && #[trigger] a[q] == bullet_up(bs[m]) && bs[m].y as int
                - BULLET_SPEED as int > 0 by {
            if q < rest.len() {
                let m = choose|m: int|
                    0 <= m < bs.drop_last().len() && rest[q] == bullet_up(bs.drop_last()[m])
                        && bs.drop_last()[m].y as int - BULLET_SPEED as int > 0;
                assert(bs[m] == bs.drop_last()[m]);
            } else {
                assert(a[q] == bullet_up(bs[bs.len() - 1]));
            }
        }
    }
}

/// Every advanced enemy bullet comes from an old one, eight lower and still
/// above the bottom; well-formedness carries over.
pub proof fn lemma_advance_enemy_bullets_props(bs: Seq<Point>)
    requires
        forall|k: int| 0 <= k < bs.len() ==> enemy_bullet_ok(#[trigger] bs[k]),
    ensures
        ({
            let a = advance_enemy_bullets_spec(bs);
            &&& a.len() <= bs.len()
            &&& (forall|q: int| 0 <= q < a.len() ==> enemy_bullet_ok(#[trigger] a[q]))
            &&& (forall|q: int|
                0 <= q < a.len() ==> exists|m: int|
                    0 <= m < bs.len() && #[trigger] a[q] == bullet_down(bs[m]) && bs[m].y as int
                        + (BULLET_SPEED as int) < HEIGHT as int)
        }),
    decreases bs.len(),
{
    if bs.len() > 0 {
        lemma_advance_enemy_bullets_props(bs.drop_last());
        let a = advance_enemy_bullets_spec(bs);
        let rest = advance_enemy_bullets_spec(bs.drop_last());
        assert forall|q: int| 0 <= q < a.len() implies exists|m: int|
            0 <= m < bs.len() && #[trigger] a[q] == bullet_down(bs[m]) && bs[m].y as int
                + (BULLET_SPEED as int) < HEIGHT as int by {
            if q < rest.len() {
                let m = choose|m: int|
                    0 <= m < bs.drop_last().len() && rest[q] == bullet_down(bs.drop_last()[m])
                        && bs.drop_last()[m].y as int + (BULLET_SPEED as int) < HEIGHT as int;
                assert(bs[m] == bs.drop_last()[m]);
            } else {
                assert(a[q] == bullet_down(bs[bs.len() - 1]));
            }
        }
    }
}

/// Collision resolution keeps the grid's size, only ever clears flags, and
/// every surviving bullet is one of the bullets put in.
pub proof fn lemma_resolve_props(
    bs: Seq<Point>,
    k: int,
    grid: Seq<bool>,
    score: int,
    surv: Seq<Point>,
    anchor: Point,
    wave: u32,
)
    requires
        grid.len() == GRID as int,
    ensures
        ({
            let rr = resolve_from(bs, k, grid, score, surv, anchor, wave);
            &&& rr.0.len() == grid.len()
            &&& (forall|n: int| 0 <= n < grid.len() && #[trigger] rr.0[n] ==> grid[n])
            &&& (forall|q: int|
                0 <= q < rr.2.len() ==> surv.contains(#[trigger] rr.2[q]) || exists|m: int|
                    k <= m < bs.len() && rr.2[q] == bs[m])
        }),
    decreases bs.len() - k,
{
    if 0 <= k < bs.len() {
        let rr = resolve_from(bs, k, grid, score, surv, anchor, wave);
        match first_hit_from(grid, anchor, bs[k], 0) {
            Some(n) => {
                lemma_first_hit_from(grid, anchor, bs[k], 0);
                lemma_resolve_props(bs, k + 1, grid.update(n, false), score + (wave as int) * 10, surv, anchor, wave);
                assert forall|q: int|
                    0 <= q < rr.2.len() implies surv.contains(#[trigger] rr.2[q]) || exists|m: int|
                        k <= m < bs.len() && rr.2[q] == bs[m] by {
                    if !surv.contains(rr.2[q]) {
                        let m = choose|m: int| k + 1 <= m < bs.len() && rr.2[q] == bs[m];
                        assert(k <= m < bs.len() && rr.2[q] == bs[m]);
                    }
                }
            },
            None => {
                lemma_resolve_props(bs, k + 1, grid, score, surv.push(bs[k]), anchor, wave);
                assert forall|q: int|
                    0 <= q < rr.2.len() implies surv.contains(#[trigger] rr.2[q]) || exists|m: int|
                        k <= m < bs.len() && rr.2[q] == bs[m] by {
                    if surv.push(bs[k]).contains(rr.2[q]) {
                        let i = choose|i: int| 0 <= i < surv.push(bs[k]).len() && surv.push(bs[k])[i] == rr.2[q];
                        if i < surv.len() {
                            assert(surv[i] == rr.2[q]);
                        } else {
                            assert(rr.2[q] == bs[k]);
                        }
                    }
                }
            },
        }
    }
}

/// Score accounting: resolution trades flags for points one for one — the
/// score plus ten-times-wave per remaining alive enemy is conserved — so the
/// score never drops and rises by at most ten-times-wave per enemy killed.
pub proof fn lemma_resolve_conservation(
    bs: Seq<Point>,
    k: int,
    grid: Seq<bool>,
    score: int,
    surv: Seq<Point>,
    anchor: Point,
    wave: u32,
)
    requires
        grid.len() == GRID as int,
    ensures
        ({
            let rr = resolve_from(bs, k, grid, score, surv, anchor, wave);
            &&& rr.1 + 10 * (wave as int) * alive_count(rr.0) == score + 10 * (wave as int)
                * alive_count(grid)
            &&& rr.1 >= score
        }),
    decreases bs.len() - k,
{
    if 0 <= k < bs.len() {
        match first_hit_from(grid, anchor, bs[k], 0) {
            Some(n) => {
                lemma_first_hit_from(grid, anchor, bs[k], 0);
                lemma_alive_update(grid, n);
                lemma_resolve_conservation(
                    bs,
                    k + 1,
                    grid.update(n, false),
                    score + (wave as int) * 10,
                    surv,
                    anchor,
                    wave,
                );
                assert(10 * (wave as int) * (alive_count(grid) - 1) == 10 * (wave as int)
                    * alive_count(grid) - 10 * (wave as int)) by (nonlinear_arith);
            },
            None => {
                lemma_resolve_conservation(bs, k + 1, grid, score, surv.push(bs[k]), anchor, wave);
            },
        }
    }
}

/// The score never decreases, and one tick raises it by at most ten times
/// the wave counter per enemy on the grid.
pub proof fn lemma_score_monotone(v: StateView, input: Input, r: u8)
    requires
        inv(v),
        v.score as int + 480 * (v.wave as int) <= u64::MAX as int,
    ensures
        v.score <= spec_step(v, input, r).score,
        spec_step(v, input, r).score as int <= v.score as int + 480 * (v.wave as int),
{
    if v.lives != 0 {
        let bullets1 = advance_player_bullets_spec(v.bullets);
        let anchor1 = swept_anchor(v);
        lemma_resolve_conservation(bullets1, 0, v.invaders, v.score as int, Seq::empty(), anchor1, v.wave);
        let rr = resolve_from(bullets1, 0, v.invaders, v.score as int, Seq::empty(), anchor1, v.wave);
        lemma_alive_le_len(rr.0);
        lemma_alive_le_len(v.invaders);
        lemma_alive_nonneg(rr.0);
        lemma_alive_nonneg(v.invaders);
        lemma_resolve_props(bullets1, 0, v.invaders, v.score as int, Seq::empty(), anchor1, v.wave);
        let w = v.wave as int;
        let a0 = alive_count(v.invaders);
        let a1 = alive_count(rr.0);
        assert(10 * w * (a0 - a1) == 10 * w * a0 - 10 * w * a1) by (nonlinear_arith);
        assert(10 * w * (a0 - a1) <= 480 * w) by (nonlinear_arith)
            requires
                a0 - a1 <= 48,
                0 <= w,
        ;
        assert(rr.1 <= v.score as int + 480 * w);
        assert(spec_step(v, input, r).score == rr.1 as u64);
    }
}

/// Hit counts are never negative.
pub proof fn lemma_player_hit_count_nonneg(bs: Seq<Point>, p: Point)
    ensures
        player_hit_count(bs, p) >= 0,
    decreases bs.len(),
{
    if bs.len() > 0 {
        lemma_player_hit_count_nonneg(bs.drop_last(), p);
    }
}

/// Every enemy bullet surviving the player collision is one of those put in.
pub proof fn lemma_surviving_props(bs: Seq<Point>, p: Point)
    ensures
        ({
            let a = surviving_enemy_bullets(bs, p);
            &&& a.len() <= bs.len()
            &&& (forall|q: int|
                0 <= q < a.len() ==> exists|m: int| 0 <= m < bs.len() && #[trigger] a[q] == bs[m])
        }),
    decreases bs.len(),
{
    if bs.len() > 0 {
        lemma_surviving_props(bs.drop_last(), p);
        let a = surviving_enemy_bullets(bs, p);
        let rest = surviving_enemy_bullets(bs.drop_last(), p);
        assert forall|q: int| 0 <= q < a.len() implies exists|m: int|
            0 <= m < bs.len() && #[trigger] a[q] == bs[m] by {
            if q < rest.len() {
                let m = choose|m: int| 0 <= m < bs.drop_last().len() && rest[q] == bs.drop_last()[m];
                assert(bs[m] == bs.drop_last()[m]);
            } else {
                assert(a[q] == bs[bs.len() - 1]);
            }
        }
    }
}

/// A found lowest row is a real row of the column and its cell is alive.
pub proof fn lemma_lowest_row_from(grid: Seq<bool>, col: int, j: int)
    ensures
        match lowest_alive_row_from(grid, col, j) {
            Some(m) => 0 <= m <= j && grid[col * ROWS as int + m],
            None => true,
        },
    decreases j + 1,
{
    if j >= 0 && !grid[col * ROWS as int + j] {
        lemma_lowest_row_from(grid, col, j - 1);
    }
}

/// One tick preserves the run invariant, under the coordinate-ceiling
/// margin and an unsaturated wave counter.
pub proof fn lemma_step_preserves_inv(v: StateView, input: Input, r: u8)
    requires
        inv(v),
        v.anchor.y as int <= COORD_LIMIT as int - 100,
        v.wave < u32::MAX,
    ensures
        inv(spec_step(v, input, r)),
{
    let w = spec_step(v, input, r);
    if v.lives == 0 {
        assert(inv(w));
    } else {
        let bullets1 = advance_player_bullets_spec(v.bullets);
        let ebullets1 = advance_enemy_bullets_spec(v.enemy_bullets);
        let anchor1 = swept_anchor(v);
        let ebullets2 = fired_enemy_bullets(v, anchor1, ebullets1, r);
        lemma_advance_player_bullets_props(v.bullets);
        lemma_advance_enemy_bullets_props(v.enemy_bullets);
        assert(ANCHOR_MIN_X as int <= anchor1.x as int <= ANCHOR_MAX_X as int + 1);
        assert(ANCHOR_START_Y as int <= anchor1.y as int <= COORD_LIMIT as int - 90);
        // a spawned bullet sits under the sweep range and the ceiling
        let col = (r as int) % (COLS as int);
        lemma_lowest_row_from(v.invaders, col, ROWS as int - 1);
        assert(forall|q: int| 0 <= q < ebullets2.len() ==> enemy_bullet_ok(#[trigger] ebullets2[q]));
        // the resolved grid keeps its size; surviving bullets keep their bounds
        lemma_resolve_props(bullets1, 0, v.invaders, v.score as int, Seq::empty(), anchor1, v.wave);
        let rr = resolve_from(bullets1, 0, v.invaders, v.score as int, Seq::empty(), anchor1, v.wave);
        assert forall|q: int| 0 <= q < rr.2.len() implies player_bullet_ok(#[trigger] rr.2[q]) by {
            assert(!Seq::<Point>::empty().contains(rr.2[q]));
        }
        lemma_surviving_props(ebullets2, v.player);
        lemma_player_hit_count_nonneg(ebullets2, v.player);
        assert(forall|q: int|
            0 <= q < w.enemy_bullets.len() ==> enemy_bullet_ok(#[trigger] w.enemy_bullets[q]));
        assert(w.invaders.len() == GRID as int);
        assert(forall|q: int| 0 <= q < w.bullets.len() ==> player_bullet_ok(#[trigger] w.bullets[q]));
        assert(inv(w));
    }
}

/// The player never leaves its clamped band, and the grid anchor never
/// leaves the sweep range.
pub proof fn lemma_player_and_anchor_bounds(v: StateView, input: Input, r: u8)
    requires
        inv(v),
        v.anchor.y as int <= COORD_LIMIT as int - 100,
        v.wave < u32::MAX,
    ensures
        0 <= spec_step(v, input, r).player.x as int <= WIDTH as int - PLAYER_W as int,
        ANCHOR_MIN_X as int <= spec_step(v, input, r).anchor.x as int <= ANCHOR_MAX_X as int + 1,
{
    lemma_step_preserves_inv(v, input, r);
}

/// Every player bullet after an active tick is either freshly fired at the
/// player's position or an old bullet exactly one bullet-speed higher and
/// still above the top of the field: heights strictly decrease until
/// removal, and a removed bullet is never drawn again.
pub proof fn lemma_player_bullets_descend(v: StateView, input: Input, r: u8)
    requires
        inv(v),
        1 <= v.lives,
    ensures
        ({
            let w = spec_step(v, input, r);
            forall|q: int|
                0 <= q < w.bullets.len() ==> 1 <= (#[trigger] w.bullets[q]).y as int
                    && (w.bullets[q] == v.player || exists|m: int|
                    0 <= m < v.bullets.len() && w.bullets[q].x == v.bullets[m].x
                        && w.bullets[q].y as int == v.bullets[m].y as int - BULLET_SPEED as int)
        }),
{
    let w = spec_step(v, input, r);
    let bullets1 = advance_player_bullets_spec(v.bullets);
    let anchor1 = swept_anchor(v);
    lemma_advance_player_bullets_props(v.bullets);
    lemma_resolve_props(bullets1, 0, v.invaders, v.score as int, Seq::empty(), anchor1, v.wave);
    let rr = resolve_from(bullets1, 0, v.invaders, v.score as int, Seq::empty(), anchor1, v.wave);
    assert forall|q: int|
        0 <= q < w.bullets.len() implies 1 <= (#[trigger] w.bullets[q]).y as int && (w.bullets[q]
        == v.player || exists|m: int|
        0 <= m < v.bullets.len() && w.bullets[q].x == v.bullets[m].x && w.bullets[q].y as int
            == v.bullets[m].y as int - BULLET_SPEED as int) by {
        let b = w.bullets[q];
        if input.fire && q == w.bullets.len() - 1 {
            assert(b == v.player);
            assert(1 <= b.y as int);
        } else {
            assert(b == rr.2[q]);
            assert(!Seq::<Point>::empty().contains(b));
            let i = choose|i: int| 0 <= i < bullets1.len() && rr.2[q] == bullets1[i];
            let m = choose|m: int|
                0 <= m < v.bullets.len() && bullets1[i] == bullet_up(v.bullets[m])
                    && v.bullets[m].y as int - BULLET_SPEED as int > 0;
            assert(b.x == v.bullets[m].x && b.y as int == v.bullets[m].y as int - BULLET_SPEED as int);
        }
    }
}

/// Every enemy bullet after an active tick is either the one spawned this
/// tick or an old bullet exactly one bullet-speed lower and still above the
/// bottom of the field: heights strictly increase until removal at the
/// field's height.
pub proof fn lemma_enemy_bullets_ascend(v: StateView, input: Input, r: u8)
    requires
        inv(v),
        1 <= v.lives,
    ensures
        ({
            let w = spec_step(v, input, r);
            let col = (r as int) % (COLS as int);
            forall|q: int|
                0 <= q < w.enemy_bullets.len() ==> (exists|m: int|
                    0 <= m < v.enemy_bullets.len()
                        && (#[trigger] w.enemy_bullets[q]).x == v.enemy_bullets[m].x
                        && w.enemy_bullets[q].y as int == v.enemy_bullets[m].y as int
                        + BULLET_SPEED as int && (w.enemy_bullets[q].y as int) < HEIGHT as int) || (
                fire_due(v.time, v.wave) && lowest_alive_row(v.invaders, col) is Some
                    && w.enemy_bullets[q] == spawn_point(
                    swept_anchor(v),
                    col,
                    lowest_alive_row(v.invaders, col)->Some_0,
                ))
        }),
{
    let w = spec_step(v, input, r);
    let col = (r as int) % (COLS as int);
    let ebullets1 = advance_enemy_bullets_spec(v.enemy_bullets);
    let anchor1 = swept_anchor(v);
    let ebullets2 = fired_enemy_bullets(v, anchor1, ebullets1, r);
    lemma_advance_enemy_bullets_props(v.enemy_bullets);
    lemma_surviving_props(ebullets2, v.player);
    assert forall|q: int|
        0 <= q < w.enemy_bullets.len() implies (exists|m: int|
        0 <= m < v.enemy_bullets.len() && (#[trigger] w.enemy_bullets[q]).x
            == v.enemy_bullets[m].x && w.enemy_bullets[q].y as int == v.enemy_bullets[m].y as int
            + BULLET_SPEED as int && (w.enemy_bullets[q].y as int) < HEIGHT as int) || (fire_due(
        v.time,
        v.wave,
    ) && lowest_alive_row(v.invaders, col) is Some && w.enemy_bullets[q] == spawn_point(
        swept_anchor(v),
        col,
        lowest_alive_row(v.invaders, col)->Some_0,
    )) by {
        let b = w.enemy_bullets[q];
        let i = choose|i: int| 0 <= i < ebullets2.len() && b == ebullets2[i];
        if i < ebullets1.len() {
            assert(b == ebullets1[i]);
            let m = choose|m: int|
                0 <= m < v.enemy_bullets.len() && ebullets1[i] == bullet_down(v.enemy_bullets[m])
                    && v.enemy_bullets[m].y as int + (BULLET_SPEED as int) < HEIGHT as int;
            assert(enemy_bullet_ok(v.enemy_bullets[m]));
            assert(b.x == v.enemy_bullets[m].x && b.y as int == v.enemy_bullets[m].y as int
                + BULLET_SPEED as int);
        } else {
            assert(fire_due(v.time, v.wave) && lowest_alive_row(v.invaders, col) is Some
                && b == spawn_point(swept_anchor(v), col, lowest_alive_row(v.invaders, col)->Some_0));
        }
    }
}

/// A bullet lying inside some alive enemy's box kills exactly one enemy —
/// the first in column-major order — is consumed, and earns exactly ten
/// times the wave counter.
pub proof fn lemma_bullet_hit(grid: Seq<bool>, anchor: Point, b: Point, score: int, wave: u32)
    requires
        grid.len() == GRID as int,
        exists|n: int|
            0 <= n < GRID as int && grid[n] && in_box(#[trigger] invader_corner(anchor, n), b),
    ensures
        ({
            let rr = resolve_from(seq![b], 0, grid, score, Seq::empty(), anchor, wave);
            let hit = first_hit_from(grid, anchor, b, 0);
            &&& hit is Some
            &&& grid[hit->Some_0]
            &&& rr.0 == grid.update(hit->Some_0, false)
            &&& alive_count(rr.0) == alive_count(grid) - 1
            &&& rr.1 == score + (wave as int) * 10
            &&& rr.2.len() == 0
        }),
{
    reveal_with_fuel(resolve_from, 3);
    lemma_first_hit_from(grid, anchor, b, 0);
    let hit = first_hit_from(grid, anchor, b, 0);
    if hit is None {
        let n = choose|n: int|
            0 <= n < GRID as int && grid[n] && in_box(#[trigger] invader_corner(anchor, n), b);
        assert(!(grid[n] && in_box(invader_corner(anchor, n), b)));
    }
    let n = hit->Some_0;
    assert(seq![b][0] == b);
    lemma_alive_update(grid, n);
}

/// Once this tick's collisions leave no flag set — the tick of the last
/// kill — that same tick refills all flags, resets the anchor to its start
/// position, clears the player bullets (but for one fired this tick), and
/// raises the wave counter by exactly one. (The premise on the wave counter
/// is the machine limit the tick itself imposes.)
pub proof fn lemma_wave_clear(v: StateView, input: Input, r: u8)
    requires
        inv(v),
        1 <= v.lives,
        all_dead(
            resolve_from(
                advance_player_bullets_spec(v.bullets),
                0,
                v.invaders,
                v.score as int,
                Seq::empty(),
                swept_anchor(v),
                v.wave,
            ).0,
        ),
        v.wave < u32::MAX,
    ensures
        spec_step(v, input, r).invaders.len() == GRID as int,
        forall|n: int| 0 <= n < GRID as int ==> #[trigger] spec_step(v, input, r).invaders[n],
        spec_step(v, input, r).anchor == (Point { x: ANCHOR_START_X, y: ANCHOR_START_Y }),
        spec_step(v, input, r).wave == v.wave + 1,
        spec_step(v, input, r).bullets == if input.fire {
            seq![v.player]
        } else {
            Seq::<Point>::empty()
        },
{
}

/// Lives never increase.
pub proof fn lemma_lives_monotone(v: StateView, input: Input, r: u8)
    ensures
        spec_step(v, input, r).lives <= v.lives,
{
    if v.lives != 0 {
        let ebullets1 = advance_enemy_bullets_spec(v.enemy_bullets);
        let anchor1 = swept_anchor(v);
        let ebullets2 = fired_enemy_bullets(v, anchor1, ebullets1, r);
        lemma_player_hit_count_nonneg(ebullets2, v.player);
    }
}

/// With no lives left the state is frozen: a tick changes nothing but the
/// terminal-frame flag.
pub proof fn lemma_game_over_freeze(v: StateView, input: Input, r: u8)
    requires
        v.lives == 0,
    ensures
        ({
            let w = spec_step(v, input, r);
            &&& w.player == v.player
            &&& w.bullets == v.bullets
            &&& w.enemy_bullets == v.enemy_bullets
            &&& w.invaders == v.invaders
            &&& w.anchor == v.anchor
            &&& w.velocity == v.velocity
            &&& w.lives == 0
            &&& w.score == v.score
            &&& w.wave == v.wave
            &&& w.time == v.time
            &&& w.finished
        }),
{
}

} // verus!
