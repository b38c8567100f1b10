//! The entity state of one run: player, bullets, enemy grid and counters,
//! together with the well-formedness invariant that every tick preserves.

use vstd::prelude::*;

verus! {

/// Width of the playing field, in pixels; also the row stride of the buffer.
pub const WIDTH: usize = 480;
/// Height of the playing field, in pixels.
pub const HEIGHT: usize = 450;
/// Columns of the enemy grid.
pub const COLS: usize = 12;
/// Rows of the enemy grid.
pub const ROWS: usize = 4;
/// Total cells of the enemy grid.
pub const GRID: usize = 48;
/// Spacing between neighbouring enemies, both directions.
pub const CELL: i32 = 30;
/// Width of the player sprite; also the side of every hit box.
pub const PLAYER_W: i32 = 24;
/// Height of the player sprite.
pub const PLAYER_H: i32 = 16;
/// The fixed vertical position of the player.
pub const PLAYER_Y: i32 = 400;
/// Horizontal pixels the player moves per held key per tick.
pub const PLAYER_SPEED: i32 = 4;
/// Vertical pixels every bullet moves per tick.
pub const BULLET_SPEED: i32 = 8;
/// Side of the axis-aligned hit box of the player and of each enemy.
pub const HIT_BOX: i32 = 24;
/// Lowest value the grid anchor's x may take.
pub const ANCHOR_MIN_X: i32 = 10;
/// Largest anchor x at which the grid still fits; crossing it flips the sweep.
pub const ANCHOR_MAX_X: i32 = 120;
/// Anchor position at the start of a run and after each wave clear.
pub const ANCHOR_START_X: i32 = 30;
/// Anchor position at the start of a run and after each wave clear.
pub const ANCHOR_START_Y: i32 = 30;
/// Pixels the grid drops each time the sweep reverses.
pub const ROW_DROP: i32 = 10;
/// Lives at the start of a run.
pub const START_LIVES: u32 = 3;
/// Base tick interval between enemy shots; divided by the wave counter.
pub const FIRE_INTERVAL: u32 = 60;
/// A generous ceiling on coordinates, far beyond the field, under which
/// all coordinate arithmetic of one tick stays inside `i32`.
pub const COORD_LIMIT: i32 = 1000000000;

/// A pixel position. Signed so that sweep arithmetic needs no wrap-around care.
#[derive(Clone, Copy, PartialEq, Eq, Structural, Debug)]
pub struct Point {
    pub x: i32,
    pub y: i32,
}

/// The key state of one tick: an edge-triggered fire press and two held keys.
#[derive(Clone, Copy, PartialEq, Eq, Structural, Debug)]
pub struct Input {
    pub fire: bool,
    pub left: bool,
    pub right: bool,
}

/// The whole mutable state of a run.
///
/// `invaders` is the enemy grid in column-major order: cell `col * ROWS + row`
/// is alive while its flag is true. The grid itself never moves cell by cell;
/// every screen position derives from `anchor` plus fixed offsets.
pub struct SimState {
    pub player: Point,
    pub bullets: Vec<Point>,
    pub enemy_bullets: Vec<Point>,
    pub invaders: Vec<bool>,
    pub anchor: Point,
    pub velocity: i32,
    pub lives: u32,
    pub score: u64,
    pub wave: u32,
    pub time: u64,
    pub finished: bool,
}

/// The mathematical image of a `SimState`: the same fields with the
/// collections abstracted to sequences.
#[verifier::ext_equal]
pub struct StateView {
    pub player: Point,
    pub bullets: Seq<Point>,
    pub enemy_bullets: Seq<Point>,
    pub invaders: Seq<bool>,
    pub anchor: Point,
    pub velocity: i32,
    pub lives: u32,
    pub score: u64,
    pub wave: u32,
    pub time: u64,
    pub finished: bool,
}

impl View for SimState {
    type V = StateView;

    open spec fn view(&self) -> StateView {
        StateView {
            player: self.player,
            bullets: self.bullets@,
            enemy_bullets: self.enemy_bullets@,
            invaders: self.invaders@,
            anchor: self.anchor,
            velocity: self.velocity,
            lives: self.lives,
            score: self.score,
            wave: self.wave,
            time: self.time,
            finished: self.finished,
        }
    }
}

/// What always holds of a live player bullet: it was fired from a clamped
/// player position and has not yet left the top of the field.
pub open spec fn player_bullet_ok(b: Point) -> bool {
    &&& 0 <= b.x as int <= WIDTH as int - PLAYER_W as int
    &&& 1 <= b.y as int <= PLAYER_Y as int
}

/// What always holds of a live enemy bullet: it was fired from a grid cell,
/// so its x lies under the grid's sweep range, and its y is bounded by the
/// coordinate ceiling.
pub open spec fn enemy_bullet_ok(b: Point) -> bool {
    &&& ANCHOR_MIN_X as int <= b.x as int <= ANCHOR_MAX_X as int + 1 + (COLS as int - 1) * CELL as int
    &&& ANCHOR_START_Y as int <= b.y as int <= COORD_LIMIT as int
}

/// The run invariant. Established by `SimState::new` and preserved by every
/// tick (given the coordinate-ceiling margin the tick requires).
pub open spec fn inv(v: StateView) -> bool {
    &&& 0 <= v.player.x as int <= WIDTH as int - PLAYER_W as int
    &&& v.player.y == PLAYER_Y
    &&& v.invaders.len() == GRID as int
    &&& ANCHOR_MIN_X as int <= v.anchor.x as int <= ANCHOR_MAX_X as int + 1
    &&& (v.anchor.x as int == ANCHOR_MAX_X as int + 1 ==> v.velocity as int == -1)
    &&& (v.anchor.x == ANCHOR_MIN_X ==> v.velocity as int == 1)
    &&& (v.velocity as int == 1 || v.velocity as int == -1)
    &&& ANCHOR_START_Y as int <= v.anchor.y as int
    &&& v.lives <= START_LIVES
    &&& 1 <= v.wave
    &&& (forall|k: int| 0 <= k < v.bullets.len() ==> player_bullet_ok(#[trigger] v.bullets[k]))
    &&& (forall|k: int| 0 <= k < v.enemy_bullets.len() ==> enemy_bullet_ok(#[trigger] v.enemy_bullets[k]))
}

impl SimState {
    pub open spec fn wf(&self) -> bool {
        inv(self@)
    }

    /// The start state of a run: full grid, anchor at its start position,
    /// player centred on its fixed row, three lives, first wave.
    pub fn new() -> (s: SimState)
        ensures
            s.wf(),
            s@.player == (Point { x: 240, y: PLAYER_Y }),
            s@.bullets.len() == 0,
            s@.enemy_bullets.len() == 0,
            s@.invaders.len() == GRID as int,
            forall|k: int| 0 <= k < GRID as int ==> #[trigger] s@.invaders[k],
            s@.anchor == (Point { x: ANCHOR_START_X, y: ANCHOR_START_Y }),
            s@.velocity == 1,
            s@.lives == START_LIVES,
            s@.score == 0,
            s@.wave == 1,
            s@.time == 0,
            !s@.finished,
    {
        SimState {
            player: Point { x: 240, y: PLAYER_Y },
            bullets: Vec::new(),
            enemy_bullets: Vec::new(),
            invaders: full_grid(),
            anchor: Point { x: ANCHOR_START_X, y: ANCHOR_START_Y },
            velocity: 1,
            lives: START_LIVES,
            score: 0,
            wave: 1,
            time: 0,
            finished: false,
        }
    }
}

/// A fresh grid with every liveness flag set.
pub fn full_grid() -> (g: Vec<bool>)
    ensures
        g@.len() == GRID as int,
        forall|k: int| 0 <= k < GRID as int ==> #[trigger] g@[k],
{
    let mut g: Vec<bool> = Vec::new();
    let mut i: usize = 0;
    while i < GRID
        invariant
            i <= GRID,
            g@.len() == i as int,
            forall|k: int| 0 <= k < i as int ==> #[trigger] g@[k],
        decreases GRID - i,
    {
        g.push(true);
        i = i + 1;
    }
    g
}

} // verus!
