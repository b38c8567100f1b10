//! Drawing of whole entity groups into the frame buffer, and the decimal
//! digit expansion that the score displays use.

use crate::compositor::blit_spec;
use crate::compositor::insert_drawing;
use crate::drawings::digit_rows;
use crate::drawings::get_bullet;
use crate::drawings::get_invader;
use crate::drawings::get_number;
use crate::drawings::get_player;
use crate::drawings::invader_mask;
use crate::drawings::masked_pixel;
use crate::drawings::player_mask;
use crate::drawings::BULLET_H;
use crate::drawings::BULLET_W;
use crate::drawings::DIGIT_H;
use crate::drawings::DIGIT_W;
use crate::drawings::SPRITE_H;
use crate::drawings::SPRITE_W;
use crate::state::enemy_bullet_ok;
use crate::state::player_bullet_ok;
use crate::state::Point;
use crate::state::CELL;
use crate::state::COORD_LIMIT;
use crate::state::GRID;
use crate::state::PLAYER_W;
use crate::state::ROWS;
use crate::state::ANCHOR_MAX_X;
use crate::state::ANCHOR_MIN_X;
use crate::state::ANCHOR_START_Y;
use crate::state::WIDTH;
use vstd::prelude::*;

verus! {

/// The decimal digits of `n`, most significant first; a lone zero for zero.
pub open spec fn digits_of(n: nat) -> Seq<int>
    decreases n,
{
    if n < 10 {
        seq![n as int]
    } else {
        digits_of(n / 10).push((n % 10) as int)
    }
}

/// Ten to the `k`th power.
pub open spec fn pow10(k: nat) -> int
    decreases k,
{
    if k == 0 {
        1
    } else {
        10 * pow10((k - 1) as nat)
    }
}

/// A number below ten to the `k`th has at most `k` decimal digits.
pub proof fn lemma_digits_len(n: nat, k: nat)
    requires
        1 <= k,
        n < pow10(k),
    ensures
        digits_of(n).len() <= k,
    decreases k,
{
    if n < 10 {
    } else {
        assert(pow10(0) == 1);
        assert(pow10(1) == 10);
        if k == 1 {
            assert(false);
        }
        assert(pow10(k) == 10 * pow10((k - 1) as nat));
        assert(n / 10 < pow10((k - 1) as nat)) by (nonlinear_arith)
            requires
                n >= 10,
                n < 10 * pow10((k - 1) as nat),
        ;
        lemma_digits_len(n / 10, (k - 1) as nat);
    }
}

/// Any `u64` value has at most twenty decimal digits.
pub proof fn lemma_score_digits_len(n: nat)
    requires
        n <= u64::MAX,
    ensures
        digits_of(n).len() <= 20,
{
    reveal_with_fuel(pow10, 21);
    assert(pow10(20) == 100000000000000000000);
    lemma_digits_len(n, 20);
}

/// The decimal digits of `score`, most significant first, each below ten.
pub fn score_digits(score: u64) -> (ds: Vec<u8>)
    ensures
        ds@.map_values(|d: u8| d as int) == digits_of(score as nat),
        ds@.len() == digits_of(score as nat).len(),
        1 <= ds@.len() <= 20,
        forall|k: int| 0 <= k < ds@.len() ==> #[trigger] ds@[k] < 10,
    decreases score,
{
    proof {
        lemma_score_digits_len(score as nat);
    }
    if score < 10 {
        let mut ds: Vec<u8> = Vec::new();
        ds.push(score as u8);
        proof {
            assert(ds@.map_values(|d: u8| d as int) =~= digits_of(score as nat));
        }
        ds
    } else {
        let mut ds = score_digits(score / 10);
        let ghost prior = ds@;
        ds.push((score % 10) as u8);
        proof {
            assert(ds@.map_values(|d: u8| d as int) =~= prior.map_values(|d: u8| d as int).push(
                (score % 10) as int,
            ));
        }
        ds
    }
}

/// Blanks the whole buffer to the background colour.
pub fn clear_buffer(buffer: &mut Vec<u32>)
    ensures
        final(buffer)@.len() == old(buffer)@.len(),
        forall|k: int| 0 <= k < final(buffer)@.len() ==> final(buffer)@[k] == 0u32,
{
    let n = buffer.len();
    let mut k: usize = 0;
    while k < n
        invariant
            n == buffer@.len(),
            k <= n,
            forall|m: int| 0 <= m < k as int ==> buffer@[m] == 0u32,
        decreases n - k,
    {
        buffer[k] = 0u32;
        k = k + 1;
    }
}

/// The pixel rectangle of the bullet sprite, row-major.
pub open spec fn bullet_sprite_pixels() -> Seq<u32> {
    Seq::new((BULLET_W * BULLET_H) as nat, |p: int| 0xFFFFA0u32)
}

/// The pixel rectangle of the player sprite, row-major.
pub open spec fn player_sprite_pixels() -> Seq<u32> {
    Seq::new(
        (SPRITE_W * SPRITE_H) as nat,
        |p: int| masked_pixel(player_mask(), p / SPRITE_W as int, p % SPRITE_W as int, 0x40FF60u32),
    )
}

/// The pixel rectangle of the enemy sprite, row-major.
pub open spec fn invader_sprite_pixels() -> Seq<u32> {
    Seq::new(
        (SPRITE_W * SPRITE_H) as nat,
        |p: int| masked_pixel(invader_mask(), p / SPRITE_W as int, p % SPRITE_W as int, 0xFF40FFu32),
    )
}

/// The buffer after blitting the bullet sprite at every bullet `bs[k..]`,
/// in order, offset to the middle of the player sprite.
pub open spec fn player_bullets_blit(buf: Seq<u32>, bs: Seq<Point>, k: int) -> Seq<u32>
    decreases bs.len() - k,
{
    if !(0 <= k < bs.len()) {
        buf
    } else {
        player_bullets_blit(
            blit_spec(
                buf,
                bullet_sprite_pixels(),
                BULLET_W as int,
                BULLET_H as int,
                bs[k].x as int + PLAYER_W as int / 2,
                bs[k].y as int,
            ),
            bs,
            k + 1,
        )
    }
}

/// The buffer after blitting the bullet sprite at every bullet `bs[k..]`,
/// in order, at its own position.
pub open spec fn enemy_bullets_blit(buf: Seq<u32>, bs: Seq<Point>, k: int) -> Seq<u32>
    decreases bs.len() - k,
{
    if !(0 <= k < bs.len()) {
        buf
    } else {
        enemy_bullets_blit(
            blit_spec(
                buf,
                bullet_sprite_pixels(),
                BULLET_W as int,
                BULLET_H as int,
                bs[k].x as int,
                bs[k].y as int,
            ),
            bs,
            k + 1,
        )
    }
}

/// The buffer after blitting the enemy sprite at every alive grid cell from
/// `n` onwards, in column-major order, at its anchor-derived position.
pub open spec fn invaders_blit(buf: Seq<u32>, grid: Seq<bool>, anchor: Point, n: int) -> Seq<u32>
    decreases GRID as int - n,
{
    if !(0 <= n < GRID as int) {
        buf
    } else {
        let drawn = if grid[n] {
            blit_spec(
                buf,
                invader_sprite_pixels(),
                SPRITE_W as int,
                SPRITE_H as int,
                anchor.x as int + (n / ROWS as int) * CELL as int,
                anchor.y as int + (n % ROWS as int) * CELL as int,
            )
        } else {
            buf
        };
        invaders_blit(drawn, grid, anchor, n + 1)
    }
}

/// The buffer after blitting one player sprite per life `k..lives`, spaced
/// thirty pixels apart, right-aligned along the top.
pub open spec fn lives_blit(buf: Seq<u32>, lives: int, k: int) -> Seq<u32>
    decreases lives - k,
{
    if !(0 <= k < lives) {
        buf
    } else {
        lives_blit(
            blit_spec(
                buf,
                player_sprite_pixels(),
                SPRITE_W as int,
                SPRITE_H as int,
                WIDTH as int - 40 - 30 * k,
                10,
            ),
            lives,
            k + 1,
        )
    }
}

/// The bullet sprite's pixel rectangle is exactly `bullet_sprite_pixels`.
pub proof fn lemma_bullet_sprite(d: crate::drawings::Drawing)
    requires
        d.width == BULLET_W,
        d.height == BULLET_H,
        d.wf(),
        forall|i: int, j: int|
            0 <= i < BULLET_H as int && 0 <= j < BULLET_W as int ==> #[trigger] d.pixels@[i * (
            BULLET_W as int) + j] == 0xFFFFA0u32,
    ensures
        d.pixels@ == bullet_sprite_pixels(),
{
    assert forall|p: int| 0 <= p < d.pixels@.len() implies d.pixels@[p] == bullet_sprite_pixels()[p] by {
        let i = p / BULLET_W as int;
        let j = p % BULLET_W as int;
        assert(p == i * BULLET_W as int + j);
        assert(d.pixels@[i * (BULLET_W as int) + j] == 0xFFFFA0u32);
    }
    assert(d.pixels@ =~= bullet_sprite_pixels());
}

/// The player sprite's pixel rectangle is exactly `player_sprite_pixels`.
pub proof fn lemma_player_sprite(d: crate::drawings::Drawing)
    requires
        d.width == SPRITE_W,
        d.height == SPRITE_H,
        d.wf(),
        forall|i: int, j: int|
            0 <= i < SPRITE_H as int && 0 <= j < SPRITE_W as int ==> d.pixels@[i * (
            SPRITE_W as int) + j] == masked_pixel(player_mask(), i, j, 0x40FF60u32),
    ensures
        d.pixels@ == player_sprite_pixels(),
{
    assert forall|p: int| 0 <= p < d.pixels@.len() implies d.pixels@[p] == player_sprite_pixels()[p] by {
        let i = p / SPRITE_W as int;
        let j = p % SPRITE_W as int;
        assert(p == i * SPRITE_W as int + j);
        assert(d.pixels@[i * (SPRITE_W as int) + j] == masked_pixel(player_mask(), i, j, 0x40FF60u32));
    }
    assert(d.pixels@ =~= player_sprite_pixels());
}

/// The enemy sprite's pixel rectangle is exactly `invader_sprite_pixels`.
pub proof fn lemma_invader_sprite(d: crate::drawings::Drawing)
    requires
        d.width == SPRITE_W,
        d.height == SPRITE_H,
        d.wf(),
        forall|i: int, j: int|
            0 <= i < SPRITE_H as int && 0 <= j < SPRITE_W as int ==> d.pixels@[i * (
            SPRITE_W as int) + j] == masked_pixel(invader_mask(), i, j, 0xFF40FFu32),
    ensures
        d.pixels@ == invader_sprite_pixels(),
{
    assert forall|p: int| 0 <= p < d.pixels@.len() implies d.pixels@[p] == invader_sprite_pixels()[p] by {
        let i = p / SPRITE_W as int;
        let j = p % SPRITE_W as int;
        assert(p == i * SPRITE_W as int + j);
        assert(d.pixels@[i * (SPRITE_W as int) + j] == masked_pixel(invader_mask(), i, j, 0xFF40FFu32));
    }
    assert(d.pixels@ =~= invader_sprite_pixels());
}

/// Draws every player bullet, offset to the middle of the player sprite:
/// exactly `player_bullets_blit` over the whole list.
pub fn draw_player_bullets(buffer: &mut Vec<u32>, bullets: &Vec<Point>)
    requires
        forall|k: int| 0 <= k < bullets@.len() ==> player_bullet_ok(#[trigger] bullets@[k]),
    ensures
        final(buffer)@.len() == old(buffer)@.len(),
        final(buffer)@ == player_bullets_blit(old(buffer)@, bullets@, 0),
{
    let ghost buf0 = buffer@;
    let mut k: usize = 0;
    while k < bullets.len()
        invariant
            forall|m: int| 0 <= m < bullets@.len() ==> player_bullet_ok(#[trigger] bullets@[m]),
            buffer@.len() == old(buffer)@.len(),
            k <= bullets@.len(),
            player_bullets_blit(buffer@, bullets@, k as int) == player_bullets_blit(buf0, bullets@, 0),
        decreases bullets@.len() - k,
    {
        let b = bullets[k];
        let sprite = get_bullet();
        proof {
            lemma_bullet_sprite(sprite);
        }
        insert_drawing(buffer, (b.x + PLAYER_W / 2) as usize, b.y as usize, &sprite);
        k = k + 1;
    }
}

/// Draws every enemy bullet at its current position: exactly
/// `enemy_bullets_blit` over the whole list.
pub fn draw_enemy_bullets(buffer: &mut Vec<u32>, bullets: &Vec<Point>)
    requires
        forall|k: int| 0 <= k < bullets@.len() ==> enemy_bullet_ok(#[trigger] bullets@[k]),
    ensures
        final(buffer)@.len() == old(buffer)@.len(),
        final(buffer)@ == enemy_bullets_blit(old(buffer)@, bullets@, 0),
{
    let ghost buf0 = buffer@;
    let mut k: usize = 0;
    while k < bullets.len()
        invariant
            forall|m: int| 0 <= m < bullets@.len() ==> enemy_bullet_ok(#[trigger] bullets@[m]),
            buffer@.len() == old(buffer)@.len(),
            k <= bullets@.len(),
            enemy_bullets_blit(buffer@, bullets@, k as int) == enemy_bullets_blit(buf0, bullets@, 0),
        decreases bullets@.len() - k,
    {
        let b = bullets[k];
        let sprite = get_bullet();
        proof {
            lemma_bullet_sprite(sprite);
        }
        insert_drawing(buffer, b.x as usize, b.y as usize, &sprite);
        k = k + 1;
    }
}

/// Draws every alive enemy at its grid-derived position, in column-major
/// order: exactly `invaders_blit` over the whole grid.
pub fn draw_invaders(buffer: &mut Vec<u32>, grid: &Vec<bool>, anchor: Point)
    requires
        grid@.len() == GRID as int,
        ANCHOR_MIN_X as int <= anchor.x as int <= ANCHOR_MAX_X as int + 1,
        ANCHOR_START_Y as int <= anchor.y as int <= COORD_LIMIT as int,
    ensures
        final(buffer)@.len() == old(buffer)@.len(),
        final(buffer)@ == invaders_blit(old(buffer)@, grid@, anchor, 0),
{
    let ghost buf0 = buffer@;
    let mut n: usize = 0;
    while n < GRID
        invariant
            grid@.len() == GRID as int,
            ANCHOR_MIN_X as int <= anchor.x as int <= ANCHOR_MAX_X as int + 1,
            ANCHOR_START_Y as int <= anchor.y as int <= COORD_LIMIT as int,
            buffer@.len() == old(buffer)@.len(),
            n <= GRID,
            invaders_blit(buffer@, grid@, anchor, n as int) == invaders_blit(buf0, grid@, anchor, 0),
        decreases GRID - n,
    {
        if grid[n] {
            let sprite = get_invader();
            proof {
                lemma_invader_sprite(sprite);
            }
            insert_drawing(
                buffer,
                (anchor.x + ((n / ROWS) as i32) * CELL) as usize,
                (anchor.y + ((n % ROWS) as i32) * CELL) as usize,
                &sprite,
            );
        }
        n = n + 1;
    }
}

/// Draws one player sprite per remaining life, right-aligned along the top:
/// exactly `lives_blit` over the whole count.
pub fn draw_lives(buffer: &mut Vec<u32>, lives: u32)
    requires
        lives <= 3,
    ensures
        final(buffer)@.len() == old(buffer)@.len(),
        final(buffer)@ == lives_blit(old(buffer)@, lives as int, 0),
{
    let ghost buf0 = buffer@;
    let mut i: usize = 0;
    while i < lives as usize
        invariant
            lives <= 3,
            buffer@.len() == old(buffer)@.len(),
            i <= lives as usize,
            lives_blit(buffer@, lives as int, i as int) == lives_blit(buf0, lives as int, 0),
        decreases lives as usize - i,
    {
        let sprite = get_player();
        proof {
            lemma_player_sprite(sprite);
        }
        insert_drawing(buffer, WIDTH - (40 + i * 30), 10, &sprite);
        i = i + 1;
    }
}

/// The pixel rectangle of one digit glyph, row-major.
pub open spec fn digit_pixels(d: u8) -> Seq<u32> {
    Seq::new(
        (DIGIT_W * DIGIT_H) as nat,
        |p: int| masked_pixel(digit_rows(d), p / DIGIT_W as int, p % DIGIT_W as int, 0xFFFFFFu32),
    )
}

/// The buffer after blitting the digit glyphs `ds[k..]` left to right, one
/// glyph width apart, starting at `(x0 + k * DIGIT_W, y)`.
pub open spec fn digits_blit(buf: Seq<u32>, ds: Seq<u8>, k: int, x0: int, y: int) -> Seq<u32>
    decreases ds.len() - k,
{
    if !(0 <= k < ds.len()) {
        buf
    } else {
        digits_blit(
            blit_spec(
                buf,
                digit_pixels(ds[k]),
                DIGIT_W as int,
                DIGIT_H as int,
                x0 + k * DIGIT_W as int,
                y,
            ),
            ds,
            k + 1,
            x0,
            y,
        )
    }
}

/// An all-background buffer of the given length.
pub open spec fn blank_frame(len: nat) -> Seq<u32> {
    Seq::new(len, |q: int| 0u32)
}

/// The terminal frame: the decimal score digits blitted onto a blank buffer,
/// centred horizontally at the field's mid line.
pub open spec fn game_over_frame(score: u64, len: nat) -> Seq<u32> {
    let ds = digits_of(score as nat);
    digits_blit(
        blank_frame(len),
        Seq::new(ds.len(), |k: int| ds[k] as u8),
        0,
        WIDTH as int / 2 - ds.len() * DIGIT_W as int / 2,
        WIDTH as int / 2,
    )
}

/// Draws the decimal score, digit glyphs left to right from `(x, y)`.
pub fn draw_score_at(buffer: &mut Vec<u32>, score: u64, x: usize, y: usize)
    requires
        x <= WIDTH,
    ensures
        final(buffer)@.len() == old(buffer)@.len(),
        final(buffer)@ == digits_blit(
            old(buffer)@,
            score_digits_spec(score),
            0,
            x as int,
            y as int,
        ),
{
    let ghost buf0 = buffer@;
    let ghost ds_spec = score_digits_spec(score);
    let ds = score_digits(score);
    proof {
        assert(ds@ =~= ds_spec);
    }
    let mut i: usize = 0;
    while i < ds.len()
        invariant
            ds@ == ds_spec,
            ds@.len() <= 20,
            forall|k: int| 0 <= k < ds@.len() ==> #[trigger] ds@[k] < 10,
            x <= WIDTH,
            buffer@.len() == old(buffer)@.len(),
            i <= ds@.len(),
            digits_blit(buffer@, ds_spec, i as int, x as int, y as int) == digits_blit(
                buf0,
                ds_spec,
                0,
                x as int,
                y as int,
            ),
        decreases ds@.len() - i,
    {
        let glyph = get_number(ds[i]);
        proof {
            assert forall|p: int| 0 <= p < glyph.pixels@.len() implies glyph.pixels@[p]
                == digit_pixels(ds@[i as int])[p] by {
                let r = p / DIGIT_W as int;
                let c = p % DIGIT_W as int;
                assert(p == r * DIGIT_W as int + c);
                assert(glyph.pixels@[r * (DIGIT_W as int) + c] == masked_pixel(
                    digit_rows(ds@[i as int]),
                    r,
                    c,
                    0xFFFFFFu32,
                ));
            }
            assert(glyph.pixels@ =~= digit_pixels(ds@[i as int]));
        }
        insert_drawing(buffer, x + i * DIGIT_W, y, &glyph);
        i = i + 1;
    }
}

/// The digits the score display shows, as the executable `score_digits`
/// returns them.
pub open spec fn score_digits_spec(score: u64) -> Seq<u8> {
    let ds = digits_of(score as nat);
    Seq::new(ds.len(), |k: int| ds[k] as u8)
}

/// Clears the buffer and draws the final score centred horizontally at the
/// field's mid line: the terminal frame once the last life is gone.
pub fn draw_game_over(buffer: &mut Vec<u32>, score: u64)
    ensures
        final(buffer)@.len() == old(buffer)@.len(),
        final(buffer)@ == game_over_frame(score, old(buffer)@.len()),
{
    clear_buffer(buffer);
    proof {
        assert(buffer@ =~= blank_frame(old(buffer)@.len()));
    }
    let ds = score_digits(score);
    let x = WIDTH / 2 - ds.len() * DIGIT_W / 2;
    draw_score_at(buffer, score, x, WIDTH / 2);
}

} // verus!
