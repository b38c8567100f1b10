//! The sprite table: fixed-size pixel rectangles for the player ship, the
//! bullet, the enemy unit and the ten decimal digits.

use crate::color::from_rgb;
use crate::state::WIDTH;
use vstd::prelude::*;

verus! {

/// Width of every digit glyph, in pixels.
pub const DIGIT_W: usize = 12;
/// Height of every digit glyph, in pixels.
pub const DIGIT_H: usize = 20;
/// Width of the bullet sprite.
pub const BULLET_W: usize = 4;
/// Height of the bullet sprite.
pub const BULLET_H: usize = 8;
/// Width of the player and enemy sprites.
pub const SPRITE_W: usize = 24;
/// Height of the player and enemy sprites.
pub const SPRITE_H: usize = 16;

/// A sprite: a `width` x `height` rectangle of packed pixels, row-major.
pub struct Drawing {
    pub width: usize,
    pub height: usize,
    pub pixels: Vec<u32>,
}

impl Drawing {
    /// The pixel array covers the rectangle exactly, and the sprite is no
    /// wider than the field's row stride (so a blit never writes one buffer
    /// cell twice).
    pub open spec fn wf(&self) -> bool {
        &&& self.pixels@.len() == self.width * self.height
        &&& self.width <= WIDTH
    }
}

/// The colour of the sprite cell `(i, j)` under a row-word table: `color`
/// where bit `j` of row word `i` is set (bit 0 leftmost), background
/// elsewhere.
pub open spec fn masked_pixel(mask: Seq<u32>, i: int, j: int, color: u32) -> u32 {
    if (mask[i] >> (j as u32)) & 1u32 == 1u32 {
        color
    } else {
        0u32
    }
}

/// Fills a `w` x `h` sprite from one row word per sprite row, pixel for
/// pixel as `masked_pixel` says.
fn from_rows(mask: &Vec<u32>, w: usize, h: usize, color: u32) -> (d: Drawing)
    requires
        mask@.len() == h,
        1 <= w <= 32,
        w <= WIDTH,
    ensures
        d.wf(),
        d.width == w,
        d.height == h,
        forall|i: int, j: int|
            0 <= i < h && 0 <= j < w ==> d.pixels@[i * (w as int) + j] == masked_pixel(
                mask@,
                i,
                j,
                color,
            ),
{
    let mut pixels: Vec<u32> = Vec::new();
    let mut i: usize = 0;
    while i < h
        invariant
            mask@.len() == h,
            1 <= w <= 32,
            i <= h,
            pixels@.len() == i * w,
            forall|i2: int, j2: int|
                0 <= i2 < i as int && 0 <= j2 < w ==> pixels@[i2 * (w as int) + j2]
                    == masked_pixel(mask@, i2, j2, color),
        decreases h - i,
    {
        let row = mask[i];
        let mut j: usize = 0;
        while j < w
            invariant
                mask@.len() == h,
                row == mask@[i as int],
                1 <= w <= 32,
                j <= w,
                i < h,
                pixels@.len() == i * w + j,
                forall|i2: int, j2: int|
                    0 <= i2 < i as int && 0 <= j2 < w ==> pixels@[i2 * (w as int) + j2]
                        == masked_pixel(mask@, i2, j2, color),
                forall|j2: int|
                    0 <= j2 < j as int ==> pixels@[i as int * (w as int) + j2] == masked_pixel(
                        mask@,
                        i as int,
                        j2,
                        color,
                    ),
            decreases w - j,
        {
            let on = (row >> (j as u32)) & 1u32 == 1u32;
            pixels.push(if on { color } else { 0u32 });
            proof {
                assert forall|i2: int, j2: int|
                    0 <= i2 < i as int && 0 <= j2 < w implies pixels@[i2 * (w as int) + j2]
                    == masked_pixel(mask@, i2, j2, color) by {
                    assert(i2 * (w as int) + j2 < i as int * (w as int) + j as int)
                        by (nonlinear_arith)
                        requires
                            0 <= i2 < i as int,
                            0 <= j2 < w,
                            0 <= j as int,
                    ;
                }
            }
            j = j + 1;
        }
        proof {
            assert((i + 1) * w == i * w + w) by (nonlinear_arith);
        }
        i = i + 1;
    }
    proof {
        assert(h * w == w * h) by (nonlinear_arith);
    }
    Drawing { width: w, height: h, pixels }
}

/// The row words of the player sprite.
pub open spec fn player_mask() -> Seq<u32> {
    seq![
        0x001800u32, 0x001800, 0x003C00, 0x003C00, 0x007E00, 0x007E00, 0x00FF00, 0x00FF00,
        0x03FFC0, 0x03FFC0, 0x0FFFF0, 0x0FFFF0, 0x3FFFFC, 0xFFFFFF, 0xFFFFFF, 0xFFFFFF,
    ]
}

/// The player ship: a filled wedge, widest at its base, drawn in green.
pub fn get_player() -> (d: Drawing)
    ensures
        d.wf(),
        d.width == SPRITE_W,
        d.height == SPRITE_H,
        forall|i: int, j: int|
            0 <= i < SPRITE_H as int && 0 <= j < SPRITE_W as int ==> d.pixels@[i * (
            SPRITE_W as int) + j] == masked_pixel(player_mask(), i, j, 0x40FF60u32),
{
    let mut mask: Vec<u32> = Vec::new();
    mask.push(0x001800);
    mask.push(0x001800);
    mask.push(0x003C00);
    mask.push(0x003C00);
    mask.push(0x007E00);
    mask.push(0x007E00);
    mask.push(0x00FF00);
    mask.push(0x00FF00);
    mask.push(0x03FFC0);
    mask.push(0x03FFC0);
    mask.push(0x0FFFF0);
    mask.push(0x0FFFF0);
    mask.push(0x3FFFFC);
    mask.push(0xFFFFFF);
    mask.push(0xFFFFFF);
    mask.push(0xFFFFFF);
    proof {
        assert(mask@ =~= player_mask());
    }
    from_rows(&mask, SPRITE_W, SPRITE_H, from_rgb(64, 255, 96))
}

/// The bullet: a solid 4 x 8 slug in pale yellow.
pub fn get_bullet() -> (d: Drawing)
    ensures
        d.wf(),
        d.width == BULLET_W,
        d.height == BULLET_H,
        forall|i: int, j: int|
            0 <= i < BULLET_H as int && 0 <= j < BULLET_W as int ==> #[trigger] d.pixels@[i * (
            BULLET_W as int) + j] == 0xFFFFA0u32,
{
    let mut mask: Vec<u32> = Vec::new();
    let mut i: usize = 0;
    while i < BULLET_H
        invariant
            i <= BULLET_H,
            mask@.len() == i,
            forall|m: int| 0 <= m < i as int ==> #[trigger] mask@[m] == 0xFu32,
        decreases BULLET_H - i,
    {
        mask.push(0xF);
        i = i + 1;
    }
    let d = from_rows(&mask, BULLET_W, BULLET_H, from_rgb(255, 255, 160));
    proof {
        assert forall|i2: int, j2: int|
            0 <= i2 < BULLET_H as int && 0 <= j2 < BULLET_W as int implies #[trigger] d.pixels@[i2
            * (BULLET_W as int) + j2] == 0xFFFFA0u32 by {
            let jj: u32 = j2 as u32;
            assert((0xFu32 >> jj) & 1u32 == 1u32) by (bit_vector)
                requires
                    jj < 4,
            ;
            assert(masked_pixel(mask@, i2, j2, 0xFFFFA0u32) == 0xFFFFA0u32);
        }
    }
    d
}

/// The row words of the enemy sprite.
pub open spec fn invader_mask() -> Seq<u32> {
    seq![
        0x0C0C30u32, 0x0C0C30, 0x030CC0, 0x030CC0, 0x0FFFF0, 0x0FFFF0, 0x3CF3CC, 0x3CF3CC,
        0xFFFFFF, 0xFFFFFF, 0xF3FFCF, 0xF3FFCF, 0xC30C0C, 0xC30C0C, 0x03C3C0, 0x03C3C0,
    ]
}

/// The enemy unit: a crab-like silhouette in magenta.
pub fn get_invader() -> (d: Drawing)
    ensures
        d.wf(),
        d.width == SPRITE_W,
        d.height == SPRITE_H,
        forall|i: int, j: int|
            0 <= i < SPRITE_H as int && 0 <= j < SPRITE_W as int ==> d.pixels@[i * (
            SPRITE_W as int) + j] == masked_pixel(invader_mask(), i, j, 0xFF40FFu32),
{
    let mut mask: Vec<u32> = Vec::new();
    mask.push(0x0C0C30);
    mask.push(0x0C0C30);
    mask.push(0x030CC0);
    mask.push(0x030CC0);
    mask.push(0x0FFFF0);
    mask.push(0x0FFFF0);
    mask.push(0x3CF3CC);
    mask.push(0x3CF3CC);
    mask.push(0xFFFFFF);
    mask.push(0xFFFFFF);
    mask.push(0xF3FFCF);
    mask.push(0xF3FFCF);
    mask.push(0xC30C0C);
    mask.push(0xC30C0C);
    mask.push(0x03C3C0);
    mask.push(0x03C3C0);
    proof {
        assert(mask@ =~= invader_mask());
    }
    from_rows(&mask, SPRITE_W, SPRITE_H, from_rgb(255, 64, 255))
}

/// The fifteen-bit segment pattern of one decimal digit: five rows of three
/// cells, most significant bit top-left.
pub open spec fn digit_pattern(digit: u8) -> u16 {
    if digit == 0 {
        0b111_101_101_101_111u16
    } else if digit == 1 {
        0b010_110_010_010_111u16
    } else if digit == 2 {
        0b111_001_111_100_111u16
    } else if digit == 3 {
        0b111_001_111_001_111u16
    } else if digit == 4 {
        0b101_101_111_001_001u16
    } else if digit == 5 {
        0b111_100_111_001_111u16
    } else if digit == 6 {
        0b111_100_111_101_111u16
    } else if digit == 7 {
        0b111_001_001_001_001u16
    } else if digit == 8 {
        0b111_101_111_101_111u16
    } else {
        0b111_101_111_001_111u16
    }
}

/// One glyph row word of a digit pattern: glyph row `i` shows segment row
/// `i / 4`, and each set segment lights four pixels.
pub open spec fn digit_row_word(m: u16, r: int) -> u32 {
    (if (m >> (14 - r * 3) as u16) & 1u16 == 1u16 {
        0xFu32
    } else {
        0u32
    }) | (if (m >> (13 - r * 3) as u16) & 1u16 == 1u16 {
        0xF0u32
    } else {
        0u32
    }) | (if (m >> (12 - r * 3) as u16) & 1u16 == 1u16 {
        0xF00u32
    } else {
        0u32
    })
}

/// The row words of one digit glyph.
pub open spec fn digit_rows(digit: u8) -> Seq<u32> {
    Seq::new(DIGIT_H as nat, |i: int| digit_row_word(digit_pattern(digit), i / 4))
}

fn digit_mask(digit: u8) -> (m: u16)
    requires
        digit < 10,
    ensures
        m == digit_pattern(digit),
{
    match digit {
        0 => 0b111_101_101_101_111u16,
        1 => 0b010_110_010_010_111u16,
        2 => 0b111_001_111_100_111u16,
        3 => 0b111_001_111_001_111u16,
        4 => 0b101_101_111_001_001u16,
        5 => 0b111_100_111_001_111u16,
        6 => 0b111_100_111_101_111u16,
        7 => 0b111_001_001_001_001u16,
        8 => 0b111_101_111_101_111u16,
        _ => 0b111_101_111_001_111u16,
    }
}

/// The glyph of one decimal digit, the 3 x 5 segment pattern scaled by
/// four, drawn in white.
pub fn get_number(digit: u8) -> (d: Drawing)
    requires
        digit < 10,
    ensures
        d.wf(),
        d.width == DIGIT_W,
        d.height == DIGIT_H,
        forall|i: int, j: int|
            0 <= i < DIGIT_H as int && 0 <= j < DIGIT_W as int ==> d.pixels@[i * (DIGIT_W as int)
                + j] == masked_pixel(digit_rows(digit), i, j, 0xFFFFFFu32),
{
    let m = digit_mask(digit);
    let mut mask: Vec<u32> = Vec::new();
    let mut i: usize = 0;
    while i < DIGIT_H
        invariant
            m == digit_pattern(digit),
            i <= DIGIT_H,
            mask@.len() == i,
            forall|q: int| 0 <= q < i as int ==> #[trigger] mask@[q] == digit_rows(digit)[q],
        decreases DIGIT_H - i,
    {
        let seg_row = i / 4;
        let seg0: u16 = 14 - (seg_row as u16) * 3;
        let row: u32 = (if (m >> seg0) & 1u16 == 1u16 {
            0xFu32
        } else {
            0u32
        }) | (if (m >> (seg0 - 1)) & 1u16 == 1u16 {
            0xF0u32
        } else {
            0u32
        }) | (if (m >> (seg0 - 2)) & 1u16 == 1u16 {
            0xF00u32
        } else {
            0u32
        });
        proof {
            assert(row == digit_row_word(m, i as int / 4));
        }
        mask.push(row);
        i = i + 1;
    }
    proof {
        assert(mask@ =~= digit_rows(digit));
    }
    from_rows(&mask, DIGIT_W, DIGIT_H, from_rgb(255, 255, 255))
}

} // verus!
