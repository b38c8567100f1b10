//! The frame buffer compositor: copies a sprite's pixel rectangle into the
//! flat row-major buffer, silently skipping every destination index that
//! falls outside the buffer (bottom/right clipping only).

use crate::drawings::Drawing;
use crate::state::WIDTH;
use vstd::prelude::*;

verus! {

/// One clipped write: the buffer with `v` at `idx`, or unchanged when `idx`
/// lies outside it.
pub open spec fn write_at(buf: Seq<u32>, idx: int, v: u32) -> Seq<u32> {
    if 0 <= idx < buf.len() {
        buf.update(idx, v)
    } else {
        buf
    }
}

/// The buffer after writing row `i` of the sprite from column `j` rightwards.
pub open spec fn blit_row(buf: Seq<u32>, pix: Seq<u32>, w: int, x: int, y: int, i: int, j: int) -> Seq<u32>
    decreases w - j,
{
    if !(0 <= j < w) {
        buf
    } else {
        blit_row(write_at(buf, (y + i) * WIDTH as int + x + j, pix[i * w + j]), pix, w, x, y, i, j + 1)
    }
}

/// The buffer after writing all sprite rows from `i` downwards.
pub open spec fn blit_rows(buf: Seq<u32>, pix: Seq<u32>, w: int, h: int, x: int, y: int, i: int) -> Seq<u32>
    decreases h - i,
{
    if !(0 <= i < h) {
        buf
    } else {
        blit_rows(blit_row(buf, pix, w, x, y, i, 0), pix, w, h, x, y, i + 1)
    }
}

/// The buffer after blitting a whole `w` x `h` sprite at top-left `(x, y)`,
/// row by row, each destination index clipped against the buffer length.
pub open spec fn blit_spec(buf: Seq<u32>, pix: Seq<u32>, w: int, h: int, x: int, y: int) -> Seq<u32> {
    blit_rows(buf, pix, w, h, x, y, 0)
}

pub proof fn lemma_blit_row_len(buf: Seq<u32>, pix: Seq<u32>, w: int, x: int, y: int, i: int, j: int)
    ensures
        blit_row(buf, pix, w, x, y, i, j).len() == buf.len(),
    decreases w - j,
{
    if 0 <= j < w {
        lemma_blit_row_len(write_at(buf, (y + i) * WIDTH as int + x + j, pix[i * w + j]), pix, w, x, y, i, j + 1);
    }
}

pub proof fn lemma_blit_rows_len(buf: Seq<u32>, pix: Seq<u32>, w: int, h: int, x: int, y: int, i: int)
    ensures
        blit_rows(buf, pix, w, h, x, y, i).len() == buf.len(),
    decreases h - i,
{
    if 0 <= i < h {
        lemma_blit_row_len(buf, pix, w, x, y, i, 0);
        lemma_blit_rows_len(blit_row(buf, pix, w, x, y, i, 0), pix, w, h, x, y, i + 1);
    }
}

/// Copies `drawing`'s pixels into `buffer` at top-left `(x, y)`, row-major
/// with row stride `WIDTH`; any destination index at or beyond the buffer
/// length is skipped. Exactly `blit_spec`; in particular the length of the
/// buffer never changes.
pub fn insert_drawing(buffer: &mut Vec<u32>, x: usize, y: usize, drawing: &Drawing)
    requires
        drawing.wf(),
    ensures
        final(buffer)@ == blit_spec(
            old(buffer)@,
            drawing.pixels@,
            drawing.width as int,
            drawing.height as int,
            x as int,
            y as int,
        ),
        final(buffer)@.len() == old(buffer)@.len(),
{
    let ghost buf0 = buffer@;
    let ghost pix = drawing.pixels@;
    let ghost w = drawing.width as int;
    let ghost h = drawing.height as int;
    proof {
        lemma_blit_rows_len(buf0, pix, w, h, x as int, y as int, 0);
    }
    let mut i: usize = 0;
    while i < drawing.height
        invariant
            drawing.wf(),
            pix == drawing.pixels@,
            w == drawing.width as int,
            h == drawing.height as int,
            i <= drawing.height,
            buffer@.len() == buf0.len(),
            blit_rows(buffer@, pix, w, h, x as int, y as int, i as int)
                == blit_rows(buf0, pix, w, h, x as int, y as int, 0),
        decreases drawing.height - i,
    {
        let ghost buf_row = buffer@;
        let mut j: usize = 0;
        while j < drawing.width
            invariant
                drawing.wf(),
                pix == drawing.pixels@,
                w == drawing.width as int,
                h == drawing.height as int,
                i < drawing.height,
                j <= drawing.width,
                buffer@.len() == buf_row.len(),
                blit_row(buffer@, pix, w, x as int, y as int, i as int, j as int)
                    == blit_row(buf_row, pix, w, x as int, y as int, i as int, 0),
            decreases drawing.width - j,
        {
            let ghost idx_spec = (y as int + i as int) * WIDTH as int + x as int + j as int;
            let sum: u128 = y as u128 + i as u128;
            proof {
                assert(sum * 480u128 <= 100000000000000000000000000u128) by (nonlinear_arith)
                    requires
                        sum <= 36893488147419103230u128,
                ;
            }
            let index: u128 = sum * (WIDTH as u128) + x as u128 + j as u128;
            proof {
                assert(index as int == idx_spec) by (nonlinear_arith)
                    requires
                        index == sum * 480u128 + x as u128 + j as u128,
                        sum == y as u128 + i as u128,
                        idx_spec == (y as int + i as int) * 480 + x as int + j as int,
                ;
            }
            proof {
                vstd::std_specs::vec::axiom_spec_len(&drawing.pixels);
                assert((i as int) * w + (j as int) < pix.len()) by (nonlinear_arith)
                    requires
                        0 <= (i as int) < h,
                        0 <= (j as int) < w,
                        pix.len() == w * h,
                ;
            }
            let pixel_index: usize = i * drawing.width + j;
            let px = drawing.pixels[pixel_index];
            let ghost buf_before = buffer@;
            if index < buffer.len() as u128 {
                buffer[index as usize] = px;
            }
            proof {
                assert(buffer@ == write_at(buf_before, idx_spec, pix[i as int * w + j as int]));
                assert(blit_row(buf_before, pix, w, x as int, y as int, i as int, j as int)
                    == blit_row(buffer@, pix, w, x as int, y as int, i as int, j as int + 1));
            }
            j = j + 1;
        }
        proof {
            assert(blit_row(buffer@, pix, w, x as int, y as int, i as int, j as int) == buffer@);
            assert(blit_rows(buf_row, pix, w, h, x as int, y as int, i as int)
                == blit_rows(buffer@, pix, w, h, x as int, y as int, i as int + 1));
        }
        i = i + 1;
    }
    proof {
        assert(blit_rows(buffer@, pix, w, h, x as int, y as int, i as int) == buffer@);
    }
}

} // verus!
