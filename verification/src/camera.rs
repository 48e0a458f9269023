//! The P2Pro camera's picture geometry and its raw frames.
//!
//! The camera delivers YUYV frames of 256x384 pixels: the top half is the
//! video preview; in the bottom half every two bytes that would be a
//! luma/chroma pair are a little-endian 16-bit thermal sample.

use crate::bytes::le16_value;
use vstd::arithmetic::div_mod::lemma_fundamental_div_mod_converse;
use vstd::prelude::*;

verus! {

/// USB vendor ID of the InfiRay P2Pro.
pub const VENDOR_ID: u16 = 0x0bda;

/// USB product ID of the InfiRay P2Pro.
pub const PRODUCT_ID: u16 = 0x5830;

/// Width of both the video and thermal half, in pixels.
pub const WIDTH: u32 = 256;

/// Height of the thermal-only half, in pixels (the full captured frame is
/// twice this, since it also contains the plain video half on top).
pub const HEIGHT: u32 = 192;

/// Number of thermal samples in a frame.
pub const SAMPLES: usize = 49152;

/// A row holds at least its pixels, and the size of a frame is a `usize`.
pub open spec fn valid_stride(stride: usize) -> bool {
    &&& stride >= 2 * WIDTH
    &&& stride * (2 * HEIGHT) <= usize::MAX
}

/// The place of the thermal sample number `i` in a raw frame.
pub open spec fn sample_offset(stride: int, i: int) -> int {
    (HEIGHT + i / (WIDTH as int)) * stride + 2 * (i % (WIDTH as int))
}

/// The thermal samples of a raw frame, row by row.
pub open spec fn samples_of(buf: Seq<u8>, stride: int) -> Seq<u16> {
    Seq::new(
        SAMPLES as nat,
        |i: int|
            (buf[sample_offset(stride, i)] + 256 * buf[sample_offset(stride, i) + 1]) as u16,
    )
}

/// Decodes the thermal half of one raw YUYV buffer with `stride` bytes per
/// row. Returns `None` if the buffer is short (a dropped or truncated frame).
pub fn decode_frame(buf: &[u8], stride: usize) -> (r: Option<Vec<u16>>)
    requires
        valid_stride(stride),
    ensures
        r is Some <==> buf@.len() >= stride * 384,
        r matches Some(samples) ==> samples@ == samples_of(buf@, stride as int),
{
    if buf.len() < stride * 384 {
        return None;
    }
    let mut samples: Vec<u16> = Vec::with_capacity(SAMPLES);
    let ghost expected = samples_of(buf@, stride as int);
    let mut y: usize = 0;
    while y < 192
        invariant
            valid_stride(stride),
            buf@.len() >= stride * 384,
            y <= 192,
            expected == samples_of(buf@, stride as int),
            samples@.len() == y * 256,
            forall|i: int| 0 <= i < samples@.len() ==> samples@[i] == expected[i],
        decreases 192 - y,
    {
        proof {
            assert((192 + y) * stride + stride <= 384 * stride) by (nonlinear_arith)
                requires
                    0 <= y <= 191,
                    0 <= stride,
            ;
        }
        let row_start: usize = (192 + y) * stride;
        let mut x: usize = 0;
        while x < 256
            invariant
                valid_stride(stride),
                buf@.len() >= stride * 384,
                y < 192,
                x <= 256,
                row_start == (192 + y) * stride,
                row_start + stride <= 384 * stride <= usize::MAX,
                expected == samples_of(buf@, stride as int),
                samples@.len() == y * 256 + x,
                forall|i: int| 0 <= i < samples@.len() ==> samples@[i] == expected[i],
            decreases 256 - x,
        {
            let offset: usize = row_start + x * 2;
            assert(sample_offset(stride as int, y * 256 + x) == offset);
            samples.push(le16_value(buf[offset], buf[offset + 1]));
            x += 1;
        }
        y += 1;
    }
    assert(samples@ =~= expected);
    Some(samples)
}

/// The byte at `k` of a raw frame whose thermal half was filled with
/// `samples`: the low or the high half of a sample, or what was there before.
pub open spec fn filled_byte(buf: Seq<u8>, stride: int, samples: Seq<u16>, k: int) -> u8 {
    let row = k / stride - HEIGHT;
    let column = k % stride;
    if 0 <= row < HEIGHT && column < 2 * WIDTH {
        let sample = samples[row * WIDTH + column / 2];
        if column % 2 == 0 {
            (sample % 256) as u8
        } else {
            (sample / 256) as u8
        }
    } else {
        buf[k]
    }
}

/// A raw frame whose thermal half was filled with `samples`.
pub open spec fn filled(buf: Seq<u8>, stride: int, samples: Seq<u16>) -> Seq<u8> {
    Seq::new(buf.len(), |k: int| filled_byte(buf, stride, samples, k))
}

/// Fills the thermal half of a raw frame with `stride` bytes per row. The
/// video half and what pads the rows are left as they are.
pub fn fill_frame(buf: &mut Vec<u8>, stride: usize, samples: &[u16])
    requires
        valid_stride(stride),
        old(buf)@.len() >= stride * (2 * HEIGHT),
        samples@.len() == SAMPLES,
    ensures
        final(buf)@ == filled(old(buf)@, stride as int, samples@),
{
    let ghost before = buf@;
    let ghost target = filled(before, stride as int, samples@);
    let mut row: usize = 0;
    proof {
        assert forall|k: int| 0 <= k < 192 * stride implies #[trigger] target[k] == before[k] by {
            lemma_row_below(k, stride as int, 192);
        }
    }
    while row < 192
        invariant
            valid_stride(stride),
            buf@.len() == before.len() == target.len(),
            before.len() >= stride * 384,
            samples@.len() == SAMPLES,
            row <= 192,
            target == filled(before, stride as int, samples@),
            forall|k: int|
                0 <= k < buf@.len() ==> #[trigger] buf@[k] == if k < (192 + row) * stride {
                    target[k]
                } else {
                    before[k]
                },
        decreases 192 - row,
    {
        proof {
            assert((192 + row) * stride + stride <= 384 * stride) by (nonlinear_arith)
                requires
                    0 <= row <= 191,
                    0 <= stride,
            ;
        }
        let row_start: usize = (192 + row) * stride;
        let mut x: usize = 0;
        while x < 256
            invariant
                valid_stride(stride),
                buf@.len() == before.len() == target.len(),
                before.len() >= stride * 384,
                samples@.len() == SAMPLES,
                row < 192,
                x <= 256,
                row_start == (192 + row) * stride,
                row_start + stride <= 384 * stride <= usize::MAX,
                target == filled(before, stride as int, samples@),
                forall|k: int|
                    0 <= k < buf@.len() ==> #[trigger] buf@[k] == if k < row_start + 2 * x {
                        target[k]
                    } else {
                        before[k]
                    },
            decreases 256 - x,
        {
            let offset: usize = row_start + 2 * x;
            let sample: u16 = samples[row * 256 + x];
            proof {
                lemma_fundamental_div_mod_converse(
                    offset as int,
                    stride as int,
                    192 + row,
                    2 * x as int,
                );
                lemma_fundamental_div_mod_converse(
                    offset + 1,
                    stride as int,
                    192 + row,
                    2 * x + 1,
                );
            }
            buf.set(offset, (sample % 256) as u8);
            buf.set(offset + 1, (sample / 256) as u8);
            x += 1;
        }
        proof {
            assert((192 + row + 1) * stride == row_start + stride) by (nonlinear_arith)
                requires
                    row_start == (192 + row) * stride,
            ;
            assert forall|k: int| row_start + 512 <= k < row_start + stride implies target[k]
                == before[k] by {
                lemma_fundamental_div_mod_converse(
                    k,
                    stride as int,
                    192 + row,
                    k - row_start,
                );
            }
        }
        row += 1;
    }
    proof {
        assert forall|k: int| 384 * stride <= k < buf@.len() implies target[k] == before[k] by {
            lemma_row_above(k, stride as int, 384);
        }
        assert(buf@ =~= target);
    }
}

proof fn lemma_row_below(k: int, stride: int, row: int)
    requires
        0 <= k < row * stride,
        stride > 0,
    ensures
        k / stride < row,
{
    assert(k / stride < row) by (nonlinear_arith)
        requires
            0 <= k < row * stride,
            stride > 0,
    ;
}

proof fn lemma_row_above(k: int, stride: int, row: int)
    requires
        k >= row * stride,
        stride > 0,
    ensures
        k / stride >= row,
{
    assert(k / stride >= row) by (nonlinear_arith)
        requires
            k >= row * stride,
            stride > 0,
    ;
}

/// What is filled into the thermal half is what is decoded from it.
pub proof fn law_decoding_gives_back_what_was_filled_in(
    buf: Seq<u8>,
    stride: usize,
    samples: Seq<u16>,
)
    requires
        valid_stride(stride),
        buf.len() >= stride * (2 * HEIGHT),
        samples.len() == SAMPLES,
    ensures
        samples_of(filled(buf, stride as int, samples), stride as int) == samples,
{
    let frame = filled(buf, stride as int, samples);
    let decoded = samples_of(frame, stride as int);
    assert(stride * (2 * HEIGHT) == 384 * stride) by (nonlinear_arith)
        requires
            HEIGHT == 192,
    ;
    assert forall|i: int| 0 <= i < SAMPLES implies decoded[i] == samples[i] by {
        let y = i / 256;
        let x = i % 256;
        let offset = sample_offset(stride as int, i);
        assert(offset == (192 + y) * stride + 2 * x);
        assert(0 <= offset && offset + 1 < 384 * stride) by (nonlinear_arith)
            requires
                offset == (192 + y) * stride + 2 * x,
                0 <= y <= 191,
                0 <= x <= 255,
                stride >= 512,
        ;
        lemma_fundamental_div_mod_converse(offset, stride as int, 192 + y, 2 * x);
        lemma_fundamental_div_mod_converse(offset + 1, stride as int, 192 + y, 2 * x + 1);
        assert(2 * x / 2 == x && (2 * x + 1) / 2 == x && y * 256 + x == i);
        assert(frame[offset] == (samples[i] % 256) as u8);
        assert(frame[offset + 1] == (samples[i] / 256) as u8);
    }
    assert(decoded =~= samples);
}

/// The sample in column `x` of row `y` stands in the bottom half of the frame,
/// least significant byte first: in row `192 + y`, two bytes per column.
pub proof fn law_sample_stands_in_the_bottom_half(buf: Seq<u8>, stride: int, x: int, y: int)
    requires
        0 <= x < 256,
        0 <= y < 192,
    ensures
        samples_of(buf, stride).len() == 256 * 192,
        samples_of(buf, stride)[256 * y + x] == buf[(192 + y) * stride + 2 * x] + 256 * buf[(192
            + y) * stride + 2 * x + 1],
{
    assert((256 * y + x) / 256 == y && (256 * y + x) % 256 == x);
}

/// Filling in writes the samples there, and nothing else.
pub proof fn law_filling_writes_the_samples_alone(
    buf: Seq<u8>,
    stride: int,
    samples: Seq<u16>,
    row: int,
    column: int,
)
    requires
        stride >= 512,
        samples.len() == 256 * 192,
        0 <= row,
        0 <= column < stride,
        row * stride + column < buf.len(),
    ensures
        filled(buf, stride, samples).len() == buf.len(),
        ({
            let k = row * stride + column;
            let byte = filled(buf, stride, samples)[k];
            if row < 192 || row >= 384 || column >= 512 {
                byte == buf[k]
            } else if column % 2 == 0 {
                byte == samples[256 * (row - 192) + column / 2] % 256
            } else {
                byte == samples[256 * (row - 192) + column / 2] / 256
            }
        }),
{
    let k = row * stride + column;
    assert(0 <= k) by (nonlinear_arith)
        requires
            k == row * stride + column,
            row >= 0,
            stride >= 512,
            column >= 0,
    ;
    lemma_fundamental_div_mod_converse(k, stride, row, column);
}

} // verus!
