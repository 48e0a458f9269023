//! Lossless video recording of the rendered frames into a HuffYUV AVI file.
//!
//! The pixel layout, the encoding of a frame and the life of a recording are
//! decided here; opening files and writing the container belong to the
//! caller, who carries out the actions that [`VideoWriter`] asks for.

use crate::bytes::{le32, le32_value};
use crate::text::{decimal, push_decimal};
use vstd::arithmetic::div_mod::lemma_fundamental_div_mod_converse;
use vstd::prelude::*;

verus! {

/// The number of bytes of a raster with four bytes per pixel.
pub open spec fn raster_len(width: u32, height: u32) -> int {
    width * height * 4
}

/// The channel of an RGBA pixel that stands at place `c` of a BGRA pixel.
pub open spec fn bgra_channel(c: int) -> int {
    if c == 0 {
        2
    } else if c == 2 {
        0
    } else {
        c
    }
}

/// The place in a top-down RGBA raster of the byte that stands at `i` in the
/// bottom-up BGRA raster of the same size.
pub open spec fn wire_source(width: u32, height: u32, i: int) -> int {
    let x = i / 4 % (width as int);
    let y = i / 4 / (width as int);
    ((height - 1 - y) * width + x) * 4 + bgra_channel(i % 4)
}

/// The bottom-up BGRA raster that shows the same picture as the top-down
/// RGBA raster `rgba`.
pub open spec fn wire_raster(width: u32, height: u32, rgba: Seq<u8>) -> Seq<u8> {
    Seq::new(raster_len(width, height) as nat, |i: int| rgba[wire_source(width, height, i)])
}

/// The byte at `i` of the synthetic frame `frame_num`: a diagonal gradient.
pub open spec fn synth_byte(frame_num: u8, i: int) -> u8 {
    let x = i / 4 % 256;
    let y = i / 4 / 256;
    if i % 4 == 0 {
        ((x + y + frame_num) % 256) as u8
    } else if i % 4 == 1 {
        ((x * 3 + y * 5) % 256) as u8
    } else if i % 4 == 2 {
        ((x * 7 + y * 11) % 256) as u8
    } else {
        0xFF
    }
}

proof fn lemma_raster_place(width: int, height: int, y: int, x: int, c: int)
    requires
        0 <= x < width,
        0 <= y < height,
        0 <= c < 4,
    ensures
        ({
            let i = (y * width + x) * 4 + c;
            &&& 0 <= i < width * height * 4
            &&& i % 4 == c
            &&& i / 4 == y * width + x
            &&& i / 4 % width == x
            &&& i / 4 / width == y
        }),
{
    let p = y * width + x;
    assert(0 <= p < width * height) by (nonlinear_arith)
        requires
            0 <= x < width,
            0 <= y < height,
            p == y * width + x,
    ;
    lemma_fundamental_div_mod_converse(p, width, y, x);
}

proof fn lemma_raster_split(width: int, height: int, i: int)
    requires
        0 < width,
        0 <= i < width * height * 4,
    ensures
        0 <= i / 4 % width < width,
        0 <= i / 4 / width < height,
        i == (i / 4 / width * width + i / 4 % width) * 4 + i % 4,
{
    let p = i / 4;
    let y = p / width;
    let x = p % width;
    assert(0 <= p < width * height);
    assert(p == y * width + x && 0 <= x < width) by (nonlinear_arith)
        requires
            0 < width,
            y == p / width,
            x == p % width,
    ;
    assert(0 <= y < height) by (nonlinear_arith)
        requires
            0 <= p < width * height,
            p == y * width + x,
            0 <= x < width,
    ;
}

proof fn lemma_wire_source(width: u32, height: u32, i: int)
    requires
        0 <= i < raster_len(width, height),
    ensures
        0 <= wire_source(width, height, i) < raster_len(width, height),
        wire_source(width, height, wire_source(width, height, i)) == i,
{
    let w = width as int;
    let h = height as int;
    assert(0 < w) by (nonlinear_arith)
        requires
            0 <= i < w * h * 4,
            0 <= w,
    ;
    lemma_raster_split(w, h, i);
    let x = i / 4 % w;
    let y = i / 4 / w;
    lemma_raster_place(w, h, h - 1 - y, x, bgra_channel(i % 4));
}

/// The picture is turned over and its colors change places: the pixel in
/// column `x` of row `y` stands in the row as far from the bottom as it was
/// from the top, blue first, then green, red and alpha.
pub proof fn law_picture_is_turned_over(
    width: u32,
    height: u32,
    rgba: Seq<u8>,
    x: int,
    y: int,
)
    requires
        rgba.len() == width * height * 4,
        0 <= x < width,
        0 <= y < height,
    ensures
        wire_raster(width, height, rgba).len() == width * height * 4,
        ({
            let wire = wire_raster(width, height, rgba);
            let from = (y * width + x) * 4;
            let to = ((height - 1 - y) * width + x) * 4;
            &&& 0 <= to && to + 3 < wire.len()
            &&& wire[to] == rgba[from + 2]
            &&& wire[to + 1] == rgba[from + 1]
            &&& wire[to + 2] == rgba[from]
            &&& wire[to + 3] == rgba[from + 3]
        }),
{
    let w = width as int;
    let h = height as int;
    assert(raster_len(width, height) >= 0) by (nonlinear_arith);
    lemma_raster_place(w, h, h - 1 - y, x, 0);
    lemma_raster_place(w, h, h - 1 - y, x, 1);
    lemma_raster_place(w, h, h - 1 - y, x, 2);
    lemma_raster_place(w, h, h - 1 - y, x, 3);
}

/// The synthetic frame: in column `x` of row `y` the red value grows along the
/// diagonal and with the frame number, green by 3 per column and 5 per row,
/// blue by 7 and 11; the pixel is opaque.
pub proof fn law_synthetic_pixel(frame_num: u8, x: int, y: int)
    requires
        0 <= x < 256,
        0 <= y < 192,
    ensures
        synth_byte(frame_num, 4 * (256 * y + x)) == (x + y + frame_num) % 256,
        synth_byte(frame_num, 4 * (256 * y + x) + 1) == (3 * x + 5 * y) % 256,
        synth_byte(frame_num, 4 * (256 * y + x) + 2) == (7 * x + 11 * y) % 256,
        synth_byte(frame_num, 4 * (256 * y + x) + 3) == 255,
{
}

/// Converting twice gives the raster back: no byte is lost or duplicated.
pub proof fn law_conversion_is_its_own_inverse(width: u32, height: u32, rgba: Seq<u8>)
    requires
        rgba.len() == raster_len(width, height),
    ensures
        wire_raster(width, height, wire_raster(width, height, rgba)) == rgba,
{
    let wire = wire_raster(width, height, rgba);
    let back = wire_raster(width, height, wire);
    assert(raster_len(width, height) >= 0) by (nonlinear_arith);
    assert forall|i: int| 0 <= i < rgba.len() implies back[i] == rgba[i] by {
        lemma_wire_source(width, height, i);
    }
    assert(back =~= rgba);
}

/// Two rasters of one size with the same wire layout are the same raster.
pub proof fn law_conversion_is_injective(width: u32, height: u32, a: Seq<u8>, b: Seq<u8>)
    requires
        a.len() == raster_len(width, height),
        b.len() == raster_len(width, height),
        wire_raster(width, height, a) == wire_raster(width, height, b),
    ensures
        a == b,
{
    law_conversion_is_its_own_inverse(width, height, a);
    law_conversion_is_its_own_inverse(width, height, b);
}

/// Converts a top-down RGBA8 raster into the HuffYUV RGB32 wire layout
/// (packed BGRA, bottom-up row order). A buffer that is not of the raster's
/// size gives a raster of zeros.
pub fn rgba_to_bgra_bottom_up(width: u32, height: u32, rgba: &[u8]) -> (out: Vec<u8>)
    requires
        raster_len(width, height) <= usize::MAX,
    ensures
        out@.len() == width * height * 4,
        rgba@.len() == raster_len(width, height) ==> out@ == wire_raster(width, height, rgba@),
        rgba@.len() != raster_len(width, height) ==> forall|i: int|
            0 <= i < out@.len() ==> out@[i] == 0,
{
    let w: usize = width as usize;
    let h: usize = height as usize;
    proof {
        assert(0 <= w * h <= w * h * 4 <= usize::MAX) by (nonlinear_arith)
            requires
                w * h * 4 <= usize::MAX,
                0 <= w,
                0 <= h,
        ;
    }
    let len: usize = w * h * 4;
    if rgba.len() != len {
        return vec![0u8; len];
    }
    let mut out: Vec<u8> = Vec::with_capacity(len);
    let ghost expected = wire_raster(width, height, rgba@);
    let mut row: usize = 0;
    while row < h
        invariant
            w == width,
            h == height,
            len == w * h * 4,
            len <= usize::MAX,
            rgba@.len() == len,
            row <= h,
            expected == wire_raster(width, height, rgba@),
            out@.len() == row * w * 4,
            forall|i: int| 0 <= i < out@.len() ==> out@[i] == expected[i],
        decreases h - row,
    {
        let mut x: usize = 0;
        proof {
            assert(0 <= row * w <= (h - 1) * w <= h * w) by (nonlinear_arith)
                requires
                    0 <= row <= h - 1,
                    0 <= w,
            ;
            assert(0 <= (h - 1 - row) * w <= h * w) by (nonlinear_arith)
                requires
                    0 <= row <= h - 1,
                    0 <= w,
            ;
            assert(h * w == w * h) by (nonlinear_arith);
        }
        let top: usize = (h - 1 - row) * w;
        while x < w
            invariant
                w == width,
                h == height,
                len == w * h * 4,
                len <= usize::MAX,
                rgba@.len() == len,
                row < h,
                x <= w,
                top == (h - 1 - row) * w,
                expected == wire_raster(width, height, rgba@),
                out@.len() == (row * w + x) * 4,
                forall|i: int| 0 <= i < out@.len() ==> out@[i] == expected[i],
            decreases w - x,
        {
            let ghost before = out@;
            proof {
                assert forall|c: int| 0 <= c < 4 implies #[trigger] expected[before.len() + c]
                    == rgba@[(top + x) * 4 + bgra_channel(c)] by {
                    lemma_raster_place(w as int, h as int, row as int, x as int, c);
                }
                lemma_raster_place(w as int, h as int, h - 1 - row, x as int, 3);
            }
            let s: usize = (top + x) * 4;
            out.push(rgba[s + 2]);
            out.push(rgba[s + 1]);
            out.push(rgba[s]);
            out.push(rgba[s + 3]);
            proof {
                assert(expected[before.len() + 0int] == rgba@[s + 2]);
                assert(expected[before.len() + 1int] == rgba@[s + 1]);
                assert(expected[before.len() + 2int] == rgba@[s as int]);
                assert(expected[before.len() + 3int] == rgba@[s + 3]);
                assert forall|i: int| 0 <= i < out@.len() implies out@[i] == expected[i] by {
                    if i < before.len() {
                        assert(out@[i] == before[i]);
                    }
                }
            }
            x += 1;
        }
        proof {
            assert((row + 1) * w * 4 == (row * w + w) * 4) by (nonlinear_arith);
        }
        row += 1;
    }
    proof {
        assert(row * w * 4 == len) by (nonlinear_arith)
            requires
                row == h,
                len == w * h * 4,
        ;
        assert(out@ =~= expected);
    }
    out
}

/// A synthetic 256x192 top-down RGBA frame with a diagonal gradient.
pub fn synth_rgba(frame_num: u8) -> (v: Vec<u8>)
    ensures
        v@.len() == 256 * 192 * 4,
        forall|i: int| 0 <= i < v@.len() ==> v@[i] == synth_byte(frame_num, i),
{
    let mut v: Vec<u8> = Vec::with_capacity(196608);
    let mut y: usize = 0;
    while y < 192
        invariant
            y <= 192,
            v@.len() == y * 1024,
            forall|i: int| 0 <= i < v@.len() ==> v@[i] == synth_byte(frame_num, i),
        decreases 192 - y,
    {
        let mut x: usize = 0;
        while x < 256
            invariant
                y < 192,
                x <= 256,
                v@.len() == y * 1024 + x * 4,
                forall|i: int| 0 <= i < v@.len() ==> v@[i] == synth_byte(frame_num, i),
            decreases 256 - x,
        {
            v.push(((x + y + frame_num as usize) % 256) as u8);
            v.push(((x * 3 + y * 5) % 256) as u8);
            v.push(((x * 7 + y * 11) % 256) as u8);
            v.push(0xFF);
            x += 1;
        }
        y += 1;
    }
    v
}

/// What the HuffYUV encoder makes of a bottom-up BGRA raster: the stream
/// format block and the bytes of the frame.
pub uninterp spec fn huffyuv_encoding(width: u32, height: u32, wire: Seq<u8>) -> (
    Seq<u8>,
    Seq<u8>,
);

/// What the HuffYUV decoder makes of the bytes of a frame under a format
/// block: the dimensions and the bottom-up BGRA raster, or nothing.
pub uninterp spec fn huffyuv_decoding(strf: Seq<u8>, frame: Seq<u8>) -> Option<
    (u32, u32, Seq<u8>),
>;

/// A dimension as a format block gives it: the magnitude of a signed number.
pub open spec fn header_dimension(n: u32) -> int {
    if n <= 0x8000_0000 {
        n as int
    } else {
        0x1_0000_0000 - n
    }
}

/// The little-endian number in the four bytes at `i`.
pub open spec fn header_number(strf: Seq<u8>, i: int) -> u32 {
    (strf[i] + 256 * strf[i + 1] + 65536 * strf[i + 2] + 16777216 * strf[i + 3]) as u32
}

/// A format block of 32-bit pixels with the method `Left`, whose raster fits
/// in memory.
pub open spec fn is_format_block(strf: Seq<u8>) -> bool {
    &&& strf.len() >= 44
    &&& strf[14] == 32
    &&& strf[15] == 0
    &&& strf[40] == 0
    &&& strf[41] == 32
    &&& header_dimension(header_number(strf, 4)) * header_dimension(header_number(strf, 8)) * 4
        <= isize::MAX
}

/// `oxideav_huffyuv::encode_frame_with_mode` for the RGB32 family, the method
/// `Left` and the classic v2 tables.
///
/// On a raster of the right size with at least one pixel it succeeds: the
/// classic RGB tables give every residual a code. The format block is a
/// 40-byte bitmap header, with the dimensions and the bit count, followed by
/// the extradata, which begin with the method, 0 for `Left`, and the bit
/// count; it depends on the dimensions alone. No two rasters of one size share
/// their frame bytes, and the decoder gives the raster back. The last does not
/// hold of dimensions beyond 2^31, which the header stores as signed numbers.
#[verifier::external_body]
fn huffyuv_encode(width: u32, height: u32, wire: &[u8]) -> (r: (Vec<u8>, Vec<u8>))
    requires
        0 < raster_len(width, height) == wire@.len(),
    ensures
        (r.0@, r.1@) == huffyuv_encoding(width, height, wire@),
        r.0@.len() >= 44,
        r.0@.subrange(4, 8) == le32(width),
        r.0@.subrange(8, 12) == le32(height),
        r.0@[14] == 32 && r.0@[15] == 0,
        r.0@[40] == 0 && r.0@[41] == 32,
        forall|other: Seq<u8>|
            other.len() == wire@.len() ==> (#[trigger] huffyuv_encoding(width, height, other)).0
                == r.0@,
        forall|other: Seq<u8>|
            other.len() == wire@.len() && (#[trigger] huffyuv_encoding(width, height, other)).1
                == r.1@ ==> other == wire@,
        width <= 0x8000_0000 && height <= 0x8000_0000 ==> huffyuv_decoding(r.0@, r.1@) == Some(
            (width, height, wire@),
        ),
{
    oxideav_huffyuv::encode_frame_with_mode(
        oxideav_huffyuv::PixelFamily::Rgb32,
        oxideav_huffyuv::Method::Left,
        width,
        height,
        wire,
        oxideav_huffyuv::ExtradataMode::ClassicV2,
    )
    .expect("the classic tables encode every raster")
}

/// `oxideav_huffyuv::StreamConfig::parse_bitmapinfoheader` on the format block,
/// then `oxideav_huffyuv::decode_frame` on the frame: what they make of it
/// depends on the bytes alone.
#[verifier::external_body]
fn huffyuv_decode(strf: &[u8], frame: &[u8]) -> (r: Option<(u32, u32, Vec<u8>)>)
    requires
        is_format_block(strf@),
    ensures
        huffyuv_decoding(strf@, frame@) == (match r {
            Some((width, height, wire)) => Some((width, height, wire@)),
            None => None,
        }),
{
    let config = oxideav_huffyuv::StreamConfig::parse_bitmapinfoheader(strf).ok()?;
    let frame = oxideav_huffyuv::decode_frame(&config, frame).ok()?;
    Some((frame.width, frame.height, frame.pixels))
}

/// Why a frame could not be encoded.
#[derive(Debug)]
pub enum VideoError {
    /// The buffer is not of the size that the dimensions call for.
    SizeMismatch { len: usize, width: u32, height: u32 },
}

/// The text shown to the user for a buffer of `len` bytes that does not suit
/// its dimensions.
pub open spec fn size_mismatch_text(len: nat, width: u32, height: u32) -> Seq<char> {
    "Frame buf size mismatch: "@ + decimal(len) + " for "@ + decimal(width as nat) + "x"@ + decimal(
        height as nat,
    )
}

impl VideoError {
    /// The text shown to the user.
    pub open spec fn text(self) -> Seq<char> {
        match self {
            VideoError::SizeMismatch { len, width, height } => size_mismatch_text(
                len as nat,
                width,
                height,
            ),
        }
    }

    /// The text shown to the user.
    pub fn message(&self) -> (r: String)
        ensures
            r@ == self.text(),
            self matches VideoError::SizeMismatch { len, width, height } ==> r@
                == "Frame buf size mismatch: "@ + decimal(*len as nat) + " for "@ + decimal(
                *width as nat,
            ) + "x"@ + decimal(*height as nat),
    {
        match self {
            VideoError::SizeMismatch { len, width, height } => {
                let mut r = "Frame buf size mismatch: ".to_owned();
                push_decimal(&mut r, *len as u64);
                r.append(" for ");
                push_decimal(&mut r, *width as u64);
                r.append("x");
                push_decimal(&mut r, *height as u64);
                r
            },
        }
    }
}

/// The format block and the frame bytes of a top-down RGBA raster.
pub open spec fn encoded(width: u32, height: u32, rgba: Seq<u8>) -> (Seq<u8>, Seq<u8>) {
    huffyuv_encoding(width, height, wire_raster(width, height, rgba))
}

/// No raster of the same size but `rgba` is encoded as `frame`.
pub open spec fn lossless(width: u32, height: u32, rgba: Seq<u8>, frame: Seq<u8>) -> bool {
    forall|other: Seq<u8>|
        other.len() == rgba.len() && (#[trigger] encoded(width, height, other)).1 == frame
            ==> other == rgba
}

/// The frame bytes, decoded under the format block, give the dimensions and
/// the wire layout of `rgba` back. Dimensions beyond 2^31 are left out: a
/// format block does not hold them.
pub open spec fn decodes_back(
    width: u32,
    height: u32,
    rgba: Seq<u8>,
    strf: Seq<u8>,
    frame: Seq<u8>,
) -> bool {
    width <= 0x8000_0000 && height <= 0x8000_0000 ==> {
        &&& raster_len(width, height) <= isize::MAX ==> is_format_block(strf)
        &&& huffyuv_decoding(strf, frame) == Some(
            (width, height, wire_raster(width, height, rgba)),
        )
    }
}

/// The sizes for which a frame can be handed to the encoder: the byte count
/// fits in memory, and a raster without pixels is not passed off as a frame.
pub open spec fn encodable(width: u32, height: u32, len: nat) -> bool {
    &&& raster_len(width, height) <= usize::MAX
    &&& len > 0 || raster_len(width, height) > 0
}

/// Encodes one frame as HuffYUV (RGB32 family, classic v2.x extradata).
///
/// The method is `Left` (byte 0x00), *not* the wire-equivalent
/// `predict_old` (0xFE): FFmpeg's HuffYUV decoder parses the v2 extradata
/// method byte as `method & 63`, so 0xFE yields an unsupported predictor.
///
/// Returns the format block and the frame bytes. The format block is the same
/// for all frames of a stream and only needed to open the muxer; the frame
/// bytes determine the raster.
pub fn encode_huffyuv(width: u32, height: u32, rgba: &[u8]) -> (r: Result<
    (Vec<u8>, Vec<u8>),
    VideoError,
>)
    requires
        encodable(width, height, rgba@.len()),
    ensures
        r is Ok <==> rgba@.len() == width * height * 4,
        r matches Ok((strf, frame)) ==> {
            &&& width <= 0x8000_0000 && height <= 0x8000_0000 ==> huffyuv_decoding(strf@, frame@)
                == Some((width, height, wire_raster(width, height, rgba@)))
            &&& (strf@, frame@) == encoded(width, height, rgba@)
            &&& strf@.len() >= 44
            &&& strf@[40] == 0
            &&& lossless(width, height, rgba@, frame@)
            &&& decodes_back(width, height, rgba@, strf@, frame@)
            &&& forall|other: Seq<u8>|
                other.len() == rgba@.len() ==> (#[trigger] encoded(width, height, other)).0 == strf@
        },
        r matches Err(e) ==> e == (VideoError::SizeMismatch { len: rgba.len(), width, height }),
{
    let w: usize = width as usize;
    let h: usize = height as usize;
    proof {
        assert(0 <= w * h <= w * h * 4 <= usize::MAX) by (nonlinear_arith)
            requires
                w * h * 4 <= usize::MAX,
                0 <= w,
                0 <= h,
        ;
    }
    if rgba.len() != w * h * 4 {
        return Err(VideoError::SizeMismatch { len: rgba.len(), width, height });
    }
    let wire = rgba_to_bgra_bottom_up(width, height, rgba);
    let (strf, frame) = huffyuv_encode(width, height, wire.as_slice());
    proof {
        assert forall|other: Seq<u8>|
            other.len() == rgba@.len() && (#[trigger] encoded(width, height, other)).1
                == frame@ implies other == rgba@ by {
            law_conversion_is_injective(width, height, other, rgba@);
        }
        lemma_header_number(strf@, 4, width);
        lemma_header_number(strf@, 8, height);
    }
    Ok((strf, frame))
}

proof fn lemma_header_number(strf: Seq<u8>, i: int, n: u32)
    requires
        0 <= i,
        i + 4 <= strf.len(),
        strf.subrange(i, i + 4) == le32(n),
    ensures
        header_number(strf, i) == n,
{
    let part = strf.subrange(i, i + 4);
    assert(part[0] == strf[i] && part[1] == strf[i + 1] && part[2] == strf[i + 2] && part[3]
        == strf[i + 3]);
    assert(part[0] == (n % 256) as u8 && part[1] == (n / 256 % 256) as u8);
    assert(part[2] == (n / 65536 % 256) as u8 && part[3] == (n / 16777216) as u8);
}

/// A decoded frame, in the wire layout.
#[derive(Debug)]
pub struct DecodedFrame {
    pub width: u32,
    pub height: u32,
    /// The bottom-up BGRA raster.
    pub wire: Vec<u8>,
}

/// Decodes a frame that [`encode_huffyuv`] has encoded, under its format
/// block. `None` if the format block is of another kind, or if the decoder
/// cannot make sense of the bytes.
pub fn decode_huffyuv(strf: &[u8], frame: &[u8]) -> (r: Option<DecodedFrame>)
    ensures
        match r {
            Some(f) => is_format_block(strf@) && huffyuv_decoding(strf@, frame@) == Some(
                (f.width, f.height, f.wire@),
            ),
            None => !is_format_block(strf@) || huffyuv_decoding(strf@, frame@) is None,
        },
{
    if strf.len() < 44 || strf[14] != 32 || strf[15] != 0 || strf[40] != 0 || strf[41] != 32 {
        return None;
    }
    let width: u64 = dimension(le32_value(strf[4], strf[5], strf[6], strf[7]));
    let height: u64 = dimension(le32_value(strf[8], strf[9], strf[10], strf[11]));
    assert(0 <= width * height <= 0x8000_0000 * 0x8000_0000) by (nonlinear_arith)
        requires
            0 <= width <= 0x8000_0000,
            0 <= height <= 0x8000_0000,
    ;
    if width * height > (isize::MAX / 4) as u64 {
        return None;
    }
    match huffyuv_decode(strf, frame) {
        Some((width, height, wire)) => Some(DecodedFrame { width, height, wire }),
        None => None,
    }
}

fn dimension(n: u32) -> (r: u64)
    ensures
        r == header_dimension(n),
{
    if n <= 0x8000_0000 {
        n as u64
    } else {
        0x1_0000_0000 - n as u64
    }
}

/// Frames per second: the camera's native frame rate. Time stamps count in
/// units of one frame.
pub const FRAME_RATE: u32 = 25;

/// Size of the bitmap header that the encoder puts before the extradata and
/// that the muxer writes itself.
pub const BITMAP_HEADER_LEN: usize = 40;

/// What the container needs to know of the stream before the first packet.
#[derive(Debug)]
pub struct StreamSetup {
    pub width: u32,
    pub height: u32,
    /// The FourCC of the codec.
    pub fourcc: [u8; 4],
    /// Frames per second.
    pub frame_rate: u32,
    /// The codec's tables, without the bitmap header.
    pub extradata: Vec<u8>,
}

/// The stream of a recording with the given dimensions, from the encoder's
/// format block: the extradata is what follows the bitmap header.
pub fn stream_setup(width: u32, height: u32, strf: &[u8]) -> (r: StreamSetup)
    ensures
        r.width == width,
        r.height == height,
        r.fourcc@ == seq![0x48u8, 0x46, 0x59, 0x55],
        r.frame_rate == FRAME_RATE,
        strf@.len() > 40 ==> r.extradata@ == strf@.subrange(40, strf@.len() as int),
        strf@.len() <= 40 ==> r.extradata@ == Seq::<u8>::empty(),
{
    let mut extradata: Vec<u8> = Vec::new();
    if strf.len() > BITMAP_HEADER_LEN {
        let tables = vstd::slice::slice_subrange(strf, BITMAP_HEADER_LEN, strf.len());
        extradata.extend_from_slice(tables);
        assert(extradata@ =~= strf@.subrange(40, strf@.len() as int));
    }
    let fourcc = [0x48u8, 0x46, 0x59, 0x55];
    assert(fourcc@ =~= seq![0x48u8, 0x46, 0x59, 0x55]);
    StreamSetup { width, height, fourcc, frame_rate: FRAME_RATE, extradata }
}

/// One encoded frame on its way into the container.
#[derive(Debug)]
pub struct VideoPacket {
    /// Presentation time, in frames since the start of the recording.
    pub pts: i64,
    pub keyframe: bool,
    pub data: Vec<u8>,
}

/// Events reported by the writer to the user interface.
#[derive(Clone, Debug)]
pub enum VideoEvent {
    /// The recording was finalized (trailer written).
    /// Carries the number of frames written.
    Stopped { frames: u64 },
    /// A recording operation failed; the recorder is back to idle.
    Error(String),
}

/// An open recording.
#[derive(Clone, Copy, Debug, PartialEq, Eq, Structural)]
pub struct OpenRec {
    /// Frames written so far.
    pub frames: u64,
    pub width: u32,
    pub height: u32,
}

/// Where a recording stands.
#[derive(Clone, Copy, Debug, PartialEq, Eq, Structural)]
pub enum WriterState {
    /// No output file.
    Idle,
    /// The output file is open and waits for the first frame, whose
    /// dimensions the stream header needs.
    Pending,
    /// The header and the first frame are being written.
    Opening { width: u32, height: u32 },
    /// The file has its header and at least one frame.
    Open(OpenRec),
    /// Another frame is being written.
    Appending(OpenRec),
}

/// What to do with a frame.
#[derive(Debug)]
pub enum FrameAction {
    /// Nothing is recorded: drop the frame.
    Ignore,
    /// The frame is not of the recording's dimensions: drop it.
    SkipResized { from: OpenRec },
    /// Write the stream header and the frame; then call
    /// [`VideoWriter::frame_written`] or [`VideoWriter::frame_failed`].
    Open { setup: StreamSetup, packet: VideoPacket },
    /// Write the frame; then call [`VideoWriter::frame_written`] or
    /// [`VideoWriter::frame_failed`].
    Append(VideoPacket),
    /// Drop the output file, if there is one, and report the event.
    Abort(VideoEvent),
}

/// What to do at the end of a recording.
#[derive(Debug)]
pub enum StopAction {
    /// Write the trailer, close the file, and report what [`finalize`] says.
    Finalize { frames: u64 },
    /// Drop the output file, if there is one, and report the event.
    Report(VideoEvent),
}

/// What a [`StreamSetup`] says.
pub struct SetupView {
    pub width: u32,
    pub height: u32,
    pub fourcc: Seq<u8>,
    pub frame_rate: u32,
    pub extradata: Seq<u8>,
}

impl View for StreamSetup {
    type V = SetupView;

    open spec fn view(&self) -> SetupView {
        SetupView {
            width: self.width,
            height: self.height,
            fourcc: self.fourcc@,
            frame_rate: self.frame_rate,
            extradata: self.extradata@,
        }
    }
}

/// What a [`VideoPacket`] holds.
pub struct PacketView {
    pub pts: int,
    pub keyframe: bool,
    pub data: Seq<u8>,
}

impl View for VideoPacket {
    type V = PacketView;

    open spec fn view(&self) -> PacketView {
        PacketView { pts: self.pts as int, keyframe: self.keyframe, data: self.data@ }
    }
}

/// What a [`VideoEvent`] reports.
pub enum EventView {
    Stopped { frames: int },
    Error(Seq<char>),
}

impl View for VideoEvent {
    type V = EventView;

    open spec fn view(&self) -> EventView {
        match self {
            VideoEvent::Stopped { frames } => EventView::Stopped { frames: *frames as int },
            VideoEvent::Error(msg) => EventView::Error(msg@),
        }
    }
}

/// What a [`FrameAction`] asks for.
pub enum FrameActionView {
    Ignore,
    SkipResized { from: OpenRec },
    Open { setup: SetupView, packet: PacketView },
    Append(PacketView),
    Abort(EventView),
}

impl View for FrameAction {
    type V = FrameActionView;

    open spec fn view(&self) -> FrameActionView {
        match self {
            FrameAction::Ignore => FrameActionView::Ignore,
            FrameAction::SkipResized { from } => FrameActionView::SkipResized { from: *from },
            FrameAction::Open { setup, packet } => FrameActionView::Open {
                setup: setup@,
                packet: packet@,
            },
            FrameAction::Append(packet) => FrameActionView::Append(packet@),
            FrameAction::Abort(event) => FrameActionView::Abort(event@),
        }
    }
}

/// What a [`StopAction`] asks for.
pub enum StopActionView {
    Finalize { frames: int },
    Report(EventView),
}

impl View for StopAction {
    type V = StopActionView;

    open spec fn view(&self) -> StopActionView {
        match self {
            StopAction::Finalize { frames } => StopActionView::Finalize { frames: *frames as int },
            StopAction::Report(event) => StopActionView::Report(event@),
        }
    }
}

/// The packet of `rgba`, the frame number `index` of a recording.
pub open spec fn packet_of(index: int, width: u32, height: u32, rgba: Seq<u8>) -> PacketView {
    PacketView { pts: index, keyframe: true, data: encoded(width, height, rgba).1 }
}

/// The stream that begins with the frame `rgba`.
pub open spec fn setup_of(width: u32, height: u32, rgba: Seq<u8>) -> SetupView {
    let strf = encoded(width, height, rgba).0;
    SetupView {
        width,
        height,
        fourcc: seq![0x48u8, 0x46, 0x59, 0x55],
        frame_rate: FRAME_RATE,
        extradata: strf.subrange(BITMAP_HEADER_LEN as int, strf.len() as int),
    }
}

/// The report of an output file that could not be created.
pub open spec fn create_failure(path: Seq<char>, error: Seq<char>) -> EventView {
    EventView::Error("Cannot create video file "@ + path + ": "@ + error)
}

/// The report of a trailer that could not be written.
pub open spec fn finalize_failure(reason: Seq<char>) -> EventView {
    EventView::Error("Finalizing the video file failed: "@ + reason)
}

impl WriterState {
    /// No frame is being written.
    pub open spec fn at_rest(self) -> bool {
        !(self is Opening) && !(self is Appending)
    }

    /// A frame of these dimensions would be encoded.
    pub open spec fn encodes(self, width: u32, height: u32) -> bool {
        match self {
            WriterState::Pending => true,
            WriterState::Open(rec) => rec.width == width && rec.height == height,
            _ => false,
        }
    }

    /// The number of frames in the file.
    pub open spec fn frames(self) -> int {
        match self {
            WriterState::Open(rec) => rec.frames as int,
            WriterState::Appending(rec) => rec.frames as int,
            _ => 0,
        }
    }

    /// The state after a frame of `len` bytes came in.
    pub open spec fn after_frame(self, width: u32, height: u32, len: nat) -> WriterState {
        let fits = len == raster_len(width, height);
        match self {
            WriterState::Pending => if fits {
                WriterState::Opening { width, height }
            } else {
                WriterState::Idle
            },
            WriterState::Open(rec) => if rec.width != width || rec.height != height {
                self
            } else if fits {
                WriterState::Appending(rec)
            } else {
                WriterState::Idle
            },
            _ => self,
        }
    }

    /// The state after the frame under way was written.
    pub open spec fn after_written(self) -> WriterState {
        match self {
            WriterState::Opening { width, height } => WriterState::Open(
                OpenRec { frames: 1, width, height },
            ),
            WriterState::Appending(rec) => WriterState::Open(
                OpenRec { frames: (rec.frames + 1) as u64, width: rec.width, height: rec.height },
            ),
            _ => self,
        }
    }

    /// What is done with a frame.
    pub open spec fn frame_action(self, width: u32, height: u32, rgba: Seq<u8>) -> FrameActionView {
        let fits = rgba.len() == raster_len(width, height);
        let mismatch = EventView::Error(size_mismatch_text(rgba.len(), width, height));
        match self {
            WriterState::Pending => if fits {
                FrameActionView::Open {
                    setup: setup_of(width, height, rgba),
                    packet: packet_of(0, width, height, rgba),
                }
            } else {
                FrameActionView::Abort(mismatch)
            },
            WriterState::Open(rec) => if rec.width != width || rec.height != height {
                FrameActionView::SkipResized { from: rec }
            } else if fits {
                FrameActionView::Append(packet_of(rec.frames as int, width, height, rgba))
            } else {
                FrameActionView::Abort(mismatch)
            },
            _ => FrameActionView::Ignore,
        }
    }

    /// What is done at the end of a recording.
    pub open spec fn stop_action(self) -> StopActionView {
        match self {
            WriterState::Open(rec) => StopActionView::Finalize { frames: rec.frames as int },
            _ => StopActionView::Report(EventView::Stopped { frames: 0 }),
        }
    }
}

/// The writer of a recording: which frames go into the file, under which
/// time stamps, and what is reported.
#[derive(Debug)]
pub struct VideoWriter {
    state: WriterState,
}

impl VideoWriter {
    /// Where the recording stands.
    pub closed spec fn state(&self) -> WriterState {
        self.state
    }

    /// A writer without an output file.
    pub fn new() -> (w: VideoWriter)
        ensures
            w.state() == WriterState::Idle,
    {
        VideoWriter { state: WriterState::Idle }
    }

    /// The number of frames in the file.
    pub fn frames(&self) -> (r: u64)
        ensures
            r == self.state().frames(),
    {
        match self.state {
            WriterState::Open(rec) | WriterState::Appending(rec) => rec.frames,
            _ => 0,
        }
    }

    /// Whether a frame of these dimensions would be encoded.
    pub fn encodes(&self, width: u32, height: u32) -> (r: bool)
        ensures
            r == self.state().encodes(width, height),
    {
        match self.state {
            WriterState::Pending => true,
            WriterState::Open(rec) => rec.width == width && rec.height == height,
            _ => false,
        }
    }

    /// Whether a target for a new recording is accepted. While a recording
    /// goes on, another target is ignored.
    pub fn accepts_target(&self) -> (r: bool)
        ensures
            r == (self.state() is Idle),
    {
        matches!(self.state, WriterState::Idle)
    }

    /// The output file was opened.
    pub fn target_opened(&mut self)
        requires
            old(self).state() is Idle,
        ensures
            final(self).state() == WriterState::Pending,
    {
        self.state = WriterState::Pending;
    }

    /// A frame came in: decides what happens to it.
    pub fn frame(&mut self, width: u32, height: u32, rgba: &[u8]) -> (action: FrameAction)
        requires
            old(self).state().at_rest(),
            old(self).state().frames() < i64::MAX,
            old(self).state().encodes(width, height) ==> encodable(width, height, rgba@.len()),
        ensures
            final(self).state() == old(self).state().after_frame(width, height, rgba@.len()),
            action@ == old(self).state().frame_action(width, height, rgba@),
            action matches FrameAction::Open { setup, packet } ==> {
                &&& old(self).state() is Pending
                &&& setup.width == width && setup.height == height
                &&& packet.pts == 0
                &&& packet.keyframe
                &&& width <= 0x8000_0000 && height <= 0x8000_0000 ==> huffyuv_decoding(
                    encoded(width, height, rgba@).0,
                    packet.data@,
                ) == Some((width, height, wire_raster(width, height, rgba@)))
                &&& setup.extradata@.len() > 0 && setup.extradata@[0] == 0
                &&& lossless(width, height, rgba@, packet.data@)
                &&& decodes_back(
                    width,
                    height,
                    rgba@,
                    encoded(width, height, rgba@).0,
                    packet.data@,
                )
            },
            action matches FrameAction::Append(packet) ==> {
                &&& old(self).state() matches WriterState::Open(rec)
                &&& packet.pts == rec.frames
                &&& packet.keyframe
                &&& width <= 0x8000_0000 && height <= 0x8000_0000 ==> huffyuv_decoding(
                    encoded(width, height, rgba@).0,
                    packet.data@,
                ) == Some((width, height, wire_raster(width, height, rgba@)))
                &&& lossless(width, height, rgba@, packet.data@)
                &&& decodes_back(
                    width,
                    height,
                    rgba@,
                    encoded(width, height, rgba@).0,
                    packet.data@,
                )
            },
    {
        match self.state {
            WriterState::Pending => {
                match encode_huffyuv(width, height, rgba) {
                    Ok((strf, data)) => {
                        self.state = WriterState::Opening { width, height };
                        let setup = stream_setup(width, height, strf.as_slice());
                        assert(setup@ == setup_of(width, height, rgba@));
                        FrameAction::Open {
                            setup,
                            packet: VideoPacket { pts: 0, keyframe: true, data },
                        }
                    },
                    Err(e) => {
                        self.state = WriterState::Idle;
                        FrameAction::Abort(VideoEvent::Error(e.message()))
                    },
                }
            },
            WriterState::Open(rec) => {
                if rec.width != width || rec.height != height {
                    return FrameAction::SkipResized { from: rec };
                }
                match encode_huffyuv(width, height, rgba) {
                    Ok((_, data)) => {
                        self.state = WriterState::Appending(rec);
                        FrameAction::Append(
                            VideoPacket { pts: rec.frames as i64, keyframe: true, data },
                        )
                    },
                    Err(e) => {
                        self.state = WriterState::Idle;
                        FrameAction::Abort(VideoEvent::Error(e.message()))
                    },
                }
            },
            _ => FrameAction::Ignore,
        }
    }

    /// The frame under way was written.
    pub fn frame_written(&mut self)
        requires
            !old(self).state().at_rest(),
            old(self).state().frames() < i64::MAX,
        ensures
            final(self).state() == old(self).state().after_written(),
    {
        match self.state {
            WriterState::Opening { width, height } => {
                self.state = WriterState::Open(OpenRec { frames: 1, width, height });
            },
            WriterState::Appending(rec) => {
                self.state = WriterState::Open(
                    OpenRec { frames: rec.frames + 1, width: rec.width, height: rec.height },
                );
            },
            _ => {},
        }
    }

    /// The frame under way, or the header before it, could not be written for
    /// the given reason: the recording ends without being finalized.
    pub fn frame_failed(&mut self, reason: String) -> (event: VideoEvent)
        requires
            !old(self).state().at_rest(),
        ensures
            final(self).state() == WriterState::Idle,
            event == VideoEvent::Error(reason),
    {
        self.state = WriterState::Idle;
        VideoEvent::Error(reason)
    }

    /// Ends the recording. An output file that has not seen a frame has no
    /// header and is just dropped.
    pub fn stop(&mut self) -> (action: StopAction)
        requires
            old(self).state().at_rest(),
        ensures
            final(self).state() == WriterState::Idle,
            action@ == old(self).state().stop_action(),
    {
        let state = self.state;
        self.state = WriterState::Idle;
        match state {
            WriterState::Open(rec) => StopAction::Finalize { frames: rec.frames },
            _ => StopAction::Report(VideoEvent::Stopped { frames: 0 }),
        }
    }
}

/// What is asked of a [`VideoRecorder`].
#[derive(Clone, Copy, Debug, PartialEq, Eq, Structural)]
pub enum RecorderCall {
    Start,
    Stop,
    Shutdown,
}

/// Whether frames are forwarded to the writer after a call.
pub open spec fn records_after(recording: bool, call: RecorderCall) -> bool {
    match call {
        RecorderCall::Start => true,
        RecorderCall::Stop | RecorderCall::Shutdown => false,
    }
}

/// Whether a new recorder forwards frames to the writer after the given calls.
pub open spec fn records_after_all(calls: Seq<RecorderCall>) -> bool
    decreases calls.len(),
{
    if calls.len() == 0 {
        false
    } else {
        records_after(records_after_all(calls.drop_last()), calls.last())
    }
}

/// Frames are forwarded exactly while the last call was a start.
pub proof fn law_frames_are_forwarded_after_a_start(calls: Seq<RecorderCall>)
    ensures
        records_after_all(calls) <==> calls.len() > 0 && calls.last() == RecorderCall::Start,
{
}

/// The side of a recording that faces the live view: decides which frames
/// reach the writer.
#[derive(Debug)]
pub struct VideoRecorder {
    recording: bool,
}

impl VideoRecorder {
    /// Frames are forwarded to the writer.
    pub closed spec fn recording(&self) -> bool {
        self.recording
    }

    /// A recorder that forwards nothing yet.
    pub fn new() -> (r: VideoRecorder)
        ensures
            r.recording() == records_after_all(Seq::empty()),
    {
        VideoRecorder { recording: false }
    }

    /// A recording starts: frames passed to [`Self::push_frame`] from now on
    /// are forwarded.
    pub fn start(&mut self)
        ensures
            final(self).recording() == records_after(old(self).recording(), RecorderCall::Start),
    {
        self.recording = true;
    }

    /// Whether frames are currently being forwarded to the writer.
    pub fn is_recording(&self) -> (r: bool)
        ensures
            r == self.recording(),
    {
        self.recording
    }

    /// The frame, if it is to be forwarded to the writer.
    pub fn push_frame<F>(&self, frame: F) -> (r: Option<F>)
        ensures
            r == if self.recording() {
                Some(frame)
            } else {
                None
            },
    {
        if self.recording {
            Some(frame)
        } else {
            None
        }
    }

    /// The recording ends: frames are no longer forwarded.
    pub fn stop(&mut self)
        ensures
            final(self).recording() == records_after(old(self).recording(), RecorderCall::Stop),
    {
        self.recording = false;
    }

    /// The recorder is shut down: frames are no longer forwarded.
    pub fn shutdown(&mut self)
        ensures
            final(self).recording() == records_after(
                old(self).recording(),
                RecorderCall::Shutdown,
            ),
    {
        self.recording = false;
    }
}

/// What to report when the output file could not be created.
pub fn create_failed(path: &str, error: &str) -> (event: VideoEvent)
    ensures
        event@ == create_failure(path@, error@),
        event matches VideoEvent::Error(msg) && msg@ == "Cannot create video file "@ + path@
            + ": "@ + error@,
{
    let mut msg = "Cannot create video file ".to_owned();
    msg.append(path);
    msg.append(": ");
    msg.append(error);
    VideoEvent::Error(msg)
}

/// What to report once the trailer of a recording of `frames` frames was
/// written, or could not be written for the given reason.
pub fn finalize(frames: u64, outcome: Result<(), String>) -> (event: VideoEvent)
    ensures
        event@ == match outcome {
            Ok(()) => EventView::Stopped { frames: frames as int },
            Err(reason) => finalize_failure(reason@),
        },
        outcome is Ok ==> event == (VideoEvent::Stopped { frames }),
        outcome matches Err(reason) ==> (event matches VideoEvent::Error(msg) && msg@
            == "Finalizing the video file failed: "@ + reason@),
{
    match outcome {
        Ok(()) => VideoEvent::Stopped { frames },
        Err(reason) => {
            let mut msg = "Finalizing the video file failed: ".to_owned();
            msg.append(reason.as_str());
            VideoEvent::Error(msg)
        },
    }
}

/// A format block is one of ours if it says 32 bits twice and the method
/// `Left`, and if its raster, four bytes per pixel, can be held in memory. Its
/// dimensions are signed numbers of which the magnitude counts.
pub proof fn law_format_block(strf: Seq<u8>, width: int, height: int)
    requires
        strf.len() >= 44,
        width == strf[4] + 256 * strf[5] + 65536 * strf[6] + 16777216 * strf[7],
        height == strf[8] + 256 * strf[9] + 65536 * strf[10] + 16777216 * strf[11],
        width <= 0x8000_0000,
        height <= 0x8000_0000,
    ensures
        is_format_block(strf) <==> strf[14] == 32 && strf[15] == 0 && strf[40] == 0 && strf[41]
            == 32 && width * height * 4 <= isize::MAX,
{
}

/// The dimensions of a format block are signed numbers: one and its negative
/// mean the same.
pub proof fn law_dimensions_are_magnitudes(n: u32, negative: u32)
    requires
        0 < n <= 0x8000_0000,
        negative == 0x1_0000_0000 - n,
    ensures
        header_dimension(0) == 0,
        header_dimension(n) == n,
        header_dimension(negative) == n,
{
}

} // verus!
