//! Turns a thermal picture into false colors, as an RGBA raster and as a PNG
//! in a data URI, and finds the extremes that are marked in it.

use vstd::prelude::*;

verus! {

/// A rendered frame as a PNG data URI, for embedding in HTML.
#[derive(Debug, Clone, PartialEq)]
pub struct RenderedFrameUri {
    pub png_uri: String,
}

/// A rendered frame as an RGBA raster, top-down.
#[derive(Debug, Clone, PartialEq)]
pub struct RenderedFrameRgba {
    pub bytes: Vec<u8>,
}

/// How much effort goes into compressing a PNG.
#[derive(Debug, Clone, Copy, PartialEq, Eq, Structural)]
pub enum PngCompression {
    Fast,
    Best,
}

/// How the rows of a PNG are filtered.
#[derive(Debug, Clone, Copy, PartialEq, Eq, Structural)]
pub enum PngFilter {
    Sub,
    Adaptive,
}

/// The PNG of an RGBA raster.
pub uninterp spec fn png_image(
    width: u32,
    height: u32,
    rgba: Seq<u8>,
    compression: PngCompression,
    filter: PngFilter,
) -> Seq<u8>;

/// `image`'s `PngEncoder::new_with_quality` and `write_image`, for 8-bit RGBA
/// into memory. A raster with at least one pixel and of the size that the
/// dimensions call for is always encoded, and the bytes depend on the
/// arguments alone. The byte count is a `u32`: the compressor counts runs in
/// one.
#[verifier::external_body]
pub(crate) fn encode_png(
    width: u32,
    height: u32,
    rgba: &[u8],
    compression: PngCompression,
    filter: PngFilter,
) -> (r: Vec<u8>)
    requires
        width > 0,
        height > 0,
        rgba@.len() == width * height * 4,
        width * height * 4 <= u32::MAX,
    ensures
        r@ == png_image(width, height, rgba@, compression, filter),
{
    let compression = match compression {
        PngCompression::Fast => image::codecs::png::CompressionType::Fast,
        PngCompression::Best => image::codecs::png::CompressionType::Best,
    };
    let filter = match filter {
        PngFilter::Sub => image::codecs::png::FilterType::Sub,
        PngFilter::Adaptive => image::codecs::png::FilterType::Adaptive,
    };
    let mut out: Vec<u8> = Vec::new();
    let encoder = image::codecs::png::PngEncoder::new_with_quality(&mut out, compression, filter);
    let color = image::ExtendedColorType::Rgba8;
    image::ImageEncoder::write_image(encoder, rgba, width, height, color).expect("PNG in memory");
    out
}

/// The character of the standard base64 alphabet for a value below 64.
pub open spec fn base64_char(v: int) -> char {
    if v < 26 {
        (('A' as u8) + v) as char
    } else if v < 52 {
        (('a' as u8) + v - 26) as char
    } else if v < 62 {
        (('0' as u8) + v - 52) as char
    } else if v == 62 {
        '+'
    } else {
        '/'
    }
}

/// The four characters for three bytes, each for six bits.
pub open spec fn base64_group(x: int, y: int, z: int) -> Seq<char> {
    seq![
        base64_char(x / 4),
        base64_char(x % 4 * 16 + y / 16),
        base64_char(y % 16 * 4 + z / 64),
        base64_char(z % 64),
    ]
}

/// The standard base64 encoding: four characters for every three bytes. Of an
/// incomplete last group, the characters without a byte are padding.
pub open spec fn base64_text(b: Seq<u8>) -> Seq<char>
    decreases b.len(),
{
    if b.len() == 0 {
        Seq::empty()
    } else if b.len() == 1 {
        base64_group(b[0] as int, 0, 0).take(2) + seq!['=', '=']
    } else if b.len() == 2 {
        base64_group(b[0] as int, b[1] as int, 0).take(3) + seq!['=']
    } else {
        base64_group(b[0] as int, b[1] as int, b[2] as int) + base64_text(b.skip(3))
    }
}

/// `base64`'s `Engine::encode_string` of the engine `STANDARD`: appends the
/// standard encoding with padding.
#[verifier::external_body]
fn push_base64(out: &mut String, bytes: &[u8])
    ensures
        final(out)@ == old(out)@ + base64_text(bytes@),
{
    base64::Engine::encode_string(&base64::engine::general_purpose::STANDARD, bytes, out)
}

/// The data URI of a PNG.
pub fn png_data_uri(png: &[u8]) -> (r: RenderedFrameUri)
    ensures
        r.png_uri@ == "data:image/png;base64,"@ + base64_text(png@),
{
    let mut png_uri = "data:image/png;base64,".to_owned();
    push_base64(&mut png_uri, png);
    RenderedFrameUri { png_uri }
}

/// The column and the row of the sample number `i`.
pub open spec fn position_of(i: int, width: u32) -> (u32, u32) {
    ((i % (width as int)) as u32, (i / (width as int)) as u32)
}

/// The sample at `k` is the first of the smallest.
pub open spec fn is_first_min(samples: Seq<u16>, k: int) -> bool {
    &&& 0 <= k < samples.len()
    &&& forall|j: int| 0 <= j < samples.len() ==> samples[k] <= #[trigger] samples[j]
    &&& forall|j: int| 0 <= j < k ==> samples[k] < #[trigger] samples[j]
}

/// The sample at `k` is the first of the largest.
pub open spec fn is_first_max(samples: Seq<u16>, k: int) -> bool {
    &&& 0 <= k < samples.len()
    &&& forall|j: int| 0 <= j < samples.len() ==> samples[k] >= #[trigger] samples[j]
    &&& forall|j: int| 0 <= j < k ==> samples[k] > #[trigger] samples[j]
}

/// The coldest and the hottest place of a picture.
#[derive(Debug, Clone, Copy, PartialEq, Eq)]
pub struct Extremes {
    pub min: u16,
    pub max: u16,
    /// Column and row of the coldest place.
    pub min_pos: (u32, u32),
    /// Column and row of the hottest place.
    pub max_pos: (u32, u32),
}

/// Finds the extremes of a picture, row-major with `width` samples per row.
/// Of equal samples the first counts. An empty picture has none.
pub fn find_extremes(width: u32, samples: &[u16]) -> (r: Option<Extremes>)
    requires
        width > 0,
        samples@.len() <= 0x1_0000_0000,
    ensures
        r is None <==> samples@.len() == 0,
        r matches Some(e) ==> {
            &&& exists|k: int|
                #[trigger] is_first_min(samples@, k) && e.min == samples@[k] && e.min_pos
                    == position_of(k, width)
            &&& exists|k: int|
                #[trigger] is_first_max(samples@, k) && e.max == samples@[k] && e.max_pos
                    == position_of(k, width)
        },
{
    if samples.len() == 0 {
        return None;
    }
    let mut lo: usize = 0;
    let mut hi: usize = 0;
    let mut i: usize = 1;
    while i < samples.len()
        invariant
            0 < i <= samples@.len() <= 0x1_0000_0000,
            is_first_min(samples@.take(i as int), lo as int),
            is_first_max(samples@.take(i as int), hi as int),
        decreases samples.len() - i,
    {
        proof {
            let before = samples@.take(i as int);
            let after = samples@.take(i + 1);
            assert forall|j: int| 0 <= j < i implies after[j] == #[trigger] before[j] by {}
        }
        if samples[i] < samples[lo] {
            lo = i;
        }
        if samples[i] > samples[hi] {
            hi = i;
        }
        i += 1;
    }
    assert(samples@.take(i as int) =~= samples@);
    let e = Extremes {
        min: samples[lo],
        max: samples[hi],
        min_pos: pixel_position(lo, width),
        max_pos: pixel_position(hi, width),
    };
    Some(e)
}

fn pixel_position(i: usize, width: u32) -> (r: (u32, u32))
    requires
        width > 0,
        i < 0x1_0000_0000,
    ensures
        r == position_of(i as int, width),
{
    let i: u32 = i as u32;
    (i % width, i / width)
}

/// The RGBA raster of a picture whose pixels are given by their places in a
/// color table.
pub open spec fn colored(color_lut: [[u8; 4]; 256], shades: Seq<u8>) -> Seq<u8> {
    Seq::new(4 * shades.len(), |i: int| color_lut@[shades[i / 4] as int]@[i % 4])
}

/// The pixel number `p` shows the entry of the color table that its own shade
/// names: its four bytes stand at `4 * p`.
pub proof fn law_pixel_shows_its_own_shade(
    color_lut: [[u8; 4]; 256],
    shades: Seq<u8>,
    p: int,
    c: int,
)
    requires
        0 <= p < shades.len(),
        0 <= c < 4,
    ensures
        colored(color_lut, shades).len() == 4 * shades.len(),
        colored(color_lut, shades)[4 * p + c] == color_lut@[shades[p] as int]@[c],
{
}

/// Another shade of one pixel changes the raster at that pixel and nowhere
/// else.
pub proof fn law_shade_changes_its_pixel_alone(
    color_lut: [[u8; 4]; 256],
    shades: Seq<u8>,
    p: int,
    shade: u8,
    i: int,
)
    requires
        0 <= p < shades.len(),
        0 <= i < 4 * shades.len(),
    ensures
        colored(color_lut, shades.update(p, shade))[i] == if 4 * p <= i < 4 * p + 4 {
            color_lut@[shade as int]@[i - 4 * p]
        } else {
            colored(color_lut, shades)[i]
        },
{
}

/// Maps pictures through a color table.
#[derive(Debug)]
pub struct Renderer {
    pub color_lut: [[u8; 4]; 256],
}

impl Renderer {
    /// A renderer with the given color table.
    pub fn new(color_lut: [[u8; 4]; 256]) -> (r: Renderer)
        ensures
            r.color_lut == color_lut,
    {
        Renderer { color_lut }
    }

    /// The RGBA raster of a picture whose pixels are given by their places in
    /// the color table.
    pub fn colorize(&self, shades: &[u8]) -> (r: RenderedFrameRgba)
        requires
            4 * shades@.len() <= usize::MAX,
        ensures
            r.bytes@ == colored(self.color_lut, shades@),
            r.bytes@.len() == 4 * shades@.len(),
    {
        let mut bytes: Vec<u8> = Vec::with_capacity(4 * shades.len());
        let ghost expected = colored(self.color_lut, shades@);
        let mut i: usize = 0;
        while i < shades.len()
            invariant
                i <= shades@.len(),
                bytes@.len() == 4 * i,
                expected == colored(self.color_lut, shades@),
                forall|k: int| 0 <= k < bytes@.len() ==> bytes@[k] == expected[k],
            decreases shades.len() - i,
        {
            let n: usize = shades[i] as usize;
            bytes.push(self.color_lut[n][0]);
            bytes.push(self.color_lut[n][1]);
            bytes.push(self.color_lut[n][2]);
            bytes.push(self.color_lut[n][3]);
            i += 1;
        }
        assert(bytes@ =~= expected);
        RenderedFrameRgba { bytes }
    }

    /// Renders a picture (row-major, `width` x `height`) whose pixels are
    /// given by their places in the color table: as a raster, and as a PNG in
    /// a data URI.
    pub fn build_frame(&self, width: u32, height: u32, shades: &[u8]) -> (r: (
        RenderedFrameRgba,
        RenderedFrameUri,
    ))
        requires
            width > 0,
            height > 0,
            shades@.len() == width * height,
            width * height * 4 <= u32::MAX,
        ensures
            r.0.bytes@ == colored(self.color_lut, shades@),
            r.1.png_uri@ == "data:image/png;base64,"@ + base64_text(
                png_image(
                    width,
                    height,
                    colored(self.color_lut, shades@),
                    PngCompression::Fast,
                    PngFilter::Sub,
                ),
            ),
    {
        let rgba = self.colorize(shades);
        let png = encode_png(
            width,
            height,
            rgba.bytes.as_slice(),
            PngCompression::Fast,
            PngFilter::Sub,
        );
        let uri = png_data_uri(png.as_slice());
        (rgba, uri)
    }
}

/// The first of the smallest samples is as small as all, and smaller than those
/// before it; likewise the first of the largest.
pub proof fn law_extremes_are_first(samples: Seq<u16>, k: int, j: int)
    requires
        0 <= k < samples.len(),
        0 <= j < samples.len(),
    ensures
        is_first_min(samples, k) ==> samples[k] <= samples[j],
        is_first_min(samples, k) && j < k ==> samples[k] < samples[j],
        is_first_max(samples, k) ==> samples[k] >= samples[j],
        is_first_max(samples, k) && j < k ==> samples[k] > samples[j],
{
}

/// The position of a sample names it: so many whole rows before it, and so many
/// samples before it in its row.
pub proof fn law_position_names_the_sample(i: int, width: u32)
    requires
        0 <= i < 0x1_0000_0000,
        width > 0,
    ensures
        position_of(i, width).0 < width,
        position_of(i, width).1 * width + position_of(i, width).0 == i,
{
    let w = width as int;
    assert(i == i / w * w + i % w && 0 <= i % w < w && 0 <= i / w <= i) by (nonlinear_arith)
        requires
            0 <= i,
            w > 0,
    ;
}

/// The value of a character of the base64 alphabet: capital letters, small
/// letters, digits, plus and slash.
pub open spec fn base64_value(c: char) -> int {
    let n = c as u32;
    if 65 <= n <= 90 {
        n - 65
    } else if 97 <= n <= 122 {
        n - 97 + 26
    } else if 48 <= n <= 57 {
        n - 48 + 52
    } else if c == '+' {
        62
    } else if c == '/' {
        63
    } else {
        -1
    }
}

proof fn lemma_base64_char(v: int)
    requires
        0 <= v < 64,
    ensures
        base64_value(base64_char(v)) == v,
{
}

/// Three bytes and the four characters for them spell the same number, in base
/// 256 and in base 64; the rest of the text is that of the rest of the bytes.
pub proof fn law_base64_spells_the_bytes(b: Seq<u8>)
    requires
        b.len() >= 3,
    ensures
        ({
            let t = base64_text(b);
            &&& t.len() >= 4
            &&& 0 <= base64_value(t[0]) && 0 <= base64_value(t[1])
            &&& 0 <= base64_value(t[2]) && 0 <= base64_value(t[3])
            &&& 262144 * base64_value(t[0]) + 4096 * base64_value(t[1]) + 64 * base64_value(t[2])
                + base64_value(t[3]) == 65536 * b[0] + 256 * b[1] + b[2]
            &&& t.skip(4) == base64_text(b.skip(3))
        }),
{
    let (x, y, z) = (b[0] as int, b[1] as int, b[2] as int);
    lemma_base64_char(x / 4);
    lemma_base64_char(x % 4 * 16 + y / 16);
    lemma_base64_char(y % 16 * 4 + z / 64);
    lemma_base64_char(z % 64);
    assert(base64_text(b).skip(4) =~= base64_text(b.skip(3)));
}

/// One or two bytes at the end are spelled as if zeros followed; the characters
/// that would stand for these alone are padding. No bytes give no text.
pub proof fn law_base64_pads_the_end(b: Seq<u8>)
    requires
        b.len() < 3,
    ensures
        b.len() == 0 ==> base64_text(b).len() == 0,
        b.len() == 1 ==> {
            let t = base64_text(b);
            &&& t.len() == 4 && t[2] == '=' && t[3] == '='
            &&& 0 <= base64_value(t[0]) && 0 <= base64_value(t[1])
            &&& 64 * base64_value(t[0]) + base64_value(t[1]) == 16 * b[0]
        },
        b.len() == 2 ==> {
            let t = base64_text(b);
            &&& t.len() == 4 && t[3] == '='
            &&& 0 <= base64_value(t[0]) && 0 <= base64_value(t[1]) && 0 <= base64_value(t[2])
            &&& 4096 * base64_value(t[0]) + 64 * base64_value(t[1]) + base64_value(t[2]) == 4 * (256
                * b[0] + b[1])
        },
{
    if b.len() == 1 {
        let x = b[0] as int;
        lemma_base64_char(x / 4);
        lemma_base64_char(x % 4 * 16);
    } else if b.len() == 2 {
        let (x, y) = (b[0] as int, b[1] as int);
        lemma_base64_char(x / 4);
        lemma_base64_char(x % 4 * 16 + y / 16);
        lemma_base64_char(y % 16 * 4);
    }
}

} // verus!
