//! The window icon as it is embedded in the program: its dimensions and its
//! RGBA raster.

use crate::bytes::{le32, le32_bytes, le32_injective, le32_value};
use vstd::prelude::*;

verus! {

/// An icon.
#[derive(Debug)]
pub struct Icon {
    pub width: u32,
    pub height: u32,
    pub rgba: Vec<u8>,
}

/// The embedded form of an icon.
pub open spec fn icon_form(width: u32, height: u32, rgba: Seq<u8>) -> Seq<u8> {
    le32(width) + le32(height) + rgba
}

/// The embedded form of an icon.
pub fn pack_icon(width: u32, height: u32, rgba: &[u8]) -> (r: Vec<u8>)
    ensures
        r@ == icon_form(width, height, rgba@),
{
    let w = le32_bytes(width);
    let h = le32_bytes(height);
    let mut r: Vec<u8> = Vec::new();
    r.extend_from_slice(&w);
    r.extend_from_slice(&h);
    r.extend_from_slice(rgba);
    assert(r@ =~= icon_form(width, height, rgba@));
    r
}

/// The picture that a PNG holds: its dimensions and its RGBA raster, top-down;
/// nothing if it cannot be decoded.
pub uninterp spec fn png_raster(png: Seq<u8>) -> Option<(u32, u32, Seq<u8>)>;

/// `image::load_from_memory_with_format` for PNG, then
/// `DynamicImage::to_rgba8`: what they make of the bytes depends on nothing
/// else.
#[verifier::external_body]
fn decode_png(png: &[u8]) -> (r: Option<(u32, u32, Vec<u8>)>)
    ensures
        png_raster(png@) == (match r {
            Some((width, height, rgba)) => Some((width, height, rgba@)),
            None => None,
        }),
{
    let picture = image::load_from_memory_with_format(png, image::ImageFormat::Png).ok()?;
    let rgba = picture.to_rgba8();
    Some((rgba.width(), rgba.height(), rgba.into_raw()))
}

/// The embedded form of the icon that a PNG shows; `None` if the PNG cannot be
/// decoded.
pub fn build_icon(png: &[u8]) -> (r: Option<Vec<u8>>)
    ensures
        match png_raster(png@) {
            Some((width, height, rgba)) => r matches Some(packed) && packed@ == icon_form(
                width,
                height,
                rgba,
            ),
            None => r is None,
        },
{
    match decode_png(png) {
        Some((width, height, rgba)) => Some(pack_icon(width, height, rgba.as_slice())),
        None => None,
    }
}

/// Reads the embedded form; `None` if it is too short to hold the dimensions.
pub fn unpack_icon(bytes: &[u8]) -> (r: Option<Icon>)
    ensures
        r is Some <==> bytes@.len() >= 8,
        r matches Some(icon) ==> icon_form(icon.width, icon.height, icon.rgba@) == bytes@,
{
    if bytes.len() < 8 {
        return None;
    }
    let width: u32 = le32_value(bytes[0], bytes[1], bytes[2], bytes[3]);
    let height: u32 = le32_value(bytes[4], bytes[5], bytes[6], bytes[7]);
    let mut rgba: Vec<u8> = Vec::new();
    rgba.extend_from_slice(vstd::slice::slice_subrange(bytes, 8, bytes.len()));
    assert(icon_form(width, height, rgba@) =~= bytes@);
    Some(Icon { width, height, rgba })
}

/// The embedded form determines the icon: what is unpacked is what was packed.
pub proof fn law_icon_is_unpacked_as_packed(
    width: u32,
    height: u32,
    rgba: Seq<u8>,
    width2: u32,
    height2: u32,
    rgba2: Seq<u8>,
)
    requires
        icon_form(width, height, rgba) == icon_form(width2, height2, rgba2),
    ensures
        width == width2,
        height == height2,
        rgba == rgba2,
{
    let a = icon_form(width, height, rgba);
    let b = icon_form(width2, height2, rgba2);
    assert(le32(width) =~= a.subrange(0, 4));
    assert(le32(width2) =~= b.subrange(0, 4));
    assert(le32(height) =~= a.subrange(4, 8));
    assert(le32(height2) =~= b.subrange(4, 8));
    assert(rgba =~= a.skip(8));
    assert(rgba2 =~= b.skip(8));
    le32_injective(width, width2);
    le32_injective(height, height2);
}

/// The embedded form: eight bytes that spell the width and the height, least
/// significant byte first, and the raster behind them.
pub proof fn law_icon_form_spells_the_dimensions(width: u32, height: u32, rgba: Seq<u8>)
    ensures
        ({
            let f = icon_form(width, height, rgba);
            &&& f.len() == 8 + rgba.len()
            &&& f[0] + 256 * f[1] + 65536 * f[2] + 16777216 * f[3] == width
            &&& f[4] + 256 * f[5] + 65536 * f[6] + 16777216 * f[7] == height
            &&& f.skip(8) == rgba
        }),
{
    let f = icon_form(width, height, rgba);
    crate::bytes::law_bytes_spell_32(width);
    crate::bytes::law_bytes_spell_32(height);
    assert(f[0] == le32(width)[0] && f[1] == le32(width)[1]);
    assert(f[2] == le32(width)[2] && f[3] == le32(width)[3]);
    assert(f[4] == le32(height)[0] && f[5] == le32(height)[1]);
    assert(f[6] == le32(height)[2] && f[7] == le32(height)[3]);
    assert(f.skip(8) =~= rgba);
}

} // verus!
