use p2pro_rs::bytes::{be16_value, be32_bytes, le16_value, le32_bytes, le32_value};
use p2pro_rs::colormap::{css_gradient, stops};
use p2pro_rs::icon::{build_icon, pack_icon, unpack_icon};
use p2pro_rs::render::{find_extremes, png_data_uri, RenderedFrameRgba, Renderer};
use p2pro_rs::save::{encode_save_file_png, make_filename, make_video_filename, Timestamp};

fn gray_renderer() -> Renderer {
    let mut lut = [[0u8; 4]; 256];
    for (i, entry) in lut.iter_mut().enumerate() {
        *entry = [i as u8, 255 - i as u8, (i / 2) as u8, 255];
    }
    Renderer::new(lut)
}

#[test]
fn byte_orders() {
    assert_eq!(le16_value(0x34, 0x12), 0x1234);
    assert_eq!(be16_value(0x12, 0x34), 0x1234);
    assert_eq!(le32_value(4, 3, 2, 1), 0x01020304);
    assert_eq!(le32_bytes(0x01020304), [4, 3, 2, 1]);
    assert_eq!(be32_bytes(0x01020304), [1, 2, 3, 4]);
}

#[test]
fn gradient_text() {
    assert_eq!(
        css_gradient(),
        "linear-gradient(to top, #000000 0%, #1e003c 13%, #5a008c 28%, #b40096 45%, \
         #e11e23 60%, #f8960a 75%, #ffdc00 88%, #ffffff 100%)"
    );
    let places: Vec<u8> = stops().iter().map(|s| s.percent).collect();
    assert_eq!(places, vec![0, 13, 28, 45, 60, 75, 88, 100]);
}

#[test]
fn extremes_of_a_picture() {
    let e = find_extremes(3, &[5, 2, 9, 2, 9, 4]).expect("not empty");
    assert_eq!((e.min, e.min_pos), (2, (1, 0)));
    assert_eq!((e.max, e.max_pos), (9, (2, 0)));
    let e = find_extremes(2, &[5, 5, 1, 7]).expect("not empty");
    assert_eq!((e.min, e.min_pos), (1, (0, 1)));
    assert_eq!((e.max, e.max_pos), (7, (1, 1)));
    let e = find_extremes(4, &[3]).expect("not empty");
    assert_eq!((e.min_pos, e.max_pos), ((0, 0), (0, 0)));
    assert!(find_extremes(4, &[]).is_none());
}

#[test]
fn raw_order_is_temperature_order() {
    let celsius = |raw: u16| raw as f32 / 64.0 - 273.2;
    for raw in 0..u16::MAX {
        assert!(celsius(raw) < celsius(raw + 1));
    }
}

#[test]
fn colors_come_from_the_table() {
    let r = gray_renderer();
    assert_eq!(r.colorize(&[0, 10, 255]).bytes, vec![0, 255, 0, 255, 10, 245, 5, 255, 255, 0, 127, 255]);
    assert!(r.colorize(&[]).bytes.is_empty());
}

#[test]
fn data_uri_texts() {
    let uri = |png: &[u8]| png_data_uri(png).png_uri;
    assert_eq!(uri(b""), "data:image/png;base64,");
    assert_eq!(uri(b"f"), "data:image/png;base64,Zg==");
    assert_eq!(uri(b"fo"), "data:image/png;base64,Zm8=");
    assert_eq!(uri(b"foobar"), "data:image/png;base64,Zm9vYmFy");
    assert_eq!(uri(&[0xFB, 0xEF, 0xFF]), "data:image/png;base64,++//");
}

#[test]
fn rendered_frame_is_a_png_of_its_raster() {
    let shades: Vec<u8> = (0..6).map(|i| i * 40).collect();
    let (rgba, uri) = gray_renderer().build_frame(3, 2, &shades);
    assert_eq!(rgba, gray_renderer().colorize(&shades));
    let text = uri.png_uri.strip_prefix("data:image/png;base64,").expect("prefix");
    let png = base64::Engine::decode(&base64::engine::general_purpose::STANDARD, text).expect("base64");
    let image = image::load_from_memory(&png).expect("png").to_rgba8();
    assert_eq!(image.dimensions(), (3, 2));
    assert_eq!(image.into_raw(), rgba.bytes);
}

#[test]
fn saved_picture_is_a_png_of_the_raster() {
    let rgba = RenderedFrameRgba { bytes: (0..40).map(|i| i * 5).collect() };
    let png = encode_save_file_png(2, 5, &rgba);
    assert_eq!(png[..8], [137, 80, 78, 71, 13, 10, 26, 10]);
    let image = image::load_from_memory(&png).expect("png").to_rgba8();
    assert_eq!(image.dimensions(), (2, 5));
    assert_eq!(image.into_raw(), rgba.bytes);
}

#[test]
fn file_names() {
    let t = Timestamp::new(2026, 3, 7, 9, 5, 1).expect("valid");
    assert_eq!(make_filename(t), "p2pro_2026-03-07_09-05-01.png");
    assert_eq!(make_video_filename(t), "p2pro_2026-03-07_09-05-01.avi");
    let year = |y| make_filename(Timestamp::new(y, 12, 31, 23, 59, 59).expect("valid"));
    assert_eq!(year(7), "p2pro_0007-12-31_23-59-59.png");
    assert_eq!(year(12345), "p2pro_+12345-12-31_23-59-59.png");
    assert_eq!(year(-44), "p2pro_-0044-12-31_23-59-59.png");
    assert_eq!(year(262_142), "p2pro_+262142-12-31_23-59-59.png");
    assert_eq!(year(-262_143), "p2pro_-262143-12-31_23-59-59.png");
}

#[test]
fn calendar() {
    let day = |y, m, d| Timestamp::new(y, m, d, 0, 0, 0).is_some();
    assert!(day(2024, 2, 29) && !day(2023, 2, 29));
    assert!(day(2000, 2, 29) && !day(1900, 2, 29));
    assert!(day(-4, 2, 29) && !day(-100, 2, 29) && day(-400, 2, 29));
    assert!(day(2023, 4, 30) && !day(2023, 4, 31));
    assert!(!day(2023, 0, 1) && !day(2023, 13, 1) && !day(2023, 1, 0));
    assert!(!day(262_143, 1, 1) && !day(-262_144, 1, 1));
    assert!(Timestamp::new(2023, 1, 1, 24, 0, 0).is_none());
    assert!(Timestamp::new(2023, 1, 1, 0, 60, 0).is_none());
    assert!(Timestamp::new(2023, 1, 1, 0, 0, 60).is_none());
}

#[test]
fn icons() {
    let packed = pack_icon(2, 0x0102, &[7, 8, 9]);
    assert_eq!(packed, vec![2, 0, 0, 0, 2, 1, 0, 0, 7, 8, 9]);
    let icon = unpack_icon(&packed).expect("long enough");
    assert_eq!((icon.width, icon.height, icon.rgba), (2, 0x0102, vec![7, 8, 9]));
    assert!(unpack_icon(&packed[..7]).is_none());
    assert!(unpack_icon(&packed[..8]).is_some());
}

#[test]
fn icon_of_a_png() {
    let rgba = RenderedFrameRgba { bytes: (0..48).map(|i| i * 5).collect() };
    let png = encode_save_file_png(3, 4, &rgba);
    let packed = build_icon(&png).expect("a PNG");
    assert_eq!(packed, pack_icon(3, 4, &rgba.bytes));
    let icon = unpack_icon(&packed).expect("packed");
    assert_eq!((icon.width, icon.height, icon.rgba), (3, 4, rgba.bytes));
    assert!(build_icon(b"").is_none());
    assert!(build_icon(b"not a picture").is_none());
    assert!(build_icon(&png[..png.len() / 2]).is_none());
}
