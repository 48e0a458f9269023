use oxideav_core::{
    CodecId, CodecParameters, CodecTag, MediaType, NullCodecResolver, Packet, Rational, ReadSeek,
    StreamInfo, TimeBase, WriteSeek,
};
use oxideav_huffyuv::{
    decode_frame, encode_frame_with_mode, ExtradataMode, Method, PixelFamily, StreamConfig,
};
use p2pro_rs::video::{
    create_failed, decode_huffyuv, encode_huffyuv, finalize, rgba_to_bgra_bottom_up, stream_setup, synth_rgba,
    FrameAction, StopAction, StreamSetup, VideoError, VideoEvent, VideoPacket,
    VideoRecorder, VideoWriter,
};
use std::io::{Cursor, Result as IoResult, Seek, SeekFrom, Write};
use std::slice;
use std::sync::{Arc, Mutex};

/// A file in memory whose contents outlive the muxer that writes it.
#[derive(Clone)]
struct MemoryFile(Arc<Mutex<Cursor<Vec<u8>>>>);

impl MemoryFile {
    fn new() -> MemoryFile {
        MemoryFile(Arc::new(Mutex::new(Cursor::new(Vec::new()))))
    }

    fn bytes(&self) -> Vec<u8> {
        self.0.lock().expect("lock").get_ref().clone()
    }
}

impl Write for MemoryFile {
    fn write(&mut self, buf: &[u8]) -> IoResult<usize> {
        self.0.lock().expect("lock").write(buf)
    }

    fn flush(&mut self) -> IoResult<()> {
        Ok(())
    }
}

impl Seek for MemoryFile {
    fn seek(&mut self, pos: SeekFrom) -> IoResult<u64> {
        self.0.lock().expect("lock").seek(pos)
    }
}

fn stream_info(setup: &StreamSetup) -> StreamInfo {
    let mut params = CodecParameters::video(CodecId::new("huffyuv"));
    params.media_type = MediaType::Video;
    params.tag = Some(CodecTag::fourcc(&setup.fourcc));
    params.width = Some(setup.width);
    params.height = Some(setup.height);
    params.frame_rate = Some(Rational::new(setup.frame_rate as i64, 1));
    params.extradata = setup.extradata.clone();
    StreamInfo {
        index: 0,
        time_base: TimeBase::new(1, setup.frame_rate as i64),
        duration: None,
        start_time: Some(0),
        params,
    }
}

fn packet(p: VideoPacket, time_base: TimeBase) -> Packet {
    let mut pkt = Packet::new(0, time_base, p.data);
    pkt.pts = Some(p.pts);
    pkt.flags.keyframe = p.keyframe;
    pkt
}

#[test]
fn bgra_conversion_layout() {
    // 2x2 pixels, distinct channel values, top-down:
    // (r0: A,B) (r1: C,D) -> bottom-up rows: (C,D) then (A,B), BGRA each.
    let rgba = vec![
        1, 2, 3, 4, 5, 6, 7, 8, //
        9, 10, 11, 12, 13, 14, 15, 16,
    ];
    let expect = vec![
        11, 10, 9, 12, 15, 14, 13, 16, //
        3, 2, 1, 4, 7, 6, 5, 8,
    ];
    assert_eq!(rgba_to_bgra_bottom_up(2, 2, &rgba), expect);
}

#[test]
fn conversion_twice_is_identity() {
    let rgba: Vec<u8> = (0..60).collect();
    let wire = rgba_to_bgra_bottom_up(5, 3, &rgba);
    assert_ne!(wire, rgba);
    assert_eq!(rgba_to_bgra_bottom_up(5, 3, &wire), rgba);
}

#[test]
fn conversion_of_mismatched_buffer_is_zero() {
    assert_eq!(rgba_to_bgra_bottom_up(2, 1, &[1, 2, 3]), vec![0u8; 8]);
    assert_eq!(rgba_to_bgra_bottom_up(0, 7, &[]), Vec::<u8>::new());
}

#[test]
fn synthetic_frame_values() {
    let v = synth_rgba(7);
    assert_eq!(v.len(), 256 * 192 * 4);
    let at = |x: usize, y: usize| v[(y * 256 + x) * 4..][..4].to_vec();
    assert_eq!(at(0, 0), vec![7, 0, 0, 255]);
    assert_eq!(at(10, 20), vec![37, 130, (70 + 220 - 256) as u8, 255]);
    assert_eq!(at(255, 191), vec![197, 184, 46, 255]);
}

#[test]
fn huffyuv_avi_roundtrip() {
    let (width, height) = (256_u32, 192_u32);
    let n_frames = 3_u8;

    // Build the AVI stream description once; all frames share the strf.
    let frames: Vec<Vec<u8>> = (0..n_frames).map(synth_rgba).collect();
    let first_wire = rgba_to_bgra_bottom_up(width, height, &frames[0]);
    let (strf, _) = encode_frame_with_mode(
        PixelFamily::Rgb32,
        Method::Left,
        width,
        height,
        &first_wire,
        ExtradataMode::ClassicV2,
    )
    .expect("huffyuv encode failed");
    assert_eq!(strf[40], 0x00, "extradata method byte must be Left");
    let stream = stream_info(&stream_setup(width, height, &strf));

    // Encode + mux all frames.
    let file = MemoryFile::new();
    {
        let ws: Box<dyn WriteSeek> = Box::new(file.clone());
        let mut mux = oxideav_avi::muxer::open(ws, slice::from_ref(&stream)).unwrap_or_else(|e| {
            panic!("AVI muxer rejected the HuffYUV stream config: {e}");
        });
        mux.write_header().expect("write_header failed");

        for (i, rgba) in frames.iter().enumerate() {
            let wire = rgba_to_bgra_bottom_up(width, height, rgba);
            let (_, encoded) = encode_frame_with_mode(
                PixelFamily::Rgb32,
                Method::Left,
                width,
                height,
                &wire,
                ExtradataMode::ClassicV2,
            )
            .expect("huffyuv encode failed");
            let mut pkt = Packet::new(0, stream.time_base, encoded);
            pkt.pts = Some(i as i64);
            pkt.flags.keyframe = true;
            mux.write_packet(&pkt).expect("write_packet failed");
        }
        mux.write_trailer().expect("write_trailer failed");
    }
    let avi_bytes = file.bytes();
    assert!(!avi_bytes.is_empty(), "muxer produced an empty file");

    // Demux and decode everything back.
    let cursor: Box<dyn ReadSeek> = Box::new(Cursor::new(avi_bytes));
    let mut dmx =
        oxideav_avi::demuxer::open(cursor, &NullCodecResolver).expect("AVI demux open failed");
    assert_eq!(dmx.streams().len(), 1);
    assert_eq!(dmx.streams()[0].params.tag, Some(CodecTag::fourcc(b"HFYU")));
    assert_eq!(dmx.streams()[0].params.width, Some(width));
    assert_eq!(dmx.streams()[0].params.height, Some(height));

    let cfg = StreamConfig::parse_bitmapinfoheader(&strf).expect("strf parse failed");
    for (i, rgba) in frames.iter().enumerate() {
        let pkt = dmx.next_packet().expect("packet missing");
        assert!(pkt.flags.keyframe);
        let decoded = decode_frame(&cfg, &pkt.data).expect("huffyuv decode failed");
        assert_eq!(decoded.width, width);
        assert_eq!(decoded.height, height);
        let expected_wire = rgba_to_bgra_bottom_up(width, height, rgba);
        assert_eq!(
            decoded.pixels, expected_wire,
            "decoded frame {i} differs from the original raster"
        );
    }
}

/// The whole course of a recording, then demux + decode and compare pixels.
#[test]
fn record_roundtrip() {
    let (width, height) = (256_u32, 192_u32);
    let frames: Vec<Vec<u8>> = (0..10).map(synth_rgba).collect();

    let file = MemoryFile::new();
    let mut writer = VideoWriter::new();
    assert!(writer.accepts_target());
    writer.target_opened();
    assert!(!writer.accepts_target());

    let mut mux = None;
    let mut time_base = TimeBase::new(1, 1);
    for rgba in &frames {
        match writer.frame(width, height, rgba) {
            FrameAction::Open { setup, packet: p } => {
                assert!(mux.is_none());
                let stream = stream_info(&setup);
                time_base = stream.time_base;
                let ws: Box<dyn WriteSeek> = Box::new(file.clone());
                let mut m = oxideav_avi::muxer::open(ws, slice::from_ref(&stream))
                    .expect("open_recording failed");
                m.write_header().expect("write_header failed");
                m.write_packet(&packet(p, time_base)).expect("write_video_frame failed");
                mux = Some(m);
            }
            FrameAction::Append(p) => {
                let m = mux.as_mut().expect("not open");
                m.write_packet(&packet(p, time_base)).expect("write_video_frame failed");
            }
            other => panic!("unexpected action {other:?}"),
        }
        writer.frame_written();
    }
    match writer.stop() {
        StopAction::Finalize { frames: n } => assert_eq!(n, frames.len() as u64),
        other => panic!("unexpected action {other:?}"),
    }
    let mut mux = mux.expect("not open");
    mux.write_trailer().expect("write_trailer failed");
    drop(mux);

    let avi_bytes = file.bytes();
    assert!(!avi_bytes.is_empty());

    // Demux and decode everything back.
    let cursor: Box<dyn ReadSeek> = Box::new(Cursor::new(avi_bytes));
    let mut dmx =
        oxideav_avi::demuxer::open(cursor, &NullCodecResolver).expect("AVI demux open failed");
    assert_eq!(dmx.streams().len(), 1);
    assert_eq!(dmx.streams()[0].params.tag, Some(CodecTag::fourcc(b"HFYU")));
    assert_eq!(dmx.streams()[0].params.width, Some(width));
    assert_eq!(dmx.streams()[0].params.height, Some(height));

    // Rebuild the StreamConfig from the encoder's strf.
    let (strf, _) = encode_huffyuv(width, height, &frames[0]).expect("encode failed");
    // FFmpeg compatibility lock: the v2 extradata method byte (first
    // byte after the 40-byte BIH) must be 0x00 (Left). 0xFE
    // (predict_old) is rejected by FFmpeg's HuffYUV decoder.
    assert_eq!(strf[40], 0x00, "extradata method byte must be Left");
    let cfg = StreamConfig::parse_bitmapinfoheader(&strf).expect("strf parse failed");

    for (i, rgba) in frames.iter().enumerate() {
        let pkt = dmx.next_packet().expect("packet missing");
        assert!(pkt.flags.keyframe);
        assert_eq!(pkt.pts, Some(i as i64));
        let decoded = decode_frame(&cfg, &pkt.data).expect("huffyuv decode failed");
        assert_eq!(decoded.width, width);
        assert_eq!(decoded.height, height);
        assert_eq!(
            decoded.pixels,
            rgba_to_bgra_bottom_up(width, height, rgba),
            "decoded frame {i} differs from the original raster"
        );
    }
}

#[test]
fn encoding_is_lossless_and_shares_the_format_block() {
    let a = vec![1u8, 2, 3, 255, 4, 5, 6, 255];
    let b = vec![1u8, 2, 3, 255, 4, 5, 7, 255];
    let (strf_a, frame_a) = encode_huffyuv(2, 1, &a).expect("encode");
    let (strf_b, frame_b) = encode_huffyuv(2, 1, &b).expect("encode");
    assert_eq!(strf_a, strf_b);
    assert_ne!(frame_a, frame_b);
    assert_ne!(frame_a, a);
    let cfg = StreamConfig::parse_bitmapinfoheader(&strf_a).expect("strf");
    let back = decode_frame(&cfg, &frame_a).expect("decode");
    assert_eq!(rgba_to_bgra_bottom_up(2, 1, &back.pixels), a);
}

#[test]
fn encoding_works_for_tall_and_tiny_frames() {
    // More than 288 rows are split into fields.
    for (w, h) in [(3u32, 400u32), (1, 1), (2, 289)] {
        let rgba: Vec<u8> = (0..w * h * 4).map(|i| (i * 7 % 251) as u8).collect();
        let (strf, frame) = encode_huffyuv(w, h, &rgba).expect("encode");
        assert_eq!(strf[40], 0);
        let cfg = StreamConfig::parse_bitmapinfoheader(&strf).expect("strf");
        let back = decode_frame(&cfg, &frame).expect("decode");
        assert_eq!(back.pixels, rgba_to_bgra_bottom_up(w, h, &rgba));
    }
}

#[test]
fn decoding_gives_the_raster_back() {
    for (w, h) in [(1u32, 1u32), (5, 3), (3, 400), (2, 289), (7, 288)] {
        let rgba: Vec<u8> = (0..w * h * 4).map(|i| (i * 13 % 247) as u8).collect();
        let (strf, frame) = encode_huffyuv(w, h, &rgba).expect("encode");
        let back = decode_huffyuv(&strf, &frame).expect("decode");
        assert_eq!((back.width, back.height), (w, h));
        assert_eq!(back.wire, rgba_to_bgra_bottom_up(w, h, &rgba));
        // A frame without its first pixel is no frame.
        assert!(decode_huffyuv(&strf, &frame[..3]).is_none());
    }
}

#[test]
fn other_format_blocks_are_refused() {
    let (strf, frame) = encode_huffyuv(1, 1, &[1, 2, 3, 4]).expect("encode");
    assert!(decode_huffyuv(&strf, &frame).is_some());
    assert!(decode_huffyuv(&strf[..43], &frame).is_none());
    for place in [14, 15, 40, 41, 16] {
        let mut other = strf.clone();
        other[place] ^= 1;
        assert!(decode_huffyuv(&other, &frame).is_none(), "{place}");
    }
    // A raster that no memory holds.
    let mut huge = strf.clone();
    for place in [4, 5, 6, 8, 9, 10] {
        huge[place] = 0xFF;
    }
    huge[7] = 0x7F;
    huge[11] = 0x7F;
    assert!(decode_huffyuv(&huge, &frame).is_none());
}

#[test]
fn intruders_change_nothing() {
    let mut writer = open_writer();
    assert!(!writer.accepts_target());
    assert!(writer.encodes(1, 1) && !writer.encodes(1, 2));
    assert!(matches!(writer.frame(1, 2, &[0; 3]), FrameAction::SkipResized { .. }));
    assert_eq!(writer.frames(), 1);
    assert!(matches!(writer.stop(), StopAction::Finalize { frames: 1 }));
}

#[test]
fn failed_recording_is_over() {
    let mut writer = open_writer();
    assert!(matches!(writer.frame(1, 1, &[]), FrameAction::Abort(VideoEvent::Error(_))));
    assert!(matches!(writer.frame(1, 1, &[0; 4]), FrameAction::Ignore));
    assert!(matches!(
        writer.stop(),
        StopAction::Report(VideoEvent::Stopped { frames: 0 })
    ));
    writer.target_opened();
    match writer.frame(1, 1, &[0; 4]) {
        FrameAction::Open { packet, .. } => assert_eq!(packet.pts, 0),
        other => panic!("unexpected {other:?}"),
    }
    writer.frame_written();
    assert_eq!(writer.frames(), 1);
}

#[test]
fn mismatched_buffer_is_refused() {
    match encode_huffyuv(2, 2, &[0; 12]) {
        Err(e @ VideoError::SizeMismatch { len: 12, width: 2, height: 2 }) => {
            assert_eq!(e.message(), "Frame buf size mismatch: 12 for 2x2");
        }
        other => panic!("unexpected {other:?}"),
    }
}

#[test]
fn setup_strips_the_bitmap_header() {
    let strf: Vec<u8> = (0..44).collect();
    let setup = stream_setup(3, 4, &strf);
    assert_eq!((setup.width, setup.height, setup.frame_rate), (3, 4, 25));
    assert_eq!(&setup.fourcc, b"HFYU");
    assert_eq!(setup.extradata, vec![40, 41, 42, 43]);
    assert!(stream_setup(3, 4, &strf[..40]).extradata.is_empty());
}

fn open_writer() -> VideoWriter {
    let mut writer = VideoWriter::new();
    writer.target_opened();
    assert!(matches!(writer.frame(1, 1, &[1, 2, 3, 4]), FrameAction::Open { .. }));
    writer.frame_written();
    writer
}

#[test]
fn frames_without_a_recording_are_ignored() {
    let mut writer = VideoWriter::new();
    assert!(matches!(writer.frame(1, 1, &[1, 2, 3, 4]), FrameAction::Ignore));
    assert!(matches!(writer.frame(0, 0, &[]), FrameAction::Ignore));
    assert!(matches!(
        writer.stop(),
        StopAction::Report(VideoEvent::Stopped { frames: 0 })
    ));
}

#[test]
fn pending_recording_stops_empty() {
    let mut writer = VideoWriter::new();
    writer.target_opened();
    assert!(matches!(
        writer.stop(),
        StopAction::Report(VideoEvent::Stopped { frames: 0 })
    ));
    assert!(writer.accepts_target());
}

#[test]
fn resized_frame_is_skipped() {
    let mut writer = open_writer();
    match writer.frame(2, 1, &[0; 8]) {
        FrameAction::SkipResized { from } => {
            assert_eq!((from.frames, from.width, from.height), (1, 1, 1));
        }
        other => panic!("unexpected {other:?}"),
    }
    match writer.frame(1, 1, &[9, 9, 9, 9]) {
        FrameAction::Append(p) => {
            assert_eq!(p.pts, 1);
            assert!(p.keyframe);
        }
        other => panic!("unexpected {other:?}"),
    }
    writer.frame_written();
    assert!(matches!(writer.stop(), StopAction::Finalize { frames: 2 }));
}

#[test]
fn mismatched_frame_aborts_the_recording() {
    let mut writer = open_writer();
    match writer.frame(1, 1, &[0; 5]) {
        FrameAction::Abort(VideoEvent::Error(msg)) => {
            assert_eq!(msg, "Frame buf size mismatch: 5 for 1x1");
        }
        other => panic!("unexpected {other:?}"),
    }
    assert!(writer.accepts_target());

    writer.target_opened();
    assert!(matches!(writer.frame(1, 1, &[0; 5]), FrameAction::Abort(_)));
    assert!(writer.accepts_target());
}

#[test]
fn failed_write_ends_the_recording() {
    let mut writer = open_writer();
    assert!(matches!(writer.frame(1, 1, &[0; 4]), FrameAction::Append(_)));
    match writer.frame_failed("disk full".to_string()) {
        VideoEvent::Error(msg) => assert_eq!(msg, "disk full"),
        other => panic!("unexpected {other:?}"),
    }
    assert!(writer.accepts_target());
}

#[test]
fn reports() {
    match create_failed("/x/y.avi", "no such directory") {
        VideoEvent::Error(msg) => {
            assert_eq!(msg, "Cannot create video file /x/y.avi: no such directory");
        }
        other => panic!("unexpected {other:?}"),
    }
    assert!(matches!(finalize(12, Ok(())), VideoEvent::Stopped { frames: 12 }));
    match finalize(12, Err("eof".to_string())) {
        VideoEvent::Error(msg) => assert_eq!(msg, "Finalizing the video file failed: eof"),
        other => panic!("unexpected {other:?}"),
    }
}

#[test]
fn frames_are_forwarded_while_recording() {
    let mut recorder = VideoRecorder::new();
    assert!(!recorder.is_recording());
    assert_eq!(recorder.push_frame("frame"), None);
    recorder.start();
    assert!(recorder.is_recording());
    assert_eq!(recorder.push_frame("frame"), Some("frame"));
    recorder.start();
    assert_eq!(recorder.push_frame("frame"), Some("frame"));
    recorder.stop();
    assert_eq!(recorder.push_frame("frame"), None);
    recorder.start();
    recorder.shutdown();
    assert_eq!(recorder.push_frame("frame"), None);
}
