use p2pro_rs::camera::{decode_frame, fill_frame, SAMPLES};
use p2pro_rs::stream::{
    bulk_buffer_size, iso_packet_len, parse_payload_header, stream_mode, Collector, FrameReassembler, IsoAction,
    IsoPacket, IsoSession, StreamMode, FRAME_BYTES,
};
use p2pro_rs::usb::TransferType;

fn samples() -> Vec<u16> {
    (0..SAMPLES).map(|i| (i * 31 % 65536) as u16).collect()
}

#[test]
fn sample_places() {
    let mut buf = vec![0u8; 512 * 384];
    buf[192 * 512] = 0x34;
    buf[192 * 512 + 1] = 0x12;
    buf[193 * 512 + 4] = 0xCD;
    buf[193 * 512 + 5] = 0xAB;
    buf[383 * 512 + 511] = 0xFF;
    buf[0] = 9;
    let decoded = decode_frame(&buf, 512).expect("complete");
    assert_eq!(decoded.len(), 256 * 192);
    assert_eq!(decoded[0], 0x1234);
    assert_eq!(decoded[256 + 2], 0xABCD);
    assert_eq!(decoded[256 * 192 - 1], 0xFF00);
    assert_eq!(decoded.iter().filter(|&&s| s != 0).count(), 3);
}

#[test]
fn short_frame_is_skipped() {
    assert!(decode_frame(&vec![0; 512 * 384 - 1], 512).is_none());
    assert!(decode_frame(&vec![0; 512 * 384], 513).is_none());
    assert!(decode_frame(&vec![0; 520 * 384 + 7], 520).is_some());
}

#[test]
fn filled_samples_are_decoded() {
    let stride = 530;
    let before: Vec<u8> = (0..stride * 384 + 3).map(|i| (i % 253) as u8).collect();
    let mut buf = before.clone();
    fill_frame(&mut buf, stride, &samples());
    assert_eq!(decode_frame(&buf, stride), Some(samples()));
    // The video half, the padding of the rows and what follows are untouched.
    assert_eq!(buf[..192 * stride], before[..192 * stride]);
    for row in 192..384 {
        assert_eq!(buf[row * stride + 512..][..18], before[row * stride + 512..][..18]);
    }
    assert_eq!(buf[384 * stride..], before[384 * stride..]);
}

#[test]
fn payload_headers() {
    assert_eq!(parse_payload_header(&[2, 0x03, 7, 8]), Some((true, true, &[7u8, 8][..])));
    assert_eq!(parse_payload_header(&[12, 0x8C, 0, 0, 0, 0, 0, 0, 0, 0, 0, 0]), Some((false, false, &[][..])));
    assert_eq!(parse_payload_header(&[3, 0x02, 1, 9]), Some((false, true, &[9u8][..])));
    assert_eq!(parse_payload_header(&[]), None);
    assert_eq!(parse_payload_header(&[1, 0]), None);
    assert_eq!(parse_payload_header(&[5, 0, 0, 0]), None);
    assert_eq!(parse_payload_header(&[2, 0x41, 1]), None);
}

#[test]
fn payloads_are_reassembled() {
    let mut r = FrameReassembler::new(6);
    assert_eq!(r.feed(&[2, 0x00, 1, 2]), None);
    assert_eq!(r.feed(&[2, 0x40, 99]), None); // error payload
    assert_eq!(r.feed(&[2, 0x00, 3]), None);
    assert_eq!(r.feed(&[2, 0x02, 4]), Some(vec![1, 2, 3, 4]));
    assert_eq!(r.feed(&[2, 0x03]), Some(vec![]));
}

#[test]
fn unfinished_frame_is_discarded() {
    let mut r = FrameReassembler::new(6);
    assert_eq!(r.feed(&[2, 0x00, 1, 2]), None);
    assert_eq!(r.feed(&[2, 0x01, 3]), None);
    assert_eq!(r.feed(&[2, 0x03, 4]), Some(vec![3, 4]));
}

#[test]
fn oversized_payload_is_left_out() {
    let mut r = FrameReassembler::new(3);
    assert_eq!(r.feed(&[2, 0x00, 1, 2]), None);
    assert_eq!(r.feed(&[2, 0x00, 3, 4]), None);
    assert_eq!(r.feed(&[2, 0x00, 5]), None);
    assert_eq!(r.feed(&[2, 0x02, 6]), Some(vec![1, 2, 5]));
}

#[test]
fn iso_packets_are_taken_apart() {
    let mut r = FrameReassembler::new(100);
    let buffer = vec![
        2, 0, 1, 2, // complete
        2, 0, 3, 4, // lost
        2, 0, 5, 99, // three bytes of four
        9, 9, 9, 9, // empty
        2, 2, 6, 7, // reported longer than the packet
        2, 3, 8, 9, // one more frame
    ];
    let packet = |completed, actual_length| IsoPacket { completed, actual_length };
    let packets = [
        packet(true, 4),
        packet(false, 4),
        packet(true, 3),
        packet(true, 0),
        packet(true, 40),
        packet(true, 4),
    ];
    let frames = r.process_iso_packets(&buffer, 4, &packets);
    assert_eq!(frames, vec![vec![1, 2, 5, 6, 7], vec![8, 9]]);
    assert!(r.process_iso_packets(&[], 4, &[]).is_empty());
}

#[test]
fn collector_decodes_complete_frames() {
    let mut frame = vec![0u8; FRAME_BYTES];
    fill_frame(&mut frame, 512, &samples());
    let mut c = Collector::new();
    assert_eq!(c.feed_payload(&[&[2, 0][..], &frame[..100_000]].concat()), None);
    let rest = [&[2, 2][..], &frame[100_000..]].concat();
    assert_eq!(c.feed_payload(&rest), Some(samples()));
    // A frame that lost its first half is too short.
    assert_eq!(c.feed_payload(&rest), None);

    let chunk = [&[2, 2][..], &frame[..]].concat();
    let packet = IsoPacket { completed: true, actual_length: chunk.len() };
    assert_eq!(c.process_iso_packets(&chunk, chunk.len(), &[packet]), vec![samples()]);
    let short = IsoPacket { completed: true, actual_length: chunk.len() - 1 };
    assert!(c.process_iso_packets(&chunk, chunk.len(), &[short]).is_empty());
}

#[test]
fn stream_modes() {
    assert_eq!(stream_mode(TransferType::Bulk), Ok(StreamMode::Bulk));
    assert_eq!(stream_mode(TransferType::Isochronous), Ok(StreamMode::Isochronous));
    assert_eq!(
        stream_mode(TransferType::Interrupt),
        Err("Unsupported UVC video endpoint transfer type: Interrupt".to_string())
    );
    assert_eq!(
        stream_mode(TransferType::Control),
        Err("Unsupported UVC video endpoint transfer type: Control".to_string())
    );
}

#[test]
fn bulk_buffers() {
    assert_eq!(bulk_buffer_size(0), 16384);
    assert_eq!(bulk_buffer_size(16384), 16384);
    assert_eq!(bulk_buffer_size(16385), 16385);
    assert_eq!((iso_packet_len(0), iso_packet_len(1), iso_packet_len(3072)), (1, 1, 3072));
}

#[test]
fn iso_session_course() {
    let mut s = IsoSession::new();
    for _ in 0..4 {
        s.submitted();
    }
    assert_eq!(s.completed(false), IsoAction::Resubmit);
    assert_eq!((s.outstanding, s.device_gone), (4, false));
    s.resubmit_failed();
    assert_eq!((s.outstanding, s.device_gone), (3, true));
    assert_eq!(s.completed(true), IsoAction::Abandon);
    assert_eq!((s.outstanding, s.device_gone), (2, true));
    s.stop();
    assert_eq!(s.completed(true), IsoAction::Free);
    assert_eq!(s.completed(false), IsoAction::Free);
    assert_eq!(s.outstanding, 0);
}
