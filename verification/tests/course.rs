use p2pro_rs::device::{
    check_format, failure_message, find_usb_device, first_step, identify, is_video_node,
    next_step, parse_numeral, requested_format, step_report, CaptureStep, DeviceError, PixelFormat,
    StepOutcome, UsbAddress,
};
use p2pro_rs::panel::{status_lines, Panel, Pointers, RangeField, VideoButton};
use p2pro_rs::protocol::Negotiated;
use p2pro_rs::session::{
    handle_event, negotiated_message, session_failed, waiting_message, DebugLog, SessionAction,
    UsbEvent,
};
use p2pro_rs::text::{push_decimal, push_hex2, push_hex4, push_signed, trim};
use p2pro_rs::usb::TransferType;
use p2pro_rs::video::VideoEvent;

#[test]
fn numerals() {
    let mut s = String::from("n=");
    push_decimal(&mut s, 0);
    push_decimal(&mut s, 18_446_744_073_709_551_615);
    assert_eq!(s, "n=018446744073709551615");
    let mut s = String::new();
    push_signed(&mut s, i32::MIN);
    push_signed(&mut s, 42);
    assert_eq!(s, "-214748364842");
    let mut s = String::new();
    push_hex2(&mut s, 0x0a, false);
    push_hex2(&mut s, 0xbc, true);
    push_hex4(&mut s, 0x01ef, false);
    push_hex4(&mut s, 0xd0e4, true);
    assert_eq!(s, "0aBC01efD0E4");
}

#[test]
fn trimming() {
    assert_eq!(trim(" \t a b\u{3000}\n"), "a b");
    assert_eq!(trim("\u{a0}\u{2003}"), "");
    assert_eq!(trim(""), "");
    for n in 0..0x3100u32 {
        if let Some(c) = char::from_u32(n) {
            let text = format!("{c}x{c}");
            assert_eq!(trim(&text), text.trim());
        }
    }
}

#[test]
fn numeral_reading() {
    let texts = [
        "0bda\n", "5830", " +12 ", "+", "", "-1", "ffff", "10000", "FfFf", "0000001", "12a", "g",
        "++1", "1 2", "255", "256", "00255",
    ];
    for text in texts {
        let hex = u16::from_str_radix(text.trim(), 16).ok();
        assert_eq!(parse_numeral(text, 16, 0xFFFF), hex.map(u32::from), "{text:?}");
        let dec: Option<u8> = text.trim().parse().ok();
        assert_eq!(parse_numeral(text, 10, 0xFF), dec.map(u32::from), "{text:?}");
    }
}

#[test]
fn identification() {
    let camera = UsbAddress { bus: 3, address: 17 };
    assert_eq!(identify("0bda\n", "5830\n", "3\n", "17\n"), Ok(camera));
    assert_eq!(identify("x", "x", "x", "x"), Err(DeviceError::IdVendor));
    assert_eq!(identify("0bda", "", "x", "x"), Err(DeviceError::IdProduct));
    assert_eq!(identify("0bda", "1", "256", "x"), Err(DeviceError::BusNum));
    assert_eq!(identify("0bda", "1", "1", "x"), Err(DeviceError::DevNum));
    let other = DeviceError::NotP2Pro { vendor_id: 0x0bda, product_id: 0x58 };
    assert_eq!(identify("0bda", "58", "1", "1"), Err(other));
    assert_eq!(other.message(), "Device 0bda:0058 is not a P2Pro device (expected 0bda:5830)");
    assert_eq!(DeviceError::IdVendor.message(), "Failed to parse idVendor");
    assert_eq!(DeviceError::IdProduct.message(), "Failed to parse idProduct");
    assert_eq!(DeviceError::BusNum.message(), "Failed to parse busnum");
    assert_eq!(DeviceError::DevNum.message(), "Failed to parse devnum");
}

#[test]
fn device_on_the_bus() {
    let at = |bus, address| UsbAddress { bus, address };
    let devices = [at(1, 1), at(3, 17), at(1, 17), at(3, 17)];
    assert_eq!(find_usb_device(&devices, at(3, 17)), Ok(1));
    let missing = find_usb_device(&devices, at(2, 9)).expect_err("missing");
    assert_eq!(missing.message(), "USB device 2:9 not found.");
}

#[test]
fn video_nodes() {
    assert!(is_video_node("video0") && is_video_node("video"));
    assert!(!is_video_node("vide") && !is_video_node("video".to_uppercase().as_str()));
    assert!(!is_video_node("xvideo1"));
}

#[test]
fn picture_formats() {
    let wanted = requested_format();
    assert_eq!(wanted, PixelFormat { width: 256, height: 384, fourcc: *b"YUYV" });
    assert_eq!(check_format(wanted, "YUYV"), Ok(()));
    let message = |f: PixelFormat, text: &str| check_format(f, text).expect_err("refused");
    assert_eq!(
        message(PixelFormat { width: 640, ..wanted }, "YUYV"),
        "Camera reported an unexpected format 640x384/YUYV (wanted 256x384/YUYV)"
    );
    assert_eq!(
        message(PixelFormat { fourcc: *b"MJPG", ..wanted }, "MJPG"),
        "Camera reported an unexpected format 256x384/MJPG (wanted 256x384/YUYV)"
    );
    assert_eq!(
        message(PixelFormat { height: 192, ..wanted }, "YUYV"),
        "Camera reported an unexpected format 256x192/YUYV (wanted 256x384/YUYV)"
    );
}

#[test]
fn capture_course() {
    let (done, missing, failed) = (StepOutcome::Done, StepOutcome::NotFound, StepOutcome::Failed);
    assert_eq!(first_step(true), CaptureStep::Open);
    assert_eq!(first_step(false), CaptureStep::Probe);
    assert_eq!(next_step(true, CaptureStep::Open, done), CaptureStep::Run);
    assert_eq!(next_step(true, CaptureStep::Open, failed), CaptureStep::Pause);
    assert_eq!(next_step(false, CaptureStep::Probe, done), CaptureStep::Run);
    assert_eq!(next_step(false, CaptureStep::Probe, failed), CaptureStep::Pause);
    assert_eq!(next_step(false, CaptureStep::Probe, missing), CaptureStep::Pause);
    assert_eq!(next_step(false, CaptureStep::Run, failed), CaptureStep::Pause);
    assert_eq!(next_step(true, CaptureStep::Pause, done), CaptureStep::Open);
    assert_eq!(next_step(false, CaptureStep::Pause, done), CaptureStep::Probe);
    assert_eq!(
        failure_message(CaptureStep::Open, "/dev/video2", "busy"),
        "Error opening camera /dev/video2:\nbusy\nRetrying ..."
    );
    assert_eq!(
        failure_message(CaptureStep::Probe, "", "denied"),
        "Error probing for P2Pro device:\ndenied\nRetrying ..."
    );
    assert_eq!(
        failure_message(CaptureStep::Run, "/dev/video2", "gone"),
        "/dev/video2:\ngone\nRetrying ..."
    );
    let report = |outcome| step_report(CaptureStep::Run, outcome, "/dev/video2", "gone");
    assert_eq!(report(failed).as_deref(), Some("/dev/video2:\ngone\nRetrying ..."));
    assert_eq!((report(done), report(missing)), (None, None));
}

#[test]
fn capture_goes_on_whatever_fails() {
    for named in [true, false] {
        let mut step = first_step(named);
        let mut connects = 0;
        for _ in 0..20 {
            if step == first_step(named) {
                connects += 1;
            }
            step = next_step(named, step, StepOutcome::Failed);
        }
        assert_eq!(connects, 10);
    }
}

#[test]
fn log_keeps_the_latest_lines() {
    let mut log = DebugLog::new();
    assert_eq!(log.render(), "");
    log.push(String::new());
    log.push("a".to_string());
    log.push(String::new());
    log.push("b".to_string());
    assert_eq!(log.render(), "a\n\nb");
    for i in 0..20 {
        log.push(format!("{i}"));
    }
    assert_eq!(log.render(), "4\n5\n6\n7\n8\n9\n10\n11\n12\n13\n14\n15\n16\n17\n18\n19");
}

#[test]
fn session_events() {
    let mut log = DebugLog::new();
    let ready = |vendor_id, product_id| UsbEvent::DeviceReady { fd: 7, vendor_id, product_id, token: -3 };
    let outcome = handle_event(&mut log, UsbEvent::Log("hello".to_string()));
    assert_eq!((outcome.action, outcome.lines), (SessionAction::Wait, vec!["hello".to_string()]));
    let outcome = handle_event(&mut log, ready(0x1234, 0x5830));
    assert_eq!(outcome.action, SessionAction::Wait);
    assert_eq!(
        outcome.lines,
        vec![
            "Rust: received fd 7 for 1234:5830",
            "Not a P2Pro (expected 0bda:5830); ignoring fd",
        ]
    );
    assert_eq!(
        log.render(),
        "hello\nRust: received fd 7 for 1234:5830\n\
         Not a P2Pro (expected 0bda:5830); ignoring fd"
    );
    let mut log = DebugLog::new();
    assert_eq!(handle_event(&mut log, ready(0x0bda, 0x5831)).action, SessionAction::Wait);
    let mut log = DebugLog::new();
    let outcome = handle_event(&mut log, ready(0x0bda, 0x5830));
    assert_eq!(outcome.action, SessionAction::Run { fd: 7, token: -3 });
    assert_eq!(
        waiting_message(&log),
        "Waiting for the P2Pro to be plugged in ...\n\
         Grant the USB and camera permission popups when they appear.\n\n\
         Rust: received fd 7 for 0bda:5830"
    );
    let notice = session_failed(&mut log, "no stream");
    assert_eq!(notice.line, "Session error: no stream");
    assert_eq!(
        notice.message,
        "no stream\nRetrying ...\n\nRust: received fd 7 for 0bda:5830\nSession error: no stream"
    );
}

#[test]
fn negotiation_report() {
    let n = Negotiated {
        endpoint: 0x81,
        transfer_type: TransferType::Isochronous,
        packet_size: 3072,
        max_payload_transfer_size: 3060,
        max_video_frame_size: 196_608,
    };
    assert_eq!(
        negotiated_message(&n),
        "UVC negotiated: Isochronous endpoint 0x81 (3060 bytes/payload)\nWaiting for frames ..."
    );
}

#[test]
fn status_text_lines() {
    for text in ["", "a", "a\nb", "\n", "x\n\ny\n", "\u{b0}C\nz"] {
        let expect: Vec<&str> = text.split('\n').collect();
        assert_eq!(status_lines(text), expect);
    }
}

#[test]
fn panel_course() {
    let mut p = Panel::new();
    assert_eq!((p.running_label(), p.video_label(), p.video_class()), ("Stop cam", "Save vid", "control-btn"));
    assert!(p.accepts(true) && p.accepts(false));
    assert_eq!(p.press_video(), VideoButton::Pick);
    assert!(!p.recording);
    p.target_picked("a.avi".to_string());
    assert!(p.recording);
    assert_eq!(p.video_name.as_deref(), Some("a.avi"));
    assert_eq!((p.video_label(), p.video_class()), ("\u{25a0} Stop", "control-btn rec rec-active"));
    p.toggle_running();
    assert!(!p.accepts(true) && p.accepts(false));
    assert_eq!(p.running_label(), "Start cam");
    assert_eq!(
        (p.video_label(), p.video_class()),
        ("\u{25a0} Stop (paused)", "control-btn rec rec-paused")
    );
    p.video_event(VideoEvent::Error("disk full".to_string()));
    assert!(!p.recording);
    assert_eq!(p.video_err.as_deref(), Some("disk full"));
    p.target_picked("b.avi".to_string());
    assert_eq!(p.video_err, None);
    assert_eq!(p.press_video(), VideoButton::Stop);
    p.video_event(VideoEvent::Stopped { frames: 3 });
    assert!(!p.recording && p.video_err.is_none());
}

#[test]
fn range_fields() {
    let mut f = RangeField::new();
    assert_eq!(f.limit(), None);
    f.toggle(true, "21.5".to_string());
    assert_eq!(f.limit().as_deref(), Some("21.5"));
    f.input(" -3,25 ".to_string());
    assert_eq!(f.limit().as_deref(), Some("-3.25"));
    f.toggle(false, "9".to_string());
    assert_eq!(f.limit(), None);
    f.toggle(true, "9".to_string());
    assert_eq!(f.limit().as_deref(), Some("-3.25"));
    f.input("  ".to_string());
    assert_eq!(f.limit().as_deref(), Some(""));
    f.toggle(true, "9".to_string());
    assert_eq!(f.limit().as_deref(), Some("9"));
}

#[test]
fn pointer_tracking() {
    let mut p: Pointers<(f64, f64)> = Pointers::new();
    let ids = |p: &Pointers<(f64, f64)>| -> Vec<i32> { p.contacts().iter().map(|c| c.id).collect() };
    assert!(!p.move_to(1, (0.0, 0.0)));
    p.press(1, (1.0, 1.0));
    p.press(2, (2.0, 2.0));
    p.press(3, (3.0, 3.0));
    assert_eq!(ids(&p), vec![1, 2]);
    p.press(1, (4.0, 4.0));
    assert_eq!(ids(&p), vec![2, 1]);
    assert!(p.move_to(2, (5.0, 6.0)));
    assert_eq!(p.contacts()[0].place, (5.0, 6.0));
    assert_eq!(p.contacts()[1].place, (4.0, 4.0));
    assert!(p.release(2));
    assert!(p.release(9));
    assert!(!p.release(1));
    p.press(5, (0.0, 0.0));
    p.clear();
    assert!(p.contacts().is_empty());
}
