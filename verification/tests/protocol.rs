use p2pro_rs::protocol::{
    choose_setting, find_stream, negotiate, packet_size_bytes, parse_vs_descriptors, AltSetting,
    DriverState, Endpoint, Interface, Negotiated, Negotiation, NegotiationAction,
    NegotiationError, StreamSetting, StreamingControl, VsFormat,
};
use p2pro_rs::usb::{ControlSetup, Direction, TransferType};

const YUY2: [u8; 16] = [
    0x59, 0x55, 0x59, 0x32, 0x00, 0x00, 0x10, 0x00, 0x80, 0x00, 0x00, 0xAA, 0x00, 0x38, 0x9B, 0x71,
];

fn format_descriptor(index: u8, guid: &[u8; 16]) -> Vec<u8> {
    let mut d = vec![27, 0x24, 0x04, index, 1];
    d.extend_from_slice(guid);
    d.resize(27, 0);
    d
}

fn frame_descriptor(index: u8, width: u16, height: u16, interval: u32) -> Vec<u8> {
    let mut d = vec![26, 0x24, 0x05, index, 0];
    d.extend_from_slice(&width.to_le_bytes());
    d.extend_from_slice(&height.to_le_bytes());
    d.resize(21, 0);
    d.extend_from_slice(&interval.to_le_bytes());
    d.resize(26, 0);
    d
}

fn endpoint(address: u8, transfer_type: TransferType, max_packet_size: u16) -> Endpoint {
    let direction = if address & 0x80 != 0 { Direction::In } else { Direction::Out };
    Endpoint { address, direction, transfer_type, max_packet_size }
}

fn setting(number: u8, setting_number: u8, extra: Vec<u8>, endpoints: Vec<Endpoint>) -> AltSetting {
    AltSetting {
        interface_number: number,
        setting_number,
        class_code: 0x0e,
        sub_class_code: 0x02,
        extra,
        endpoints,
    }
}

fn camera_interfaces() -> Vec<Interface> {
    let mut extra = format_descriptor(3, &YUY2);
    extra.extend(frame_descriptor(7, 256, 384, 400_000));
    let iso = TransferType::Isochronous;
    vec![
        Interface {
            number: 0,
            settings: vec![AltSetting {
                interface_number: 0,
                setting_number: 0,
                class_code: 0x0e,
                sub_class_code: 0x01,
                extra: extra.clone(),
                endpoints: vec![],
            }],
        },
        Interface {
            number: 1,
            settings: vec![
                setting(1, 0, extra, vec![]),
                setting(1, 1, vec![], vec![endpoint(0x81, iso, 0x0200)]),
                setting(1, 2, vec![], vec![endpoint(0x02, iso, 0x0900), endpoint(0x81, iso, 0x1400)]),
                setting(1, 3, vec![], vec![endpoint(0x81, iso, 0x0400)]),
                setting(1, 4, vec![], vec![endpoint(0x81, TransferType::Interrupt, 0x0400)]),
            ],
        },
    ]
}

#[test]
fn control_layout() {
    let c = StreamingControl {
        bm_hint: 0x0201,
        format_index: 3,
        frame_index: 4,
        frame_interval: 0x08070605,
        key_frame_rate: 0x0A09,
        p_frame_rate: 0x0C0B,
        comp_quality: 0x0E0D,
        comp_window_size: 0x100F,
        delay: 0x1211,
        max_video_frame_size: 0x16151413,
        max_payload_transfer_size: 0x1A191817,
    };
    let bytes = c.to_bytes();
    let expect: Vec<u8> = (1..=26).collect();
    assert_eq!(bytes.to_vec(), expect);
    assert_eq!(StreamingControl::from_bytes(&bytes), Some(c));
    let mut longer = bytes.to_vec();
    longer.push(99);
    assert_eq!(StreamingControl::from_bytes(&longer), Some(c));
    assert_eq!(StreamingControl::from_bytes(&bytes[..25]), None);
}

#[test]
fn descriptors_of_the_camera() {
    let mut extra = vec![13, 0x24, 0x01, 0, 0, 0, 0, 0, 0, 0, 0, 0, 0];
    extra.extend(format_descriptor(2, &[0; 16]));
    extra.extend(frame_descriptor(1, 256, 384, 1));
    extra.extend(format_descriptor(5, &YUY2));
    extra.extend(frame_descriptor(1, 640, 480, 2));
    assert_eq!(parse_vs_descriptors(&extra), None);
    extra.extend(frame_descriptor(2, 256, 384, 333_333));
    let found = VsFormat { format_index: 5, frame_index: 2, frame_interval: 333_333 };
    assert_eq!(parse_vs_descriptors(&extra), Some(found));
    extra.extend(frame_descriptor(6, 256, 384, 400_000));
    let last = VsFormat { format_index: 5, frame_index: 6, frame_interval: 400_000 };
    assert_eq!(parse_vs_descriptors(&extra), Some(last));
    // A malformed descriptor ends the scan.
    let mut broken = extra.clone();
    broken.extend([2, 0x24, 0x04]);
    broken.extend(frame_descriptor(9, 256, 384, 1));
    assert_eq!(parse_vs_descriptors(&broken), Some(last));
    broken.truncate(extra.len() - 1);
    assert_eq!(parse_vs_descriptors(&broken), Some(found));
    // A frame after another format does not belong to the first one.
    extra.extend(format_descriptor(6, &[1; 16]));
    extra.extend(frame_descriptor(8, 256, 384, 1));
    assert_eq!(parse_vs_descriptors(&extra), Some(last));
    assert_eq!(parse_vs_descriptors(&[]), None);
}

#[test]
fn packet_sizes() {
    assert_eq!(packet_size_bytes(TransferType::Isochronous, 0x1400), 3072);
    assert_eq!(packet_size_bytes(TransferType::Isochronous, 0x0bfc), 2040);
    assert_eq!(packet_size_bytes(TransferType::Interrupt, 0xE040), 64);
    assert_eq!(packet_size_bytes(TransferType::Bulk, 0x1400), 0x1400);
    assert_eq!(packet_size_bytes(TransferType::Control, 64), 64);
}

#[test]
fn stream_is_found_on_the_streaming_interface() {
    let found = VsFormat { format_index: 3, frame_index: 7, frame_interval: 400_000 };
    assert_eq!(find_stream(&camera_interfaces()), Some((1, found)));
    assert_eq!(find_stream(&camera_interfaces()[..1]), None);
}

#[test]
fn tightest_setting_is_chosen() {
    let interfaces = camera_interfaces();
    let iso = TransferType::Isochronous;
    let pick = |required| choose_setting(&interfaces, 1, required).map(|s| s.setting_number);
    assert_eq!(pick(1), Some(1));
    assert_eq!(pick(512), Some(1));
    assert_eq!(pick(513), Some(3));
    assert_eq!(pick(1025), Some(2));
    assert_eq!(pick(5000), Some(2));
    assert_eq!(
        choose_setting(&interfaces, 1, 3072),
        Some(StreamSetting { setting_number: 2, endpoint: 0x81, transfer_type: iso, packet_size: 3072 })
    );
    assert_eq!(choose_setting(&interfaces, 0, 1), None);
    assert_eq!(choose_setting(&interfaces, 9, 1), None);
}

#[test]
fn first_of_equal_settings_is_chosen() {
    let bulk = TransferType::Bulk;
    let interfaces = vec![Interface {
        number: 4,
        settings: vec![
            setting(4, 1, vec![], vec![endpoint(0x82, bulk, 512)]),
            setting(4, 2, vec![], vec![endpoint(0x83, bulk, 512)]),
        ],
    }];
    assert_eq!(choose_setting(&interfaces, 4, 100).map(|s| s.setting_number), Some(1));
    assert_eq!(choose_setting(&interfaces, 4, 900).map(|s| s.setting_number), Some(1));
}

fn setup(request_type: u8, request: u8, value: u16) -> ControlSetup {
    ControlSetup { request_type, request, value, index: 1 }
}

fn to_probe(state: DriverState) -> Negotiation {
    let mut n = negotiate(camera_interfaces()).expect("stream");
    assert_eq!(n.action(), NegotiationAction::QueryDriver { interface: 1 });
    n.driver_state(state);
    if state == DriverState::Active {
        assert_eq!(n.action(), NegotiationAction::DetachDriver { interface: 1 });
        n.completed(true);
    }
    assert_eq!(n.action(), NegotiationAction::Claim { interface: 1 });
    n.completed(true);
    n
}

#[test]
fn negotiation_succeeds() {
    let mut n = to_probe(DriverState::Active);
    let sent = match n.action() {
        NegotiationAction::Write { setup: s, data } => {
            assert_eq!(s, setup(0x21, 0x01, 0x0100));
            data
        }
        other => panic!("unexpected {other:?}"),
    };
    let probe = StreamingControl::from_bytes(&sent).expect("26 bytes");
    assert_eq!((probe.format_index, probe.frame_index, probe.frame_interval), (3, 7, 400_000));
    assert_eq!(sent[8..], [0; 18]);
    n.completed(true);
    assert_eq!(n.action(), NegotiationAction::Read { setup: setup(0xA1, 0x81, 0x0100), len: 26 });
    let answer = StreamingControl {
        max_video_frame_size: 196_608,
        max_payload_transfer_size: 1000,
        ..probe
    };
    n.read_back(Some(&answer.to_bytes()));
    assert_eq!(
        n.action(),
        NegotiationAction::Write { setup: setup(0x21, 0x01, 0x0200), data: answer.to_bytes() }
    );
    n.completed(true);
    assert_eq!(n.action(), NegotiationAction::Select { interface: 1, setting_number: 3 });
    n.completed(true);
    assert_eq!(
        n.action(),
        NegotiationAction::Finished(Negotiated {
            endpoint: 0x81,
            transfer_type: TransferType::Isochronous,
            packet_size: 1024,
            max_payload_transfer_size: 1000,
            max_video_frame_size: 196_608,
        })
    );
}

#[test]
fn unanswered_probe_is_committed_as_sent() {
    for reply in [None, Some(&[1u8, 2, 3][..])] {
        let mut n = to_probe(DriverState::Unsupported);
        let sent = n.action();
        n.completed(true);
        n.read_back(reply);
        match (sent, n.action()) {
            (NegotiationAction::Write { data: a, .. }, NegotiationAction::Write { data: b, .. }) => {
                assert_eq!(a, b)
            }
            other => panic!("unexpected {other:?}"),
        }
        n.completed(true);
        assert_eq!(n.action(), NegotiationAction::Select { interface: 1, setting_number: 1 });
    }
}

#[test]
fn negotiation_failures() {
    let no_stream = negotiate(vec![]).err();
    assert_eq!(no_stream, Some(NegotiationError::NoStream));

    let failed = |n: &Negotiation, e| assert_eq!(n.action(), NegotiationAction::Failed(e));
    let mut n = negotiate(camera_interfaces()).expect("stream");
    n.driver_state(DriverState::Failed);
    failed(&n, NegotiationError::DriverQuery);

    let mut n = negotiate(camera_interfaces()).expect("stream");
    n.driver_state(DriverState::Active);
    n.completed(false);
    failed(&n, NegotiationError::DriverDetach);

    let mut n = negotiate(camera_interfaces()).expect("stream");
    n.driver_state(DriverState::Inactive);
    n.completed(false);
    failed(&n, NegotiationError::Claim);

    let mut n = to_probe(DriverState::Inactive);
    n.completed(false);
    failed(&n, NegotiationError::Probe);

    let mut n = to_probe(DriverState::Inactive);
    n.completed(true);
    n.read_back(None);
    n.completed(false);
    failed(&n, NegotiationError::Commit);

    let mut n = to_probe(DriverState::Inactive);
    n.completed(true);
    n.read_back(None);
    n.completed(true);
    n.completed(false);
    failed(&n, NegotiationError::SelectSetting);

    let mut interfaces = camera_interfaces();
    interfaces[1].settings.truncate(1);
    let mut n = negotiate(interfaces).expect("stream");
    n.driver_state(DriverState::Inactive);
    n.completed(true);
    n.completed(true);
    n.read_back(None);
    n.completed(true);
    failed(&n, NegotiationError::NoSetting);
}

#[test]
fn negotiation_error_texts() {
    let texts = [
        (
            NegotiationError::NoStream,
            "Could not find a VideoStreaming interface offering YUYV at 256x384",
        ),
        (NegotiationError::DriverQuery, "Failed to query the VideoStreaming kernel driver state"),
        (
            NegotiationError::DriverDetach,
            "Failed to detach the kernel/usbfs driver from the VideoStreaming interface",
        ),
        (NegotiationError::Claim, "Failed to claim the VideoStreaming interface"),
        (NegotiationError::Probe, "VS_PROBE_CONTROL (SET_CUR) failed"),
        (NegotiationError::Commit, "VS_COMMIT_CONTROL (SET_CUR) failed"),
        (
            NegotiationError::NoSetting,
            "No usable VideoStreaming alternate setting/endpoint found",
        ),
        (
            NegotiationError::SelectSetting,
            "Failed to select the VideoStreaming alternate setting",
        ),
    ];
    for (e, text) in texts {
        assert_eq!(e.message(), text);
    }
}
