use p2pro_rs::camera_config::{CameraConfig, DeviceInfoItem, Palette, TpdParam};
use p2pro_rs::exchange::{control_in, control_out, wait_ready, ConfigError, Exchange, Poll};
use p2pro_rs::transport::{
    command_header, long_command_header, long_command_params, Step, MAILBOX_BULK, MAILBOX_DATA,
    MAILBOX_HEADER_A, MAILBOX_HEADER_B,
};
use p2pro_rs::usb::ControlSetup;

/// What a step does, in a form that can be compared.
#[derive(Debug, Clone, PartialEq)]
enum Did {
    Out(u16, Vec<u8>),
    In(u16, usize),
    Wait,
}

/// Runs a command on a camera that is always ready and answers with counting
/// bytes.
fn run(mut e: Exchange) -> (Vec<Did>, Vec<u8>) {
    let mut did = vec![];
    let mut next = 0u8;
    loop {
        let step = match e.step() {
            None => break,
            Some(Step::Out { mailbox, data }) => Did::Out(*mailbox, data.clone()),
            Some(Step::In { mailbox, len }) => Did::In(*mailbox, *len),
            Some(Step::WaitReady) => Did::Wait,
        };
        match &step {
            Did::Out(_, data) => e.sent(data.len()).expect("sent"),
            Did::In(_, len) => {
                let bytes: Vec<u8> = (0..*len).map(|i| next.wrapping_add(i as u8)).collect();
                next = next.wrapping_add(*len as u8);
                e.received(&bytes).expect("received");
            }
            Did::Wait => assert_eq!(e.polled(&[0x80], false), Ok(Poll::Ready)),
        }
        did.push(step);
    }
    (did, e.finish())
}

#[test]
fn headers() {
    assert_eq!(command_header(0x8409, 0x01020304, false, 0x0100), [0x09, 0x84, 4, 3, 2, 1, 1, 0]);
    assert_eq!(command_header(0x8201, 0x01020304, true, 0x0005), [0x01, 0x82, 1, 2, 3, 4, 0, 5]);
    assert_eq!(long_command_header(0x8514, 0x0102, 0x03040506), [0x14, 0x85, 1, 2, 3, 4, 5, 6]);
    assert_eq!(long_command_params(0x01020304, 0x05060708), [1, 2, 3, 4, 5, 6, 7, 8]);
}

#[test]
fn payload_mailboxes_are_in_the_alternate_bank() {
    assert_eq!(MAILBOX_HEADER_B, MAILBOX_HEADER_A | 0x8000);
    assert_eq!(MAILBOX_BULK, MAILBOX_DATA | 0x8000);
}

#[test]
fn transfer_templates() {
    let out = ControlSetup { request_type: 0x41, request: 0x45, value: 0x78, index: 0x1D00 };
    let input = ControlSetup { request_type: 0xC1, request: 0x44, value: 0x78, index: 0x0200 };
    assert_eq!(control_out(0x1D00), out);
    assert_eq!(control_in(0x0200), input);
}

#[test]
fn bare_commands() {
    let bare = |code: [u8; 2]| {
        vec![Did::Out(0x1D00, vec![code[0], code[1], 0, 0, 0, 0, 0, 0]), Did::Wait]
    };
    assert_eq!(run(CameraConfig::reset_to_rom()).0, bare([0x05, 0x08]));
    assert_eq!(run(CameraConfig::preview_start()).0, bare([0x0F, 0xC1]));
    assert_eq!(run(CameraConfig::preview_stop()).0, bare([0x0F, 0x02]));
    assert_eq!(run(CameraConfig::y16_preview_start()).0, bare([0x0A, 0x01]));
    assert_eq!(run(CameraConfig::y16_preview_stop()).0, bare([0x0A, 0x02]));
}

#[test]
fn palette_commands() {
    assert_eq!(
        run(CameraConfig::set_palette(Palette::IronRed)).0,
        vec![
            Did::Out(0x9D00, vec![0x09, 0xC4, 0, 0, 0, 0, 0, 1]),
            Did::Wait,
            Did::Out(0x1D08, vec![3]),
            Did::Wait,
        ]
    );
    let (did, reply) = run(CameraConfig::palette());
    assert_eq!(
        did,
        vec![
            Did::Out(0x1D00, vec![0x09, 0x84, 0, 0, 0, 0, 0, 1]),
            Did::Wait,
            Did::In(0x1D08, 1),
            Did::Wait,
        ]
    );
    assert_eq!(reply, vec![0]);
    assert_eq!(CameraConfig::palette_reply(&[11]), Ok(Palette::BlackHot));
    assert_eq!(CameraConfig::palette_reply(&[2]), Err(ConfigError::UnknownPalette(2)));
    assert_eq!(CameraConfig::palette_reply(&[]), Err(ConfigError::EmptyPalette));
}

#[test]
fn palette_ids() {
    let ids: Vec<u8> = (0..=255).filter(|&id| Palette::try_from(id).is_ok()).collect();
    assert_eq!(ids, vec![1, 3, 4, 5, 6, 7, 8, 9, 10, 11]);
    for id in ids {
        assert_eq!(Palette::try_from(id).map(|p| p.id()), Ok(id));
    }
    assert_eq!(Palette::try_from(1), Ok(Palette::WhiteHot));
}

#[test]
fn long_payload_is_split() {
    let payload: Vec<u8> = (0..330).map(|i| i as u8).collect();
    let (did, reply) = run(CameraConfig::spi_write(0xFFFF_FFF0, &payload));
    assert_eq!(
        did,
        vec![
            Did::Out(0x9D00, vec![0x01, 0xC2, 0xFF, 0xFF, 0xFF, 0xF0, 1, 0]),
            Did::Wait,
            Did::Out(0x9D08, payload[..64].to_vec()),
            Did::Out(0x9D48, payload[64..128].to_vec()),
            Did::Out(0x9D88, payload[128..192].to_vec()),
            Did::Out(0x9DC8, payload[192..248].to_vec()),
            Did::Out(0x1E00, payload[248..256].to_vec()),
            Did::Wait,
            // The parameter wraps around.
            Did::Out(0x9D00, vec![0x01, 0xC2, 0x00, 0x00, 0x00, 0xF0, 0, 74]),
            Did::Wait,
            Did::Out(0x9D08, payload[256..320].to_vec()),
            Did::Out(0x9D48, payload[320..322].to_vec()),
            Did::Out(0x1D4A, payload[322..].to_vec()),
            Did::Wait,
        ]
    );
    assert!(reply.is_empty());
}

#[test]
fn payload_tails() {
    let sizes = |n: usize| -> Vec<(u16, usize)> {
        run(CameraConfig::spi_write(0, &vec![0; n]))
            .0
            .into_iter()
            .filter_map(|d| match d {
                Did::Out(m, data) if m & 0x7FFF != 0x1D00 => Some((m, data.len())),
                _ => None,
            })
            .collect()
    };
    assert_eq!(sizes(8), vec![(0x1D08, 8)]);
    assert_eq!(sizes(9), vec![(0x9D08, 1), (0x1D09, 8)]);
    assert_eq!(sizes(64), vec![(0x9D08, 56), (0x1D40, 8)]);
    assert_eq!(sizes(66), vec![(0x9D08, 64), (0x1D48, 2)]);
    assert_eq!(sizes(0), vec![]);
}

#[test]
fn long_read_is_split() {
    let (did, reply) = run(CameraConfig::spi_read(0x100, 300));
    assert_eq!(
        did,
        vec![
            Did::Out(0x1D00, vec![0x01, 0x82, 0, 0, 1, 0, 1, 0]),
            Did::Wait,
            Did::In(0x1D08, 256),
            Did::Wait,
            Did::Out(0x1D00, vec![0x01, 0x82, 0, 0, 2, 0, 0, 44]),
            Did::Wait,
            Did::In(0x1D08, 44),
            Did::Wait,
        ]
    );
    let expect: Vec<u8> = (0..300).map(|i| i as u8).collect();
    assert_eq!(reply, expect);
    assert_eq!(run(CameraConfig::spi_read(5, 0)), (vec![], vec![]));
}

#[test]
fn measurement_parameters() {
    let (did, reply) = run(CameraConfig::tpd_get(TpdParam::Emissivity));
    assert_eq!(
        did,
        vec![
            Did::Out(0x9D00, vec![0x14, 0x85, 0, 3, 0, 0, 0, 0]),
            Did::Out(0x1D08, vec![0, 0, 0, 0, 0, 0, 0, 2]),
            Did::Wait,
            Did::In(0x1D10, 2),
            Did::Wait,
        ]
    );
    assert_eq!(CameraConfig::tpd_reply(&reply), Ok(1));
    assert_eq!(CameraConfig::tpd_reply(&[0x12, 0x34]), Ok(0x1234));
    assert_eq!(CameraConfig::tpd_reply(&[1]), Err(ConfigError::ShortTpd));
    assert_eq!(
        run(CameraConfig::tpd_set(TpdParam::AtmosphericTransmittance, 0x1234)).0,
        vec![
            Did::Out(0x9D00, vec![0x14, 0xC5, 0, 4, 0, 0, 0x12, 0x34]),
            Did::Out(0x1D08, vec![0; 8]),
            Did::Wait,
        ]
    );
    let indices: Vec<u16> = [
        TpdParam::Distance,
        TpdParam::ReflectedTemperature,
        TpdParam::AtmosphericTemperature,
        TpdParam::Emissivity,
        TpdParam::AtmosphericTransmittance,
        TpdParam::GainSelect,
    ]
    .iter()
    .map(|p| p.index())
    .collect();
    assert_eq!(indices, vec![0, 1, 2, 3, 4, 5]);
}

#[test]
fn gain() {
    assert_eq!(run(CameraConfig::high_gain()).0[0], Did::Out(0x9D00, vec![0x14, 0x85, 0, 5, 0, 0, 0, 0]));
    assert_eq!(CameraConfig::high_gain_reply(&[0, 0]), Ok(false));
    assert_eq!(CameraConfig::high_gain_reply(&[1, 0]), Ok(true));
    assert_eq!(CameraConfig::high_gain_reply(&[]), Err(ConfigError::ShortTpd));
    assert_eq!(
        run(CameraConfig::set_high_gain(true)).0[0],
        Did::Out(0x9D00, vec![0x14, 0xC5, 0, 5, 0, 0, 0, 1])
    );
    assert_eq!(
        run(CameraConfig::set_high_gain(false)).0[0],
        Did::Out(0x9D00, vec![0x14, 0xC5, 0, 5, 0, 0, 0, 0])
    );
}

#[test]
fn raw_temperatures() {
    assert_eq!(run(CameraConfig::shutter_vtemp()).0[0], Did::Out(0x1D00, vec![0x0C, 0x84, 0, 0, 0, 0, 0, 2]));
    assert_eq!(run(CameraConfig::current_vtemp()).0[0], Did::Out(0x1D00, vec![0x0D, 0x8B, 0, 0, 0, 0, 0, 2]));
    assert_eq!(CameraConfig::vtemp_reply(&[0xAB, 0xCD]), Ok(0xABCD));
    assert_eq!(CameraConfig::vtemp_reply(&[1, 2, 3]), Err(ConfigError::ShortValue));
}

#[test]
fn defaults() {
    let commands = CameraConfig::set_default();
    let first: Vec<Did> = commands.into_iter().map(|e| run(e).0[0].clone()).collect();
    assert_eq!(
        first,
        vec![
            Did::Out(0x9D00, vec![0x14, 0xC5, 0, 3, 0, 0, 0, (1.0f32 * 127.0).round() as u8]),
            Did::Out(0x9D00, vec![0x14, 0xC5, 0, 0, 0, 0, 0, (0.2f32 * 163.835).round() as u8]),
            Did::Out(0x9D00, vec![0x14, 0xC5, 0, 5, 0, 0, 0, 1]),
            Did::Out(0x9D00, vec![0x09, 0xC4, 0, 0, 0, 0, 0, 1]),
            Did::Out(0x1D00, vec![0x0F, 0x02, 0, 0, 0, 0, 0, 0]),
        ]
    );
}

#[test]
fn device_information() {
    let items = [
        (DeviceInfoItem::ChipId, 0, 8),
        (DeviceInfoItem::FirmwareCompileDate, 1, 8),
        (DeviceInfoItem::DeviceQualification, 2, 8),
        (DeviceInfoItem::IrSensorInfo, 3, 26),
        (DeviceInfoItem::ProjectInfo, 4, 4),
        (DeviceInfoItem::FirmwareBuildVersion, 5, 50),
        (DeviceInfoItem::PartNumber, 6, 48),
        (DeviceInfoItem::SerialNumber, 7, 16),
        (DeviceInfoItem::SensorId, 8, 4),
    ];
    for (item, index, len) in items {
        assert_eq!(item.item_index(), index);
        assert_eq!(item.response_len(), len);
        assert_eq!(item.name(), format!("{item:?}"));
        let (did, reply) = run(CameraConfig::device_info(item));
        assert_eq!(did[0], Did::Out(0x1D00, vec![0x05, 0x84, index as u8, 0, 0, 0, 0, len as u8]));
        assert_eq!(reply.len(), len);
    }
}

#[test]
fn device_information_text() {
    let text = |raw: &[u8]| CameraConfig::device_info_string(raw);
    assert_eq!(text(b"P2Pro\0\0\0"), Ok("P2Pro".to_string()));
    assert_eq!(text(b"full"), Ok("full".to_string()));
    assert_eq!(text("Grad \u{b0}\0\u{ff}".as_bytes()), Ok("Grad \u{b0}".to_string()));
    assert_eq!(text(b""), Ok(String::new()));
    assert_eq!(text(b"\xff\0"), Err(ConfigError::NotUtf8));
    assert_eq!(text(b"ok\0\xff"), Ok("ok".to_string()));
}

#[test]
fn device_information_summary() {
    let items = CameraConfig::summary_items();
    assert_eq!(items[0], DeviceInfoItem::DeviceQualification);
    let mut indices: Vec<u32> = items.iter().map(|i| i.item_index()).collect();
    indices.sort();
    assert_eq!(indices, vec![0, 1, 2, 3, 4, 5, 6, 7, 8]);

    // Every item that can be read gets its line.
    let all: Vec<Option<Vec<u8>>> = (0..9).map(|i| Some(vec![b'a' + i])).collect();
    let expect: Vec<String> =
        items.iter().zip('a'..).map(|(item, c)| format!("{item:?}: {c}")).collect();
    assert_eq!(CameraConfig::device_info_summary(&all), expect);

    // One that cannot be read costs only its own line.
    let mut some = all.clone();
    some[1] = None;
    some[2] = Some(vec![0xFF]);
    some[3] = Some(b"pn\0".to_vec());
    some[6] = None;
    some[8] = None;
    assert_eq!(
        CameraConfig::device_info_summary(&some),
        vec![
            "DeviceQualification: a",
            "FirmwareCompileDate: ",
            "PartNumber: pn\0",
            "SerialNumber: e",
            "ChipId: f",
            "ProjectInfo: h",
        ]
    );
    assert!(CameraConfig::device_info_summary(&vec![None; 9]).is_empty());
}

#[test]
fn status_register() {
    assert_eq!(wait_ready(0x00, true), Ok(Poll::Ready));
    assert_eq!(wait_ready(0xFC, true), Ok(Poll::Ready));
    assert_eq!(wait_ready(0x01, false), Ok(Poll::Busy));
    assert_eq!(wait_ready(0x03, true), Err(ConfigError::Timeout));
    assert_eq!(wait_ready(0x05, true), Err(ConfigError::Status(5)));
    assert_eq!(wait_ready(0x82, false), Err(ConfigError::Status(0x82)));
}

#[test]
fn failures_leave_the_command_where_it_is() {
    let mut e = CameraConfig::palette();
    let short = ConfigError::ShortOut { mailbox: 0x1D00, done: 7, expected: 8 };
    assert_eq!(e.sent(7), Err(short));
    assert_eq!(e.sent(8), Ok(()));
    assert_eq!(
        e.polled(&[], false),
        Err(ConfigError::ShortIn { mailbox: 0x0200, done: 0, expected: 1 })
    );
    assert_eq!(e.polled(&[1], false), Ok(Poll::Busy));
    assert_eq!(e.polled(&[1], true), Err(ConfigError::Timeout));
    assert_eq!(e.polled(&[0], true), Ok(Poll::Ready));
    assert_eq!(
        e.received(&[]),
        Err(ConfigError::ShortIn { mailbox: 0x1D08, done: 0, expected: 1 })
    );
    assert_eq!(e.received(&[4]), Ok(()));
    assert_eq!(e.polled(&[4], false), Ok(Poll::Ready));
    assert!(e.step().is_none());
    assert_eq!(e.finish(), vec![4]);
}

#[test]
fn config_error_texts() {
    let texts = [
        (
            ConfigError::ShortOut { mailbox: 0x9D08, done: 3, expected: 64 },
            "Short control OUT transfer to mailbox 0x9D08: 3 of 64 bytes",
        ),
        (
            ConfigError::ShortIn { mailbox: 0x0200, done: 0, expected: 1 },
            "Short control IN transfer from mailbox 0x0200: 0 of 1 bytes",
        ),
        (ConfigError::Status(0x0A), "Camera reported error status 0x0A"),
        (ConfigError::Timeout, "Timeout waiting for the camera to become ready"),
        (ConfigError::EmptyPalette, "Empty palette response"),
        (ConfigError::UnknownPalette(200), "Unknown palette ID: 200"),
        (ConfigError::ShortValue, "could not convert slice to array"),
        (ConfigError::ShortTpd, "Short TPD response"),
        (ConfigError::NotUtf8, "Device information is not valid UTF-8"),
    ];
    for (e, text) in texts {
        assert_eq!(e.message(), text);
    }
}
