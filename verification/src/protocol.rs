//! USB Video Class (UVC) 1.1 descriptor parsing and Probe/Commit
//! negotiation for the P2Pro's VideoStreaming interface.
//!
//! This only covers the small slice of UVC needed for the P2Pro.

use crate::bytes::{law_bytes_spell_16, law_bytes_spell_32};
use crate::bytes::{
    le16, le16_bytes, le16_injective, le16_value, le32, le32_bytes, le32_injective, le32_value,
};
use crate::camera::{HEIGHT, WIDTH};
use crate::usb::{
    class_interface_byte, class_interface_request, ControlSetup, Direction, TransferType,
};
use vstd::prelude::*;

verus! {

/// The UVC "Video Probe and Commit Controls" structure (UVC 1.1, 26 bytes).
#[derive(Debug, Clone, Copy, PartialEq, Eq, Structural)]
pub struct StreamingControl {
    pub bm_hint: u16,
    pub format_index: u8,
    pub frame_index: u8,
    pub frame_interval: u32,
    pub key_frame_rate: u16,
    pub p_frame_rate: u16,
    pub comp_quality: u16,
    pub comp_window_size: u16,
    pub delay: u16,
    pub max_video_frame_size: u32,
    pub max_payload_transfer_size: u32,
}

/// Size of a [`StreamingControl`] on the wire.
pub const STREAMING_CONTROL_LEN: usize = 26;

impl StreamingControl {
    /// The structure's fields on the wire, in order, least significant byte
    /// first.
    pub open spec fn wire(self) -> Seq<u8> {
        le16(self.bm_hint) + seq![self.format_index, self.frame_index] + le32(self.frame_interval)
            + le16(self.key_frame_rate) + le16(self.p_frame_rate) + le16(self.comp_quality) + le16(
            self.comp_window_size,
        ) + le16(self.delay) + le32(self.max_video_frame_size) + le32(
            self.max_payload_transfer_size,
        )
    }

    /// The structure as it goes over the wire.
    pub fn to_bytes(self) -> (r: [u8; 26])
        ensures
            r@ == self.wire(),
    {
        let hint = le16_bytes(self.bm_hint);
        let interval = le32_bytes(self.frame_interval);
        let key = le16_bytes(self.key_frame_rate);
        let p = le16_bytes(self.p_frame_rate);
        let quality = le16_bytes(self.comp_quality);
        let window = le16_bytes(self.comp_window_size);
        let delay = le16_bytes(self.delay);
        let frame = le32_bytes(self.max_video_frame_size);
        let payload = le32_bytes(self.max_payload_transfer_size);
        let r = [
            hint[0],
            hint[1],
            self.format_index,
            self.frame_index,
            interval[0],
            interval[1],
            interval[2],
            interval[3],
            key[0],
            key[1],
            p[0],
            p[1],
            quality[0],
            quality[1],
            window[0],
            window[1],
            delay[0],
            delay[1],
            frame[0],
            frame[1],
            frame[2],
            frame[3],
            payload[0],
            payload[1],
            payload[2],
            payload[3],
        ];
        assert(r@ =~= self.wire());
        r
    }

    /// Reads the structure back; `None` if there are too few bytes. What
    /// follows the structure is not looked at.
    pub fn from_bytes(b: &[u8]) -> (r: Option<StreamingControl>)
        ensures
            r is Some <==> b@.len() >= 26,
            r matches Some(c) ==> c.wire() == b@.take(26),
    {
        if b.len() < STREAMING_CONTROL_LEN {
            return None;
        }
        let c = StreamingControl {
            bm_hint: le16_value(b[0], b[1]),
            format_index: b[2],
            frame_index: b[3],
            frame_interval: le32_value(b[4], b[5], b[6], b[7]),
            key_frame_rate: le16_value(b[8], b[9]),
            p_frame_rate: le16_value(b[10], b[11]),
            comp_quality: le16_value(b[12], b[13]),
            comp_window_size: le16_value(b[14], b[15]),
            delay: le16_value(b[16], b[17]),
            max_video_frame_size: le32_value(b[18], b[19], b[20], b[21]),
            max_payload_transfer_size: le32_value(b[22], b[23], b[24], b[25]),
        };
        assert(c.wire() =~= b@.take(26));
        Some(c)
    }
}

/// The wire form determines the structure: reading back what was written
/// gives the same fields.
pub proof fn law_control_round_trips(a: StreamingControl, b: StreamingControl)
    requires
        a.wire() == b.wire(),
    ensures
        a == b,
{
    let (x, y) = (a.wire(), b.wire());
    assert forall|i: int, j: int| 0 <= i <= j <= 26 implies #[trigger] x.subrange(i, j)
        == y.subrange(i, j) by {}
    assert(le16(a.bm_hint) =~= x.subrange(0, 2));
    assert(le16(b.bm_hint) =~= y.subrange(0, 2));
    assert(a.format_index == x[2] && a.frame_index == x[3]);
    assert(b.format_index == y[2] && b.frame_index == y[3]);
    assert(le32(a.frame_interval) =~= x.subrange(4, 8));
    assert(le32(b.frame_interval) =~= y.subrange(4, 8));
    assert(le16(a.key_frame_rate) =~= x.subrange(8, 10));
    assert(le16(b.key_frame_rate) =~= y.subrange(8, 10));
    assert(le16(a.p_frame_rate) =~= x.subrange(10, 12));
    assert(le16(b.p_frame_rate) =~= y.subrange(10, 12));
    assert(le16(a.comp_quality) =~= x.subrange(12, 14));
    assert(le16(b.comp_quality) =~= y.subrange(12, 14));
    assert(le16(a.comp_window_size) =~= x.subrange(14, 16));
    assert(le16(b.comp_window_size) =~= y.subrange(14, 16));
    assert(le16(a.delay) =~= x.subrange(16, 18));
    assert(le16(b.delay) =~= y.subrange(16, 18));
    assert(le32(a.max_video_frame_size) =~= x.subrange(18, 22));
    assert(le32(b.max_video_frame_size) =~= y.subrange(18, 22));
    assert(le32(a.max_payload_transfer_size) =~= x.subrange(22, 26));
    assert(le32(b.max_payload_transfer_size) =~= y.subrange(22, 26));
    le16_injective(a.bm_hint, b.bm_hint);
    le32_injective(a.frame_interval, b.frame_interval);
    le16_injective(a.key_frame_rate, b.key_frame_rate);
    le16_injective(a.p_frame_rate, b.p_frame_rate);
    le16_injective(a.comp_quality, b.comp_quality);
    le16_injective(a.comp_window_size, b.comp_window_size);
    le16_injective(a.delay, b.delay);
    le32_injective(a.max_video_frame_size, b.max_video_frame_size);
    le32_injective(a.max_payload_transfer_size, b.max_payload_transfer_size);
}

/// Descriptor type of a class-specific interface descriptor.
pub const CS_INTERFACE: u8 = 0x24;

/// Subtype of a descriptor that opens an uncompressed format.
pub const VS_FORMAT_UNCOMPRESSED: u8 = 0x04;

/// Subtype of a descriptor of one frame size of an uncompressed format.
pub const VS_FRAME_UNCOMPRESSED: u8 = 0x05;

/// The picture format that a VideoStreaming interface is asked for.
#[derive(Debug, Clone, Copy, PartialEq, Eq, Structural)]
pub struct VsFormat {
    pub format_index: u8,
    pub frame_index: u8,
    /// The default frame interval.
    pub frame_interval: u32,
}

/// The UVC uncompressed-format GUID for "YUY2" (a.k.a. YUYV): the fourCC
/// bytes followed by the fixed UVC GUID suffix.
pub open spec fn yuy2_guid() -> Seq<u8> {
    seq![
        0x59u8, 0x55, 0x59, 0x32, 0x00, 0x00, 0x10, 0x00,
        0x80, 0x00, 0x00, 0xAA, 0x00, 0x38, 0x9B, 0x71,
    ]
}

/// A run of descriptors taken apart. Each begins with its own length; the
/// first one that is shorter than a descriptor header or longer than what is
/// left ends the run.
pub open spec fn descriptors(extra: Seq<u8>) -> Seq<Seq<u8>>
    decreases extra.len(),
{
    if extra.len() < 3 || extra[0] < 3 || extra[0] > extra.len() {
        Seq::empty()
    } else {
        seq![extra.take(extra[0] as int)] + descriptors(extra.skip(extra[0] as int))
    }
}

/// `d` opens an uncompressed format.
pub open spec fn is_format(d: Seq<u8>) -> bool {
    d[1] == CS_INTERFACE && d[2] == VS_FORMAT_UNCOMPRESSED && d.len() >= 27
}

/// `d` opens the format YUY2.
pub open spec fn is_yuy2_format(d: Seq<u8>) -> bool {
    is_format(d) && d.subrange(5, 21) == yuy2_guid()
}

/// `d` describes a frame of the camera's raw frame size.
pub open spec fn is_camera_frame(d: Seq<u8>) -> bool {
    &&& d[1] == CS_INTERFACE
    &&& d[2] == VS_FRAME_UNCOMPRESSED
    &&& d.len() >= 25
    &&& d[5] + 256 * d[6] == WIDTH
    &&& d[7] + 256 * d[8] == HEIGHT * 2
}

/// The index of the format to which a frame descriptor after `ds` belongs,
/// if that format is YUY2.
pub open spec fn governing_format(ds: Seq<Seq<u8>>) -> Option<u8>
    decreases ds.len(),
{
    if ds.len() == 0 {
        None
    } else if is_format(ds.last()) {
        if is_yuy2_format(ds.last()) {
            Some(ds.last()[3])
        } else {
            None
        }
    } else {
        governing_format(ds.drop_last())
    }
}

/// The last frame of the camera's size that belongs to a YUY2 format.
pub open spec fn offered_format(ds: Seq<Seq<u8>>) -> Option<VsFormat>
    decreases ds.len(),
{
    if ds.len() == 0 {
        None
    } else {
        let d = ds.last();
        let rest = ds.drop_last();
        if is_camera_frame(d) && governing_format(rest) is Some {
            Some(
                VsFormat {
                    format_index: governing_format(rest)->0,
                    frame_index: d[3],
                    frame_interval: (d[21] + 256 * d[22] + 65536 * d[23] + 16777216
                        * d[24]) as u32,
                },
            )
        } else {
            offered_format(rest)
        }
    }
}

fn has_yuy2_guid(d: &[u8]) -> (r: bool)
    requires
        d@.len() >= 21,
    ensures
        r == (d@.subrange(5, 21) == yuy2_guid()),
{
    let r = d[5] == 0x59 && d[6] == 0x55 && d[7] == 0x59 && d[8] == 0x32 && d[9] == 0x00 && d[10]
        == 0x00 && d[11] == 0x10 && d[12] == 0x00 && d[13] == 0x80 && d[14] == 0x00 && d[15] == 0x00
        && d[16] == 0xAA && d[17] == 0x00 && d[18] == 0x38 && d[19] == 0x9B && d[20] == 0x71;
    proof {
        let s = d@.subrange(5, 21);
        if r {
            assert(s =~= yuy2_guid());
        } else if s == yuy2_guid() {
            assert forall|i: int| 5 <= i < 21 implies #[trigger] d@[i] == yuy2_guid()[i - 5] by {
                assert(s[i - 5] == d@[i]);
            }
        }
    }
    r
}

/// Scans one VideoStreaming alternate setting's class-specific descriptors
/// for a YUY2 entry and a matching entry for the camera's resolution.
pub fn parse_vs_descriptors(extra: &[u8]) -> (r: Option<VsFormat>)
    ensures
        r == offered_format(descriptors(extra@)),
{
    let mut format_index: Option<u8> = None;
    let mut result: Option<VsFormat> = None;
    let mut pos: usize = 0;
    let ghost mut done: Seq<Seq<u8>> = Seq::empty();
    assert(extra@.skip(0) =~= extra@);
    assert(done + descriptors(extra@) =~= descriptors(extra@));
    loop
        invariant_except_break
            pos <= extra@.len(),
            done + descriptors(extra@.skip(pos as int)) == descriptors(extra@),
            format_index == governing_format(done),
            result == offered_format(done),
        ensures
            result == offered_format(descriptors(extra@)),
        decreases extra@.len() - pos,
    {
        let ghost rest = extra@.skip(pos as int);
        if extra.len() - pos < 3 {
            assert(done + descriptors(rest) =~= done);
            break;
        }
        let len: usize = extra[pos] as usize;
        if len < 3 || len > extra.len() - pos {
            assert(done + descriptors(rest) =~= done);
            break;
        }
        let d = vstd::slice::slice_subrange(extra, pos, pos + len);
        assert(d@ =~= rest.take(len as int));
        let ghost next = done.push(d@);
        proof {
            assert(next.drop_last() =~= done);
            assert(rest.skip(len as int) =~= extra@.skip(pos + len));
            assert(done + descriptors(rest) =~= next + descriptors(extra@.skip(pos + len)));
        }
        if d[1] == CS_INTERFACE {
            if d[2] == VS_FORMAT_UNCOMPRESSED && len >= 27 {
                format_index = if has_yuy2_guid(d) {
                    Some(d[3])
                } else {
                    None
                };
            } else if d[2] == VS_FRAME_UNCOMPRESSED && len >= 25 {
                if let Some(index) = format_index {
                    let width: u16 = le16_value(d[5], d[6]);
                    let height: u16 = le16_value(d[7], d[8]);
                    if width as u32 == WIDTH && height as u32 == HEIGHT * 2 {
                        let interval: u32 = le32_value(d[21], d[22], d[23], d[24]);
                        result = Some(
                            VsFormat {
                                format_index: index,
                                frame_index: d[3],
                                frame_interval: interval,
                            },
                        );
                    }
                }
            }
        }
        proof {
            done = next;
        }
        pos += len;
    }
    result
}

/// What is found rests on a YUY2 format descriptor and a frame descriptor of
/// the camera's size after it, with no other format opened in between.
pub proof fn law_offer_is_backed(ds: Seq<Seq<u8>>)
    ensures
        offered_format(ds) matches Some(f) ==> exists|i: int, j: int|
            {
                &&& 0 <= i < j < ds.len()
                &&& #[trigger] is_yuy2_format(ds[i])
                &&& #[trigger] is_camera_frame(ds[j])
                &&& ds[i][3] == f.format_index
                &&& ds[j][3] == f.frame_index
                &&& forall|k: int| i < k < j ==> !is_format(#[trigger] ds[k])
            },
    decreases ds.len(),
{
    if ds.len() > 0 {
        let rest = ds.drop_last();
        law_offer_is_backed(rest);
        lemma_governing(rest);
        if is_camera_frame(ds.last()) && governing_format(rest) is Some {
            let i = choose|i: int|
                {
                    &&& 0 <= i < rest.len()
                    &&& #[trigger] is_yuy2_format(rest[i])
                    &&& rest[i][3] == governing_format(rest)->0
                    &&& forall|k: int| i < k < rest.len() ==> !is_format(#[trigger] rest[k])
                };
            assert(is_yuy2_format(ds[i]));
            assert(is_camera_frame(ds[ds.len() - 1]));
            assert forall|k: int| i < k < ds.len() - 1 implies !is_format(#[trigger] ds[k]) by {
                assert(ds[k] == rest[k]);
            }
        } else if offered_format(rest) is Some {
            let f = offered_format(rest)->0;
            let (i, j) = choose|i: int, j: int|
                {
                    &&& 0 <= i < j < rest.len()
                    &&& #[trigger] is_yuy2_format(rest[i])
                    &&& #[trigger] is_camera_frame(rest[j])
                    &&& rest[i][3] == f.format_index
                    &&& rest[j][3] == f.frame_index
                    &&& forall|k: int| i < k < j ==> !is_format(#[trigger] rest[k])
                };
            assert(is_yuy2_format(ds[i]) && is_camera_frame(ds[j]));
            assert forall|k: int| i < k < j implies !is_format(#[trigger] ds[k]) by {
                assert(ds[k] == rest[k]);
            }
        }
    }
}

proof fn lemma_governing(ds: Seq<Seq<u8>>)
    ensures
        governing_format(ds) matches Some(f) ==> exists|i: int|
            {
                &&& 0 <= i < ds.len()
                &&& #[trigger] is_yuy2_format(ds[i])
                &&& ds[i][3] == f
                &&& forall|k: int| i < k < ds.len() ==> !is_format(#[trigger] ds[k])
            },
    decreases ds.len(),
{
    if ds.len() > 0 {
        if is_format(ds.last()) {
            if is_yuy2_format(ds.last()) {
                assert(is_yuy2_format(ds[ds.len() - 1]));
            }
        } else {
            let rest = ds.drop_last();
            lemma_governing(rest);
            if governing_format(rest) is Some {
                let i = choose|i: int|
                    {
                        &&& 0 <= i < rest.len()
                        &&& #[trigger] is_yuy2_format(rest[i])
                        &&& rest[i][3] == governing_format(rest)->0
                        &&& forall|k: int| i < k < rest.len() ==> !is_format(#[trigger] rest[k])
                    };
                assert(is_yuy2_format(ds[i]));
                assert forall|k: int| i < k < ds.len() implies !is_format(#[trigger] ds[k]) by {
                    if k < rest.len() {
                        assert(ds[k] == rest[k]);
                    }
                }
            }
        }
    }
}

/// Interface class of a video function.
pub const CC_VIDEO: u8 = 0x0e;

/// Interface subclass of a video stream.
pub const SC_VIDEOSTREAMING: u8 = 0x02;

/// Selector of the control under negotiation.
pub const VS_PROBE_CONTROL: u16 = 0x01;

/// Selector of the control that starts the stream.
pub const VS_COMMIT_CONTROL: u16 = 0x02;

/// Request that writes a control.
pub const REQ_SET_CUR: u8 = 0x01;

/// Request that reads a control.
pub const REQ_GET_CUR: u8 = 0x81;

/// An endpoint of an alternate setting.
#[derive(Debug, Clone, Copy, PartialEq, Eq, Structural)]
pub struct Endpoint {
    pub address: u8,
    pub direction: Direction,
    pub transfer_type: TransferType,
    /// The raw `wMaxPacketSize`.
    pub max_packet_size: u16,
}

/// An alternate setting of an interface.
#[derive(Debug)]
pub struct AltSetting {
    pub interface_number: u8,
    pub setting_number: u8,
    pub class_code: u8,
    pub sub_class_code: u8,
    /// The class-specific descriptors.
    pub extra: Vec<u8>,
    pub endpoints: Vec<Endpoint>,
}

/// An interface of the active configuration.
#[derive(Debug)]
pub struct Interface {
    pub number: u8,
    pub settings: Vec<AltSetting>,
}

/// All alternate settings of a configuration, in order.
pub open spec fn all_settings(interfaces: Seq<Interface>) -> Seq<AltSetting>
    decreases interfaces.len(),
{
    if interfaces.len() == 0 {
        Seq::empty()
    } else {
        all_settings(interfaces.drop_last()) + interfaces.last().settings@
    }
}

/// The alternate settings of the interface with the given number, in order.
pub open spec fn settings_of(interfaces: Seq<Interface>, number: u8) -> Seq<AltSetting>
    decreases interfaces.len(),
{
    if interfaces.len() == 0 {
        Seq::empty()
    } else if interfaces.last().number == number {
        settings_of(interfaces.drop_last(), number) + interfaces.last().settings@
    } else {
        settings_of(interfaces.drop_last(), number)
    }
}

/// The interface number and the picture format that a setting offers.
pub open spec fn setting_offer(alt: AltSetting) -> Option<(u8, VsFormat)> {
    if alt.class_code == CC_VIDEO && alt.sub_class_code == SC_VIDEOSTREAMING {
        match offered_format(descriptors(alt.extra@)) {
            Some(f) => Some((alt.interface_number, f)),
            None => None,
        }
    } else {
        None
    }
}

/// What the first setting with an offer offers.
pub open spec fn first_offer(settings: Seq<AltSetting>) -> Option<(u8, VsFormat)>
    decreases settings.len(),
{
    if settings.len() == 0 {
        None
    } else if setting_offer(settings.first()) is Some {
        setting_offer(settings.first())
    } else {
        first_offer(settings.skip(1))
    }
}

proof fn lemma_first_offer_append(a: Seq<AltSetting>, b: Seq<AltSetting>)
    ensures
        first_offer(a) is Some ==> first_offer(a + b) == first_offer(a),
        first_offer(a) is None ==> first_offer(a + b) == first_offer(b),
    decreases a.len(),
{
    if a.len() == 0 {
        assert(a + b =~= b);
    } else {
        assert((a + b).skip(1) =~= a.skip(1) + b);
        assert((a + b).first() == a.first());
        lemma_first_offer_append(a.skip(1), b);
    }
}

proof fn lemma_all_settings_take(interfaces: Seq<Interface>, i: int)
    requires
        0 <= i < interfaces.len(),
    ensures
        all_settings(interfaces.take(i + 1)) == all_settings(interfaces.take(i))
            + interfaces[i].settings@,
        forall|n: u8| #[trigger]
            settings_of(interfaces.take(i + 1), n) == (if interfaces[i].number == n {
                settings_of(interfaces.take(i), n) + interfaces[i].settings@
            } else {
                settings_of(interfaces.take(i), n)
            }),
{
    assert(interfaces.take(i + 1).drop_last() =~= interfaces.take(i));
}

proof fn lemma_first_offer_prefix(interfaces: Seq<Interface>, i: int)
    requires
        0 <= i <= interfaces.len(),
    ensures
        first_offer(all_settings(interfaces.take(i))) is Some ==> first_offer(
            all_settings(interfaces),
        ) == first_offer(all_settings(interfaces.take(i))),
    decreases interfaces.len() - i,
{
    if i < interfaces.len() {
        lemma_all_settings_take(interfaces, i);
        lemma_first_offer_append(
            all_settings(interfaces.take(i)),
            interfaces[i].settings@,
        );
        lemma_first_offer_prefix(interfaces, i + 1);
    } else {
        assert(interfaces.take(i) =~= interfaces);
    }
}

/// Finds the VideoStreaming interface that offers YUYV at the camera's frame
/// size: its number and the format to ask for.
pub fn find_stream(interfaces: &[Interface]) -> (r: Option<(u8, VsFormat)>)
    ensures
        r == first_offer(all_settings(interfaces@)),
{
    let mut i: usize = 0;
    while i < interfaces.len()
        invariant
            i <= interfaces@.len(),
            first_offer(all_settings(interfaces@.take(i as int))) is None,
        decreases interfaces.len() - i,
    {
        let settings = &interfaces[i].settings;
        let ghost before = all_settings(interfaces@.take(i as int));
        proof {
            lemma_all_settings_take(interfaces@, i as int);
        }
        let mut j: usize = 0;
        assert(before + settings@.take(0) =~= before);
        while j < settings.len()
            invariant
                j <= settings@.len(),
                i < interfaces@.len(),
                settings == interfaces@[i as int].settings,
                all_settings(interfaces@.take(i + 1)) == before + settings@,
                first_offer(before + settings@.take(j as int)) is None,
            decreases settings.len() - j,
        {
            let alt = &settings[j];
            proof {
                let one = seq![*alt];
                reveal_with_fuel(first_offer, 2);
                assert(one.first() == *alt);
                assert(first_offer(one) == setting_offer(*alt));
                assert(before + settings@.take(j + 1) =~= (before + settings@.take(j as int))
                    + one);
                lemma_first_offer_append(before + settings@.take(j as int), one);
                assert(before + settings@ =~= (before + settings@.take(j + 1)) + settings@.skip(
                    j + 1,
                ));
                lemma_first_offer_append(before + settings@.take(j + 1), settings@.skip(j + 1));
                lemma_first_offer_prefix(interfaces@, i + 1);
            }
            if alt.class_code == CC_VIDEO && alt.sub_class_code == SC_VIDEOSTREAMING {
                if let Some(format) = parse_vs_descriptors(alt.extra.as_slice()) {
                    return Some((alt.interface_number, format));
                }
            }
            j += 1;
        }
        assert(settings@.take(j as int) =~= settings@);
        i += 1;
    }
    assert(interfaces@.take(i as int) =~= interfaces@);
    None
}

/// The number of bytes that an endpoint transfers per frame, from its raw
/// `wMaxPacketSize`. Where packets have a schedule, bits 11 and 12 count the
/// additional transactions.
pub open spec fn packet_size(transfer_type: TransferType, raw: u16) -> int {
    match transfer_type {
        TransferType::Isochronous | TransferType::Interrupt => (raw % 2048) * (raw / 2048 % 4 + 1),
        _ => raw as int,
    }
}

/// Decodes an endpoint's `wMaxPacketSize` into the actual number of bytes
/// transferable per frame.
pub fn packet_size_bytes(transfer_type: TransferType, raw: u16) -> (r: usize)
    ensures
        r == packet_size(transfer_type, raw),
{
    match transfer_type {
        TransferType::Isochronous | TransferType::Interrupt => {
            let base: u16 = raw % 2048;
            let transactions: u16 = raw / 2048 % 4 + 1;
            assert(0 <= base * transactions <= 2047 * 4) by (nonlinear_arith)
                requires
                    0 <= base <= 2047,
                    0 <= transactions <= 4,
            ;
            base as usize * transactions as usize
        },
        _ => raw as usize,
    }
}

/// An alternate setting that can carry the stream.
#[derive(Debug, Clone, Copy, PartialEq, Eq, Structural)]
pub struct StreamSetting {
    pub setting_number: u8,
    pub endpoint: u8,
    pub transfer_type: TransferType,
    pub packet_size: usize,
}

/// The first endpoint towards the host.
pub open spec fn first_in_endpoint(endpoints: Seq<Endpoint>) -> Option<Endpoint>
    decreases endpoints.len(),
{
    if endpoints.len() == 0 {
        None
    } else if endpoints.first().direction == Direction::In {
        Some(endpoints.first())
    } else {
        first_in_endpoint(endpoints.skip(1))
    }
}

/// The stream that a setting can carry. Setting 0 is the idle one without
/// bandwidth; otherwise the first endpoint towards the host decides, which
/// has to be isochronous or bulk.
pub open spec fn stream_setting(alt: AltSetting) -> Option<StreamSetting> {
    match first_in_endpoint(alt.endpoints@) {
        Some(ep) if alt.setting_number != 0 && (ep.transfer_type == TransferType::Isochronous
            || ep.transfer_type == TransferType::Bulk) => Some(
            StreamSetting {
                setting_number: alt.setting_number,
                endpoint: ep.address,
                transfer_type: ep.transfer_type,
                packet_size: packet_size(ep.transfer_type, ep.max_packet_size) as usize,
            },
        ),
        _ => None,
    }
}

/// The streams that the settings can carry, in order.
pub open spec fn stream_settings(settings: Seq<AltSetting>) -> Seq<StreamSetting>
    decreases settings.len(),
{
    if settings.len() == 0 {
        Seq::empty()
    } else {
        let rest = stream_settings(settings.drop_last());
        match stream_setting(settings.last()) {
            Some(c) => rest.push(c),
            None => rest,
        }
    }
}

/// Whether packets of `a` bytes suit a payload of `required` bytes better than
/// packets of `b` bytes: one that holds the payload is better than one that
/// does not; of two that do the smaller, of two that do not the larger.
pub open spec fn suits_better(a: int, b: int, required: int) -> bool {
    if a >= required {
        b < required || a < b
    } else {
        b < required && a > b
    }
}

/// Whether no stream in `cs` suits better than the one at `k`, and that one
/// suits better than all before it.
pub open spec fn is_first_best(cs: Seq<StreamSetting>, required: int, k: int) -> bool {
    let size = cs[k].packet_size as int;
    &&& 0 <= k < cs.len()
    &&& forall|j: int|
        0 <= j < cs.len() ==> !suits_better(#[trigger] cs[j].packet_size as int, size, required)
    &&& forall|j: int|
        0 <= j < k ==> suits_better(size, #[trigger] cs[j].packet_size as int, required)
}

/// Whether `c` is the first of the best-suited streams in `cs`.
pub open spec fn is_best_setting(
    cs: Seq<StreamSetting>,
    required: int,
    c: StreamSetting,
) -> bool {
    exists|k: int| #[trigger] is_first_best(cs, required, k) && cs[k] == c
}

/// The best-suited stream is unique.
pub proof fn law_best_setting_is_unique(
    cs: Seq<StreamSetting>,
    required: int,
    a: StreamSetting,
    b: StreamSetting,
)
    requires
        is_best_setting(cs, required, a),
        is_best_setting(cs, required, b),
    ensures
        a == b,
{
    let i = choose|i: int| #[trigger] is_first_best(cs, required, i) && cs[i] == a;
    let j = choose|j: int| #[trigger] is_first_best(cs, required, j) && cs[j] == b;
    if i < j {
        assert(suits_better(cs[j].packet_size as int, cs[i].packet_size as int, required));
    } else if j < i {
        assert(suits_better(cs[i].packet_size as int, cs[j].packet_size as int, required));
    }
}

/// Where some stream holds the payload, the chosen one is the smallest that
/// does; otherwise it is the largest there is.
pub proof fn law_best_setting_is_the_tightest(
    cs: Seq<StreamSetting>,
    required: int,
    c: StreamSetting,
    other: int,
)
    requires
        is_best_setting(cs, required, c),
        0 <= other < cs.len(),
    ensures
        cs[other].packet_size >= required ==> required <= c.packet_size <= cs[other].packet_size,
        c.packet_size < required ==> cs[other].packet_size <= c.packet_size,
{
}

fn find_in_endpoint(endpoints: &[Endpoint]) -> (r: Option<Endpoint>)
    ensures
        r == first_in_endpoint(endpoints@),
{
    let mut i: usize = 0;
    assert(endpoints@.skip(0) =~= endpoints@);
    while i < endpoints.len()
        invariant
            i <= endpoints@.len(),
            first_in_endpoint(endpoints@) == first_in_endpoint(endpoints@.skip(i as int)),
        decreases endpoints.len() - i,
    {
        assert(endpoints@.skip(i as int).skip(1) =~= endpoints@.skip(i + 1));
        if endpoints[i].direction == Direction::In {
            return Some(endpoints[i]);
        }
        i += 1;
    }
    None
}

fn stream_of_setting(alt: &AltSetting) -> (r: Option<StreamSetting>)
    ensures
        r == stream_setting(*alt),
{
    if alt.setting_number == 0 {
        return None;
    }
    match find_in_endpoint(alt.endpoints.as_slice()) {
        Some(ep) => {
            if ep.transfer_type == TransferType::Isochronous || ep.transfer_type
                == TransferType::Bulk {
                Some(
                    StreamSetting {
                        setting_number: alt.setting_number,
                        endpoint: ep.address,
                        transfer_type: ep.transfer_type,
                        packet_size: packet_size_bytes(ep.transfer_type, ep.max_packet_size),
                    },
                )
            } else {
                None
            }
        },
        None => None,
    }
}

/// Chooses the alternate setting of the given interface that suits a payload
/// of `required` bytes best; `None` if none can carry a stream.
pub fn choose_setting(interfaces: &[Interface], number: u8, required: usize) -> (r: Option<
    StreamSetting,
>)
    ensures
        ({
            let cs = stream_settings(settings_of(interfaces@, number));
            match r {
                None => cs.len() == 0,
                Some(c) => is_best_setting(cs, required as int, c),
            }
        }),
{
    let mut chosen: Option<StreamSetting> = None;
    let ghost mut seen: Seq<AltSetting> = Seq::empty();
    let mut i: usize = 0;
    while i < interfaces.len()
        invariant
            i <= interfaces@.len(),
            seen == settings_of(interfaces@.take(i as int), number),
            chosen is None ==> stream_settings(seen).len() == 0,
            chosen matches Some(c) ==> is_best_setting(stream_settings(seen), required as int, c),
        decreases interfaces.len() - i,
    {
        proof {
            lemma_all_settings_take(interfaces@, i as int);
        }
        if interfaces[i].number == number {
            let settings = &interfaces[i].settings;
            let ghost before = seen;
            let mut j: usize = 0;
            assert(before + settings@.take(0) =~= before);
            while j < settings.len()
                invariant
                    j <= settings@.len(),
                    seen == before + settings@.take(j as int),
                    chosen is None ==> stream_settings(seen).len() == 0,
                    chosen matches Some(c) ==> is_best_setting(
                        stream_settings(seen),
                        required as int,
                        c,
                    ),
                decreases settings.len() - j,
            {
                let ghost cs = stream_settings(seen);
                let candidate = stream_of_setting(&settings[j]);
                proof {
                    let next = before + settings@.take(j + 1);
                    assert(next.drop_last() =~= seen);
                    assert(next.last() == settings@[j as int]);
                    seen = next;
                }
                if let Some(c) = candidate {
                    let ghost next = stream_settings(seen);
                    assert(next == cs.push(c));
                    let better = match chosen {
                        None => true,
                        Some(best) => if c.packet_size >= required {
                            best.packet_size < required || c.packet_size < best.packet_size
                        } else {
                            best.packet_size < required && c.packet_size > best.packet_size
                        },
                    };
                    if better {
                        chosen = Some(c);
                        proof {
                            let k = cs.len() as int;
                            assert forall|j: int| 0 <= j < k implies suits_better(
                                c.packet_size as int,
                                #[trigger] next[j].packet_size as int,
                                required as int,
                            ) by {
                                assert(next[j] == cs[j]);
                            }
                            assert(is_first_best(next, required as int, k) && next[k] == c);
                        }
                    } else {
                        proof {
                            let best = chosen->0;
                            let k = choose|k: int| #[trigger]
                                is_first_best(cs, required as int, k) && cs[k] == best;
                            assert forall|j: int| 0 <= j < cs.len() implies next[j]
                                == #[trigger] cs[j] by {}
                            assert(is_first_best(next, required as int, k) && next[k] == best);
                        }
                    }
                }
                j += 1;
            }
            assert(settings@.take(j as int) =~= settings@);
        }
        i += 1;
    }
    assert(interfaces@.take(i as int) =~= interfaces@);
    chosen
}

/// Why no stream could be negotiated.
#[derive(Debug, Clone, Copy, PartialEq, Eq, Structural)]
pub enum NegotiationError {
    NoStream,
    DriverQuery,
    DriverDetach,
    Claim,
    Probe,
    Commit,
    NoSetting,
    SelectSetting,
}

impl NegotiationError {
    /// The text shown to the user.
    pub open spec fn text(self) -> Seq<char> {
        match self {
            NegotiationError::NoStream =>
                "Could not find a VideoStreaming interface offering YUYV at 256x384"@,
            NegotiationError::DriverQuery =>
                "Failed to query the VideoStreaming kernel driver state"@,
            NegotiationError::DriverDetach =>
                "Failed to detach the kernel/usbfs driver from the VideoStreaming interface"@,
            NegotiationError::Claim => "Failed to claim the VideoStreaming interface"@,
            NegotiationError::Probe => "VS_PROBE_CONTROL (SET_CUR) failed"@,
            NegotiationError::Commit => "VS_COMMIT_CONTROL (SET_CUR) failed"@,
            NegotiationError::NoSetting =>
                "No usable VideoStreaming alternate setting/endpoint found"@,
            NegotiationError::SelectSetting =>
                "Failed to select the VideoStreaming alternate setting"@,
        }
    }

    /// The text shown to the user.
    pub fn message(self) -> (r: &'static str)
        ensures
            r@ == self.text(),
    {
        match self {
            NegotiationError::NoStream =>
                "Could not find a VideoStreaming interface offering YUYV at 256x384",
            NegotiationError::DriverQuery =>
                "Failed to query the VideoStreaming kernel driver state",
            NegotiationError::DriverDetach =>
                "Failed to detach the kernel/usbfs driver from the VideoStreaming interface",
            NegotiationError::Claim => "Failed to claim the VideoStreaming interface",
            NegotiationError::Probe => "VS_PROBE_CONTROL (SET_CUR) failed",
            NegotiationError::Commit => "VS_COMMIT_CONTROL (SET_CUR) failed",
            NegotiationError::NoSetting =>
                "No usable VideoStreaming alternate setting/endpoint found",
            NegotiationError::SelectSetting =>
                "Failed to select the VideoStreaming alternate setting",
        }
    }
}

/// What is known of a kernel driver bound to an interface.
#[derive(Debug, Clone, Copy, PartialEq, Eq, Structural)]
pub enum DriverState {
    Active,
    Inactive,
    /// The platform has no such drivers, or knows of none.
    Unsupported,
    /// The question could not be answered.
    Failed,
}

/// The result of a successful Probe/Commit negotiation.
#[derive(Debug, Clone, Copy, PartialEq, Eq, Structural)]
pub struct Negotiated {
    pub endpoint: u8,
    pub transfer_type: TransferType,
    /// Bytes per packet of the endpoint.
    pub packet_size: usize,
    pub max_payload_transfer_size: u32,
    pub max_video_frame_size: u32,
}

/// Where a negotiation stands.
#[derive(Debug, Clone, Copy, PartialEq, Eq, Structural)]
pub enum Stage {
    QueryDriver,
    DetachDriver,
    Claim,
    Probe,
    ReadBack,
    Commit,
    Select(StreamSetting),
    Done(StreamSetting),
    Failed(NegotiationError),
}

/// What to do next in a negotiation.
#[derive(Debug, Clone, Copy, PartialEq, Eq)]
pub enum NegotiationAction {
    /// Ask whether a kernel driver is bound to the interface; then call
    /// [`Negotiation::driver_state`].
    QueryDriver { interface: u8 },
    /// Detach it; then call [`Negotiation::completed`].
    DetachDriver { interface: u8 },
    /// Claim the interface; then call [`Negotiation::completed`].
    Claim { interface: u8 },
    /// Write a control; then call [`Negotiation::completed`].
    Write { setup: ControlSetup, data: [u8; 26] },
    /// Read a control; then call [`Negotiation::read_back`].
    Read { setup: ControlSetup, len: usize },
    /// Select an alternate setting; then call [`Negotiation::completed`].
    Select { interface: u8, setting_number: u8 },
    /// The stream is ready.
    Finished(Negotiated),
    /// There is no stream.
    Failed(NegotiationError),
}

/// The setup fields of a request to a control of a VideoStreaming interface.
pub open spec fn control_setup(
    direction: Direction,
    request: u8,
    selector: u16,
    interface: u8,
) -> ControlSetup {
    ControlSetup {
        request_type: class_interface_byte(direction),
        request,
        value: (selector * 256) as u16,
        index: interface as u16,
    }
}

/// The control that asks for a picture format and leaves the rest to the
/// device.
pub open spec fn probe_for(format: VsFormat) -> StreamingControl {
    StreamingControl {
        bm_hint: 0,
        format_index: format.format_index,
        frame_index: format.frame_index,
        frame_interval: format.frame_interval,
        key_frame_rate: 0,
        p_frame_rate: 0,
        comp_quality: 0,
        comp_window_size: 0,
        delay: 0,
        max_video_frame_size: 0,
        max_payload_transfer_size: 0,
    }
}

/// The packet size that a negotiated control calls for.
pub open spec fn required_size(control: StreamingControl) -> int {
    if control.max_payload_transfer_size == 0 {
        1
    } else {
        control.max_payload_transfer_size as int
    }
}

/// The stage after an action that only succeeds or fails, where the stage
/// does not depend on anything else.
pub open spec fn stage_after(stage: Stage, ok: bool) -> Stage {
    match stage {
        Stage::DetachDriver => if ok {
            Stage::Claim
        } else {
            Stage::Failed(NegotiationError::DriverDetach)
        },
        Stage::Claim => if ok {
            Stage::Probe
        } else {
            Stage::Failed(NegotiationError::Claim)
        },
        Stage::Probe => if ok {
            Stage::ReadBack
        } else {
            Stage::Failed(NegotiationError::Probe)
        },
        Stage::Commit => Stage::Failed(NegotiationError::Commit),
        Stage::Select(c) => if ok {
            Stage::Done(c)
        } else {
            Stage::Failed(NegotiationError::SelectSetting)
        },
        _ => stage,
    }
}

/// A negotiation of a YUYV stream at the camera's frame size. It ends with
/// the VideoStreaming interface set to an alternate setting, ready for
/// reading off [`Negotiated::endpoint`].
#[derive(Debug)]
pub struct Negotiation {
    interfaces: Vec<Interface>,
    interface: u8,
    control: StreamingControl,
    stage: Stage,
}

impl Negotiation {
    /// The interfaces of the active configuration.
    pub closed spec fn interfaces(&self) -> Seq<Interface> {
        self.interfaces@
    }

    /// The number of the VideoStreaming interface.
    pub closed spec fn interface(&self) -> u8 {
        self.interface
    }

    /// The control as negotiated so far.
    pub closed spec fn control(&self) -> StreamingControl {
        self.control
    }

    /// Where the negotiation stands.
    pub closed spec fn stage(&self) -> Stage {
        self.stage
    }

    /// A chosen setting is the one that suits the negotiated control best.
    pub open spec fn wf(&self) -> bool {
        match self.stage() {
            Stage::Select(c) | Stage::Done(c) => is_best_setting(
                stream_settings(settings_of(self.interfaces(), self.interface())),
                required_size(self.control()),
                c,
            ),
            _ => true,
        }
    }

    /// Nothing but the stage differs.
    pub open spec fn same_but_stage(&self, other: &Negotiation) -> bool {
        &&& self.interfaces() == other.interfaces()
        &&& self.interface() == other.interface()
        &&& self.control() == other.control()
    }

    /// What to do next.
    pub fn action(&self) -> (r: NegotiationAction)
        ensures
            match self.stage() {
                Stage::QueryDriver => r == (NegotiationAction::QueryDriver {
                    interface: self.interface(),
                }),
                Stage::DetachDriver => r == (NegotiationAction::DetachDriver {
                    interface: self.interface(),
                }),
                Stage::Claim => r == (NegotiationAction::Claim { interface: self.interface() }),
                Stage::Probe => {
                    &&& r matches NegotiationAction::Write { setup, data }
                    &&& setup == control_setup(
                        Direction::Out,
                        REQ_SET_CUR,
                        VS_PROBE_CONTROL,
                        self.interface(),
                    )
                    &&& data@ == self.control().wire()
                },
                Stage::ReadBack => r == (NegotiationAction::Read {
                    setup: control_setup(
                        Direction::In,
                        REQ_GET_CUR,
                        VS_PROBE_CONTROL,
                        self.interface(),
                    ),
                    len: 26,
                }),
                Stage::Commit => {
                    &&& r matches NegotiationAction::Write { setup, data }
                    &&& setup == control_setup(
                        Direction::Out,
                        REQ_SET_CUR,
                        VS_COMMIT_CONTROL,
                        self.interface(),
                    )
                    &&& data@ == self.control().wire()
                },
                Stage::Select(c) => r == (NegotiationAction::Select {
                    interface: self.interface(),
                    setting_number: c.setting_number,
                }),
                Stage::Done(c) => r == NegotiationAction::Finished(
                    Negotiated {
                        endpoint: c.endpoint,
                        transfer_type: c.transfer_type,
                        packet_size: c.packet_size,
                        max_payload_transfer_size: self.control().max_payload_transfer_size,
                        max_video_frame_size: self.control().max_video_frame_size,
                    },
                ),
                Stage::Failed(e) => r == NegotiationAction::Failed(e),
            },
    {
        let interface: u8 = self.interface;
        match self.stage {
            Stage::QueryDriver => NegotiationAction::QueryDriver { interface },
            Stage::DetachDriver => NegotiationAction::DetachDriver { interface },
            Stage::Claim => NegotiationAction::Claim { interface },
            Stage::Probe => NegotiationAction::Write {
                setup: self.setup(Direction::Out, REQ_SET_CUR, VS_PROBE_CONTROL),
                data: self.control.to_bytes(),
            },
            Stage::ReadBack => NegotiationAction::Read {
                setup: self.setup(Direction::In, REQ_GET_CUR, VS_PROBE_CONTROL),
                len: STREAMING_CONTROL_LEN,
            },
            Stage::Commit => NegotiationAction::Write {
                setup: self.setup(Direction::Out, REQ_SET_CUR, VS_COMMIT_CONTROL),
                data: self.control.to_bytes(),
            },
            Stage::Select(c) => NegotiationAction::Select {
                interface,
                setting_number: c.setting_number,
            },
            Stage::Done(c) => NegotiationAction::Finished(
                Negotiated {
                    endpoint: c.endpoint,
                    transfer_type: c.transfer_type,
                    packet_size: c.packet_size,
                    max_payload_transfer_size: self.control.max_payload_transfer_size,
                    max_video_frame_size: self.control.max_video_frame_size,
                },
            ),
            Stage::Failed(e) => NegotiationAction::Failed(e),
        }
    }

    fn setup(&self, direction: Direction, request: u8, selector: u16) -> (r: ControlSetup)
        requires
            selector < 256,
        ensures
            r == control_setup(direction, request, selector, self.interface()),
    {
        ControlSetup {
            request_type: class_interface_request(direction),
            request,
            value: selector * 256,
            index: self.interface as u16,
        }
    }

    /// The answer to [`NegotiationAction::QueryDriver`]: only an active
    /// driver is detached, and only a failed query ends the negotiation.
    pub fn driver_state(&mut self, state: DriverState)
        requires
            old(self).wf(),
            old(self).stage() == Stage::QueryDriver,
        ensures
            final(self).wf(),
            final(self).same_but_stage(old(self)),
            final(self).stage() == match state {
                DriverState::Active => Stage::DetachDriver,
                DriverState::Inactive | DriverState::Unsupported => Stage::Claim,
                DriverState::Failed => Stage::Failed(NegotiationError::DriverQuery),
            },
    {
        self.stage =
        match state {
            DriverState::Active => Stage::DetachDriver,
            DriverState::Inactive | DriverState::Unsupported => Stage::Claim,
            DriverState::Failed => Stage::Failed(NegotiationError::DriverQuery),
        };
    }

    /// The control that came back from [`NegotiationAction::Read`]. A device
    /// that does not answer gets the control committed that it was sent.
    pub fn read_back(&mut self, reply: Option<&[u8]>)
        requires
            old(self).wf(),
            old(self).stage() == Stage::ReadBack,
        ensures
            final(self).wf(),
            final(self).stage() == Stage::Commit,
            final(self).interfaces() == old(self).interfaces(),
            final(self).interface() == old(self).interface(),
            match reply {
                Some(b) if b@.len() >= 26 => final(self).control().wire() == b@.take(26),
                _ => final(self).control() == old(self).control(),
            },
    {
        if let Some(bytes) = reply {
            if let Some(control) = StreamingControl::from_bytes(bytes) {
                self.control = control;
            }
        }
        self.stage = Stage::Commit;
    }

    /// The outcome of the other actions. Once the control is committed, the
    /// alternate setting is chosen that suits its payload size best.
    pub fn completed(&mut self, ok: bool)
        requires
            old(self).wf(),
            old(self).stage() is DetachDriver || old(self).stage() is Claim || old(self).stage()
                is Probe || old(self).stage() is Commit || old(self).stage() is Select,
        ensures
            final(self).wf(),
            final(self).same_but_stage(old(self)),
            if old(self).stage() is Commit && ok {
                let cs = stream_settings(
                    settings_of(old(self).interfaces(), old(self).interface()),
                );
                if cs.len() == 0 {
                    final(self).stage() == Stage::Failed(NegotiationError::NoSetting)
                } else {
                    &&& final(self).stage() matches Stage::Select(c)
                    &&& is_best_setting(cs, required_size(old(self).control()), c)
                }
            } else {
                final(self).stage() == stage_after(old(self).stage(), ok)
            },
    {
        self.stage =
        match self.stage {
            Stage::DetachDriver => if ok {
                Stage::Claim
            } else {
                Stage::Failed(NegotiationError::DriverDetach)
            },
            Stage::Claim => if ok {
                Stage::Probe
            } else {
                Stage::Failed(NegotiationError::Claim)
            },
            Stage::Probe => if ok {
                Stage::ReadBack
            } else {
                Stage::Failed(NegotiationError::Probe)
            },
            Stage::Commit => if ok {
                let payload: usize = self.control.max_payload_transfer_size as usize;
                let required: usize = if payload == 0 {
                    1
                } else {
                    payload
                };
                match choose_setting(self.interfaces.as_slice(), self.interface, required) {
                    Some(c) => Stage::Select(c),
                    None => Stage::Failed(NegotiationError::NoSetting),
                }
            } else {
                Stage::Failed(NegotiationError::Commit)
            },
            Stage::Select(c) => if ok {
                Stage::Done(c)
            } else {
                Stage::Failed(NegotiationError::SelectSetting)
            },
            other => other,
        };
    }
}

/// Begins to negotiate a YUYV stream at the camera's frame size with a device
/// whose active configuration has the given interfaces.
pub fn negotiate(interfaces: Vec<Interface>) -> (r: Result<Negotiation, NegotiationError>)
    ensures
        match first_offer(all_settings(interfaces@)) {
            None => r == Err::<Negotiation, _>(NegotiationError::NoStream),
            Some((number, format)) => {
                &&& r matches Ok(n)
                &&& n.wf()
                &&& n.interfaces() == interfaces@
                &&& n.interface() == number
                &&& n.control() == probe_for(format)
                &&& n.stage() == Stage::QueryDriver
            },
        },
{
    match find_stream(interfaces.as_slice()) {
        None => Err(NegotiationError::NoStream),
        Some((interface, format)) => {
            let control = StreamingControl {
                bm_hint: 0,
                format_index: format.format_index,
                frame_index: format.frame_index,
                frame_interval: format.frame_interval,
                key_frame_rate: 0,
                p_frame_rate: 0,
                comp_quality: 0,
                comp_window_size: 0,
                delay: 0,
                max_video_frame_size: 0,
                max_payload_transfer_size: 0,
            };
            Ok(Negotiation { interfaces, interface, control, stage: Stage::QueryDriver })
        },
    }
}

/// Where each field of a control stands on the wire.
pub proof fn law_control_layout(c: StreamingControl)
    ensures
        c.wire().len() == 26,
        c.wire()[0] + 256 * c.wire()[1] == c.bm_hint,
        c.wire()[2] == c.format_index,
        c.wire()[3] == c.frame_index,
        c.wire()[4] + 256 * c.wire()[5] + 65536 * c.wire()[6] + 16777216 * c.wire()[7]
            == c.frame_interval,
        c.wire()[8] + 256 * c.wire()[9] == c.key_frame_rate,
        c.wire()[10] + 256 * c.wire()[11] == c.p_frame_rate,
        c.wire()[12] + 256 * c.wire()[13] == c.comp_quality,
        c.wire()[14] + 256 * c.wire()[15] == c.comp_window_size,
        c.wire()[16] + 256 * c.wire()[17] == c.delay,
        c.wire()[18] + 256 * c.wire()[19] + 65536 * c.wire()[20] + 16777216 * c.wire()[21]
            == c.max_video_frame_size,
        c.wire()[22] + 256 * c.wire()[23] + 65536 * c.wire()[24] + 16777216 * c.wire()[25]
            == c.max_payload_transfer_size,
{
    let w = c.wire();
    law_bytes_spell_16(c.bm_hint);
    law_bytes_spell_32(c.frame_interval);
    law_bytes_spell_16(c.key_frame_rate);
    law_bytes_spell_16(c.p_frame_rate);
    law_bytes_spell_16(c.comp_quality);
    law_bytes_spell_16(c.comp_window_size);
    law_bytes_spell_16(c.delay);
    law_bytes_spell_32(c.max_video_frame_size);
    law_bytes_spell_32(c.max_payload_transfer_size);
    assert(w[0] == le16(c.bm_hint)[0] && w[1] == le16(c.bm_hint)[1]);
    assert(w[4] == le32(c.frame_interval)[0] && w[5] == le32(c.frame_interval)[1]);
    assert(w[6] == le32(c.frame_interval)[2] && w[7] == le32(c.frame_interval)[3]);
    assert(w[8] == le16(c.key_frame_rate)[0] && w[9] == le16(c.key_frame_rate)[1]);
    assert(w[10] == le16(c.p_frame_rate)[0] && w[11] == le16(c.p_frame_rate)[1]);
    assert(w[12] == le16(c.comp_quality)[0] && w[13] == le16(c.comp_quality)[1]);
    assert(w[14] == le16(c.comp_window_size)[0] && w[15] == le16(c.comp_window_size)[1]);
    assert(w[16] == le16(c.delay)[0] && w[17] == le16(c.delay)[1]);
    assert(w[18] == le32(c.max_video_frame_size)[0] && w[19] == le32(c.max_video_frame_size)[1]);
    assert(w[20] == le32(c.max_video_frame_size)[2] && w[21] == le32(c.max_video_frame_size)[3]);
    assert(w[22] == le32(c.max_payload_transfer_size)[0]);
    assert(w[23] == le32(c.max_payload_transfer_size)[1]);
    assert(w[24] == le32(c.max_payload_transfer_size)[2]);
    assert(w[25] == le32(c.max_payload_transfer_size)[3]);
}

/// Descriptors one after the other.
pub open spec fn run_of(ds: Seq<Seq<u8>>) -> Seq<u8>
    decreases ds.len(),
{
    if ds.len() == 0 {
        Seq::empty()
    } else {
        ds.first() + run_of(ds.skip(1))
    }
}

/// Descriptors of any content, whose first byte is their length, at least 3,
/// are taken apart as they were put together, whatever stands behind them, if
/// that is no descriptor.
pub proof fn law_descriptors_are_taken_apart(ds: Seq<Seq<u8>>, tail: Seq<u8>)
    requires
        forall|i: int|
            0 <= i < ds.len() ==> (#[trigger] ds[i]).len() >= 3 && ds[i][0] == ds[i].len(),
        tail.len() < 3 || tail[0] < 3 || tail[0] > tail.len(),
    ensures
        descriptors(run_of(ds) + tail) == ds,
    decreases ds.len(),
{
    if ds.len() == 0 {
        assert(run_of(ds) + tail =~= tail);
        assert(descriptors(tail) =~= ds);
    } else {
        let d = ds[0];
        let rest = ds.skip(1);
        let all = run_of(ds) + tail;
        assert forall|i: int| 0 <= i < rest.len() implies (#[trigger] rest[i]).len() >= 3
            && rest[i][0] == rest[i].len() by {
            assert(rest[i] == ds[i + 1]);
        }
        law_descriptors_are_taken_apart(rest, tail);
        assert(ds.first() == d);
        assert(all =~= d + (run_of(rest) + tail));
        assert(all[0] == d[0]);
        assert(all.take(d.len() as int) =~= d);
        assert(all.skip(d.len() as int) =~= run_of(rest) + tail);
        assert(descriptors(all) == seq![d] + rest);
        assert(seq![d] + rest =~= ds);
    }
}

/// A class-specific descriptor (type 0x24) of an uncompressed format (subtype
/// 4), complete with its 27 bytes.
pub open spec fn announces_format(d: Seq<u8>) -> bool {
    d.len() >= 27 && d[1] == 0x24 && d[2] == 4
}

/// Such a descriptor whose GUID, at 5, is that of YUY2.
pub open spec fn announces_yuy2(d: Seq<u8>) -> bool {
    &&& announces_format(d)
    &&& d[5] == 0x59 && d[6] == 0x55 && d[7] == 0x59 && d[8] == 0x32
    &&& d[9] == 0 && d[10] == 0 && d[11] == 0x10 && d[12] == 0
    &&& d[13] == 0x80 && d[14] == 0 && d[15] == 0 && d[16] == 0xAA
    &&& d[17] == 0 && d[18] == 0x38 && d[19] == 0x9B && d[20] == 0x71
}

/// A class-specific descriptor of a frame of an uncompressed format (subtype
/// 5) with 25 bytes or more, whose size, at 5 and 7, is 256x384.
pub open spec fn announces_camera_frame(d: Seq<u8>) -> bool {
    &&& d.len() >= 25 && d[1] == 0x24 && d[2] == 5
    &&& d[5] + 256 * d[6] == 256
    &&& d[7] + 256 * d[8] == 384
}

/// The frame descriptor at `j` is of the camera's size and belongs to the YUY2
/// format opened at `i`: no other uncompressed format is opened in between.
pub open spec fn offers_at(ds: Seq<Seq<u8>>, i: int, j: int) -> bool {
    &&& 0 <= i < j < ds.len()
    &&& announces_yuy2(ds[i])
    &&& announces_camera_frame(ds[j])
    &&& forall|k: int| i < k < j ==> !announces_format(#[trigger] ds[k])
}

proof fn lemma_announcements(d: Seq<u8>)
    requires
        d.len() >= 3,
    ensures
        is_format(d) == announces_format(d),
        is_yuy2_format(d) == announces_yuy2(d),
        is_camera_frame(d) == announces_camera_frame(d),
{
    if d.len() >= 27 {
        let g = d.subrange(5, 21);
        if announces_yuy2(d) {
            assert(g =~= yuy2_guid());
        }
        if g == yuy2_guid() {
            assert forall|i: int| 5 <= i < 21 implies #[trigger] d[i] == yuy2_guid()[i - 5] by {
                assert(g[i - 5] == d[i]);
            }
        }
    }
}

proof fn lemma_governed(ds: Seq<Seq<u8>>, i: int)
    requires
        forall|k: int| 0 <= k < ds.len() ==> (#[trigger] ds[k]).len() >= 3,
        0 <= i < ds.len(),
        announces_yuy2(ds[i]),
        forall|k: int| i < k < ds.len() ==> !announces_format(#[trigger] ds[k]),
    ensures
        governing_format(ds) == Some(ds[i][3]),
    decreases ds.len(),
{
    lemma_announcements(ds[ds.len() - 1]);
    assert(ds.last() == ds[ds.len() - 1]);
    if i < ds.len() - 1 {
        let rest = ds.drop_last();
        assert forall|k: int| 0 <= k < rest.len() implies (#[trigger] rest[k]).len() >= 3 by {
            assert(rest[k] == ds[k]);
        }
        assert forall|k: int| i < k < rest.len() implies !announces_format(#[trigger] rest[k]) by {
            assert(rest[k] == ds[k]);
        }
        lemma_governed(rest, i);
    }
}

/// The scan finds what is offered: where a frame of the camera's size belongs
/// to a YUY2 format, and none does further on, the result is the format's
/// index, the frame's index and the frame's default interval, which stand at 3
/// and at 21 to 24.
pub proof fn law_scan_is_complete(ds: Seq<Seq<u8>>, i: int, j: int)
    requires
        forall|k: int| 0 <= k < ds.len() ==> (#[trigger] ds[k]).len() >= 3,
        offers_at(ds, i, j),
        forall|a: int, b: int| j < b ==> !#[trigger] offers_at(ds, a, b),
    ensures
        offered_format(ds) matches Some(f) && {
            &&& f.format_index == ds[i][3]
            &&& f.frame_index == ds[j][3]
            &&& f.frame_interval == ds[j][21] + 256 * ds[j][22] + 65536 * ds[j][23] + 16777216
                * ds[j][24]
        },
    decreases ds.len(),
{
    let n = ds.len() - 1;
    let rest = ds.drop_last();
    assert forall|k: int| 0 <= k < rest.len() implies (#[trigger] rest[k]).len() >= 3 by {
        assert(rest[k] == ds[k]);
    }
    lemma_announcements(ds[n]);
    assert(ds.last() == ds[n]);
    if j == n {
        assert forall|k: int| i < k < rest.len() implies !announces_format(#[trigger] rest[k]) by {
            assert(rest[k] == ds[k]);
        }
        assert(rest[i] == ds[i]);
        lemma_governed(rest, i);
    } else {
        if is_camera_frame(ds.last()) && governing_format(rest) is Some {
            lemma_governing(rest);
            let a = choose|a: int|
                {
                    &&& 0 <= a < rest.len()
                    &&& #[trigger] is_yuy2_format(rest[a])
                    &&& rest[a][3] == governing_format(rest)->0
                    &&& forall|k: int| a < k < rest.len() ==> !is_format(#[trigger] rest[k])
                };
            lemma_announcements(rest[a]);
            assert(rest[a] == ds[a]);
            assert forall|k: int| a < k < n implies !announces_format(#[trigger] ds[k]) by {
                assert(rest[k] == ds[k]);
                lemma_announcements(ds[k]);
            }
            assert(offers_at(ds, a, n));
        }
        assert(rest[i] == ds[i] && rest[j] == ds[j]);
        assert forall|k: int| i < k < j implies !announces_format(#[trigger] rest[k]) by {
            assert(rest[k] == ds[k]);
        }
        assert forall|a: int, b: int| j < b implies !#[trigger] offers_at(rest, a, b) by {
            if offers_at(rest, a, b) {
                assert(rest[a] == ds[a] && rest[b] == ds[b]);
                assert forall|k: int| a < k < b implies !announces_format(#[trigger] ds[k]) by {
                    assert(rest[k] == ds[k]);
                }
                assert(offers_at(ds, a, b));
            }
        }
        law_scan_is_complete(rest, i, j);
    }
}

/// The scan finds nothing else: where no frame of the camera's size belongs to
/// a YUY2 format, there is no result.
pub proof fn law_scan_is_sound(ds: Seq<Seq<u8>>)
    requires
        forall|k: int| 0 <= k < ds.len() ==> (#[trigger] ds[k]).len() >= 3,
        forall|a: int, b: int| !#[trigger] offers_at(ds, a, b),
    ensures
        offered_format(ds) is None,
{
    law_offer_is_backed(ds);
    if offered_format(ds) is Some {
        let f = offered_format(ds)->0;
        let (i, j) = choose|i: int, j: int|
            {
                &&& 0 <= i < j < ds.len()
                &&& #[trigger] is_yuy2_format(ds[i])
                &&& #[trigger] is_camera_frame(ds[j])
                &&& ds[i][3] == f.format_index
                &&& ds[j][3] == f.frame_index
                &&& forall|k: int| i < k < j ==> !is_format(#[trigger] ds[k])
            };
        lemma_announcements(ds[i]);
        lemma_announcements(ds[j]);
        assert forall|k: int| i < k < j implies !announces_format(#[trigger] ds[k]) by {
            lemma_announcements(ds[k]);
        }
        assert(offers_at(ds, i, j));
    }
}

/// The packet size on the wire: of an isochronous or interrupt endpoint the low
/// 11 bits are the bytes of a transaction, the next two bits count the
/// additional ones, and the rest means nothing; of the others it is as it is.
pub proof fn law_packet_size_is_composed(bytes: int, additional: int, rest: int, raw: u16)
    requires
        0 <= bytes < 2048,
        0 <= additional < 4,
        0 <= rest < 8,
        raw == bytes + 2048 * additional + 8192 * rest,
    ensures
        packet_size(TransferType::Isochronous, raw) == bytes * (additional + 1),
        packet_size(TransferType::Interrupt, raw) == bytes * (additional + 1),
        packet_size(TransferType::Bulk, raw) == raw,
        packet_size(TransferType::Control, raw) == raw,
{
    assert(raw % 2048 == bytes);
    assert(raw / 2048 % 4 == additional);
}

/// A setting of a configuration, by its interface and its place in it.
pub open spec fn is_place(interfaces: Seq<Interface>, i: int, j: int) -> bool {
    0 <= i < interfaces.len() && 0 <= j < interfaces[i].settings@.len()
}

/// The setting belongs to a VideoStreaming interface (class 14, subclass 2)
/// whose descriptors offer the camera's format.
pub open spec fn offers_stream(alt: AltSetting) -> bool {
    &&& alt.class_code == 14
    &&& alt.sub_class_code == 2
    &&& offered_format(descriptors(alt.extra@)) is Some
}

proof fn lemma_all_settings_none(interfaces: Seq<Interface>)
    requires
        forall|i: int, j: int|
            is_place(interfaces, i, j) ==> !offers_stream(
                #[trigger] interfaces[i].settings@[j],
            ),
    ensures
        first_offer(all_settings(interfaces)) is None,
    decreases interfaces.len(),
{
    if interfaces.len() > 0 {
        let rest = interfaces.drop_last();
        let n = interfaces.len() - 1;
        assert forall|i: int, j: int| is_place(rest, i, j) implies !offers_stream(
            #[trigger] rest[i].settings@[j],
        ) by {
            assert(is_place(interfaces, i, j));
            assert(rest[i] == interfaces[i]);
        }
        lemma_all_settings_none(rest);
        lemma_first_offer_append(all_settings(rest), interfaces.last().settings@);
        assert forall|j: int| 0 <= j < interfaces[n].settings@.len() implies !offers_stream(
            #[trigger] interfaces[n].settings@[j],
        ) by {
            assert(is_place(interfaces, n, j));
        }
        lemma_no_offer(interfaces[n].settings@);
    }
}

proof fn lemma_no_offer(settings: Seq<AltSetting>)
    requires
        forall|j: int| 0 <= j < settings.len() ==> !offers_stream(#[trigger] settings[j]),
    ensures
        first_offer(settings) is None,
    decreases settings.len(),
{
    if settings.len() > 0 {
        assert(!offers_stream(settings[0]));
        let rest = settings.skip(1);
        assert forall|j: int| 0 <= j < rest.len() implies !offers_stream(#[trigger] rest[j]) by {
            assert(rest[j] == settings[j + 1]);
        }
        lemma_no_offer(rest);
    }
}

/// The stream is found on the first setting that offers it, interface by
/// interface: its interface number and the format it offers.
pub proof fn law_first_offering_setting_is_found(interfaces: Seq<Interface>, i: int, j: int)
    requires
        is_place(interfaces, i, j),
        offers_stream(interfaces[i].settings@[j]),
        forall|a: int, b: int|
            is_place(interfaces, a, b) && (a < i || a == i && b < j) ==> !offers_stream(
                #[trigger] interfaces[a].settings@[b],
            ),
    ensures
        first_offer(all_settings(interfaces)) == Some(
            (
                interfaces[i].settings@[j].interface_number,
                offered_format(descriptors(interfaces[i].settings@[j].extra@))->0,
            ),
        ),
{
    let before = interfaces.take(i);
    assert forall|a: int, b: int| is_place(before, a, b) implies !offers_stream(
        #[trigger] before[a].settings@[b],
    ) by {
        assert(is_place(interfaces, a, b));
        assert(before[a] == interfaces[a]);
    }
    lemma_all_settings_none(before);
    let settings = interfaces[i].settings@;
    let head = settings.take(j);
    assert forall|b: int| 0 <= b < head.len() implies !offers_stream(#[trigger] head[b]) by {
        assert(is_place(interfaces, i, b));
        assert(head[b] == interfaces[i].settings@[b]);
    }
    lemma_no_offer(head);
    lemma_first_offer_append(head, settings.skip(j));
    assert(settings =~= head + settings.skip(j));
    assert(settings.skip(j).first() == settings[j]);
    lemma_all_settings_take(interfaces, i);
    lemma_first_offer_append(all_settings(before), settings);
    lemma_first_offer_prefix(interfaces, i + 1);
}

/// Without a setting that offers it, there is no stream.
pub proof fn law_no_offer_no_stream(interfaces: Seq<Interface>)
    requires
        forall|a: int, b: int|
            is_place(interfaces, a, b) ==> !offers_stream(
                #[trigger] interfaces[a].settings@[b],
            ),
    ensures
        first_offer(all_settings(interfaces)) is None,
{
    lemma_all_settings_none(interfaces);
}

/// The endpoint at `e` decides what the setting can carry: it is the first
/// towards the host, it is isochronous or bulk, and the setting is not the idle
/// one.
pub open spec fn carries_stream(alt: AltSetting, e: int) -> bool {
    &&& alt.setting_number != 0
    &&& 0 <= e < alt.endpoints@.len()
    &&& alt.endpoints@[e].direction is In
    &&& alt.endpoints@[e].transfer_type is Isochronous || alt.endpoints@[e].transfer_type is Bulk
    &&& forall|k: int| 0 <= k < e ==> (#[trigger] alt.endpoints@[k]).direction is Out
}

proof fn lemma_first_in(endpoints: Seq<Endpoint>, e: int)
    requires
        0 <= e < endpoints.len(),
        endpoints[e].direction is In,
        forall|k: int| 0 <= k < e ==> (#[trigger] endpoints[k]).direction is Out,
    ensures
        first_in_endpoint(endpoints) == Some(endpoints[e]),
    decreases e,
{
    if e > 0 {
        let rest = endpoints.skip(1);
        assert(endpoints[0].direction is Out);
        assert forall|k: int| 0 <= k < e - 1 implies (#[trigger] rest[k]).direction is Out by {
            assert(rest[k] == endpoints[k + 1]);
        }
        lemma_first_in(rest, e - 1);
    }
}

proof fn lemma_in_endpoint(endpoints: Seq<Endpoint>)
    ensures
        first_in_endpoint(endpoints) matches Some(ep) ==> exists|e: int|
            {
                &&& 0 <= e < endpoints.len()
                &&& #[trigger] endpoints[e] == ep
                &&& ep.direction is In
                &&& forall|k: int| 0 <= k < e ==> (#[trigger] endpoints[k]).direction is Out
            },
    decreases endpoints.len(),
{
    if endpoints.len() > 0 {
        if endpoints.first().direction == Direction::In {
            assert(endpoints[0] == endpoints.first());
        } else {
            let rest = endpoints.skip(1);
            lemma_in_endpoint(rest);
            if first_in_endpoint(rest) is Some {
                let ep = first_in_endpoint(rest)->0;
                let e = choose|e: int|
                    {
                        &&& 0 <= e < rest.len()
                        &&& #[trigger] rest[e] == ep
                        &&& ep.direction is In
                        &&& forall|k: int| 0 <= k < e ==> (#[trigger] rest[k]).direction is Out
                    };
                assert(endpoints[e + 1] == ep);
                assert forall|k: int| 0 <= k < e + 1 implies (#[trigger] endpoints[k]).direction
                    is Out by {
                    if k > 0 {
                        assert(rest[k - 1] == endpoints[k]);
                    }
                }
            }
        }
    }
}

/// What a setting can carry is told by the endpoint that decides.
pub proof fn law_setting_carries_by_its_endpoint(alt: AltSetting, e: int)
    requires
        carries_stream(alt, e),
    ensures
        stream_setting(alt) matches Some(c) && {
            let ep = alt.endpoints@[e];
            &&& c.setting_number == alt.setting_number
            &&& c.endpoint == ep.address
            &&& c.transfer_type == ep.transfer_type
            &&& ep.transfer_type is Bulk ==> c.packet_size == ep.max_packet_size
            &&& ep.transfer_type is Isochronous ==> c.packet_size == (ep.max_packet_size % 2048) * (
            ep.max_packet_size / 2048 % 4 + 1)
        },
{
    lemma_first_in(alt.endpoints@, e);
    let raw = alt.endpoints@[e].max_packet_size;
    assert(0 <= (raw % 2048) * (raw / 2048 % 4 + 1) <= 2047 * 4) by (nonlinear_arith)
        requires
            0 <= raw % 2048 <= 2047,
            0 <= raw / 2048 % 4 + 1 <= 4,
    ;
}

/// A setting without such an endpoint can carry nothing.
pub proof fn law_setting_without_endpoint_carries_nothing(alt: AltSetting)
    requires
        forall|e: int| !#[trigger] carries_stream(alt, e),
    ensures
        stream_setting(alt) is None,
{
    lemma_in_endpoint(alt.endpoints@);
    if stream_setting(alt) is Some {
        let ep = first_in_endpoint(alt.endpoints@)->0;
        let e = choose|e: int|
            {
                &&& 0 <= e < alt.endpoints@.len()
                &&& #[trigger] alt.endpoints@[e] == ep
                &&& ep.direction is In
                &&& forall|k: int|
                    0 <= k < e ==> (#[trigger] alt.endpoints@[k]).direction is Out
            };
        assert(carries_stream(alt, e));
    }
}

proof fn lemma_stream_settings_append(a: Seq<AltSetting>, b: Seq<AltSetting>)
    ensures
        stream_settings(a + b) == stream_settings(a) + stream_settings(b),
    decreases b.len(),
{
    if b.len() == 0 {
        assert(a + b =~= a);
        assert(stream_settings(a) + stream_settings(b) =~= stream_settings(a));
    } else {
        lemma_stream_settings_append(a, b.drop_last());
        assert((a + b).drop_last() =~= a + b.drop_last());
        assert((a + b).last() == b.last());
        assert(stream_settings(a + b) =~= stream_settings(a) + stream_settings(b));
    }
}

/// The streams to choose from: those of the interfaces with the right number,
/// one interface after the other, and none of the others.
pub proof fn law_streams_of_an_interface(interfaces: Seq<Interface>, next: Interface, number: u8)
    ensures
        stream_settings(settings_of(Seq::empty(), number)).len() == 0,
        stream_settings(settings_of(interfaces.push(next), number)) == if next.number == number {
            stream_settings(settings_of(interfaces, number)) + stream_settings(next.settings@)
        } else {
            stream_settings(settings_of(interfaces, number))
        },
{
    assert(interfaces.push(next).drop_last() =~= interfaces);
    lemma_stream_settings_append(settings_of(interfaces, number), next.settings@);
}

/// The streams of the settings of an interface: one for each setting that can
/// carry one, in order.
pub proof fn law_streams_of_the_settings(settings: Seq<AltSetting>, next: AltSetting)
    ensures
        stream_settings(Seq::empty()).len() == 0,
        stream_settings(settings.push(next)) == match stream_setting(next) {
            Some(c) => stream_settings(settings).push(c),
            None => stream_settings(settings),
        },
{
    assert(settings.push(next).drop_last() =~= settings);
}

/// The chosen stream is one of those to choose from, and of several with the
/// same packet size it is the first.
pub proof fn law_choice_is_the_first_of_its_kind(
    cs: Seq<StreamSetting>,
    required: int,
    c: StreamSetting,
)
    requires
        is_best_setting(cs, required, c),
    ensures
        exists|k: int|
            {
                &&& 0 <= k < cs.len()
                &&& #[trigger] cs[k] == c
                &&& forall|j: int|
                    0 <= j < k ==> (#[trigger] cs[j]).packet_size != c.packet_size
            },
{
    let k = choose|k: int| #[trigger] is_first_best(cs, required, k) && cs[k] == c;
    assert(cs[k] == c);
    assert forall|j: int| 0 <= j < k implies (#[trigger] cs[j]).packet_size != c.packet_size by {
        assert(suits_better(c.packet_size as int, cs[j].packet_size as int, required));
    }
}

/// What is asked of the device first: the format, and zeros for it to fill in.
pub proof fn law_probe_asks_for_the_format(format: VsFormat)
    ensures
        probe_for(format).format_index == format.format_index,
        probe_for(format).frame_index == format.frame_index,
        probe_for(format).frame_interval == format.frame_interval,
        probe_for(format).wire().subrange(0, 2) == seq![0u8, 0],
        forall|i: int| 8 <= i < 26 ==> #[trigger] probe_for(format).wire()[i] == 0,
{
    let w = probe_for(format).wire();
    assert(w.subrange(0, 2) =~= seq![0u8, 0]);
}

/// The requests of the negotiation: class requests to the interface, with the
/// control's selector in the upper half of the value.
pub proof fn law_control_requests(request: u8, selector: u16, interface: u8)
    requires
        selector < 256,
    ensures
        control_setup(Direction::Out, request, selector, interface) == (ControlSetup {
            request_type: 0x21,
            request,
            value: (256 * selector) as u16,
            index: interface as u16,
        }),
        control_setup(Direction::In, request, selector, interface) == (ControlSetup {
            request_type: 0xA1,
            request,
            value: (256 * selector) as u16,
            index: interface as u16,
        }),
{
}

/// The packets have to hold the payload that was agreed on, and at least one
/// byte.
pub proof fn law_required_size(control: StreamingControl)
    ensures
        required_size(control) >= 1,
        required_size(control) >= control.max_payload_transfer_size,
        required_size(control) == 1 || required_size(control)
            == control.max_payload_transfer_size,
{
}

/// The course of a negotiation: claim, probe, read back, commit, select. A
/// failure ends it with the error of its stage.
pub proof fn law_negotiation_course(c: StreamSetting)
    ensures
        stage_after(Stage::DetachDriver, true) == Stage::Claim,
        stage_after(Stage::Claim, true) == Stage::Probe,
        stage_after(Stage::Probe, true) == Stage::ReadBack,
        stage_after(Stage::Select(c), true) == Stage::Done(c),
        stage_after(Stage::DetachDriver, false) == Stage::Failed(NegotiationError::DriverDetach),
        stage_after(Stage::Claim, false) == Stage::Failed(NegotiationError::Claim),
        stage_after(Stage::Probe, false) == Stage::Failed(NegotiationError::Probe),
        stage_after(Stage::Commit, false) == Stage::Failed(NegotiationError::Commit),
        stage_after(Stage::Select(c), false) == Stage::Failed(NegotiationError::SelectSetting),
{
}

} // verus!
