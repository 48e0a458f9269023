//! Strips UVC payload headers, glues payloads back together into frames, and
//! keeps count of the isochronous transfers in flight.

use crate::camera::{
    decode_frame, filled, law_decoding_gives_back_what_was_filled_in, samples_of, SAMPLES,
};
use crate::usb::TransferType;
use vstd::prelude::*;

verus! {

/// Full raw YUYV frame size: video half on top, thermal half on the bottom.
pub const FRAME_BYTES: usize = 196608;

/// Number of isochronous transfers kept in flight.
pub const ISO_TRANSFERS: usize = 4;

/// Number of packets per isochronous transfer.
pub const ISO_PACKETS_PER_TRANSFER: usize = 32;

/// Smallest buffer for bulk transfers.
pub const MIN_BULK_BUFFER: usize = 16384;

/// A payload without its header.
pub struct Payload {
    /// The frame that the payload belongs to: toggles from frame to frame.
    pub fid: bool,
    /// The payload ends its frame.
    pub eof: bool,
    pub data: Seq<u8>,
}

/// The payload in a chunk. The first byte is the length of the header, the
/// second holds the flags. An empty chunk, a header that is too short or
/// longer than the chunk, and a payload with the error flag give none.
pub open spec fn payload_in(chunk: Seq<u8>) -> Option<Payload> {
    if chunk.len() == 0 || chunk[0] < 2 || chunk[0] > chunk.len() || chunk[1] / 64 % 2 == 1 {
        None
    } else {
        Some(
            Payload {
                fid: chunk[1] % 2 == 1,
                eof: chunk[1] / 2 % 2 == 1,
                data: chunk.skip(chunk[0] as int),
            },
        )
    }
}

/// Parses a UVC stream payload header, returning `(fid, eof, payload_data)`,
/// or `None` for an empty/malformed header or a payload marked as an error.
pub fn parse_payload_header(chunk: &[u8]) -> (r: Option<(bool, bool, &[u8])>)
    ensures
        match payload_in(chunk@) {
            None => r is None,
            Some(p) => r matches Some((fid, eof, data)) && fid == p.fid && eof == p.eof && data@
                == p.data,
        },
{
    if chunk.len() == 0 {
        return None;
    }
    let header_len: usize = chunk[0] as usize;
    if header_len < 2 || header_len > chunk.len() {
        return None;
    }
    let flags: u8 = chunk[1];
    if flags / 64 % 2 == 1 {
        return None;
    }
    let data = vstd::slice::slice_subrange(chunk, header_len, chunk.len());
    assert(data@ =~= chunk@.skip(header_len as int));
    Some((flags % 2 == 1, flags / 2 % 2 == 1, data))
}

/// What a reassembler holds.
pub struct Assembly {
    /// The data of the frame under way.
    pub buf: Seq<u8>,
    /// The toggle of the last payload.
    pub last_fid: Option<bool>,
    /// The size that no frame exceeds.
    pub max: nat,
}

impl Assembly {
    /// The data of the frame that a payload with the toggle `fid` belongs to.
    /// If the toggle has changed, the frame under way never got its end: it
    /// is discarded.
    pub open spec fn before(self, fid: bool) -> Seq<u8> {
        if self.last_fid is Some && self.last_fid->0 != fid {
            Seq::empty()
        } else {
            self.buf
        }
    }

    /// The data of the frame once the payload is added. One that would exceed
    /// the frame size is left out.
    pub open spec fn grown(self, p: Payload) -> Seq<u8> {
        let before = self.before(p.fid);
        if before.len() + p.data.len() <= self.max {
            before + p.data
        } else {
            before
        }
    }

    /// What is held after a payload.
    pub open spec fn after(self, p: Payload) -> Assembly {
        Assembly {
            buf: if p.eof {
                Seq::empty()
            } else {
                self.grown(p)
            },
            last_fid: Some(p.fid),
            max: self.max,
        }
    }

    /// What is held after a chunk.
    pub open spec fn after_chunk(self, chunk: Seq<u8>) -> Assembly {
        match payload_in(chunk) {
            Some(p) => self.after(p),
            None => self,
        }
    }

    /// The frame that a chunk completes.
    pub open spec fn frame_of(self, chunk: Seq<u8>) -> Option<Seq<u8>> {
        match payload_in(chunk) {
            Some(p) if p.eof => Some(self.grown(p)),
            _ => None,
        }
    }

    /// What is held after a sequence of chunks.
    pub open spec fn after_chunks(self, chunks: Seq<Seq<u8>>) -> Assembly
        decreases chunks.len(),
    {
        if chunks.len() == 0 {
            self
        } else {
            self.after_chunks(chunks.drop_last()).after_chunk(chunks.last())
        }
    }

    /// The frames that a sequence of chunks completes.
    pub open spec fn frames_of(self, chunks: Seq<Seq<u8>>) -> Seq<Seq<u8>>
        decreases chunks.len(),
    {
        if chunks.len() == 0 {
            Seq::empty()
        } else {
            let rest = self.frames_of(chunks.drop_last());
            match self.after_chunks(chunks.drop_last()).frame_of(chunks.last()) {
                Some(frame) => rest.push(frame),
                None => rest,
            }
        }
    }

    /// Nothing is held that could become part of a frame with the toggle
    /// `fid`.
    pub open spec fn clean_for(self, fid: bool) -> bool {
        self.before(fid).len() == 0
    }
}

/// The data of all payloads in the chunks, one after the other.
pub open spec fn joined(chunks: Seq<Seq<u8>>) -> Seq<u8>
    decreases chunks.len(),
{
    if chunks.len() == 0 {
        Seq::empty()
    } else {
        joined(chunks.drop_last()) + payload_in(chunks.last())->0.data
    }
}

/// A chunk holds a payload with the given flags.
pub open spec fn carries(chunk: Seq<u8>, fid: bool, eof: bool) -> bool {
    payload_in(chunk) matches Some(p) && p.fid == fid && p.eof == eof
}

/// One packet of a completed isochronous transfer.
#[derive(Debug, Clone, Copy, PartialEq, Eq, Structural)]
pub struct IsoPacket {
    /// The packet arrived.
    pub completed: bool,
    pub actual_length: usize,
}

/// The chunks in the first `n` packets of a transfer buffer: what arrived of
/// each packet, which starts at a multiple of the packet length.
pub open spec fn iso_chunks(
    buffer: Seq<u8>,
    packet_len: int,
    packets: Seq<IsoPacket>,
    n: nat,
) -> Seq<Seq<u8>>
    decreases n,
{
    if n == 0 {
        Seq::empty()
    } else {
        let rest = iso_chunks(buffer, packet_len, packets, (n - 1) as nat);
        let start = (n - 1) * packet_len;
        let len = if packets[n - 1].actual_length < packet_len {
            packets[n - 1].actual_length as int
        } else {
            packet_len
        };
        if packets[n - 1].completed && len > 0 {
            rest.push(buffer.subrange(start, start + len))
        } else {
            rest
        }
    }
}

/// Strips UVC stream payload headers and glues payloads back together into
/// complete frames, using the header's FID (frame-toggle) and EOF bits.
#[derive(Debug)]
pub struct FrameReassembler {
    buf: Vec<u8>,
    last_fid: Option<bool>,
    max_frame_size: usize,
}

impl View for FrameReassembler {
    type V = Assembly;

    closed spec fn view(&self) -> Assembly {
        Assembly {
            buf: self.buf@,
            last_fid: self.last_fid,
            max: self.max_frame_size as nat,
        }
    }
}

impl FrameReassembler {
    /// No frame grows beyond the maximum.
    pub open spec fn wf(&self) -> bool {
        self@.buf.len() <= self@.max
    }

    /// A reassembler for frames of at most `max_frame_size` bytes.
    pub fn new(max_frame_size: usize) -> (r: FrameReassembler)
        ensures
            r.wf(),
            r@ == (Assembly { buf: Seq::empty(), last_fid: None, max: max_frame_size as nat }),
    {
        let r = FrameReassembler { buf: Vec::new(), last_fid: None, max_frame_size };
        assert(r@.buf =~= Seq::empty());
        r
    }

    /// Feeds one payload chunk (UVC payload header included). Returns
    /// `Some(bytes)` once a complete frame has been assembled.
    pub fn feed(&mut self, chunk: &[u8]) -> (r: Option<Vec<u8>>)
        requires
            old(self).wf(),
        ensures
            final(self).wf(),
            final(self)@ == old(self)@.after_chunk(chunk@),
            match old(self)@.frame_of(chunk@) {
                Some(frame) => r matches Some(bytes) && bytes@ == frame && bytes@.len() <= old(
                    self,
                )@.max,
                None => r is None,
            },
    {
        match parse_payload_header(chunk) {
            None => None,
            Some((fid, eof, data)) => {
                if let Some(last) = self.last_fid {
                    if last != fid {
                        // The previous frame never got its end: discard it and
                        // resync on this payload instead.
                        self.buf.clear();
                    }
                }
                assert(self.buf@ =~= old(self)@.before(fid));
                self.last_fid = Some(fid);
                if data.len() <= self.max_frame_size - self.buf.len() {
                    self.buf.extend_from_slice(data);
                    assert(self.buf@ =~= old(self)@.before(fid) + data@);
                }
                if eof {
                    let mut frame: Vec<u8> = Vec::new();
                    frame.append(&mut self.buf);
                    assert(self.buf@ =~= Seq::empty());
                    assert(frame@ =~= old(self)@.grown(payload_in(chunk@)->0));
                    Some(frame)
                } else {
                    None
                }
            },
        }
    }

    /// Feeds every packet of one completed isochronous transfer that arrived.
    /// Returns the frames that were completed, in order.
    pub fn process_iso_packets(
        &mut self,
        buffer: &[u8],
        packet_len: usize,
        packets: &[IsoPacket],
    ) -> (r: Vec<Vec<u8>>)
        requires
            old(self).wf(),
            packets@.len() * packet_len <= buffer@.len(),
        ensures
            final(self).wf(),
            ({
                let chunks = iso_chunks(
                    buffer@,
                    packet_len as int,
                    packets@,
                    packets@.len(),
                );
                &&& final(self)@ == old(self)@.after_chunks(chunks)
                &&& r@.map_values(|f: Vec<u8>| f@) == old(self)@.frames_of(chunks)
            }),
    {
        let mut frames: Vec<Vec<u8>> = Vec::new();
        let ghost start = self@;
        let mut i: usize = 0;
        let mut offset: usize = 0;
        let total: usize = buffer.len();
        assert(frames@.map_values(|f: Vec<u8>| f@) =~= Seq::empty());
        while i < packets.len()
            invariant
                self.wf(),
                i <= packets@.len(),
                offset == i * packet_len,
                total == buffer@.len(),
                packets@.len() * packet_len <= total,
                self@ == start.after_chunks(
                    iso_chunks(buffer@, packet_len as int, packets@, i as nat),
                ),
                frames@.map_values(|f: Vec<u8>| f@) == start.frames_of(
                    iso_chunks(buffer@, packet_len as int, packets@, i as nat),
                ),
            decreases packets.len() - i,
        {
            let ghost before = iso_chunks(buffer@, packet_len as int, packets@, i as nat);
            proof {
                assert(offset + packet_len <= total) by (nonlinear_arith)
                    requires
                        offset == i * packet_len,
                        i + 1 <= packets@.len(),
                        packets@.len() * packet_len <= total,
                        0 <= packet_len,
                ;
                assert((i + 1) * packet_len == i * packet_len + packet_len) by (nonlinear_arith);
            }
            let packet = packets[i];
            let len: usize = if packet.actual_length < packet_len {
                packet.actual_length
            } else {
                packet_len
            };
            if packet.completed && len > 0 {
                let chunk = vstd::slice::slice_subrange(buffer, offset, offset + len);
                proof {
                    assert(before.push(chunk@).drop_last() =~= before);
                    assert(iso_chunks(buffer@, packet_len as int, packets@, (i + 1) as nat)
                        == before.push(chunk@));
                }
                let ghost so_far = frames@;
                if let Some(frame) = self.feed(chunk) {
                    frames.push(frame);
                    assert(frames@.map_values(|f: Vec<u8>| f@) =~= so_far.map_values(
                        |f: Vec<u8>| f@,
                    ).push(frame@));
                }
            }
            i += 1;
            offset += packet_len;
        }
        frames
    }
}

/// The bytes per row of a frame that comes over USB: no padding.
pub const FRAME_STRIDE: usize = 512;

/// The thermal samples of those frames that are complete. One that lost
/// payloads is too short and left out.
pub open spec fn decoded_frames(frames: Seq<Seq<u8>>) -> Seq<Seq<u16>>
    decreases frames.len(),
{
    if frames.len() == 0 {
        Seq::empty()
    } else {
        let rest = decoded_frames(frames.drop_last());
        if frames.last().len() >= FRAME_BYTES {
            rest.push(samples_of(frames.last(), FRAME_STRIDE as int))
        } else {
            rest
        }
    }
}

/// Accumulates UVC payloads into frames and decodes them.
#[derive(Debug)]
pub struct Collector {
    reassembler: FrameReassembler,
}

impl View for Collector {
    type V = Assembly;

    closed spec fn view(&self) -> Assembly {
        self.reassembler@
    }
}

impl Collector {
    /// Frames are as large as a raw frame of the camera.
    pub open spec fn wf(&self) -> bool {
        self@.buf.len() <= self@.max == FRAME_BYTES
    }

    /// A collector of the camera's frames.
    pub fn new() -> (r: Collector)
        ensures
            r.wf(),
            r@ == (Assembly { buf: Seq::empty(), last_fid: None, max: FRAME_BYTES as nat }),
    {
        Collector { reassembler: FrameReassembler::new(FRAME_BYTES) }
    }

    /// Feeds one payload chunk (UVC payload header included). Returns the
    /// thermal samples of the frame that it completes, unless the frame is
    /// too short.
    pub fn feed_payload(&mut self, chunk: &[u8]) -> (r: Option<Vec<u16>>)
        requires
            old(self).wf(),
        ensures
            final(self).wf(),
            final(self)@ == old(self)@.after_chunk(chunk@),
            match old(self)@.frame_of(chunk@) {
                Some(frame) if frame.len() >= FRAME_BYTES => r matches Some(samples) && samples@
                    == samples_of(frame, FRAME_STRIDE as int),
                _ => r is None,
            },
    {
        match self.reassembler.feed(chunk) {
            Some(frame) => decode_frame(frame.as_slice(), FRAME_STRIDE),
            None => None,
        }
    }

    /// Feeds every packet of one completed isochronous transfer that arrived.
    /// Returns the thermal samples of the frames that were completed, in
    /// order.
    pub fn process_iso_packets(
        &mut self,
        buffer: &[u8],
        packet_len: usize,
        packets: &[IsoPacket],
    ) -> (r: Vec<Vec<u16>>)
        requires
            old(self).wf(),
            packets@.len() * packet_len <= buffer@.len(),
        ensures
            final(self).wf(),
            ({
                let chunks = iso_chunks(buffer@, packet_len as int, packets@, packets@.len());
                &&& final(self)@ == old(self)@.after_chunks(chunks)
                &&& r@.map_values(|f: Vec<u16>| f@) == decoded_frames(old(self)@.frames_of(chunks))
            }),
    {
        let ghost chunks = iso_chunks(buffer@, packet_len as int, packets@, packets@.len());
        proof {
            law_frames_are_bounded(self@, chunks);
        }
        let frames = self.reassembler.process_iso_packets(buffer, packet_len, packets);
        let ghost raw = frames@.map_values(|f: Vec<u8>| f@);
        let mut decoded: Vec<Vec<u16>> = Vec::new();
        let mut i: usize = 0;
        assert(raw.take(0) =~= Seq::empty());
        assert(decoded@.map_values(|f: Vec<u16>| f@) =~= Seq::empty());
        while i < frames.len()
            invariant
                i <= frames@.len(),
                raw == frames@.map_values(|f: Vec<u8>| f@),
                decoded@.map_values(|f: Vec<u16>| f@) == decoded_frames(raw.take(i as int)),
            decreases frames.len() - i,
        {
            assert(raw.take(i + 1).drop_last() =~= raw.take(i as int));
            assert(raw[i as int] == frames@[i as int]@);
            let ghost before = decoded@;
            if let Some(samples) = decode_frame(frames[i].as_slice(), FRAME_STRIDE) {
                decoded.push(samples);
                assert(decoded@.map_values(|f: Vec<u16>| f@) =~= before.map_values(
                    |f: Vec<u16>| f@,
                ).push(samples@));
            }
            i += 1;
        }
        assert(raw.take(i as int) =~= raw);
        decoded
    }
}

/// A chunk that holds no payload, or one marked as an error, changes nothing
/// and completes nothing.
pub proof fn law_bad_chunk_is_dropped(a: Assembly, chunk: Seq<u8>)
    requires
        payload_in(chunk) is None,
    ensures
        a.after_chunk(chunk) == a,
        a.frame_of(chunk) is None,
{
}

/// No frame exceeds the maximum, whatever chunks come in.
pub proof fn law_frames_are_bounded(a: Assembly, chunks: Seq<Seq<u8>>)
    requires
        a.buf.len() <= a.max,
    ensures
        a.after_chunks(chunks).buf.len() <= a.max,
        a.after_chunks(chunks).max == a.max,
        forall|i: int|
            0 <= i < a.frames_of(chunks).len() ==> (#[trigger] a.frames_of(chunks)[i]).len()
                <= a.max,
    decreases chunks.len(),
{
    if chunks.len() > 0 {
        let rest = chunks.drop_last();
        law_frames_are_bounded(a, rest);
        assert forall|i: int| 0 <= i < a.frames_of(chunks).len() implies (
        #[trigger] a.frames_of(chunks)[i]).len() <= a.max by {
            if i < a.frames_of(rest).len() {
                assert(a.frames_of(chunks)[i] == a.frames_of(rest)[i]);
            }
        }
    }
}

proof fn lemma_same_frame(a: Assembly, chunks: Seq<Seq<u8>>, fid: bool)
    requires
        a.clean_for(fid),
        forall|i: int| 0 <= i < chunks.len() ==> carries(#[trigger] chunks[i], fid, false),
        joined(chunks).len() <= a.max,
    ensures
        a.after_chunks(chunks).before(fid) == joined(chunks),
        a.after_chunks(chunks).max == a.max,
        a.frames_of(chunks) == Seq::<Seq<u8>>::empty(),
    decreases chunks.len(),
{
    if chunks.len() == 0 {
        assert(a.before(fid) =~= Seq::empty());
    } else {
        let rest = chunks.drop_last();
        assert forall|i: int| 0 <= i < rest.len() implies carries(#[trigger] rest[i], fid, false) by {
            assert(rest[i] == chunks[i]);
        }
        lemma_same_frame(a, rest, fid);
        assert(carries(chunks[chunks.len() - 1], fid, false));
    }
}

/// The payloads of one frame, the last of them marked as its end, give their
/// data joined together, in order, whatever unfinished frame came before.
pub proof fn law_payloads_reassemble(
    a: Assembly,
    chunks: Seq<Seq<u8>>,
    last: Seq<u8>,
    fid: bool,
)
    requires
        a.clean_for(fid),
        forall|i: int| 0 <= i < chunks.len() ==> carries(#[trigger] chunks[i], fid, false),
        carries(last, fid, true),
        joined(chunks.push(last)).len() <= a.max,
    ensures
        a.frames_of(chunks.push(last)) == seq![joined(chunks.push(last))],
        a.after_chunks(chunks.push(last)).buf == Seq::<u8>::empty(),
{
    let all = chunks.push(last);
    assert(all.drop_last() =~= chunks);
    assert(all.last() == last);
    lemma_same_frame(a, chunks, fid);
    assert(a.frames_of(all) =~= seq![joined(all)]);
}

/// A frame of the camera that is sent in payloads comes out as its samples:
/// whatever was filled into its thermal half, however it was cut.
pub proof fn law_streamed_frame_is_decoded(
    a: Assembly,
    chunks: Seq<Seq<u8>>,
    last: Seq<u8>,
    fid: bool,
    frame: Seq<u8>,
    samples: Seq<u16>,
)
    requires
        a.clean_for(fid),
        a.max == FRAME_BYTES,
        forall|i: int| 0 <= i < chunks.len() ==> carries(#[trigger] chunks[i], fid, false),
        carries(last, fid, true),
        frame.len() == FRAME_BYTES,
        samples.len() == SAMPLES,
        joined(chunks.push(last)) == filled(frame, FRAME_STRIDE as int, samples),
    ensures
        decoded_frames(a.frames_of(chunks.push(last))) == seq![samples],
{
    law_payloads_reassemble(a, chunks, last, fid);
    law_decoding_gives_back_what_was_filled_in(frame, FRAME_STRIDE, samples);
    let frames = a.frames_of(chunks.push(last));
    assert(frames.drop_last() =~= Seq::empty());
    assert(decoded_frames(Seq::<Seq<u8>>::empty()) =~= Seq::empty());
    assert(decoded_frames(frames) =~= seq![samples]);
}

/// An unfinished frame leaves no byte in the next one: after it, a reassembler
/// is clean for the other toggle.
pub proof fn law_toggle_discards_unfinished_frame(a: Assembly, chunk: Seq<u8>, fid: bool)
    requires
        carries(chunk, fid, false),
    ensures
        a.after_chunk(chunk).clean_for(!fid),
{
}

/// The buffer size for bulk transfers of the given maximum payload.
pub fn bulk_buffer_size(max_payload_transfer_size: u32) -> (r: usize)
    ensures
        r == if max_payload_transfer_size > MIN_BULK_BUFFER {
            max_payload_transfer_size as usize
        } else {
            MIN_BULK_BUFFER
        },
{
    let size: usize = max_payload_transfer_size as usize;
    if size > MIN_BULK_BUFFER {
        size
    } else {
        MIN_BULK_BUFFER
    }
}

/// The length of an isochronous packet on an endpoint of the given packet
/// size: at least one byte.
pub fn iso_packet_len(packet_size: usize) -> (r: usize)
    ensures
        r == if packet_size == 0 {
            1
        } else {
            packet_size
        },
{
    if packet_size == 0 {
        1
    } else {
        packet_size
    }
}

/// How a stream is read.
#[derive(Debug, Clone, Copy, PartialEq, Eq, Structural)]
pub enum StreamMode {
    Bulk,
    Isochronous,
}

/// How a stream on an endpoint of the given kind is read; the error text if
/// it cannot be.
pub fn stream_mode(transfer_type: TransferType) -> (r: Result<StreamMode, String>)
    ensures
        match transfer_type {
            TransferType::Bulk => r matches Ok(mode) && mode == StreamMode::Bulk,
            TransferType::Isochronous => r matches Ok(mode) && mode == StreamMode::Isochronous,
            _ => r matches Err(e) && e@ == "Unsupported UVC video endpoint transfer type: "@
                + transfer_type.spec_name(),
        },
{
    match transfer_type {
        TransferType::Bulk => Ok(StreamMode::Bulk),
        TransferType::Isochronous => Ok(StreamMode::Isochronous),
        other => {
            let mut e = "Unsupported UVC video endpoint transfer type: ".to_owned();
            e.append(other.name());
            Err(e)
        },
    }
}

/// What to do with an isochronous transfer that has completed.
#[derive(Debug, Clone, Copy, PartialEq, Eq, Structural)]
pub enum IsoAction {
    /// Process its packets and submit it again; if that fails, call
    /// [`IsoSession::resubmit_failed`].
    Resubmit,
    /// Leave it alone: it is still to be cancelled.
    Abandon,
    /// Free it.
    Free,
}

/// The isochronous transfers of a stream: how many are in flight, and whether
/// the stream is on its way out.
#[derive(Debug, Clone, Copy, PartialEq, Eq, Structural)]
pub struct IsoSession {
    pub stopping: bool,
    pub outstanding: usize,
    pub device_gone: bool,
}

impl IsoSession {
    /// The session after a transfer has completed.
    pub open spec fn after_completed(self, no_device: bool) -> IsoSession {
        if self.stopping {
            IsoSession { outstanding: (self.outstanding - 1) as usize, ..self }
        } else if no_device {
            IsoSession {
                outstanding: (self.outstanding - 1) as usize,
                device_gone: true,
                ..self
            }
        } else {
            self
        }
    }

    /// The session after `n` transfers have completed during teardown.
    pub open spec fn after_cancelled(self, n: nat) -> IsoSession
        decreases n,
    {
        if n == 0 {
            self
        } else {
            self.after_cancelled((n - 1) as nat).after_completed(false)
        }
    }

    /// A session without transfers.
    pub fn new() -> (r: IsoSession)
        ensures
            r == (IsoSession { stopping: false, outstanding: 0, device_gone: false }),
    {
        IsoSession { stopping: false, outstanding: 0, device_gone: false }
    }

    /// A transfer was submitted.
    pub fn submitted(&mut self)
        requires
            old(self).outstanding < usize::MAX,
        ensures
            *final(self) == (IsoSession {
                outstanding: (old(self).outstanding + 1) as usize,
                ..*old(self)
            }),
    {
        self.outstanding += 1;
    }

    /// The stream ends: transfers that complete from now on are freed.
    pub fn stop(&mut self)
        ensures
            *final(self) == (IsoSession { stopping: true, ..*old(self) }),
    {
        self.stopping = true;
    }

    /// A transfer has completed; `no_device` says that the device is gone.
    pub fn completed(&mut self, no_device: bool) -> (action: IsoAction)
        requires
            old(self).outstanding > 0,
        ensures
            *final(self) == old(self).after_completed(no_device),
            action == if old(self).stopping {
                IsoAction::Free
            } else if no_device {
                IsoAction::Abandon
            } else {
                IsoAction::Resubmit
            },
    {
        if self.stopping {
            self.outstanding -= 1;
            return IsoAction::Free;
        }
        if no_device {
            self.device_gone = true;
            self.outstanding -= 1;
            return IsoAction::Abandon;
        }
        IsoAction::Resubmit
    }

    /// A transfer could not be submitted again: the device is gone, and the
    /// transfer is no longer in flight.
    pub fn resubmit_failed(&mut self)
        requires
            old(self).outstanding > 0,
        ensures
            *final(self) == (IsoSession {
                outstanding: (old(self).outstanding - 1) as usize,
                device_gone: true,
                ..*old(self)
            }),
    {
        self.device_gone = true;
        self.outstanding -= 1;
    }
}

/// Teardown ends: once as many transfers have completed as were in flight
/// when the stream was stopped, none is left.
pub proof fn law_teardown_frees_all(session: IsoSession, n: nat)
    requires
        session.stopping,
        n <= session.outstanding,
    ensures
        session.after_cancelled(n).outstanding == session.outstanding - n,
        session.after_cancelled(n).stopping,
    decreases n,
{
    if n > 0 {
        law_teardown_frees_all(session, (n - 1) as nat);
    }
}

/// A payload header: its first byte is its length, at least 2, and the error
/// bit (bit 6) of its second byte is clear.
pub open spec fn is_good_header(h: Seq<u8>) -> bool {
    &&& 2 <= h.len() <= 255
    &&& h[0] == h.len()
    &&& (h[1] as int) % 128 < 64
}

/// Behind a header of any length stand the data, all of them and nothing else;
/// bit 0 of the second byte is the toggle, bit 1 the end of the frame.
pub proof fn law_data_stand_behind_the_header(h: Seq<u8>, d: Seq<u8>)
    requires
        is_good_header(h),
    ensures
        payload_in(h + d) matches Some(p) && {
            &&& p.data == d
            &&& p.fid <==> (h[1] as int) % 2 == 1
            &&& p.eof <==> (h[1] as int) % 4 >= 2
        },
{
    let chunk = h + d;
    assert(chunk[0] == h[0] && chunk[1] == h[1]);
    assert(chunk.skip(h.len() as int) =~= d);
}

/// A chunk without such a header is no payload: an empty one, a header of less
/// than two bytes, one that is longer than the chunk, one with the error bit.
pub proof fn law_bad_header_is_no_payload(chunk: Seq<u8>)
    requires
        chunk.len() == 0 || chunk[0] < 2 || chunk[0] > chunk.len() || (chunk[1] as int) % 128 >= 64,
    ensures
        payload_in(chunk) is None,
{
}

/// Pieces of data, each behind its header.
pub open spec fn with_headers(headers: Seq<Seq<u8>>, pieces: Seq<Seq<u8>>) -> Seq<Seq<u8>> {
    Seq::new(pieces.len(), |i: int| headers[i] + pieces[i])
}

proof fn lemma_joined_pieces(headers: Seq<Seq<u8>>, pieces: Seq<Seq<u8>>)
    requires
        headers.len() == pieces.len(),
        forall|i: int| 0 <= i < headers.len() ==> is_good_header(#[trigger] headers[i]),
    ensures
        joined(with_headers(headers, pieces)) == pieces.flatten(),
    decreases pieces.len(),
{
    let chunks = with_headers(headers, pieces);
    pieces.lemma_flatten_and_flatten_alt_are_equivalent();
    if pieces.len() > 0 {
        let n = pieces.len() - 1;
        let h = headers.drop_last();
        let p = pieces.drop_last();
        assert forall|i: int| 0 <= i < h.len() implies is_good_header(#[trigger] h[i]) by {
            assert(h[i] == headers[i]);
        }
        lemma_joined_pieces(h, p);
        p.lemma_flatten_and_flatten_alt_are_equivalent();
        assert(chunks.drop_last() =~= with_headers(h, p));
        law_data_stand_behind_the_header(headers[n], pieces[n]);
        assert(chunks.last() == headers[n] + pieces[n]);
        assert(joined(chunks) == p.flatten() + pieces[n]);
        assert(pieces.flatten_alt() == p.flatten_alt() + pieces.last());
    }
}

/// A frame that is cut into pieces comes back whole: each piece is put behind a
/// header of any length, all with the same toggle, the last one alone with the
/// end bit. Whatever unfinished frame was under way, the only frame that comes
/// out is the pieces joined together.
pub proof fn law_cut_frame_comes_back(
    a: Assembly,
    headers: Seq<Seq<u8>>,
    pieces: Seq<Seq<u8>>,
    fid: int,
)
    requires
        headers.len() == pieces.len() > 0,
        fid == 0 || fid == 1,
        a.buf.len() == 0 || a.last_fid == Some(fid == 0),
        pieces.flatten().len() <= a.max,
        forall|i: int|
            0 <= i < headers.len() ==> is_good_header(#[trigger] headers[i]) && (
            headers[i][1] as int) % 2 == fid,
        forall|i: int|
            0 <= i < headers.len() ==> ((#[trigger] headers[i][1] as int) % 4 >= 2 <==> i
                == headers.len() - 1),
    ensures
        a.frames_of(with_headers(headers, pieces)) == seq![pieces.flatten()],
        a.after_chunks(with_headers(headers, pieces)).buf.len() == 0,
{
    let n = pieces.len() - 1;
    let all = with_headers(headers, pieces);
    let chunks = all.drop_last();
    let last = all.last();
    let toggle = fid == 1;
    lemma_joined_pieces(headers, pieces);
    assert(all =~= chunks.push(last));
    assert(a.before(toggle).len() == 0);
    assert forall|i: int| 0 <= i < chunks.len() implies carries(
        #[trigger] chunks[i],
        toggle,
        false,
    ) by {
        assert(is_good_header(headers[i]));
        assert((headers[i][1] as int) % 4 < 2);
        law_data_stand_behind_the_header(headers[i], pieces[i]);
        assert(chunks[i] == headers[i] + pieces[i]);
    }
    assert(is_good_header(headers[n]));
    assert((headers[n][1] as int) % 4 >= 2);
    law_data_stand_behind_the_header(headers[n], pieces[n]);
    assert(last == headers[n] + pieces[n]);
    law_payloads_reassemble(a, chunks, last, toggle);
}

/// A payload that would make its frame exceed the maximum is left out, and only
/// it: the frame goes on without its data.
pub proof fn law_oversized_payload_is_left_out(a: Assembly, h: Seq<u8>, d: Seq<u8>)
    requires
        is_good_header(h),
        a.last_fid == Some((h[1] as int) % 2 == 1),
    ensures
        ({
            let grown = if a.buf.len() + d.len() <= a.max {
                a.buf + d
            } else {
                a.buf
            };
            if (h[1] as int) % 4 >= 2 {
                &&& a.frame_of(h + d) == Some(grown)
                &&& a.after_chunk(h + d).buf.len() == 0
            } else {
                &&& a.frame_of(h + d) is None
                &&& a.after_chunk(h + d).buf == grown
            }
        }),
        a.after_chunk(h + d).last_fid == a.last_fid,
        a.after_chunk(h + d).max == a.max,
{
    law_data_stand_behind_the_header(h, d);
    assert(a.after_chunk(h + d).buf.len() == 0 || (h[1] as int) % 4 < 2);
}

/// With the toggle of another frame, or as the first of all, a payload begins
/// its frame afresh.
pub proof fn law_other_toggle_begins_afresh(a: Assembly, h: Seq<u8>, d: Seq<u8>)
    requires
        is_good_header(h),
        a.last_fid == Some((h[1] as int) % 2 == 0) || a.buf.len() == 0,
        d.len() <= a.max,
    ensures
        (h[1] as int) % 4 >= 2 ==> a.frame_of(h + d) == Some(d),
        (h[1] as int) % 4 < 2 ==> a.frame_of(h + d) is None && a.after_chunk(h + d).buf == d,
        a.after_chunk(h + d).last_fid == Some((h[1] as int) % 2 == 1),
{
    law_data_stand_behind_the_header(h, d);
    let p = payload_in(h + d)->0;
    assert(a.before(p.fid) =~= Seq::empty());
    assert(Seq::<u8>::empty() + d =~= d);
}

/// Frames come out one by one: what a further chunk completes comes behind the
/// rest.
pub proof fn law_chunks_follow_each_other(a: Assembly, chunks: Seq<Seq<u8>>, chunk: Seq<u8>)
    ensures
        a.frames_of(Seq::empty()).len() == 0,
        a.after_chunks(Seq::empty()) == a,
        a.after_chunks(chunks.push(chunk)) == a.after_chunks(chunks).after_chunk(chunk),
        a.frames_of(chunks.push(chunk)) == match a.after_chunks(chunks).frame_of(chunk) {
            Some(frame) => a.frames_of(chunks).push(frame),
            None => a.frames_of(chunks),
        },
{
    assert(chunks.push(chunk).drop_last() =~= chunks);
}

/// The packet number `n` of a transfer gives, if it arrived, the bytes that
/// arrived of it, from `n * packet_len` on, and never more than a packet; an
/// empty one, or one that did not arrive, gives nothing.
pub proof fn law_packet_gives_what_arrived(
    buffer: Seq<u8>,
    packet_len: int,
    packets: Seq<IsoPacket>,
    n: nat,
)
    requires
        n < packets.len(),
        packet_len > 0,
    ensures
        iso_chunks(buffer, packet_len, packets, 0).len() == 0,
        ({
            let before = iso_chunks(buffer, packet_len, packets, n);
            let after = iso_chunks(buffer, packet_len, packets, n + 1);
            let packet = packets[n as int];
            let start = n * packet_len;
            if !packet.completed || packet.actual_length == 0 {
                after == before
            } else if packet.actual_length < packet_len {
                after == before.push(buffer.subrange(start, start + packet.actual_length))
            } else {
                after == before.push(buffer.subrange(start, start + packet_len))
            }
        }),
{
}

/// Of the frames that were put together, those with all 196608 bytes are
/// decoded, and the shorter ones are dropped.
pub proof fn law_complete_frames_are_decoded(frames: Seq<Seq<u8>>, frame: Seq<u8>)
    ensures
        decoded_frames(Seq::empty()).len() == 0,
        decoded_frames(frames.push(frame)) == if frame.len() >= 196608 {
            decoded_frames(frames).push(samples_of(frame, 512))
        } else {
            decoded_frames(frames)
        },
{
    assert(frames.push(frame).drop_last() =~= frames);
}

/// A completion during teardown takes one transfer out of flight. Before it, a
/// transfer leaves only if the device is gone, which is then on record; else
/// nothing changes.
pub proof fn law_completion(session: IsoSession, no_device: bool)
    requires
        session.outstanding > 0,
    ensures
        ({
            let after = session.after_completed(no_device);
            &&& after.stopping == session.stopping
            &&& after.outstanding == if session.stopping || no_device {
                session.outstanding - 1
            } else {
                session.outstanding as int
            }
            &&& after.device_gone == (session.device_gone || (no_device && !session.stopping))
        }),
{
}

/// A payload that alone exceeds the maximum leaves a frame that it begins
/// empty.
pub proof fn law_oversized_first_payload_leaves_nothing(a: Assembly, h: Seq<u8>, d: Seq<u8>)
    requires
        is_good_header(h),
        a.last_fid == Some((h[1] as int) % 2 == 0) || a.buf.len() == 0,
        d.len() > a.max,
    ensures
        (h[1] as int) % 4 >= 2 ==> (a.frame_of(h + d) matches Some(frame) && frame.len() == 0),
        (h[1] as int) % 4 < 2 ==> a.frame_of(h + d) is None,
        a.after_chunk(h + d).buf.len() == 0,
        a.after_chunk(h + d).last_fid == Some((h[1] as int) % 2 == 1),
{
    law_data_stand_behind_the_header(h, d);
}

} // verus!
