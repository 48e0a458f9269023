//! The course of a USB session on Android: which devices are taken, and what
//! the user is told meanwhile.

use crate::camera::{PRODUCT_ID, VENDOR_ID};
use crate::protocol::Negotiated;
use crate::text::{
    decimal, hex2, hex4, push_decimal, push_hex2, push_hex4, push_signed, signed_decimal,
};
use std::collections::VecDeque;
use vstd::prelude::*;

verus! {

/// Maximum number of lines kept for the on-screen log.
pub const MAX_LINES: usize = 16;

/// A log after another line: the oldest line leaves a full log.
pub open spec fn logged(lines: Seq<Seq<char>>, line: Seq<char>) -> Seq<Seq<char>> {
    if lines.len() >= MAX_LINES {
        lines.skip(1).push(line)
    } else {
        lines.push(line)
    }
}

/// A log after a number of lines.
pub open spec fn logged_all(lines: Seq<Seq<char>>, new: Seq<Seq<char>>) -> Seq<Seq<char>>
    decreases new.len(),
{
    if new.len() == 0 {
        lines
    } else {
        logged(logged_all(lines, new.drop_last()), new.last())
    }
}

/// The lines of a log in one text. A line break stands before each line but
/// where no text precedes it.
pub open spec fn rendered(lines: Seq<Seq<char>>) -> Seq<char>
    decreases lines.len(),
{
    if lines.len() == 0 {
        Seq::empty()
    } else {
        let before = rendered(lines.drop_last());
        if before.len() == 0 {
            lines.last()
        } else {
            before + "\n"@ + lines.last()
        }
    }
}

/// Bounded ring buffer of log lines that are shown on screen.
#[derive(Debug)]
pub struct DebugLog {
    lines: VecDeque<String>,
}

impl View for DebugLog {
    type V = Seq<Seq<char>>;

    closed spec fn view(&self) -> Seq<Seq<char>> {
        self.lines@.map_values(|s: String| s@)
    }
}

impl DebugLog {
    /// The log is no longer than its maximum.
    pub open spec fn wf(&self) -> bool {
        self@.len() <= MAX_LINES
    }

    /// An empty log.
    pub fn new() -> (r: DebugLog)
        ensures
            r.wf(),
            r@ == Seq::<Seq<char>>::empty(),
    {
        let r = DebugLog { lines: VecDeque::new() };
        assert(r@ =~= Seq::empty());
        r
    }

    /// Adds a line. The oldest line leaves a full log.
    pub fn push(&mut self, line: String)
        requires
            old(self).wf(),
        ensures
            final(self).wf(),
            final(self)@ == logged(old(self)@, line@),
    {
        if self.lines.len() >= MAX_LINES {
            self.lines.pop_front();
        }
        self.lines.push_back(line);
        assert(self@ =~= logged(old(self)@, line@));
    }

    /// The lines in one text.
    pub fn render(&self) -> (r: String)
        ensures
            r@ == rendered(self@),
    {
        let mut out = String::new();
        let mut i: usize = 0;
        assert(self@.take(0) =~= Seq::empty());
        while i < self.lines.len()
            invariant
                i <= self@.len() == self.lines@.len(),
                out@ == rendered(self@.take(i as int)),
            decreases self.lines.len() - i,
        {
            let line = &self.lines[i];
            proof {
                assert(self@[i as int] == line@);
                assert(self@.take(i + 1).drop_last() =~= self@.take(i as int));
            }
            if out.as_str().unicode_len() != 0 {
                out.append("\n");
            } else {
                assert(out@ + line@ =~= line@);
            }
            out.append(line.as_str());
            i += 1;
        }
        assert(self@.take(i as int) =~= self@);
        out
    }
}

/// The log holds the latest lines, in order: all of them, or as many as fit.
pub proof fn law_log_keeps_the_latest(new: Seq<Seq<char>>)
    ensures
        logged_all(Seq::empty(), new) == if new.len() > MAX_LINES {
            new.skip(new.len() - MAX_LINES)
        } else {
            new
        },
    decreases new.len(),
{
    if new.len() > 0 {
        law_log_keeps_the_latest(new.drop_last());
        let kept = logged_all(Seq::empty(), new);
        if new.len() > MAX_LINES {
            assert(kept =~= new.skip(new.len() - MAX_LINES));
        } else {
            assert(kept =~= new);
        }
    } else {
        assert(logged_all(Seq::empty(), new) =~= new);
    }
}

/// What is shown while no camera is there.
pub open spec fn waiting_text(log: Seq<Seq<char>>) -> Seq<char> {
    "Waiting for the P2Pro to be plugged in ...\nGrant the USB and camera permission popups when they appear.\n\n"@
        + rendered(log)
}

/// What is shown while no camera is there.
pub fn waiting_message(log: &DebugLog) -> (r: String)
    ensures
        r@ == waiting_text(log@),
{
    let mut r =
        "Waiting for the P2Pro to be plugged in ...\nGrant the USB and camera permission popups when they appear.\n\n".to_owned();
    r.append(log.render().as_str());
    r
}

/// An event handed over from the Android activity.
#[derive(Debug)]
pub enum UsbEvent {
    /// A USB device was opened with the user's permission.
    DeviceReady { fd: i32, vendor_id: u16, product_id: u16, token: i64 },
    /// A human-readable log line to be shown on screen.
    Log(String),
}

/// What to do after an event.
#[derive(Debug, Clone, Copy, PartialEq, Eq, Structural)]
pub enum SessionAction {
    /// Show [`waiting_message`] and wait for the next event.
    Wait,
    /// Show [`waiting_message`] and run a session on the opened device; if
    /// it fails, show [`session_failed`], and wait a second.
    Run { fd: i32, token: i64 },
}

/// The log line for an opened device.
pub open spec fn received_line(fd: i32, vendor_id: u16, product_id: u16) -> Seq<char> {
    "Rust: received fd "@ + signed_decimal(fd as int) + " for "@ + hex4(vendor_id, false) + ":"@
        + hex4(product_id, false)
}

/// The log line for a device that is not the camera.
pub open spec fn ignored_line() -> Seq<char> {
    "Not a P2Pro (expected "@ + hex4(VENDOR_ID, false) + ":"@ + hex4(PRODUCT_ID, false)
        + "); ignoring fd"@
}

/// The device is a P2Pro.
pub open spec fn is_p2pro(vendor_id: u16, product_id: u16) -> bool {
    vendor_id == VENDOR_ID && product_id == PRODUCT_ID
}

/// The log lines for an event.
pub open spec fn event_lines(event: UsbEvent) -> Seq<Seq<char>> {
    match event {
        UsbEvent::Log(line) => seq![line@],
        UsbEvent::DeviceReady { fd, vendor_id, product_id, token } => {
            let received = received_line(fd, vendor_id, product_id);
            if is_p2pro(vendor_id, product_id) {
                seq![received]
            } else {
                seq![received, ignored_line()]
            }
        },
    }
}

/// What is done after an event.
pub open spec fn event_action(event: UsbEvent) -> SessionAction {
    match event {
        UsbEvent::DeviceReady { fd, vendor_id, product_id, token } if is_p2pro(
            vendor_id,
            product_id,
        ) => SessionAction::Run { fd, token },
        _ => SessionAction::Wait,
    }
}

/// What comes of an event.
#[derive(Debug)]
pub struct EventOutcome {
    pub action: SessionAction,
    /// The lines that were added to the log, to be echoed to the console.
    pub lines: Vec<String>,
}

/// Takes note of an event. A session is run on a device that is a P2Pro, and
/// on no other.
pub fn handle_event(log: &mut DebugLog, event: UsbEvent) -> (r: EventOutcome)
    requires
        old(log).wf(),
    ensures
        final(log).wf(),
        final(log)@ == logged_all(old(log)@, event_lines(event)),
        r.lines@.map_values(|s: String| s@) == event_lines(event),
        r.action == event_action(event),
{
    let mut lines: Vec<String> = Vec::new();
    let action = match event {
        UsbEvent::Log(line) => {
            lines.push(line);
            SessionAction::Wait
        },
        UsbEvent::DeviceReady { fd, vendor_id, product_id, token } => {
            let mut received = "Rust: received fd ".to_owned();
            push_signed(&mut received, fd);
            received.append(" for ");
            push_hex4(&mut received, vendor_id, false);
            received.append(":");
            push_hex4(&mut received, product_id, false);
            lines.push(received);
            if vendor_id != VENDOR_ID || product_id != PRODUCT_ID {
                let mut ignored = "Not a P2Pro (expected ".to_owned();
                push_hex4(&mut ignored, VENDOR_ID, false);
                ignored.append(":");
                push_hex4(&mut ignored, PRODUCT_ID, false);
                ignored.append("); ignoring fd");
                lines.push(ignored);
                SessionAction::Wait
            } else {
                SessionAction::Run { fd, token }
            }
        },
    };
    let ghost texts = lines@.map_values(|s: String| s@);
    assert(texts =~= event_lines(event));
    let mut i: usize = 0;
    assert(texts.take(0) =~= Seq::empty());
    while i < lines.len()
        invariant
            log.wf(),
            i <= lines@.len(),
            texts == lines@.map_values(|s: String| s@),
            log@ == logged_all(old(log)@, texts.take(i as int)),
        decreases lines.len() - i,
    {
        assert(texts.take(i + 1).drop_last() =~= texts.take(i as int));
        assert(texts.take(i + 1).last() == lines@[i as int]@);
        log.push(lines[i].clone());
        i += 1;
    }
    assert(texts.take(i as int) =~= texts);
    EventOutcome { action, lines }
}

/// What comes of a failed session.
#[derive(Debug)]
pub struct FailureNotice {
    /// The line that was added to the log, to be echoed to the console.
    pub line: String,
    /// What is shown.
    pub message: String,
}

/// Takes note of a failed session and says what is shown for it.
pub fn session_failed(log: &mut DebugLog, error: &str) -> (r: FailureNotice)
    requires
        old(log).wf(),
    ensures
        final(log).wf(),
        final(log)@ == logged(old(log)@, r.line@),
        r.line@ == "Session error: "@ + error@,
        r.message@ == error@ + "\nRetrying ...\n\n"@ + rendered(final(log)@),
{
    let mut line = "Session error: ".to_owned();
    line.append(error);
    log.push(line.clone());
    let mut message = error.to_owned();
    message.append("\nRetrying ...\n\n");
    message.append(log.render().as_str());
    FailureNotice { line, message }
}

/// What is shown once a stream is negotiated.
pub fn negotiated_message(n: &Negotiated) -> (r: String)
    ensures
        r@ == "UVC negotiated: "@ + n.transfer_type.spec_name() + " endpoint 0x"@ + hex2(
            n.endpoint,
            false,
        ) + " ("@ + decimal(n.max_payload_transfer_size as nat)
            + " bytes/payload)\nWaiting for frames ..."@,
{
    let mut r = "UVC negotiated: ".to_owned();
    r.append(n.transfer_type.name());
    r.append(" endpoint 0x");
    push_hex2(&mut r, n.endpoint, false);
    r.append(" (");
    push_decimal(&mut r, n.max_payload_transfer_size as u64);
    r.append(" bytes/payload)\nWaiting for frames ...");
    r
}

/// The log as one text: a line is put behind what is there, with a line break
/// between if there is anything.
pub proof fn law_log_text_grows_by_lines(lines: Seq<Seq<char>>, line: Seq<char>)
    ensures
        rendered(Seq::empty()).len() == 0,
        rendered(lines).len() == 0 ==> rendered(lines.push(line)) == line,
        rendered(lines).len() > 0 ==> rendered(lines.push(line)) == rendered(lines).push('\n')
            + line,
{
    reveal_strlit("\n");
    assert(lines.push(line).drop_last() =~= lines);
    assert(rendered(lines) + "\n"@ + line =~= rendered(lines).push('\n') + line);
}

/// A session is run on the P2Pro, 0bda:5830, with the descriptor and the token
/// that came with it, and on no other device; a log line runs none.
pub proof fn law_sessions_are_for_the_camera(
    fd: i32,
    vendor_id: u16,
    product_id: u16,
    token: i64,
    line: String,
)
    ensures
        event_action(UsbEvent::DeviceReady { fd, vendor_id, product_id, token }) == if vendor_id
            == 3034 && product_id == 22576 {
            SessionAction::Run { fd, token }
        } else {
            SessionAction::Wait
        },
        event_action(UsbEvent::Log(line)) == SessionAction::Wait,
        event_lines(UsbEvent::Log(line)) == seq![line@],
{
}

/// A device is logged with its descriptor and its IDs, and once more if it is
/// not the camera.
pub proof fn law_devices_are_logged(fd: i32, vendor_id: u16, product_id: u16, token: i64)
    ensures
        ({
            let lines = event_lines(UsbEvent::DeviceReady { fd, vendor_id, product_id, token });
            &&& lines.len() >= 1
            &&& lines[0] == "Rust: received fd "@ + signed_decimal(fd as int) + " for "@ + hex4(
                vendor_id,
                false,
            ) + ":"@ + hex4(product_id, false)
            &&& vendor_id == 3034 && product_id == 22576 <==> lines.len() == 1
            &&& lines.len() > 1 ==> lines.len() == 2 && lines[1] == "Not a P2Pro (expected "@
                + hex4(3034, false) + ":"@ + hex4(22576, false) + "); ignoring fd"@
        }),
{
}

/// While no camera is there, the log is shown behind the prompt.
pub proof fn law_waiting_text(log: Seq<Seq<char>>)
    ensures
        waiting_text(log)
            == "Waiting for the P2Pro to be plugged in ...\nGrant the USB and camera permission popups when they appear.\n\n"@
            + rendered(log),
{
}

} // verus!
