//! Finding the camera among the video devices of a Linux desktop.

use crate::camera::{HEIGHT, PRODUCT_ID, VENDOR_ID, WIDTH};
use crate::text::{decimal, digit_char, hex4, is_space, push_decimal, push_hex4, trim, trimmed};
use vstd::prelude::*;

verus! {

/// The value of a digit, in upper or lower case.
pub open spec fn digit_value(c: char) -> Option<int> {
    if '0' <= c && c <= '9' {
        Some(c as u32 - 0x30)
    } else if 'a' <= c && c <= 'z' {
        Some(c as u32 - 0x61 + 10)
    } else if 'A' <= c && c <= 'Z' {
        Some(c as u32 - 0x41 + 10)
    } else {
        None
    }
}

/// The value of a sequence of digits; `None` if there is something else in it.
pub open spec fn digits_value(s: Seq<char>, radix: int) -> Option<int>
    decreases s.len(),
{
    if s.len() == 0 {
        Some(0)
    } else {
        match (digits_value(s.drop_last(), radix), digit_value(s.last())) {
            (Some(v), Some(d)) if d < radix => Some(v * radix + d),
            _ => None,
        }
    }
}

/// The value of a numeral up to `max`: digits, with or without a plus sign,
/// and white space around.
pub open spec fn numeral_value(text: Seq<char>, radix: int, max: int) -> Option<int> {
    let s = trimmed(text);
    let digits = if s.len() > 0 && s[0] == '+' {
        s.skip(1)
    } else {
        s
    };
    match digits_value(digits, radix) {
        Some(v) if digits.len() > 0 && v <= max => Some(v),
        _ => None,
    }
}

fn digit(c: char) -> (r: Option<u32>)
    ensures
        match digit_value(c) {
            Some(v) => r matches Some(d) && d == v && d < 36,
            None => r is None,
        },
{
    if '0' <= c && c <= '9' {
        Some(c as u32 - 0x30)
    } else if 'a' <= c && c <= 'z' {
        Some(c as u32 - 0x61 + 10)
    } else if 'A' <= c && c <= 'Z' {
        Some(c as u32 - 0x41 + 10)
    } else {
        None
    }
}

proof fn lemma_digits_grow(s: Seq<char>, k: int, radix: int)
    requires
        0 <= k <= s.len(),
        radix >= 1,
    ensures
        digits_value(s, radix) matches Some(v) ==> (digits_value(s.take(k), radix) matches Some(u)
            && 0 <= u <= v),
    decreases s.len(),
{
    if k < s.len() {
        lemma_digits_grow(s.drop_last(), k, radix);
        assert(s.drop_last().take(k) =~= s.take(k));
        if digits_value(s, radix) is Some {
            let w = digits_value(s.drop_last(), radix)->0;
            assert(w <= w * radix) by (nonlinear_arith)
                requires
                    w >= 0,
                    radix >= 1,
            ;
        }
    } else {
        assert(s.take(k) =~= s);
        if s.len() > 0 {
            lemma_digits_grow(s.drop_last(), s.len() - 1, radix);
            if digits_value(s, radix) is Some {
                let w = digits_value(s.drop_last(), radix)->0;
                assert(0 <= w * radix) by (nonlinear_arith)
                    requires
                        w >= 0,
                        radix >= 1,
                ;
            }
        }
    }
}

/// Reads a numeral: digits of the given radix, with or without a plus sign,
/// and white space around. `None` for anything else, and for a value beyond
/// `max`.
pub fn parse_numeral(text: &str, radix: u32, max: u32) -> (r: Option<u32>)
    requires
        2 <= radix <= 36,
    ensures
        match numeral_value(text@, radix as int, max as int) {
            Some(v) => r matches Some(n) && n == v,
            None => r is None,
        },
{
    let body = trim(text);
    let end: usize = body.unicode_len();
    let mut start: usize = 0;
    if end > 0 && body.get_char(0) == '+' {
        start = 1;
    }
    let ghost digits = body@.subrange(start as int, end as int);
    assert(digits =~= body@.skip(start as int));
    assert(body@.skip(0) =~= body@);
    if start == end {
        return None;
    }
    let mut value: u64 = 0;
    let mut i: usize = start;
    assert(digits.take(0) =~= Seq::empty());
    while i < end
        invariant
            2 <= radix <= 36,
            start <= i <= end <= body@.len(),
            digits == body@.subrange(start as int, end as int),
            numeral_value(text@, radix as int, max as int) == (match digits_value(
                digits,
                radix as int,
            ) {
                Some(v) if v <= max => Some(v),
                _ => None,
            }),
            value <= max,
            digits_value(digits.take(i - start), radix as int) == Some(value as int),
        decreases end - i,
    {
        let ghost next = digits.take(i - start + 1);
        proof {
            assert(next.drop_last() =~= digits.take(i - start));
            assert(next.last() == body@[i as int]);
            lemma_digits_grow(digits, i - start + 1, radix as int);
            assert(0 <= value * radix <= 0xFFFF_FFFF * 36) by (nonlinear_arith)
                requires
                    0 <= value <= 0xFFFF_FFFF,
                    0 <= radix <= 36,
            ;
        }
        match digit(body.get_char(i)) {
            Some(d) => {
                if d >= radix {
                    return None;
                }
                value = value * radix as u64 + d as u64;
                if value > max as u64 {
                    return None;
                }
            },
            None => {
                return None;
            },
        }
        i += 1;
    }
    assert(digits.take(i - start) =~= digits);
    Some(value as u32)
}

/// Why a device was not taken for the camera.
#[derive(Debug, Clone, Copy, PartialEq, Eq, Structural)]
pub enum DeviceError {
    IdVendor,
    IdProduct,
    BusNum,
    DevNum,
    /// Another device.
    NotP2Pro { vendor_id: u16, product_id: u16 },
    /// There is no such device on the bus.
    NotFound { bus: u8, address: u8 },
}

impl DeviceError {
    /// The text shown to the user.
    pub open spec fn text(self) -> Seq<char> {
        match self {
            DeviceError::IdVendor => "Failed to parse idVendor"@,
            DeviceError::IdProduct => "Failed to parse idProduct"@,
            DeviceError::BusNum => "Failed to parse busnum"@,
            DeviceError::DevNum => "Failed to parse devnum"@,
            DeviceError::NotP2Pro { vendor_id, product_id } => "Device "@ + hex4(vendor_id, false)
                + ":"@ + hex4(product_id, false) + " is not a P2Pro device (expected "@ + hex4(
                VENDOR_ID,
                false,
            ) + ":"@ + hex4(PRODUCT_ID, false) + ")"@,
            DeviceError::NotFound { bus, address } => "USB device "@ + decimal(bus as nat) + ":"@
                + decimal(address as nat) + " not found."@,
        }
    }

    /// The text shown to the user.
    pub fn message(self) -> (r: String)
        ensures
            r@ == self.text(),
    {
        match self {
            DeviceError::IdVendor => "Failed to parse idVendor".to_owned(),
            DeviceError::IdProduct => "Failed to parse idProduct".to_owned(),
            DeviceError::BusNum => "Failed to parse busnum".to_owned(),
            DeviceError::DevNum => "Failed to parse devnum".to_owned(),
            DeviceError::NotP2Pro { vendor_id, product_id } => {
                let mut r = "Device ".to_owned();
                push_hex4(&mut r, vendor_id, false);
                r.append(":");
                push_hex4(&mut r, product_id, false);
                r.append(" is not a P2Pro device (expected ");
                push_hex4(&mut r, VENDOR_ID, false);
                r.append(":");
                push_hex4(&mut r, PRODUCT_ID, false);
                r.append(")");
                r
            },
            DeviceError::NotFound { bus, address } => {
                let mut r = "USB device ".to_owned();
                push_decimal(&mut r, bus as u64);
                r.append(":");
                push_decimal(&mut r, address as u64);
                r.append(" not found.");
                r
            },
        }
    }
}

/// Where a device sits on the USB.
#[derive(Debug, Clone, Copy, PartialEq, Eq, Structural)]
pub struct UsbAddress {
    pub bus: u8,
    pub address: u8,
}

/// What the texts of a device's `idVendor`, `idProduct`, `busnum` and
/// `devnum` attributes say: where the camera sits, or why it is not the
/// camera. The first text that is no numeral decides.
pub open spec fn identified(
    id_vendor: Seq<char>,
    id_product: Seq<char>,
    busnum: Seq<char>,
    devnum: Seq<char>,
) -> Result<UsbAddress, DeviceError> {
    match (
        numeral_value(id_vendor, 16, 0xFFFF),
        numeral_value(id_product, 16, 0xFFFF),
        numeral_value(busnum, 10, 0xFF),
        numeral_value(devnum, 10, 0xFF),
    ) {
        (None, _, _, _) => Err(DeviceError::IdVendor),
        (_, None, _, _) => Err(DeviceError::IdProduct),
        (_, _, None, _) => Err(DeviceError::BusNum),
        (_, _, _, None) => Err(DeviceError::DevNum),
        (Some(vendor), Some(product), Some(bus), Some(address)) => if vendor == VENDOR_ID
            && product == PRODUCT_ID {
            Ok(UsbAddress { bus: bus as u8, address: address as u8 })
        } else {
            Err(
                DeviceError::NotP2Pro { vendor_id: vendor as u16, product_id: product as u16 },
            )
        },
    }
}

proof fn lemma_digit(d: int, upper: bool)
    requires
        0 <= d < 16,
    ensures
        digit_value(digit_char(d, upper)) == Some(d),
        !is_space(digit_char(d, upper)),
        digit_char(d, upper) != '+',
{
    assert(d == 0 || d == 1 || d == 2 || d == 3 || d == 4 || d == 5 || d == 6 || d == 7 || d == 8
        || d == 9 || d == 10 || d == 11 || d == 12 || d == 13 || d == 14 || d == 15);
}

/// A text consists of digits, and has one.
spec fn is_bare_numeral(s: Seq<char>) -> bool {
    &&& s.len() > 0
    &&& forall|i: int|
        0 <= i < s.len() ==> !is_space(#[trigger] s[i]) && digit_value(s[i]) is Some && s[i] != '+'
}

proof fn lemma_decimal(n: nat)
    ensures
        is_bare_numeral(decimal(n)),
        digits_value(decimal(n), 10) == Some(n as int),
    decreases n,
{
    let s = decimal(n);
    lemma_digit((n % 10) as int, false);
    assert(digits_value(Seq::empty(), 10) == Some(0int));
    if n < 10 {
        assert(s.drop_last() =~= Seq::empty());
    } else {
        lemma_decimal(n / 10);
        assert(s.drop_last() =~= decimal(n / 10));
    }
}

proof fn lemma_hex4(n: u16, upper: bool)
    ensures
        is_bare_numeral(hex4(n, upper)),
        digits_value(hex4(n, upper), 16) == Some(n as int),
{
    let high = (n / 256) as u8;
    let low = (n % 256) as u8;
    let s = hex4(n, upper);
    lemma_digit((high / 16) as int, upper);
    lemma_digit((high % 16) as int, upper);
    lemma_digit((low / 16) as int, upper);
    lemma_digit((low % 16) as int, upper);
    assert(s.take(0) =~= Seq::empty());
    assert(digits_value(s.take(0), 16) == Some(0int));
    assert(s.take(1).drop_last() =~= s.take(0));
    assert(digits_value(s.take(1), 16) == Some((high / 16) as int));
    assert(s.take(2).drop_last() =~= s.take(1));
    assert(digits_value(s.take(2), 16) == Some(high as int));
    assert(s.take(3).drop_last() =~= s.take(2));
    assert(digits_value(s.take(3), 16) == Some(high * 16 + low / 16));
    assert(s.take(4).drop_last() =~= s.take(3));
    assert(s.take(4) =~= s);
}

proof fn lemma_numeral_line(s: Seq<char>, radix: int, max: int)
    requires
        is_bare_numeral(s),
    ensures
        numeral_value(s.push('\n'), radix, max) == (match digits_value(s, radix) {
            Some(v) if v <= max => Some(v),
            _ => None,
        }),
{
    let line = s.push('\n');
    assert(line.first() == s[0]);
    assert(line.drop_last() =~= s);
    assert(!is_space(s.first()) && !is_space(s.last())) by {
        assert(!is_space(s[0]) && !is_space(s[s.len() - 1]));
    }
    assert(trimmed(s) == s);
    assert(line.last() == '\n' && is_space('\n'));
    assert(trimmed(line) == trimmed(line.drop_last()));
}

/// A device is recognised by the attributes as the kernel prints them: the
/// IDs as four hexadecimal digits, the numbers in decimal, each on a line.
pub proof fn law_printed_attributes_identify(vendor_id: u16, product_id: u16, bus: u8, address: u8)
    ensures
        identified(
            hex4(vendor_id, false).push('\n'),
            hex4(product_id, false).push('\n'),
            decimal(bus as nat).push('\n'),
            decimal(address as nat).push('\n'),
        ) == if vendor_id == VENDOR_ID && product_id == PRODUCT_ID {
            Ok(UsbAddress { bus, address })
        } else {
            Err(DeviceError::NotP2Pro { vendor_id, product_id })
        },
{
    lemma_hex4(vendor_id, false);
    lemma_hex4(product_id, false);
    lemma_decimal(bus as nat);
    lemma_decimal(address as nat);
    lemma_numeral_line(hex4(vendor_id, false), 16, 0xFFFF);
    lemma_numeral_line(hex4(product_id, false), 16, 0xFFFF);
    lemma_numeral_line(decimal(bus as nat), 10, 0xFF);
    lemma_numeral_line(decimal(address as nat), 10, 0xFF);
}

/// Tells from the texts of a device's `idVendor`, `idProduct`, `busnum` and
/// `devnum` attributes whether it is the camera, and where it sits.
pub fn identify(id_vendor: &str, id_product: &str, busnum: &str, devnum: &str) -> (r: Result<
    UsbAddress,
    DeviceError,
>)
    ensures
        r == identified(id_vendor@, id_product@, busnum@, devnum@),
{
    let vendor: u32 = match parse_numeral(id_vendor, 16, 0xFFFF) {
        Some(n) => n,
        None => return Err(DeviceError::IdVendor),
    };
    let product: u32 = match parse_numeral(id_product, 16, 0xFFFF) {
        Some(n) => n,
        None => return Err(DeviceError::IdProduct),
    };
    let bus: u32 = match parse_numeral(busnum, 10, 0xFF) {
        Some(n) => n,
        None => return Err(DeviceError::BusNum),
    };
    let address: u32 = match parse_numeral(devnum, 10, 0xFF) {
        Some(n) => n,
        None => return Err(DeviceError::DevNum),
    };
    if vendor != VENDOR_ID as u32 || product != PRODUCT_ID as u32 {
        return Err(
            DeviceError::NotP2Pro { vendor_id: vendor as u16, product_id: product as u16 },
        );
    }
    Ok(UsbAddress { bus: bus as u8, address: address as u8 })
}

/// The place of the first device with the given address in the list of the
/// devices on the USB.
pub fn find_usb_device(devices: &[UsbAddress], wanted: UsbAddress) -> (r: Result<
    usize,
    DeviceError,
>)
    ensures
        match r {
            Ok(i) => i < devices@.len() && devices@[i as int] == wanted && forall|j: int|
                0 <= j < i ==> devices@[j] != wanted,
            Err(e) => e == (DeviceError::NotFound { bus: wanted.bus, address: wanted.address })
                && forall|j: int| 0 <= j < devices@.len() ==> devices@[j] != wanted,
        },
{
    let mut i: usize = 0;
    while i < devices.len()
        invariant
            i <= devices@.len(),
            forall|j: int| 0 <= j < i ==> devices@[j] != wanted,
        decreases devices.len() - i,
    {
        if devices[i].bus == wanted.bus && devices[i].address == wanted.address {
            return Ok(i);
        }
        i += 1;
    }
    Err(DeviceError::NotFound { bus: wanted.bus, address: wanted.address })
}

/// Whether an entry of `/dev` is a video device, by its name.
pub fn is_video_node(name: &str) -> (r: bool)
    ensures
        r == ("video"@.is_prefix_of(name@)),
{
    proof {
        reveal_strlit("video");
    }
    if name.unicode_len() < 5 {
        return false;
    }
    let r = name.get_char(0) == 'v' && name.get_char(1) == 'i' && name.get_char(2) == 'd'
        && name.get_char(3) == 'e' && name.get_char(4) == 'o';
    proof {
        let head = name@.subrange(0, 5);
        if r {
            assert(head =~= "video"@);
        } else if head == "video"@ {
            assert(head[0] == 'v' && head[1] == 'i' && head[2] == 'd' && head[3] == 'e' && head[4]
                == 'o');
        }
    }
    r
}

/// A picture format as a video device reports it.
#[derive(Debug, Clone, Copy, PartialEq, Eq)]
pub struct PixelFormat {
    pub width: u32,
    pub height: u32,
    pub fourcc: [u8; 4],
}

/// The format is the camera's: YUYV at the size of a raw frame.
pub open spec fn is_camera_format(format: PixelFormat) -> bool {
    &&& format.width == WIDTH
    &&& format.height == 2 * HEIGHT
    &&& format.fourcc@ == seq![0x59u8, 0x55, 0x59, 0x56]
}

/// The format that the camera is asked for.
pub fn requested_format() -> (r: PixelFormat)
    ensures
        is_camera_format(r),
{
    let fourcc = [0x59u8, 0x55, 0x59, 0x56];
    assert(fourcc@ =~= seq![0x59u8, 0x55, 0x59, 0x56]);
    PixelFormat { width: WIDTH, height: 2 * HEIGHT, fourcc }
}

/// Accepts the format that a device has chosen if it is the one asked for;
/// otherwise gives the error text. `fourcc_text` is the text of the format's
/// FourCC.
pub fn check_format(format: PixelFormat, fourcc_text: &str) -> (r: Result<(), String>)
    ensures
        r is Ok <==> is_camera_format(format),
        r matches Err(e) ==> e@ == "Camera reported an unexpected format "@ + decimal(
            format.width as nat,
        ) + "x"@ + decimal(format.height as nat) + "/"@ + fourcc_text@
            + " (wanted 256x384/YUYV)"@,
{
    let f = format.fourcc;
    let same = f[0] == 0x59 && f[1] == 0x55 && f[2] == 0x59 && f[3] == 0x56;
    proof {
        let yuyv = seq![0x59u8, 0x55, 0x59, 0x56];
        if same {
            assert(f@ =~= yuyv);
        } else if f@ == yuyv {
            assert(f@[0] == yuyv[0] && f@[1] == yuyv[1] && f@[2] == yuyv[2] && f@[3] == yuyv[3]);
        }
    }
    if format.width == WIDTH && format.height == 2 * HEIGHT && same {
        return Ok(());
    }
    let mut e = "Camera reported an unexpected format ".to_owned();
    push_decimal(&mut e, format.width as u64);
    e.append("x");
    push_decimal(&mut e, format.height as u64);
    e.append("/");
    e.append(fourcc_text);
    e.append(" (wanted 256x384/YUYV)");
    Err(e)
}

/// What to do in a capture loop.
#[derive(Debug, Clone, Copy, PartialEq, Eq, Structural)]
pub enum CaptureStep {
    /// Open the device that the user named.
    Open,
    /// Look for the camera among all devices.
    Probe,
    /// Read frames from the camera.
    Run,
    /// Wait a second.
    Pause,
}

/// How a step of a capture loop ended.
#[derive(Debug, Clone, Copy, PartialEq, Eq, Structural)]
pub enum StepOutcome {
    Done,
    /// The camera is not there.
    NotFound,
    /// Something went wrong; there is an error to show.
    Failed,
}

/// The step with which a capture loop begins, and to which it comes back.
pub open spec fn connect_step(device_named: bool) -> CaptureStep {
    if device_named {
        CaptureStep::Open
    } else {
        CaptureStep::Probe
    }
}

/// The step after `step`: frames are read once the camera is open; whatever
/// else happens, there is a pause before connecting again.
pub open spec fn step_after(
    device_named: bool,
    step: CaptureStep,
    outcome: StepOutcome,
) -> CaptureStep {
    match (step, outcome) {
        (CaptureStep::Open, StepOutcome::Done) => CaptureStep::Run,
        (CaptureStep::Probe, StepOutcome::Done) => CaptureStep::Run,
        (CaptureStep::Pause, _) => connect_step(device_named),
        _ => CaptureStep::Pause,
    }
}

/// The step after a number of outcomes.
pub open spec fn step_after_all(device_named: bool, outcomes: Seq<StepOutcome>) -> CaptureStep
    decreases outcomes.len(),
{
    if outcomes.len() == 0 {
        connect_step(device_named)
    } else {
        step_after(
            device_named,
            step_after_all(device_named, outcomes.drop_last()),
            outcomes.last(),
        )
    }
}

/// A capture loop runs forever and retries on error: whatever has happened,
/// a step that fails is followed by a pause, and a pause by connecting again,
/// in the way that the user chose at the start.
pub proof fn law_capture_is_retried_forever(
    device_named: bool,
    outcomes: Seq<StepOutcome>,
    then: StepOutcome,
)
    ensures
        ({
            let step = step_after_all(device_named, outcomes);
            let next = step_after(device_named, step, StepOutcome::Failed);
            &&& step is Open ==> device_named
            &&& step is Probe ==> !device_named
            &&& !(step is Pause) ==> next is Pause
            &&& step is Pause ==> step_after(device_named, step, then) == connect_step(
                device_named,
            )
            &&& !(step is Pause) ==> step_after(device_named, next, then) == connect_step(
                device_named,
            )
        }),
    decreases outcomes.len(),
{
    if outcomes.len() > 0 {
        law_capture_is_retried_forever(device_named, outcomes.drop_last(), then);
    }
}

/// The first step of a capture loop: the device that the user named is
/// opened; without a name the camera is looked for.
pub fn first_step(device_named: bool) -> (r: CaptureStep)
    ensures
        r == connect_step(device_named),
{
    if device_named {
        CaptureStep::Open
    } else {
        CaptureStep::Probe
    }
}

/// The step after `step`. What fails is tried again after a pause, and so is
/// a look for a camera that is not there.
pub fn next_step(device_named: bool, step: CaptureStep, outcome: StepOutcome) -> (r: CaptureStep)
    ensures
        r == step_after(device_named, step, outcome),
{
    match (step, outcome) {
        (CaptureStep::Open, StepOutcome::Done) => CaptureStep::Run,
        (CaptureStep::Probe, StepOutcome::Done) => CaptureStep::Run,
        (CaptureStep::Pause, _) => first_step(device_named),
        _ => CaptureStep::Pause,
    }
}

/// What is shown when a step of a capture loop failed.
pub open spec fn failure_text(step: CaptureStep, path: Seq<char>, error: Seq<char>) -> Seq<char> {
    match step {
        CaptureStep::Open => "Error opening camera "@ + path + ":\n"@ + error + "\nRetrying ..."@,
        CaptureStep::Probe => "Error probing for P2Pro device:\n"@ + error + "\nRetrying ..."@,
        _ => path + ":\n"@ + error + "\nRetrying ..."@,
    }
}

/// What is shown when a step of a capture loop failed.
pub fn failure_message(step: CaptureStep, path: &str, error: &str) -> (r: String)
    ensures
        r@ == failure_text(step, path@, error@),
{
    match step {
        CaptureStep::Open => {
            let mut r = "Error opening camera ".to_owned();
            r.append(path);
            r.append(":\n");
            r.append(error);
            r.append("\nRetrying ...");
            r
        },
        CaptureStep::Probe => {
            let mut r = "Error probing for P2Pro device:\n".to_owned();
            r.append(error);
            r.append("\nRetrying ...");
            r
        },
        _ => {
            let mut r = path.to_owned();
            r.append(":\n");
            r.append(error);
            r.append("\nRetrying ...");
            r
        },
    }
}

/// What is shown after a step of a capture loop: an error for each failure,
/// and nothing otherwise.
pub fn step_report(step: CaptureStep, outcome: StepOutcome, path: &str, error: &str) -> (r: Option<
    String,
>)
    ensures
        r is Some <==> outcome == StepOutcome::Failed,
        r matches Some(text) ==> text@ == failure_text(step, path@, error@),
{
    match outcome {
        StepOutcome::Failed => Some(failure_message(step, path, error)),
        _ => None,
    }
}

/// The digits beyond nine are the letters, in either case.
pub proof fn law_digit_values(c: char)
    ensures
        digit_value(c) == {
            let n = c as u32;
            if 48 <= n <= 57 {
                Some(n - 48)
            } else if 65 <= n <= 90 {
                Some(n - 55)
            } else if 97 <= n <= 122 {
                Some(n - 87)
            } else {
                None
            }
        },
{
}

/// A numeral is read digit by digit: one more digit makes the value so far
/// count `radix` times, plus the digit. What is no digit of the radix spoils
/// the numeral.
pub proof fn law_numeral_is_read_digit_by_digit(s: Seq<char>, c: char, radix: int)
    ensures
        digits_value(Seq::empty(), radix) == Some(0int),
        digits_value(s.push(c), radix) == match (digits_value(s, radix), digit_value(c)) {
            (Some(v), Some(d)) => if d < radix {
                Some(v * radix + d)
            } else {
                None
            },
            _ => None,
        },
{
    assert(s.push(c).drop_last() =~= s);
}

/// A numeral is read with or without a plus sign, whatever white space is
/// around it; it needs a digit, and its value must not exceed the maximum.
pub proof fn law_numerals_are_accepted(
    before: Seq<char>,
    digits: Seq<char>,
    after: Seq<char>,
    radix: int,
    max: int,
)
    requires
        forall|i: int| 0 <= i < before.len() ==> is_space(#[trigger] before[i]),
        forall|i: int| 0 <= i < after.len() ==> is_space(#[trigger] after[i]),
        digits.len() > 0,
        !is_space(digits.first()),
        !is_space(digits.last()),
        digits.first() != '+',
    ensures
        ({
            let value = match digits_value(digits, radix) {
                Some(v) => if v <= max {
                    Some(v)
                } else {
                    None
                },
                None => None,
            };
            &&& numeral_value(before + digits + after, radix, max) == value
            &&& numeral_value(before + seq!['+'] + digits + after, radix, max) == value
        }),
        numeral_value(before + after, radix, max) is None,
        numeral_value(before + seq!['+'] + after, radix, max) is None,
{
    crate::text::law_trimming_takes_the_white_space_away(before, digits, after);
    let signed = seq!['+'] + digits;
    assert(signed.first() == '+' && signed.last() == digits.last());
    crate::text::law_trimming_takes_the_white_space_away(before, signed, after);
    assert(before + seq!['+'] + digits + after =~= before + signed + after);
    assert(signed.skip(1) =~= digits);
    let none = Seq::<char>::empty();
    crate::text::law_trimming_takes_the_white_space_away(before, none, after);
    assert(before + after =~= before + none + after);
    let plus = seq!['+'];
    assert(plus.first() == '+' && plus.last() == '+');
    crate::text::law_trimming_takes_the_white_space_away(before, plus, after);
    assert(plus.skip(1) =~= none);
}

/// The first attribute that is no numeral decides the error. A device whose
/// attributes are numerals is the camera if its IDs are, and sits where the
/// other two say; else the error names its IDs.
pub proof fn law_first_bad_attribute_decides(
    id_vendor: Seq<char>,
    id_product: Seq<char>,
    busnum: Seq<char>,
    devnum: Seq<char>,
)
    ensures
        ({
            let r = identified(id_vendor, id_product, busnum, devnum);
            let vendor = numeral_value(id_vendor, 16, 65535);
            let product = numeral_value(id_product, 16, 65535);
            let bus = numeral_value(busnum, 10, 255);
            let address = numeral_value(devnum, 10, 255);
            &&& vendor is None ==> r == Err::<UsbAddress, _>(DeviceError::IdVendor)
            &&& vendor is Some && product is None ==> r == Err::<UsbAddress, _>(
                DeviceError::IdProduct,
            )
            &&& vendor is Some && product is Some && bus is None ==> r == Err::<UsbAddress, _>(
                DeviceError::BusNum,
            )
            &&& vendor is Some && product is Some && bus is Some && address is None ==> r == Err::<
                UsbAddress,
                _,
            >(DeviceError::DevNum)
            &&& r matches Ok(place) ==> place.bus == bus->0 && place.address == address->0
            &&& r matches Err(DeviceError::NotP2Pro { vendor_id, product_id }) ==> vendor
                == Some(vendor_id as int) && product == Some(product_id as int)
            &&& vendor is Some && product is Some && bus is Some && address is Some ==> r is Ok || (
            r matches Err(e) && e is NotP2Pro)
            &&& r is Ok <==> vendor == Some(0x0bdaint) && product == Some(0x5830int) && bus is Some
                && address is Some
        }),
{
    lemma_numeral_range(id_vendor, 16, 65535);
    lemma_numeral_range(id_product, 16, 65535);
    lemma_numeral_range(busnum, 10, 255);
    lemma_numeral_range(devnum, 10, 255);
}

proof fn lemma_numeral_range(text: Seq<char>, radix: int, max: int)
    requires
        radix >= 1,
    ensures
        numeral_value(text, radix, max) matches Some(v) ==> 0 <= v <= max,
{
    let s = trimmed(text);
    let digits = if s.len() > 0 && s[0] == '+' {
        s.skip(1)
    } else {
        s
    };
    lemma_digits_grow(digits, 0, radix);
}

/// The only format that is accepted is YUYV at 256x384.
pub proof fn law_camera_format(format: PixelFormat)
    ensures
        is_camera_format(format) <==> format.width == 256 && format.height == 384
            && format.fourcc@ == seq![89u8, 85, 89, 86],
{
}

/// Frames are read once the camera was opened or found; every other outcome
/// leads to a pause, and a pause back to where the loop began.
pub proof fn law_steps_of_the_loop(device_named: bool, step: CaptureStep, outcome: StepOutcome)
    ensures
        connect_step(true) == CaptureStep::Open,
        connect_step(false) == CaptureStep::Probe,
        step is Pause ==> step_after(device_named, step, outcome) == connect_step(device_named),
        (step is Open || step is Probe) && outcome is Done ==> step_after(
            device_named,
            step,
            outcome,
        ) == CaptureStep::Run,
        step is Run || (!(step is Pause) && !(outcome is Done)) ==> step_after(
            device_named,
            step,
            outcome,
        ) == CaptureStep::Pause,
{
}

/// What is shown for a failure names the device and the error.
pub proof fn law_failure_texts(path: Seq<char>, error: Seq<char>)
    ensures
        failure_text(CaptureStep::Open, path, error) == "Error opening camera "@ + path + ":\n"@
            + error + "\nRetrying ..."@,
        failure_text(CaptureStep::Probe, path, error) == "Error probing for P2Pro device:\n"@
            + error + "\nRetrying ..."@,
        failure_text(CaptureStep::Run, path, error) == path + ":\n"@ + error + "\nRetrying ..."@,
{
}

/// What is shown for a device that is not the camera, or not there.
pub proof fn law_device_error_texts(vendor_id: u16, product_id: u16, bus: u8, address: u8)
    ensures
        (DeviceError::NotP2Pro { vendor_id, product_id }).text() == "Device "@ + hex4(
            vendor_id,
            false,
        ) + ":"@ + hex4(product_id, false) + " is not a P2Pro device (expected "@ + hex4(
            0x0bda,
            false,
        ) + ":"@ + hex4(0x5830, false) + ")"@,
        (DeviceError::NotFound { bus, address }).text() == "USB device "@ + decimal(bus as nat)
            + ":"@ + decimal(address as nat) + " not found."@,
{
}

/// A second plus sign spoils a numeral.
pub proof fn law_second_sign_is_refused(digits: Seq<char>, radix: int, max: int)
    requires
        digits.len() > 0,
        !is_space(digits.last()),
    ensures
        numeral_value(seq!['+', '+'] + digits, radix, max) is None,
{
    let s = seq!['+', '+'] + digits;
    assert(s.first() == '+' && s.last() == digits.last());
    assert(trimmed(s) == s);
    let rest = s.skip(1);
    assert(rest[0] == '+');
    lemma_spoiled(rest, 0, radix);
}

proof fn lemma_spoiled(s: Seq<char>, i: int, radix: int)
    requires
        0 <= i < s.len(),
        digit_value(s[i]) is None,
    ensures
        digits_value(s, radix) is None,
    decreases s.len(),
{
    if i < s.len() - 1 {
        assert(s.drop_last()[i] == s[i]);
        lemma_spoiled(s.drop_last(), i, radix);
    }
}

} // verus!
