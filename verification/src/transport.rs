//! The P2Pro's vendor command transport: which control transfers and waits a
//! command consists of.

use crate::bytes::{law_bytes_spell_16, law_bytes_spell_32};
use crate::bytes::{be16, be16_bytes, be32, be32_bytes, le16, le16_bytes, le32, le32_bytes};
use vstd::prelude::*;

verus! {

/// Request type byte of a transfer to the camera.
pub const REQUEST_TYPE_OUT: u8 = 0x41;

/// Request type byte of a transfer from the camera.
pub const REQUEST_TYPE_IN: u8 = 0xC1;

/// Request of a transfer to the camera.
pub const REQUEST_OUT: u8 = 0x45;

/// Request of a transfer from the camera.
pub const REQUEST_IN: u8 = 0x44;

/// Value field of every transfer.
pub const REQUEST_VALUE: u16 = 0x0078;

/// Mailbox of the status register.
pub const MAILBOX_STATUS: u16 = 0x0200;

/// Mailbox of command headers without a payload stage.
pub const MAILBOX_HEADER_A: u16 = 0x1D00;

/// Mailbox of command headers that a payload stage follows.
pub const MAILBOX_HEADER_B: u16 = 0x9D00;

/// Mailbox of the last bytes of a payload, of parameter blocks and of replies.
pub const MAILBOX_DATA: u16 = 0x1D08;

/// Mailbox of the bulk of a payload.
pub const MAILBOX_BULK: u16 = 0x9D08;

/// Mailbox of the reply to a long command.
pub const MAILBOX_LONG_RESULT: u16 = 0x1D10;

/// Maximum payload processed per command header.
pub const BLOCK_LEN: usize = 256;

/// Maximum payload bytes per single USB transfer.
pub const SEGMENT_LEN: usize = 64;

/// Size of the tail segment routed through the data mailbox.
pub const SHORT_SEGMENT_LEN: usize = 8;

/// The 8-byte header of a standard command: the code, the parameter in the
/// given byte order, and the length.
#[verifier::opaque]
pub open spec fn header_bytes(code: u16, param: u32, param_be: bool, len: u16) -> Seq<u8> {
    le16(code) + (if param_be {
        be32(param)
    } else {
        le32(param)
    }) + be16(len)
}

/// The 8-byte header of a long command.
pub open spec fn long_header_bytes(code: u16, p1: u16, p2: u32) -> Seq<u8> {
    le16(code) + be16(p1) + be32(p2)
}

/// The 8-byte parameter block of a long command.
pub open spec fn long_params_bytes(p3: u32, p4: u32) -> Seq<u8> {
    be32(p3) + be32(p4)
}

/// Builds the 8-byte command header for standard commands.
pub fn command_header(code: u16, param: u32, param_be: bool, len: u16) -> (r: [u8; 8])
    ensures
        r@ == header_bytes(code, param, param_be, len),
{
    let c = le16_bytes(code);
    let p = if param_be {
        be32_bytes(param)
    } else {
        le32_bytes(param)
    };
    let l = be16_bytes(len);
    let r = [c[0], c[1], p[0], p[1], p[2], p[3], l[0], l[1]];
    reveal(header_bytes);
    assert(r@ =~= header_bytes(code, param, param_be, len));
    r
}

/// Builds the 8-byte header of a long command.
pub fn long_command_header(code: u16, p1: u16, p2: u32) -> (r: [u8; 8])
    ensures
        r@ == long_header_bytes(code, p1, p2),
{
    let c = le16_bytes(code);
    let a = be16_bytes(p1);
    let b = be32_bytes(p2);
    let r = [c[0], c[1], a[0], a[1], b[0], b[1], b[2], b[3]];
    assert(r@ =~= long_header_bytes(code, p1, p2));
    r
}

/// Builds the 8-byte extra parameter block of a long command.
pub fn long_command_params(p3: u32, p4: u32) -> (r: [u8; 8])
    ensures
        r@ == long_params_bytes(p3, p4),
{
    let a = be32_bytes(p3);
    let b = be32_bytes(p4);
    let r = [a[0], a[1], a[2], a[3], b[0], b[1], b[2], b[3]];
    assert(r@ =~= long_params_bytes(p3, p4));
    r
}

/// One step of a command.
#[derive(Debug)]
pub enum Step {
    /// Write the data to a mailbox.
    Out { mailbox: u16, data: Vec<u8> },
    /// Read so many bytes from a mailbox.
    In { mailbox: u16, len: usize },
    /// Poll the status register until the camera is ready.
    WaitReady,
}

/// What a [`Step`] does.
pub enum StepView {
    Out { mailbox: u16, data: Seq<u8> },
    In { mailbox: u16, len: nat },
    WaitReady,
}

impl View for Step {
    type V = StepView;

    open spec fn view(&self) -> StepView {
        match self {
            Step::Out { mailbox, data } => StepView::Out { mailbox: *mailbox, data: data@ },
            Step::In { mailbox, len } => StepView::In { mailbox: *mailbox, len: *len as nat },
            Step::WaitReady => StepView::WaitReady,
        }
    }
}

/// What a sequence of steps does.
pub open spec fn plan_of(steps: Seq<Step>) -> Seq<StepView> {
    steps.map_values(|s: Step| s@)
}

/// The parameter of a command, advanced by a payload offset.
#[verifier::opaque]
pub open spec fn advanced(param: u32, offset: int) -> u32 {
    ((param + offset) % 0x1_0000_0000) as u32
}

proof fn lemma_not_advanced(param: u32)
    ensures
        advanced(param, 0) == param,
{
    reveal(advanced);
}

/// Advances a parameter by the length of a block.
fn advance(param: u32) -> (r: u32)
    ensures
        forall|start: u32, offset: int|
            0 <= offset && param == #[trigger] advanced(start, offset) ==> r == advanced(
                start,
                offset + BLOCK_LEN,
            ),
{
    reveal(advanced);
    param.wrapping_add(BLOCK_LEN as u32)
}

/// The transfer of `block` from the offset `j` on: whole segments to the bulk
/// mailbox as long as more than one is left; of the rest the last eight bytes
/// to the data mailbox, what precedes them to the bulk mailbox; then a wait.
pub open spec fn segment_steps(block: Seq<u8>, j: int) -> Seq<StepView>
    decreases block.len() - j,
{
    let end = block.len() as int;
    if j >= end {
        Seq::empty()
    } else if end - j > SEGMENT_LEN {
        seq![
            StepView::Out {
                mailbox: (MAILBOX_BULK + j) as u16,
                data: block.subrange(j, j + SEGMENT_LEN),
            },
        ] + segment_steps(block, j + SEGMENT_LEN)
    } else if end - j > SHORT_SEGMENT_LEN {
        let split = end - SHORT_SEGMENT_LEN;
        seq![
            StepView::Out {
                mailbox: (MAILBOX_BULK + j) as u16,
                data: block.subrange(j, split),
            },
            StepView::Out {
                mailbox: (MAILBOX_DATA + split) as u16,
                data: block.subrange(split, end),
            },
            StepView::WaitReady,
        ]
    } else {
        seq![
            StepView::Out {
                mailbox: (MAILBOX_DATA + j) as u16,
                data: block.subrange(j, end),
            },
            StepView::WaitReady,
        ]
    }
}

/// The block of `payload` at `offset`.
pub open spec fn block_at(payload: Seq<u8>, offset: int) -> Seq<u8> {
    payload.subrange(
        offset,
        if payload.len() - offset > BLOCK_LEN {
            offset + BLOCK_LEN
        } else {
            payload.len() as int
        },
    )
}

/// The transfer of `payload` from `offset` on: for each block a header, whose
/// parameter is advanced by the block's offset, a wait, and the block.
pub open spec fn block_steps(
    code: u16,
    param: u32,
    param_be: bool,
    payload: Seq<u8>,
    offset: int,
) -> Seq<StepView>
    decreases payload.len() - offset,
{
    if !(0 <= offset < payload.len()) {
        Seq::empty()
    } else {
        let block = block_at(payload, offset);
        seq![
            StepView::Out {
                mailbox: MAILBOX_HEADER_B,
                data: header_bytes(code, advanced(param, offset), param_be, block.len() as u16),
            },
            StepView::WaitReady,
        ] + segment_steps(block, 0) + block_steps(
            code,
            param,
            param_be,
            payload,
            offset + block.len(),
        )
    }
}

/// A standard write.
pub open spec fn write_plan(code: u16, param: u32, param_be: bool, payload: Seq<u8>) -> Seq<
    StepView,
> {
    if payload.len() == 0 {
        seq![
            StepView::Out {
                mailbox: MAILBOX_HEADER_A,
                data: header_bytes(code, param, param_be, 0),
            },
            StepView::WaitReady,
        ]
    } else {
        block_steps(code, param, param_be, payload, 0)
    }
}

/// A standard read of `len` bytes, from `offset` on: for each block a header,
/// whose parameter is advanced by the block's offset, and the block's bytes.
pub open spec fn read_steps(code: u16, param: u32, param_be: bool, len: int, offset: int) -> Seq<
    StepView,
>
    decreases len - offset,
{
    if offset >= len {
        Seq::empty()
    } else {
        let size = if len - offset > BLOCK_LEN {
            BLOCK_LEN as int
        } else {
            len - offset
        };
        seq![
            StepView::Out {
                mailbox: MAILBOX_HEADER_A,
                data: header_bytes(code, advanced(param, offset), param_be, size as u16),
            },
            StepView::WaitReady,
            StepView::In { mailbox: MAILBOX_DATA, len: size as nat },
            StepView::WaitReady,
        ] + read_steps(code, param, param_be, len, offset + size)
    }
}

/// A standard read.
pub open spec fn read_plan(code: u16, param: u32, param_be: bool, len: int) -> Seq<StepView> {
    read_steps(code, param, param_be, len, 0)
}

/// A long write.
pub open spec fn long_write_plan(code: u16, p1: u16, p2: u32, p3: u32, p4: u32) -> Seq<StepView> {
    seq![
        StepView::Out { mailbox: MAILBOX_HEADER_B, data: long_header_bytes(code, p1, p2) },
        StepView::Out { mailbox: MAILBOX_DATA, data: long_params_bytes(p3, p4) },
        StepView::WaitReady,
    ]
}

/// A long read.
pub open spec fn long_read_plan(code: u16, p1: u16, p2: u32, len: u32) -> Seq<StepView> {
    long_write_plan(code, p1, p2, 0, len) + seq![
        StepView::In { mailbox: MAILBOX_LONG_RESULT, len: len as nat },
        StepView::WaitReady,
    ]
}

/// The number of bytes that a plan reads.
pub open spec fn bytes_read(plan: Seq<StepView>) -> nat
    decreases plan.len(),
{
    if plan.len() == 0 {
        0
    } else {
        bytes_read(plan.drop_last()) + match plan.last() {
            StepView::In { len, .. } => len,
            _ => 0,
        }
    }
}

fn push_step(steps: &mut Vec<Step>, step: Step)
    ensures
        plan_of(final(steps)@) == plan_of(old(steps)@).push(step@),
{
    steps.push(step);
    assert(plan_of(steps@) =~= plan_of(old(steps)@).push(step@));
}

fn push_out(steps: &mut Vec<Step>, mailbox: u16, data: &[u8])
    ensures
        plan_of(final(steps)@) == plan_of(old(steps)@).push(
            StepView::Out { mailbox, data: data@ },
        ),
{
    let mut copy: Vec<u8> = Vec::with_capacity(data.len());
    copy.extend_from_slice(data);
    assert(copy@ =~= data@);
    push_step(steps, Step::Out { mailbox, data: copy });
}

/// Appends the transfer of one payload block in segments.
fn write_block(steps: &mut Vec<Step>, block: &[u8])
    requires
        block@.len() <= BLOCK_LEN,
    ensures
        plan_of(final(steps)@) == plan_of(old(steps)@) + segment_steps(block@, 0),
{
    let len: usize = block.len();
    let mut offset: usize = 0;
    let ghost whole = plan_of(steps@) + segment_steps(block@, 0);
    while offset < len
        invariant
            len == block@.len(),
            len <= BLOCK_LEN,
            offset <= len,
            plan_of(steps@) + segment_steps(block@, offset as int) == whole,
        decreases len - offset,
    {
        let ghost before = plan_of(steps@);
        let remaining: usize = len - offset;
        if remaining > SEGMENT_LEN {
            // Bulk segment: written back-to-back without polling.
            push_out(
                steps,
                MAILBOX_BULK + offset as u16,
                vstd::slice::slice_subrange(block, offset, offset + SEGMENT_LEN),
            );
            assert(plan_of(steps@) + segment_steps(block@, offset + SEGMENT_LEN) =~= before
                + segment_steps(block@, offset as int));
            offset += SEGMENT_LEN;
        } else if remaining > SHORT_SEGMENT_LEN {
            // Split tail: bulk mailbox first, last bytes via the data mailbox.
            let split: usize = len - SHORT_SEGMENT_LEN;
            push_out(
                steps,
                MAILBOX_BULK + offset as u16,
                vstd::slice::slice_subrange(block, offset, split),
            );
            push_out(
                steps,
                MAILBOX_DATA + split as u16,
                vstd::slice::slice_subrange(block, split, len),
            );
            push_step(steps, Step::WaitReady);
            assert(plan_of(steps@) + segment_steps(block@, len as int) =~= before + segment_steps(
                block@,
                offset as int,
            ));
            offset = len;
        } else {
            // Short final segment via the data mailbox.
            push_out(
                steps,
                MAILBOX_DATA + offset as u16,
                vstd::slice::slice_subrange(block, offset, len),
            );
            push_step(steps, Step::WaitReady);
            assert(plan_of(steps@) + segment_steps(block@, len as int) =~= before + segment_steps(
                block@,
                offset as int,
            ));
            offset = len;
        }
    }
    assert(plan_of(steps@) =~= whole);
}

/// A standard write of a payload.
pub fn standard_write(code: u16, param: u32, param_be: bool, payload: &[u8]) -> (r: Vec<Step>)
    ensures
        plan_of(r@) == write_plan(code, param, param_be, payload@),
{
    let mut steps: Vec<Step> = Vec::new();
    assert(plan_of(steps@) =~= Seq::empty());
    if payload.len() == 0 {
        // No payload, header via mailbox A only.
        push_out(&mut steps, MAILBOX_HEADER_A, &command_header(code, param, param_be, 0));
        push_step(&mut steps, Step::WaitReady);
        assert(plan_of(steps@) =~= write_plan(code, param, param_be, payload@));
        return steps;
    }
    let len: usize = payload.len();
    let mut offset: usize = 0;
    let mut block_param: u32 = param;
    let ghost whole = block_steps(code, param, param_be, payload@, 0);
    proof {
        lemma_not_advanced(param);
    }
    assert(plan_of(steps@) + whole =~= whole);
    while offset < len
        invariant
            len == payload@.len(),
            offset <= len,
            offset < len ==> block_param == advanced(param, offset as int),
            plan_of(steps@) + block_steps(code, param, param_be, payload@, offset as int) == whole,
        decreases len - offset,
    {
        let ghost before = plan_of(steps@);
        let end: usize = if len - offset > BLOCK_LEN {
            offset + BLOCK_LEN
        } else {
            len
        };
        let block = vstd::slice::slice_subrange(payload, offset, end);
        assert(block@ == block_at(payload@, offset as int));
        let header = command_header(code, block_param, param_be, block.len() as u16);
        push_out(&mut steps, MAILBOX_HEADER_B, &header);
        push_step(&mut steps, Step::WaitReady);
        let ghost head = plan_of(steps@);
        write_block(&mut steps, block);
        proof {
            let rest = block_steps(code, param, param_be, payload@, end as int);
            let here = block_steps(code, param, param_be, payload@, offset as int);
            assert(block@.len() == end - offset);
            let intro = seq![
                StepView::Out { mailbox: MAILBOX_HEADER_B, data: header@ },
                StepView::WaitReady,
            ];
            assert(head =~= before + intro);
            assert(here == intro + segment_steps(block@, 0) + rest);
            assert(before + (intro + segment_steps(block@, 0) + rest) =~= before + intro
                + segment_steps(block@, 0) + rest);
        }
        block_param = advance(block_param);
        offset = end;
    }
    assert(plan_of(steps@) =~= whole);
    steps
}

/// A standard read of `len` bytes.
pub fn standard_read(code: u16, param: u32, param_be: bool, len: usize) -> (r: Vec<Step>)
    ensures
        plan_of(r@) == read_plan(code, param, param_be, len as int),
{
    let mut steps: Vec<Step> = Vec::new();
    let mut offset: usize = 0;
    let mut block_param: u32 = param;
    let ghost whole = read_steps(code, param, param_be, len as int, 0);
    proof {
        lemma_not_advanced(param);
    }
    assert(plan_of(steps@) + whole =~= whole);
    while offset < len
        invariant
            offset <= len,
            offset < len ==> block_param == advanced(param, offset as int),
            plan_of(steps@) + read_steps(code, param, param_be, len as int, offset as int) == whole,
        decreases len - offset,
    {
        let ghost before = plan_of(steps@);
        let size: usize = if len - offset > BLOCK_LEN {
            BLOCK_LEN
        } else {
            len - offset
        };
        let header = command_header(code, block_param, param_be, size as u16);
        push_out(&mut steps, MAILBOX_HEADER_A, &header);
        push_step(&mut steps, Step::WaitReady);
        push_step(&mut steps, Step::In { mailbox: MAILBOX_DATA, len: size });
        push_step(&mut steps, Step::WaitReady);
        proof {
            let rest = read_steps(code, param, param_be, len as int, offset + size);
            let here = read_steps(code, param, param_be, len as int, offset as int);
            let block = seq![
                StepView::Out { mailbox: MAILBOX_HEADER_A, data: header@ },
                StepView::WaitReady,
                StepView::In { mailbox: MAILBOX_DATA, len: size as nat },
                StepView::WaitReady,
            ];
            assert(plan_of(steps@) =~= before + block);
            assert(here == block + rest);
            assert(before + (block + rest) =~= before + block + rest);
        }
        block_param = advance(block_param);
        offset += size;
    }
    assert(plan_of(steps@) =~= whole);
    steps
}

/// A long write.
pub fn long_write(code: u16, p1: u16, p2: u32, p3: u32, p4: u32) -> (r: Vec<Step>)
    ensures
        plan_of(r@) == long_write_plan(code, p1, p2, p3, p4),
{
    let mut steps: Vec<Step> = Vec::new();
    push_out(&mut steps, MAILBOX_HEADER_B, &long_command_header(code, p1, p2));
    push_out(&mut steps, MAILBOX_DATA, &long_command_params(p3, p4));
    push_step(&mut steps, Step::WaitReady);
    assert(plan_of(steps@) =~= long_write_plan(code, p1, p2, p3, p4));
    steps
}

/// A long read of `len` bytes.
pub fn long_read(code: u16, p1: u16, p2: u32, len: u32) -> (r: Vec<Step>)
    ensures
        plan_of(r@) == long_read_plan(code, p1, p2, len),
{
    let mut steps = long_write(code, p1, p2, 0, len);
    push_step(&mut steps, Step::In { mailbox: MAILBOX_LONG_RESULT, len: len as usize });
    push_step(&mut steps, Step::WaitReady);
    assert(plan_of(steps@) =~= long_read_plan(code, p1, p2, len));
    steps
}

/// The payload bytes that a plan writes: what goes to any mailbox but those
/// of the headers.
pub open spec fn payload_sent(plan: Seq<StepView>) -> Seq<u8>
    decreases plan.len(),
{
    if plan.len() == 0 {
        Seq::empty()
    } else {
        payload_sent(plan.drop_last()) + match plan.last() {
            StepView::Out { mailbox, data } if mailbox != MAILBOX_HEADER_A && mailbox
                != MAILBOX_HEADER_B => data,
            _ => Seq::empty(),
        }
    }
}

/// How often a plan waits for the camera.
pub open spec fn waits(plan: Seq<StepView>) -> nat
    decreases plan.len(),
{
    if plan.len() == 0 {
        0
    } else {
        waits(plan.drop_last()) + if plan.last() is WaitReady {
            1nat
        } else {
            0
        }
    }
}

/// The number of blocks in which `len` bytes are transferred.
pub open spec fn block_count(len: int) -> int {
    (len + BLOCK_LEN - 1) / (BLOCK_LEN as int)
}

proof fn lemma_append(a: Seq<StepView>, b: Seq<StepView>)
    ensures
        payload_sent(a + b) == payload_sent(a) + payload_sent(b),
        waits(a + b) == waits(a) + waits(b),
        bytes_read(a + b) == bytes_read(a) + bytes_read(b),
    decreases b.len(),
{
    if b.len() == 0 {
        assert(a + b =~= a);
        assert(payload_sent(a) + payload_sent(b) =~= payload_sent(a));
    } else {
        lemma_append(a, b.drop_last());
        assert((a + b).drop_last() =~= a + b.drop_last());
        assert((a + b).last() == b.last());
        assert(payload_sent(a + b) =~= payload_sent(a) + payload_sent(b));
    }
}

proof fn lemma_one(step: StepView)
    ensures
        payload_sent(seq![step]) == (match step {
            StepView::Out { mailbox, data } if mailbox != MAILBOX_HEADER_A && mailbox
                != MAILBOX_HEADER_B => data,
            _ => Seq::empty(),
        }),
        waits(seq![step]) == (if step is WaitReady {
            1nat
        } else {
            0
        }),
        bytes_read(seq![step]) == (match step {
            StepView::In { len, .. } => len,
            _ => 0,
        }),
{
    let s = seq![step];
    assert(s.drop_last() =~= Seq::empty());
    assert(s.last() == step);
    reveal_with_fuel(payload_sent, 2);
    reveal_with_fuel(waits, 2);
    reveal_with_fuel(bytes_read, 2);
    assert(payload_sent(s) =~= Seq::empty() + payload_sent(s));
    match step {
        StepView::Out { mailbox, data } => {
            assert(Seq::<u8>::empty() + data =~= data);
        },
        _ => {
            assert(Seq::<u8>::empty() + Seq::<u8>::empty() =~= Seq::<u8>::empty());
        },
    }
}

proof fn lemma_segments(block: Seq<u8>, j: int)
    requires
        0 <= j <= block.len() <= BLOCK_LEN,
    ensures
        payload_sent(segment_steps(block, j)) == block.subrange(j, block.len() as int),
        waits(segment_steps(block, j)) == (if j < block.len() {
            1nat
        } else {
            0
        }),
        bytes_read(segment_steps(block, j)) == 0,
    decreases block.len() - j,
{
    let end = block.len() as int;
    let plan = segment_steps(block, j);
    if j >= end {
        assert(block.subrange(j, end) =~= Seq::empty());
    } else if end - j > SEGMENT_LEN {
        let first = StepView::Out {
            mailbox: (MAILBOX_BULK + j) as u16,
            data: block.subrange(j, j + SEGMENT_LEN),
        };
        lemma_one(first);
        lemma_append(seq![first], segment_steps(block, j + SEGMENT_LEN));
        lemma_segments(block, j + SEGMENT_LEN);
        assert(block.subrange(j, end) =~= block.subrange(j, j + SEGMENT_LEN) + block.subrange(
            j + SEGMENT_LEN,
            end,
        ));
    } else if end - j > SHORT_SEGMENT_LEN {
        let split = end - SHORT_SEGMENT_LEN;
        let a = StepView::Out {
            mailbox: (MAILBOX_BULK + j) as u16,
            data: block.subrange(j, split),
        };
        let b = StepView::Out {
            mailbox: (MAILBOX_DATA + split) as u16,
            data: block.subrange(split, end),
        };
        lemma_one(a);
        lemma_one(b);
        lemma_one(StepView::WaitReady);
        lemma_append(seq![a], seq![b]);
        lemma_append(seq![a] + seq![b], seq![StepView::WaitReady]);
        assert(plan =~= seq![a] + seq![b] + seq![StepView::WaitReady]);
        assert(block.subrange(j, end) =~= block.subrange(j, split) + block.subrange(split, end));
        assert(payload_sent(plan) =~= block.subrange(j, end));
    } else {
        let a = StepView::Out {
            mailbox: (MAILBOX_DATA + j) as u16,
            data: block.subrange(j, end),
        };
        lemma_one(a);
        lemma_one(StepView::WaitReady);
        lemma_append(seq![a], seq![StepView::WaitReady]);
        assert(plan =~= seq![a] + seq![StepView::WaitReady]);
        assert(payload_sent(plan) =~= block.subrange(j, end));
    }
}

proof fn lemma_blocks(code: u16, param: u32, param_be: bool, payload: Seq<u8>, offset: int)
    requires
        0 <= offset <= payload.len(),
    ensures
        ({
            let plan = block_steps(code, param, param_be, payload, offset);
            &&& payload_sent(plan) == payload.subrange(offset, payload.len() as int)
            &&& waits(plan) == 2 * block_count(payload.len() - offset)
            &&& bytes_read(plan) == 0
        }),
    decreases payload.len() - offset,
{
    let end = payload.len() as int;
    let plan = block_steps(code, param, param_be, payload, offset);
    if offset < end {
        let block = block_at(payload, offset);
        let next = offset + block.len();
        let header = StepView::Out {
            mailbox: MAILBOX_HEADER_B,
            data: header_bytes(code, advanced(param, offset), param_be, block.len() as u16),
        };
        let intro = seq![header, StepView::WaitReady];
        let rest = block_steps(code, param, param_be, payload, next);
        lemma_one(header);
        lemma_one(StepView::WaitReady);
        lemma_append(seq![header], seq![StepView::WaitReady]);
        assert(intro =~= seq![header] + seq![StepView::WaitReady]);
        lemma_segments(block, 0);
        lemma_append(intro, segment_steps(block, 0));
        lemma_append(intro + segment_steps(block, 0), rest);
        lemma_blocks(code, param, param_be, payload, next);
        assert(block.subrange(0, block.len() as int) =~= block);
        assert(payload_sent(plan) =~= payload.subrange(offset, end));
    } else {
        assert(payload.subrange(offset, end) =~= Seq::empty());
    }
}

/// A standard write transfers its payload: every byte once and in order.
pub proof fn law_write_carries_the_payload(code: u16, param: u32, param_be: bool, payload: Seq<u8>)
    ensures
        payload_sent(write_plan(code, param, param_be, payload)) == payload,
{
    if payload.len() == 0 {
        let header = StepView::Out {
            mailbox: MAILBOX_HEADER_A,
            data: header_bytes(code, param, param_be, 0),
        };
        lemma_one(header);
        lemma_one(StepView::WaitReady);
        lemma_append(seq![header], seq![StepView::WaitReady]);
        assert(write_plan(code, param, param_be, payload) =~= seq![header]
            + seq![StepView::WaitReady]);
        assert(payload_sent(write_plan(code, param, param_be, payload)) =~= payload);
    } else {
        lemma_blocks(code, param, param_be, payload, 0);
        assert(payload.subrange(0, payload.len() as int) =~= payload);
    }
}

/// During a standard write with a payload the camera is polled twice per
/// block: once after the header and once after the last segment.
pub proof fn law_write_polls_twice_per_block(
    code: u16,
    param: u32,
    param_be: bool,
    payload: Seq<u8>,
)
    requires
        payload.len() > 0,
    ensures
        waits(write_plan(code, param, param_be, payload)) == 2 * block_count(payload.len() as int),
{
    lemma_blocks(code, param, param_be, payload, 0);
}

proof fn lemma_block_sizes(code: u16, param: u32, param_be: bool, payload: Seq<u8>, offset: int)
    requires
        0 <= offset <= payload.len(),
    ensures
        forall|i: int|
            0 <= i < block_steps(code, param, param_be, payload, offset).len() ==> (
            #[trigger] block_steps(code, param, param_be, payload, offset)[i] matches StepView::Out {
                data,
                ..
            } ==> 0 < data.len() <= SEGMENT_LEN),
    decreases payload.len() - offset,
{
    if offset < payload.len() {
        let block = block_at(payload, offset);
        reveal(header_bytes);
        lemma_segment_sizes(block, 0);
        lemma_block_sizes(code, param, param_be, payload, offset + block.len());
    }
}

proof fn lemma_segment_sizes(block: Seq<u8>, j: int)
    requires
        0 <= j <= block.len(),
    ensures
        forall|i: int|
            0 <= i < segment_steps(block, j).len() ==> (#[trigger] segment_steps(block, j)[i]
                matches StepView::Out { data, .. } ==> 0 < data.len() <= SEGMENT_LEN),
    decreases block.len() - j,
{
    if block.len() - j > SEGMENT_LEN {
        lemma_segment_sizes(block, j + SEGMENT_LEN);
    }
}

/// No transfer of a standard write carries more than a segment.
pub proof fn law_write_transfers_are_small(
    code: u16,
    param: u32,
    param_be: bool,
    payload: Seq<u8>,
    i: int,
)
    requires
        0 <= i < write_plan(code, param, param_be, payload).len(),
    ensures
        write_plan(code, param, param_be, payload)[i] matches StepView::Out { data, .. } ==> 0
            < data.len() <= SEGMENT_LEN,
{
    if payload.len() > 0 {
        lemma_block_sizes(code, param, param_be, payload, 0);
    } else {
        reveal(header_bytes);
    }
}

/// Whether `data` are the bytes of `block` at `k`, and `mailbox` is the place
/// for that offset in the bulk mailbox or in the data mailbox.
pub open spec fn placed_at(block: Seq<u8>, mailbox: u16, data: Seq<u8>, k: int) -> bool {
    &&& 0 <= k <= block.len() - data.len()
    &&& data == block.subrange(k, k + data.len())
    &&& mailbox == MAILBOX_BULK + k || mailbox == MAILBOX_DATA + k
}

/// Whether a step writes bytes of `block` to the place that belongs to their
/// offset in the block.
pub open spec fn well_placed(block: Seq<u8>, step: StepView) -> bool {
    match step {
        StepView::Out { mailbox, data } => exists|k: int| placed_at(block, mailbox, data, k),
        StepView::In { .. } => false,
        StepView::WaitReady => true,
    }
}

proof fn lemma_placed(block: Seq<u8>, mailbox: u16, k: int, end: int)
    requires
        0 <= k <= end <= block.len(),
        mailbox == MAILBOX_BULK + k || mailbox == MAILBOX_DATA + k,
    ensures
        well_placed(block, StepView::Out { mailbox, data: block.subrange(k, end) }),
{
    let step = StepView::Out { mailbox, data: block.subrange(k, end) };
    assert(placed_at(block, step->Out_mailbox, step->data, k));
}

/// Every transfer of a block goes to the place of its offset; the last one
/// carries the final up-to-eight bytes, to the data mailbox, and is followed
/// by the block's only wait.
pub proof fn law_block_transfers_are_placed(block: Seq<u8>, j: int)
    requires
        0 <= j < block.len() <= BLOCK_LEN,
    ensures
        ({
            let plan = segment_steps(block, j);
            let n = plan.len() as int;
            let end = block.len() as int;
            &&& n >= 2
            &&& plan[n - 1] is WaitReady
            &&& plan[n - 2] matches StepView::Out { mailbox, data }
            &&& 0 < data.len() <= SHORT_SEGMENT_LEN
            &&& mailbox == MAILBOX_DATA + end - data.len()
            &&& data == block.subrange(end - data.len(), end)
            &&& forall|i: int| 0 <= i < n ==> well_placed(block, #[trigger] plan[i])
            &&& forall|i: int|
                0 <= i < n - 2 ==> (#[trigger] plan[i] matches StepView::Out { mailbox, .. }
                    && mailbox >= MAILBOX_BULK)
        }),
    decreases block.len() - j,
{
    let plan = segment_steps(block, j);
    let end = block.len() as int;
    if end - j > SEGMENT_LEN {
        law_block_transfers_are_placed(block, j + SEGMENT_LEN);
        let rest = segment_steps(block, j + SEGMENT_LEN);
        assert(forall|i: int| 1 <= i < plan.len() ==> #[trigger] plan[i] == rest[i - 1]);
        lemma_placed(block, (MAILBOX_BULK + j) as u16, j, j + SEGMENT_LEN);
        assert forall|i: int| 0 <= i < plan.len() implies well_placed(block, #[trigger] plan[i]) by {
            if i > 0 {
                assert(well_placed(block, rest[i - 1]));
            }
        }
    } else if end - j > SHORT_SEGMENT_LEN {
        let split = end - SHORT_SEGMENT_LEN;
        lemma_placed(block, (MAILBOX_BULK + j) as u16, j, split);
        lemma_placed(block, (MAILBOX_DATA + split) as u16, split, end);
    } else {
        lemma_placed(block, (MAILBOX_DATA + j) as u16, j, end);
    }
}

proof fn lemma_read(code: u16, param: u32, param_be: bool, len: int, offset: int)
    requires
        0 <= offset <= len,
    ensures
        bytes_read(read_steps(code, param, param_be, len, offset)) == len - offset,
        payload_sent(read_steps(code, param, param_be, len, offset)) == Seq::<u8>::empty(),
    decreases len - offset,
{
    if offset < len {
        let size = if len - offset > BLOCK_LEN {
            BLOCK_LEN as int
        } else {
            len - offset
        };
        let header = StepView::Out {
            mailbox: MAILBOX_HEADER_A,
            data: header_bytes(code, advanced(param, offset), param_be, size as u16),
        };
        let wait = seq![StepView::WaitReady];
        let read = StepView::In { mailbox: MAILBOX_DATA, len: size as nat };
        let rest = read_steps(code, param, param_be, len, offset + size);
        lemma_one(header);
        lemma_one(StepView::WaitReady);
        lemma_one(read);
        lemma_append(seq![header], wait);
        lemma_append(seq![header] + wait, seq![read]);
        lemma_append(seq![header] + wait + seq![read], wait);
        lemma_append(seq![header] + wait + seq![read] + wait, rest);
        assert(read_steps(code, param, param_be, len, offset) =~= seq![header] + wait + seq![read]
            + wait + rest);
        lemma_read(code, param, param_be, len, offset + size);
        assert(payload_sent(read_steps(code, param, param_be, len, offset)) =~= Seq::empty());
    }
}

/// A standard read fetches as many bytes as it was asked for and writes no
/// payload; one of zero bytes transfers nothing at all.
pub proof fn law_read_fetches_its_length(code: u16, param: u32, param_be: bool, len: nat)
    ensures
        bytes_read(read_plan(code, param, param_be, len as int)) == len,
        payload_sent(read_plan(code, param, param_be, len as int)) == Seq::<u8>::empty(),
        len == 0 ==> read_plan(code, param, param_be, len as int) == Seq::<StepView>::empty(),
{
    lemma_read(code, param, param_be, len as int, 0);
}

/// A long read fetches as many bytes as it was asked for.
pub proof fn law_long_read_fetches_its_length(code: u16, p1: u16, p2: u32, len: u32)
    ensures
        bytes_read(long_read_plan(code, p1, p2, len)) == len,
{
    let plan = long_read_plan(code, p1, p2, len);
    let a = StepView::Out { mailbox: MAILBOX_HEADER_B, data: long_header_bytes(code, p1, p2) };
    let b = StepView::Out { mailbox: MAILBOX_DATA, data: long_params_bytes(0, len) };
    let wait = seq![StepView::WaitReady];
    let read = StepView::In { mailbox: MAILBOX_LONG_RESULT, len: len as nat };
    lemma_one(a);
    lemma_one(b);
    lemma_one(read);
    lemma_one(StepView::WaitReady);
    lemma_append(seq![a], seq![b]);
    lemma_append(seq![a] + seq![b], wait);
    lemma_append(seq![a] + seq![b] + wait, seq![read]);
    lemma_append(seq![a] + seq![b] + wait + seq![read], wait);
    assert(plan =~= seq![a] + seq![b] + wait + seq![read] + wait);
}

/// A step writes a command header.
pub open spec fn is_header(step: StepView) -> bool {
    step matches StepView::Out { mailbox, .. } && (mailbox == MAILBOX_HEADER_A || mailbox
        == MAILBOX_HEADER_B)
}

/// Every header of a plan is followed by a wait.
pub open spec fn headers_are_awaited(plan: Seq<StepView>) -> bool {
    forall|i: int|
        0 <= i < plan.len() && is_header(#[trigger] plan[i]) ==> i + 1 < plan.len() && plan[i + 1]
            is WaitReady
}

/// A plan, unless it is empty, ends with a wait.
pub open spec fn ends_ready(plan: Seq<StepView>) -> bool {
    plan.len() > 0 ==> plan.last() is WaitReady
}

proof fn lemma_segments_awaited(block: Seq<u8>, j: int)
    requires
        0 <= j <= block.len() <= BLOCK_LEN,
    ensures
        ends_ready(segment_steps(block, j)),
        j < block.len() ==> segment_steps(block, j).len() > 0,
        forall|i: int|
            0 <= i < segment_steps(block, j).len() ==> !is_header(
                #[trigger] segment_steps(block, j)[i],
            ),
    decreases block.len() - j,
{
    if block.len() - j > SEGMENT_LEN {
        lemma_segments_awaited(block, j + SEGMENT_LEN);
    }
}

proof fn lemma_awaited_append(a: Seq<StepView>, b: Seq<StepView>)
    requires
        headers_are_awaited(a),
        headers_are_awaited(b),
        ends_ready(a),
        ends_ready(b),
    ensures
        headers_are_awaited(a + b),
        ends_ready(a + b),
{
    let s = a + b;
    assert forall|i: int| 0 <= i < s.len() && is_header(#[trigger] s[i]) implies i + 1 < s.len()
        && s[i + 1] is WaitReady by {
        if i < a.len() {
            assert(is_header(a[i]));
        } else {
            assert(is_header(b[i - a.len()]));
        }
    }
    if b.len() == 0 {
        assert(s =~= a);
    }
}

proof fn lemma_blocks_awaited(
    code: u16,
    param: u32,
    param_be: bool,
    payload: Seq<u8>,
    offset: int,
)
    requires
        0 <= offset <= payload.len(),
    ensures
        headers_are_awaited(block_steps(code, param, param_be, payload, offset)),
        ends_ready(block_steps(code, param, param_be, payload, offset)),
    decreases payload.len() - offset,
{
    if offset < payload.len() {
        let block = block_at(payload, offset);
        let intro = seq![
            StepView::Out {
                mailbox: MAILBOX_HEADER_B,
                data: header_bytes(code, advanced(param, offset), param_be, block.len() as u16),
            },
            StepView::WaitReady,
        ];
        lemma_segments_awaited(block, 0);
        lemma_blocks_awaited(code, param, param_be, payload, offset + block.len());
        lemma_awaited_append(intro, segment_steps(block, 0));
        lemma_awaited_append(
            intro + segment_steps(block, 0),
            block_steps(code, param, param_be, payload, offset + block.len()),
        );
    }
}

/// In a standard write the camera is waited for after every header, and at
/// the end.
pub proof fn law_write_awaits_the_camera(code: u16, param: u32, param_be: bool, payload: Seq<u8>)
    ensures
        headers_are_awaited(write_plan(code, param, param_be, payload)),
        ends_ready(write_plan(code, param, param_be, payload)),
{
    lemma_blocks_awaited(code, param, param_be, payload, 0);
}

proof fn lemma_reads_awaited(code: u16, param: u32, param_be: bool, len: int, offset: int)
    requires
        0 <= offset <= len,
    ensures
        headers_are_awaited(read_steps(code, param, param_be, len, offset)),
        ends_ready(read_steps(code, param, param_be, len, offset)),
    decreases len - offset,
{
    if offset < len {
        let size = if len - offset > BLOCK_LEN {
            BLOCK_LEN as int
        } else {
            len - offset
        };
        let block = seq![
            StepView::Out {
                mailbox: MAILBOX_HEADER_A,
                data: header_bytes(code, advanced(param, offset), param_be, size as u16),
            },
            StepView::WaitReady,
            StepView::In { mailbox: MAILBOX_DATA, len: size as nat },
            StepView::WaitReady,
        ];
        lemma_reads_awaited(code, param, param_be, len, offset + size);
        lemma_awaited_append(block, read_steps(code, param, param_be, len, offset + size));
    }
}

/// In a standard read the camera is waited for after every header, and at the
/// end.
pub proof fn law_read_awaits_the_camera(code: u16, param: u32, param_be: bool, len: nat)
    ensures
        headers_are_awaited(read_plan(code, param, param_be, len as int)),
        ends_ready(read_plan(code, param, param_be, len as int)),
{
    lemma_reads_awaited(code, param, param_be, len as int, 0);
}

/// A long command waits for the camera at its end.
pub proof fn law_long_command_awaits_the_camera(code: u16, p1: u16, p2: u32, p3: u32, p4: u32)
    ensures
        ends_ready(long_write_plan(code, p1, p2, p3, p4)),
        ends_ready(long_read_plan(code, p1, p2, p4)),
{
}

/// The number that the four bytes at `i` spell, most or least significant byte
/// first.
pub open spec fn number_at(data: Seq<u8>, i: int, be: bool) -> int {
    if be {
        16777216 * data[i] + 65536 * data[i + 1] + 256 * data[i + 2] + data[i + 3]
    } else {
        data[i] + 256 * data[i + 1] + 65536 * data[i + 2] + 16777216 * data[i + 3]
    }
}

/// A standard header spells the command code, least significant byte first, the
/// parameter in the given order, and the length, most significant byte first.
pub open spec fn spells_header(
    data: Seq<u8>,
    code: u16,
    param: int,
    param_be: bool,
    len: int,
) -> bool {
    &&& data.len() == 8
    &&& data[0] + 256 * data[1] == code
    &&& number_at(data, 2, param_be) == param
    &&& 256 * data[6] + data[7] == len
}

/// The header of a standard command spells its fields.
pub proof fn law_header_spells_its_fields(code: u16, param: u32, param_be: bool, len: u16)
    ensures
        header_bytes(code, param, param_be, len).len() == 8,
        ({
            let h = header_bytes(code, param, param_be, len);
            &&& h[0] + 256 * h[1] == code
            &&& param_be ==> 16777216 * h[2] + 65536 * h[3] + 256 * h[4] + h[5] == param
            &&& !param_be ==> h[2] + 256 * h[3] + 65536 * h[4] + 16777216 * h[5] == param
            &&& 256 * h[6] + h[7] == len
        }),
{
    reveal(header_bytes);
    law_bytes_spell_16(code);
    law_bytes_spell_16(len);
    law_bytes_spell_32(param);
    let h = header_bytes(code, param, param_be, len);
    let p = if param_be {
        be32(param)
    } else {
        le32(param)
    };
    assert(h[0] == le16(code)[0] && h[1] == le16(code)[1]);
    assert(h[2] == p[0] && h[3] == p[1] && h[4] == p[2] && h[5] == p[3]);
    assert(h[6] == be16(len)[0] && h[7] == be16(len)[1]);
}

/// The header and the parameter block of a long command spell their fields:
/// the code least significant byte first, the parameters most significant byte
/// first.
pub proof fn law_long_command_spells_its_fields(code: u16, p1: u16, p2: u32, p3: u32, p4: u32)
    ensures
        ({
            let h = long_header_bytes(code, p1, p2);
            &&& h.len() == 8
            &&& h[0] + 256 * h[1] == code
            &&& 256 * h[2] + h[3] == p1
            &&& 16777216 * h[4] + 65536 * h[5] + 256 * h[6] + h[7] == p2
        }),
        ({
            let d = long_params_bytes(p3, p4);
            &&& d.len() == 8
            &&& 16777216 * d[0] + 65536 * d[1] + 256 * d[2] + d[3] == p3
            &&& 16777216 * d[4] + 65536 * d[5] + 256 * d[6] + d[7] == p4
        }),
{
    law_bytes_spell_16(code);
    law_bytes_spell_16(p1);
    law_bytes_spell_32(p2);
    law_bytes_spell_32(p3);
    law_bytes_spell_32(p4);
    let h = long_header_bytes(code, p1, p2);
    assert(h[0] == le16(code)[0] && h[1] == le16(code)[1]);
    assert(h[2] == be16(p1)[0] && h[3] == be16(p1)[1]);
    assert(h[4] == be32(p2)[0] && h[5] == be32(p2)[1]);
    assert(h[6] == be32(p2)[2] && h[7] == be32(p2)[3]);
    let d = long_params_bytes(p3, p4);
    assert(d[0] == be32(p3)[0] && d[1] == be32(p3)[1]);
    assert(d[2] == be32(p3)[2] && d[3] == be32(p3)[3]);
    assert(d[4] == be32(p4)[0] && d[5] == be32(p4)[1]);
    assert(d[6] == be32(p4)[2] && d[7] == be32(p4)[3]);
}

/// A long write: the header, the parameter block, a wait. A long read says in
/// the last parameter how many bytes it wants, and then fetches them.
pub proof fn law_long_command_steps(code: u16, p1: u16, p2: u32, p3: u32, p4: u32)
    ensures
        long_write_plan(code, p1, p2, p3, p4) == seq![
            StepView::Out { mailbox: 0x9D00, data: long_header_bytes(code, p1, p2) },
            StepView::Out { mailbox: 0x1D08, data: long_params_bytes(p3, p4) },
            StepView::WaitReady,
        ],
        long_read_plan(code, p1, p2, p4) == seq![
            StepView::Out { mailbox: 0x9D00, data: long_header_bytes(code, p1, p2) },
            StepView::Out { mailbox: 0x1D08, data: long_params_bytes(0, p4) },
            StepView::WaitReady,
            StepView::In { mailbox: 0x1D10, len: p4 as nat },
            StepView::WaitReady,
        ],
{
    assert(long_read_plan(code, p1, p2, p4) =~= seq![
        StepView::Out { mailbox: 0x9D00, data: long_header_bytes(code, p1, p2) },
        StepView::Out { mailbox: 0x1D08, data: long_params_bytes(0, p4) },
        StepView::WaitReady,
        StepView::In { mailbox: 0x1D10, len: p4 as nat },
        StepView::WaitReady,
    ]);
}

/// A plan shows what each step does, in order.
pub proof fn law_plan_shows_its_steps(steps: Seq<Step>, i: int)
    requires
        0 <= i < steps.len(),
    ensures
        plan_of(steps).len() == steps.len(),
        match steps[i] {
            Step::Out { mailbox, data } => plan_of(steps)[i] == (StepView::Out {
                mailbox,
                data: data@,
            }),
            Step::In { mailbox, len } => plan_of(steps)[i] == (StepView::In {
                mailbox,
                len: len as nat,
            }),
            Step::WaitReady => plan_of(steps)[i] == StepView::WaitReady,
        },
{
}

proof fn lemma_read_block(
    code: u16,
    param: u32,
    param_be: bool,
    len: int,
    offset: int,
    k: int,
)
    requires
        0 <= offset,
        0 <= k,
        offset + 256 * k < len,
    ensures
        ({
            let plan = read_steps(code, param, param_be, len, offset);
            let rest = read_steps(code, param, param_be, len, offset + 256 * k);
            &&& plan.len() == 4 * k + rest.len()
            &&& plan.skip(4 * k) == rest
        }),
    decreases k,
{
    let plan = read_steps(code, param, param_be, len, offset);
    if k > 0 {
        let next = read_steps(code, param, param_be, len, offset + 256);
        lemma_read_block(code, param, param_be, len, offset + 256, k - 1);
        assert(plan.skip(4) =~= next);
        assert(plan.skip(4 * k) =~= next.skip(4 * (k - 1)));
    } else {
        assert(plan.skip(0) =~= plan);
    }
}

proof fn lemma_read_len(code: u16, param: u32, param_be: bool, len: int, offset: int)
    requires
        0 <= offset <= len,
    ensures
        read_steps(code, param, param_be, len, offset).len() == 4 * ((len - offset + 255) / 256),
    decreases len - offset,
{
    if offset < len {
        if len - offset > 256 {
            lemma_read_len(code, param, param_be, len, offset + 256);
        } else {
            lemma_read_len(code, param, param_be, len, len);
        }
    }
}

/// A standard read takes four steps per block of 256 bytes. The header of the
/// block number `k` goes to mailbox 0x1D00 and spells the code, the parameter
/// advanced by `256 * k` and the block's size; after a wait so many bytes are
/// fetched from mailbox 0x1D08, and there is a wait again.
pub proof fn law_read_block(code: u16, param: u32, param_be: bool, len: nat, k: int)
    requires
        0 <= k,
        256 * k < len,
    ensures
        ({
            let plan = read_plan(code, param, param_be, len as int);
            let size = if len - 256 * k < 256 {
                len - 256 * k
            } else {
                256
            };
            &&& plan.len() == 4 * ((len + 255) / 256)
            &&& plan[4 * k] matches StepView::Out { mailbox, data }
            &&& mailbox == 0x1D00
            &&& spells_header(data, code, (param + 256 * k) % 0x1_0000_0000, param_be, size)
            &&& plan[4 * k + 1] == StepView::WaitReady
            &&& plan[4 * k + 2] == (StepView::In { mailbox: 0x1D08, len: size as nat })
            &&& plan[4 * k + 3] == StepView::WaitReady
        }),
{
    let plan = read_plan(code, param, param_be, len as int);
    let rest = read_steps(code, param, param_be, len as int, 256 * k);
    lemma_read_len(code, param, param_be, len as int, 0);
    lemma_read_block(code, param, param_be, len as int, 0, k);
    reveal(advanced);
    let size = if len - 256 * k < 256 {
        len - 256 * k
    } else {
        256
    };
    law_header_spells_its_fields(code, advanced(param, 256 * k), param_be, size as u16);
    assert(plan[4 * k] == rest[0]) by {
        assert(plan.skip(4 * k)[0] == plan[4 * k]);
    }
    assert(plan[4 * k + 1] == rest[1]) by {
        assert(plan.skip(4 * k)[1] == plan[4 * k + 1]);
    }
    assert(plan[4 * k + 2] == rest[2]) by {
        assert(plan.skip(4 * k)[2] == plan[4 * k + 2]);
    }
    assert(plan[4 * k + 3] == rest[3]) by {
        assert(plan.skip(4 * k)[3] == plan[4 * k + 3]);
    }
}

/// A standard write without a payload: the header, with the length zero, to
/// mailbox 0x1D00, and a wait.
pub proof fn law_write_without_payload(code: u16, param: u32, param_be: bool)
    ensures
        ({
            let plan = write_plan(code, param, param_be, Seq::empty());
            &&& plan.len() == 2
            &&& plan[0] matches StepView::Out { mailbox, data }
            &&& mailbox == 0x1D00
            &&& spells_header(data, code, param as int, param_be, 0)
            &&& plan[1] == StepView::WaitReady
        }),
{
    law_header_spells_its_fields(code, param, param_be, 0);
}

proof fn lemma_full_segments(block: Seq<u8>, j: int, i: int)
    requires
        0 <= j,
        0 <= i,
        j + 64 * i < block.len() <= 256,
    ensures
        segment_steps(block, j).len() == i + segment_steps(block, j + 64 * i).len(),
        segment_steps(block, j).skip(i) == segment_steps(block, j + 64 * i),
    decreases i,
{
    let plan = segment_steps(block, j);
    if i > 0 {
        let next = segment_steps(block, j + 64);
        lemma_full_segments(block, j + 64, i - 1);
        assert(plan.skip(1) =~= next);
        assert(plan.skip(i) =~= next.skip(i - 1));
    } else {
        assert(plan.skip(0) =~= plan);
    }
}

/// A standard write of a payload of up to 256 bytes. The header goes to
/// mailbox 0x9D00 and spells the code, the parameter and the payload's length.
/// After a wait come whole segments of 64 bytes, as long as more than one is
/// left, the one number `i` to mailbox 0x9D08 + 64 * i. Of a rest of more than
/// eight bytes the last eight go to mailbox 0x1D08 plus their offset, and what
/// precedes them to mailbox 0x9D08 plus its offset; a shorter rest goes to
/// mailbox 0x1D08 plus its offset as a whole. Then there is a wait.
pub proof fn law_write_of_a_block(
    code: u16,
    param: u32,
    param_be: bool,
    payload: Seq<u8>,
    i: int,
)
    requires
        1 <= payload.len() <= 256,
        0 <= i < (payload.len() - 1) / 64,
    ensures
        write_plan(code, param, param_be, payload)[2 + i] == (StepView::Out {
            mailbox: (0x9D08 + 64 * i) as u16,
            data: payload.subrange(64 * i, 64 * i + 64),
        }),
{
    let n = payload.len() as int;
    assert(block_at(payload, 0) =~= payload);
    lemma_full_segments(payload, 0, i);
    let segments = segment_steps(payload, 0);
    assert(segments.skip(i)[0] == segments[i]);
}

/// The frame of a write of up to 256 bytes: what stands before and behind its
/// whole segments. See [`law_write_of_a_block`].
pub proof fn law_write_of_a_block_ends(code: u16, param: u32, param_be: bool, payload: Seq<u8>)
    requires
        1 <= payload.len() <= 256,
    ensures
        ({
            let plan = write_plan(code, param, param_be, payload);
            let n = payload.len() as int;
            let q = (n - 1) / 64;
            let rest = n - 64 * q;
            &&& plan[0] matches StepView::Out { mailbox, data }
            &&& mailbox == 0x9D00
            &&& spells_header(data, code, param as int, param_be, n)
            &&& plan[1] == StepView::WaitReady
            &&& if rest > 8 {
                &&& plan.len() == q + 5
                &&& plan[q + 2] == (StepView::Out {
                    mailbox: (0x9D08 + 64 * q) as u16,
                    data: payload.subrange(64 * q, n - 8),
                })
                &&& plan[q + 3] == (StepView::Out {
                    mailbox: (0x1D08 + n - 8) as u16,
                    data: payload.subrange(n - 8, n),
                })
                &&& plan[q + 4] == StepView::WaitReady
            } else {
                &&& plan.len() == q + 4
                &&& plan[q + 2] == (StepView::Out {
                    mailbox: (0x1D08 + 64 * q) as u16,
                    data: payload.subrange(64 * q, n),
                })
                &&& plan[q + 3] == StepView::WaitReady
            }
        }),
{
    let plan = write_plan(code, param, param_be, payload);
    let n = payload.len() as int;
    let q = (n - 1) / 64;
    assert(block_at(payload, 0) =~= payload);
    lemma_full_segments(payload, 0, q);
    let segments = segment_steps(payload, 0);
    let tail = segment_steps(payload, 64 * q);
    assert(block_steps(code, param, param_be, payload, n) =~= Seq::empty());
    assert(plan.skip(2) =~= segments);
    assert forall|t: int| 0 <= t < tail.len() implies plan[2 + q + t] == #[trigger] tail[t] by {
        assert(segments.skip(q)[t] == segments[q + t]);
        assert(plan.skip(2)[q + t] == plan[2 + q + t]);
    }
    assert(plan[2 + q + 0] == tail[0]);
    assert(plan[2 + q + 1] == tail[1]);
    if n - 64 * q > 8 {
        assert(plan[2 + q + 2] == tail[2]);
    }
    lemma_not_advanced(param);
    law_header_spells_its_fields(code, param, param_be, n as u16);
}

proof fn lemma_blocks_shifted(
    code: u16,
    param: u32,
    next: u32,
    param_be: bool,
    payload: Seq<u8>,
    offset: int,
)
    requires
        256 <= offset <= payload.len(),
        next == (param + 256) % 0x1_0000_0000,
    ensures
        block_steps(code, param, param_be, payload, offset) == block_steps(
            code,
            next,
            param_be,
            payload.skip(256),
            offset - 256,
        ),
    decreases payload.len() - offset,
{
    if offset < payload.len() {
        let block = block_at(payload, offset);
        assert(block =~= block_at(payload.skip(256), offset - 256));
        reveal(advanced);
        assert(advanced(param, offset) == advanced(next, offset - 256));
        lemma_blocks_shifted(code, param, next, param_be, payload, offset + block.len());
    }
}

/// A longer payload is written block by block: the first 256 bytes as if they
/// were all, then the rest as a payload of its own, with the parameter advanced
/// by 256, modulo 2^32.
pub proof fn law_long_write_is_split(
    code: u16,
    param: u32,
    next: u32,
    param_be: bool,
    payload: Seq<u8>,
)
    requires
        payload.len() > 256,
        next == (param + 256) % 0x1_0000_0000,
    ensures
        write_plan(code, param, param_be, payload) == write_plan(
            code,
            param,
            param_be,
            payload.take(256),
        ) + write_plan(code, next, param_be, payload.skip(256)),
{
    let first = payload.take(256);
    assert(block_at(payload, 0) =~= first);
    assert(block_at(first, 0) =~= first);
    lemma_blocks_shifted(code, param, next, param_be, payload, 256);
    assert(block_steps(code, param, param_be, first, 256) =~= Seq::empty());
    assert(write_plan(code, param, param_be, payload) =~= write_plan(code, param, param_be, first)
        + write_plan(code, next, param_be, payload.skip(256)));
}

/// Memory that write commands go to: the address that the last header spelled,
/// and what was written, by address.
pub struct Flash {
    pub base: int,
    pub cells: spec_fn(int) -> Option<u8>,
}

/// Memory to which `data` was written, from the given offset on.
pub open spec fn flash_with(flash: Flash, offset: int, data: Seq<u8>) -> Flash {
    Flash {
        base: flash.base,
        cells: |a: int|
            {
                let t = (a - flash.base - offset) % 0x1_0000_0000;
                if t < data.len() {
                    Some(data[t])
                } else {
                    (flash.cells)(a)
                }
            },
    }
}

/// Memory after a step: a header sets the address; what goes to the bulk and
/// the data mailbox is written behind it, at the offset of the mailbox.
pub open spec fn flash_step(flash: Flash, step: StepView, be: bool) -> Flash {
    match step {
        StepView::Out { mailbox, data } => if mailbox == 0x9D00 {
            Flash { base: number_at(data, 2, be), cells: flash.cells }
        } else if 0x9D08 <= mailbox < 0x9E08 {
            flash_with(flash, mailbox - 0x9D08, data)
        } else if 0x1D08 <= mailbox < 0x1E08 {
            flash_with(flash, mailbox - 0x1D08, data)
        } else {
            flash
        },
        _ => flash,
    }
}

/// Memory after the steps of a plan.
pub open spec fn flash_after(flash: Flash, plan: Seq<StepView>, be: bool) -> Flash
    decreases plan.len(),
{
    if plan.len() == 0 {
        flash
    } else {
        flash_step(flash_after(flash, plan.drop_last(), be), plan.last(), be)
    }
}

proof fn lemma_flash_append(flash: Flash, a: Seq<StepView>, b: Seq<StepView>, be: bool)
    ensures
        flash_after(flash, a + b, be) == flash_after(flash_after(flash, a, be), b, be),
    decreases b.len(),
{
    if b.len() == 0 {
        assert(a + b =~= a);
    } else {
        lemma_flash_append(flash, a, b.drop_last(), be);
        assert((a + b).drop_last() =~= a + b.drop_last());
        assert((a + b).last() == b.last());
    }
}

proof fn lemma_flash_one(flash: Flash, step: StepView, be: bool)
    ensures
        flash_after(flash, seq![step], be) == flash_step(flash, step, be),
{
    let one = seq![step];
    assert(one.drop_last() =~= Seq::empty());
    assert(one.last() == step);
    assert(flash_after(flash, Seq::empty(), be) == flash);
}

proof fn lemma_flash_segments(flash: Flash, block: Seq<u8>, j: int, be: bool, a: int)
    requires
        0 <= j <= block.len() <= 256,
    ensures
        ({
            let after = flash_after(flash, segment_steps(block, j), be);
            let t = (a - flash.base) % 0x1_0000_0000;
            &&& after.base == flash.base
            &&& (after.cells)(a) == if j <= t < block.len() {
                Some(block[t])
            } else {
                (flash.cells)(a)
            }
        }),
    decreases block.len() - j,
{
    let end = block.len() as int;
    let t = (a - flash.base) % 0x1_0000_0000;
    assert((a - flash.base - j) % 0x1_0000_0000 == if t >= j {
        t - j
    } else {
        t - j + 0x1_0000_0000
    });
    if j >= end {
    } else if end - j > 64 {
        let first = StepView::Out {
            mailbox: (MAILBOX_BULK + j) as u16,
            data: block.subrange(j, j + 64),
        };
        let mid = flash_step(flash, first, be);
        lemma_flash_one(flash, first, be);
        lemma_flash_append(flash, seq![first], segment_steps(block, j + 64), be);
        lemma_flash_segments(mid, block, j + 64, be, a);
    } else if end - j > 8 {
        let split = end - 8;
        let bulk = StepView::Out {
            mailbox: (MAILBOX_BULK + j) as u16,
            data: block.subrange(j, split),
        };
        let data = StepView::Out {
            mailbox: (MAILBOX_DATA + split) as u16,
            data: block.subrange(split, end),
        };
        assert((a - flash.base - split) % 0x1_0000_0000 == if t >= split {
            t - split
        } else {
            t - split + 0x1_0000_0000
        });
        let mid = flash_step(flash, bulk, be);
        let after = flash_step(mid, data, be);
        lemma_flash_one(flash, bulk, be);
        lemma_flash_one(mid, data, be);
        lemma_flash_one(after, StepView::WaitReady, be);
        lemma_flash_append(flash, seq![bulk], seq![data], be);
        lemma_flash_append(flash, seq![bulk] + seq![data], seq![StepView::WaitReady], be);
        assert(segment_steps(block, j) =~= seq![bulk] + seq![data] + seq![StepView::WaitReady]);
    } else {
        let data = StepView::Out {
            mailbox: (MAILBOX_DATA + j) as u16,
            data: block.subrange(j, end),
        };
        let after = flash_step(flash, data, be);
        lemma_flash_one(flash, data, be);
        lemma_flash_one(after, StepView::WaitReady, be);
        lemma_flash_append(flash, seq![data], seq![StepView::WaitReady], be);
        assert(segment_steps(block, j) =~= seq![data] + seq![StepView::WaitReady]);
    }
}

proof fn lemma_flash_blocks(
    flash: Flash,
    code: u16,
    param: u32,
    be: bool,
    payload: Seq<u8>,
    offset: int,
    a: int,
)
    requires
        0 <= offset <= payload.len() <= 0x1_0000_0000,
    ensures
        ({
            let after = flash_after(flash, block_steps(code, param, be, payload, offset), be);
            let i = (a - param) % 0x1_0000_0000;
            (after.cells)(a) == if offset <= i < payload.len() {
                Some(payload[i])
            } else {
                (flash.cells)(a)
            }
        }),
    decreases payload.len() - offset,
{
    if offset < payload.len() {
        let block = block_at(payload, offset);
        let i = (a - param) % 0x1_0000_0000;
        let header = StepView::Out {
            mailbox: MAILBOX_HEADER_B,
            data: header_bytes(code, advanced(param, offset), be, block.len() as u16),
        };
        law_header_spells_its_fields(code, advanced(param, offset), be, block.len() as u16);
        let segments = segment_steps(block, 0);
        let rest = block_steps(code, param, be, payload, offset + block.len());
        let wait = StepView::WaitReady;
        let a1 = flash_step(flash, header, be);
        lemma_flash_one(flash, header, be);
        lemma_flash_one(a1, wait, be);
        lemma_flash_append(flash, seq![header], seq![wait], be);
        assert(seq![header, wait] =~= seq![header] + seq![wait]);
        lemma_flash_append(flash, seq![header, wait], segments, be);
        lemma_flash_append(flash, seq![header, wait] + segments, rest, be);
        let a2 = flash_after(a1, segments, be);
        lemma_flash_segments(a1, block, 0, be, a);
        lemma_flash_blocks(a2, code, param, be, payload, offset + block.len(), a);
        reveal(advanced);
        assert(a1.base == (param + offset) % 0x1_0000_0000);
        assert((a - a1.base) % 0x1_0000_0000 == if i >= offset {
            i - offset
        } else {
            i - offset + 0x1_0000_0000
        });
    }
}

/// A write puts its payload where it belongs: memory that takes each block at
/// the address that its header spells holds the byte number `i` of the payload
/// at the address `param + i`, modulo 2^32, for every `i`, and nothing else has
/// changed.
pub proof fn law_write_reaches_its_addresses(
    flash: Flash,
    code: u16,
    param: u32,
    param_be: bool,
    payload: Seq<u8>,
    address: int,
)
    requires
        1 <= payload.len() <= 0x1_0000_0000,
    ensures
        ({
            let plan = write_plan(code, param, param_be, payload);
            let i = (address - param) % 0x1_0000_0000;
            (flash_after(flash, plan, param_be).cells)(address) == if i < payload.len() {
                Some(payload[i])
            } else {
                (flash.cells)(address)
            }
        }),
{
    lemma_flash_blocks(flash, code, param, param_be, payload, 0, address);
}

} // verus!
