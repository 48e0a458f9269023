//! Running a command: the steps of a plan, one after the other, and what came
//! of each.

use crate::text::{decimal, hex2, hex4, push_decimal, push_hex2, push_hex4};
use crate::transport::{
    bytes_read, plan_of, Step, StepView, MAILBOX_STATUS, REQUEST_IN, REQUEST_OUT, REQUEST_TYPE_IN,
    REQUEST_TYPE_OUT, REQUEST_VALUE,
};
use crate::usb::ControlSetup;
use vstd::prelude::*;

verus! {

/// Why a command failed.
#[derive(Debug, Clone, Copy, PartialEq, Eq, Structural)]
pub enum ConfigError {
    /// Fewer bytes were written than there were.
    ShortOut { mailbox: u16, done: usize, expected: usize },
    /// Fewer bytes were read than asked for.
    ShortIn { mailbox: u16, done: usize, expected: usize },
    /// The camera reported an error.
    Status(u8),
    /// The camera did not become ready in time.
    Timeout,
    /// The reply holds no palette.
    EmptyPalette,
    /// The reply holds a palette that is not known.
    UnknownPalette(u8),
    /// The reply is not a two-byte value.
    ShortValue,
    /// The reply is not a two-byte measurement parameter.
    ShortTpd,
    /// The reply is not text.
    NotUtf8,
}

impl ConfigError {
    /// The text shown to the user.
    pub open spec fn text(self) -> Seq<char> {
        match self {
            ConfigError::ShortOut { mailbox, done, expected } =>
                "Short control OUT transfer to mailbox 0x"@ + hex4(mailbox, true) + ": "@ + decimal(
                done as nat,
            ) + " of "@ + decimal(expected as nat) + " bytes"@,
            ConfigError::ShortIn { mailbox, done, expected } =>
                "Short control IN transfer from mailbox 0x"@ + hex4(mailbox, true) + ": "@
                + decimal(done as nat) + " of "@ + decimal(expected as nat) + " bytes"@,
            ConfigError::Status(status) => "Camera reported error status 0x"@ + hex2(status, true),
            ConfigError::Timeout => "Timeout waiting for the camera to become ready"@,
            ConfigError::EmptyPalette => "Empty palette response"@,
            ConfigError::UnknownPalette(id) => "Unknown palette ID: "@ + decimal(id as nat),
            ConfigError::ShortValue => "could not convert slice to array"@,
            ConfigError::ShortTpd => "Short TPD response"@,
            ConfigError::NotUtf8 => "Device information is not valid UTF-8"@,
        }
    }

    /// The text shown to the user.
    pub fn message(self) -> (r: String)
        ensures
            r@ == self.text(),
    {
        match self {
            ConfigError::ShortOut { mailbox, done, expected } => {
                let mut r = "Short control OUT transfer to mailbox 0x".to_owned();
                push_hex4(&mut r, mailbox, true);
                r.append(": ");
                push_decimal(&mut r, done as u64);
                r.append(" of ");
                push_decimal(&mut r, expected as u64);
                r.append(" bytes");
                r
            },
            ConfigError::ShortIn { mailbox, done, expected } => {
                let mut r = "Short control IN transfer from mailbox 0x".to_owned();
                push_hex4(&mut r, mailbox, true);
                r.append(": ");
                push_decimal(&mut r, done as u64);
                r.append(" of ");
                push_decimal(&mut r, expected as u64);
                r.append(" bytes");
                r
            },
            ConfigError::Status(status) => {
                let mut r = "Camera reported error status 0x".to_owned();
                push_hex2(&mut r, status, true);
                r
            },
            ConfigError::Timeout => "Timeout waiting for the camera to become ready".to_owned(),
            ConfigError::EmptyPalette => "Empty palette response".to_owned(),
            ConfigError::UnknownPalette(id) => {
                let mut r = "Unknown palette ID: ".to_owned();
                push_decimal(&mut r, id as u64);
                r
            },
            ConfigError::ShortValue => "could not convert slice to array".to_owned(),
            ConfigError::ShortTpd => "Short TPD response".to_owned(),
            ConfigError::NotUtf8 => "Device information is not valid UTF-8".to_owned(),
        }
    }
}

/// The camera is ready: bits 0 and 1 of the status are clear.
pub open spec fn is_ready(status: u8) -> bool {
    status % 4 == 0
}

/// The status reports an error: one of the other bits is set.
pub open spec fn has_error(status: u8) -> bool {
    status / 4 != 0
}

/// What a look at the status register says.
#[derive(Debug, Clone, Copy, PartialEq, Eq, Structural)]
pub enum Poll {
    Ready,
    /// Wait a little and look again.
    Busy,
}

/// What a status means to a caller that waits for the camera: ready if it is,
/// else an error if it reports one, else a timeout if the time is up.
pub fn wait_ready(status: u8, timed_out: bool) -> (r: Result<Poll, ConfigError>)
    ensures
        r == if is_ready(status) {
            Ok(Poll::Ready)
        } else if has_error(status) {
            Err(ConfigError::Status(status))
        } else if timed_out {
            Err(ConfigError::Timeout)
        } else {
            Ok(Poll::Busy)
        },
{
    if status % 4 == 0 {
        Ok(Poll::Ready)
    } else if status / 4 != 0 {
        Err(ConfigError::Status(status))
    } else if timed_out {
        Err(ConfigError::Timeout)
    } else {
        Ok(Poll::Busy)
    }
}

/// The setup fields of a transfer to a mailbox.
pub fn control_out(mailbox: u16) -> (r: ControlSetup)
    ensures
        r == (ControlSetup { request_type: 0x41, request: 0x45, value: 0x0078, index: mailbox }),
{
    ControlSetup {
        request_type: REQUEST_TYPE_OUT,
        request: REQUEST_OUT,
        value: REQUEST_VALUE,
        index: mailbox,
    }
}

/// The setup fields of a transfer from a mailbox.
pub fn control_in(mailbox: u16) -> (r: ControlSetup)
    ensures
        r == (ControlSetup { request_type: 0xC1, request: 0x44, value: 0x0078, index: mailbox }),
{
    ControlSetup {
        request_type: REQUEST_TYPE_IN,
        request: REQUEST_IN,
        value: REQUEST_VALUE,
        index: mailbox,
    }
}

/// A command under way. The caller performs the step that [`Exchange::step`]
/// names and reports with [`Exchange::sent`], [`Exchange::received`] or
/// [`Exchange::polled`], until there is none left.
#[derive(Debug)]
pub struct Exchange {
    steps: Vec<Step>,
    position: usize,
    reply: Vec<u8>,
}

impl Exchange {
    /// The steps of the command.
    pub closed spec fn plan(&self) -> Seq<StepView> {
        plan_of(self.steps@)
    }

    /// How many steps are done.
    pub closed spec fn position(&self) -> int {
        self.position as int
    }

    /// What was read so far.
    pub closed spec fn reply(&self) -> Seq<u8> {
        self.reply@
    }

    /// The bytes read are those that the steps done ask for.
    pub open spec fn wf(&self) -> bool {
        &&& 0 <= self.position() <= self.plan().len()
        &&& self.reply().len() == bytes_read(self.plan().take(self.position()))
    }

    /// All steps are done.
    pub open spec fn is_done(&self) -> bool {
        self.position() == self.plan().len()
    }

    /// The step to perform, where there is one.
    pub open spec fn current(&self) -> StepView {
        self.plan()[self.position()]
    }

    /// The command with the given steps, none of them done.
    pub open spec fn starts(&self, plan: Seq<StepView>) -> bool {
        &&& self.wf()
        &&& self.plan() == plan
        &&& self.position() == 0
        &&& self.reply() == Seq::<u8>::empty()
    }

    /// A command with the given steps.
    pub fn new(steps: Vec<Step>) -> (r: Exchange)
        ensures
            r.starts(plan_of(steps@)),
    {
        let r = Exchange { steps, position: 0, reply: Vec::new() };
        assert(r.plan().take(0) =~= Seq::empty());
        assert(r.reply() =~= Seq::empty());
        r
    }

    /// The step to perform; `None` once all are done.
    pub fn step(&self) -> (r: Option<&Step>)
        requires
            self.wf(),
        ensures
            r is None <==> self.is_done(),
            r matches Some(step) ==> step@ == self.current(),
            r is None <==> self.position() == self.plan().len(),
            r matches Some(step) ==> step@ == self.plan()[self.position()],
    {
        if self.position < self.steps.len() {
            Some(&self.steps[self.position])
        } else {
            None
        }
    }

    /// The data of an OUT step were handed over, and `written` bytes of them
    /// arrived.
    pub fn sent(&mut self, written: usize) -> (r: Result<(), ConfigError>)
        requires
            old(self).wf(),
            !old(self).is_done(),
            old(self).current() is Out,
        ensures
            final(self).wf(),
            final(self).plan() == old(self).plan(),
            final(self).reply() == old(self).reply(),
            old(self).current() matches StepView::Out { mailbox, data } && if written
                == data.len() {
                r is Ok && final(self).position() == old(self).position() + 1
            } else {
                &&& r matches Err(ConfigError::ShortOut { mailbox: m, done, expected })
                &&& (m, done, expected as nat) == (mailbox, written, data.len())
                &&& final(self).position() == old(self).position()
            },
    {
        proof {
            lemma_take_one(self.plan(), self.position());
        }
        if let Step::Out { mailbox, data } = &self.steps[self.position] {
            if written != data.len() {
                return Err(
                    ConfigError::ShortOut {
                        mailbox: *mailbox,
                        done: written,
                        expected: data.len(),
                    },
                );
            }
        }
        assert(self.position < self.steps.len());
        self.position += 1;
        Ok(())
    }

    /// The bytes that an IN step brought.
    pub fn received(&mut self, data: &[u8]) -> (r: Result<(), ConfigError>)
        requires
            old(self).wf(),
            !old(self).is_done(),
            old(self).current() is In,
        ensures
            final(self).wf(),
            final(self).plan() == old(self).plan(),
            old(self).current() matches StepView::In { mailbox, len } && if data@.len() == len {
                &&& r is Ok
                &&& final(self).position() == old(self).position() + 1
                &&& final(self).reply() == old(self).reply() + data@
            } else {
                &&& r matches Err(ConfigError::ShortIn { mailbox: m, done, expected })
                &&& (m, done as nat, expected as nat) == (mailbox, data@.len(), len)
                &&& final(self).position() == old(self).position()
                &&& final(self).reply() == old(self).reply()
            },
    {
        proof {
            lemma_take_one(self.plan(), self.position());
        }
        if let Step::In { mailbox, len } = &self.steps[self.position] {
            if data.len() != *len {
                return Err(
                    ConfigError::ShortIn { mailbox: *mailbox, done: data.len(), expected: *len },
                );
            }
        }
        self.reply.extend_from_slice(data);
        assert(self.reply@ =~= old(self).reply@ + data@);
        assert(self.position < self.steps.len());
        self.position += 1;
        Ok(())
    }

    /// What a read of the status register brought, in a wait for the camera,
    /// and whether the time is up.
    pub fn polled(&mut self, status: &[u8], timed_out: bool) -> (r: Result<Poll, ConfigError>)
        requires
            old(self).wf(),
            !old(self).is_done(),
            old(self).current() is WaitReady,
        ensures
            final(self).wf(),
            final(self).plan() == old(self).plan(),
            final(self).reply() == old(self).reply(),
            final(self).position() == old(self).position() + (if r == Ok::<Poll, ConfigError>(
                Poll::Ready,
            ) {
                1int
            } else {
                0
            }),
            r == if status@.len() != 1 {
                Err(
                    ConfigError::ShortIn {
                        mailbox: MAILBOX_STATUS,
                        done: status@.len() as usize,
                        expected: 1,
                    },
                )
            } else if is_ready(status@[0]) {
                Ok(Poll::Ready)
            } else if has_error(status@[0]) {
                Err(ConfigError::Status(status@[0]))
            } else if timed_out {
                Err(ConfigError::Timeout)
            } else {
                Ok(Poll::Busy)
            },
    {
        proof {
            lemma_take_one(self.plan(), self.position());
        }
        if status.len() != 1 {
            return Err(
                ConfigError::ShortIn { mailbox: MAILBOX_STATUS, done: status.len(), expected: 1 },
            );
        }
        let r = wait_ready(status[0], timed_out);
        if let Ok(Poll::Ready) = r {
            assert(self.position < self.steps.len());
            self.position += 1;
        }
        r
    }

    /// The reply of a command that is done: as many bytes as it asked for.
    pub fn finish(self) -> (r: Vec<u8>)
        requires
            self.wf(),
            self.is_done(),
        ensures
            r@ == self.reply(),
            r@.len() == bytes_read(self.plan()),
    {
        proof {
            assert(self.plan().take(self.position()) =~= self.plan());
        }
        self.reply
    }
}

proof fn lemma_take_one(plan: Seq<StepView>, i: int)
    requires
        0 <= i < plan.len(),
    ensures
        bytes_read(plan.take(i + 1)) == bytes_read(plan.take(i)) + (match plan[i] {
            StepView::In { len, .. } => len,
            _ => 0,
        }),
{
    assert(plan.take(i + 1).drop_last() =~= plan.take(i));
}

/// The status register: bits 0 and 1 say busy, the others report errors.
pub proof fn law_status_bits(status: u8)
    ensures
        is_ready(status) <==> status & 0x03 == 0,
        has_error(status) <==> status & 0xFC != 0,
{
    assert(status & 0x03 == status % 4) by (bit_vector);
    assert(status & 0xFC == 0 <==> status / 4 == 0) by (bit_vector);
}

/// The texts name the mailbox, in hexadecimal, and how many bytes went over of
/// how many.
pub proof fn law_error_texts(mailbox: u16, done: usize, expected: usize, status: u8)
    ensures
        (ConfigError::ShortOut { mailbox, done, expected }).text()
            == "Short control OUT transfer to mailbox 0x"@ + hex4(mailbox, true) + ": "@ + decimal(
            done as nat,
        ) + " of "@ + decimal(expected as nat) + " bytes"@,
        (ConfigError::ShortIn { mailbox, done, expected }).text()
            == "Short control IN transfer from mailbox 0x"@ + hex4(mailbox, true) + ": "@ + decimal(
            done as nat,
        ) + " of "@ + decimal(expected as nat) + " bytes"@,
        ConfigError::Status(status).text() == "Camera reported error status 0x"@ + hex2(
            status,
            true,
        ),
        ConfigError::UnknownPalette(status).text() == "Unknown palette ID: "@ + decimal(
            status as nat,
        ),
{
}

/// What a command reads in all is the sum of what its steps read.
pub proof fn law_bytes_read_add_up(plan: Seq<StepView>, step: StepView)
    ensures
        bytes_read(Seq::empty()) == 0,
        bytes_read(plan.push(step)) == bytes_read(plan) + match step {
            StepView::In { mailbox, len } => len,
            _ => 0,
        },
{
    assert(plan.push(step).drop_last() =~= plan);
}

} // verus!
