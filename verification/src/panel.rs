//! The state of the viewer's controls: running, recording, the fingers on the
//! picture, and the texts that go with them.

use crate::text::{trim, trimmed};
use crate::video::VideoEvent;
use vstd::prelude::*;

verus! {

/// The lines of a text: what stands between its line breaks.
pub open spec fn lines_of(s: Seq<char>) -> Seq<Seq<char>>
    decreases s.len(),
{
    if s.len() == 0 {
        seq![Seq::empty()]
    } else {
        let before = lines_of(s.drop_last());
        if s.last() == '\n' {
            before.push(Seq::empty())
        } else {
            before.drop_last().push(before.last().push(s.last()))
        }
    }
}

/// Splits a status text into its lines.
pub fn status_lines(msg: &str) -> (r: Vec<String>)
    ensures
        r@.map_values(|s: String| s@) == lines_of(msg@),
{
    let len: usize = msg.unicode_len();
    let mut lines: Vec<String> = Vec::new();
    let mut start: usize = 0;
    let mut i: usize = 0;
    assert(msg@.subrange(0, 0) =~= Seq::empty());
    assert(lines@.map_values(|s: String| s@).push(msg@.subrange(0, 0)) =~= lines_of(msg@.take(0)));
    while i < len
        invariant
            start <= i <= len == msg@.len(),
            lines@.map_values(|s: String| s@).push(msg@.subrange(start as int, i as int))
                == lines_of(msg@.take(i as int)),
        decreases len - i,
    {
        let ghost before = lines@.map_values(|s: String| s@);
        let ghost part = msg@.subrange(start as int, i as int);
        proof {
            assert(msg@.take(i + 1).drop_last() =~= msg@.take(i as int));
            assert(before.push(part).drop_last() =~= before);
        }
        if msg.get_char(i) == '\n' {
            lines.push(msg.substring_char(start, i).to_owned());
            start = i + 1;
            assert(lines@.map_values(|s: String| s@) =~= before.push(part));
            assert(msg@.subrange(start as int, i + 1) =~= Seq::empty());
        } else {
            assert(msg@.subrange(start as int, i + 1) =~= part.push(msg@[i as int]));
        }
        i += 1;
    }
    let ghost before = lines@.map_values(|s: String| s@);
    lines.push(msg.substring_char(start, len).to_owned());
    assert(lines@.map_values(|s: String| s@) =~= before.push(
        msg@.subrange(start as int, len as int),
    ));
    assert(msg@.take(len as int) =~= msg@);
    lines
}

/// What the video button is for.
#[derive(Debug, Clone, Copy, PartialEq, Eq, Structural)]
pub enum VideoButton {
    /// Let the user pick a file; then call [`Panel::target_picked`].
    Pick,
    /// Stop the recorder.
    Stop,
}

/// The state of the controls.
#[derive(Debug, Clone)]
pub struct Panel {
    /// The live view follows the camera.
    pub running: bool,
    /// A recording goes on.
    pub recording: bool,
    /// The name of the recorded file.
    pub video_name: Option<String>,
    /// Why the last recording failed.
    pub video_err: Option<String>,
}

impl Panel {
    /// The controls at the start: running, not recording.
    pub fn new() -> (r: Panel)
        ensures
            r.running,
            !r.recording,
            r.video_name is None,
            r.video_err is None,
    {
        Panel { running: true, recording: false, video_name: None, video_err: None }
    }

    /// Whether what comes from the camera is shown, and a frame of it
    /// recorded: while stopped, frames are dropped, messages are not.
    pub fn accepts(&self, is_frame: bool) -> (r: bool)
        ensures
            r == (self.running || !is_frame),
    {
        self.running || !is_frame
    }

    /// The start/stop button was pressed.
    pub fn toggle_running(&mut self)
        ensures
            *final(self) == (Panel { running: !old(self).running, ..*old(self) }),
    {
        self.running = !self.running;
    }

    /// The video button was pressed: ends a recording, or begins one.
    pub fn press_video(&mut self) -> (r: VideoButton)
        ensures
            r == if old(self).recording {
                VideoButton::Stop
            } else {
                VideoButton::Pick
            },
            *final(self) == (Panel { recording: false, ..*old(self) }),
    {
        if self.recording {
            self.recording = false;
            VideoButton::Stop
        } else {
            VideoButton::Pick
        }
    }

    /// The user picked a file for the video, and the recorder was started.
    pub fn target_picked(&mut self, name: String)
        ensures
            final(self).running == old(self).running,
            final(self).recording,
            final(self).video_name == Some(name),
            final(self).video_err is None,
    {
        self.video_name = Some(name);
        self.recording = true;
        self.video_err = None;
    }

    /// The recorder reported an event: either way the recording is over.
    pub fn video_event(&mut self, event: VideoEvent)
        ensures
            final(self).running == old(self).running,
            !final(self).recording,
            final(self).video_name == old(self).video_name,
            final(self).video_err == match event {
                VideoEvent::Stopped { .. } => old(self).video_err,
                VideoEvent::Error(msg) => Some(msg),
            },
    {
        self.recording = false;
        if let VideoEvent::Error(msg) = event {
            self.video_err = Some(msg);
        }
    }

    /// The label of the start/stop button.
    pub fn running_label(&self) -> (r: &'static str)
        ensures
            r@ == if self.running {
                "Stop cam"@
            } else {
                "Start cam"@
            },
    {
        if self.running {
            "Stop cam"
        } else {
            "Start cam"
        }
    }

    /// The label of the video button.
    pub fn video_label(&self) -> (r: &'static str)
        ensures
            r@ == if !self.recording {
                "Save vid"@
            } else if self.running {
                "\u{25a0} Stop"@
            } else {
                "\u{25a0} Stop (paused)"@
            },
    {
        if !self.recording {
            "Save vid"
        } else if self.running {
            "\u{25a0} Stop"
        } else {
            "\u{25a0} Stop (paused)"
        }
    }

    /// The style class of the video button.
    pub fn video_class(&self) -> (r: &'static str)
        ensures
            r@ == if !self.recording {
                "control-btn"@
            } else if self.running {
                "control-btn rec rec-active"@
            } else {
                "control-btn rec rec-paused"@
            },
    {
        if !self.recording {
            "control-btn"
        } else if self.running {
            "control-btn rec rec-active"
        } else {
            "control-btn rec rec-paused"
        }
    }
}

/// A text with points in place of commas.
pub open spec fn with_points(s: Seq<char>) -> Seq<char> {
    s.map_values(
        |c: char|
            if c == ',' {
                '.'
            } else {
                c
            },
    )
}

/// An end of the color scale that the user can pin to a temperature.
#[derive(Debug, Clone)]
pub struct RangeField {
    /// The end is pinned.
    pub fixed: bool,
    /// What stands in the text field.
    pub text: String,
}

impl RangeField {
    /// A field that pins nothing.
    pub fn new() -> (r: RangeField)
        ensures
            !r.fixed,
            r.text@ == Seq::<char>::empty(),
    {
        RangeField { fixed: false, text: String::new() }
    }

    /// The check box was set or cleared. A blank text field is filled with
    /// the current value when the end is pinned.
    pub fn toggle(&mut self, fixed: bool, current: String)
        ensures
            final(self).fixed == fixed,
            final(self).text == if fixed && trimmed(old(self).text@).len() == 0 {
                current
            } else {
                old(self).text
            },
    {
        self.fixed = fixed;
        if fixed && trim(self.text.as_str()).unicode_len() == 0 {
            self.text = current;
        }
    }

    /// The text field was edited.
    pub fn input(&mut self, text: String)
        ensures
            *final(self) == (RangeField { text, ..*old(self) }),
    {
        self.text = text;
    }

    /// The numeral of the pinned temperature: what stands in the field,
    /// without the white space around it, and with a point for every comma.
    /// `None` if nothing is pinned.
    pub fn limit(&self) -> (r: Option<String>)
        ensures
            r is Some <==> self.fixed,
            r matches Some(s) ==> s@ == with_points(trimmed(self.text@)),
    {
        if !self.fixed {
            return None;
        }
        let text = trim(self.text.as_str());
        let len: usize = text.unicode_len();
        let mut out = String::new();
        let mut i: usize = 0;
        assert(with_points(text@.take(0)) =~= Seq::empty());
        while i < len
            invariant
                i <= len == text@.len(),
                out@ == with_points(text@.take(i as int)),
            decreases len - i,
        {
            let ghost before = out@;
            if text.get_char(i) == ',' {
                proof {
                    reveal_strlit(".");
                }
                out.append(".");
            } else {
                out.append(text.substring_char(i, i + 1));
            }
            assert(out@ =~= with_points(text@.take(i + 1)));
            i += 1;
        }
        assert(text@.take(len as int) =~= text@);
        Some(out)
    }
}

/// One actively-touching pointer (mouse button held, or a finger on screen).
#[derive(Debug, Clone, Copy)]
pub struct Contact<T> {
    pub id: i32,
    pub place: T,
}

/// The pointers but the one with the given ID.
pub open spec fn without<T>(contacts: Seq<Contact<T>>, id: i32) -> Seq<Contact<T>>
    decreases contacts.len(),
{
    if contacts.len() == 0 {
        Seq::empty()
    } else if contacts.last().id == id {
        without(contacts.drop_last(), id)
    } else {
        without(contacts.drop_last(), id).push(contacts.last())
    }
}

/// There is a pointer with the given ID.
pub open spec fn touches<T>(contacts: Seq<Contact<T>>, id: i32) -> bool {
    exists|i: int| 0 <= i < contacts.len() && (#[trigger] contacts[i]).id == id
}

/// No two pointers share an ID.
pub open spec fn distinct<T>(contacts: Seq<Contact<T>>) -> bool {
    forall|i: int, j: int|
        0 <= i < j < contacts.len() ==> (#[trigger] contacts[i]).id != (#[trigger] contacts[j]).id
}

proof fn lemma_without<T>(contacts: Seq<Contact<T>>, id: i32)
    ensures
        without(contacts, id).len() <= contacts.len(),
        !touches(without(contacts, id), id),
        forall|i: int|
            0 <= i < without(contacts, id).len() ==> touches(
                contacts,
                (#[trigger] without(contacts, id)[i]).id,
            ),
        distinct(contacts) ==> distinct(without(contacts, id)),
    decreases contacts.len(),
{
    if contacts.len() > 0 {
        let rest = contacts.drop_last();
        let kept = without(contacts, id);
        lemma_without(rest, id);
        assert forall|i: int| 0 <= i < kept.len() implies touches(
            contacts,
            (#[trigger] kept[i]).id,
        ) by {
            if i < without(rest, id).len() {
                assert(kept[i] == without(rest, id)[i]);
                let k = choose|k: int| 0 <= k < rest.len() && (#[trigger] rest[k]).id == kept[i].id;
                assert(contacts[k].id == kept[i].id);
            } else {
                assert(contacts[contacts.len() - 1].id == kept[i].id);
            }
        }
        if distinct(contacts) {
            assert(distinct(rest)) by {
                assert forall|i: int, j: int| 0 <= i < j < rest.len() implies (
                #[trigger] rest[i]).id != (#[trigger] rest[j]).id by {
                    assert(contacts[i].id != contacts[j].id);
                }
            }
            assert forall|i: int, j: int| 0 <= i < j < kept.len() implies (#[trigger] kept[i]).id
                != (#[trigger] kept[j]).id by {
                let inner = without(rest, id);
                assert(kept[i] == inner[i]);
                if j < inner.len() {
                    assert(kept[j] == inner[j]);
                } else {
                    assert(touches(rest, inner[i].id));
                    let k = choose|k: int|
                        0 <= k < rest.len() && (#[trigger] rest[k]).id == inner[i].id;
                    assert(contacts[k].id != contacts[contacts.len() - 1].id);
                }
            }
        }
    }
}

/// The pointers on the picture, at most two: one drags, two pinch.
#[derive(Debug, Clone)]
pub struct Pointers<T> {
    contacts: Vec<Contact<T>>,
}

impl<T> View for Pointers<T> {
    type V = Seq<Contact<T>>;

    closed spec fn view(&self) -> Seq<Contact<T>> {
        self.contacts@
    }
}

impl<T: Copy> Pointers<T> {
    /// At most two pointers, with different IDs.
    pub open spec fn wf(&self) -> bool {
        self@.len() <= 2 && distinct(self@)
    }

    /// No pointers.
    pub fn new() -> (r: Pointers<T>)
        ensures
            r.wf(),
            r@ == Seq::<Contact<T>>::empty(),
    {
        let r = Pointers { contacts: Vec::new() };
        assert(r@ =~= Seq::<Contact<T>>::empty());
        r
    }

    /// The pointers.
    pub fn contacts(&self) -> (r: &[Contact<T>])
        ensures
            r@ == self@,
    {
        self.contacts.as_slice()
    }

    fn drop_id(&mut self, id: i32)
        requires
            old(self).wf(),
        ensures
            final(self).wf(),
            final(self)@ == without(old(self)@, id),
    {
        let mut kept: Vec<Contact<T>> = Vec::new();
        let mut i: usize = 0;
        assert(self@.take(0) =~= Seq::<Contact<T>>::empty());
        assert(kept@ =~= without(self@.take(0), id));
        while i < self.contacts.len()
            invariant
                self@ == self.contacts@,
                i <= self@.len(),
                kept@ == without(self@.take(i as int), id),
            decreases self.contacts.len() - i,
        {
            assert(self@.take(i + 1).drop_last() =~= self@.take(i as int));
            if self.contacts[i].id != id {
                kept.push(self.contacts[i]);
            }
            i += 1;
        }
        assert(self@.take(i as int) =~= self@);
        proof {
            lemma_without(self@, id);
        }
        self.contacts = kept;
    }

    /// A pointer came down. A third one is not followed; one that is already
    /// there is followed anew.
    pub fn press(&mut self, id: i32, place: T)
        requires
            old(self).wf(),
        ensures
            final(self).wf(),
            final(self)@ == if without(old(self)@, id).len() < 2 {
                without(old(self)@, id).push(Contact { id, place })
            } else {
                without(old(self)@, id)
            },
    {
        proof {
            lemma_without(self@, id);
        }
        self.drop_id(id);
        if self.contacts.len() < 2 {
            let ghost before = self@;
            self.contacts.push(Contact { id, place });
            proof {
                assert(self@ =~= before.push(Contact { id, place }));
                assert forall|i: int, j: int| 0 <= i < j < self@.len() implies (
                #[trigger] self@[i]).id != (#[trigger] self@[j]).id by {
                    assert(self@[i] == before[i]);
                    if j < before.len() {
                        assert(self@[j] == before[j]);
                    }
                }
            }
        }
    }

    /// A pointer moved. Returns whether it is followed: a hover without a
    /// press is not.
    pub fn move_to(&mut self, id: i32, place: T) -> (r: bool)
        requires
            old(self).wf(),
        ensures
            final(self).wf(),
            r == touches(old(self)@, id),
            final(self)@.len() == old(self)@.len(),
            forall|i: int|
                0 <= i < final(self)@.len() ==> #[trigger] final(self)@[i] == if old(self)@[i].id
                    == id {
                    Contact { id, place }
                } else {
                    old(self)@[i]
                },
    {
        let mut i: usize = 0;
        while i < self.contacts.len()
            invariant
                *self == *old(self),
                self.wf(),
                i <= self@.len(),
                self@ == self.contacts@,
                forall|k: int| 0 <= k < i ==> (#[trigger] self@[k]).id != id,
            decreases self.contacts.len() - i,
        {
            if self.contacts[i].id == id {
                assert(self@[i as int].id == id);
                self.contacts.set(i, Contact { id, place });
                proof {
                    assert forall|k: int| 0 <= k < self@.len() implies #[trigger] self@[k] == (if old(
                        self,
                    )@[k].id == id {
                        Contact { id, place }
                    } else {
                        old(self)@[k]
                    }) by {
                        if k > i {
                            assert(old(self)@[i as int].id != old(self)@[k].id);
                        }
                    }
                    assert forall|a: int, b: int| 0 <= a < b < self@.len() implies (
                    #[trigger] self@[a]).id != (#[trigger] self@[b]).id by {
                        assert(old(self)@[a].id != old(self)@[b].id);
                    }
                }
                return true;
            }
            i += 1;
        }
        false
    }

    /// A pointer went up or was lost. Returns whether one is left.
    pub fn release(&mut self, id: i32) -> (r: bool)
        requires
            old(self).wf(),
        ensures
            final(self).wf(),
            final(self)@ == without(old(self)@, id),
            r == (final(self)@.len() > 0),
    {
        self.drop_id(id);
        self.contacts.len() > 0
    }

    /// All pointers are forgotten.
    pub fn clear(&mut self)
        ensures
            final(self).wf(),
            final(self)@ == Seq::<Contact<T>>::empty(),
    {
        self.contacts.clear();
        assert(self@ =~= Seq::<Contact<T>>::empty());
    }
}

/// A pointer that went up is not there any more, and no other pointer has
/// appeared in its place.
pub proof fn law_released_pointer_is_gone<T>(contacts: Seq<Contact<T>>, id: i32)
    ensures
        !touches(without(contacts, id), id),
        forall|other: i32|
            touches(without(contacts, id), other) ==> #[trigger] touches(contacts, other),
{
    lemma_without(contacts, id);
    assert forall|other: i32| touches(without(contacts, id), other) implies #[trigger] touches(
        contacts,
        other,
    ) by {
        let kept = without(contacts, id);
        let i = choose|i: int| 0 <= i < kept.len() && (#[trigger] kept[i]).id == other;
        assert(touches(contacts, kept[i].id));
    }
}

/// Lines put together again, with a line break between them.
pub open spec fn with_breaks(lines: Seq<Seq<char>>) -> Seq<char>
    decreases lines.len(),
{
    if lines.len() == 0 {
        Seq::empty()
    } else if lines.len() == 1 {
        lines[0]
    } else {
        with_breaks(lines.drop_last()).push('\n') + lines.last()
    }
}

/// A text is split at its line breaks: there is at least one line, no line
/// holds a break, and put together with breaks between them the lines are the
/// text.
pub proof fn law_lines_make_up_the_text(s: Seq<char>)
    ensures
        lines_of(s).len() >= 1,
        with_breaks(lines_of(s)) == s,
        forall|i: int, j: int|
            0 <= i < lines_of(s).len() && 0 <= j < lines_of(s)[i].len() ==> #[trigger] lines_of(
                s,
            )[i][j] != '\n',
    decreases s.len(),
{
    if s.len() == 0 {
        assert(with_breaks(lines_of(s)) =~= s);
    } else {
        let rest = s.drop_last();
        let c = s.last();
        let before = lines_of(rest);
        let lines = lines_of(s);
        law_lines_make_up_the_text(rest);
        if c == '\n' {
            assert(lines.drop_last() =~= before);
            assert(with_breaks(lines) =~= s);
            assert forall|i: int, j: int|
                0 <= i < lines.len() && 0 <= j < lines[i].len() implies #[trigger] lines[i][j]
                != '\n' by {
                assert(i < before.len());
                assert(lines[i] == before[i]);
            }
        } else {
            assert(lines.drop_last() =~= before.drop_last());
            assert(lines.last() == before.last().push(c));
            assert(before.len() == lines.len());
            if before.len() == 1 {
                assert(before[0] == before.last());
                assert(lines[0] == lines.last());
                assert(with_breaks(lines) =~= s);
            } else {
                assert(with_breaks(lines) =~= with_breaks(before).push(c));
                assert(with_breaks(lines) =~= s);
            }
            assert forall|i: int, j: int|
                0 <= i < lines.len() && 0 <= j < lines[i].len() implies #[trigger] lines[i][j]
                != '\n' by {
                if i < lines.len() - 1 {
                    assert(lines[i] == before[i]);
                } else {
                    assert(lines[i] == before[i].push(c));
                    if j < before[i].len() {
                        assert(lines[i][j] == before[i][j]);
                    }
                }
            }
        }
    }
}

/// Every comma becomes a point, and every other character stays.
pub proof fn law_commas_become_points(s: Seq<char>, i: int)
    requires
        0 <= i < s.len(),
    ensures
        with_points(s).len() == s.len(),
        s[i] == ',' ==> with_points(s)[i] == '.',
        s[i] != ',' ==> with_points(s)[i] == s[i],
{
}

/// Of the pointers one after the other, those with the ID are left out, and the
/// others stay, where they are and in order.
pub proof fn law_other_pointers_stay<T>(contacts: Seq<Contact<T>>, next: Contact<T>, id: i32)
    ensures
        without(Seq::<Contact<T>>::empty(), id).len() == 0,
        next.id == id ==> without(contacts.push(next), id) == without(contacts, id),
        next.id != id ==> without(contacts.push(next), id) == without(contacts, id).push(next),
{
    assert(contacts.push(next).drop_last() =~= contacts);
}

/// Whether a pointer is there is told by the IDs.
pub proof fn law_touching<T>(contacts: Seq<Contact<T>>, id: i32, i: int)
    requires
        0 <= i < contacts.len(),
    ensures
        contacts[i].id == id ==> touches(contacts, id),
        touches(contacts, id) ==> exists|k: int|
            0 <= k < contacts.len() && (#[trigger] contacts[k]).id == id,
{
}

} // verus!
