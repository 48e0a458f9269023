//! Whole recordings: what comes of a sequence of commands to the video writer.
//!
//! A command is paired with the answer that the outside world gives if it is
//! asked: whether the file could be created, the frame written, the trailer
//! written. A shutdown is a stop that no command follows.

use crate::text::decimal;
use crate::video::{
    create_failure, encoded, finalize_failure, packet_of, raster_len, setup_of, EventView, FrameActionView,
    OpenRec, PacketView, SetupView, StopActionView, WriterState,
};
use vstd::prelude::*;

verus! {

/// A command to the writer, and the answer of the outside world.
pub enum Command {
    /// Begin a recording; `created` says whether the file could be opened, or
    /// why not.
    Start { path: Seq<char>, created: Result<(), Seq<char>> },
    /// Record a frame; `written` says whether it, and before the first one the
    /// stream header, could be written, or why not.
    Frame { width: u32, height: u32, rgba: Seq<u8>, written: Result<(), Seq<char>> },
    /// End the recording; `finalized` says whether the trailer could be
    /// written, or why not.
    Stop { finalized: Result<(), Seq<char>> },
}

/// What a command makes the writer do.
pub enum Effect {
    CreateFile { path: Seq<char> },
    /// Write the stream header and the first packet.
    Begin { setup: SetupView, packet: PacketView },
    Append(PacketView),
    WriteTrailer,
    Report(EventView),
}

/// Nothing, or the report of a failure.
pub open spec fn failure_report(answer: Result<(), Seq<char>>) -> Seq<Effect> {
    match answer {
        Ok(()) => Seq::empty(),
        Err(reason) => seq![Effect::Report(EventView::Error(reason))],
    }
}

/// The state after a command.
pub open spec fn after(state: WriterState, command: Command) -> WriterState {
    match command {
        Command::Start { path, created } => if state is Idle && created is Ok {
            WriterState::Pending
        } else {
            state
        },
        Command::Frame { width, height, rgba, written } => {
            let next = state.after_frame(width, height, rgba.len());
            if next.at_rest() {
                next
            } else if written is Ok {
                next.after_written()
            } else {
                WriterState::Idle
            }
        },
        Command::Stop { finalized } => WriterState::Idle,
    }
}

/// What a command makes the writer do, in order.
pub open spec fn effects(state: WriterState, command: Command) -> Seq<Effect> {
    match command {
        Command::Start { path, created } => if !(state is Idle) {
            Seq::empty()
        } else {
            match created {
                Ok(()) => seq![Effect::CreateFile { path }],
                Err(error) => seq![
                    Effect::CreateFile { path },
                    Effect::Report(create_failure(path, error)),
                ],
            }
        },
        Command::Frame { width, height, rgba, written } => match state.frame_action(
            width,
            height,
            rgba,
        ) {
            FrameActionView::Open { setup, packet } => seq![Effect::Begin { setup, packet }]
                + failure_report(written),
            FrameActionView::Append(packet) => seq![Effect::Append(packet)] + failure_report(
                written,
            ),
            FrameActionView::Abort(event) => seq![Effect::Report(event)],
            _ => Seq::empty(),
        },
        Command::Stop { finalized } => match state.stop_action() {
            StopActionView::Finalize { frames } => seq![
                Effect::WriteTrailer,
                Effect::Report(
                    match finalized {
                        Ok(()) => EventView::Stopped { frames },
                        Err(reason) => finalize_failure(reason),
                    },
                ),
            ],
            StopActionView::Report(event) => seq![Effect::Report(event)],
        },
    }
}

/// The state after a sequence of commands.
pub open spec fn after_all(state: WriterState, commands: Seq<Command>) -> WriterState
    decreases commands.len(),
{
    if commands.len() == 0 {
        state
    } else {
        after(after_all(state, commands.drop_last()), commands.last())
    }
}

/// What a sequence of commands makes the writer do, in order.
pub open spec fn all_effects(state: WriterState, commands: Seq<Command>) -> Seq<Effect>
    decreases commands.len(),
{
    if commands.len() == 0 {
        Seq::empty()
    } else {
        all_effects(state, commands.drop_last()) + effects(
            after_all(state, commands.drop_last()),
            commands.last(),
        )
    }
}

/// The effect reports a failure.
pub open spec fn is_error(effect: Effect) -> bool {
    effect matches Effect::Report(EventView::Error(_))
}

/// The command is a frame.
pub open spec fn is_frame(command: Command) -> bool {
    command is Frame
}

/// The command is a frame of the given dimensions with a suitable buffer, and
/// it is written.
pub open spec fn is_written_frame(command: Command, width: u32, height: u32) -> bool {
    command matches Command::Frame { width: w, height: h, rgba, written } && w == width && h
        == height && rgba.len() == raster_len(width, height) && written is Ok
}

proof fn lemma_concat(state: WriterState, a: Seq<Command>, b: Seq<Command>)
    ensures
        after_all(state, a + b) == after_all(after_all(state, a), b),
        all_effects(state, a + b) == all_effects(state, a) + all_effects(after_all(state, a), b),
    decreases b.len(),
{
    if b.len() == 0 {
        assert(a + b =~= a);
        assert(all_effects(state, a) + Seq::<Effect>::empty() =~= all_effects(state, a));
    } else {
        lemma_concat(state, a, b.drop_last());
        assert((a + b).drop_last() =~= a + b.drop_last());
        assert((a + b).last() == b.last());
        let mid = after_all(state, a);
        assert(all_effects(state, a + b) =~= all_effects(state, a) + all_effects(mid, b));
    }
}

proof fn lemma_one(state: WriterState, command: Command)
    ensures
        after_all(state, seq![command]) == after(state, command),
        all_effects(state, seq![command]) == effects(state, command),
{
    let one = seq![command];
    assert(one.drop_last() =~= Seq::empty());
    assert(after_all(state, Seq::empty()) == state);
    assert(all_effects(state, Seq::empty()) == Seq::<Effect>::empty());
    assert(all_effects(state, one) =~= effects(state, command));
}

/// Between two commands no frame is under way.
pub proof fn law_writer_comes_to_rest(state: WriterState, commands: Seq<Command>)
    requires
        state.at_rest(),
    ensures
        after_all(state, commands).at_rest(),
    decreases commands.len(),
{
    if commands.len() > 0 {
        law_writer_comes_to_rest(state, commands.drop_last());
    }
}

/// While a recording is open, another start and a frame of other dimensions
/// change nothing: whatever came before and whatever follows, the same is
/// written and reported as without them. In particular no file is created for
/// the other start, the frame is not counted, and the recording goes on.
pub proof fn law_intruders_change_nothing(
    before: Seq<Command>,
    intruder: Command,
    rest: Seq<Command>,
)
    requires
        after_all(WriterState::Idle, before) matches WriterState::Open(rec) && match intruder {
            Command::Start { .. } => true,
            Command::Frame { width, height, .. } => rec.width != width || rec.height != height,
            Command::Stop { .. } => false,
        },
    ensures
        all_effects(WriterState::Idle, before + seq![intruder] + rest) == all_effects(
            WriterState::Idle,
            before + rest,
        ),
        after_all(WriterState::Idle, before + seq![intruder] + rest) == after_all(
            WriterState::Idle,
            before + rest,
        ),
{
    let idle = WriterState::Idle;
    let open = after_all(idle, before);
    lemma_one(open, intruder);
    lemma_concat(idle, before, seq![intruder]);
    lemma_concat(idle, before + seq![intruder], rest);
    lemma_concat(idle, before, rest);
    assert(effects(open, intruder) =~= Seq::empty());
    assert(all_effects(idle, before) + Seq::<Effect>::empty() =~= all_effects(idle, before));
}

/// A failure is reported once, as the last thing that the command does, and
/// leaves the writer idle.
pub proof fn law_failure_is_reported_once(state: WriterState, command: Command, i: int)
    requires
        state.at_rest(),
        0 <= i < effects(state, command).len(),
        is_error(effects(state, command)[i]),
    ensures
        i == effects(state, command).len() - 1,
        after(state, command) == WriterState::Idle,
{
}

/// An idle writer drops frames without a word.
pub proof fn law_idle_writer_drops_frames(frames: Seq<Command>)
    requires
        forall|i: int| 0 <= i < frames.len() ==> is_frame(#[trigger] frames[i]),
    ensures
        after_all(WriterState::Idle, frames) == WriterState::Idle,
        all_effects(WriterState::Idle, frames) == Seq::<Effect>::empty(),
    decreases frames.len(),
{
    if frames.len() > 0 {
        let rest = frames.drop_last();
        assert forall|i: int| 0 <= i < rest.len() implies is_frame(#[trigger] rest[i]) by {
            assert(rest[i] == frames[i]);
        }
        law_idle_writer_drops_frames(rest);
        assert(is_frame(frames[frames.len() - 1]));
        assert(all_effects(WriterState::Idle, frames) =~= Seq::empty());
    }
}

/// After a failure the recording is over. Frames that still come give no
/// report and no write. A stop then reports zero frames and writes no
/// trailer, and the next start is accepted.
pub proof fn law_failed_recording_is_over(
    before: Seq<Command>,
    failed: Command,
    i: int,
    frames: Seq<Command>,
    finalized: Result<(), Seq<char>>,
    path: Seq<char>,
)
    requires
        0 <= i < effects(after_all(WriterState::Idle, before), failed).len(),
        is_error(effects(after_all(WriterState::Idle, before), failed)[i]),
        forall|k: int| 0 <= k < frames.len() ==> is_frame(#[trigger] frames[k]),
    ensures
        ({
            let idle = WriterState::Idle;
            let over = before + seq![failed] + frames;
            &&& after_all(idle, over) == idle
            &&& all_effects(idle, over) == all_effects(idle, before + seq![failed])
            &&& effects(after_all(idle, over), Command::Stop { finalized }) == seq![
                Effect::Report(EventView::Stopped { frames: 0 }),
            ]
            &&& effects(after_all(idle, over), Command::Start { path, created: Ok(()) }) == seq![
                Effect::CreateFile { path },
            ]
            &&& after(after_all(idle, over), Command::Start { path, created: Ok(()) })
                == WriterState::Pending
        }),
{
    let idle = WriterState::Idle;
    law_writer_comes_to_rest(idle, before);
    law_failure_is_reported_once(after_all(idle, before), failed, i);
    lemma_one(after_all(idle, before), failed);
    lemma_concat(idle, before, seq![failed]);
    lemma_concat(idle, before + seq![failed], frames);
    law_idle_writer_drops_frames(frames);
    let so_far = all_effects(idle, before + seq![failed]);
    assert(so_far + Seq::<Effect>::empty() =~= so_far);
}

/// A recording of frames of one size, all written, holds these frames and no
/// others: the frame number `k` is written with the time stamp `k`, the first
/// one behind the stream header, and the count is theirs.
pub proof fn law_recording_holds_its_frames(frames: Seq<Command>, width: u32, height: u32)
    requires
        frames.len() <= i64::MAX,
        forall|k: int|
            0 <= k < frames.len() ==> is_written_frame(#[trigger] frames[k], width, height),
    ensures
        forall|k: int|
            0 < k < frames.len() ==> (#[trigger] all_effects(
                WriterState::Pending,
                frames,
            )[k] matches Effect::Append(p) && p.pts == k && p.keyframe && p.data == encoded(
                width,
                height,
                frames[k]->rgba,
            ).1),
        frames.len() > 0 ==> {
            let strf = encoded(width, height, frames[0]->rgba).0;
            &&& all_effects(WriterState::Pending, frames)[0] matches Effect::Begin { setup, packet: p }
            &&& p.pts == 0 && p.keyframe && p.data == encoded(width, height, frames[0]->rgba).1
            &&& setup.width == width && setup.height == height
            &&& setup.fourcc == seq![0x48u8, 0x46, 0x59, 0x55] && setup.frame_rate == 25
            &&& setup.extradata == strf.subrange(40, strf.len() as int)
        },
        after_all(WriterState::Pending, frames) == (if frames.len() == 0 {
            WriterState::Pending
        } else {
            WriterState::Open(OpenRec { frames: frames.len() as u64, width, height })
        }),
        all_effects(WriterState::Pending, frames).len() == frames.len(),
        forall|k: int|
            0 <= k < frames.len() ==> #[trigger] all_effects(WriterState::Pending, frames)[k] == (
            if k == 0 {
                Effect::Begin {
                    setup: setup_of(width, height, frames[0]->rgba),
                    packet: packet_of(0, width, height, frames[0]->rgba),
                }
            } else {
                Effect::Append(packet_of(k, width, height, frames[k]->rgba))
            }),
    decreases frames.len(),
{
    let pending = WriterState::Pending;
    if frames.len() > 0 {
        let rest = frames.drop_last();
        assert forall|k: int| 0 <= k < rest.len() implies is_written_frame(
            #[trigger] rest[k],
            width,
            height,
        ) by {
            assert(rest[k] == frames[k]);
        }
        law_recording_holds_its_frames(rest, width, height);
        let last = frames[frames.len() - 1];
        assert(is_written_frame(last, width, height));
        let k = rest.len() as int;
        let effect = if k == 0 {
            Effect::Begin {
                setup: setup_of(width, height, last->rgba),
                packet: packet_of(0, width, height, last->rgba),
            }
        } else {
            Effect::Append(packet_of(k, width, height, last->rgba))
        };
        assert(effects(after_all(pending, rest), last) =~= seq![effect]);
        assert forall|j: int| 0 <= j < rest.len() implies all_effects(pending, frames)[j]
            == #[trigger] all_effects(pending, rest)[j] by {}
    }
}

/// A recording that is stopped is finalized with the number of its frames.
pub proof fn law_stop_reports_the_frames(
    frames: Seq<Command>,
    width: u32,
    height: u32,
)
    requires
        0 < frames.len() <= i64::MAX,
        forall|k: int|
            0 <= k < frames.len() ==> is_written_frame(#[trigger] frames[k], width, height),
    ensures
        effects(
            after_all(WriterState::Pending, frames),
            Command::Stop { finalized: Ok(()) },
        ) == seq![
            Effect::WriteTrailer,
            Effect::Report(EventView::Stopped { frames: frames.len() as int }),
        ],
{
    law_recording_holds_its_frames(frames, width, height);
}

/// A buffer of the wrong size never reaches the file.
pub proof fn law_mismatched_frame_is_never_written(
    state: WriterState,
    width: u32,
    height: u32,
    rgba: Seq<u8>,
    written: Result<(), Seq<char>>,
    i: int,
)
    requires
        rgba.len() != raster_len(width, height),
        0 <= i < effects(state, Command::Frame { width, height, rgba, written }).len(),
    ensures
        effects(state, Command::Frame { width, height, rgba, written })[i] is Report,
{
}

/// A recording that waits for its first frame ignores another start, and a
/// stop ends it with zero frames, no trailer and nothing written.
pub proof fn law_pending_recording(
    path: Seq<char>,
    created: Result<(), Seq<char>>,
    finalized: Result<(), Seq<char>>,
)
    ensures
        after(WriterState::Pending, Command::Start { path, created }) == WriterState::Pending,
        effects(WriterState::Pending, Command::Start { path, created }).len() == 0,
        after(WriterState::Pending, Command::Stop { finalized }) == WriterState::Idle,
        effects(WriterState::Pending, Command::Stop { finalized }) == seq![
            Effect::Report(EventView::Stopped { frames: 0 }),
        ],
{
}

/// A file that cannot be created is reported with its path and the reason, and
/// the writer stays idle.
pub proof fn law_failed_start_is_reported(path: Seq<char>, error: Seq<char>)
    ensures
        after(WriterState::Idle, Command::Start { path, created: Err(error) })
            == WriterState::Idle,
        effects(WriterState::Idle, Command::Start { path, created: Err(error) }) == seq![
            Effect::CreateFile { path },
            Effect::Report(
                EventView::Error("Cannot create video file "@ + path + ": "@ + error),
            ),
        ],
{
}

/// A frame that was handed out to be written and could not be is reported with
/// the reason, behind the attempt, and the recording is over.
pub proof fn law_failed_write_is_reported(
    rec: OpenRec,
    rgba: Seq<u8>,
    reason: Seq<char>,
    first: bool,
)
    requires
        rgba.len() == rec.width * rec.height * 4,
    ensures
        ({
            let state = if first {
                WriterState::Pending
            } else {
                WriterState::Open(rec)
            };
            let frame = Command::Frame {
                width: rec.width,
                height: rec.height,
                rgba,
                written: Err(reason),
            };
            &&& after(state, frame) == WriterState::Idle
            &&& effects(state, frame).len() == 2
            &&& effects(state, frame)[0] is Begin <==> first
            &&& effects(state, frame)[0] is Append <==> !first
            &&& effects(state, frame)[1] == Effect::Report(EventView::Error(reason))
        }),
{
}

/// A buffer of the wrong size for a frame that would be recorded ends the
/// recording, with a report of its length and of the dimensions.
pub proof fn law_mismatched_frame_is_reported(
    rec: OpenRec,
    rgba: Seq<u8>,
    written: Result<(), Seq<char>>,
    first: bool,
)
    requires
        rgba.len() != rec.width * rec.height * 4,
    ensures
        ({
            let state = if first {
                WriterState::Pending
            } else {
                WriterState::Open(rec)
            };
            let frame = Command::Frame { width: rec.width, height: rec.height, rgba, written };
            &&& after(state, frame) == WriterState::Idle
            &&& effects(state, frame) == seq![
                Effect::Report(
                    EventView::Error(
                        "Frame buf size mismatch: "@ + decimal(rgba.len()) + " for "@ + decimal(
                            rec.width as nat,
                        ) + "x"@ + decimal(rec.height as nat),
                    ),
                ),
            ]
        }),
{
}

/// A trailer that cannot be written is reported with the reason.
pub proof fn law_failed_trailer_is_reported(rec: OpenRec, reason: Seq<char>)
    ensures
        after(WriterState::Open(rec), Command::Stop { finalized: Err(reason) })
            == WriterState::Idle,
        effects(WriterState::Open(rec), Command::Stop { finalized: Err(reason) }) == seq![
            Effect::WriteTrailer,
            Effect::Report(EventView::Error("Finalizing the video file failed: "@ + reason)),
        ],
{
}

} // verus!
