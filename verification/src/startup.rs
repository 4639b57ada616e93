//! How a recording is started: a device, a sink writer, textures of the size that the
//! writer settled on, and the call that begins writing, one after the other.
//!
//! The start-up says what to do next; whoever does it reports the outcome. The first
//! failure ends the start-up.
use crate::error::RecorderError;
use crate::mf_writer;
use crate::mf_writer::MFSinkWriter;
use vstd::prelude::*;

verus! {

/// What a start-up is waiting for. From the second stage on, the writer is known.
#[derive(Clone, Copy, Debug, PartialEq, Eq)]
pub enum StartStage {
    /// A device.
    Device,
    /// A sink writer on the device.
    SinkWriter(MFSinkWriter),
    /// The textures for the frames.
    Textures(MFSinkWriter),
    /// The begin of writing.
    Writing(MFSinkWriter),
    /// Nothing any more.
    Done(MFSinkWriter),
}

/// What is to be done next.
#[derive(Clone, Copy, Debug, PartialEq, Eq)]
pub enum StartAction {
    /// Create a device, with textures of the given size.
    CreateDevice { width: u32, height: u32 },
    /// Create a sink writer for pictures of the given packed size at the given packed
    /// frame rate.
    CreateSinkWriter { frame_size: u64, frame_rate: u64 },
    /// Create textures of the given size.
    CreateTextures { width: u32, height: u32 },
    /// Begin to write.
    BeginWriting,
    /// Nothing: the recording runs.
    Record,
}

/// A recording that is being started.
#[derive(Clone, Copy, Debug, PartialEq, Eq)]
pub struct Startup {
    pub stage: StartStage,
    pub width: u32,
    pub height: u32,
    pub fps: u32,
    pub audio: bool,
}

impl Startup {
    /// The writer is the one for the settings.
    pub open spec fn wf(self) -> bool {
        match self.stage {
            StartStage::Device => true,
            StartStage::SinkWriter(writer) => self.has_writer(writer),
            StartStage::Textures(writer) => self.has_writer(writer),
            StartStage::Writing(writer) => self.has_writer(writer),
            StartStage::Done(writer) => self.has_writer(writer),
        }
    }

    /// `writer` is the writer for the settings, and there can be one.
    pub open spec fn has_writer(self, writer: MFSinkWriter) -> bool {
        &&& !self.audio
        &&& self.is_possible()
        &&& writer == self.writer()
        &&& writer.wf()
    }

    /// A writer for the settings.
    pub open spec fn writer(self) -> MFSinkWriter {
        mf_writer::fresh_writer(self.width, self.height, self.fps)
    }

    /// There are frames, and their size can be aligned.
    pub open spec fn is_possible(self) -> bool {
        &&& self.fps > 0
        &&& mf_writer::alignable(self.width)
        &&& mf_writer::alignable(self.height)
    }

    /// Audio is refused once there is a device.
    pub open spec fn refuses_audio(self) -> bool {
        self.stage is Device && self.audio
    }

    /// The start-up one stage further on.
    pub open spec fn advanced(self) -> Startup {
        Startup {
            stage: match self.stage {
                StartStage::Device => StartStage::SinkWriter(self.writer()),
                StartStage::SinkWriter(writer) => StartStage::Textures(writer),
                StartStage::Textures(writer) => StartStage::Writing(writer),
                StartStage::Writing(writer) => StartStage::Done(writer),
                StartStage::Done(writer) => StartStage::Done(writer),
            },
            ..self
        }
    }

    /// The start-up after an outcome.
    pub open spec fn after(self, succeeded: bool) -> Startup {
        if succeeded && !self.refuses_audio() {
            self.advanced()
        } else {
            self
        }
    }

    /// What is to be done in the present stage.
    pub open spec fn task(self) -> StartAction {
        match self.stage {
            StartStage::Device => StartAction::CreateDevice {
                width: self.width,
                height: self.height,
            },
            StartStage::SinkWriter(writer) => StartAction::CreateSinkWriter {
                frame_size: mf_writer::packed(writer.width, writer.height) as u64,
                frame_rate: mf_writer::packed(self.fps, 1) as u64,
            },
            StartStage::Textures(writer) => StartAction::CreateTextures {
                width: writer.width,
                height: writer.height,
            },
            StartStage::Writing(_) => StartAction::BeginWriting,
            StartStage::Done(_) => StartAction::Record,
        }
    }

    /// A start-up with the given settings, in its first stage.
    pub fn new(width: u32, height: u32, fps: u32, audio: bool) -> (startup: Startup)
        ensures
            startup == (Startup { stage: StartStage::Device, width, height, fps, audio }),
    {
        Startup { stage: StartStage::Device, width, height, fps, audio }
    }

    /// What is to be done in the present stage.
    pub fn action(&self) -> (action: StartAction)
        ensures
            action == self.task(),
    {
        match self.stage {
            StartStage::Device => StartAction::CreateDevice {
                width: self.width,
                height: self.height,
            },
            StartStage::SinkWriter(writer) => StartAction::CreateSinkWriter {
                frame_size: writer.frame_size(),
                frame_rate: MFSinkWriter::frame_rate(self.fps),
            },
            StartStage::Textures(writer) => StartAction::CreateTextures {
                width: writer.width,
                height: writer.height,
            },
            StartStage::Writing(_) => StartAction::BeginWriting,
            StartStage::Done(_) => StartAction::Record,
        }
    }

    /// Takes note of how the present stage went. A failure is handed back, and the
    /// start-up stays where it is.
    pub fn advance(&mut self, outcome: Result<(), RecorderError>) -> (result: Result<
        StartAction,
        RecorderError,
    >)
        requires
            old(self).wf(),
            old(self).stage is Device && outcome is Ok && !old(self).audio ==> old(
                self,
            ).is_possible(),
        ensures
            final(self).wf(),
            *final(self) == old(self).after(outcome is Ok),
            outcome is Ok && !old(self).refuses_audio() ==> result == Ok::<
                StartAction,
                RecorderError,
            >(final(self).task()),
            outcome is Ok && old(self).refuses_audio() ==> result is Err
                && crate::error::is_invalid_param(
                result->Err_0,
                "Audio encoding is not supported in this version"@,
            ),
            outcome is Err ==> result == Err::<StartAction, RecorderError>(outcome->Err_0),
    {
        match outcome {
            Err(error) => Err(error),
            Ok(()) => {
                match self.stage {
                    StartStage::Device => match MFSinkWriter::new(
                        self.width,
                        self.height,
                        self.fps,
                        self.audio,
                    ) {
                        Ok(writer) => {
                            self.stage = StartStage::SinkWriter(writer);
                            Ok(self.action())
                        },
                        Err(error) => Err(error),
                    },
                    StartStage::SinkWriter(writer) => {
                        self.stage = StartStage::Textures(writer);
                        Ok(self.action())
                    },
                    StartStage::Textures(writer) => {
                        self.stage = StartStage::Writing(writer);
                        Ok(self.action())
                    },
                    StartStage::Writing(writer) => {
                        self.stage = StartStage::Done(writer);
                        Ok(self.action())
                    },
                    StartStage::Done(_) => Ok(self.action()),
                }
            },
        }
    }
}

/// A start-up after a series of outcomes.
pub open spec fn run(startup: Startup, outcomes: Seq<bool>) -> Startup
    decreases outcomes.len(),
{
    if outcomes.len() == 0 {
        startup
    } else if outcomes[0] && !startup.refuses_audio() {
        run(startup.advanced(), outcomes.drop_first())
    } else {
        startup
    }
}

/// The number of outcomes that the start-up still waits for.
pub open spec fn stages_left(startup: Startup) -> nat {
    match startup.stage {
        StartStage::Device => 4,
        StartStage::SinkWriter(_) => 3,
        StartStage::Textures(_) => 2,
        StartStage::Writing(_) => 1,
        StartStage::Done(_) => 0,
    }
}

/// A start-up is done if and only if every stage that it waited for has succeeded and
/// no audio was asked for.
pub proof fn law_all_stages_are_needed(startup: Startup, outcomes: Seq<bool>)
    ensures
        run(startup, outcomes).stage is Done <==> {
            &&& !startup.refuses_audio()
            &&& stages_left(startup) <= outcomes.len()
            &&& forall|i: int| 0 <= i < stages_left(startup) ==> #[trigger] outcomes[i]
        } || startup.stage is Done,
    decreases outcomes.len(),
{
    if startup.stage is Done {
        law_done_is_final(startup, outcomes);
    } else if outcomes.len() > 0 && outcomes[0] && !startup.refuses_audio() {
        let rest = outcomes.drop_first();
        law_all_stages_are_needed(startup.advanced(), rest);
        assert(stages_left(startup.advanced()) + 1 == stages_left(startup));
        assert forall|i: int| 0 <= i < rest.len() implies rest[i] == outcomes[i + 1] by {}
        if startup.advanced().stage is Done {
            assert(stages_left(startup) == 1);
        } else if forall|i: int| 0 <= i < stages_left(startup.advanced()) ==> #[trigger] rest[i] {
            assert forall|i: int| 0 <= i < stages_left(startup) && stages_left(startup)
                <= outcomes.len() implies #[trigger] outcomes[i] by {
                if i > 0 {
                    assert(rest[i - 1]);
                }
            }
        }
    }
}

/// A start-up that is done stays as it is.
pub proof fn law_done_is_final(startup: Startup, outcomes: Seq<bool>)
    requires
        startup.stage is Done,
    ensures
        run(startup, outcomes) == startup,
    decreases outcomes.len(),
{
    if outcomes.len() > 0 && outcomes[0] {
        law_done_is_final(startup.advanced(), outcomes.drop_first());
    }
}

/// A start-up keeps its settings, and its writer is the one for them.
pub proof fn law_settings_are_kept(startup: Startup, outcomes: Seq<bool>)
    requires
        startup.wf(),
        !startup.audio ==> startup.is_possible(),
    ensures
        run(startup, outcomes).wf(),
        run(startup, outcomes) == (Startup { stage: run(startup, outcomes).stage, ..startup }),
    decreases outcomes.len(),
{
    if outcomes.len() > 0 && outcomes[0] && !startup.refuses_audio() {
        mf_writer::law_fresh_writer(startup.width, startup.height, startup.fps);
        law_settings_are_kept(startup.advanced(), outcomes.drop_first());
    }
}

/// Once there is a device, the sink writer is asked for with the aligned size, the width in
/// the upper half of the number, and with the frame rate, over one.
pub proof fn law_sink_writer_is_asked_for_by_size_and_rate(startup: Startup)
    requires
        startup.stage is Device,
        !startup.audio,
        startup.is_possible(),
    ensures
        startup.after(true).task() matches StartAction::CreateSinkWriter { frame_size, frame_rate }
            && {
            let (width, height) = (frame_size as int / 4294967296, frame_size as int % 4294967296);
            &&& width % 16 == 0 && startup.width <= width < startup.width + 16
            &&& height % 16 == 0 && startup.height <= height < startup.height + 16
            &&& frame_rate as int / 4294967296 == startup.fps
            &&& frame_rate as int % 4294967296 == 1
        },
{
    mf_writer::law_new_writer(startup.width, startup.height, startup.fps);
    let writer = startup.writer();
    mf_writer::law_packed_numbers_can_be_read_back(writer.width, writer.height);
    mf_writer::law_packed_numbers_can_be_read_back(startup.fps, 1);
}

/// The actions of a start-up come in this order: a device of the size asked for, the sink
/// writer, textures of the size that the sink writer was asked for with, the begin of
/// writing, and then the recording runs, with a writer of that size and rate that has counted
/// nothing.
pub proof fn law_order_of_the_actions(startup: Startup)
    requires
        startup.stage is Device,
        !startup.audio,
        startup.is_possible(),
    ensures
        ({
            let second = startup.after(true);
            let third = second.after(true);
            let fourth = third.after(true);
            let fifth = fourth.after(true);
            &&& startup.task() matches StartAction::CreateDevice { width, height } && width
                == startup.width && height == startup.height
            &&& second.task() is CreateSinkWriter
            &&& third.task() matches StartAction::CreateTextures { width, height } && width % 16
                == 0 && startup.width <= width < startup.width + 16 && height % 16 == 0
                && startup.height <= height < startup.height + 16
            &&& fourth.task() is BeginWriting
            &&& fifth.task() is Record
            &&& fifth.stage matches StartStage::Done(writer) && writer.width % 16 == 0
                && startup.width <= writer.width < startup.width + 16 && writer.height % 16 == 0
                && startup.height <= writer.height < startup.height + 16 && writer.frame_count == 0
                && writer.frame_duration * startup.fps <= 10000000 < (writer.frame_duration + 1)
                * startup.fps
        }),
{
    mf_writer::law_new_writer(startup.width, startup.height, startup.fps);
}

/// A failure leaves a start-up where it is, and so does a device for a recording with audio.
/// A success moves any other start-up on, until it is done, and never changes its settings.
pub proof fn law_outcomes_of_a_stage(startup: Startup)
    ensures
        startup.after(false) == startup,
        startup.audio && startup.stage is Device ==> startup.after(true) == startup,
        startup.refuses_audio() <==> startup.audio && startup.stage is Device,
        !(startup.stage is Done) && !(startup.audio && startup.stage is Device) ==> stages_left(
            startup.after(true),
        ) + 1 == stages_left(startup),
        startup.after(true).width == startup.width,
        startup.after(true).height == startup.height,
        startup.after(true).fps == startup.fps,
        startup.after(true).audio == startup.audio,
        startup.is_possible() <==> startup.fps > 0 && startup.width <= 4294967280
            && startup.height <= 4294967280,
{
}

/// A start-up is well formed in its first stage, whatever its settings.
pub proof fn law_every_start_up_can_begin(startup: Startup)
    requires
        startup.stage is Device,
    ensures
        startup.wf(),
{
}

} // verus!
