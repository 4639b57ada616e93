//! Recording the frames of a monitor into a file.
use crate::d3d11;
use crate::d3d11::{D3D11TextureManager, DesktopRect};
use crate::error::RecorderError;
use crate::mf_writer;
use crate::mf_writer::{MFSinkWriter, SampleTiming};
use crate::startup;
use crate::startup::{StartAction, StartStage, Startup};
use vstd::prelude::*;

verus! {

/// A recorder of one monitor. While a recording runs there are textures and a writer.
#[derive(Debug)]
pub struct WinRecorder {
    pub texture_manager: Option<D3D11TextureManager>,
    pub sink_writer: Option<MFSinkWriter>,
    pub output_path: String,
    pub fps: u32,
    pub audio: bool,
    pub monitor: u32,
    pub width: u32,
    pub height: u32,
    pub recording: bool,
}

impl WinRecorder {
    /// While a recording runs, and only then, there are textures and a writer, and both
    /// have the recorder's size.
    pub open spec fn wf(self) -> bool {
        &&& self.recording == (self.texture_manager is Some)
        &&& self.recording == (self.sink_writer is Some)
        &&& self.recording ==> {
            &&& self.textures() == (D3D11TextureManager { width: self.width, height: self.height })
            &&& self.writer().wf()
            &&& self.writer().width == self.width
            &&& self.writer().height == self.height
        }
    }

    /// The textures of the running recording.
    pub open spec fn textures(self) -> D3D11TextureManager {
        self.texture_manager->Some_0
    }

    /// The writer of the running recording.
    pub open spec fn writer(self) -> MFSinkWriter {
        self.sink_writer->Some_0
    }

    /// The size of a frame has 32 bits.
    pub open spec fn has_frames(self) -> bool {
        d3d11::frame_bytes(self.width, self.height) <= u32::MAX
    }

    /// A frame of `len` bytes is accepted.
    pub open spec fn accepts(self, len: nat) -> bool {
        self.recording && len == d3d11::frame_bytes(self.width, self.height)
    }

    /// Why a frame of `len` bytes is refused.
    pub open spec fn refusal(self, len: nat) -> RecorderError {
        if !self.recording {
            RecorderError::NotRecording
        } else {
            RecorderError::FrameSizeMismatch {
                expected: d3d11::frame_bytes(self.width, self.height) as usize,
                actual: len as usize,
            }
        }
    }

    /// A start-up of this recorder.
    pub open spec fn startup(self) -> Startup {
        Startup {
            stage: StartStage::Device,
            width: self.width,
            height: self.height,
            fps: self.fps,
            audio: self.audio,
        }
    }

    /// `startup` is a start-up of this recorder, which is not recording yet.
    pub open spec fn is_starting(self, startup: Startup) -> bool {
        !self.recording && startup == (Startup { stage: startup.stage, ..self.startup() })
    }

    /// The recorder once a start-up with the given writer is done.
    pub open spec fn started(self, writer: MFSinkWriter) -> WinRecorder {
        WinRecorder {
            texture_manager: Some(
                D3D11TextureManager { width: writer.width, height: writer.height },
            ),
            sink_writer: Some(writer),
            width: writer.width,
            height: writer.height,
            recording: true,
            ..self
        }
    }

    /// The recorder after an attempt to write a frame.
    pub open spec fn after_frame(self, written: bool) -> WinRecorder {
        WinRecorder { sink_writer: Some(self.writer().after(written)), ..self }
    }

    /// The number of frames written in the running recording, if one runs.
    pub open spec fn counted(self) -> Result<u64, RecorderError> {
        if self.recording {
            Ok(self.writer().frame_count)
        } else {
            Err(RecorderError::NotRecording)
        }
    }

    /// The recorder once its recording has ended.
    pub open spec fn stopped(self) -> WinRecorder {
        WinRecorder { texture_manager: None, sink_writer: None, recording: false, ..self }
    }

    /// A recorder of one of the given outputs.
    pub fn new(
        output_path: String,
        fps: u32,
        audio: bool,
        monitor: u32,
        outputs: &Vec<DesktopRect>,
    ) -> (recorder: Result<Self, RecorderError>)
        requires
            d3d11::is_measured(monitor, outputs@),
        ensures
            recorder matches Ok(made) ==> {
                &&& made.wf()
                &&& d3d11::is_size_of(monitor, outputs@, Ok((made.width, made.height)))
                &&& made == (WinRecorder {
                    texture_manager: None,
                    sink_writer: None,
                    output_path,
                    fps,
                    audio,
                    monitor,
                    width: made.width,
                    height: made.height,
                    recording: false,
                })
            },
            recorder matches Err(error) ==> d3d11::is_size_of(monitor, outputs@, Err(error)),
    {
        match D3D11TextureManager::detect_monitor(monitor, outputs) {
            Err(error) => Err(error),
            Ok((width, height)) => Ok(
                WinRecorder {
                    texture_manager: None,
                    sink_writer: None,
                    output_path,
                    fps,
                    audio,
                    monitor,
                    width,
                    height,
                    recording: false,
                },
            ),
        }
    }

    /// Begins a start-up, unless a recording runs already.
    pub fn start(&self) -> (startup: Result<Startup, RecorderError>)
        ensures
            self.recording ==> startup == Err::<Startup, RecorderError>(
                RecorderError::AlreadyRecording,
            ),
            !self.recording ==> startup == Ok::<Startup, RecorderError>(self.startup()),
    {
        if self.recording {
            return Err(RecorderError::AlreadyRecording);
        }
        Ok(Startup::new(self.width, self.height, self.fps, self.audio))
    }

    /// Takes note of how the present stage of a start-up of this recorder went. Once all stages are done
    /// the recording runs, with the writer's size; before that, and after a failure, the
    /// recorder stays as it was.
    pub fn start_next(
        &mut self,
        startup: &mut Startup,
        outcome: Result<(), RecorderError>,
    ) -> (result: Result<StartAction, RecorderError>)
        requires
            old(self).wf(),
            old(startup).wf(),
            old(self).is_starting(*old(startup)),
            old(startup).stage is Device && outcome is Ok && !old(startup).audio ==> old(
                startup,
            ).is_possible(),
        ensures
            final(self).wf(),
            final(startup).wf(),
            *final(startup) == old(startup).after(outcome is Ok),
            outcome is Ok && !old(startup).refuses_audio() ==> result == Ok::<
                StartAction,
                RecorderError,
            >(final(startup).task()),
            outcome is Ok && old(startup).refuses_audio() ==> result is Err
                && crate::error::is_invalid_param(
                result->Err_0,
                "Audio encoding is not supported in this version"@,
            ),
            outcome is Err ==> result == Err::<StartAction, RecorderError>(outcome->Err_0),
            *final(self) == (match (old(startup).stage, outcome) {
                (StartStage::Writing(writer), Ok(())) => old(self).started(writer),
                _ => *old(self),
            }),
    {
        let waiting: bool = matches!(startup.stage, StartStage::Writing(_));
        let result = startup.advance(outcome);
        if waiting {
            if let StartStage::Done(writer) = startup.stage {
                self.texture_manager = Some(
                    D3D11TextureManager::new(writer.width(), writer.height()),
                );
                self.width = writer.width();
                self.height = writer.height();
                self.sink_writer = Some(writer);
                self.recording = true;
            }
        }
        result
    }

    /// Checks a frame, and says when it is shown and for how long.
    pub fn prepare_frame(&self, frame_data: &[u8]) -> (timing: Result<SampleTiming, RecorderError>)
        requires
            self.wf(),
            self.recording ==> self.has_frames(),
            self.accepts(frame_data@.len()) ==> self.writer().is_on_time(),
        ensures
            self.accepts(frame_data@.len()) ==> timing is Ok && timing->Ok_0.time
                == self.writer().time_of(self.writer().frame_count as int)
                && timing->Ok_0.duration == self.writer().frame_duration,
            !self.accepts(frame_data@.len()) ==> timing == Err::<SampleTiming, RecorderError>(
                self.refusal(frame_data@.len()),
            ),
    {
        match (&self.texture_manager, &self.sink_writer) {
            (Some(textures), Some(writer)) => match textures.check_frame(frame_data) {
                Ok(()) => Ok(writer.sample_timing()),
                Err(error) => Err(error),
            },
            _ => Err(RecorderError::NotRecording),
        }
    }

    /// Takes note of an attempt to write a frame. Only a frame that was written counts.
    pub fn write_frame(
        &mut self,
        frame_data: &[u8],
        written: Result<(), RecorderError>,
    ) -> (result: Result<(), RecorderError>)
        requires
            old(self).wf(),
            old(self).recording ==> old(self).has_frames(),
            old(self).accepts(frame_data@.len()) && written is Ok ==> old(
                self,
            ).writer().frame_count < u64::MAX,
        ensures
            final(self).wf(),
            old(self).accepts(frame_data@.len()) ==> result == written && *final(self) == old(
                self,
            ).after_frame(written is Ok),
            !old(self).accepts(frame_data@.len()) ==> result == Err::<(), RecorderError>(
                old(self).refusal(frame_data@.len()),
            ) && *final(self) == *old(self),
    {
        match (self.texture_manager, self.sink_writer) {
            (Some(textures), Some(writer)) => match textures.check_frame(frame_data) {
                Ok(()) => {
                    let mut writer: MFSinkWriter = writer;
                    let result = writer.write_sample(written);
                    self.sink_writer = Some(writer);
                    result
                },
                Err(error) => Err(error),
            },
            _ => Err(RecorderError::NotRecording),
        }
    }

    /// Ends the recording, given how finishing the file went. After a failure the
    /// recording still runs.
    pub fn stop(&mut self, finalized: Result<(), RecorderError>) -> (result: Result<
        (),
        RecorderError,
    >)
        requires
            old(self).wf(),
        ensures
            final(self).wf(),
            !old(self).recording ==> result == Err::<(), RecorderError>(
                RecorderError::NotRecording,
            ) && *final(self) == *old(self),
            old(self).recording && finalized is Ok ==> result == finalized && *final(self) == old(
                self,
            ).stopped(),
            old(self).recording && finalized is Err ==> result == finalized && *final(self)
                == *old(self),
    {
        if !self.recording {
            return Err(RecorderError::NotRecording);
        }
        if finalized.is_ok() {
            self.sink_writer = None;
            self.texture_manager = None;
            self.recording = false;
        }
        finalized
    }

    /// The width of the video: the monitor's until the first start, then the writer's.
    pub fn width(&self) -> (width: u32)
        ensures
            width == self.width,
    {
        self.width
    }

    /// The height of the video: the monitor's until the first start, then the writer's.
    pub fn height(&self) -> (height: u32)
        ensures
            height == self.height,
    {
        self.height
    }

    /// The frame rate.
    pub fn fps(&self) -> (fps: u32)
        ensures
            fps == self.fps,
    {
        self.fps
    }

    /// Whether a recording runs.
    pub fn is_recording(&self) -> (recording: bool)
        ensures
            recording == self.recording,
    {
        self.recording
    }

    /// The number of frames written in the running recording.
    pub fn frame_count(&self) -> (count: Result<u64, RecorderError>)
        requires
            self.wf(),
        ensures
            count == self.counted(),
    {
        match &self.sink_writer {
            Some(writer) => Ok(writer.frame_count()),
            None => Err(RecorderError::NotRecording),
        }
    }

    /// The size of a monitor.
    pub fn get_monitor_size(monitor: u32, outputs: &Vec<DesktopRect>) -> (size: Result<
        (u32, u32),
        RecorderError,
    >)
        requires
            d3d11::is_measured(monitor, outputs@),
        ensures
            d3d11::is_size_of(monitor, outputs@, size),
    {
        D3D11TextureManager::detect_monitor(monitor, outputs)
    }
}

/// A recorder after a series of attempts to write a frame.
pub open spec fn after_frames(recorder: WinRecorder, written: Seq<bool>) -> WinRecorder
    decreases written.len(),
{
    if written.len() == 0 {
        recorder
    } else {
        after_frames(recorder, written.drop_last()).after_frame(written.last())
    }
}

/// Once started, a recorder has the smallest size that the encoder accepts and that the
/// monitor's picture fits in, and accepts frames of just that size.
pub proof fn law_started_size(recorder: WinRecorder, outcomes: Seq<bool>)
    requires
        recorder.wf(),
        recorder.startup().is_possible(),
        startup::run(recorder.startup(), outcomes).stage is Done,
    ensures
        ({
            let writer = startup::run(recorder.startup(), outcomes).stage->Done_0;
            let started = recorder.started(writer);
            &&& started.wf()
            &&& started.recording
            &&& started.width == mf_writer::aligned(recorder.width as int)
            &&& started.height == mf_writer::aligned(recorder.height as int)
            &&& started.accepts((4 * started.width * started.height) as nat)
            &&& started.writer().frame_count == 0
            &&& started.fps == recorder.fps
        }),
{
    startup::law_settings_are_kept(recorder.startup(), outcomes);
    mf_writer::law_alignment(recorder.width as int);
    mf_writer::law_alignment(recorder.height as int);
    let writer = startup::run(recorder.startup(), outcomes).stage->Done_0;
    let started = recorder.started(writer);
    assert(4 * started.width * started.height == started.width * started.height * 4)
        by (nonlinear_arith);
    assert(0 <= started.width * started.height * 4) by (nonlinear_arith);
}

/// A recorder that was started and stopped keeps its size when it is started again.
pub proof fn law_restart_keeps_the_size(
    recorder: WinRecorder,
    outcomes: Seq<bool>,
    later: Seq<bool>,
)
    requires
        recorder.wf(),
        recorder.startup().is_possible(),
        startup::run(recorder.startup(), outcomes).stage is Done,
    ensures
        ({
            let writer = startup::run(recorder.startup(), outcomes).stage->Done_0;
            let stopped = recorder.started(writer).stopped();
            &&& stopped.wf()
            &&& !stopped.recording
            &&& stopped.startup().is_possible()
            &&& startup::run(stopped.startup(), later).stage matches StartStage::Done(again)
                ==> stopped.started(again).width == stopped.width && stopped.started(
                again,
            ).height == stopped.height
        }),
{
    law_started_size(recorder, outcomes);
    let writer = startup::run(recorder.startup(), outcomes).stage->Done_0;
    let stopped = recorder.started(writer).stopped();
    mf_writer::law_alignment(recorder.width as int);
    mf_writer::law_alignment(recorder.height as int);
    mf_writer::law_alignment_is_idempotent(recorder.width as int);
    mf_writer::law_alignment_is_idempotent(recorder.height as int);
    mf_writer::law_alignment_is_least(recorder.width as int, 0xFFFF_FFF0);
    mf_writer::law_alignment_is_least(recorder.height as int, 0xFFFF_FFF0);
    startup::law_settings_are_kept(stopped.startup(), later);
}

/// The frame count is the number of frames that were written. Attempts that failed leave
/// no gap: the next frame gets the time of the frame that failed.
pub proof fn law_written_frames_are_counted(recorder: WinRecorder, written: Seq<bool>)
    requires
        recorder.wf(),
        recorder.recording,
        recorder.writer().frame_count + written.len() <= u64::MAX,
    ensures
        ({
            let last = after_frames(recorder, written);
            &&& last.wf()
            &&& last.writer().frame_count == recorder.writer().frame_count + mf_writer::successes(
                written,
            )
            &&& last == (WinRecorder { sink_writer: last.sink_writer, ..recorder })
            &&& last.writer() == (MFSinkWriter {
                frame_count: last.writer().frame_count,
                ..recorder.writer()
            })
            &&& mf_writer::successes(written) <= written.len()
        }),
    decreases written.len(),
{
    if written.len() > 0 {
        law_written_frames_are_counted(recorder, written.drop_last());
    }
}

/// A recorder that has stopped is as it was before the start, but for its size.
pub proof fn law_stop_undoes_the_start(
    recorder: WinRecorder,
    writer: MFSinkWriter,
    written: Seq<bool>,
)
    requires
        recorder.wf(),
        !recorder.recording,
    ensures
        after_frames(recorder.started(writer), written).stopped() == (WinRecorder {
            width: writer.width,
            height: writer.height,
            ..recorder
        }),
    decreases written.len(),
{
    if written.len() > 0 {
        law_stop_undoes_the_start(recorder, writer, written.drop_last());
    }
}

/// Something asked of a recorder, and how what it needs from outside turned out.
pub enum RecorderCall {
    /// A start, with the outcomes of its stages.
    Start { outcomes: Seq<bool> },
    /// A frame of so many bytes, and whether it was written.
    WriteFrame { len: nat, written: bool },
    /// A stop, and whether the file was finished.
    Stop { finalized: bool },
}

/// The call does what it is asked for.
pub open spec fn succeeds(recorder: WinRecorder, call: RecorderCall) -> bool {
    match call {
        RecorderCall::Start { outcomes } => !recorder.recording && startup::run(
            recorder.startup(),
            outcomes,
        ).stage is Done,
        RecorderCall::WriteFrame { len, written } => recorder.accepts(len) && written,
        RecorderCall::Stop { finalized } => recorder.recording && finalized,
    }
}

/// The recorder after a call.
pub open spec fn after_call(recorder: WinRecorder, call: RecorderCall) -> WinRecorder {
    match call {
        RecorderCall::Start { outcomes } => if succeeds(recorder, call) {
            recorder.started(startup::run(recorder.startup(), outcomes).stage->Done_0)
        } else {
            recorder
        },
        RecorderCall::WriteFrame { len, written } => if recorder.accepts(len) {
            recorder.after_frame(written)
        } else {
            recorder
        },
        RecorderCall::Stop { .. } => if succeeds(recorder, call) {
            recorder.stopped()
        } else {
            recorder
        },
    }
}

/// The recorder after a series of calls.
pub open spec fn after_calls(recorder: WinRecorder, calls: Seq<RecorderCall>) -> WinRecorder
    decreases calls.len(),
{
    if calls.len() == 0 {
        recorder
    } else {
        after_call(after_calls(recorder, calls.drop_last()), calls.last())
    }
}

/// How many frames were written since the last start that succeeded.
pub open spec fn frames_since_start(recorder: WinRecorder, calls: Seq<RecorderCall>) -> nat
    decreases calls.len(),
{
    if calls.len() == 0 {
        0
    } else {
        let earlier = frames_since_start(recorder, calls.drop_last());
        if !succeeds(after_calls(recorder, calls.drop_last()), calls.last()) {
            earlier
        } else {
            match calls.last() {
                RecorderCall::Start { .. } => 0,
                RecorderCall::WriteFrame { .. } => earlier + 1,
                RecorderCall::Stop { .. } => earlier,
            }
        }
    }
}

proof fn lemma_start_call(recorder: WinRecorder, outcomes: Seq<bool>)
    requires
        recorder.wf(),
        !recorder.audio ==> recorder.startup().is_possible(),
        !recorder.recording,
        startup::run(recorder.startup(), outcomes).stage is Done,
    ensures
        ({
            let started = recorder.started(startup::run(recorder.startup(), outcomes).stage->Done_0);
            &&& started.wf()
            &&& !started.audio
            &&& started.startup().is_possible()
            &&& started.writer().frame_count == 0
            &&& started.writer().frame_duration == 10_000_000int / started.fps as int
        }),
{
    startup::law_all_stages_are_needed(recorder.startup(), outcomes);
    law_started_size(recorder, outcomes);
    law_restart_keeps_the_size(recorder, outcomes, outcomes);
    startup::law_settings_are_kept(recorder.startup(), outcomes);
    mf_writer::law_samples_are_timed_by_their_number(
        recorder.width,
        recorder.height,
        recorder.fps,
        Seq::empty(),
    );
}

/// Whatever is asked of a new recorder, in whatever order: while a recording runs, the frame
/// count is the number of frames written since the last start that succeeded, and the next
/// frame is shown at that number times a second divided by the frame rate; while none runs,
/// there is no frame count.
pub proof fn law_frame_count(recorder: WinRecorder, calls: Seq<RecorderCall>)
    requires
        recorder.wf(),
        !recorder.recording,
        !recorder.audio ==> recorder.startup().is_possible(),
        calls.len() <= u64::MAX,
    ensures
        ({
            let last = after_calls(recorder, calls);
            let n = frames_since_start(recorder, calls);
            &&& last.wf()
            &&& n <= calls.len()
            &&& last.fps == recorder.fps
            &&& last.audio == recorder.audio
            &&& !last.audio ==> last.startup().is_possible()
            &&& last.recording ==> {
                &&& last.counted() == Ok::<u64, RecorderError>(n as u64)
                &&& last.writer().frame_count == n
                &&& last.writer().frame_duration == 10_000_000int / last.fps as int
                &&& last.writer().time_of(n as int) == n * (10_000_000int / last.fps as int)
            }
            &&& !last.recording ==> last.counted() == Err::<u64, RecorderError>(
                RecorderError::NotRecording,
            )
        }),
    decreases calls.len(),
{
    if calls.len() > 0 {
        law_frame_count(recorder, calls.drop_last());
        let before = after_calls(recorder, calls.drop_last());
        if succeeds(before, calls.last()) {
            if let RecorderCall::Start { outcomes } = calls.last() {
                lemma_start_call(before, outcomes);
            }
        }
    }
}

/// A recorder accepts frames of four bytes per pixel while it records, and tells why it
/// refuses others.
pub proof fn law_accepted_frames(recorder: WinRecorder, len: nat)
    ensures
        recorder.accepts(len) <==> recorder.recording && len == 4 * (recorder.width
            * recorder.height),
        !recorder.recording ==> recorder.refusal(len) == RecorderError::NotRecording,
        recorder.recording && recorder.has_frames() && len <= usize::MAX ==> (recorder.refusal(
            len,
        ) matches RecorderError::FrameSizeMismatch { expected, actual } && expected == 4 * (
        recorder.width * recorder.height) && actual == len),
        recorder.has_frames() <==> 4 * (recorder.width * recorder.height) <= 4294967295,
{
    d3d11::law_frame_size(recorder.width, recorder.height);
}

/// A start asks for a device of the recorder's size, with its frame rate and its audio.
pub proof fn law_start_request(recorder: WinRecorder)
    ensures
        recorder.startup().stage is Device,
        recorder.startup().width == recorder.width,
        recorder.startup().height == recorder.height,
        recorder.startup().fps == recorder.fps,
        recorder.startup().audio == recorder.audio,
{
}

/// Starting takes over the writer and its size, a frame changes nothing but the count, and
/// stopping gives up the textures and the writer.
pub proof fn law_start_frame_and_stop(recorder: WinRecorder, writer: MFSinkWriter, written: bool)
    ensures
        ({
            let started = recorder.started(writer);
            &&& started.recording
            &&& started.sink_writer == Some(writer)
            &&& started.texture_manager matches Some(textures) && textures.width == writer.width
                && textures.height == writer.height
            &&& started.width == writer.width && started.height == writer.height
            &&& started.output_path == recorder.output_path && started.fps == recorder.fps
            &&& started.audio == recorder.audio && started.monitor == recorder.monitor
        }),
        recorder.sink_writer matches Some(held) ==> held.frame_count < u64::MAX ==> {
            let next = recorder.after_frame(written);
            &&& next.sink_writer matches Some(after) && after.width == held.width && after.height
                == held.height && after.frame_duration == held.frame_duration && after.frame_count
                == held.frame_count + (if written {
                1int
            } else {
                0
            })
            &&& next.texture_manager == recorder.texture_manager
            &&& next.recording == recorder.recording
            &&& next.width == recorder.width && next.height == recorder.height
            &&& next.output_path == recorder.output_path && next.fps == recorder.fps
            &&& next.audio == recorder.audio && next.monitor == recorder.monitor
        },
        ({
            let stopped = recorder.stopped();
            &&& !stopped.recording
            &&& stopped.sink_writer is None && stopped.texture_manager is None
            &&& stopped.width == recorder.width && stopped.height == recorder.height
            &&& stopped.output_path == recorder.output_path && stopped.fps == recorder.fps
            &&& stopped.audio == recorder.audio && stopped.monitor == recorder.monitor
        }),
{
}

/// A start-up belongs to what it was begun for, in every stage.
pub proof fn law_start_up_belongs(recorder: WinRecorder, stage: StartStage)
    requires
        !recorder.recording,
    ensures
        recorder.is_starting(recorder.startup()),
        recorder.is_starting((Startup { stage, ..recorder.startup() })),
{
}

} // verus!
