//! Encoding the frames of a monitor into a stream of NAL units.
//!
//! The encoder writes into a buffer in memory. After each frame the units that are new
//! in the buffer are handed out, each behind a byte that tells its kind.
use crate::d3d11;
use crate::d3d11::{D3D11TextureManager, DesktopRect};
use crate::error::RecorderError;
use crate::memory_byte_stream;
use crate::memory_byte_stream::{extract_nal_units, get_nal_type};
use crate::mf_writer;
use crate::mf_writer::{MFSinkWriter, SampleTiming};
use crate::startup;
use crate::startup::{StartAction, StartStage, Startup};
use vstd::prelude::*;

verus! {

/// The byte in front of a unit of the given type: 1 for parameter sets, 2 for key
/// frames, 3 for the rest.
pub open spec fn tag(nal_type: u8) -> u8 {
    if nal_type == 7 || nal_type == 8 {
        1
    } else if nal_type == 5 {
        2
    } else {
        3
    }
}

/// A unit as it is handed out: its tag, a start code and the unit. A unit without a
/// type is left out.
pub open spec fn tagged(unit: Seq<u8>) -> Seq<u8> {
    match memory_byte_stream::nal_type(unit) {
        Some(nal_type) => seq![tag(nal_type)] + memory_byte_stream::start_code() + unit,
        None => Seq::empty(),
    }
}

/// The units as they are handed out, one after the other.
pub open spec fn tagged_stream(units: Seq<Seq<u8>>) -> Seq<u8>
    decreases units.len(),
{
    if units.len() == 0 {
        Seq::empty()
    } else {
        tagged_stream(units.drop_last()) + tagged(units.last())
    }
}

/// The sequence parameter set that is announced when encoding starts.
pub open spec fn initial_sps() -> Seq<u8> {
    memory_byte_stream::start_code() + seq![0x67u8, 0x42, 0x00, 0x1e, 0x00, 0x80, 0x05, 0x65, 0x94]
}

/// The picture parameter set that is announced when encoding starts.
pub open spec fn initial_pps() -> Seq<u8> {
    memory_byte_stream::start_code() + seq![0x68u8, 0x00, 0xf8, 0x00]
}

/// An encoder of one monitor. While it encodes there are textures and a writer.
#[derive(Debug)]
pub struct StreamingEncoder {
    pub texture_manager: Option<D3D11TextureManager>,
    pub sink_writer: Option<MFSinkWriter>,
    pub fps: u32,
    pub bitrate: u32,
    pub monitor: u32,
    pub width: u32,
    pub height: u32,
    pub encoding: bool,
    pub sps_pps_sent: bool,
    pub sps_data: Vec<u8>,
    pub pps_data: Vec<u8>,
    pub got_idr_frame: bool,
    pub frame_count: u64,
    pub last_read_position: usize,
}

/// An encoder with its parameter sets as sequences.
pub struct EncoderState {
    pub texture_manager: Option<D3D11TextureManager>,
    pub sink_writer: Option<MFSinkWriter>,
    pub fps: u32,
    pub bitrate: u32,
    pub monitor: u32,
    pub width: u32,
    pub height: u32,
    pub encoding: bool,
    pub sps_pps_sent: bool,
    pub sps: Seq<u8>,
    pub pps: Seq<u8>,
    pub got_idr_frame: bool,
    pub frame_count: u64,
    pub last_read_position: usize,
}

impl View for StreamingEncoder {
    type V = EncoderState;

    open spec fn view(&self) -> EncoderState {
        EncoderState {
            texture_manager: self.texture_manager,
            sink_writer: self.sink_writer,
            fps: self.fps,
            bitrate: self.bitrate,
            monitor: self.monitor,
            width: self.width,
            height: self.height,
            encoding: self.encoding,
            sps_pps_sent: self.sps_pps_sent,
            sps: self.sps_data@,
            pps: self.pps_data@,
            got_idr_frame: self.got_idr_frame,
            frame_count: self.frame_count,
            last_read_position: self.last_read_position,
        }
    }
}

impl EncoderState {
    /// While it encodes, and only then, there are textures and a writer; both have the
    /// encoder's size, and the writer has counted the same frames.
    pub open spec fn wf(self) -> bool {
        &&& self.encoding == (self.texture_manager is Some)
        &&& self.encoding == (self.sink_writer is Some)
        &&& self.encoding ==> {
            &&& self.texture_manager->Some_0 == (D3D11TextureManager {
                width: self.width,
                height: self.height,
            })
            &&& self.writer().wf()
            &&& self.writer().width == self.width
            &&& self.writer().height == self.height
            &&& self.writer().frame_count == self.frame_count
        }
    }

    /// The writer of the encoder that is running.
    pub open spec fn writer(self) -> MFSinkWriter {
        self.sink_writer->Some_0
    }

    /// The size of a frame has 32 bits.
    pub open spec fn has_frames(self) -> bool {
        d3d11::frame_bytes(self.width, self.height) <= u32::MAX
    }

    /// A frame of `len` bytes is accepted.
    pub open spec fn accepts(self, len: nat) -> bool {
        self.encoding && len == d3d11::frame_bytes(self.width, self.height)
    }

    /// Why a frame of `len` bytes is refused.
    pub open spec fn refusal(self, len: nat) -> RecorderError {
        if !self.encoding {
            RecorderError::NotRecording
        } else {
            RecorderError::FrameSizeMismatch {
                expected: d3d11::frame_bytes(self.width, self.height) as usize,
                actual: len as usize,
            }
        }
    }

    /// A start-up of this encoder.
    pub open spec fn startup(self) -> Startup {
        Startup {
            stage: StartStage::Device,
            width: self.width,
            height: self.height,
            fps: self.fps,
            audio: false,
        }
    }

    /// `startup` is a start-up of this encoder, which does not run yet.
    pub open spec fn is_starting(self, startup: Startup) -> bool {
        !self.encoding && startup == (Startup { stage: startup.stage, ..self.startup() })
    }

    /// The encoder once a start-up with the given writer is done.
    pub open spec fn started(self, writer: MFSinkWriter) -> EncoderState {
        EncoderState {
            texture_manager: Some(
                D3D11TextureManager { width: writer.width, height: writer.height },
            ),
            sink_writer: Some(writer),
            width: writer.width,
            height: writer.height,
            encoding: true,
            sps_pps_sent: false,
            sps: initial_sps(),
            pps: initial_pps(),
            got_idr_frame: false,
            frame_count: 0,
            last_read_position: 0,
            ..self
        }
    }

    /// What the buffer holds behind the part that was handed out.
    pub open spec fn unread(self, stream: Seq<u8>) -> Seq<u8> {
        if self.last_read_position < stream.len() {
            stream.skip(self.last_read_position as int)
        } else {
            Seq::empty()
        }
    }

    /// There are new units in the buffer.
    pub open spec fn has_news(self, stream: Seq<u8>) -> bool {
        memory_byte_stream::nal_units(self.unread(stream)).len() > 0
    }

    /// What is handed out after a frame.
    pub open spec fn news(self, stream: Seq<u8>) -> Seq<u8> {
        tagged_stream(memory_byte_stream::nal_units(self.unread(stream)))
    }

    /// The encoder after a frame was written that left the buffer as it is now.
    pub open spec fn after_frame(self, stream: Seq<u8>) -> EncoderState {
        EncoderState {
            sink_writer: Some(self.writer().after(true)),
            frame_count: (self.frame_count + 1) as u64,
            last_read_position: if self.has_news(stream) {
                stream.len() as usize
            } else {
                self.last_read_position
            },
            ..self
        }
    }

    /// The encoder once it has stopped.
    pub open spec fn stopped(self) -> EncoderState {
        EncoderState { texture_manager: None, sink_writer: None, encoding: false, ..self }
    }
}

/// What a receiver of the stream has to know.
#[derive(Debug)]
pub struct StreamInfo {
    pub width: u32,
    pub height: u32,
    pub fps: u32,
    pub sps: Vec<u8>,
    pub pps: Vec<u8>,
}

fn tag_of(nal_type: u8) -> (result: u8)
    ensures
        result == tag(nal_type),
{
    match nal_type {
        7 | 8 => 0x01,
        5 => 0x02,
        1 => 0x03,
        _ => 0x03,
    }
}

/// Appends a unit as it is handed out.
fn append_tagged(result: &mut Vec<u8>, unit: &Vec<u8>)
    ensures
        final(result)@ == old(result)@ + tagged(unit@),
{
    let ghost before = result@;
    if let Some(nal_type) = get_nal_type(unit.as_slice()) {
        result.push(tag_of(nal_type));
        result.push(0x00);
        result.push(0x00);
        result.push(0x00);
        result.push(0x01);
        assert(result@ =~= before + (seq![tag(nal_type)] + memory_byte_stream::start_code()));
        result.extend_from_slice(unit.as_slice());
    }
    assert(result@ =~= before + tagged(unit@));
}

fn make_sps() -> (sps: Vec<u8>)
    ensures
        sps@ == initial_sps(),
{
    let sps: Vec<u8> = vec![
        0x00u8, 0x00, 0x00, 0x01, 0x67, 0x42, 0x00, 0x1e, 0x00, 0x80, 0x05, 0x65, 0x94,
    ];
    assert(sps@ =~= initial_sps());
    sps
}

fn make_pps() -> (pps: Vec<u8>)
    ensures
        pps@ == initial_pps(),
{
    let pps: Vec<u8> = vec![0x00u8, 0x00, 0x00, 0x01, 0x68, 0x00, 0xf8, 0x00];
    assert(pps@ =~= initial_pps());
    pps
}

/// The bytes from a position on.
fn rest_from(data: &[u8], from: usize) -> (rest: &[u8])
    requires
        from <= data@.len(),
    ensures
        rest@ == data@.skip(from as int),
{
    vstd::slice::slice_subrange(data, from, data.len())
}

impl StreamingEncoder {
    /// An encoder of one of the given outputs.
    pub fn new(fps: u32, bitrate: u32, monitor: u32, outputs: &Vec<DesktopRect>) -> (encoder: Result<
        Self,
        RecorderError,
    >)
        requires
            d3d11::is_measured(monitor, outputs@),
        ensures
            encoder matches Ok(made) ==> {
                &&& made@.wf()
                &&& d3d11::is_size_of(monitor, outputs@, Ok((made.width, made.height)))
                &&& made@ == (EncoderState {
                    texture_manager: None,
                    sink_writer: None,
                    fps,
                    bitrate,
                    monitor,
                    width: made.width,
                    height: made.height,
                    encoding: false,
                    sps_pps_sent: false,
                    sps: Seq::empty(),
                    pps: Seq::empty(),
                    got_idr_frame: false,
                    frame_count: 0,
                    last_read_position: 0,
                })
            },
            encoder matches Err(error) ==> d3d11::is_size_of(monitor, outputs@, Err(error)),
    {
        match D3D11TextureManager::detect_monitor(monitor, outputs) {
            Err(error) => Err(error),
            Ok((width, height)) => Ok(
                StreamingEncoder {
                    texture_manager: None,
                    sink_writer: None,
                    fps,
                    bitrate,
                    monitor,
                    width,
                    height,
                    encoding: false,
                    sps_pps_sent: false,
                    sps_data: Vec::new(),
                    pps_data: Vec::new(),
                    got_idr_frame: false,
                    frame_count: 0,
                    last_read_position: 0,
                },
            ),
        }
    }

    /// Begins a start-up, unless the encoder runs already.
    pub fn start(&self) -> (startup: Result<Startup, RecorderError>)
        ensures
            self.encoding ==> startup == Err::<Startup, RecorderError>(
                RecorderError::AlreadyRecording,
            ),
            !self.encoding ==> startup == Ok::<Startup, RecorderError>(self@.startup()),
    {
        if self.encoding {
            return Err(RecorderError::AlreadyRecording);
        }
        Ok(Startup::new(self.width, self.height, self.fps, false))
    }

    /// Takes note of how the present stage of a start-up of this encoder went. Once all stages are done
    /// the encoder runs, with the writer's size and everything else reset; before that,
    /// and after a failure, it stays as it was.
    pub fn start_next(
        &mut self,
        startup: &mut Startup,
        outcome: Result<(), RecorderError>,
    ) -> (result: Result<StartAction, RecorderError>)
        requires
            old(self)@.wf(),
            old(startup).wf(),
            old(self)@.is_starting(*old(startup)),
            old(startup).stage is Device && outcome is Ok ==> old(startup).is_possible(),
        ensures
            final(self)@.wf(),
            final(startup).wf(),
            *final(startup) == old(startup).after(outcome is Ok),
            outcome is Ok ==> result == Ok::<StartAction, RecorderError>(final(startup).task()),
            outcome is Err ==> result == Err::<StartAction, RecorderError>(outcome->Err_0),
            final(self)@ == (match (old(startup).stage, outcome) {
                (StartStage::Writing(writer), Ok(())) => old(self)@.started(writer),
                _ => old(self)@,
            }),
    {
        let waiting: bool = matches!(startup.stage, StartStage::Writing(_));
        let result = startup.advance(outcome);
        if waiting {
            if let StartStage::Done(writer) = startup.stage {
                self.width = writer.width();
                self.height = writer.height();
                self.sps_pps_sent = false;
                self.got_idr_frame = false;
                self.frame_count = 0;
                self.last_read_position = 0;
                self.texture_manager = Some(
                    D3D11TextureManager::new(writer.width(), writer.height()),
                );
                self.sink_writer = Some(writer);
                self.encoding = true;
                self.sps_data = make_sps();
                self.pps_data = make_pps();
            }
        }
        result
    }

    /// What a receiver has to know of the stream.
    pub fn info(&self) -> (info: StreamInfo)
        ensures
            info.width == self.width,
            info.height == self.height,
            info.fps == self.fps,
            info.sps@ == self@.sps,
            info.pps@ == self@.pps,
    {
        let sps: Vec<u8> = self.sps_data.clone();
        let pps: Vec<u8> = self.pps_data.clone();
        assert(sps@ =~= self@.sps);
        assert(pps@ =~= self@.pps);
        StreamInfo { width: self.width, height: self.height, fps: self.fps, sps, pps }
    }

    /// Checks a frame, and says when it is shown and for how long.
    pub fn prepare_frame(&self, frame_data: &[u8]) -> (timing: Result<SampleTiming, RecorderError>)
        requires
            self@.wf(),
            self.encoding ==> self@.has_frames(),
            self@.accepts(frame_data@.len()) ==> self@.writer().is_on_time(),
        ensures
            self@.accepts(frame_data@.len()) ==> timing is Ok && timing->Ok_0.time
                == self@.writer().time_of(self.frame_count as int) && timing->Ok_0.duration
                == self@.writer().frame_duration,
            !self@.accepts(frame_data@.len()) ==> timing == Err::<SampleTiming, RecorderError>(
                self@.refusal(frame_data@.len()),
            ),
    {
        match (&self.texture_manager, &self.sink_writer) {
            (Some(textures), Some(writer)) => match textures.check_frame(frame_data) {
                Ok(()) => Ok(writer.sample_timing()),
                Err(error) => Err(error),
            },
            _ => Err(RecorderError::NotRecording),
        }
    }

    /// Takes note of an attempt to write a frame, and hands out the units that are new in
    /// the buffer.
    pub fn encode_frame(
        &mut self,
        frame_data: &[u8],
        written: Result<(), RecorderError>,
        stream: &[u8],
    ) -> (result: Result<Option<Vec<u8>>, RecorderError>)
        requires
            old(self)@.wf(),
            old(self).encoding ==> old(self)@.has_frames(),
            old(self)@.accepts(frame_data@.len()) && written is Ok ==> old(self).frame_count
                < u64::MAX,
        ensures
            final(self)@.wf(),
            !old(self)@.accepts(frame_data@.len()) ==> result == Err::<
                Option<Vec<u8>>,
                RecorderError,
            >(old(self)@.refusal(frame_data@.len())) && final(self)@ == old(self)@,
            old(self)@.accepts(frame_data@.len()) && written is Err ==> result == Err::<
                Option<Vec<u8>>,
                RecorderError,
            >(written->Err_0) && final(self)@ == old(self)@,
            old(self)@.accepts(frame_data@.len()) && written is Ok ==> {
                &&& final(self)@ == old(self)@.after_frame(stream@)
                &&& result is Ok
                &&& !old(self)@.has_news(stream@) ==> result->Ok_0 is None
                &&& old(self)@.has_news(stream@) ==> result->Ok_0 is Some
                    && result->Ok_0->Some_0@ == old(self)@.news(stream@)
            },
    {
        let mut writer: MFSinkWriter = match (self.texture_manager, self.sink_writer) {
            (Some(textures), Some(writer)) => match textures.check_frame(frame_data) {
                Ok(()) => writer,
                Err(error) => {
                    return Err(error);
                },
            },
            _ => {
                return Err(RecorderError::NotRecording);
            },
        };
        match writer.write_sample(written) {
            Ok(()) => {},
            Err(error) => {
                return Err(error);
            },
        }
        self.sink_writer = Some(writer);
        self.frame_count += 1;
        if stream.len() > self.last_read_position {
            let new_data: &[u8] = rest_from(stream, self.last_read_position);
            let nal_units: Vec<Vec<u8>> = extract_nal_units(new_data);
            if nal_units.len() > 0 {
                self.last_read_position = stream.len();
                let encoded: Vec<u8> = self.encode_with_prefix(nal_units);
                return Ok(Some(encoded));
            }
        }
        proof {
            memory_byte_stream::law_empty_buffer_has_no_units();
        }
        Ok(None)
    }

    /// The units as they are handed out.
    pub fn encode_with_prefix(&self, nal_units: Vec<Vec<u8>>) -> (result: Vec<u8>)
        ensures
            result@ == tagged_stream(memory_byte_stream::units_view(nal_units@)),
    {
        let mut result: Vec<u8> = Vec::new();
        let ghost units = memory_byte_stream::units_view(nal_units@);
        let mut i: usize = 0;
        while i < nal_units.len()
            invariant
                i <= nal_units@.len(),
                units == memory_byte_stream::units_view(nal_units@),
                result@ == tagged_stream(units.take(i as int)),
            decreases nal_units@.len() - i,
        {
            append_tagged(&mut result, &nal_units[i]);
            proof {
                let longer = units.take(i + 1);
                assert(longer.drop_last() =~= units.take(i as int));
                assert(longer.last() == nal_units@[i as int]@);
            }
            i += 1;
        }
        assert(units.take(i as int) =~= units);
        result
    }

    /// Stops the encoder, given how finishing the stream went. After a failure it still
    /// runs; one that does not run has nothing to stop.
    pub fn stop(&mut self, finalized: Result<(), RecorderError>) -> (result: Result<
        (),
        RecorderError,
    >)
        requires
            old(self)@.wf(),
        ensures
            final(self)@.wf(),
            !old(self).encoding ==> result == Ok::<(), RecorderError>(()) && final(self)@ == old(
                self,
            )@,
            old(self).encoding && finalized is Ok ==> result == finalized && final(self)@ == old(
                self,
            )@.stopped(),
            old(self).encoding && finalized is Err ==> result == finalized && final(self)@ == old(
                self,
            )@,
    {
        if !self.encoding {
            return Ok(());
        }
        if finalized.is_ok() {
            self.sink_writer = None;
            self.texture_manager = None;
            self.encoding = false;
        }
        finalized
    }

    /// The width of the video: the monitor's until the first start, then the writer's.
    pub fn width(&self) -> (width: u32)
        ensures
            width == self.width,
    {
        self.width
    }

    /// The height of the video: the monitor's until the first start, then the writer's.
    pub fn height(&self) -> (height: u32)
        ensures
            height == self.height,
    {
        self.height
    }

    /// The frame rate.
    pub fn fps(&self) -> (fps: u32)
        ensures
            fps == self.fps,
    {
        self.fps
    }

    /// Whether the encoder runs.
    pub fn is_encoding(&self) -> (encoding: bool)
        ensures
            encoding == self.encoding,
    {
        self.encoding
    }

    /// The number of the monitor.
    pub fn monitor(&self) -> (monitor: u32)
        ensures
            monitor == self.monitor,
    {
        self.monitor
    }
}

/// The tag tells parameter sets, key frames and other units apart.
pub proof fn law_tags_tell_the_kind(nal_type: u8)
    ensures
        tag(nal_type) == 1 <==> nal_type == 7 || nal_type == 8,
        tag(nal_type) == 2 <==> nal_type == 5,
        tag(nal_type) == 3 <==> nal_type != 5 && nal_type != 7 && nal_type != 8,
{
}

/// Units that are handed out together come one after the other, as if each had been
/// handed out alone.
pub proof fn law_tagged_streams_concatenate(first: Seq<Seq<u8>>, second: Seq<Seq<u8>>)
    ensures
        tagged_stream(first + second) == tagged_stream(first) + tagged_stream(second),
    decreases second.len(),
{
    if second.len() == 0 {
        assert(first + second =~= first);
        assert(tagged_stream(first) + tagged_stream(second) =~= tagged_stream(first));
    } else {
        law_tagged_streams_concatenate(first, second.drop_last());
        assert((first + second).drop_last() =~= first + second.drop_last());
        assert((first + second).last() == second.last());
        assert(tagged_stream(first + second) =~= tagged_stream(first) + tagged_stream(second));
    }
}

/// A unit that was handed out can be told by its first byte and read back from the rest.
pub proof fn law_tagged_unit_can_be_read_back(unit: Seq<u8>)
    requires
        memory_byte_stream::nal_type(unit) is Some,
        memory_byte_stream::stays_whole(unit, true),
    ensures
        tagged(unit).len() == unit.len() + 5,
        tagged(unit)[0] == tag(memory_byte_stream::nal_type(unit)->Some_0),
        memory_byte_stream::nal_units(tagged(unit).skip(1)) == seq![unit],
{
    let units = seq![unit];
    assert(memory_byte_stream::fit_for_annex_b(units)) by {
        assert forall|k: int| 0 <= k < units.len() implies memory_byte_stream::stays_whole(
            #[trigger] units[k],
            k == units.len() - 1,
        ) by {}
    }
    lemma_single_unit_stream(unit);
    assert(tagged(unit).skip(1) =~= memory_byte_stream::start_code() + unit);
    memory_byte_stream::law_annex_b_round_trip(units);
}

proof fn lemma_single_unit_stream(unit: Seq<u8>)
    ensures
        memory_byte_stream::annex_b_stream(seq![unit]) == memory_byte_stream::start_code() + unit,
{
    let units = seq![unit];
    assert(units.skip(1).len() == 0);
    assert(memory_byte_stream::annex_b_stream(units.skip(1)) =~= Seq::empty());
    assert(memory_byte_stream::annex_b_stream(units) =~= memory_byte_stream::start_code() + unit);
}

/// What was handed out is not handed out again.
pub proof fn law_nothing_is_handed_out_twice(state: EncoderState, stream: Seq<u8>)
    requires
        stream.len() <= usize::MAX,
        state.has_news(stream),
    ensures
        !state.after_frame(stream).has_news(stream),
        state.after_frame(stream).unread(stream) == Seq::<u8>::empty(),
{
    memory_byte_stream::law_empty_buffer_has_no_units();
}

/// The position in the buffer never moves back, and never beyond what was in it.
pub proof fn law_position_moves_forward(state: EncoderState, stream: Seq<u8>)
    requires
        stream.len() <= usize::MAX,
    ensures
        state.last_read_position <= state.after_frame(stream).last_read_position,
        state.has_news(stream) ==> state.after_frame(stream).last_read_position == stream.len(),
        !state.has_news(stream) ==> state.after_frame(stream).last_read_position
            == state.last_read_position,
{
    memory_byte_stream::law_empty_buffer_has_no_units();
}

/// Nothing is lost: what was in the buffer and not handed out is still unread when the
/// buffer has grown, and what was handed out is not.
pub proof fn law_nothing_is_skipped(state: EncoderState, stream: Seq<u8>, more: Seq<u8>)
    requires
        (stream + more).len() <= usize::MAX,
        state.last_read_position <= stream.len(),
    ensures
        state.has_news(stream) ==> state.after_frame(stream).unread(stream + more) == more,
        !state.has_news(stream) ==> state.after_frame(stream).unread(stream + more)
            == state.unread(stream) + more,
{
    let next = state.after_frame(stream);
    if state.has_news(stream) {
        assert(next.unread(stream + more) =~= more);
    } else {
        assert(next.unread(stream + more) =~= state.unread(stream) + more);
    }
}

/// The parameter sets that are announced are a sequence and a picture parameter set, each
/// behind a start code of four bytes.
pub proof fn law_announced_parameter_sets()
    ensures
        memory_byte_stream::nal_type(initial_sps()) == Some(7u8),
        memory_byte_stream::nal_type(initial_pps()) == Some(8u8),
        initial_sps() == seq![
            0u8, 0u8, 0u8, 1u8, 0x67u8, 0x42u8, 0u8, 0x1eu8, 0u8, 0x80u8, 0x05u8, 0x65u8, 0x94u8,
        ],
        initial_pps() == seq![0u8, 0u8, 0u8, 1u8, 0x68u8, 0u8, 0xf8u8, 0u8],
{
    let sps = seq![0x67u8, 0x42, 0x00, 0x1e, 0x00, 0x80, 0x05, 0x65, 0x94];
    let pps = seq![0x68u8, 0x00, 0xf8, 0x00];
    memory_byte_stream::law_nal_type_behind_start_code(sps);
    memory_byte_stream::law_nal_type_behind_start_code(pps);
    assert(initial_sps() =~= seq![
        0u8, 0u8, 0u8, 1u8, 0x67u8, 0x42u8, 0u8, 0x1eu8, 0u8, 0x80u8, 0x05u8, 0x65u8, 0x94u8,
    ]);
    assert(initial_pps() =~= seq![0u8, 0u8, 0u8, 1u8, 0x68u8, 0u8, 0xf8u8, 0u8]);
}

/// Once started, an encoder has the smallest size that the writer accepts and that the
/// monitor's picture fits in, and has read nothing and counted nothing.
pub proof fn law_started_size(state: EncoderState, outcomes: Seq<bool>)
    requires
        state.wf(),
        state.startup().is_possible(),
        startup::run(state.startup(), outcomes).stage is Done,
    ensures
        ({
            let started = state.started(startup::run(state.startup(), outcomes).stage->Done_0);
            &&& started.wf()
            &&& started.encoding
            &&& started.width == mf_writer::aligned(state.width as int)
            &&& started.height == mf_writer::aligned(state.height as int)
            &&& started.frame_count == 0
            &&& started.last_read_position == 0
            &&& started.fps == state.fps
        }),
{
    startup::law_settings_are_kept(state.startup(), outcomes);
    mf_writer::law_alignment(state.width as int);
    mf_writer::law_alignment(state.height as int);
}

/// An encoder after a series of frames, with the buffer as each of them left it.
pub open spec fn after_frames(state: EncoderState, streams: Seq<Seq<u8>>) -> EncoderState
    decreases streams.len(),
{
    if streams.len() == 0 {
        state
    } else {
        after_frames(state, streams.drop_last()).after_frame(streams.last())
    }
}

/// The frame count is the number of frames that were written, and frames change nothing
/// but the counts and the position in the buffer.
pub proof fn law_written_frames_are_counted(state: EncoderState, streams: Seq<Seq<u8>>)
    requires
        state.wf(),
        state.encoding,
        state.frame_count + streams.len() <= u64::MAX,
    ensures
        ({
            let last = after_frames(state, streams);
            &&& last.wf()
            &&& last.frame_count == state.frame_count + streams.len()
            &&& last == (EncoderState {
                sink_writer: last.sink_writer,
                frame_count: last.frame_count,
                last_read_position: last.last_read_position,
                ..state
            })
        }),
    decreases streams.len(),
{
    if streams.len() > 0 {
        law_written_frames_are_counted(state, streams.drop_last());
    }
}

/// The parts one after the other.
pub open spec fn joined<A>(parts: Seq<Seq<A>>) -> Seq<A>
    decreases parts.len(),
{
    if parts.len() == 0 {
        Seq::empty()
    } else {
        joined(parts.drop_last()) + parts.last()
    }
}

/// The buffer after each of a series of frames: it held `start` before, and every frame
/// adds its piece.
pub open spec fn growing_buffer(start: Seq<u8>, pieces: Seq<Seq<u8>>) -> Seq<Seq<u8>> {
    Seq::new(pieces.len(), |i: int| start + joined(pieces.take(i + 1)))
}

/// The units in a series of pieces.
pub open spec fn units_of_pieces(pieces: Seq<Seq<u8>>) -> Seq<Seq<u8>> {
    joined(pieces.map_values(|piece: Seq<u8>| memory_byte_stream::nal_units(piece)))
}

/// What is handed out over a series of frames, with the buffer as each of them left it.
pub open spec fn handed_out(state: EncoderState, streams: Seq<Seq<u8>>) -> Seq<u8>
    decreases streams.len(),
{
    if streams.len() == 0 {
        Seq::empty()
    } else {
        handed_out(state, streams.drop_last()) + after_frames(state, streams.drop_last()).news(
            streams.last(),
        )
    }
}

/// Every frame adds nothing to the buffer, or a piece with a unit in it.
pub open spec fn are_whole_pieces(pieces: Seq<Seq<u8>>) -> bool {
    forall|i: int|
        0 <= i < pieces.len() ==> (#[trigger] pieces[i]).len() == 0
            || memory_byte_stream::nal_units(pieces[i]).len() > 0
}

/// When the buffer grows by whole pieces, the units of all pieces are handed out, each once
/// and in order, and the whole buffer has been read.
pub proof fn law_pieces_are_handed_out_in_order(
    state: EncoderState,
    start: Seq<u8>,
    pieces: Seq<Seq<u8>>,
)
    requires
        state.last_read_position == start.len(),
        are_whole_pieces(pieces),
        (start + joined(pieces)).len() <= usize::MAX,
    ensures
        handed_out(state, growing_buffer(start, pieces)) == tagged_stream(units_of_pieces(pieces)),
        after_frames(state, growing_buffer(start, pieces)).last_read_position == (start + joined(
            pieces,
        )).len(),
    decreases pieces.len(),
{
    let streams = growing_buffer(start, pieces);
    let units = pieces.map_values(|piece: Seq<u8>| memory_byte_stream::nal_units(piece));
    if pieces.len() > 0 {
        let fewer = pieces.drop_last();
        let piece = pieces.last();
        let held = start + joined(fewer);
        assert forall|i: int| 0 <= i < fewer.len() implies (#[trigger] fewer[i]).len() == 0
            || memory_byte_stream::nal_units(fewer[i]).len() > 0 by {
            assert(fewer[i] == pieces[i]);
        }
        law_pieces_are_handed_out_in_order(state, start, fewer);
        assert(streams.drop_last() =~= growing_buffer(start, fewer)) by {
            assert forall|i: int| 0 <= i < fewer.len() implies streams[i] == growing_buffer(
                start,
                fewer,
            )[i] by {
                assert(pieces.take(i + 1) =~= fewer.take(i + 1));
            }
        }
        assert(pieces.take(pieces.len() as int) =~= pieces);
        assert(streams.last() =~= held + piece);
        assert(units.drop_last() =~= fewer.map_values(
            |piece: Seq<u8>| memory_byte_stream::nal_units(piece),
        ));
        let before = after_frames(state, streams.drop_last());
        assert(before.unread(held + piece) =~= piece);
        memory_byte_stream::law_empty_buffer_has_no_units();
        assert(pieces[pieces.len() - 1] == piece);
        if piece.len() == 0 {
            assert(piece =~= Seq::empty());
        }
        law_tagged_streams_concatenate(
            units_of_pieces(fewer),
            memory_byte_stream::nal_units(piece),
        );
    }
}

/// When the buffer grows by batches of units in Annex-B framing, all units are handed out,
/// each once and in order, however many frames there are and however the units are spread
/// over them.
pub proof fn law_units_are_handed_out_in_order(
    state: EncoderState,
    start: Seq<u8>,
    batches: Seq<Seq<Seq<u8>>>,
)
    requires
        state.last_read_position == start.len(),
        forall|i: int|
            0 <= i < batches.len() ==> memory_byte_stream::fit_for_annex_b(#[trigger] batches[i]),
        (start + joined(annex_b_pieces(batches))).len() <= usize::MAX,
    ensures
        handed_out(state, growing_buffer(start, annex_b_pieces(batches))) == tagged_stream(
            joined(batches),
        ),
{
    let pieces = annex_b_pieces(batches);
    assert forall|i: int| 0 <= i < pieces.len() implies memory_byte_stream::nal_units(
        #[trigger] pieces[i],
    ) == batches[i] by {
        memory_byte_stream::law_annex_b_round_trip(batches[i]);
    }
    assert forall|i: int| 0 <= i < pieces.len() implies (#[trigger] pieces[i]).len() == 0
        || memory_byte_stream::nal_units(pieces[i]).len() > 0 by {
        assert(memory_byte_stream::nal_units(pieces[i]) == batches[i]);
    }
    law_pieces_are_handed_out_in_order(state, start, pieces);
    assert(pieces.map_values(|piece: Seq<u8>| memory_byte_stream::nal_units(piece)) =~= batches);
}

/// Each batch of units in Annex-B framing.
pub open spec fn annex_b_pieces(batches: Seq<Seq<Seq<u8>>>) -> Seq<Seq<u8>> {
    batches.map_values(|batch: Seq<Seq<u8>>| memory_byte_stream::annex_b_stream(batch))
}

/// The state of an encoder is all of its fields.
pub proof fn law_state_shows_every_field(encoder: StreamingEncoder)
    ensures
        encoder@.texture_manager == encoder.texture_manager,
        encoder@.sink_writer == encoder.sink_writer,
        encoder@.fps == encoder.fps,
        encoder@.bitrate == encoder.bitrate,
        encoder@.monitor == encoder.monitor,
        encoder@.width == encoder.width,
        encoder@.height == encoder.height,
        encoder@.encoding == encoder.encoding,
        encoder@.sps_pps_sent == encoder.sps_pps_sent,
        encoder@.sps == encoder.sps_data@,
        encoder@.pps == encoder.pps_data@,
        encoder@.got_idr_frame == encoder.got_idr_frame,
        encoder@.frame_count == encoder.frame_count,
        encoder@.last_read_position == encoder.last_read_position,
{
}

/// A unit with a type is handed out as one byte that tells its kind, the four bytes
/// `00 00 00 01` and all of its own bytes; of any other unit nothing is handed out.
pub proof fn law_tagged_unit_by_bytes(unit: Seq<u8>)
    ensures
        memory_byte_stream::nal_type(unit) is None ==> tagged(unit).len() == 0,
        memory_byte_stream::nal_type(unit) matches Some(kind) ==> {
            &&& tagged(unit).len() == 5 + unit.len()
            &&& kind == 7 || kind == 8 ==> tagged(unit)[0] == 1
            &&& kind == 5 ==> tagged(unit)[0] == 2
            &&& kind != 5 && kind != 7 && kind != 8 ==> tagged(unit)[0] == 3
            &&& tagged(unit)[1] == 0 && tagged(unit)[2] == 0 && tagged(unit)[3] == 0
            &&& tagged(unit)[4] == 1
            &&& forall|k: int| 0 <= k < unit.len() ==> #[trigger] unit[k] == tagged(unit)[5 + k]
        },
{
}

/// One unit alone is handed out as itself, and no units as nothing.
pub proof fn law_single_unit_is_handed_out(unit: Seq<u8>)
    ensures
        tagged_stream(seq![unit]) == tagged(unit),
        tagged_stream(Seq::empty()) == Seq::<u8>::empty(),
{
    let units = seq![unit];
    assert(units.drop_last() =~= Seq::empty());
    assert(tagged_stream(units.drop_last()) =~= Seq::empty());
    assert(tagged_stream(units) =~= tagged(unit));
}

/// After a frame, what stands in the buffer behind the read position decides. If it yields
/// units, they are handed out and everything has been read. If it yields none, nothing is
/// handed out and the read position stays. Either way the frame is counted.
pub proof fn law_units_behind_the_position_decide(
    state: EncoderState,
    stream: Seq<u8>,
    new_data: Seq<u8>,
)
    requires
        state.last_read_position <= stream.len() <= usize::MAX,
        new_data == stream.subrange(state.last_read_position as int, stream.len() as int),
        state.frame_count < u64::MAX,
    ensures
        state.after_frame(stream).frame_count == state.frame_count + 1,
        state.sink_writer matches Some(writer) ==> writer.frame_count < u64::MAX ==> (
        state.after_frame(stream).sink_writer matches Some(next) && next.frame_count
            == writer.frame_count + 1 && next.frame_duration == writer.frame_duration && next.width
            == writer.width && next.height == writer.height),
        memory_byte_stream::nal_units(new_data).len() == 0 ==> {
            &&& !state.has_news(stream)
            &&& state.after_frame(stream).last_read_position == state.last_read_position
        },
        memory_byte_stream::nal_units(new_data).len() > 0 ==> {
            &&& state.has_news(stream)
            &&& state.news(stream) == tagged_stream(memory_byte_stream::nal_units(new_data))
            &&& state.after_frame(stream).last_read_position == stream.len()
        },
{
    memory_byte_stream::law_empty_buffer_has_no_units();
    assert(state.unread(stream) =~= new_data);
}

/// A buffer that is shorter than what was read yields nothing.
pub proof fn law_shorter_buffer_yields_nothing(state: EncoderState, stream: Seq<u8>)
    requires
        stream.len() <= state.last_read_position,
    ensures
        !state.has_news(stream),
        state.after_frame(stream).last_read_position == state.last_read_position,
{
    memory_byte_stream::law_empty_buffer_has_no_units();
}

/// A length-prefixed unit that arrives in two parts waits until it is complete: the first
/// part is not handed out and not skipped, and with the second one the whole unit is handed
/// out.
pub proof fn law_unit_in_two_parts_is_handed_out_whole(
    state: EncoderState,
    start: Seq<u8>,
    first: Seq<u8>,
    second: Seq<u8>,
)
    requires
        state.last_read_position == start.len(),
        start.len() + first.len() + second.len() <= usize::MAX,
        second.len() > 0,
        memory_byte_stream::free_of_codes(first + second),
        (first + second).len() > 4,
        ({
            let all = first + second;
            all[0] * 16777216 + all[1] * 65536 + all[2] * 256 + all[3] == all.len() - 4
        }),
    ensures
        !state.has_news(start + first),
        state.after_frame(start + first).last_read_position == state.last_read_position,
        state.after_frame(start + first).has_news(start + first + second),
        state.after_frame(start + first).news(start + first + second) == tagged(
            (first + second).subrange(4, (first + second).len() as int),
        ),
        state.after_frame(start + first).after_frame(start + first + second).last_read_position
            == start.len() + first.len() + second.len(),
{
    let all = first + second;
    let held = start + first;
    let full = start + first + second;
    let unit = all.subrange(4, all.len() as int);
    assert(first =~= all.subrange(0, first.len() as int));
    memory_byte_stream::lemma_part_is_free_of_codes(all, 0, first.len() as int);
    memory_byte_stream::law_start_codes_decide_the_framing(first);
    memory_byte_stream::law_start_codes_decide_the_framing(all);
    memory_byte_stream::law_length_prefixed_buffer(first);
    memory_byte_stream::law_length_prefixed_buffer(all);
    memory_byte_stream::law_empty_buffer_has_no_units();
    law_single_unit_is_handed_out(unit);
    assert(memory_byte_stream::nal_units(all) == seq![unit]);
    assert(memory_byte_stream::nal_units(first).len() == 0) by {
        if first.len() >= 4 {
            assert(first[0] == all[0] && first[1] == all[1] && first[2] == all[2] && first[3]
                == all[3]);
        }
    }
    assert(state.unread(held) =~= first);
    assert(state.after_frame(held).unread(full) =~= all);
}

/// An encoder accepts frames of four bytes per pixel while it runs, and tells why it refuses
/// others.
pub proof fn law_accepted_frames(state: EncoderState, len: nat)
    ensures
        state.accepts(len) <==> state.encoding && len == 4 * (state.width * state.height),
        !state.encoding ==> state.refusal(len) == RecorderError::NotRecording,
        state.encoding && state.has_frames() && len <= usize::MAX ==> (state.refusal(
            len,
        ) matches RecorderError::FrameSizeMismatch { expected, actual } && expected == 4 * (
        state.width * state.height) && actual == len),
        state.has_frames() <==> 4 * (state.width * state.height) <= 4294967295,
{
    d3d11::law_frame_size(state.width, state.height);
}

/// A start asks for a device of the encoder's size, without audio.
pub proof fn law_start_request(state: EncoderState)
    ensures
        state.startup().stage is Device,
        state.startup().width == state.width,
        state.startup().height == state.height,
        state.startup().fps == state.fps,
        !state.startup().audio,
{
}

/// Starting takes over the writer and its size, announces the parameter sets and resets what
/// was counted and read; stopping gives up the textures and the writer. Nothing else changes.
pub proof fn law_start_and_stop(state: EncoderState, writer: MFSinkWriter)
    ensures
        ({
            let started = state.started(writer);
            &&& started.encoding
            &&& started.sink_writer == Some(writer)
            &&& started.texture_manager matches Some(textures) && textures.width == writer.width
                && textures.height == writer.height
            &&& started.width == writer.width && started.height == writer.height
            &&& started.fps == state.fps && started.bitrate == state.bitrate
            &&& started.monitor == state.monitor
            &&& started.sps == initial_sps() && started.pps == initial_pps()
            &&& !started.sps_pps_sent && !started.got_idr_frame
            &&& started.frame_count == 0 && started.last_read_position == 0
        }),
        ({
            let stopped = state.stopped();
            &&& !stopped.encoding
            &&& stopped.sink_writer is None && stopped.texture_manager is None
            &&& stopped.width == state.width && stopped.height == state.height
            &&& stopped.fps == state.fps && stopped.bitrate == state.bitrate
            &&& stopped.monitor == state.monitor
            &&& stopped.sps == state.sps && stopped.pps == state.pps
            &&& stopped.sps_pps_sent == state.sps_pps_sent
            &&& stopped.got_idr_frame == state.got_idr_frame
            &&& stopped.frame_count == state.frame_count
            &&& stopped.last_read_position == state.last_read_position
        }),
{
}

/// A start-up belongs to what it was begun for, in every stage.
pub proof fn law_start_up_belongs(state: EncoderState, stage: StartStage)
    requires
        !state.encoding,
    ensures
        state.is_starting(state.startup()),
        state.is_starting((Startup { stage, ..state.startup() })),
{
}

} // verus!
