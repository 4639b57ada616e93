//! What the sink writer is told about the video and about each sample of it.
//!
//! Times are counted in units of 100 nanoseconds.
use crate::error::RecorderError;
use vstd::prelude::*;

verus! {

/// The number of units in a second.
pub const UNITS_PER_SECOND: i64 = 10_000_000;

/// The smallest multiple of 16 that is not below `n`.
pub open spec fn aligned(n: int) -> int {
    (n + 15) / 16 * 16
}

/// The aligned number still has 32 bits.
pub open spec fn alignable(n: u32) -> bool {
    n <= 0xFFFF_FFF0
}

/// Two 32-bit numbers in one of 64 bits.
pub open spec fn packed(high: u32, low: u32) -> int {
    high * 0x1_0000_0000 + low
}

/// The number of pixels of a 720p picture.
pub const PIXELS_720P: u32 = 921_600;

/// The number of pixels of a 4K picture.
pub const PIXELS_4K: u32 = 8_294_400;

/// The number of bits per second for pictures of so many pixels: 2 Mbps up to 720p, 8 Mbps
/// from 4K on, and 5 Mbps for the sizes in between, of which 1080p is one.
pub open spec fn bitrate(pixels: int) -> int {
    if pixels <= PIXELS_720P {
        2_000_000
    } else if pixels < PIXELS_4K {
        5_000_000
    } else {
        8_000_000
    }
}

/// Rounds up to a multiple of 16, as the encoder requires of both sides of a picture.
pub fn align_to_16(n: u32) -> (result: u32)
    requires
        alignable(n),
    ensures
        result == aligned(n as int),
{
    let rest: u32 = n % 16;
    if rest == 0 {
        n
    } else {
        n + (16 - rest)
    }
}

/// Packs two numbers, as a media type holds the size of a picture or a frame rate.
pub fn pack(high: u32, low: u32) -> (result: u64)
    ensures
        result == packed(high, low),
{
    high as u64 * 0x1_0000_0000 + low as u64
}

/// When a sample is shown, and for how long.
#[derive(Clone, Copy, Debug, PartialEq, Eq)]
pub struct SampleTiming {
    pub time: i64,
    pub duration: i64,
}

/// The state of a sink writer: the size of its pictures and the samples written so far.
#[derive(Clone, Copy, Debug, PartialEq, Eq)]
pub struct MFSinkWriter {
    pub frame_duration: i64,
    pub frame_count: u64,
    pub width: u32,
    pub height: u32,
}

impl MFSinkWriter {
    /// The sides of the pictures are multiples of 16, and no time runs backwards.
    pub open spec fn wf(self) -> bool {
        &&& self.width % 16 == 0
        &&& self.height % 16 == 0
        &&& 0 <= self.frame_duration <= UNITS_PER_SECOND
    }

    /// When sample number `k` is shown.
    pub open spec fn time_of(self, k: int) -> int {
        k * self.frame_duration
    }

    /// The time of the next sample can be stored.
    pub open spec fn is_on_time(self) -> bool {
        self.time_of(self.frame_count as int) <= i64::MAX
    }

    /// A writer for pictures of at least the given size. There is no audio.
    pub fn new(width: u32, height: u32, fps: u32, audio: bool) -> (writer: Result<
        Self,
        RecorderError,
    >)
        requires
            !audio ==> fps > 0 && alignable(width) && alignable(height),
        ensures
            audio ==> writer is Err && crate::error::is_invalid_param(
                writer->Err_0,
                "Audio encoding is not supported in this version"@,
            ),
            !audio ==> writer == Ok::<MFSinkWriter, RecorderError>(
                fresh_writer(width, height, fps),
            ) && writer->Ok_0.wf(),
    {
        if audio {
            return Err(
                RecorderError::InvalidParam(
                    "Audio encoding is not supported in this version".to_string(),
                ),
            );
        }
        proof {
            lemma_frame_duration(fps as int);
            law_fresh_writer(width, height, fps);
        }
        Ok(
            MFSinkWriter {
                frame_duration: UNITS_PER_SECOND / fps as i64,
                frame_count: 0,
                width: align_to_16(width),
                height: align_to_16(height),
            },
        )
    }

    /// The size of the pictures as a media type holds it.
    pub fn frame_size(&self) -> (size: u64)
        ensures
            size == packed(self.width, self.height),
    {
        pack(self.width, self.height)
    }

    /// A frame rate as a media type holds it.
    pub fn frame_rate(fps: u32) -> (rate: u64)
        ensures
            rate == packed(fps, 1),
    {
        pack(fps, 1)
    }

    /// Whether the time of the next sample can be stored.
    pub fn can_time_sample(&self) -> (possible: bool)
        requires
            self.wf(),
        ensures
            possible == self.is_on_time(),
    {
        let (count, duration): (u128, u128) = (
            self.frame_count as u128,
            self.frame_duration as u128,
        );
        proof {
            lemma_product_bound(count as int, duration as int);
        }
        count * duration <= i64::MAX as u128
    }

    /// When the next sample is shown, and for how long.
    pub fn sample_timing(&self) -> (timing: SampleTiming)
        requires
            self.wf(),
            self.is_on_time(),
        ensures
            timing.time == self.time_of(self.frame_count as int),
            timing.duration == self.frame_duration,
    {
        proof {
            lemma_product_is_positive(self.frame_count as int, self.frame_duration as int);
        }
        SampleTiming {
            time: (self.frame_count * self.frame_duration as u64) as i64,
            duration: self.frame_duration,
        }
    }

    /// Takes note of an attempt to write a sample: only a sample that was written counts.
    pub fn write_sample(&mut self, written: Result<(), RecorderError>) -> (result: Result<
        (),
        RecorderError,
    >)
        requires
            written is Ok ==> old(self).frame_count < u64::MAX,
        ensures
            result == written,
            *final(self) == old(self).after(written is Ok),
    {
        if written.is_ok() {
            self.frame_count += 1;
        }
        written
    }

    /// The writer after an attempt to write a sample.
    pub open spec fn after(self, written: bool) -> MFSinkWriter {
        MFSinkWriter {
            frame_count: if written {
                (self.frame_count + 1) as u64
            } else {
                self.frame_count
            },
            ..self
        }
    }

    /// A suitable bit rate for a video. The size of the pictures decides; the frame rate
    /// does not count.
    pub fn calculate_bitrate(width: u32, height: u32, _fps: u32) -> (result: u32)
        requires
            width * height <= u32::MAX,
        ensures
            result == bitrate(width * height),
    {
        proof {
            lemma_product_is_positive(width as int, height as int);
        }
        let pixels: u32 = width * height;
        if pixels <= PIXELS_720P {
            2_000_000
        } else if pixels < PIXELS_4K {
            5_000_000
        } else {
            8_000_000
        }
    }

    /// The width of the pictures.
    pub fn width(&self) -> (width: u32)
        ensures
            width == self.width,
    {
        self.width
    }

    /// The height of the pictures.
    pub fn height(&self) -> (height: u32)
        ensures
            height == self.height,
    {
        self.height
    }

    /// The number of samples written.
    pub fn frame_count(&self) -> (count: u64)
        ensures
            count == self.frame_count,
    {
        self.frame_count
    }
}

/// A writer that has not written anything yet.
pub open spec fn fresh_writer(width: u32, height: u32, fps: u32) -> MFSinkWriter {
    MFSinkWriter {
        frame_duration: (UNITS_PER_SECOND as int / fps as int) as i64,
        frame_count: 0,
        width: aligned(width as int) as u32,
        height: aligned(height as int) as u32,
    }
}

proof fn lemma_frame_duration(fps: int)
    requires
        fps > 0,
    ensures
        0 <= UNITS_PER_SECOND as int / fps <= UNITS_PER_SECOND,
{
    assert(0 <= 10_000_000int / fps <= 10_000_000) by (nonlinear_arith)
        requires
            fps > 0,
    ;
}

proof fn lemma_product_is_positive(a: int, b: int)
    requires
        0 <= a,
        0 <= b,
    ensures
        0 <= a * b,
{
    assert(0 <= a * b) by (nonlinear_arith)
        requires
            0 <= a,
            0 <= b,
    ;
}

proof fn lemma_product_bound(a: int, b: int)
    requires
        0 <= a <= u64::MAX,
        0 <= b <= UNITS_PER_SECOND,
    ensures
        0 <= a * b <= u128::MAX,
{
    assert(0 <= a * b <= 0xFFFF_FFFF_FFFF_FFFF * 10_000_000) by (nonlinear_arith)
        requires
            0 <= a <= 0xFFFF_FFFF_FFFF_FFFF,
            0 <= b <= 10_000_000,
    ;
}

/// An aligned number is a multiple of 16, not below the number and less than 16 above it.
pub proof fn law_alignment(n: int)
    requires
        0 <= n,
    ensures
        aligned(n) % 16 == 0,
        n <= aligned(n) < n + 16,
{
}

/// No smaller multiple of 16 would do.
pub proof fn law_alignment_is_least(n: int, m: int)
    requires
        0 <= n <= m,
        m % 16 == 0,
    ensures
        aligned(n) <= m,
{
}

/// A new writer is well formed, and its pictures are large enough for the frames.
pub proof fn law_fresh_writer(width: u32, height: u32, fps: u32)
    requires
        fps > 0,
        alignable(width),
        alignable(height),
    ensures
        fresh_writer(width, height, fps).wf(),
        fresh_writer(width, height, fps).width >= width,
        fresh_writer(width, height, fps).height >= height,
{
    law_alignment(width as int);
    law_alignment(height as int);
    lemma_frame_duration(fps as int);
}

/// To align twice is to align once; a multiple of 16 is aligned already.
pub proof fn law_alignment_is_idempotent(n: int)
    requires
        0 <= n,
    ensures
        aligned(aligned(n)) == aligned(n),
        n % 16 == 0 ==> aligned(n) == n,
{
}

/// Both numbers can be read back from a packed pair.
pub proof fn law_packed_numbers_can_be_read_back(high: u32, low: u32)
    ensures
        packed(high, low) / 0x1_0000_0000 == high,
        packed(high, low) % 0x1_0000_0000 == low,
        packed(high, low) <= u64::MAX,
{
}

/// Each sample starts when the one before it ends, and the first one at zero: there are
/// no gaps and no overlaps.
pub proof fn law_samples_follow_each_other(writer: MFSinkWriter, k: int)
    ensures
        writer.time_of(0) == 0,
        writer.time_of(k + 1) == writer.time_of(k) + writer.frame_duration,
{
    assert((k + 1) * writer.frame_duration == k * writer.frame_duration + writer.frame_duration)
        by (nonlinear_arith);
}

/// The samples of a second fill it, but for less than a unit per sample.
pub proof fn law_a_second_holds_fps_samples(width: u32, height: u32, fps: u32)
    requires
        fps > 0,
    ensures
        fresh_writer(width, height, fps).time_of(fps as int) <= UNITS_PER_SECOND,
        UNITS_PER_SECOND - fps < fresh_writer(width, height, fps).time_of(fps as int),
{
    lemma_frame_duration(fps as int);
    let quotient = UNITS_PER_SECOND as int / fps as int;
    vstd::arithmetic::div_mod::lemma_fundamental_div_mod(UNITS_PER_SECOND as int, fps as int);
    vstd::arithmetic::div_mod::lemma_mod_bound(UNITS_PER_SECOND as int, fps as int);
}

/// A writer after a series of attempts to write a sample.
pub open spec fn after_samples(writer: MFSinkWriter, written: Seq<bool>) -> MFSinkWriter
    decreases written.len(),
{
    if written.len() == 0 {
        writer
    } else {
        after_samples(writer, written.drop_last()).after(written.last())
    }
}

/// How many attempts were successful.
pub open spec fn successes(written: Seq<bool>) -> nat
    decreases written.len(),
{
    if written.len() == 0 {
        0
    } else {
        successes(written.drop_last()) + (if written.last() {
            1nat
        } else {
            0
        })
    }
}

/// A writer counts the samples that were written, and nothing else of it changes.
pub proof fn law_written_samples_are_counted(writer: MFSinkWriter, written: Seq<bool>)
    requires
        writer.frame_count + written.len() <= u64::MAX,
    ensures
        successes(written) <= written.len(),
        after_samples(writer, written) == (MFSinkWriter {
            frame_count: (writer.frame_count + successes(written)) as u64,
            ..writer
        }),
    decreases written.len(),
{
    if written.len() > 0 {
        law_written_samples_are_counted(writer, written.drop_last());
    }
}

/// Of the samples of a new writer, the one behind `n` written ones is shown at `n` times
/// the duration of a sample, which is a second divided by the frame rate and rounded down.
/// Written, it is counted; if it could not be written, the next one gets its time.
pub proof fn law_samples_are_timed_by_their_number(
    width: u32,
    height: u32,
    fps: u32,
    written: Seq<bool>,
)
    requires
        fps > 0,
        alignable(width),
        alignable(height),
        written.len() < u64::MAX,
    ensures
        ({
            let writer = after_samples(fresh_writer(width, height, fps), written);
            let n = successes(written);
            &&& writer.wf()
            &&& writer.frame_count == n
            &&& writer.frame_duration == 10_000_000int / fps as int
            &&& writer.time_of(writer.frame_count as int) == n * (10_000_000int / fps as int)
            &&& writer.after(true).frame_count == n + 1
            &&& writer.after(false) == writer
        }),
{
    law_fresh_writer(width, height, fps);
    lemma_frame_duration(fps as int);
    law_written_samples_are_counted(fresh_writer(width, height, fps), written);
}

/// Pictures up to 1280 by 720 pixels get 2 Mbps, those from 3840 by 2160 on 8 Mbps, and those
/// in between, such as 1920 by 1080, 5 Mbps.
pub proof fn law_bit_rates(width: u32, height: u32)
    ensures
        width * height <= 1280 * 720 ==> bitrate(width * height) == 2000000,
        1280 * 720 < width * height < 3840 * 2160 ==> bitrate(width * height) == 5000000,
        width * height >= 3840 * 2160 ==> bitrate(width * height) == 8000000,
{
}

/// A side can be aligned if there is a multiple of 16 above it in 32 bits, and a time can be
/// stored if it has 63 bits.
pub proof fn law_limits(side: u32, writer: MFSinkWriter)
    ensures
        alignable(side) <==> aligned(side as int) <= 4294967295,
        writer.is_on_time() <==> writer.frame_count * writer.frame_duration
            <= 9223372036854775807,
{
}

/// A new writer has nothing counted, and each side of its pictures is the smallest multiple
/// of 16 that takes the same side of the frames.
pub proof fn law_new_writer(width: u32, height: u32, fps: u32)
    requires
        fps > 0,
        alignable(width),
        alignable(height),
    ensures
        ({
            let writer = fresh_writer(width, height, fps);
            &&& writer.frame_count == 0
            &&& writer.width % 16 == 0 && width <= writer.width < width + 16
            &&& writer.height % 16 == 0 && height <= writer.height < height + 16
            &&& writer.frame_duration * fps <= 10000000 < (writer.frame_duration + 1) * fps
        }),
{
    law_alignment(width as int);
    law_alignment(height as int);
    lemma_frame_duration(fps as int);
    let n = 10000000int;
    let d = fps as int;
    vstd::arithmetic::div_mod::lemma_fundamental_div_mod(n, d);
    vstd::arithmetic::div_mod::lemma_mod_bound(n, d);
    let q = n / d;
    assert(q * d == d * q && (q + 1) * d == d * q + d) by (nonlinear_arith);
}

} // verus!
