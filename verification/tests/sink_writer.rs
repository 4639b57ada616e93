use win_recorder::error::RecorderError;
use win_recorder::mf_writer::{align_to_16, pack, MFSinkWriter};
use win_recorder::startup::{StartAction, StartStage, Startup};

#[test]
fn sizes_are_aligned_to_16() {
    assert_eq!(align_to_16(1080), 1088);
    assert_eq!(align_to_16(1920), 1920);
    assert_eq!(align_to_16(0), 0);
    assert_eq!(align_to_16(1), 16);
    assert_eq!(align_to_16(16), 16);
    assert_eq!(align_to_16(17), 32);
    assert_eq!(align_to_16(0xFFFF_FFF0), 0xFFFF_FFF0);
    for n in 0..200u32 {
        let aligned = align_to_16(n);
        assert!(aligned % 16 == 0 && aligned >= n && aligned < n + 16);
        assert_eq!(align_to_16(aligned), aligned);
    }
}

#[test]
fn packed_pairs_can_be_read_back() {
    let size = pack(1920, 1088);
    assert_eq!(size, (1920u64 << 32) | 1088);
    assert_eq!(((size >> 32) as u32, size as u32), (1920, 1088));
    assert_eq!(pack(u32::MAX, u32::MAX), u64::MAX);
}

#[test]
fn a_new_writer_is_aligned() {
    let writer = MFSinkWriter::new(1920, 1080, 30, false).unwrap();
    assert_eq!((writer.width(), writer.height(), writer.frame_count()), (1920, 1088, 0));
    assert_eq!(writer.frame_duration, 333_333);
    assert_eq!(writer.frame_size(), (1920u64 << 32) | 1088);
    assert_eq!(MFSinkWriter::frame_rate(30), (30u64 << 32) | 1);
}

#[test]
fn audio_is_refused() {
    assert_eq!(
        MFSinkWriter::new(1920, 1080, 30, true),
        Err(RecorderError::InvalidParam(
            "Audio encoding is not supported in this version".to_string()
        ))
    );
}

#[test]
fn samples_follow_each_other() {
    let mut writer = MFSinkWriter::new(16, 16, 25, false).unwrap();
    for k in 0..5i64 {
        assert!(writer.can_time_sample());
        let timing = writer.sample_timing();
        assert_eq!((timing.time, timing.duration), (k * 400_000, 400_000));
        assert_eq!(writer.write_sample(Ok(())), Ok(()));
    }
    assert_eq!(writer.frame_count(), 5);
}

#[test]
fn a_failed_sample_does_not_count() {
    let mut writer = MFSinkWriter::new(16, 16, 25, false).unwrap();
    let failure = RecorderError::MFError("full".to_string());
    assert_eq!(writer.write_sample(Ok(())), Ok(()));
    assert_eq!(writer.write_sample(Err(failure.clone())), Err(failure));
    assert_eq!(writer.frame_count(), 1);
    assert_eq!(writer.sample_timing().time, 400_000);
}

#[test]
fn a_second_holds_fps_samples() {
    for fps in [1u32, 7, 30, 60, 144] {
        let mut writer = MFSinkWriter::new(16, 16, fps, false).unwrap();
        writer.frame_count = fps as u64;
        let time = writer.sample_timing().time;
        assert!(time <= 10_000_000 && time > 10_000_000 - fps as i64);
    }
}

#[test]
fn times_run_out() {
    let mut writer = MFSinkWriter::new(16, 16, 1, false).unwrap();
    writer.frame_count = i64::MAX as u64 / 10_000_000;
    assert!(writer.can_time_sample());
    writer.frame_count += 1;
    assert!(!writer.can_time_sample());
}

#[test]
fn bitrates() {
    assert_eq!(MFSinkWriter::calculate_bitrate(3840, 2160, 30), 8_000_000);
    assert_eq!(MFSinkWriter::calculate_bitrate(65_535, 65_535, 100), 8_000_000);
    assert_eq!(MFSinkWriter::calculate_bitrate(1920, 1080, 30), 5_000_000);
    assert_eq!(MFSinkWriter::calculate_bitrate(1920, 1088, 10), 5_000_000);
    assert_eq!(MFSinkWriter::calculate_bitrate(3840, 2159, 30), 5_000_000);
    assert_eq!(MFSinkWriter::calculate_bitrate(1280, 721, 30), 5_000_000);
    assert_eq!(MFSinkWriter::calculate_bitrate(1280, 720, 30), 2_000_000);
    assert_eq!(MFSinkWriter::calculate_bitrate(640, 480, 60), 2_000_000);
    assert_eq!(MFSinkWriter::calculate_bitrate(0, 0, 0), 2_000_000);
}

#[test]
fn a_start_up_goes_through_all_stages() {
    let mut startup = Startup::new(1920, 1080, 30, false);
    let writer = MFSinkWriter::new(1920, 1080, 30, false).unwrap();
    assert_eq!(startup.action(), StartAction::CreateDevice { width: 1920, height: 1080 });
    assert_eq!(
        startup.advance(Ok(())),
        Ok(StartAction::CreateSinkWriter {
            frame_size: (1920u64 << 32) | 1088,
            frame_rate: (30u64 << 32) | 1,
        })
    );
    assert_eq!(
        startup.advance(Ok(())),
        Ok(StartAction::CreateTextures { width: 1920, height: 1088 })
    );
    assert_eq!(startup.advance(Ok(())), Ok(StartAction::BeginWriting));
    assert_eq!(startup.advance(Ok(())), Ok(StartAction::Record));
    assert_eq!(startup.stage, StartStage::Done(writer));
    assert_eq!(startup.advance(Ok(())), Ok(StartAction::Record));
}

#[test]
fn a_failure_stops_the_start_up_in_every_stage() {
    let failure = RecorderError::D3D11Error("lost".to_string());
    for stages in 0..5 {
        let mut startup = Startup::new(16, 16, 30, false);
        for _ in 0..stages {
            assert!(startup.advance(Ok(())).is_ok());
        }
        let before = startup;
        assert_eq!(startup.advance(Err(failure.clone())), Err(failure.clone()));
        assert_eq!(startup, before);
    }
}

#[test]
fn audio_is_refused_once_there_is_a_device() {
    let mut startup = Startup::new(16, 16, 30, true);
    let failure = RecorderError::D3D11TextureError("none".to_string());
    assert_eq!(startup.advance(Err(failure.clone())), Err(failure));
    assert_eq!(
        startup.advance(Ok(())),
        Err(RecorderError::InvalidParam(
            "Audio encoding is not supported in this version".to_string()
        ))
    );
    assert_eq!(startup.stage, StartStage::Device);
}
