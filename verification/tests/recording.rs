use win_recorder::d3d11::DesktopRect;
use win_recorder::error::RecorderError;
use win_recorder::recorder::WinRecorder;
use win_recorder::startup::StartAction;

fn outputs() -> Vec<DesktopRect> {
    vec![
        DesktopRect { left: 0, top: 0, right: 20, bottom: 15 },
        DesktopRect { left: 20, top: 0, right: 52, bottom: 16 },
    ]
}

fn recorder() -> WinRecorder {
    WinRecorder::new("out.mp4".to_string(), 20, false, 1, &outputs()).unwrap()
}

fn start(recorder: &mut WinRecorder) {
    let mut startup = recorder.start().unwrap();
    for _ in 0..3 {
        assert!(recorder.start_next(&mut startup, Ok(())).is_ok());
        assert!(!recorder.is_recording());
    }
    assert_eq!(recorder.start_next(&mut startup, Ok(())), Ok(StartAction::Record));
}

#[test]
fn a_new_recorder_has_the_monitors_size() {
    let recorder = recorder();
    assert_eq!((recorder.width(), recorder.height(), recorder.fps()), (20, 15, 20));
    assert!(!recorder.is_recording());
    assert_eq!(recorder.output_path, "out.mp4");
}

#[test]
fn a_recorder_needs_its_monitor() {
    let missing = WinRecorder::new("a".to_string(), 20, false, 2, &vec![outputs()[0]]);
    assert_eq!(missing.unwrap_err(), RecorderError::MonitorNotFound { monitor: 2 });
    let invalid = WinRecorder::new("a".to_string(), 20, false, 5, &outputs());
    assert_eq!(
        invalid.unwrap_err(),
        RecorderError::InvalidParam("monitor must be 1 or 2".to_string())
    );
}

#[test]
fn a_started_recorder_has_an_aligned_size() {
    let mut recorder = recorder();
    start(&mut recorder);
    assert!(recorder.is_recording());
    assert_eq!((recorder.width(), recorder.height()), (32, 16));
    assert_eq!(recorder.frame_count(), Ok(0));
}

#[test]
fn a_running_recorder_cannot_be_started() {
    let mut recorder = recorder();
    start(&mut recorder);
    assert_eq!(recorder.start(), Err(RecorderError::AlreadyRecording));
}

#[test]
fn a_failed_start_leaves_the_recorder_idle() {
    let mut recorder = recorder();
    let failure = RecorderError::MFError("BeginWriting".to_string());
    let mut startup = recorder.start().unwrap();
    for _ in 0..3 {
        assert!(recorder.start_next(&mut startup, Ok(())).is_ok());
    }
    assert_eq!(recorder.start_next(&mut startup, Err(failure.clone())), Err(failure));
    assert!(!recorder.is_recording());
    assert_eq!((recorder.width(), recorder.height()), (20, 15));
}

#[test]
fn a_recorder_with_audio_does_not_start() {
    let mut recorder = WinRecorder::new("a".to_string(), 20, true, 1, &outputs()).unwrap();
    let mut startup = recorder.start().unwrap();
    assert_eq!(
        recorder.start_next(&mut startup, Ok(())),
        Err(RecorderError::InvalidParam(
            "Audio encoding is not supported in this version".to_string()
        ))
    );
    assert!(!recorder.is_recording());
}

#[test]
fn frames_are_timed_and_counted() {
    let mut recorder = recorder();
    start(&mut recorder);
    let frame = vec![0u8; 32 * 16 * 4];
    for k in 0..3i64 {
        let timing = recorder.prepare_frame(&frame).unwrap();
        assert_eq!((timing.time, timing.duration), (k * 500_000, 500_000));
        assert_eq!(recorder.write_frame(&frame, Ok(())), Ok(()));
    }
    let failure = RecorderError::D3D11TextureError("Map".to_string());
    assert_eq!(recorder.write_frame(&frame, Err(failure.clone())), Err(failure));
    assert_eq!(recorder.frame_count(), Ok(3));
    assert_eq!(recorder.prepare_frame(&frame).unwrap().time, 1_500_000);
}

#[test]
fn frames_of_the_monitors_size_are_refused_when_it_was_aligned() {
    let mut recorder = recorder();
    start(&mut recorder);
    let mismatch = RecorderError::FrameSizeMismatch { expected: 2048, actual: 1200 };
    let frame = vec![0u8; 20 * 15 * 4];
    assert_eq!(recorder.prepare_frame(&frame), Err(mismatch.clone()));
    assert_eq!(recorder.write_frame(&frame, Ok(())), Err(mismatch));
    assert_eq!(recorder.frame_count(), Ok(0));
}

#[test]
fn an_idle_recorder_records_nothing() {
    let mut recorder = recorder();
    assert_eq!(recorder.prepare_frame(&[]), Err(RecorderError::NotRecording));
    assert_eq!(recorder.write_frame(&[], Ok(())), Err(RecorderError::NotRecording));
    assert_eq!(recorder.stop(Ok(())), Err(RecorderError::NotRecording));
    assert_eq!(recorder.frame_count(), Err(RecorderError::NotRecording));
}

#[test]
fn a_stopped_recorder_keeps_its_size() {
    let mut recorder = recorder();
    start(&mut recorder);
    assert_eq!(recorder.write_frame(&vec![0u8; 2048], Ok(())), Ok(()));
    assert_eq!(recorder.stop(Ok(())), Ok(()));
    assert!(!recorder.is_recording());
    assert_eq!((recorder.width(), recorder.height()), (32, 16));
    assert_eq!(recorder.frame_count(), Err(RecorderError::NotRecording));
    start(&mut recorder);
    assert_eq!((recorder.width(), recorder.height()), (32, 16));
    assert_eq!(recorder.frame_count(), Ok(0));
}

#[test]
fn a_recording_that_cannot_be_finished_still_runs() {
    let mut recorder = recorder();
    start(&mut recorder);
    let failure = RecorderError::MFError("Finalize".to_string());
    assert_eq!(recorder.stop(Err(failure.clone())), Err(failure));
    assert!(recorder.is_recording());
    assert_eq!(recorder.stop(Ok(())), Ok(()));
}

#[test]
fn the_count_follows_the_last_start() {
    let mut recorder = recorder();
    let frame = vec![0u8; 2048];
    let failure = RecorderError::MFError("WriteSample".to_string());
    assert!(recorder.write_frame(&frame, Ok(())).is_err());
    start(&mut recorder);
    assert!(recorder.write_frame(&frame, Ok(())).is_ok());
    assert!(recorder.write_frame(&frame, Err(failure.clone())).is_err());
    assert!(recorder.write_frame(&frame[1..], Ok(())).is_err());
    assert!(recorder.write_frame(&frame, Ok(())).is_ok());
    assert!(recorder.start().is_err());
    assert!(recorder.stop(Err(failure)).is_err());
    assert_eq!(recorder.frame_count(), Ok(2));
    assert_eq!(recorder.prepare_frame(&frame).unwrap().time, 2 * 500_000);
    assert!(recorder.stop(Ok(())).is_ok());
    assert_eq!(recorder.frame_count(), Err(RecorderError::NotRecording));
    start(&mut recorder);
    assert_eq!(recorder.frame_count(), Ok(0));
    assert!(recorder.write_frame(&frame, Ok(())).is_ok());
    assert_eq!(recorder.frame_count(), Ok(1));
}
