use win_recorder::d3d11::DesktopRect;
use win_recorder::error::RecorderError;
use win_recorder::memory_byte_stream::{extract_nal_units, get_nal_type};
use win_recorder::startup::StartAction;
use win_recorder::streaming_encoder::StreamingEncoder;

const SPS: [u8; 13] =
    [0x00, 0x00, 0x00, 0x01, 0x67, 0x42, 0x00, 0x1e, 0x00, 0x80, 0x05, 0x65, 0x94];
const PPS: [u8; 8] = [0x00, 0x00, 0x00, 0x01, 0x68, 0x00, 0xf8, 0x00];

fn outputs() -> Vec<DesktopRect> {
    vec![DesktopRect { left: 0, top: 0, right: 16, bottom: 9 }]
}

fn encoder() -> StreamingEncoder {
    StreamingEncoder::new(10, 2_000_000, 1, &outputs()).unwrap()
}

fn start(encoder: &mut StreamingEncoder) {
    let mut startup = encoder.start().unwrap();
    for _ in 0..3 {
        assert!(encoder.start_next(&mut startup, Ok(())).is_ok());
        assert!(!encoder.is_encoding());
    }
    assert_eq!(encoder.start_next(&mut startup, Ok(())), Ok(StartAction::Record));
}

fn running() -> (StreamingEncoder, Vec<u8>) {
    let mut encoder = encoder();
    start(&mut encoder);
    (encoder, vec![0u8; 16 * 16 * 4])
}

#[test]
fn a_new_encoder_is_idle() {
    let encoder = encoder();
    assert_eq!((encoder.width(), encoder.height()), (16, 9));
    assert_eq!((encoder.fps(), encoder.bitrate, encoder.monitor()), (10, 2_000_000, 1));
    assert!(!encoder.is_encoding());
    assert!(encoder.info().sps.is_empty() && encoder.info().pps.is_empty());
}

#[test]
fn an_encoder_needs_its_monitor() {
    assert_eq!(
        StreamingEncoder::new(10, 1, 2, &outputs()).unwrap_err(),
        RecorderError::MonitorNotFound { monitor: 2 }
    );
    assert_eq!(
        StreamingEncoder::new(10, 1, 0, &outputs()).unwrap_err(),
        RecorderError::InvalidParam("monitor must be 1 or 2".to_string())
    );
}

#[test]
fn starting_announces_the_stream() {
    let (encoder, _) = running();
    let info = encoder.info();
    assert_eq!((info.width, info.height, info.fps), (16, 16, 10));
    assert_eq!(info.sps, SPS.to_vec());
    assert_eq!(info.pps, PPS.to_vec());
    assert_eq!(get_nal_type(&info.sps), Some(7));
    assert_eq!(get_nal_type(&info.pps), Some(8));
    assert_eq!(encoder.start(), Err(RecorderError::AlreadyRecording));
}

#[test]
fn a_failed_start_leaves_the_encoder_idle() {
    let mut encoder = encoder();
    let failure = RecorderError::D3D11Error("device".to_string());
    let mut startup = encoder.start().unwrap();
    assert_eq!(encoder.start_next(&mut startup, Err(failure.clone())), Err(failure));
    assert!(!encoder.is_encoding());
    assert_eq!(encoder.height(), 9);
}

#[test]
fn units_are_tagged_by_kind() {
    let units = vec![vec![0x67, 1], vec![0x68, 2], vec![0x65, 3], vec![0x41, 4], vec![0x06, 5]];
    assert_eq!(
        encoder().encode_with_prefix(units),
        vec![
            1, 0, 0, 0, 1, 0x67, 1, 1, 0, 0, 0, 1, 0x68, 2, 2, 0, 0, 0, 1, 0x65, 3, 3, 0, 0, 0, 1,
            0x41, 4, 3, 0, 0, 0, 1, 0x06, 5
        ]
    );
}

#[test]
fn units_without_a_type_are_left_out() {
    let units = vec![vec![], vec![0, 0], vec![0x65], vec![0, 1]];
    assert_eq!(encoder().encode_with_prefix(units), vec![2, 0, 0, 0, 1, 0x65]);
    assert!(encoder().encode_with_prefix(vec![]).is_empty());
}

#[test]
fn a_tagged_unit_can_be_read_back() {
    let unit = vec![0x65, 0, 0, 3, 0];
    let tagged = encoder().encode_with_prefix(vec![unit.clone()]);
    assert_eq!(tagged[0], 2);
    assert_eq!(extract_nal_units(&tagged[1..]), vec![unit]);
}

#[test]
fn new_units_are_handed_out_once_and_in_order() {
    let (mut encoder, frame) = running();
    let mut stream = vec![0, 0, 0, 1, 0x67, 9, 0, 0, 0, 1, 0x65, 8];
    assert_eq!(
        encoder.encode_frame(&frame, Ok(()), &stream),
        Ok(Some(vec![1, 0, 0, 0, 1, 0x67, 9, 2, 0, 0, 0, 1, 0x65, 8]))
    );
    assert_eq!(encoder.encode_frame(&frame, Ok(()), &stream), Ok(None));
    stream.extend_from_slice(&[0, 0, 0, 1, 0x41, 7]);
    assert_eq!(
        encoder.encode_frame(&frame, Ok(()), &stream),
        Ok(Some(vec![3, 0, 0, 0, 1, 0x41, 7]))
    );
    assert_eq!(encoder.last_read_position, 18);
    assert_eq!(encoder.frame_count, 3);
}

#[test]
fn an_incomplete_unit_waits_for_the_rest() {
    let (mut encoder, frame) = running();
    assert_eq!(encoder.encode_frame(&frame, Ok(()), &[0, 0, 0, 3, 0x65]), Ok(None));
    assert_eq!(encoder.last_read_position, 0);
    assert_eq!(
        encoder.encode_frame(&frame, Ok(()), &[0, 0, 0, 3, 0x65, 1, 2]),
        Ok(Some(vec![2, 0, 0, 0, 1, 0x65, 1, 2]))
    );
    assert_eq!(encoder.last_read_position, 7);
}

#[test]
fn untyped_units_are_handed_out_as_nothing() {
    let (mut encoder, frame) = running();
    assert_eq!(encoder.encode_frame(&frame, Ok(()), &[0, 0, 0, 1, 0]), Ok(Some(vec![])));
}

#[test]
fn frames_to_encode_are_timed() {
    let (mut encoder, frame) = running();
    assert_eq!(encoder.prepare_frame(&frame).unwrap().time, 0);
    assert_eq!(encoder.encode_frame(&frame, Ok(()), &[]), Ok(None));
    let timing = encoder.prepare_frame(&frame).unwrap();
    assert_eq!((timing.time, timing.duration), (1_000_000, 1_000_000));
}

#[test]
fn a_failed_frame_changes_nothing() {
    let (mut encoder, frame) = running();
    let failure = RecorderError::MFError("WriteSample".to_string());
    assert_eq!(
        encoder.encode_frame(&frame, Err(failure.clone()), &[0, 0, 0, 1, 0x65]),
        Err(failure)
    );
    assert_eq!((encoder.frame_count, encoder.last_read_position), (0, 0));
}

#[test]
fn frames_of_another_size_are_not_encoded() {
    let (mut encoder, _) = running();
    let mismatch = RecorderError::FrameSizeMismatch { expected: 1024, actual: 3 };
    assert_eq!(encoder.prepare_frame(&[0; 3]), Err(mismatch.clone()));
    assert_eq!(encoder.encode_frame(&[0; 3], Ok(()), &[]), Err(mismatch));
    assert_eq!(encoder.frame_count, 0);
}

#[test]
fn an_idle_encoder_encodes_nothing() {
    let mut encoder = encoder();
    assert_eq!(encoder.prepare_frame(&[]), Err(RecorderError::NotRecording));
    assert_eq!(encoder.encode_frame(&[], Ok(()), &[]), Err(RecorderError::NotRecording));
    assert_eq!(encoder.stop(Ok(())), Ok(()));
}

#[test]
fn a_restart_begins_anew() {
    let (mut encoder, frame) = running();
    assert!(encoder.encode_frame(&frame, Ok(()), &[0, 0, 0, 1, 0x65]).unwrap().is_some());
    let failure = RecorderError::MFError("Finalize".to_string());
    assert_eq!(encoder.stop(Err(failure.clone())), Err(failure));
    assert!(encoder.is_encoding());
    assert_eq!(encoder.stop(Ok(())), Ok(()));
    assert!(!encoder.is_encoding());
    assert_eq!(encoder.frame_count, 1);
    start(&mut encoder);
    assert_eq!((encoder.frame_count, encoder.last_read_position), (0, 0));
    assert_eq!((encoder.width(), encoder.height()), (16, 16));
}

#[test]
fn a_long_stream_is_handed_out_in_order() {
    let (mut encoder, frame) = running();
    let batches: Vec<Vec<Vec<u8>>> = vec![
        vec![],
        vec![vec![0x67, 1], vec![0x68, 2]],
        vec![vec![0x65, 3, 0, 0, 1]],
        vec![],
        vec![vec![0x41, 4]],
        vec![vec![0x41, 5], vec![0x06, 6], vec![0x41, 7]],
    ];
    let mut stream = Vec::new();
    let mut handed_out = Vec::new();
    for batch in &batches {
        for unit in batch {
            stream.extend_from_slice(&[0, 0, 0, 1]);
            stream.extend_from_slice(unit);
        }
        let new = encoder.encode_frame(&frame, Ok(()), &stream).unwrap();
        assert_eq!(new.is_some(), !batch.is_empty());
        handed_out.extend(new.unwrap_or_default());
    }
    let all: Vec<Vec<u8>> = batches.into_iter().flatten().collect();
    assert_eq!(handed_out, encoder.encode_with_prefix(all));
}
