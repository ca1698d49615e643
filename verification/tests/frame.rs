use byteorder::{BigEndian, ByteOrder};
use iosmic::frame::{parse_frame, parse_header, Frame, FrameError, FrameHeader, NO_PTS};
use iosmic::session::{initial_config_step, ConfigStep, ReadError};

fn header(pts: u64, len: u32) -> [u8; 12] {
    let mut output = [0u8; 12];
    BigEndian::write_u64(&mut output[..8], pts);
    BigEndian::write_u32(&mut output[8..12], len);
    output
}

#[test]
fn config_frame_does_not_consume_following_audio_frame() {
    let mut bytes = Vec::new();
    bytes.extend_from_slice(&header(NO_PTS, 2));
    bytes.extend_from_slice(&[0x12, 0x10]);
    bytes.extend_from_slice(&header(7, 3));
    bytes.extend_from_slice(&[1, 2, 3]);

    let (config, end) = parse_frame(&bytes).unwrap();
    let (audio, rest) = parse_frame(&bytes[end..]).unwrap();
    assert_eq!(config, Frame::Config(vec![0x12, 0x10]));
    assert_eq!(audio, Frame::Audio { pts: 7, data: vec![1, 2, 3] });
    assert_eq!(end + rest, bytes.len());
}

#[test]
fn stop_sentinel_is_preserved() {
    let error = parse_frame(&header(NO_PTS, u32::MAX)).unwrap_err();
    assert!(error.message().contains("stop/error"));
    assert_eq!(error, FrameError::Stopped);
}

#[test]
fn initial_config_times_out() {
    match initial_config_step(Err(ReadError::Idle)) {
        ConfigStep::Fail(error) => assert!(error.message().contains("no config received")),
        other => panic!("{other:?}"),
    }
}

#[test]
fn headers_announce_what_follows() {
    let header_of = |pts, len| parse_header(&header(pts, len));
    assert_eq!(header_of(NO_PTS, 1024), Ok(FrameHeader::Config { length: 1024 }));
    assert_eq!(
        header_of(0x0102_0304_0506_0708, 1 << 20),
        Ok(FrameHeader::Audio { pts: 0x0102_0304_0506_0708, length: 1 << 20 })
    );
    assert_eq!(header_of(0, 9).unwrap().payload_length(), 9);
    assert_eq!(header_of(NO_PTS, 9).unwrap().payload_length(), 9);
}

#[test]
fn payloads_of_a_wrong_size_are_refused() {
    for length in [0, 1025, u32::MAX - 1] {
        let error = parse_header(&header(NO_PTS, length)).unwrap_err();
        assert_eq!(error, FrameError::ConfigSize(length));
        assert_eq!(error.message(), format!("config packet size invalid: {length}"));
    }
    for length in [0, (1 << 20) + 1, u32::MAX] {
        let error = parse_header(&header(7, length)).unwrap_err();
        assert_eq!(error, FrameError::AudioSize(length));
        assert_eq!(error.message(), format!("data packet size invalid: {length}"));
    }
}

#[test]
fn cut_off_frames_are_told_apart() {
    let mut bytes = header(7, 3).to_vec();
    bytes.extend_from_slice(&[1, 2, 3]);
    for end in 0..bytes.len() {
        let error = parse_frame(&bytes[..end]).unwrap_err();
        assert_eq!(error, FrameError::Truncated);
        assert_eq!(error.message(), "unexpected end of stream");
    }
    assert!(parse_frame(&bytes).is_ok());
}

#[test]
fn a_header_and_its_payload_make_a_frame() {
    let bytes = [9, 8, 7];
    match (FrameHeader::Config { length: 3 }).frame(bytes.to_vec()) {
        Frame::Config(config) => assert_eq!(config, bytes),
        other => panic!("{other:?}"),
    }
    match (FrameHeader::Audio { pts: 5, length: 3 }).frame(bytes.to_vec()) {
        Frame::Audio { pts, data } => assert_eq!((pts, data), (5, bytes.to_vec())),
        other => panic!("{other:?}"),
    }
}
