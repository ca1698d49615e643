use iosmic::decode::{AacConfigError, DecodeError};
use iosmic::error::{ConfigurationError, SessionError};
use iosmic::frame::{Frame, FrameError};
use iosmic::renderer::RendererEvent;
use iosmic::session::{
    accept_decoded, after_session, downmix_mono, first_audio_step, generation_step,
    initial_config_step, mono_packet, new_decoder, set_up_failure, unsupported_config, AfterSession, ConfigStep,
    DecodedFormat, FrameStep, GenerationInput, ReadError,
};
use iosmic::sink::{MissingPulsePlugin, OpenError};
use iosmic::time::Duration;

fn average(frame: &[f32]) -> f32 {
    frame.iter().sum::<f32>() / frame.len() as f32
}

fn fail_text(step: FrameStep) -> String {
    match step {
        FrameStep::Fail(error) => error.message().to_owned(),
        other => panic!("{other:?}"),
    }
}

#[test]
fn downmix_mono_passthrough_for_single_channel() {
    let input = [0.1, 0.2, 0.3];
    assert_eq!(downmix_mono(&input, 1, &average), input);
}

#[test]
fn downmix_mono_averages_stereo_frames() {
    let input = [1.0, 0.0, 0.0, 1.0];
    assert_eq!(downmix_mono(&input, 2, &average), vec![0.5, 0.5]);
}

#[test]
fn a_frame_that_is_not_complete_is_left_out() {
    let input = [1.0, 0.0, 0.5, 0.5, 7.0];
    assert_eq!(downmix_mono(&input, 2, &average), vec![0.5, 0.5]);
    assert_eq!(downmix_mono(&input[..1], 2, &average), Vec::<f32>::new());
}

#[test]
fn packets_have_the_length_that_the_decoder_says() {
    let input = [1.0, 0.0, 0.0, 1.0];
    assert_eq!(mono_packet(&input, 2, 2, &average).unwrap(), vec![0.5, 0.5]);
    let error = mono_packet(&input, 2, 3, &average).unwrap_err();
    assert_eq!(
        error.message(),
        "decoded frame/channel accounting mismatch: 2 mono frames, expected 3"
    );
    assert!(error.is_retryable());
}

#[test]
fn audio_before_the_first_configuration_is_ignored() {
    let audio = Frame::Audio { pts: 1, data: vec![1] };
    assert!(matches!(initial_config_step(Ok(audio)), ConfigStep::Wait));
    match initial_config_step(Ok(Frame::Config(vec![9, 8]))) {
        ConfigStep::Use(config) => assert_eq!(config, vec![9, 8]),
        other => panic!("{other:?}"),
    }
    match initial_config_step(Err(ReadError::Ended("failed to read header".to_owned()))) {
        ConfigStep::Fail(error) => assert_eq!(error.message(), "failed to read header"),
        other => panic!("{other:?}"),
    }
}

#[test]
fn a_repeated_configuration_is_no_change() {
    let config = vec![0x12, 0x10];
    for step in [
        first_audio_step(Ok(Frame::Config(config.clone())), &config),
        generation_step(GenerationInput::Stream(Ok(Frame::Config(config.clone()))), &config),
    ] {
        assert!(matches!(step, FrameStep::Repeated { bytes: 2 }));
    }
    for changed in [vec![0x12, 0x11], vec![0x12], vec![0x12, 0x10, 0]] {
        match generation_step(
            GenerationInput::Stream(Ok(Frame::Config(changed.clone()))),
            &config,
        ) {
            FrameStep::Changed(bytes) => assert_eq!(bytes, changed),
            other => panic!("{other:?}"),
        }
    }
}

#[test]
fn audio_is_decoded() {
    let audio = || Frame::Audio { pts: 7, data: vec![1, 2, 3] };
    for step in [
        first_audio_step(Ok(audio()), &vec![1]),
        generation_step(GenerationInput::Stream(Ok(audio())), &vec![1]),
    ] {
        match step {
            FrameStep::Decode { pts, data } => assert_eq!((pts, data), (7, vec![1, 2, 3])),
            other => panic!("{other:?}"),
        }
    }
}

#[test]
fn every_end_of_a_session_has_its_words() {
    let config = vec![1];
    assert_eq!(
        fail_text(first_audio_step(Err(ReadError::Idle), &config)),
        "no audio received within 5s"
    );
    let stream = |error| fail_text(generation_step(GenerationInput::Stream(Err(error)), &config));
    assert_eq!(stream(ReadError::Idle), "no data received for 5s");
    assert_eq!(stream(ReadError::Ended("failed to read header".to_owned())), "audio transport ended");
    assert_eq!(stream(ReadError::Failed("reset".to_owned())), "reset");
    assert_eq!(stream(ReadError::Frame(FrameError::Stopped)), "stop/error from app side");
    let renderer = |event| fail_text(generation_step(GenerationInput::Renderer(event), &config));
    assert_eq!(
        renderer(Some(RendererEvent::Starvation)),
        "continuous decoded-audio starvation reached the reconnect threshold"
    );
    assert_eq!(renderer(None), "playback thread stopped unexpectedly");
    let terminal = RendererEvent::Terminal(SessionError::MissingPulsePlugin(MissingPulsePlugin));
    assert_eq!(renderer(Some(terminal)), MissingPulsePlugin.message());
}

#[test]
fn a_format_must_not_change_on_its_own() {
    let generation = DecodedFormat { sample_rate: 48_000, channels: 2, frames: 1024 };
    let longer = DecodedFormat { frames: 2048, ..generation };
    let empty = DecodedFormat { sample_rate: 1, channels: 9, frames: 0 };
    assert!(accept_decoded(generation, longer).unwrap());
    assert!(!accept_decoded(generation, empty).unwrap());
    let mono = DecodedFormat { channels: 1, ..generation };
    assert_eq!(
        accept_decoded(generation, mono).unwrap_err().message(),
        format!("decoded format changed without a codec config marker: {generation:?} -> {mono:?}")
    );
    let slower = DecodedFormat { sample_rate: 44_100, ..generation };
    assert!(accept_decoded(generation, slower).is_err());
}

#[test]
fn a_configuration_without_a_decoder_is_final() {
    let error = new_decoder(&[0x12]).err().unwrap();
    assert_eq!(error.message(), "unsupported AAC configuration: AAC config too short");
    // Object type 1 is not one that the codec knows.
    let error = new_decoder(&[0x0a, 0x10]).err().unwrap();
    assert_eq!(
        error.message(),
        "unsupported AAC configuration: Failed to create AAC decoder: unsupported feature: aac: aac too complex"
    );
    assert_eq!(
        unsupported_config(&DecodeError::Config(AacConfigError::NoChannels)).message(),
        "unsupported AAC configuration: Unsupported AAC channel configuration: 0"
    );
    assert_eq!(
        set_up_failure(&DecodeError::Config(AacConfigError::NoChannels)),
        "Unsupported AAC channel configuration: 0"
    );
    assert_eq!(new_decoder(&[0x12, 0x10]).ok().unwrap().sample_rate(), 44_100);
}

#[test]
fn only_lost_sessions_are_followed_by_another() {
    assert!(matches!(after_session(Ok(()), 3), AfterSession::Stop));
    let fault = SessionError::Configuration(ConfigurationError::new("no"));
    assert!(matches!(
        after_session(Err(fault), 3),
        AfterSession::Fail(SessionError::Configuration(_))
    ));
    let missing = SessionError::MissingPulsePlugin(MissingPulsePlugin);
    assert!(matches!(
        after_session(Err(missing), 3),
        AfterSession::Fail(SessionError::MissingPulsePlugin(_))
    ));
    match after_session(Err(SessionError::lost("gone")), 3) {
        AfterSession::Reconnect { attempt, wait, reason } => {
            assert_eq!(attempt, 4);
            assert_eq!(wait, Duration::from_secs(1));
            assert_eq!(reason.message(), "gone");
        }
        other => panic!("{other:?}"),
    }
}

#[test]
fn a_device_error_keeps_its_kind() {
    let fault = OpenError::Configuration(ConfigurationError::new("odd"));
    assert_eq!(SessionError::from_open(fault).message(), "odd");
    let away = SessionError::from_open(OpenError::Unavailable("away".to_owned()));
    assert!(away.is_retryable());
    assert_eq!(away.message(), "away");
    let missing = SessionError::from_open(OpenError::MissingPulsePlugin(MissingPulsePlugin));
    assert!(!missing.is_retryable());
}
