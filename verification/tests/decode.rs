use iosmic::decode::{parse_aac_config, AacConfigError, AacStreamDecoder, DecodeError};

fn audio_specific_config(object_type: u8, sample_rate_idx: u8, channels: u8) -> [u8; 2] {
    [
        (object_type << 3) | (sample_rate_idx >> 1),
        ((sample_rate_idx & 1) << 7) | (channels << 3),
    ]
}

#[test]
fn parses_sample_rate_independent_of_object_type_low_bit() {
    let config = audio_specific_config(3, 4, 2);

    let (sample_rate, channels) = parse_aac_config(&config).unwrap();

    assert_eq!(sample_rate, 44100);
    assert_eq!(channels, 2);
}

#[test]
fn rejects_channel_config_zero() {
    let config = audio_specific_config(2, 4, 0);

    let err = parse_aac_config(&config).unwrap_err();

    assert!(err.message().contains("channel configuration"), "{err:?}");
}

#[test]
fn every_sample_rate_index_is_read() {
    let rates = [
        96000, 88200, 64000, 48000, 44100, 32000, 24000, 22050, 16000, 12000, 11025, 8000,
    ];
    for (index, rate) in rates.iter().enumerate() {
        for object_type in 0..32 {
            let config = audio_specific_config(object_type, index as u8, 1);
            assert_eq!(parse_aac_config(&config), Ok((*rate, 1)));
        }
    }
    for index in 12..16 {
        let error = parse_aac_config(&audio_specific_config(2, index, 1)).unwrap_err();
        assert_eq!(error, AacConfigError::SampleRateIndex(index as usize));
        assert_eq!(error.message(), format!("Invalid AAC sample rate index: {index}"));
    }
}

#[test]
fn a_short_config_is_refused_before_the_codec_sees_it() {
    assert_eq!(parse_aac_config(&[0x12]), Err(AacConfigError::TooShort));
    assert_eq!(AacConfigError::TooShort.message(), "AAC config too short");
    assert!(matches!(
        AacStreamDecoder::new(&[]),
        Err(DecodeError::Config(AacConfigError::TooShort))
    ));
}

#[test]
fn the_codec_accepts_low_complexity_stereo() {
    let decoder = match AacStreamDecoder::new(&audio_specific_config(2, 4, 2)) {
        Ok(decoder) => decoder,
        Err(error) => panic!("{error:?}"),
    };
    assert_eq!(decoder.sample_rate(), 44100);
    assert_eq!(decoder.channels(), 2);
}

#[test]
fn the_codec_refuses_an_object_type_it_does_not_know() {
    assert!(matches!(
        AacStreamDecoder::new(&audio_specific_config(1, 4, 2)),
        Err(DecodeError::Codec(_))
    ));
}
