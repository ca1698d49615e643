//! The AAC decoder's configuration and set-up.

use vstd::prelude::*;

use crate::text::{decimal, decimals_are_read_back, push_decimal, read_decimal};

verus! {

/// Why an AAC configuration cannot be used.
#[derive(Clone, Copy, Debug, PartialEq, Eq, Structural)]
pub enum AacConfigError {
    TooShort,
    SampleRateIndex(usize),
    NoChannels,
}

/// The sample rates that a configuration can name by index.
pub open spec fn aac_frequencies() -> Seq<u32> {
    seq![96000, 88200, 64000, 48000, 44100, 32000, 24000, 22050, 16000, 12000, 11025, 8000]
}

/// The index of the sample rate: the four bits behind the five of the object type.
pub open spec fn sample_rate_index(header: Seq<u8>) -> nat {
    ((header[0] % 8) * 2 + header[1] / 128) as nat
}

/// The channel count: the four bits behind the sample rate index.
pub open spec fn channel_count(header: Seq<u8>) -> nat {
    (header[1] / 8 % 16) as nat
}

/// What the first two bytes of a configuration say: the sample rate and the channel count.
pub open spec fn aac_config(header: Seq<u8>) -> Result<(u32, usize), AacConfigError> {
    if header.len() < 2 {
        Err(AacConfigError::TooShort)
    } else if sample_rate_index(header) >= aac_frequencies().len() {
        Err(AacConfigError::SampleRateIndex(sample_rate_index(header) as usize))
    } else if channel_count(header) == 0 {
        Err(AacConfigError::NoChannels)
    } else {
        Ok((aac_frequencies()[sample_rate_index(header) as int], channel_count(header) as usize))
    }
}

impl AacConfigError {
    pub open spec fn text(self) -> Seq<char> {
        match self {
            AacConfigError::TooShort => "AAC config too short"@,
            AacConfigError::SampleRateIndex(index) => "Invalid AAC sample rate index: "@ + decimal(
                index as nat,
            ),
            AacConfigError::NoChannels => "Unsupported AAC channel configuration: 0"@,
        }
    }

    pub fn message(&self) -> (message: String)
        ensures
            message@ == self.text(),
    {
        match self {
            AacConfigError::TooShort => "AAC config too short".to_owned(),
            AacConfigError::SampleRateIndex(index) => {
                let mut text: String = "Invalid AAC sample rate index: ".to_owned();
                push_decimal(&mut text, *index as u128);
                text
            },
            AacConfigError::NoChannels => "Unsupported AAC channel configuration: 0".to_owned(),
        }
    }
}

/// Reads the sample rate and the channel count from an AAC configuration.
pub fn parse_aac_config(header: &[u8]) -> (config: Result<(u32, usize), AacConfigError>)
    ensures
        config == aac_config(header@),
{
    if header.len() < 2 {
        return Err(AacConfigError::TooShort);
    }
    let first: u8 = header[0];
    let second: u8 = header[1];
    let index: u16 = (((first & 0x07) as u16) << 1) | ((second as u16) >> 7);
    let channels: u8 = (second >> 3) & 0xF;
    assert(index == (first % 8) * 2 + second / 128) by (bit_vector)
        requires
            index == (((first & 0x07) as u16) << 1) | ((second as u16) >> 7),
    ;
    assert(channels == second / 8 % 16) by (bit_vector)
        requires
            channels == (second >> 3) & 0xF,
    ;
    let frequencies: [u32; 12] = [
        96000,
        88200,
        64000,
        48000,
        44100,
        32000,
        24000,
        22050,
        16000,
        12000,
        11025,
        8000,
    ];
    assert(frequencies@ =~= aac_frequencies());
    let index: usize = index as usize;
    if index >= frequencies.len() {
        return Err(AacConfigError::SampleRateIndex(index));
    }
    if channels == 0 {
        return Err(AacConfigError::NoChannels);
    }
    Ok((frequencies[index], channels as usize))
}

/// Every sample rate that a configuration can name lies between 8000 and 96000.
pub proof fn sample_rates_are_bounded(header: Seq<u8>)
    ensures
        aac_config(header) matches Ok((rate, channels)) ==> 8000 <= rate <= 96000 && 1 <= channels
            <= 15,
{
    if header.len() >= 2 {
        let index = sample_rate_index(header);
        if index < aac_frequencies().len() {
            let rate = aac_frequencies()[index as int];
            assert(8000 <= rate <= 96000);
        }
    }
}

/// The object type, in the five bits before the sample rate index, does not matter.
pub proof fn object_type_does_not_matter(header: Seq<u8>, object_type: u8)
    requires
        header.len() >= 2,
        object_type < 32,
    ensures
        aac_config(header.update(0, (object_type * 8 + header[0] % 8) as u8)) == aac_config(header),
{
    assert((object_type * 8 + header[0] % 8) % 8 == header[0] % 8);
}

/// A configuration says what was written into it: five bits of object type, four bits of sample rate
/// index and four bits of channel count, the most significant bit first. Whatever the object type and
/// the bits that follow, the index names a rate of the table, in which three rates are halved over and
/// over, or is refused, and the count is the number of channels, or is refused where it is zero.
pub proof fn configurations_say_what_was_written(
    object_type: u8,
    index: u8,
    channels: u8,
    low: u8,
    rest: Seq<u8>,
)
    requires
        object_type < 32,
        index < 16,
        channels < 16,
        low < 8,
    ensures
        ({
            let first = (object_type * 8 + index / 2) as u8;
            let second = ((index % 2) * 128 + channels * 8 + low) as u8;
            let said = aac_config(seq![first, second] + rest);
            &&& index >= 12 ==> said == Err::<(u32, usize), _>(
                AacConfigError::SampleRateIndex(index as usize),
            )
            &&& index < 12 && channels == 0 ==> said == Err::<(u32, usize), _>(
                AacConfigError::NoChannels,
            )
            &&& index < 12 && channels > 0 ==> said is Ok && said->Ok_0.1 == channels
                && said->Ok_0.0 * (if index / 3 == 0 {
                1int
            } else if index / 3 == 1 {
                2
            } else if index / 3 == 2 {
                4
            } else {
                8
            }) == if index % 3 == 0 {
                96000int
            } else if index % 3 == 1 {
                88200
            } else {
                64000
            }
        }),
{
    let first = (object_type * 8 + index / 2) as u8;
    let second = ((index % 2) * 128 + channels * 8 + low) as u8;
    let header = seq![first, second] + rest;
    assert(header[0] == first && header[1] == second);
    assert(first % 8 == index / 2);
    assert(second / 128 == index % 2);
    assert(second / 8 % 16 == channels);
    assert(sample_rate_index(header) == index);
    assert(channel_count(header) == channels);
}

/// Without two bytes there is no configuration.
pub proof fn a_configuration_needs_two_bytes(header: Seq<u8>)
    ensures
        header.len() < 2 <==> aac_config(header) == Err::<(u32, usize), _>(AacConfigError::TooShort),
{
}

/// An index that names no rate is named itself: the number in the error's words is read back as the
/// index.
pub proof fn refused_indices_are_named(index: usize)
    ensures
        ({
            let text = AacConfigError::SampleRateIndex(index).text();
            &&& "Invalid AAC sample rate index: "@.is_prefix_of(text)
            &&& read_decimal(text.skip("Invalid AAC sample rate index: "@.len() as int)) == index
        }),
{
    let words = "Invalid AAC sample rate index: "@;
    let digits = decimal(index as nat);
    decimals_are_read_back(index as nat);
    assert(words.is_prefix_of(words + digits));
    assert((words + digits).skip(words.len() as int) =~= digits);
}

/// Symphonia's AAC decoder, opaque here.
#[verifier::external_type_specification]
#[verifier::external_body]
pub struct ExAacCodec(symphonia::default::codecs::AacDecoder);

/// Symphonia's error, opaque here.
#[verifier::external_type_specification]
#[verifier::external_body]
pub struct ExCodecError(symphonia::core::errors::Error);

/// What `symphonia::default::codecs::AacDecoder::try_new` gives for a configuration: a decoder, or
/// the error that it is refused with.
pub uninterp spec fn opened_codec(config: Seq<u8>) -> Result<
    symphonia::default::codecs::AacDecoder,
    symphonia::core::errors::Error,
>;

/// A decoder can be made for this configuration.
pub open spec fn codec_accepts(config: Seq<u8>) -> bool {
    opened_codec(config) is Ok
}

/// `symphonia::default::codecs::AacDecoder::try_new`, given the configuration as the codec's extra
/// data. What comes out depends on the configuration alone: the sample rate that goes with it is
/// replaced by the one in the configuration, and the options are not used.
#[verifier::external_body]
fn open_codec(config: &[u8], sample_rate: u32) -> (codec: Result<
    symphonia::default::codecs::AacDecoder,
    symphonia::core::errors::Error,
>)
    ensures
        codec == opened_codec(config@),
{
    let mut parameters = symphonia::core::codecs::audio::AudioCodecParameters::new();
    parameters
        .for_codec(symphonia::core::codecs::audio::well_known::CODEC_ID_AAC)
        .with_sample_rate(sample_rate)
        .with_extra_data(config.into());
    symphonia::default::codecs::AacDecoder::try_new(
        &parameters,
        &symphonia::core::codecs::audio::AudioDecoderOptions::default(),
    )
}

/// Why no decoder could be set up.
#[derive(Debug)]
pub enum DecodeError {
    Config(AacConfigError),
    Codec(symphonia::core::errors::Error),
}

/// An AAC decoder and what its configuration says of the stream.
pub struct AacStreamDecoder {
    codec: symphonia::default::codecs::AacDecoder,
    sample_rate: u32,
    channels: usize,
}

impl AacStreamDecoder {
    /// The sample rate that the configuration names.
    pub closed spec fn rate(self) -> u32 {
        self.sample_rate
    }

    /// The channel count that the configuration names.
    pub closed spec fn channel_total(self) -> usize {
        self.channels
    }

    /// The codec that does the decoding.
    pub closed spec fn decoding(self) -> symphonia::default::codecs::AacDecoder {
        self.codec
    }

    /// Sets a decoder up for a configuration. The configuration is read before the codec sees it.
    pub fn new(config_data: &[u8]) -> (decoder: Result<Self, DecodeError>)
        ensures
            match aac_config(config_data@) {
                Err(reason) => decoder == Err::<Self, _>(DecodeError::Config(reason)),
                Ok((sample_rate, channels)) => {
                    &&& decoder is Ok <==> codec_accepts(config_data@)
                    &&& match decoder {
                        Ok(decoder) => {
                            &&& decoder.decoding() == opened_codec(config_data@)->Ok_0
                            &&& decoder.rate() == sample_rate
                            &&& decoder.channel_total() == channels
                        },
                        Err(error) => error == DecodeError::Codec(
                            opened_codec(config_data@)->Err_0,
                        ),
                    }
                },
            },
    {
        match parse_aac_config(config_data) {
            Err(reason) => Err(DecodeError::Config(reason)),
            Ok((sample_rate, channels)) => Self::with_codec(
                sample_rate,
                channels,
                open_codec(config_data, sample_rate),
            ),
        }
    }

    /// A decoder around what setting the codec up came to.
    pub fn with_codec(
        sample_rate: u32,
        channels: usize,
        codec: Result<symphonia::default::codecs::AacDecoder, symphonia::core::errors::Error>,
    ) -> (decoder: Result<Self, DecodeError>)
        ensures
            match codec {
                Ok(codec) => decoder matches Ok(decoder) && decoder.decoding() == codec
                    && decoder.rate() == sample_rate && decoder.channel_total() == channels,
                Err(error) => decoder == Err::<Self, _>(DecodeError::Codec(error)),
            },
    {
        match codec {
            Ok(codec) => Ok(AacStreamDecoder { codec, sample_rate, channels }),
            Err(error) => Err(DecodeError::Codec(error)),
        }
    }

    pub fn sample_rate(&self) -> (sample_rate: u32)
        ensures
            sample_rate == self.rate(),
    {
        self.sample_rate
    }

    pub fn channels(&self) -> (channels: usize)
        ensures
            channels == self.channel_total(),
    {
        self.channels
    }

    /// The codec, to decode with.
    pub fn codec_mut(&mut self) -> (codec: &mut symphonia::default::codecs::AacDecoder)
        ensures
            *codec == old(self).decoding(),
            final(self).decoding() == *final(codec),
            final(self).rate() == old(self).rate(),
            final(self).channel_total() == old(self).channel_total(),
    {
        &mut self.codec
    }
}

} // verus!
