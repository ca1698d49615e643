//! A session: from the request for audio to the error that ends it.
//!
//! The stream is read, and the codec and the renderer are driven, from outside. Each step here takes
//! what they answered and says what to do next.

use vstd::prelude::*;

use crate::decode::{
    aac_config, codec_accepts, opened_codec, AacConfigError, AacStreamDecoder, DecodeError,
};
use crate::error::{ConfigurationError, SessionError};
use crate::frame::{Frame, FrameError};
use crate::renderer::RendererEvent;
use crate::text::{decimal, push_decimal};
use crate::time::{Duration, NANOS_PER_SEC};

verus! {

/// How long the stream may be silent, in seconds.
pub const IDLE_SECS: u64 = 5;

/// The pause before a new session, in seconds.
pub const RECONNECT_SECS: u64 = 1;

/// Why no frame could be read from the stream.
#[derive(Debug)]
pub enum ReadError {
    /// Nothing came for as long as the stream may be silent.
    Idle,
    /// The stream ended; the reason in words.
    Ended(String),
    /// The stream failed; the reason in words.
    Failed(String),
    /// What came is no frame.
    Frame(FrameError),
}

impl ReadError {
    /// The reason in words; `silence` is what silence means here.
    pub open spec fn text(self, silence: Seq<char>) -> Seq<char> {
        match self {
            ReadError::Idle => silence,
            ReadError::Ended(reason) => reason@,
            ReadError::Failed(reason) => reason@,
            ReadError::Frame(error) => error.text(),
        }
    }

    fn lose(self, silence: &str) -> (error: SessionError)
        ensures
            error is Lost,
            error.text() == self.text(silence@),
    {
        match self {
            ReadError::Idle => SessionError::lost(silence),
            ReadError::Ended(reason) => SessionError::Lost(reason),
            ReadError::Failed(reason) => SessionError::Lost(reason),
            ReadError::Frame(error) => SessionError::Lost(error.message()),
        }
    }
}

/// What to do while waiting for the first configuration.
#[derive(Debug)]
pub enum ConfigStep {
    /// Read the next frame.
    Wait,
    /// This is the configuration.
    Use(Vec<u8>),
    Fail(SessionError),
}

/// Takes in a frame while waiting for the first configuration. Audio before it is ignored.
pub fn initial_config_step(input: Result<Frame, ReadError>) -> (step: ConfigStep)
    ensures
        match input {
            Ok(Frame::Config(config)) => step == ConfigStep::Use(config),
            Ok(Frame::Audio { .. }) => step == ConfigStep::Wait,
            Err(error) => step matches ConfigStep::Fail(reason) && reason is Lost && reason.text()
                == error.text("no config received within 5s"@),
        },
{
    match input {
        Ok(Frame::Config(config)) => ConfigStep::Use(config),
        Ok(Frame::Audio { .. }) => ConfigStep::Wait,
        Err(error) => ConfigStep::Fail(error.lose("no config received within 5s")),
    }
}

/// What to do with a frame once the codec is set up.
#[derive(Debug)]
pub enum FrameStep {
    /// The configuration was repeated as it is, in so many bytes: read the next frame.
    Repeated { bytes: usize },
    /// The configuration changed: set the codec up anew.
    Changed(Vec<u8>),
    /// Decode this.
    Decode { pts: u64, data: Vec<u8> },
    Fail(SessionError),
}

/// What a good frame calls for.
pub open spec fn frame_step(frame: Frame, config: Seq<u8>, step: FrameStep) -> bool {
    match frame {
        Frame::Config(changed) => if changed@ == config {
            step == (FrameStep::Repeated { bytes: config.len() as usize })
        } else {
            step == FrameStep::Changed(changed)
        },
        Frame::Audio { pts, data } => step == (FrameStep::Decode { pts, data }),
    }
}

fn same_bytes(left: &Vec<u8>, right: &Vec<u8>) -> (same: bool)
    ensures
        same == (left@ == right@),
{
    if left.len() != right.len() {
        return false;
    }
    let mut next: usize = 0;
    while next < left.len()
        invariant
            left@.len() == right@.len(),
            next <= left@.len(),
            forall|i: int| 0 <= i < next ==> left@[i] == right@[i],
        decreases left@.len() - next,
    {
        if left[next] != right[next] {
            return false;
        }
        next = next + 1;
    }
    assert(left@ =~= right@);
    true
}

fn on_frame(frame: Frame, config: &Vec<u8>) -> (step: FrameStep)
    ensures
        frame_step(frame, config@, step),
{
    match frame {
        Frame::Config(changed) => {
            if same_bytes(&changed, config) {
                FrameStep::Repeated { bytes: changed.len() }
            } else {
                FrameStep::Changed(changed)
            }
        },
        Frame::Audio { pts, data } => FrameStep::Decode { pts, data },
    }
}

/// Takes in a frame while waiting for the first audio.
pub fn first_audio_step(input: Result<Frame, ReadError>, config: &Vec<u8>) -> (step: FrameStep)
    ensures
        match input {
            Ok(frame) => frame_step(frame, config@, step),
            Err(error) => step matches FrameStep::Fail(reason) && reason is Lost && reason.text()
                == error.text("no audio received within 5s"@),
        },
{
    match input {
        Ok(frame) => on_frame(frame, config),
        Err(error) => FrameStep::Fail(error.lose("no audio received within 5s")),
    }
}

/// What happens while audio is played.
#[derive(Debug)]
pub enum GenerationInput {
    /// A frame was read, or could not be.
    Stream(Result<Frame, ReadError>),
    /// The renderer said something; nothing when it is gone.
    Renderer(Option<RendererEvent>),
}

/// What is lost when the stream fails while audio is played.
pub open spec fn generation_text(error: ReadError) -> Seq<char> {
    if error is Ended {
        "audio transport ended"@
    } else {
        error.text("no data received for 5s"@)
    }
}

/// Takes in what happened while audio is played.
pub fn generation_step(input: GenerationInput, config: &Vec<u8>) -> (step: FrameStep)
    ensures
        match input {
            GenerationInput::Stream(Ok(frame)) => frame_step(frame, config@, step),
            GenerationInput::Stream(Err(error)) => step matches FrameStep::Fail(reason)
                && reason is Lost && reason.text() == generation_text(error),
            GenerationInput::Renderer(Some(RendererEvent::Starvation)) => step matches FrameStep::Fail(
                reason,
            ) && reason is Lost && reason.text()
                == "continuous decoded-audio starvation reached the reconnect threshold"@,
            GenerationInput::Renderer(Some(RendererEvent::Terminal(error))) => step
                == FrameStep::Fail(error),
            GenerationInput::Renderer(None) => step matches FrameStep::Fail(reason)
                && reason is Lost && reason.text() == "playback thread stopped unexpectedly"@,
        },
{
    match input {
        GenerationInput::Stream(Ok(frame)) => on_frame(frame, config),
        GenerationInput::Stream(Err(ReadError::Ended(_))) => FrameStep::Fail(
            SessionError::lost("audio transport ended"),
        ),
        GenerationInput::Stream(Err(error)) => FrameStep::Fail(
            error.lose("no data received for 5s"),
        ),
        GenerationInput::Renderer(Some(RendererEvent::Starvation)) => FrameStep::Fail(
            SessionError::lost(
                "continuous decoded-audio starvation reached the reconnect threshold",
            ),
        ),
        GenerationInput::Renderer(Some(RendererEvent::Terminal(error))) => FrameStep::Fail(error),
        GenerationInput::Renderer(None) => FrameStep::Fail(
            SessionError::lost("playback thread stopped unexpectedly"),
        ),
    }
}

/// What a decoded packet is made of.
#[derive(Clone, Copy, Debug, PartialEq, Eq, Structural)]
pub struct DecodedFormat {
    pub sample_rate: u32,
    pub channels: usize,
    pub frames: usize,
}

impl DecodedFormat {
    pub open spec fn text(self) -> Seq<char> {
        "DecodedFormat { sample_rate: "@ + decimal(self.sample_rate as nat) + ", channels: "@
            + decimal(self.channels as nat) + ", frames: "@ + decimal(self.frames as nat) + " }"@
    }

    /// The same stream goes on: packets may differ in length only.
    pub open spec fn continues(self, earlier: Self) -> bool {
        self.sample_rate == earlier.sample_rate && self.channels == earlier.channels
    }

    fn push_to(&self, text: &mut String)
        ensures
            final(text)@ == old(text)@ + self.text(),
    {
        let ghost before = text@;
        text.append("DecodedFormat { sample_rate: ");
        push_decimal(text, self.sample_rate as u128);
        text.append(", channels: ");
        push_decimal(text, self.channels as u128);
        text.append(", frames: ");
        push_decimal(text, self.frames as u128);
        text.append(" }");
        assert(text@ =~= before + self.text());
    }
}

pub open spec fn format_change_text(generation: DecodedFormat, actual: DecodedFormat) -> Seq<char> {
    "decoded format changed without a codec config marker: "@ + generation.text() + " -> "@
        + actual.text()
}

/// Whether a decoded packet is to be played: one without frames is passed over, and one of another
/// format than the first is an error.
pub fn accept_decoded(generation: DecodedFormat, actual: DecodedFormat) -> (play: Result<
    bool,
    ConfigurationError,
>)
    ensures
        match play {
            Ok(play) => {
                &&& play == (actual.frames > 0)
                &&& actual.frames > 0 ==> actual.continues(generation)
            },
            Err(error) => {
                &&& actual.frames > 0
                &&& !actual.continues(generation)
                &&& error@ == format_change_text(generation, actual)
            },
        },
{
    if actual.frames == 0 {
        return Ok(false);
    }
    if actual.sample_rate != generation.sample_rate || actual.channels != generation.channels {
        let mut text: String = "decoded format changed without a codec config marker: ".to_owned();
        generation.push_to(&mut text);
        text.append(" -> ");
        actual.push_to(&mut text);
        return Err(ConfigurationError::new(text.as_str()));
    }
    Ok(true)
}

/// A closure that averages can be called on every run of so many samples.
pub open spec fn averages<T, A: Fn(&[T]) -> T>(average: A, channels: nat) -> bool {
    forall|frame: &[T]| frame@.len() == channels ==> #[trigger] call_requires(average, (frame,))
}

/// `mono` is the average of one frame.
pub open spec fn is_average<T, A: Fn(&[T]) -> T>(average: A, samples: Seq<T>, mono: T) -> bool {
    exists|frame: &[T]| frame@ == samples && #[trigger] call_ensures(average, (frame,), mono)
}

/// `mono` is the downmix of interleaved `samples`: each frame averaged, a last frame that is not
/// complete left out. One channel is mono already.
pub open spec fn is_downmix<T, A: Fn(&[T]) -> T>(
    average: A,
    samples: Seq<T>,
    channels: nat,
    mono: Seq<T>,
) -> bool {
    if channels == 1 {
        mono == samples
    } else {
        &&& mono.len() == samples.len() / channels
        &&& forall|i: int|
            0 <= i < mono.len() ==> is_average(
                average,
                samples.subrange(i * channels, (i + 1) * channels),
                #[trigger] mono[i],
            )
    }
}

/// Makes one channel of interleaved samples.
pub fn downmix_mono<T: Copy, A: Fn(&[T]) -> T>(
    samples: &[T],
    channels: usize,
    average: &A,
) -> (mono: Vec<T>)
    requires
        channels > 0,
        averages(*average, channels as nat),
    ensures
        is_downmix(*average, samples@, channels as nat, mono@),
        channels == 1 ==> mono@ == samples@,
        channels > 1 ==> forall|i: int|
            0 <= i < mono@.len() ==> is_made_of(
                *average,
                samples@,
                i * channels,
                channels as nat,
                #[trigger] mono@[i],
            ),
{
    let mut mono: Vec<T> = Vec::new();
    if channels == 1 {
        let mut next: usize = 0;
        while next < samples.len()
            invariant
                next <= samples@.len(),
                mono@ == samples@.take(next as int),
            decreases samples@.len() - next,
        {
            mono.push(samples[next]);
            next = next + 1;
            assert(mono@ =~= samples@.take(next as int));
        }
        assert(mono@ =~= samples@);
        return mono;
    }
    let total: usize = samples.len();
    let mut start: usize = 0;
    while channels <= total - start
        invariant
            channels > 1,
            averages(*average, channels as nat),
            total == samples@.len(),
            start <= total,
            start == mono@.len() * channels,
            forall|i: int|
                0 <= i < mono@.len() ==> is_average(
                    *average,
                    samples@.subrange(i * channels, (i + 1) * channels),
                    #[trigger] mono@[i],
                ),
        decreases total - start,
    {
        let frame: &[T] = vstd::slice::slice_subrange(samples, start, start + channels);
        let ghost count = mono@.len();
        let averaged = average(frame);
        proof {
            assert((count + 1) * channels == count * channels + channels) by (nonlinear_arith);
            assert(is_average(
                *average,
                samples@.subrange(count * channels, (count + 1) * channels),
                averaged,
            ));
        }
        mono.push(averaged);
        start = start + channels;
    }
    proof {
        let count = mono@.len();
        let rest = total - start;
        assert(samples@.len() == channels * count + rest) by (nonlinear_arith)
            requires
                samples@.len() == count * channels + rest,
        ;
        vstd::arithmetic::div_mod::lemma_fundamental_div_mod_converse(
            samples@.len() as int,
            channels as int,
            count as int,
            rest as int,
        );
        each_frame_makes_its_own_sample(*average, samples@, channels as nat, mono@);
    }
    mono
}

/// The samples of frame `i` begin here.
pub open spec fn frame_start(i: int, channels: nat) -> int {
    i * channels
}

/// `mono` is a result of averaging the `channels` samples from `start` on, in their order.
pub open spec fn is_made_of<T, A: Fn(&[T]) -> T>(
    average: A,
    samples: Seq<T>,
    start: int,
    channels: nat,
    mono: T,
) -> bool {
    exists|frame: &[T]|
        {
            &&& frame@.len() == channels
            &&& forall|j: int| 0 <= j < channels ==> #[trigger] frame@[j] == samples[start + j]
            &&& #[trigger] call_ensures(average, (frame,), mono)
        }
}

/// Each sample of a downmix comes from its own frame: there are as many samples as whole frames, and
/// sample `i` is a result of averaging exactly the samples of frame `i`, in their order. With one
/// channel, it is that sample.
pub proof fn each_frame_makes_its_own_sample<T, A: Fn(&[T]) -> T>(
    average: A,
    samples: Seq<T>,
    channels: nat,
    mono: Seq<T>,
)
    requires
        channels > 0,
        is_downmix(average, samples, channels, mono),
    ensures
        frame_start(mono.len() as int, channels) <= samples.len() < frame_start(
            mono.len() as int,
            channels,
        ) + channels,
        channels == 1 ==> forall|i: int| 0 <= i < mono.len() ==> #[trigger] mono[i] == samples[i],
        channels > 1 ==> forall|i: int|
            0 <= i < mono.len() ==> is_made_of(
                average,
                samples,
                frame_start(i, channels),
                channels,
                #[trigger] mono[i],
            ),
{
    if channels > 1 {
        let count = mono.len();
        vstd::arithmetic::div_mod::lemma_fundamental_div_mod(
            samples.len() as int,
            channels as int,
        );
        assert(channels * count == frame_start(count as int, channels)) by (nonlinear_arith);
        assert forall|i: int| 0 <= i < mono.len() implies is_made_of(
            average,
            samples,
            frame_start(i, channels),
            channels,
            #[trigger] mono[i],
        ) by {
            let part = samples.subrange(i * channels, (i + 1) * channels);
            assert(is_average(average, part, mono[i]));
            let frame = choose|frame: &[T]|
                frame@ == part && #[trigger] call_ensures(average, (frame,), mono[i]);
            frames_lie_within(i, channels, samples.len());
            assert forall|j: int| 0 <= j < channels implies #[trigger] frame@[j]
                == samples[frame_start(i, channels) + j] by {
                assert(part[j] == samples[i * channels + j]);
            }
            assert(call_ensures(average, (frame,), mono[i]));
        }
    } else {
        assert(frame_start(mono.len() as int, 1) == mono.len());
    }
}

proof fn frames_lie_within(i: int, channels: nat, length: nat)
    requires
        channels > 0,
        0 <= i < length / channels,
    ensures
        0 <= i * channels,
        (i + 1) * channels == i * channels + channels,
        (i + 1) * channels <= length,
{
    let count = length / channels;
    vstd::arithmetic::div_mod::lemma_fundamental_div_mod(length as int, channels as int);
    assert((i + 1) * channels == i * channels + channels) by (nonlinear_arith);
    assert(0 <= i * channels) by (nonlinear_arith)
        requires
            i >= 0,
    ;
    assert((i + 1) * channels <= channels * count) by (nonlinear_arith)
        requires
            i + 1 <= count,
    ;
}

/// The downmix of some whole frames and what follows them is the downmix of those frames, followed
/// by the downmix of the rest: a frame changes its own sample and no other.
pub proof fn downmixes_can_be_split<T, A: Fn(&[T]) -> T>(
    average: A,
    first: Seq<T>,
    frames: nat,
    second: Seq<T>,
    channels: nat,
    mono: Seq<T>,
)
    requires
        channels > 0,
        first.len() == frames * channels,
        is_downmix(average, first + second, channels, mono),
    ensures
        frames <= mono.len(),
        is_downmix(average, first, channels, mono.take(frames as int)),
        is_downmix(average, second, channels, mono.skip(frames as int)),
{
    let whole = first + second;
    if channels == 1 {
        assert(first.len() == frames) by (nonlinear_arith)
            requires
                first.len() == frames * channels,
                channels == 1,
        ;
        assert(whole.take(frames as int) =~= first);
        assert(whole.skip(frames as int) =~= second);
    } else {
        let rest = second.len() / channels;
        vstd::arithmetic::div_mod::lemma_fundamental_div_mod(second.len() as int, channels as int);
        assert(whole.len() == (frames + rest) * channels + second.len() % channels)
            by (nonlinear_arith)
            requires
                whole.len() == frames * channels + second.len(),
                second.len() == channels * rest + second.len() % channels,
        ;
        vstd::arithmetic::div_mod::lemma_fundamental_div_mod_converse(
            whole.len() as int,
            channels as int,
            (frames + rest) as int,
            (second.len() % channels) as int,
        );
        vstd::arithmetic::div_mod::lemma_fundamental_div_mod_converse(
            first.len() as int,
            channels as int,
            frames as int,
            0,
        );
        assert(mono.len() == frames + rest);
        let head = mono.take(frames as int);
        let tail = mono.skip(frames as int);
        assert forall|i: int| 0 <= i < head.len() implies is_average(
            average,
            first.subrange(i * channels, (i + 1) * channels),
            #[trigger] head[i],
        ) by {
            frames_lie_within(i, channels, first.len());
            assert(whole.subrange(i * channels, (i + 1) * channels) =~= first.subrange(
                i * channels,
                (i + 1) * channels,
            ));
            assert(is_average(
                average,
                whole.subrange(i * channels, (i + 1) * channels),
                mono[i],
            ));
        }
        assert forall|i: int| 0 <= i < tail.len() implies is_average(
            average,
            second.subrange(i * channels, (i + 1) * channels),
            #[trigger] tail[i],
        ) by {
            let k = frames + i;
            frames_lie_within(i, channels, second.len());
            frames_lie_within(k, channels, whole.len());
            assert(k * channels == frames * channels + i * channels) by (nonlinear_arith)
                requires
                    k == frames + i,
            ;
            assert(whole.subrange(k * channels, (k + 1) * channels) =~= second.subrange(
                i * channels,
                (i + 1) * channels,
            ));
            assert(is_average(
                average,
                whole.subrange(k * channels, (k + 1) * channels),
                mono[k],
            ));
        }
    }
}

pub open spec fn accounting_text(mono: nat, frames: nat) -> Seq<char> {
    "decoded frame/channel accounting mismatch: "@ + decimal(mono) + " mono frames, expected "@
        + decimal(frames)
}

/// Makes one channel of a decoded packet; its length has to be what the decoder says.
pub fn mono_packet<T: Copy, A: Fn(&[T]) -> T>(
    samples: &[T],
    channels: usize,
    frames: usize,
    average: &A,
) -> (packet: Result<Vec<T>, SessionError>)
    requires
        channels > 0,
        averages(*average, channels as nat),
    ensures
        packet is Ok <==> samples@.len() / channels as nat == frames,
        match packet {
            Ok(mono) => is_downmix(*average, samples@, channels as nat, mono@) && mono@.len()
                == frames,
            Err(error) => error is Lost && error.text() == accounting_text(
                samples@.len() / channels as nat,
                frames as nat,
            ),
        },
{
    let mono = downmix_mono(samples, channels, average);
    assert(channels == 1 ==> samples@.len() / channels as nat == samples@.len());
    if mono.len() != frames {
        let mut text: String = "decoded frame/channel accounting mismatch: ".to_owned();
        push_decimal(&mut text, mono.len() as u128);
        text.append(" mono frames, expected ");
        push_decimal(&mut text, frames as u128);
        return Err(SessionError::Lost(text));
    }
    Ok(mono)
}

/// Setting the codec up for some configuration ends in this error.
pub open spec fn is_set_up_error(error: symphonia::core::errors::Error) -> bool {
    exists|config: Seq<u8>| #[trigger]
        opened_codec(config) == Err::<symphonia::default::codecs::AacDecoder, _>(error)
}

/// The words that Symphonia's error displays itself with.
pub uninterp spec fn codec_error_words(error: symphonia::core::errors::Error) -> Seq<char>;

/// `symphonia::core::errors::Error`, displayed. The words of an error that the codec's set-up ends
/// in are fixed in Symphonia's code. Nothing is said of other errors: theirs may come from the
/// operating system.
#[verifier::external_body]
fn codec_error_text(error: &symphonia::core::errors::Error) -> (text: String)
    ensures
        is_set_up_error(*error) ==> text@ == codec_error_words(*error),
{
    format!("{error}")
}

/// What is said of a configuration that the codec refuses, before the codec's own words.
pub open spec fn refusal_text() -> Seq<char> {
    "Failed to create AAC decoder: "@
}

/// Why no decoder could be set up, in words. Of an error that does not come from the codec's set-up
/// the words are left open.
pub fn set_up_failure(error: &DecodeError) -> (text: String)
    ensures
        match error {
            DecodeError::Config(cause) => text@ == cause.text(),
            DecodeError::Codec(cause) => {
                &&& refusal_text().is_prefix_of(text@)
                &&& is_set_up_error(*cause) ==> text@ == refusal_text() + codec_error_words(*cause)
            },
        },
{
    match error {
        DecodeError::Config(cause) => cause.message(),
        DecodeError::Codec(cause) => {
            let mut text: String = "Failed to create AAC decoder: ".to_owned();
            text.append(codec_error_text(cause).as_str());
            assert(refusal_text().is_prefix_of(text@));
            text
        },
    }
}

/// What is said in a session of every configuration that no decoder could be set up for.
pub open spec fn unsupported_text() -> Seq<char> {
    "unsupported AAC configuration: "@
}

/// What is said in a session of a configuration that the codec refuses, before the codec's own
/// words.
pub open spec fn refused_text() -> Seq<char> {
    unsupported_text() + refusal_text()
}

/// The error for a configuration that no decoder could be set up for, with the cause in words. Of
/// an error that does not come from the codec's set-up the words are left open.
pub fn unsupported_config(error: &DecodeError) -> (reason: ConfigurationError)
    ensures
        match error {
            DecodeError::Config(cause) => reason@ == unsupported_text() + cause.text(),
            DecodeError::Codec(cause) => {
                &&& refused_text().is_prefix_of(reason@)
                &&& is_set_up_error(*cause) ==> reason@ == refused_text() + codec_error_words(
                    *cause,
                )
            },
        },
{
    let mut text: String = "unsupported AAC configuration: ".to_owned();
    let failure = set_up_failure(error);
    text.append(failure.as_str());
    proof {
        if let DecodeError::Codec(cause) = error {
            assert(failure@ =~= refusal_text() + failure@.skip(refusal_text().len() as int));
            assert(text@ =~= refused_text() + failure@.skip(refusal_text().len() as int));
            assert(refused_text().is_prefix_of(text@));
            if is_set_up_error(*cause) {
                assert(text@ =~= refused_text() + codec_error_words(*cause));
            }
        }
    }
    ConfigurationError::new(text.as_str())
}

/// Sets a decoder up for a session.
pub fn new_decoder(config: &[u8]) -> (decoder: Result<AacStreamDecoder, ConfigurationError>)
    ensures
        decoder is Ok <==> aac_config(config@) is Ok && codec_accepts(config@),
        match decoder {
            Ok(decoder) => {
                &&& decoder.decoding() == opened_codec(config@)->Ok_0
                &&& aac_config(config@) == Ok::<_, AacConfigError>(
                    (decoder.rate(), decoder.channel_total()),
                )
            },
            Err(error) => match aac_config(config@) {
                Err(cause) => error@ == unsupported_text() + cause.text(),
                Ok(_) => error@ == refused_text() + codec_error_words(
                    opened_codec(config@)->Err_0,
                ),
            },
        },
{
    match AacStreamDecoder::new(config) {
        Ok(decoder) => Ok(decoder),
        Err(error) => Err(unsupported_config(&error)),
    }
}

/// What follows a session.
#[derive(Debug)]
pub enum AfterSession {
    /// Nothing: all is done.
    Stop,
    /// Give up, for this reason.
    Fail(SessionError),
    /// Wait so long and start a new session, the so-manieth.
    Reconnect { attempt: u64, wait: Duration, reason: SessionError },
}

/// What follows a session, when there were `reconnects` new ones before.
pub fn after_session(result: Result<(), SessionError>, reconnects: u64) -> (next: AfterSession)
    requires
        reconnects < u64::MAX,
    ensures
        next is Stop <==> result is Ok,
        next is Reconnect <==> (result matches Err(reason) && reason is Lost),
        next matches AfterSession::Reconnect { attempt, wait, reason } ==> attempt == reconnects + 1
            && wait.nanos == 1_000_000_000 && result == Err::<(), _>(reason),
        next == match result {
            Ok(()) => AfterSession::Stop,
            Err(reason) => if reason is Lost {
                AfterSession::Reconnect {
                    attempt: (reconnects + 1) as u64,
                    wait: Duration { nanos: (RECONNECT_SECS * NANOS_PER_SEC) as u128 },
                    reason,
                }
            } else {
                AfterSession::Fail(reason)
            },
        },
{
    match result {
        Ok(()) => AfterSession::Stop,
        Err(reason) => {
            if !reason.is_retryable() {
                return AfterSession::Fail(reason);
            }
            AfterSession::Reconnect {
                attempt: reconnects + 1,
                wait: Duration::from_secs(RECONNECT_SECS),
                reason,
            }
        },
    }
}

/// Once the codec is set up, a configuration is passed over if and only if it is, byte for byte, the
/// one in use, and any other takes its place; audio is decoded as it came.
pub proof fn only_another_configuration_sets_the_codec_up_anew(
    frame: Frame,
    config: Seq<u8>,
    step: FrameStep,
)
    requires
        frame_step(frame, config, step),
        config.len() <= usize::MAX,
    ensures
        !(step is Fail),
        frame matches Frame::Config(sent) ==> {
            &&& (step is Repeated <==> sent@ == config)
            &&& (step matches FrameStep::Repeated { bytes } ==> bytes == config.len())
            &&& (step is Repeated || step == FrameStep::Changed(sent))
        },
        frame matches Frame::Audio { pts, data } ==> step == (FrameStep::Decode { pts, data }),
{
}

/// A stream goes on, whatever its packets' lengths, as long as its rate and its channels stay.
pub proof fn packets_may_differ_in_length_only(earlier: DecodedFormat, later: DecodedFormat)
    ensures
        later.continues(earlier) <==> (DecodedFormat { frames: later.frames, ..earlier }) == later,
{
}

/// A stream that ends while audio is played is told from every other failure, each of which is
/// reported in its own words.
pub proof fn failures_keep_their_words(error: ReadError)
    ensures
        error is Ended ==> generation_text(error) == "audio transport ended"@,
        error is Idle ==> generation_text(error) == "no data received for 5s"@,
        error matches ReadError::Failed(reason) ==> generation_text(error) == reason@,
        error matches ReadError::Frame(fault) ==> generation_text(error) == fault.text(),
        forall|silence: Seq<char>|
            error matches ReadError::Ended(reason) ==> #[trigger] error.text(silence) == reason@,
        forall|silence: Seq<char>|
            error matches ReadError::Failed(reason) ==> #[trigger] error.text(silence) == reason@,
        forall|silence: Seq<char>|
            error matches ReadError::Frame(fault) ==> #[trigger] error.text(silence)
                == fault.text(),
        forall|silence: Seq<char>| error is Idle ==> #[trigger] error.text(silence) == silence,
{
}

/// What is said when a stream is silent names the time that it may be silent for.
pub proof fn silence_is_reported_with_its_time()
    ensures
        "no config received within "@ + decimal(IDLE_SECS as nat) + "s"@
            == "no config received within 5s"@,
        "no audio received within "@ + decimal(IDLE_SECS as nat) + "s"@
            == "no audio received within 5s"@,
        "no data received for "@ + decimal(IDLE_SECS as nat) + "s"@ == "no data received for 5s"@,
{
    reveal_strlit("no config received within ");
    reveal_strlit("no config received within 5s");
    reveal_strlit("no audio received within ");
    reveal_strlit("no audio received within 5s");
    reveal_strlit("no data received for ");
    reveal_strlit("no data received for 5s");
    reveal_strlit("s");
    assert("no config received within "@ + decimal(IDLE_SECS as nat) + "s"@
        =~= "no config received within 5s"@);
    assert("no audio received within "@ + decimal(IDLE_SECS as nat) + "s"@
        =~= "no audio received within 5s"@);
    assert("no data received for "@ + decimal(IDLE_SECS as nat) + "s"@
        =~= "no data received for 5s"@);
}

} // verus!
