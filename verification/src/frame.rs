//! The framing of the audio stream.
//!
//! A frame is a header of twelve bytes and a payload. The header holds a timestamp in eight bytes
//! and the payload's length in four, both with the most significant byte first. A timestamp of all
//! ones marks a codec configuration instead of audio.

use vstd::arithmetic::power::{lemma_pow0, pow};
use vstd::prelude::*;

use crate::text::{decimal, decimals_are_read_back, push_decimal, read_decimal};

verus! {

/// What the stream's other end has to be sent to start the audio.
pub const AUDIO_REQUEST: &'static str = "GET /v1/audio.2";

/// The timestamp that marks a configuration frame.
pub const NO_PTS: u64 = u64::MAX;

/// The length in a configuration frame's header that means the other end stopped.
pub const STOP_LENGTH: u32 = u32::MAX;

/// Bytes in a frame's header.
pub const HEADER_BYTES: usize = 12;

/// The longest configuration that is accepted.
pub const MAX_CONFIG_BYTES: u32 = 1024;

/// The longest audio payload that is accepted.
pub const MAX_AUDIO_BYTES: u32 = 1024 * 1024;

/// The number that a run of bytes stands for, the most significant byte first.
pub open spec fn be_value(bytes: Seq<u8>) -> nat
    decreases bytes.len(),
{
    if bytes.len() == 0 {
        0
    } else {
        be_value(bytes.drop_last()) * 256 + bytes.last() as nat
    }
}

/// The `width` low bytes of a number, the most significant byte first.
pub open spec fn be_bytes(value: nat, width: nat) -> Seq<u8>
    decreases width,
{
    if width == 0 {
        Seq::empty()
    } else {
        be_bytes(value / 256, (width - 1) as nat).push((value % 256) as u8)
    }
}

/// `byteorder::BigEndian::read_u64`: the number in the first eight bytes, the most significant
/// byte first. It panics on fewer bytes.
#[verifier::external_body]
fn read_u64_be(bytes: &[u8]) -> (value: u64)
    requires
        bytes@.len() >= 8,
    ensures
        value == be_value(bytes@.take(8)),
{
    <byteorder::BigEndian as byteorder::ByteOrder>::read_u64(bytes)
}

/// `byteorder::BigEndian::read_u32`: the number in the first four bytes, the most significant byte
/// first. It panics on fewer bytes.
#[verifier::external_body]
fn read_u32_be(bytes: &[u8]) -> (value: u32)
    requires
        bytes@.len() >= 4,
    ensures
        value == be_value(bytes@.take(4)),
{
    <byteorder::BigEndian as byteorder::ByteOrder>::read_u32(bytes)
}

/// One frame of the stream.
#[derive(Debug, PartialEq, Eq)]
pub enum Frame {
    Config(Vec<u8>),
    Audio { pts: u64, data: Vec<u8> },
}

/// A frame's contents.
pub enum FrameContents {
    Config(Seq<u8>),
    Audio { pts: u64, data: Seq<u8> },
}

impl View for Frame {
    type V = FrameContents;

    open spec fn view(&self) -> FrameContents {
        match self {
            Frame::Config(config) => FrameContents::Config(config@),
            Frame::Audio { pts, data } => FrameContents::Audio { pts: *pts, data: data@ },
        }
    }
}

impl FrameContents {
    /// The frame can be sent: its payload has an admissible length, and audio does not carry the
    /// timestamp of a configuration.
    pub open spec fn is_sendable(self) -> bool {
        match self {
            FrameContents::Config(config) => 0 < config.len() <= MAX_CONFIG_BYTES,
            FrameContents::Audio { pts, data } => pts != NO_PTS && 0 < data.len()
                <= MAX_AUDIO_BYTES,
        }
    }

    /// The frame as it goes over the wire.
    pub open spec fn encoded(self) -> Seq<u8> {
        match self {
            FrameContents::Config(config) => be_bytes(NO_PTS as nat, 8) + be_bytes(config.len(), 4)
                + config,
            FrameContents::Audio { pts, data } => be_bytes(pts as nat, 8) + be_bytes(data.len(), 4)
                + data,
        }
    }
}

/// Why no frame could be read.
#[derive(Clone, Copy, Debug, PartialEq, Eq, Structural)]
pub enum FrameError {
    /// The bytes end within the frame.
    Truncated,
    /// The other end stopped, or failed.
    Stopped,
    ConfigSize(u32),
    AudioSize(u32),
}

impl FrameError {
    pub open spec fn text(self) -> Seq<char> {
        match self {
            FrameError::Truncated => "unexpected end of stream"@,
            FrameError::Stopped => "stop/error from app side"@,
            FrameError::ConfigSize(length) => "config packet size invalid: "@ + decimal(
                length as nat,
            ),
            FrameError::AudioSize(length) => "data packet size invalid: "@ + decimal(length as nat),
        }
    }

    pub fn message(&self) -> (message: String)
        ensures
            message@ == self.text(),
    {
        match self {
            FrameError::Truncated => "unexpected end of stream".to_owned(),
            FrameError::Stopped => "stop/error from app side".to_owned(),
            FrameError::ConfigSize(length) => {
                let mut text: String = "config packet size invalid: ".to_owned();
                push_decimal(&mut text, *length as u128);
                text
            },
            FrameError::AudioSize(length) => {
                let mut text: String = "data packet size invalid: ".to_owned();
                push_decimal(&mut text, *length as u128);
                text
            },
        }
    }
}

/// What a frame's header announces.
#[derive(Clone, Copy, Debug, PartialEq, Eq, Structural)]
pub enum FrameHeader {
    Config { length: u32 },
    Audio { pts: u64, length: u32 },
}

/// What the first twelve bytes announce.
pub open spec fn header_of(bytes: Seq<u8>) -> Result<FrameHeader, FrameError> {
    let pts = be_value(bytes.take(8)) as u64;
    let length = be_value(bytes.subrange(8, 12)) as u32;
    if bytes.len() < HEADER_BYTES {
        Err(FrameError::Truncated)
    } else if pts == NO_PTS {
        if length == STOP_LENGTH {
            Err(FrameError::Stopped)
        } else if 0 < length <= MAX_CONFIG_BYTES {
            Ok(FrameHeader::Config { length })
        } else {
            Err(FrameError::ConfigSize(length))
        }
    } else if 0 < length <= MAX_AUDIO_BYTES {
        Ok(FrameHeader::Audio { pts, length })
    } else {
        Err(FrameError::AudioSize(length))
    }
}

impl FrameHeader {
    pub open spec fn length_of(self) -> u32 {
        match self {
            FrameHeader::Config { length } => length,
            FrameHeader::Audio { length, .. } => length,
        }
    }

    /// The frame that this header and a payload make.
    pub open spec fn with(self, payload: Seq<u8>) -> FrameContents {
        match self {
            FrameHeader::Config { .. } => FrameContents::Config(payload),
            FrameHeader::Audio { pts, .. } => FrameContents::Audio { pts, data: payload },
        }
    }

    /// The frame of this header and its payload.
    pub fn frame(&self, payload: Vec<u8>) -> (frame: Frame)
        requires
            payload@.len() == self.length_of(),
        ensures
            frame@ == self.with(payload@),
    {
        match self {
            FrameHeader::Config { .. } => Frame::Config(payload),
            FrameHeader::Audio { pts, .. } => Frame::Audio { pts: *pts, data: payload },
        }
    }

    /// How many bytes of payload follow.
    pub fn payload_length(&self) -> (length: usize)
        ensures
            length == self.length_of(),
    {
        match self {
            FrameHeader::Config { length } => *length as usize,
            FrameHeader::Audio { length, .. } => *length as usize,
        }
    }
}

/// Reads a frame's header.
pub fn parse_header(bytes: &[u8]) -> (header: Result<FrameHeader, FrameError>)
    ensures
        header == header_of(bytes@),
{
    if bytes.len() < HEADER_BYTES {
        return Err(FrameError::Truncated);
    }
    let pts: u64 = read_u64_be(bytes);
    let rest = vstd::slice::slice_subrange(bytes, 8, 12);
    let length: u32 = read_u32_be(rest);
    assert(rest@.take(4) =~= bytes@.subrange(8, 12));
    if pts == NO_PTS {
        if length == STOP_LENGTH {
            return Err(FrameError::Stopped);
        }
        if length == 0 || length > MAX_CONFIG_BYTES {
            return Err(FrameError::ConfigSize(length));
        }
        return Ok(FrameHeader::Config { length });
    }
    if length == 0 || length > MAX_AUDIO_BYTES {
        return Err(FrameError::AudioSize(length));
    }
    Ok(FrameHeader::Audio { pts, length })
}

/// The frame at the front of a run of bytes, and how many bytes it takes up.
pub open spec fn frame_at(bytes: Seq<u8>) -> Result<(FrameContents, nat), FrameError> {
    match header_of(bytes) {
        Err(error) => Err(error),
        Ok(header) => {
            let end = HEADER_BYTES + header.length_of();
            if bytes.len() < end {
                Err(FrameError::Truncated)
            } else {
                Ok((header.with(bytes.subrange(HEADER_BYTES as int, end)), end as nat))
            }
        },
    }
}

/// Reads the frame at the front of `bytes`; what follows it is left alone.
pub fn parse_frame(bytes: &[u8]) -> (frame: Result<(Frame, usize), FrameError>)
    ensures
        match frame {
            Ok((frame, end)) => frame_at(bytes@) == Ok::<_, FrameError>((frame@, end as nat)),
            Err(error) => frame_at(bytes@) == Err::<(FrameContents, nat), _>(error),
        },
{
    match parse_header(bytes) {
        Err(error) => Err(error),
        Ok(header) => {
            let length: usize = header.payload_length();
            if bytes.len() - HEADER_BYTES < length {
                return Err(FrameError::Truncated);
            }
            let end: usize = HEADER_BYTES + length;
            let payload: Vec<u8> = vstd::slice::slice_to_vec(
                vstd::slice::slice_subrange(bytes, HEADER_BYTES, end),
            );
            Ok((header.frame(payload), end))
        },
    }
}

proof fn lemma_be_bytes_len(value: nat, width: nat)
    ensures
        be_bytes(value, width).len() == width,
    decreases width,
{
    if width > 0 {
        lemma_be_bytes_len(value / 256, (width - 1) as nat);
    }
}

/// Writing a number that fits and reading it back gives the number.
proof fn lemma_be_value_of_bytes(value: nat, width: nat)
    requires
        value < pow(256, width),
    ensures
        be_value(be_bytes(value, width)) == value,
    decreases width,
{
    if width == 0 {
        lemma_pow0(256);
    } else {
        let shorter = (width - 1) as nat;
        assert(pow(256, width) == 256 * pow(256, shorter)) by {
            reveal(pow);
        }
        lemma_be_value_of_bytes(value / 256, shorter);
        let bytes = be_bytes(value, width);
        assert(bytes.drop_last() =~= be_bytes(value / 256, shorter));
    }
}

/// Reading a run of bytes and writing the number back gives the bytes.
proof fn lemma_be_bytes_of_value(bytes: Seq<u8>)
    ensures
        be_bytes(be_value(bytes), bytes.len()) == bytes,
        be_value(bytes) < pow(256, bytes.len()),
    decreases bytes.len(),
{
    if bytes.len() == 0 {
        lemma_pow0(256);
        assert(be_bytes(be_value(bytes), 0) =~= bytes);
    } else {
        let shorter = bytes.drop_last();
        lemma_be_bytes_of_value(shorter);
        assert(pow(256, bytes.len()) == 256 * pow(256, shorter.len())) by {
            reveal(pow);
        }
        let value = be_value(bytes);
        assert(value / 256 == be_value(shorter) && value % 256 == bytes.last());
        assert(be_bytes(value, bytes.len()) =~= shorter.push(bytes.last()));
        assert(shorter.push(bytes.last()) =~= bytes);
    }
}

proof fn lemma_number_widths()
    ensures
        pow(256, 8) == u64::MAX + 1,
        pow(256, 4) == u32::MAX + 1,
{
    reveal(pow);
    reveal_with_fuel(pow, 9);
}

/// A frame that was sent is read back as it was, and nothing of what follows it is used up.
pub proof fn sent_frames_are_read_back(frame: FrameContents, rest: Seq<u8>)
    requires
        frame.is_sendable(),
    ensures
        frame_at(frame.encoded() + rest) == Ok::<_, FrameError>((frame, frame.encoded().len())),
        (frame.encoded() + rest).skip(frame.encoded().len() as int) == rest,
{
    let (pts, payload) = match frame {
        FrameContents::Config(config) => (NO_PTS, config),
        FrameContents::Audio { pts, data } => (pts, data),
    };
    lemma_number_widths();
    lemma_be_bytes_len(pts as nat, 8);
    lemma_be_bytes_len(payload.len(), 4);
    lemma_be_value_of_bytes(pts as nat, 8);
    lemma_be_value_of_bytes(payload.len(), 4);
    let bytes = frame.encoded() + rest;
    assert(bytes.take(8) =~= be_bytes(pts as nat, 8));
    assert(bytes.subrange(8, 12) =~= be_bytes(payload.len(), 4));
    assert(bytes.subrange(12, (12 + payload.len()) as int) =~= payload);
    assert(bytes.skip(frame.encoded().len() as int) =~= rest);
}

/// A frame that is read could have been sent, and takes up exactly the bytes that it was sent as.
pub proof fn read_frames_were_sent(bytes: Seq<u8>)
    ensures
        frame_at(bytes) matches Ok((frame, end)) ==> frame.is_sendable() && end <= bytes.len()
            && bytes.take(end as int) == frame.encoded(),
{
    if frame_at(bytes) is Ok {
        let (frame, end) = frame_at(bytes)->Ok_0;
        lemma_number_widths();
        lemma_be_bytes_of_value(bytes.take(8));
        lemma_be_bytes_of_value(bytes.subrange(8, 12));
        assert(bytes.take(end as int) =~= bytes.take(8) + bytes.subrange(8, 12) + bytes.subrange(
            12,
            end as int,
        ));
    }
}

/// The number that four bytes stand for.
pub open spec fn four_bytes(a: u8, b: u8, c: u8, d: u8) -> int {
    a * 0x100_0000 + b * 0x1_0000 + c * 0x100 + d
}

proof fn lemma_be_value_of_four(bytes: Seq<u8>)
    requires
        bytes.len() == 4,
    ensures
        be_value(bytes) == four_bytes(bytes[0], bytes[1], bytes[2], bytes[3]),
{
    reveal_with_fuel(be_value, 5);
    let three = bytes.drop_last();
    let two = three.drop_last();
    let one = two.drop_last();
    assert(be_value(one) == bytes[0]);
    assert(be_value(two) == bytes[0] * 256 + bytes[1]);
    assert(be_value(three) == (bytes[0] * 256 + bytes[1]) * 256 + bytes[2]);
}

proof fn lemma_be_value_of_eight(bytes: Seq<u8>)
    requires
        bytes.len() == 8,
    ensures
        be_value(bytes) == four_bytes(bytes[0], bytes[1], bytes[2], bytes[3]) * 0x1_0000_0000
            + four_bytes(bytes[4], bytes[5], bytes[6], bytes[7]),
{
    let seven = bytes.drop_last();
    let six = seven.drop_last();
    let five = six.drop_last();
    let four = five.drop_last();
    lemma_be_value_of_four(four);
    assert(be_value(five) == be_value(four) * 256 + bytes[4]);
    assert(be_value(six) == be_value(five) * 256 + bytes[5]);
    assert(be_value(seven) == be_value(six) * 256 + bytes[6]);
    assert(be_value(bytes) == be_value(seven) * 256 + bytes[7]);
}

/// A frame is read byte by byte. Its first eight bytes, if they are all ones, mark a configuration,
/// and otherwise are the timestamp of audio; the next four are the length of the payload, all ones
/// for a configuration if the other end stopped. A configuration holds 1 to 1024 bytes and audio 1 to
/// 1048576, every other length is refused by its name, and the payload is what follows the twelve
/// bytes, no more and no less.
pub proof fn frames_are_read_byte_by_byte(bytes: Seq<u8>)
    ensures
        bytes.len() < 12 ==> frame_at(bytes) == Err::<(FrameContents, nat), _>(
            FrameError::Truncated,
        ),
        bytes.len() >= 12 ==> {
            let high = four_bytes(bytes[0], bytes[1], bytes[2], bytes[3]);
            let low = four_bytes(bytes[4], bytes[5], bytes[6], bytes[7]);
            let length = four_bytes(bytes[8], bytes[9], bytes[10], bytes[11]);
            let marked = high == 0xffff_ffff && low == 0xffff_ffff;
            let fits = bytes.len() >= 12 + length;
            let payload = bytes.skip(12).take(length);
            &&& marked && length == 0xffff_ffff ==> frame_at(bytes) == Err::<
                (FrameContents, nat),
                _,
            >(FrameError::Stopped)
            &&& marked && length != 0xffff_ffff && (length == 0 || length > 1024) ==> frame_at(bytes)
                == Err::<(FrameContents, nat), _>(FrameError::ConfigSize(length as u32))
            &&& !marked && (length == 0 || length > 1_048_576) ==> frame_at(bytes) == Err::<
                (FrameContents, nat),
                _,
            >(FrameError::AudioSize(length as u32))
            &&& marked && 1 <= length <= 1024 && fits ==> frame_at(bytes) == Ok::<_, FrameError>(
                (FrameContents::Config(payload), (12 + length) as nat),
            )
            &&& !marked && 1 <= length <= 1_048_576 && fits ==> frame_at(bytes) == Ok::<
                _,
                FrameError,
            >(
                (
                    FrameContents::Audio {
                        pts: (high * 0x1_0000_0000 + low) as u64,
                        data: payload,
                    },
                    (12 + length) as nat,
                ),
            )
            &&& (marked && 1 <= length <= 1024 || !marked && 1 <= length <= 1_048_576) && !fits ==>
                frame_at(bytes) == Err::<(FrameContents, nat), _>(FrameError::Truncated)
        },
{
    if bytes.len() >= 12 {
        let stamp = bytes.take(8);
        let size = bytes.subrange(8, 12);
        lemma_be_value_of_eight(stamp);
        lemma_be_value_of_four(size);
        let high = four_bytes(bytes[0], bytes[1], bytes[2], bytes[3]);
        let low = four_bytes(bytes[4], bytes[5], bytes[6], bytes[7]);
        let length = four_bytes(bytes[8], bytes[9], bytes[10], bytes[11]);
        assert(be_value(stamp) == high * 0x1_0000_0000 + low);
        assert(be_value(size) == length);
        if bytes.len() >= 12 + length {
            assert(bytes.skip(12).take(length) =~= bytes.subrange(12, 12 + length));
        }
    }
}

/// The payload and the timestamp are in a frame as they came.
pub proof fn headers_keep_payload_and_timestamp(header: FrameHeader, payload: Seq<u8>)
    ensures
        header matches FrameHeader::Config { length } ==> header.length_of() == length
            && header.with(payload) == FrameContents::Config(payload),
        header matches FrameHeader::Audio { pts, length } ==> header.length_of() == length
            && header.with(payload) == (FrameContents::Audio { pts, data: payload }),
{
}

/// A length that is refused is named: the number in the error's words is read back as the length.
pub proof fn refused_lengths_are_named(length: u32)
    ensures
        ({
            let config = FrameError::ConfigSize(length).text();
            let audio = FrameError::AudioSize(length).text();
            &&& "config packet size invalid: "@.is_prefix_of(config)
            &&& read_decimal(config.skip("config packet size invalid: "@.len() as int)) == length
            &&& "data packet size invalid: "@.is_prefix_of(audio)
            &&& read_decimal(audio.skip("data packet size invalid: "@.len() as int)) == length
        }),
{
    let digits = decimal(length as nat);
    decimals_are_read_back(length as nat);
    let config = "config packet size invalid: "@;
    let audio = "data packet size invalid: "@;
    assert(config.is_prefix_of(config + digits) && (config + digits).skip(config.len() as int)
        =~= digits);
    assert(audio.is_prefix_of(audio + digits) && (audio + digits).skip(audio.len() as int)
        =~= digits);
}

/// The request asks for the audio of the other end in one line of fifteen characters.
pub proof fn the_request_asks_for_audio()
    ensures
        AUDIO_REQUEST@.len() == 15,
        AUDIO_REQUEST@.take(4) == seq!['G', 'E', 'T', ' '],
        AUDIO_REQUEST@.skip(4) == "/v1/audio"@ + seq!['.', '2'],
{
    reveal_strlit("GET /v1/audio.2");
    reveal_strlit("/v1/audio");
    assert(AUDIO_REQUEST@.take(4) =~= seq!['G', 'E', 'T', ' ']);
    assert(AUDIO_REQUEST@.skip(4) =~= "/v1/audio"@ + seq!['.', '2']);
}

} // verus!
