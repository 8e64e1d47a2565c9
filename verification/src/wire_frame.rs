//! The frame wire format of the JavaScript graph host: a JSON object per
//! frame, read into a typed payload.
use vstd::prelude::*;

use crate::audio::{audio_made, AudioData, AudioLayout, PcmSampleFormat};
use crate::error::MuxivaError;
use crate::frame_buffer::FrameBuffer;
use crate::registry::str_equal;
use crate::video::{rgba8_made, VideoData};

verus! {

/// One required field of a wire frame as the JSON reader finds it.
#[derive(Clone, Debug)]
pub enum WireField<T> {
    /// The object has no such key.
    Missing,
    /// The key holds a value of another type.
    Mistyped,
    /// The key holds this value.
    Given(T),
}

/// The fields of a wire frame, as read from its JSON value. `object` says
/// whether the value is an object at all; `bytes` holds the byte list, or
/// the reader's message when the key holds no list of bytes; the optional
/// fields are present when the key holds a value of their type.
#[derive(Clone, Debug)]
pub struct WireFrame {
    pub object: bool,
    pub kind: WireField<String>,
    pub sequence: WireField<i64>,
    pub text: WireField<String>,
    pub bytes: Option<Result<Vec<u8>, String>>,
    pub media_type: Option<String>,
    pub sample_rate_hz: WireField<u64>,
    pub channels: WireField<u64>,
    pub samples_per_channel: WireField<u64>,
    pub format: WireField<String>,
    pub planar: Option<bool>,
    pub pixel_format: Option<String>,
    pub width: WireField<u64>,
    pub height: WireField<u64>,
    pub stride: WireField<u64>,
}

/// A decoded payload.
#[derive(Debug)]
pub enum WirePayload {
    Text(String),
    Byte { bytes: Vec<u8>, media_type: Option<String> },
    Audio(AudioData),
    Video(VideoData),
}

/// A decoded frame: its sequence number and payload.
#[derive(Debug)]
pub struct DecodedWireFrame {
    pub sequence: u64,
    pub payload: WirePayload,
}

/// Why a wire frame is refused: a message for a malformed field, or the
/// error of building the audio or video payload.
#[derive(Debug)]
pub enum WireError {
    Invalid(String),
    Media(MuxivaError),
}

/// The message for a required field that is absent.
pub open spec fn required(name: Seq<char>) -> Seq<char> {
    "frame."@ + name + " is required"@
}

/// The message for an integer that does not fit the type it is read into.
pub open spec fn out_of_range() -> Seq<char> {
    "out of range integral type conversion attempted"@
}

/// Why a required field is unusable: absent, or of another type.
pub open spec fn field_problem<T>(f: WireField<T>, name: Seq<char>, wrong: Seq<char>) -> Option<Seq<char>> {
    match f {
        WireField::Missing => Some(required(name)),
        WireField::Mistyped => Some(wrong),
        WireField::Given(_) => None,
    }
}

/// Why a required unsigned field is unusable as a value of at most `max`.
pub open spec fn bounded_problem(f: WireField<u64>, name: Seq<char>, max: int) -> Option<Seq<char>> {
    match f {
        WireField::Missing => Some(required(name)),
        WireField::Mistyped => Some("frame."@ + name + " must be an integer"@),
        WireField::Given(v) => if v > max {
            Some(out_of_range())
        } else {
            None
        },
    }
}

/// The value of a given field.
pub open spec fn given<T>(f: WireField<T>) -> T {
    match f {
        WireField::Given(v) => v,
        _ => arbitrary(),
    }
}

/// The sample format a wire frame names.
pub open spec fn format_named(t: Seq<char>) -> Option<PcmSampleFormat> {
    if t == "u8"@ {
        Some(PcmSampleFormat::U8)
    } else if t == "i16le"@ {
        Some(PcmSampleFormat::I16Le)
    } else if t == "i24le"@ {
        Some(PcmSampleFormat::I24Le)
    } else if t == "i32le"@ {
        Some(PcmSampleFormat::I32Le)
    } else if t == "f32le"@ {
        Some(PcmSampleFormat::F32Le)
    } else if t == "f64le"@ {
        Some(PcmSampleFormat::F64Le)
    } else {
        None
    }
}

/// Why the byte list is unusable.
pub open spec fn bytes_problem(b: Option<Result<Vec<u8>, String>>) -> Option<Seq<char>> {
    match b {
        None => Some(required("bytes"@)),
        Some(Err(m)) => Some(m@),
        Some(Ok(_)) => None,
    }
}

/// The bytes of a usable byte list.
pub open spec fn bytes_of(b: Option<Result<Vec<u8>, String>>) -> Seq<u8> {
    match b {
        Some(Ok(v)) => v@,
        _ => Seq::empty(),
    }
}

/// The kind words of the wire format.
pub open spec fn wire_kind(w: WireFrame) -> Seq<char> {
    match w.kind {
        WireField::Given(k) => k@,
        _ => Seq::empty(),
    }
}

/// Why an audio frame's fields are unusable, in the order they are read:
/// bytes, sample rate, channels, samples per channel, format.
pub open spec fn audio_fields_problem(w: WireFrame) -> Option<Seq<char>> {
    if bytes_problem(w.bytes) is Some {
        bytes_problem(w.bytes)
    } else if bounded_problem(w.sample_rate_hz, "sampleRateHz"@, u32::MAX as int) is Some {
        bounded_problem(w.sample_rate_hz, "sampleRateHz"@, u32::MAX as int)
    } else if bounded_problem(w.channels, "channels"@, u16::MAX as int) is Some {
        bounded_problem(w.channels, "channels"@, u16::MAX as int)
    } else if field_problem(w.samples_per_channel, "samplesPerChannel"@, "frame.samplesPerChannel must be an integer"@)
        is Some {
        field_problem(w.samples_per_channel, "samplesPerChannel"@, "frame.samplesPerChannel must be an integer"@)
    } else if field_problem(w.format, "format"@, "frame.format must be a string"@) is Some {
        field_problem(w.format, "format"@, "frame.format must be a string"@)
    } else if format_named(given(w.format)@) is None {
        Some("unsupported PCM sample format"@)
    } else {
        None
    }
}

/// Why a video frame's fields are unusable, in the order they are read:
/// the pixel format (RGBA8 when absent), bytes, width, height, stride.
pub open spec fn video_fields_problem(w: WireFrame) -> Option<Seq<char>> {
    if w.pixel_format is Some && w.pixel_format->0@ != "rgba8"@ {
        Some("only rgba8 video is supported by the TypeScript graph wire protocol"@)
    } else if bytes_problem(w.bytes) is Some {
        bytes_problem(w.bytes)
    } else if bounded_problem(w.width, "width"@, u32::MAX as int) is Some {
        bounded_problem(w.width, "width"@, u32::MAX as int)
    } else if bounded_problem(w.height, "height"@, u32::MAX as int) is Some {
        bounded_problem(w.height, "height"@, u32::MAX as int)
    } else if bounded_problem(w.stride, "stride"@, usize::MAX as int) is Some {
        bounded_problem(w.stride, "stride"@, usize::MAX as int)
    } else {
        None
    }
}

/// Why a wire frame is refused before its payload is built: not an object,
/// then its sequence, its kind, and the fields its kind reads; a byte
/// frame's media type, when it has one, is refused with
/// `media_type_problem`.
pub open spec fn wire_problem(w: WireFrame, media_type_problem: Option<Seq<char>>) -> Option<Seq<char>> {
    if !w.object {
        Some("frame must be an object"@)
    } else if field_problem(w.sequence, "sequence"@, "frame.sequence must be an integer"@) is Some {
        field_problem(w.sequence, "sequence"@, "frame.sequence must be an integer"@)
    } else if w.kind is Missing {
        Some(required("kind"@))
    } else if !(w.kind is Given && (wire_kind(w) == "text"@ || wire_kind(w) == "byte"@ || wire_kind(w) == "audio"@
        || wire_kind(w) == "video"@)) {
        Some("frame.kind must be text, byte, audio, or video"@)
    } else if wire_kind(w) == "text"@ {
        field_problem(w.text, "text"@, "frame.text must be a string"@)
    } else if wire_kind(w) == "byte"@ {
        if bytes_problem(w.bytes) is Some {
            bytes_problem(w.bytes)
        } else if w.media_type is Some {
            media_type_problem
        } else {
            None
        }
    } else if wire_kind(w) == "audio"@ {
        audio_fields_problem(w)
    } else {
        video_fields_problem(w)
    }
}

/// The layout a wire frame declares: planar only when it says so.
pub open spec fn wire_layout(w: WireFrame) -> AudioLayout {
    if w.planar == Some(true) {
        AudioLayout::Planar
    } else {
        AudioLayout::Interleaved
    }
}

/// The audio payload outcome of a decode result.
pub open spec fn wire_audio(r: Result<DecodedWireFrame, WireError>) -> Result<AudioData, MuxivaError> {
    match r {
        Ok(DecodedWireFrame { payload: WirePayload::Audio(a), .. }) => Ok(a),
        Err(WireError::Media(e)) => Err(e),
        _ => Err(arbitrary()),
    }
}

/// The video payload outcome of a decode result.
pub open spec fn wire_video(r: Result<DecodedWireFrame, WireError>) -> Result<VideoData, MuxivaError> {
    match r {
        Ok(DecodedWireFrame { payload: WirePayload::Video(v), .. }) => Ok(v),
        Err(WireError::Media(e)) => Err(e),
        _ => Err(arbitrary()),
    }
}

/// Whether `r` is the outcome for a payload that was built: a negative
/// sequence is refused, otherwise the frame carries the sequence.
pub open spec fn sequenced(r: Result<DecodedWireFrame, WireError>, sequence: i64) -> bool {
    if sequence < 0 {
        r matches Err(WireError::Invalid(m)) && m@ == "sequence must be non-negative"@
    } else {
        r matches Ok(d) && d.sequence == sequence
    }
}

fn invalid(message: &str) -> (r: Result<DecodedWireFrame, WireError>)
    ensures
        r matches Err(WireError::Invalid(m)) && m@ == message@,
{
    Err(WireError::Invalid(message.to_owned()))
}

fn required_error(name: &str) -> (r: Result<DecodedWireFrame, WireError>)
    ensures
        r matches Err(WireError::Invalid(m)) && m@ == required(name@),
{
    let mut text = "frame.".to_owned();
    text.append(name);
    text.append(" is required");
    Err(WireError::Invalid(text))
}

fn integer_error(name: &str) -> (r: Result<DecodedWireFrame, WireError>)
    ensures
        r matches Err(WireError::Invalid(m)) && m@ == "frame."@ + name@ + " must be an integer"@,
{
    let mut text = "frame.".to_owned();
    text.append(name);
    text.append(" must be an integer");
    Err(WireError::Invalid(text))
}

fn bounded_field(f: &WireField<u64>, name: &str, max: u64) -> (r: Result<u64, Result<DecodedWireFrame, WireError>>)
    ensures
        match bounded_problem(*f, name@, max as int) {
            Some(m) => r matches Err(e) && e matches Err(WireError::Invalid(t)) && t@ == m,
            None => r == Ok::<u64, Result<DecodedWireFrame, WireError>>(given(*f)),
        },
{
    match f {
        WireField::Missing => Err(required_error(name)),
        WireField::Mistyped => Err(integer_error(name)),
        WireField::Given(v) => if *v > max {
            Err(invalid("out of range integral type conversion attempted"))
        } else {
            Ok(*v)
        },
    }
}

fn take_bytes(b: &Option<Result<Vec<u8>, String>>) -> (r: Result<Vec<u8>, Result<DecodedWireFrame, WireError>>)
    ensures
        match bytes_problem(*b) {
            Some(m) => r matches Err(e) && e matches Err(WireError::Invalid(t)) && t@ == m,
            None => r matches Ok(v) && v@ == bytes_of(*b),
        },
{
    match b {
        None => Err(required_error("bytes")),
        Some(Err(m)) => Err(Err(WireError::Invalid(m.clone()))),
        Some(Ok(v)) => Ok(v.clone()),
    }
}

fn parse_format(t: &str) -> (r: Option<PcmSampleFormat>)
    ensures
        r == format_named(t@),
{
    if str_equal(t, "u8") {
        Some(PcmSampleFormat::U8)
    } else if str_equal(t, "i16le") {
        Some(PcmSampleFormat::I16Le)
    } else if str_equal(t, "i24le") {
        Some(PcmSampleFormat::I24Le)
    } else if str_equal(t, "i32le") {
        Some(PcmSampleFormat::I32Le)
    } else if str_equal(t, "f32le") {
        Some(PcmSampleFormat::F32Le)
    } else if str_equal(t, "f64le") {
        Some(PcmSampleFormat::F64Le)
    } else {
        None
    }
}

fn finish(sequence: i64, payload: WirePayload) -> (r: Result<DecodedWireFrame, WireError>)
    ensures
        sequenced(r, sequence),
        r matches Ok(d) ==> d.payload == payload,
{
    if sequence < 0 {
        invalid("sequence must be non-negative")
    } else {
        Ok(DecodedWireFrame { sequence: sequence as u64, payload })
    }
}

/// Decodes a wire frame (see `wire_problem` for the messages of a malformed
/// frame). Text and bytes are taken as given; audio is what
/// `AudioData::new` makes of the bytes, rate, channels, format, declared
/// layout and samples per channel; video is what `VideoData::rgba8` makes of
/// the bytes, width, height and stride. A built payload is then refused
/// when the sequence is negative. `media_type_problem` is what the runtime's
/// media-type validation says of the frame's `mediaType`.
pub fn decode_wire_frame(w: &WireFrame, media_type_problem: Option<String>) -> (r: Result<DecodedWireFrame, WireError>)
    ensures
        match wire_problem(
            *w,
            match media_type_problem {
                Some(m) => Some(m@),
                None => None,
            },
        ) {
            Some(m) => r matches Err(WireError::Invalid(t)) && t@ == m,
            None => {
                let seq = given(w.sequence);
                if wire_kind(*w) == "text"@ {
                    sequenced(r, seq) && (r matches Ok(d) ==> d.payload matches WirePayload::Text(t) && t@ == given(
                        w.text,
                    )@)
                } else if wire_kind(*w) == "byte"@ {
                    sequenced(r, seq) && (r matches Ok(d) ==> d.payload matches WirePayload::Byte { bytes, media_type }
                        && bytes@ == bytes_of(w.bytes) && media_type == w.media_type)
                } else if wire_kind(*w) == "audio"@ {
                    let args_ok = audio_made(
                        wire_audio(r),
                        bytes_of(w.bytes),
                        given(w.sample_rate_hz) as u32,
                        given(w.channels) as u16,
                        format_named(given(w.format)@)->0,
                        wire_layout(*w),
                        given(w.samples_per_channel),
                    );
                    if r matches Err(WireError::Media(_)) {
                        args_ok
                    } else {
                        sequenced(r, seq) && (r matches Ok(_) ==> args_ok)
                    }
                } else {
                    let args_ok = rgba8_made(
                        wire_video(r),
                        bytes_of(w.bytes),
                        given(w.width) as u32,
                        given(w.height) as u32,
                        given(w.stride) as usize,
                    );
                    if r matches Err(WireError::Media(_)) {
                        args_ok
                    } else {
                        sequenced(r, seq) && (r matches Ok(_) ==> args_ok)
                    }
                }
            },
        },
{
    if !w.object {
        return invalid("frame must be an object");
    }
    let sequence: i64 = match &w.sequence {
        WireField::Missing => {
            return required_error("sequence");
        },
        WireField::Mistyped => {
            return invalid("frame.sequence must be an integer");
        },
        WireField::Given(v) => *v,
    };
    let kind = match &w.kind {
        WireField::Missing => {
            return required_error("kind");
        },
        WireField::Mistyped => {
            return invalid("frame.kind must be text, byte, audio, or video");
        },
        WireField::Given(k) => k.as_str(),
    };
    if str_equal(kind, "text") {
        match &w.text {
            WireField::Missing => required_error("text"),
            WireField::Mistyped => invalid("frame.text must be a string"),
            WireField::Given(t) => finish(sequence, WirePayload::Text(t.clone())),
        }
    } else if str_equal(kind, "byte") {
        let bytes = match take_bytes(&w.bytes) {
            Ok(b) => b,
            Err(e) => {
                return e;
            },
        };
        if w.media_type.is_some() {
            match media_type_problem {
                Some(m) => {
                    return Err(WireError::Invalid(m));
                },
                None => {},
            }
        }
        finish(sequence, WirePayload::Byte { bytes, media_type: w.media_type.clone() })
    } else if str_equal(kind, "audio") {
        let bytes = match take_bytes(&w.bytes) {
            Ok(b) => b,
            Err(e) => {
                return e;
            },
        };
        let rate = match bounded_field(&w.sample_rate_hz, "sampleRateHz", 0xffff_ffff) {
            Ok(v) => v as u32,
            Err(e) => {
                return e;
            },
        };
        let channels = match bounded_field(&w.channels, "channels", 0xffff) {
            Ok(v) => v as u16,
            Err(e) => {
                return e;
            },
        };
        let samples = match &w.samples_per_channel {
            WireField::Missing => {
                return required_error("samplesPerChannel");
            },
            WireField::Mistyped => {
                return invalid("frame.samplesPerChannel must be an integer");
            },
            WireField::Given(v) => *v,
        };
        let format = match &w.format {
            WireField::Missing => {
                return required_error("format");
            },
            WireField::Mistyped => {
                return invalid("frame.format must be a string");
            },
            WireField::Given(t) => match parse_format(t.as_str()) {
                Some(f) => f,
                None => {
                    return invalid("unsupported PCM sample format");
                },
            },
        };
        let layout = match w.planar {
            Some(true) => AudioLayout::Planar,
            _ => AudioLayout::Interleaved,
        };
        match AudioData::new(FrameBuffer::from_vec(bytes), rate, channels, format, layout, samples) {
            Ok(a) => finish(sequence, WirePayload::Audio(a)),
            Err(e) => Err(WireError::Media(e)),
        }
    } else if str_equal(kind, "video") {
        match &w.pixel_format {
            Some(p) => if !str_equal(p.as_str(), "rgba8") {
                return invalid("only rgba8 video is supported by the TypeScript graph wire protocol");
            },
            None => {},
        }
        let bytes = match take_bytes(&w.bytes) {
            Ok(b) => b,
            Err(e) => {
                return e;
            },
        };
        let width = match bounded_field(&w.width, "width", 0xffff_ffff) {
            Ok(v) => v as u32,
            Err(e) => {
                return e;
            },
        };
        let height = match bounded_field(&w.height, "height", 0xffff_ffff) {
            Ok(v) => v as u32,
            Err(e) => {
                return e;
            },
        };
        let stride = match bounded_field(&w.stride, "stride", usize::MAX as u64) {
            Ok(v) => v as usize,
            Err(e) => {
                return e;
            },
        };
        match VideoData::rgba8(FrameBuffer::from_vec(bytes), width, height, stride) {
            Ok(v) => finish(sequence, WirePayload::Video(v)),
            Err(e) => Err(WireError::Media(e)),
        }
    } else {
        invalid("frame.kind must be text, byte, audio, or video")
    }
}

} // verus!
