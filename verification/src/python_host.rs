//! The studio's Python development host protocol: what a frame that the
//! host sends back becomes, and what each host reply to a process call means.
use vstd::prelude::*;

use crate::audio::{audio_made, AudioData, AudioLayout, PcmSampleFormat};
use crate::error::{code_prefix, ErrorCategory, ErrorContext, MuxivaError};
use crate::frame_buffer::FrameBuffer;
use crate::registry::str_equal;

verus! {

/// The most hexadecimal characters of PCM one host frame may carry (4 MiB
/// of audio).
pub const MAX_PCM_HEX_CHARS: usize = 8388608;

/// The stable code of every host protocol error.
pub open spec fn host_code() -> Seq<char> {
    "MUXIVA-STUDIO-PYTHON-HOST"@
}

/// A host protocol error with `message`.
pub open spec fn host_failure(e: MuxivaError, message: Seq<char>) -> bool {
    &&& e.spec_category() == ErrorCategory::Internal
    &&& e.spec_code() == host_code()
    &&& e.spec_message() == message
    &&& e.spec_contexts() == Seq::<ErrorContext>::empty()
    &&& e.spec_cause() is None
}

fn host_error(message: &str) -> (e: MuxivaError)
    ensures
        host_failure(e, message@),
{
    proof {
        reveal_strlit("MUXIVA-STUDIO-PYTHON-HOST");
        assert("MUXIVA-STUDIO-PYTHON-HOST"@.subrange(0, 7) =~= code_prefix());
    }
    MuxivaError::new(ErrorCategory::Internal, "MUXIVA-STUDIO-PYTHON-HOST", message)
}

/// The value of one hexadecimal digit character.
pub open spec fn hex_digit_value(b: u8) -> Option<u8> {
    if 48 <= b <= 57 {
        Some((b - 48) as u8)
    } else if 97 <= b <= 102 {
        Some((b - 87) as u8)
    } else if 65 <= b <= 70 {
        Some((b - 55) as u8)
    } else {
        None
    }
}

/// The byte that a two-character pair reads as in base 16 when parsed as an
/// unsigned byte: two hexadecimal digits, or `+` and one digit.
pub open spec fn pair_byte(a: u8, b: u8) -> Option<u8> {
    if a == 43 {
        hex_digit_value(b)
    } else {
        match (hex_digit_value(a), hex_digit_value(b)) {
            (Some(x), Some(y)) => Some((x * 16 + y) as u8),
            _ => None,
        }
    }
}

/// The bytes of the first `n` pairs of `h`, or `None` when one of them is
/// not a byte in base 16.
pub open spec fn hex_pairs(h: Seq<u8>, n: int) -> Option<Seq<u8>>
    decreases n,
{
    if n <= 0 {
        Some(Seq::empty())
    } else {
        match hex_pairs(h, n - 1) {
            None => None,
            Some(bs) => match pair_byte(h[2 * n - 2], h[2 * n - 1]) {
                Some(x) => Some(bs.push(x)),
                None => None,
            },
        }
    }
}

/// The bytes that a text of hexadecimal pairs spells.
pub open spec fn hex_decode(h: Seq<u8>) -> Option<Seq<u8>> {
    hex_pairs(h, (h.len() / 2) as int)
}

proof fn lemma_hex_pairs_none(h: Seq<u8>, m: int, n: int)
    requires
        0 <= m <= n,
        hex_pairs(h, m) is None,
    ensures
        hex_pairs(h, n) is None,
    decreases n - m,
{
    if m < n {
        lemma_hex_pairs_none(h, m, n - 1);
    }
}

proof fn lemma_hex_pairs_len(h: Seq<u8>, n: int)
    requires
        0 <= n,
        hex_pairs(h, n) is Some,
    ensures
        hex_pairs(h, n)->0.len() == n,
    decreases n,
{
    if n > 0 {
        lemma_hex_pairs_len(h, n - 1);
    }
}

fn digit_value(b: u8) -> (r: Option<u8>)
    ensures
        r == hex_digit_value(b),
{
    if 48 <= b && b <= 57 {
        Some(b - 48)
    } else if 97 <= b && b <= 102 {
        Some(b - 87)
    } else if 65 <= b && b <= 70 {
        Some(b - 55)
    } else {
        None
    }
}

/// Why hexadecimal PCM from the host is refused, checked in this order: its
/// size, its digits, the sample rate, the channel count, and a zero channel
/// count. `h` is the UTF-8 text of the PCM.
pub open spec fn python_pcm_problem(h: Seq<u8>, sample_rate_hz: Option<u64>, channels: Option<u64>) -> Option<Seq<char>> {
    if h.len() % 2 != 0 || h.len() > MAX_PCM_HEX_CHARS {
        Some("Python audio PCM has an invalid size"@)
    } else if hex_decode(h) is None {
        Some("Python audio PCM is not hexadecimal"@)
    } else if sample_rate_hz is None || sample_rate_hz->0 > u32::MAX {
        Some("Python audio Frame has an invalid sample rate"@)
    } else if channels is None || channels->0 > u16::MAX {
        Some("Python audio Frame has invalid channels"@)
    } else if channels->0 == 0 {
        Some("Python audio Frame has invalid PCM length"@)
    } else {
        None
    }
}

/// Reads 16-bit little-endian interleaved PCM that the host sent as
/// hexadecimal text (see `python_pcm_problem` for when it is refused). The
/// samples per channel are the whole frames the bytes hold, and the audio
/// is what `AudioData::new` makes of them.
pub fn decode_python_pcm(pcm_hex: &str, sample_rate_hz: Option<u64>, channels: Option<u64>) -> (r: Result<
    AudioData,
    MuxivaError,
>)
    ensures
        match python_pcm_problem(vstd::utf8::encode_utf8(pcm_hex@), sample_rate_hz, channels) {
            Some(m) => r matches Err(e) && host_failure(e, m),
            None => audio_made(
                r,
                hex_decode(vstd::utf8::encode_utf8(pcm_hex@))->0,
                sample_rate_hz->0 as u32,
                channels->0 as u16,
                PcmSampleFormat::I16Le,
                AudioLayout::Interleaved,
                (hex_decode(vstd::utf8::encode_utf8(pcm_hex@))->0.len() as int / (2 * channels->0 as int)) as u64,
            ),
        },
{
    let h = pcm_hex.as_bytes();
    let ghost hs = h@;
    if h.len() % 2 != 0 || h.len() > MAX_PCM_HEX_CHARS {
        return Err(host_error("Python audio PCM has an invalid size"));
    }
    let pairs = h.len() / 2;
    let mut bytes: Vec<u8> = Vec::new();
    let mut i: usize = 0;
    while i < pairs
        invariant
            hs == h@,
            hs == vstd::utf8::encode_utf8(pcm_hex@),
            hs.len() <= MAX_PCM_HEX_CHARS,
            pairs == hs.len() / 2,
            hs.len() % 2 == 0,
            0 <= i <= pairs,
            hex_pairs(hs, i as int) == Some(bytes@),
        decreases pairs - i,
    {
        let a = h[2 * i];
        let b = h[2 * i + 1];
        let value: Option<u8> = if a == 43 {
            digit_value(b)
        } else {
            match (digit_value(a), digit_value(b)) {
                (Some(x), Some(y)) => Some(x * 16 + y),
                _ => None,
            }
        };
        assert(a == hs[2 * (i + 1) - 2] && b == hs[2 * (i + 1) - 1]);
        assert(value == pair_byte(a, b));
        match value {
            Some(x) => {
                bytes.push(x);
            },
            None => {
                proof {
                    assert(hex_pairs(hs, i + 1) is None);
                    lemma_hex_pairs_none(hs, i + 1, pairs as int);
                }
                return Err(host_error("Python audio PCM is not hexadecimal"));
            },
        }
        i = i + 1;
    }
    proof {
        lemma_hex_pairs_len(hs, pairs as int);
    }
    let rate: u32 = match sample_rate_hz {
        Some(v) => if v <= 0xffff_ffff {
            v as u32
        } else {
            return Err(host_error("Python audio Frame has an invalid sample rate"));
        },
        None => {
            return Err(host_error("Python audio Frame has an invalid sample rate"));
        },
    };
    let count: u16 = match channels {
        Some(v) => if v <= 0xffff {
            v as u16
        } else {
            return Err(host_error("Python audio Frame has invalid channels"));
        },
        None => {
            return Err(host_error("Python audio Frame has invalid channels"));
        },
    };
    if count == 0 {
        return Err(host_error("Python audio Frame has invalid PCM length"));
    }
    let samples = (bytes.len() / (2 * (count as usize))) as u64;
    let ghost decoded = bytes@;
    AudioData::new(
        FrameBuffer::from_vec(bytes),
        rate,
        count,
        PcmSampleFormat::I16Le,
        AudioLayout::Interleaved,
        samples,
    )
}

/// The fields of a frame the host sends back, as read from its JSON reply:
/// each is present only when the reply holds it with the right type
/// (`sample_rate_hz`, `channels` and `schema_version` when they are
/// unsigned integers).
#[derive(Clone, Debug)]
pub struct PythonWire {
    pub kind: Option<String>,
    pub text: Option<String>,
    pub pcm_hex: Option<String>,
    pub sample_rate_hz: Option<u64>,
    pub channels: Option<u64>,
    pub topic: Option<String>,
    pub schema_version: Option<u64>,
    pub source: Option<String>,
    pub payload: Option<String>,
}

/// An event the host publishes: its topic, schema version, source node and
/// text payload.
#[derive(Clone, Debug)]
pub struct PythonEvent {
    pub topic: String,
    pub schema_version: u32,
    pub source: String,
    pub payload: String,
}

/// The payload of a frame the host sends back.
#[derive(Debug)]
pub enum PythonPayload {
    Text(String),
    Audio(AudioData),
    Event(PythonEvent),
}

/// The view of an optional text.
pub open spec fn opt_text(t: Option<String>) -> Option<Seq<char>> {
    match t {
        Some(s) => Some(s@),
        None => None,
    }
}

/// The schema version an event gets: the one given when it fits 32 bits,
/// else 1.
pub open spec fn event_schema(v: Option<u64>) -> u32 {
    match v {
        Some(x) => if x <= u32::MAX {
            x as u32
        } else {
            1
        },
        None => 1,
    }
}

/// The audio outcome that a payload outcome holds.
pub open spec fn audio_part(r: Result<PythonPayload, MuxivaError>) -> Result<AudioData, MuxivaError> {
    match r {
        Ok(PythonPayload::Audio(a)) => Ok(a),
        Err(e) => Err(e),
        Ok(_) => Err(arbitrary()),
    }
}

/// What the runtime's name validation says of an event the host sends:
/// the error of its topic as a namespaced name, the error of its schema
/// version, and whether its source (the given one, else the node) is a
/// valid node identity.
#[derive(Debug)]
pub struct EventChecks {
    pub topic: Option<MuxivaError>,
    pub schema_version: Option<MuxivaError>,
    pub source_valid: bool,
}

/// Reads the payload of a frame the host sends back for node `node_id`:
/// text needs its text, audio its PCM (see `decode_python_pcm`), an event
/// its topic, checked in this order: the topic is present, then valid, its
/// schema version valid, its source valid (`checks` holds what the
/// runtime's validation says of each). An event without a source comes
/// from `node_id` and one without a payload carries the empty text. Any
/// other kind is refused.
pub fn decode_python_payload(wire: &PythonWire, node_id: &str, checks: EventChecks) -> (r: Result<
    PythonPayload,
    MuxivaError,
>)
    ensures
        match opt_text(wire.kind) {
            None => r matches Err(e) && host_failure(e, "Python Frame is missing its kind"@),
            Some(k) => if k == "text"@ {
                match wire.text {
                    Some(t) => r matches Ok(PythonPayload::Text(s)) && s@ == t@,
                    None => r matches Err(e) && host_failure(e, "Python text Frame is missing text"@),
                }
            } else if k == "audio"@ {
                match wire.pcm_hex {
                    None => r matches Err(e) && host_failure(e, "Python audio Frame is missing PCM"@),
                    Some(h) => match python_pcm_problem(vstd::utf8::encode_utf8(h@), wire.sample_rate_hz, wire.channels) {
                        Some(m) => r matches Err(e) && host_failure(e, m),
                        None => (r is Err || r matches Ok(PythonPayload::Audio(_))) && audio_made(
                            audio_part(r),
                            hex_decode(vstd::utf8::encode_utf8(h@))->0,
                            wire.sample_rate_hz->0 as u32,
                            wire.channels->0 as u16,
                            PcmSampleFormat::I16Le,
                            AudioLayout::Interleaved,
                            (hex_decode(vstd::utf8::encode_utf8(h@))->0.len() as int / (2 * wire.channels->0 as int)) as u64,
                        ),
                    },
                }
            } else if k == "event"@ {
                match wire.topic {
                    None => r matches Err(e) && host_failure(e, "Python Event Frame is missing its topic"@),
                    Some(t) => if checks.topic is Some {
                        r == Err::<PythonPayload, MuxivaError>(checks.topic->0)
                    } else if checks.schema_version is Some {
                        r == Err::<PythonPayload, MuxivaError>(checks.schema_version->0)
                    } else if !checks.source_valid {
                        r matches Err(e) && host_failure(e, "Python Event Frame has an invalid source"@)
                    } else {
                        r matches Ok(PythonPayload::Event(ev)) && ev.topic@ == t@ && ev.schema_version
                            == event_schema(wire.schema_version) && ev.source@ == (match wire.source {
                            Some(s) => s@,
                            None => node_id@,
                        }) && ev.payload@ == (match wire.payload {
                            Some(p) => p@,
                            None => Seq::<char>::empty(),
                        })
                    },
                }
            } else {
                r matches Err(e) && host_failure(e, "Python Host emitted an unsupported Frame"@)
            },
        },
{
    let kind = match &wire.kind {
        Some(k) => k.as_str(),
        None => {
            return Err(host_error("Python Frame is missing its kind"));
        },
    };
    if str_equal(kind, "text") {
        match &wire.text {
            Some(t) => Ok(PythonPayload::Text(t.clone())),
            None => Err(host_error("Python text Frame is missing text")),
        }
    } else if str_equal(kind, "audio") {
        match &wire.pcm_hex {
            None => Err(host_error("Python audio Frame is missing PCM")),
            Some(h) => match decode_python_pcm(h.as_str(), wire.sample_rate_hz, wire.channels) {
                Ok(a) => Ok(PythonPayload::Audio(a)),
                Err(e) => Err(e),
            },
        }
    } else if str_equal(kind, "event") {
        match &wire.topic {
            None => Err(host_error("Python Event Frame is missing its topic")),
            Some(t) => {
                let EventChecks { topic, schema_version: schema_problem, source_valid } = checks;
                match topic {
                    Some(e) => {
                        return Err(e);
                    },
                    None => {},
                }
                match schema_problem {
                    Some(e) => {
                        return Err(e);
                    },
                    None => {},
                }
                if !source_valid {
                    return Err(host_error("Python Event Frame has an invalid source"));
                }
                let schema_version: u32 = match wire.schema_version {
                    Some(x) => if x <= 0xffff_ffff {
                        x as u32
                    } else {
                        1
                    },
                    None => 1,
                };
                let source = match &wire.source {
                    Some(s) => s.clone(),
                    None => node_id.to_owned(),
                };
                let payload = match &wire.payload {
                    Some(p) => p.clone(),
                    None => String::new(),
                };
                Ok(PythonPayload::Event(PythonEvent { topic: t.clone(), schema_version, source, payload }))
            },
        }
    } else {
        Err(host_error("Python Host emitted an unsupported Frame"))
    }
}

/// What the node does with one reply of the host to a process call.
#[derive(Clone, Debug, PartialEq, Eq)]
pub enum HostStep {
    /// Emit the frame the reply carries, then read the next reply.
    Emit,
    /// Publish the event the reply carries, then read the next reply.
    Publish,
    /// Send the signal the reply carries, then read the next reply.
    Signal,
    /// The call is done; emit what the final reply lists.
    Finish,
    /// The call failed with this message.
    Fail(String),
}

/// The data of a reply step.
pub enum HostStepView {
    Emit,
    Publish,
    Signal,
    Finish,
    Fail(Seq<char>),
}

impl View for HostStep {
    type V = HostStepView;

    closed spec fn view(&self) -> HostStepView {
        match self {
            HostStep::Emit => HostStepView::Emit,
            HostStep::Publish => HostStepView::Publish,
            HostStep::Signal => HostStepView::Signal,
            HostStep::Finish => HostStepView::Finish,
            HostStep::Fail(m) => HostStepView::Fail(m@),
        }
    }
}

/// The step for a reply with this `kind`, `ok` flag and `error` text:
/// emissions, events and signals are streamed and the call goes on; a
/// reply that is `ok` finishes it; any other fails with its error, or with
/// "Python Node failed" when it names none.
pub open spec fn host_step(kind: Option<Seq<char>>, ok: Option<bool>, error: Option<Seq<char>>) -> HostStepView {
    if kind == Some("emission"@) {
        HostStepView::Emit
    } else if kind == Some("event"@) {
        HostStepView::Publish
    } else if kind == Some("signal"@) {
        HostStepView::Signal
    } else if ok == Some(true) {
        HostStepView::Finish
    } else {
        HostStepView::Fail(
            match error {
                Some(e) => e,
                None => "Python Node failed"@,
            },
        )
    }
}

/// Decides what to do with one reply of the host (see `host_step`). `kind`
/// and `error` are present when the reply holds them as strings, `ok` when
/// it holds a boolean.
pub fn host_response_step(kind: Option<&str>, ok: Option<bool>, error: Option<&str>) -> (r: HostStep)
    ensures
        r@ == host_step(
            match kind {
                Some(k) => Some(k@),
                None => None,
            },
            ok,
            match error {
                Some(e) => Some(e@),
                None => None,
            },
        ),
{
    proof {
        reveal_strlit("emission");
        reveal_strlit("event");
        reveal_strlit("signal");
    }
    match kind {
        Some(k) => {
            if str_equal(k, "emission") {
                return HostStep::Emit;
            }
            if str_equal(k, "event") {
                return HostStep::Publish;
            }
            if str_equal(k, "signal") {
                return HostStep::Signal;
            }
        },
        None => {},
    }
    match ok {
        Some(true) => {
            return HostStep::Finish;
        },
        _ => {},
    }
    match error {
        Some(e) => HostStep::Fail(e.to_owned()),
        None => HostStep::Fail("Python Node failed".to_owned()),
    }
}

} // verus!
