//! Validated immutable PCM audio.
use vstd::prelude::*;

use crate::error::{valid_code, ErrorCategory, ErrorContext, MuxivaError};
use crate::frame_buffer::FrameBuffer;
use crate::text::{decimal_digits, u64_decimal};

verus! {

/// The scalar encoding of one PCM sample.
#[derive(Clone, Copy, Debug, PartialEq, Eq, Hash, Structural)]
pub enum PcmSampleFormat {
    /// Unsigned 8-bit PCM.
    U8,
    /// Signed little-endian 16-bit PCM.
    I16Le,
    /// Signed little-endian 24-bit PCM.
    I24Le,
    /// Signed little-endian 32-bit PCM.
    I32Le,
    /// Little-endian 32-bit floating-point PCM.
    F32Le,
    /// Little-endian 64-bit floating-point PCM.
    F64Le,
}

/// The encoded width of one sample.
pub open spec fn sample_width(format: PcmSampleFormat) -> nat {
    match format {
        PcmSampleFormat::U8 => 1,
        PcmSampleFormat::I16Le => 2,
        PcmSampleFormat::I24Le => 3,
        PcmSampleFormat::I32Le => 4,
        PcmSampleFormat::F32Le => 4,
        PcmSampleFormat::F64Le => 8,
    }
}

impl PcmSampleFormat {
    /// Returns the encoded width of one sample.
    pub fn bytes_per_sample(self) -> (r: usize)
        ensures
            r == sample_width(self),
    {
        match self {
            PcmSampleFormat::U8 => 1,
            PcmSampleFormat::I16Le => 2,
            PcmSampleFormat::I24Le => 3,
            PcmSampleFormat::I32Le => 4,
            PcmSampleFormat::F32Le => 4,
            PcmSampleFormat::F64Le => 8,
        }
    }
}

/// Describes how channel samples are arranged in the buffer.
#[derive(Clone, Copy, Debug, PartialEq, Eq, Hash, Structural)]
pub enum AudioLayout {
    /// Samples for every channel are grouped at each time index.
    Interleaved,
    /// Each channel occupies one contiguous plane, in channel order.
    Planar,
}

/// The floor of `samples` at `rate` hertz, in nanoseconds.
pub open spec fn duration_floor_ns(samples: nat, rate: nat) -> int
    recommends
        rate > 0,
{
    ((samples * 1_000_000_000) as int) / (rate as int)
}

/// The exact payload length that a PCM layout declares.
pub open spec fn expected_audio_bytes(channels: nat, format: PcmSampleFormat, samples: nat) -> nat {
    samples * channels * sample_width(format)
}

/// The checks of `AudioData::new`, in the order they run.
#[derive(PartialEq, Eq, Structural)]
pub enum AudioRejection {
    /// The sample rate is outside 1..=768000 Hz.
    Rate,
    /// The channel count is outside 1..=1024.
    Channels,
    /// There are no samples.
    Samples,
    /// A size or duration does not fit its machine integer.
    Arithmetic,
    /// The payload length differs from the declared layout.
    Length,
}

/// The stable error code reported for each rejection.
pub open spec fn audio_rejection_code(r: AudioRejection) -> Seq<char> {
    match r {
        AudioRejection::Rate => "MUXIVA-FRM-AUDIO-RATE"@,
        AudioRejection::Channels => "MUXIVA-FRM-AUDIO-CHANNELS"@,
        AudioRejection::Samples => "MUXIVA-FRM-AUDIO-SAMPLES"@,
        AudioRejection::Arithmetic => "MUXIVA-FRM-ARITHMETIC"@,
        AudioRejection::Length => "MUXIVA-FRM-AUDIO-LENGTH"@,
    }
}

/// The first check that `AudioData::new` fails, or `None` when the audio is
/// accepted.
pub open spec fn audio_rejection(
    len: nat,
    sample_rate_hz: u32,
    channels: u16,
    format: PcmSampleFormat,
    samples: u64,
) -> Option<AudioRejection> {
    if !(1 <= sample_rate_hz <= 768_000) {
        Some(AudioRejection::Rate)
    } else if !(1 <= channels <= 1_024) {
        Some(AudioRejection::Channels)
    } else if samples == 0 {
        Some(AudioRejection::Samples)
    } else if samples * channels > u64::MAX || expected_audio_bytes(channels as nat, format, samples as nat)
        > u64::MAX {
        Some(AudioRejection::Arithmetic)
    } else if duration_floor_ns(samples as nat, sample_rate_hz as nat) > u64::MAX {
        Some(AudioRejection::Arithmetic)
    } else if expected_audio_bytes(channels as nat, format, samples as nat) > usize::MAX {
        Some(AudioRejection::Arithmetic)
    } else if len != expected_audio_bytes(channels as nat, format, samples as nat) {
        Some(AudioRejection::Length)
    } else {
        None
    }
}

/// Validated immutable PCM audio.
#[derive(Debug, PartialEq, Eq)]
pub struct AudioData {
    buffer: FrameBuffer,
    sample_rate_hz: u32,
    channels: u16,
    sample_format: PcmSampleFormat,
    layout: AudioLayout,
    samples_per_channel: u64,
    duration_ns: u64,
}

/// The abstract content of validated audio.
pub struct AudioView {
    pub bytes: Seq<u8>,
    pub sample_rate_hz: u32,
    pub channels: u16,
    pub sample_format: PcmSampleFormat,
    pub layout: AudioLayout,
    pub samples_per_channel: u64,
    pub duration_ns: u64,
}

impl View for AudioData {
    type V = AudioView;

    closed spec fn view(&self) -> AudioView {
        AudioView {
            bytes: self.buffer@,
            sample_rate_hz: self.sample_rate_hz,
            channels: self.channels,
            sample_format: self.sample_format,
            layout: self.layout,
            samples_per_channel: self.samples_per_channel,
            duration_ns: self.duration_ns,
        }
    }
}

/// Every constructed `AudioData` satisfies its declared layout.
pub open spec fn audio_well_formed(v: AudioView) -> bool {
    &&& audio_rejection(
        v.bytes.len(),
        v.sample_rate_hz,
        v.channels,
        v.sample_format,
        v.samples_per_channel,
    ) is None
    &&& v.duration_ns == duration_floor_ns(v.samples_per_channel as nat, v.sample_rate_hz as nat)
}

/// The byte range of one channel plane of planar audio.
pub open spec fn planar_range(v: AudioView, plane: nat) -> Seq<u8> {
    let width = v.samples_per_channel * sample_width(v.sample_format);
    v.bytes.subrange((plane * width) as int, ((plane + 1) * width) as int)
}

proof fn lemma_duration_split(s: int, r: int)
    requires
        r > 0,
        s >= 0,
    ensures
        (s / r) * 1_000_000_000 + ((s % r) * 1_000_000_000) / r == (s * 1_000_000_000) / r,
        (s / r) * 1_000_000_000 <= (s * 1_000_000_000) / r,
        0 <= s % r < r,
{
    let q = s / r;
    let m = s % r;
    vstd::arithmetic::div_mod::lemma_fundamental_div_mod(s, r);
    vstd::arithmetic::div_mod::lemma_mod_pos_bound(s, r);
    let m1 = m * 1_000_000_000;
    vstd::arithmetic::div_mod::lemma_fundamental_div_mod(m1, r);
    vstd::arithmetic::div_mod::lemma_mod_pos_bound(m1, r);
    let a = m1 / r;
    let b = m1 % r;
    assert(a >= 0) by (nonlinear_arith)
        requires
            m1 == r * a + b,
            0 <= b < r,
            m1 >= 0,
            r > 0,
    ;
    assert(s * 1_000_000_000 == r * (q * 1_000_000_000 + a) + b) by (nonlinear_arith)
        requires
            s == r * q + m,
            m1 == m * 1_000_000_000,
            m1 == r * a + b,
    ;
    vstd::arithmetic::div_mod::lemma_div_multiples_vanish_fancy(q * 1_000_000_000 + a, b, r);
}

/// Computes the floor of the duration in nanoseconds, or `None` when it does
/// not fit in `u64`.
pub(crate) fn duration_ns_for_samples(samples: u64, sample_rate_hz: u32) -> (r: Option<u64>)
    requires
        sample_rate_hz > 0,
    ensures
        match r {
            Some(d) => d == duration_floor_ns(samples as nat, sample_rate_hz as nat),
            None => duration_floor_ns(samples as nat, sample_rate_hz as nat) > u64::MAX,
        },
{
    let rate = sample_rate_hz as u64;
    let whole_seconds = samples / rate;
    let remaining_samples = samples % rate;
    proof {
        lemma_duration_split(samples as int, rate as int);
        assert(remaining_samples * 1_000_000_000 <= 0xffff_ffff * 1_000_000_000) by (nonlinear_arith)
            requires
                remaining_samples < rate,
                rate <= 0xffff_ffff,
        ;
    }
    let whole = match whole_seconds.checked_mul(1_000_000_000) {
        Some(w) => w,
        None => return None,
    };
    let fraction = match remaining_samples.checked_mul(1_000_000_000) {
        Some(f) => f,
        None => return None,
    };
    whole.checked_add(fraction / rate)
}

fn arithmetic_error() -> (e: MuxivaError)
    ensures
        e.spec_code() == "MUXIVA-FRM-ARITHMETIC"@,
        e.spec_category() == ErrorCategory::Validation,
        e.spec_contexts() == Seq::<ErrorContext>::empty(),
{
    proof {
        reveal_strlit("MUXIVA-FRM-ARITHMETIC");
        assert("MUXIVA-FRM-ARITHMETIC"@.subrange(0, 7) =~= crate::error::code_prefix());
    }
    MuxivaError::new(ErrorCategory::Validation, "MUXIVA-FRM-ARITHMETIC", "frame size arithmetic overflowed")
}

fn invalid_plane_error() -> (e: MuxivaError)
    ensures
        e.spec_code() == "MUXIVA-FRM-AUDIO-PLANE"@,
        e.spec_category() == ErrorCategory::Validation,
{
    proof {
        reveal_strlit("MUXIVA-FRM-AUDIO-PLANE");
        assert("MUXIVA-FRM-AUDIO-PLANE"@.subrange(0, 7) =~= crate::error::code_prefix());
    }
    MuxivaError::new(
        ErrorCategory::Validation,
        "MUXIVA-FRM-AUDIO-PLANE",
        "audio plane index is not part of the layout",
    )
}

impl AudioData {
    #[verifier::type_invariant]
    closed spec fn inv(self) -> bool {
        audio_well_formed(self@)
    }

    /// Creates PCM audio after validating scalar limits and exact payload length.
    ///
    /// On a length mismatch the error carries the details `expected_bytes`
    /// and `actual_bytes`, in that order, as decimal text.
    pub fn new(
        buffer: FrameBuffer,
        sample_rate_hz: u32,
        channels: u16,
        sample_format: PcmSampleFormat,
        layout: AudioLayout,
        samples_per_channel: u64,
    ) -> (r: Result<Self, MuxivaError>)
        ensures
            match r {
                Ok(a) => {
                    &&& audio_rejection(
                        buffer@.len(),
                        sample_rate_hz,
                        channels,
                        sample_format,
                        samples_per_channel,
                    ) is None
                    &&& a@.bytes == buffer@
                    &&& a@.sample_rate_hz == sample_rate_hz
                    &&& a@.channels == channels
                    &&& a@.sample_format == sample_format
                    &&& a@.layout == layout
                    &&& a@.samples_per_channel == samples_per_channel
                    &&& a@.duration_ns == duration_floor_ns(
                        samples_per_channel as nat,
                        sample_rate_hz as nat,
                    )
                },
                Err(e) => match audio_rejection(
                    buffer@.len(),
                    sample_rate_hz,
                    channels,
                    sample_format,
                    samples_per_channel,
                ) {
                    None => false,
                    Some(k) => {
                    &&& e.spec_code() == audio_rejection_code(k)
                    &&& e.spec_category() == ErrorCategory::Validation
                    &&& k == AudioRejection::Length ==> length_details(
                        e.spec_contexts(),
                        expected_audio_bytes(channels as nat, sample_format, samples_per_channel as nat),
                        buffer@.len(),
                    )
                    },
                },
            },
    {
        if !(1 <= sample_rate_hz && sample_rate_hz <= 768_000) {
            proof {
                reveal_strlit("MUXIVA-FRM-AUDIO-RATE");
        assert("MUXIVA-FRM-AUDIO-RATE"@.subrange(0, 7) =~= crate::error::code_prefix());
            }
            return Err(
                MuxivaError::new(
                    ErrorCategory::Validation,
                    "MUXIVA-FRM-AUDIO-RATE",
                    "audio sample rate must be between 1 and 768000 Hz",
                ),
            );
        }
        if !(1 <= channels && channels <= 1_024) {
            proof {
                reveal_strlit("MUXIVA-FRM-AUDIO-CHANNELS");
        assert("MUXIVA-FRM-AUDIO-CHANNELS"@.subrange(0, 7) =~= crate::error::code_prefix());
            }
            return Err(
                MuxivaError::new(
                    ErrorCategory::Validation,
                    "MUXIVA-FRM-AUDIO-CHANNELS",
                    "audio channel count must be between 1 and 1024",
                ),
            );
        }
        if samples_per_channel == 0 {
            proof {
                reveal_strlit("MUXIVA-FRM-AUDIO-SAMPLES");
        assert("MUXIVA-FRM-AUDIO-SAMPLES"@.subrange(0, 7) =~= crate::error::code_prefix());
            }
            return Err(
                MuxivaError::new(
                    ErrorCategory::Validation,
                    "MUXIVA-FRM-AUDIO-SAMPLES",
                    "audio must contain at least one sample per channel",
                ),
            );
        }
        let bytes_per_sample = sample_format.bytes_per_sample() as u64;
        let per_channel_total = match samples_per_channel.checked_mul(channels as u64) {
            Some(v) => v,
            None => return Err(arithmetic_error()),
        };
        let expected_bytes = match per_channel_total.checked_mul(bytes_per_sample) {
            Some(v) => v,
            None => return Err(arithmetic_error()),
        };
        let duration_ns = match duration_ns_for_samples(samples_per_channel, sample_rate_hz) {
            Some(d) => d,
            None => return Err(arithmetic_error()),
        };
        if expected_bytes > usize::MAX as u64 {
            return Err(arithmetic_error());
        }
        let expected_len = expected_bytes as usize;
        if buffer.len() != expected_len {
            proof {
                reveal_strlit("MUXIVA-FRM-AUDIO-LENGTH");
        assert("MUXIVA-FRM-AUDIO-LENGTH"@.subrange(0, 7) =~= crate::error::code_prefix());
            }
            let actual = buffer.len() as u64;
            let error = MuxivaError::new(
                ErrorCategory::Validation,
                "MUXIVA-FRM-AUDIO-LENGTH",
                "audio payload length does not match its declared layout",
            );
            let expected_text = u64_decimal(expected_bytes);
            let actual_text = u64_decimal(actual);
            let error = error.with_context("expected_bytes", expected_text.as_str());
            let error = error.with_context("actual_bytes", actual_text.as_str());
            proof {
                reveal_strlit("MUXIVA-FRM-ARITHMETIC");
        assert("MUXIVA-FRM-ARITHMETIC"@.subrange(0, 7) =~= crate::error::code_prefix());
                assert(error.spec_contexts()[0] == error.spec_contexts().drop_last()[0]);
            }
            return Err(error);
        }
        Ok(AudioData {
            buffer,
            sample_rate_hz,
            channels,
            sample_format,
            layout,
            samples_per_channel,
            duration_ns,
        })
    }

    /// Returns the immutable PCM payload.
    pub fn buffer(&self) -> (r: &FrameBuffer)
        ensures
            r@ == self@.bytes,
    {
        &self.buffer
    }

    /// Returns the sample rate in hertz.
    pub fn sample_rate_hz(&self) -> (r: u32)
        ensures
            r == self@.sample_rate_hz,
    {
        self.sample_rate_hz
    }

    /// Returns the channel count.
    pub fn channels(&self) -> (r: u16)
        ensures
            r == self@.channels,
    {
        self.channels
    }

    /// Returns the PCM sample encoding.
    pub fn sample_format(&self) -> (r: PcmSampleFormat)
        ensures
            r == self@.sample_format,
    {
        self.sample_format
    }

    /// Returns the channel layout.
    pub fn layout(&self) -> (r: AudioLayout)
        ensures
            r == self@.layout,
    {
        self.layout
    }

    /// Returns the number of samples in each channel.
    pub fn samples_per_channel(&self) -> (r: u64)
        ensures
            r == self@.samples_per_channel,
            audio_well_formed(self@),
    {
        proof {
            use_type_invariant(self);
        }
        self.samples_per_channel
    }

    /// Returns the floor of the audio duration in nanoseconds.
    pub fn duration_ns(&self) -> (r: u64)
        ensures
            r == self@.duration_ns,
            r == duration_floor_ns(self@.samples_per_channel as nat, self@.sample_rate_hz as nat),
    {
        proof {
            use_type_invariant(self);
        }
        self.duration_ns
    }

    /// Returns a channel plane.
    ///
    /// For interleaved audio, plane zero is the complete buffer and no other
    /// plane exists. For planar audio, indices in `0..channels` return the
    /// corresponding contiguous channel plane.
    pub fn plane_bytes(&self, plane: u16) -> (r: Result<&[u8], MuxivaError>)
        ensures
            match self@.layout {
                AudioLayout::Interleaved => if plane == 0 {
                    r matches Ok(b) && b@ == self@.bytes
                } else {
                    r matches Err(e) && e.spec_code() == "MUXIVA-FRM-AUDIO-PLANE"@
                },
                AudioLayout::Planar => if plane < self@.channels {
                    r matches Ok(b) && b@ == planar_range(self@, plane as nat)
                } else {
                    r matches Err(e) && e.spec_code() == "MUXIVA-FRM-AUDIO-PLANE"@
                },
            },
    {
        proof {
            use_type_invariant(self);
        }
        match self.layout {
            AudioLayout::Interleaved => {
                if plane == 0 {
                    Ok(self.buffer.as_slice())
                } else {
                    Err(invalid_plane_error())
                }
            },
            AudioLayout::Planar => {
                if plane >= self.channels {
                    return Err(invalid_plane_error());
                }
                let width = self.sample_format.bytes_per_sample() as u64;
                let samples = self.samples_per_channel;
                let channels = self.channels as u64;
                let total = self.buffer.len();
                proof {
                    let w = width as int;
                    let s = samples as int;
                    let c = channels as int;
                    let p = plane as int;
                    assert(total as int == s * c * w);
                    assert(s * w <= s * c * w) by (nonlinear_arith)
                        requires
                            s >= 0,
                            c >= 1,
                            w >= 0,
                    ;
                    assert((p + 1) * (s * w) <= s * c * w) by (nonlinear_arith)
                        requires
                            0 <= p < c,
                            s >= 0,
                            w >= 0,
                    ;
                    assert(p * (s * w) <= (p + 1) * (s * w)) by (nonlinear_arith)
                        requires
                            p >= 0,
                            s >= 0,
                            w >= 0,
                    ;
                    assert((p + 1) * (s * w) == p * (s * w) + s * w) by (nonlinear_arith);
                }
                let plane_len = samples * width;
                let start = (plane as u64) * plane_len;
                let end = start + plane_len;
                let bytes = self.buffer.as_slice();
                Ok(vstd::slice::slice_subrange(bytes, start as usize, end as usize))
            },
        }
    }
}

impl Clone for AudioData {
    fn clone(&self) -> (r: Self)
        ensures
            r@ == self@,
    {
        proof {
            use_type_invariant(self);
        }
        AudioData {
            buffer: self.buffer.clone(),
            sample_rate_hz: self.sample_rate_hz,
            channels: self.channels,
            sample_format: self.sample_format,
            layout: self.layout,
            samples_per_channel: self.samples_per_channel,
            duration_ns: self.duration_ns,
        }
    }
}

/// The two length details of a payload-length error: `expected_bytes`, then
/// `actual_bytes`, each as decimal text.
pub open spec fn length_details(contexts: Seq<ErrorContext>, expected: nat, actual: nat) -> bool {
    &&& contexts.len() == 2
    &&& contexts[0] matches ErrorContext::Detail { key, value } && key@ == "expected_bytes"@
        && value@ == decimal_digits(expected)
    &&& contexts[1] matches ErrorContext::Detail { key, value } && key@ == "actual_bytes"@
        && value@ == decimal_digits(actual)
}

/// What `AudioData::new` gives for these arguments: the audio when no check
/// fails, otherwise the error of the first failing check.
pub open spec fn audio_made(
    r: Result<AudioData, MuxivaError>,
    bytes: Seq<u8>,
    sample_rate_hz: u32,
    channels: u16,
    sample_format: PcmSampleFormat,
    layout: AudioLayout,
    samples_per_channel: u64,
) -> bool {
    match r {
        Ok(a) => {
            &&& audio_rejection(bytes.len(), sample_rate_hz, channels, sample_format, samples_per_channel) is None
            &&& a@.bytes == bytes
            &&& a@.sample_rate_hz == sample_rate_hz
            &&& a@.channels == channels
            &&& a@.sample_format == sample_format
            &&& a@.layout == layout
            &&& a@.samples_per_channel == samples_per_channel
            &&& a@.duration_ns == duration_floor_ns(samples_per_channel as nat, sample_rate_hz as nat)
        },
        Err(e) => match audio_rejection(bytes.len(), sample_rate_hz, channels, sample_format, samples_per_channel) {
            None => false,
            Some(k) => {
                &&& e.spec_code() == audio_rejection_code(k)
                &&& e.spec_category() == ErrorCategory::Validation
                &&& k == AudioRejection::Length ==> length_details(
                    e.spec_contexts(),
                    expected_audio_bytes(channels as nat, sample_format, samples_per_channel as nat),
                    bytes.len(),
                )
            },
        },
    }
}

} // verus!
