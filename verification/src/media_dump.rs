//! The byte-level parts of the studio media dump: playable interleaved PCM,
//! the WAV header in front of it, and the file-name components it accepts.
use vstd::prelude::*;

use vstd::string::StringSliceAdditionalSpecFns;

use crate::audio::{
    audio_well_formed, expected_audio_bytes, planar_range, sample_width, AudioData, AudioLayout,
    AudioView, PcmSampleFormat,
};
use crate::text::{decimal_digits, push_char, u64_decimal};

verus! {

/// Whether a byte may appear in a dump file-name component: an ASCII digit
/// or letter, `-`, `_` or `.`.
pub open spec fn component_byte(b: u8) -> bool {
    (48 <= b <= 57) || (97 <= b <= 122) || (65 <= b <= 90) || b == 45 || b == 95 || b == 46
}

/// Whether a text is usable as one file-name component of a dump: 1 to 128
/// bytes, each an ASCII letter or digit, `-`, `_` or `.`.
pub open spec fn safe_component_spec(value: Seq<char>) -> bool {
    let b = vstd::utf8::encode_utf8(value);
    0 < b.len() <= 128 && forall|i: int| 0 <= i < b.len() ==> component_byte(#[trigger] b[i])
}

/// Whether `value` is usable as one file-name component of a dump: 1 to 128
/// bytes, each an ASCII letter or digit, `-`, `_` or `.`.
pub fn safe_component(value: &str) -> (r: bool)
    ensures
        r == safe_component_spec(value@),
        r == (0 < value.spec_bytes().len() <= 128 && forall|i: int|
            0 <= i < value.spec_bytes().len() ==> component_byte(#[trigger] value.spec_bytes()[i])),
{
    let bytes = value.as_bytes();
    if bytes.len() == 0 || bytes.len() > 128 {
        return false;
    }
    let mut i: usize = 0;
    while i < bytes.len()
        invariant
            bytes@ == value.spec_bytes(),
            0 <= i <= bytes@.len(),
            forall|j: int| 0 <= j < i ==> component_byte(#[trigger] bytes@[j]),
        decreases bytes@.len() - i,
    {
        let b = bytes[i];
        // ASCII digits, lower and upper case letters, then `-`, `_` and `.`.
        let ok = (48 <= b && b <= 57) || (97 <= b && b <= 122) || (65 <= b && b <= 90) || b == 45
            || b == 95 || b == 46;
        if !ok {
            return false;
        }
        i = i + 1;
    }
    true
}

/// Sample `s` of the first `c` channels of planar audio, channel after
/// channel.
pub open spec fn sample_frame(v: AudioView, s: int, c: int) -> Seq<u8>
    decreases c,
{
    if c <= 0 {
        Seq::empty()
    } else {
        let w = sample_width(v.sample_format) as int;
        sample_frame(v, s, c - 1) + planar_range(v, (c - 1) as nat).subrange(s * w, s * w + w)
    }
}

/// The first `n` samples of planar audio, each with every channel.
pub open spec fn interleaved_frames(v: AudioView, n: int) -> Seq<u8>
    decreases n,
{
    if n <= 0 {
        Seq::empty()
    } else {
        interleaved_frames(v, n - 1) + sample_frame(v, n - 1, v.channels as int)
    }
}

/// The audio as interleaved PCM: unchanged when it is interleaved already.
pub open spec fn interleaved_bytes(v: AudioView) -> Seq<u8> {
    match v.layout {
        AudioLayout::Interleaved => v.bytes,
        AudioLayout::Planar => interleaved_frames(v, v.samples_per_channel as int),
    }
}

proof fn lemma_plane_geometry(s: int, c: int, w: int, p: int, k: int)
    requires
        0 <= p < c,
        0 <= k < s,
        s >= 0,
        w >= 0,
    ensures
        0 <= p * (s * w),
        p * (s * w) + s * w == (p + 1) * (s * w),
        (p + 1) * (s * w) <= s * c * w,
        0 <= k * w,
        k * w + w <= s * w,
{
    assert((p + 1) * (s * w) == p * (s * w) + s * w) by (nonlinear_arith);
    assert((p + 1) * (s * w) <= s * c * w) by (nonlinear_arith)
        requires
            0 <= p < c,
            s >= 0,
            w >= 0,
    ;
    assert(0 <= p * (s * w)) by (nonlinear_arith)
        requires
            p >= 0,
            s >= 0,
            w >= 0,
    ;
    assert(k * w + w <= s * w) by (nonlinear_arith)
        requires
            0 <= k < s,
            w >= 0,
    ;
    assert(0 <= k * w) by (nonlinear_arith)
        requires
            k >= 0,
            w >= 0,
    ;
}

proof fn lemma_samples_fit(s: int, c: int, w: int)
    requires
        s >= 0,
        c >= 1,
        w >= 1,
    ensures
        s <= s * c * w,
{
    assert(s <= s * c * w) by (nonlinear_arith)
        requires
            s >= 0,
            c >= 1,
            w >= 1,
    ;
}

/// Returns the audio as interleaved PCM, the sample order a WAV file holds:
/// planar audio is rearranged sample by sample, each sample holding every
/// channel in order.
pub fn interleaved_audio(data: &AudioData) -> (r: Result<Vec<u8>, String>)
    ensures
        r matches Ok(b) && b@ == interleaved_bytes(data@),
{
    if data.layout() == AudioLayout::Interleaved {
        return Ok(vstd::slice::slice_to_vec(data.buffer().as_slice()));
    }
    let width = data.sample_format().bytes_per_sample();
    let samples_total = data.samples_per_channel();
    let channels = data.channels();
    let ghost v = data@;
    proof {
        assert(audio_well_formed(v));
        assert(v.bytes.len() == expected_audio_bytes(v.channels as nat, v.sample_format, v.samples_per_channel as nat));
        lemma_samples_fit(samples_total as int, channels as int, width as int);
    }
    if samples_total > usize::MAX as u64 {
        return Err("audio sample count is too large to dump".to_owned());
    }
    let samples = samples_total as usize;
    let mut output: Vec<u8> = Vec::new();
    let mut s: usize = 0;
    while s < samples
        invariant
            v == data@,
            audio_well_formed(v),
            v.layout == AudioLayout::Planar,
            width == sample_width(v.sample_format),
            samples == v.samples_per_channel,
            channels == v.channels,
            v.bytes.len() == samples * channels * width,
            samples * channels * width <= usize::MAX,
            0 <= s <= samples,
            output@ == interleaved_frames(v, s as int),
        decreases samples - s,
    {
        let ghost base = output@;
        proof {
            lemma_plane_geometry(samples as int, channels as int, width as int, 0, s as int);
        }
        let offset = s * width;
        let mut c: u16 = 0;
        while c < channels
            invariant
                v == data@,
                v.layout == AudioLayout::Planar,
                width == sample_width(v.sample_format),
                samples == v.samples_per_channel,
                channels == v.channels,
                v.bytes.len() == samples * channels * width,
                samples * channels * width <= usize::MAX,
                0 <= s < samples,
                offset == s * width,
                0 <= c <= channels,
                output@ == base + sample_frame(v, s as int, c as int),
            decreases channels - c,
        {
            proof {
                lemma_plane_geometry(samples as int, channels as int, width as int, c as int, s as int);
            }
            let plane = match data.plane_bytes(c) {
                Ok(p) => p,
                Err(e) => return Err(e.to_display_string()),
            };
            let piece = vstd::slice::slice_subrange(plane, offset, offset + width);
            let ghost before = output@;
            crate::audio_merge::append_bytes(&mut output, piece);
            proof {
                assert(output@ =~= base + sample_frame(v, s as int, c + 1));
            }
            c = c + 1;
        }
        s = s + 1;
    }
    Ok(output)
}

/// The little-endian bytes of a `u16`.
pub open spec fn le_u16(x: u16) -> Seq<u8> {
    seq![(x % 256) as u8, (x / 256) as u8]
}

/// The little-endian bytes of a `u32`.
pub open spec fn le_u32(x: u32) -> Seq<u8> {
    seq![(x % 256) as u8, ((x / 256) % 256) as u8, ((x / 65536) % 256) as u8, (x / 16777216) as u8]
}

fn push_le_u16(out: &mut Vec<u8>, x: u16)
    ensures
        final(out)@ == old(out)@ + le_u16(x),
{
    out.push((x % 256) as u8);
    out.push((x / 256) as u8);
    proof {
        assert(final(out)@ =~= old(out)@ + le_u16(x));
    }
}

fn push_le_u32(out: &mut Vec<u8>, x: u32)
    ensures
        final(out)@ == old(out)@ + le_u32(x),
{
    out.push((x % 256) as u8);
    out.push(((x / 256) % 256) as u8);
    out.push(((x / 65536) % 256) as u8);
    out.push((x / 16777216) as u8);
    proof {
        assert(final(out)@ =~= old(out)@ + le_u32(x));
    }
}

fn push_tag(out: &mut Vec<u8>, a: u8, b: u8, c: u8, d: u8)
    ensures
        final(out)@ == old(out)@ + seq![a, b, c, d],
{
    out.push(a);
    out.push(b);
    out.push(c);
    out.push(d);
    proof {
        assert(final(out)@ =~= old(out)@ + seq![a, b, c, d]);
    }
}

/// The WAV format code: 3 for floating-point samples, 1 for integer PCM.
pub open spec fn wav_format_code(format: PcmSampleFormat) -> u16 {
    match format {
        PcmSampleFormat::F32Le | PcmSampleFormat::F64Le => 3,
        _ => 1,
    }
}

/// The 44-byte canonical WAV header of `data_bytes` bytes of PCM.
pub open spec fn wav_header_bytes(
    sample_rate_hz: u32,
    channels: u16,
    format: PcmSampleFormat,
    data_bytes: u32,
) -> Seq<u8> {
    let bits = (sample_width(format) * 8) as u16;
    let block_align = (channels * sample_width(format)) as u16;
    let byte_rate = (sample_rate_hz * block_align) as u32;
    let riff_size = if data_bytes + 36 > u32::MAX { u32::MAX } else { (data_bytes + 36) as u32 };
    seq![82u8, 73, 70, 70] + le_u32(riff_size) + seq![87u8, 65, 86, 69] + seq![102u8, 109, 116, 32]
        + le_u32(16) + le_u16(wav_format_code(format)) + le_u16(channels) + le_u32(sample_rate_hz)
        + le_u32(byte_rate) + le_u16(block_align) + le_u16(bits) + seq![100u8, 97, 116, 97]
        + le_u32(data_bytes)
}

/// Builds the WAV header for `data_bytes` bytes of PCM audio. Fails when the
/// data exceeds 4 GiB, or when the block alignment (channels times sample
/// width) does not fit `u16` or the byte rate does not fit `u32`.
pub fn wav_header(sample_rate_hz: u32, channels: u16, format: PcmSampleFormat, data_bytes: u64) -> (r:
    Result<Vec<u8>, String>)
    ensures
        data_bytes > u32::MAX ==> (r matches Err(m) && m@ == "WAV data exceeds 4 GiB"@),
        data_bytes <= u32::MAX && channels * sample_width(format) > u16::MAX ==> (r matches Err(m)
            && m@ == "invalid WAV block alignment"@),
        data_bytes <= u32::MAX && channels * sample_width(format) <= u16::MAX && sample_rate_hz
            * channels * sample_width(format) > u32::MAX ==> (r matches Err(m) && m@
            == "invalid WAV byte rate"@),
        data_bytes <= u32::MAX && channels * sample_width(format) <= u16::MAX && sample_rate_hz
            * channels * sample_width(format) <= u32::MAX ==> (r matches Ok(h) && h@
            == wav_header_bytes(sample_rate_hz, channels, format, data_bytes as u32)),
{
    if data_bytes > 0xffff_ffffu64 {
        return Err("WAV data exceeds 4 GiB".to_owned());
    }
    let data_bytes = data_bytes as u32;
    let width = format.bytes_per_sample() as u16;
    let bits: u16 = width * 8;
    let format_code: u16 = match format {
        PcmSampleFormat::F32Le | PcmSampleFormat::F64Le => 3,
        _ => 1,
    };
    let block_align = match channels.checked_mul(bits / 8) {
        Some(b) => b,
        None => return Err("invalid WAV block alignment".to_owned()),
    };
    proof {
        assert(sample_rate_hz * channels * sample_width(format) == sample_rate_hz * (channels
            * sample_width(format))) by (nonlinear_arith);
    }
    let byte_rate = match sample_rate_hz.checked_mul(block_align as u32) {
        Some(b) => b,
        None => return Err("invalid WAV byte rate".to_owned()),
    };
    let riff_size = data_bytes.saturating_add(36);
    let mut header: Vec<u8> = Vec::new();
    push_tag(&mut header, 82, 73, 70, 70);
    push_le_u32(&mut header, riff_size);
    push_tag(&mut header, 87, 65, 86, 69);
    push_tag(&mut header, 102, 109, 116, 32);
    push_le_u32(&mut header, 16);
    push_le_u16(&mut header, format_code);
    push_le_u16(&mut header, channels);
    push_le_u32(&mut header, sample_rate_hz);
    push_le_u32(&mut header, byte_rate);
    push_le_u16(&mut header, block_align);
    push_le_u16(&mut header, bits);
    push_tag(&mut header, 100, 97, 116, 97);
    push_le_u32(&mut header, data_bytes);
    Ok(header)
}

/// The most bytes one dump session writes.
pub const MAX_SESSION_BYTES: u64 = 268435456;

/// The most data bytes one artifact holds.
pub const MAX_ARTIFACT_BYTES: u64 = 67108864;

/// The size of a WAV header.
pub const WAV_HEADER_BYTES: u64 = 44;

/// The lowercase name of a sample format in artifact metadata.
pub fn sample_format_name(format: PcmSampleFormat) -> (r: &'static str)
    ensures
        r@ == match format {
            PcmSampleFormat::U8 => "u8"@,
            PcmSampleFormat::I16Le => "i16le"@,
            PcmSampleFormat::I24Le => "i24le"@,
            PcmSampleFormat::I32Le => "i32le"@,
            PcmSampleFormat::F32Le => "f32le"@,
            PcmSampleFormat::F64Le => "f64le"@,
        },
{
    match format {
        PcmSampleFormat::U8 => "u8",
        PcmSampleFormat::I16Le => "i16le",
        PcmSampleFormat::I24Le => "i24le",
        PcmSampleFormat::I32Le => "i32le",
        PcmSampleFormat::F32Le => "f32le",
        PcmSampleFormat::F64Le => "f64le",
    }
}

/// The digits of `n`, padded with zeros to at least four.
pub open spec fn padded4(n: nat) -> Seq<char> {
    let d = decimal_digits(n);
    if d.len() >= 4 {
        d
    } else {
        Seq::new((4 - d.len()) as nat, |i: int| '0') + d
    }
}

/// The identifier of the `n`th artifact of a session: `media-` and `n`
/// with at least four digits.
pub fn artifact_id(n: u64) -> (r: String)
    ensures
        r@ == "media-"@ + padded4(n as nat),
{
    let digits = u64_decimal(n);
    let count = digits.unicode_len();
    let mut out = "media-".to_owned();
    let mut pad: usize = 0;
    while count < 4 && pad < 4 - count
        invariant
            count == decimal_digits(n as nat).len(),
            count >= 4 ==> pad == 0,
            count < 4 ==> pad <= 4 - count,
            out@ == "media-"@ + Seq::new(pad as nat, |i: int| '0'),
        decreases 4 - pad - count,
    {
        push_char(&mut out, '0');
        proof {
            assert(Seq::new(pad as nat, |i: int| '0').push('0') =~= Seq::new((pad + 1) as nat, |i: int| '0'));
        }
        pad = pad + 1;
    }
    out.append(digits.as_str());
    proof {
        if count >= 4 {
            assert(Seq::new(pad as nat, |i: int| '0') =~= Seq::<char>::empty());
        } else {
            assert(pad == 4 - count);
        }
    }
    out
}

/// What one artifact has recorded.
#[derive(Clone, Copy, Debug, PartialEq, Eq, Structural)]
pub struct ArtifactCounters {
    /// Whether the artifact is a WAV file (its size counts the header).
    pub audio: bool,
    pub data_bytes: u64,
    pub duration_ns: u64,
    pub frames: u64,
    pub bytes: u64,
    pub duration_ms: u64,
    pub truncated: bool,
}

/// The bytes an artifact may still take: what its own bound leaves, and no
/// more than the session has left.
pub open spec fn artifact_room(c: ArtifactCounters, remaining_session: u64) -> int {
    let own = if c.data_bytes >= MAX_ARTIFACT_BYTES {
        0
    } else {
        MAX_ARTIFACT_BYTES - c.data_bytes
    };
    if own < remaining_session {
        own
    } else {
        remaining_session as int
    }
}

/// A saturating `u64` sum.
pub open spec fn sat_add(a: u64, b: u64) -> u64 {
    if a + b > u64::MAX {
        u64::MAX
    } else {
        (a + b) as u64
    }
}

impl ArtifactCounters {
    /// A fresh artifact: a WAV artifact starts with its 44-byte header.
    pub fn new(audio: bool) -> (r: Self)
        ensures
            r == (ArtifactCounters {
                audio,
                data_bytes: 0,
                duration_ns: 0,
                frames: 0,
                bytes: if audio { WAV_HEADER_BYTES } else { 0 },
                duration_ms: 0,
                truncated: false,
            }),
    {
        ArtifactCounters {
            audio,
            data_bytes: 0,
            duration_ns: 0,
            frames: 0,
            bytes: if audio { WAV_HEADER_BYTES } else { 0 },
            duration_ms: 0,
            truncated: false,
        }
    }

    /// Decides whether a frame of `len` bytes is written, given what the
    /// session has left; a frame that does not fit marks the artifact
    /// truncated.
    pub fn admit_frame(&mut self, len: u64, remaining_session: u64) -> (r: bool)
        ensures
            r == (len <= artifact_room(*old(self), remaining_session)),
            r ==> *final(self) == *old(self),
            !r ==> *final(self) == (ArtifactCounters { truncated: true, ..*old(self) }),
    {
        let own = MAX_ARTIFACT_BYTES.saturating_sub(self.data_bytes);
        let allowed = if own < remaining_session {
            own
        } else {
            remaining_session
        };
        if len > allowed {
            self.truncated = true;
            return false;
        }
        true
    }

    /// Records a written frame of `len` bytes lasting `duration_ns`.
    pub fn record_frame(&mut self, len: u64, duration_ns: u64)
        requires
            old(self).data_bytes + len <= MAX_ARTIFACT_BYTES,
        ensures
            final(self).audio == old(self).audio,
            final(self).data_bytes == old(self).data_bytes + len,
            final(self).duration_ns == sat_add(old(self).duration_ns, duration_ns),
            final(self).frames == sat_add(old(self).frames, 1),
            final(self).bytes == final(self).data_bytes + if old(self).audio { WAV_HEADER_BYTES } else { 0 },
            final(self).duration_ms == final(self).duration_ns / 1000000,
            final(self).truncated == old(self).truncated,
    {
        self.data_bytes = self.data_bytes + len;
        self.duration_ns = self.duration_ns.saturating_add(duration_ns);
        self.frames = self.frames.saturating_add(1);
        self.bytes = self.data_bytes + if self.audio { WAV_HEADER_BYTES } else { 0 };
        self.duration_ms = self.duration_ns / 1000000;
    }

    /// Closes the artifact: raw video of several frames without a known
    /// duration is taken to run at about 30 frames a second.
    pub fn finish(&mut self)
        ensures
            !old(self).audio && old(self).frames > 1 && old(self).duration_ms == 0 ==> *final(self)
                == (ArtifactCounters {
                duration_ms: if old(self).frames * 33 > u64::MAX {
                    u64::MAX
                } else {
                    (old(self).frames * 33) as u64
                },
                ..*old(self)
            }),
            !(!old(self).audio && old(self).frames > 1 && old(self).duration_ms == 0) ==> *final(self)
                == *old(self),
    {
        if !self.audio && self.frames > 1 && self.duration_ms == 0 {
            self.duration_ms = match self.frames.checked_mul(33) {
                Some(v) => v,
                None => u64::MAX,
            };
        }
    }
}

/// What one dump session has recorded.
#[derive(Clone, Copy, Debug, PartialEq, Eq, Structural)]
pub struct SessionCounters {
    pub bytes: u64,
    pub frames: u64,
    pub next_artifact: u64,
    pub truncated: bool,
}

impl SessionCounters {
    /// A fresh session.
    pub fn new() -> (r: Self)
        ensures
            r == (SessionCounters { bytes: 0, frames: 0, next_artifact: 0, truncated: false }),
    {
        SessionCounters { bytes: 0, frames: 0, next_artifact: 0, truncated: false }
    }

    /// Whether the session takes another frame; a full session is marked
    /// truncated instead.
    pub fn open_for_frame(&mut self) -> (r: bool)
        ensures
            r == (old(self).bytes < MAX_SESSION_BYTES),
            r ==> *final(self) == *old(self),
            !r ==> *final(self) == (SessionCounters { truncated: true, ..*old(self) }),
    {
        if self.bytes >= MAX_SESSION_BYTES {
            self.truncated = true;
            return false;
        }
        true
    }

    /// Numbers a new artifact.
    pub fn next_artifact_number(&mut self) -> (r: u64)
        requires
            old(self).next_artifact < u64::MAX,
        ensures
            r == old(self).next_artifact + 1,
            *final(self) == (SessionCounters { next_artifact: r, ..*old(self) }),
    {
        self.next_artifact = self.next_artifact + 1;
        self.next_artifact
    }

    /// The bytes the session has left.
    pub fn remaining(&self) -> (r: u64)
        ensures
            r == if self.bytes >= MAX_SESSION_BYTES { 0 } else { MAX_SESSION_BYTES - self.bytes },
    {
        MAX_SESSION_BYTES.saturating_sub(self.bytes)
    }

    /// Records what an artifact wrote of a frame (`written` bytes, zero for a
    /// frame it refused); the session is truncated once the artifact is or
    /// the session bound is reached.
    pub fn record_write(&mut self, written: u64, artifact_truncated: bool)
        ensures
            final(self).bytes == sat_add(old(self).bytes, written),
            final(self).frames == if written != 0 { sat_add(old(self).frames, 1) } else { old(self).frames },
            final(self).next_artifact == old(self).next_artifact,
            final(self).truncated == (old(self).truncated || artifact_truncated || final(self).bytes
                >= MAX_SESSION_BYTES),
    {
        self.bytes = self.bytes.saturating_add(written);
        if written != 0 {
            self.frames = self.frames.saturating_add(1);
        }
        if artifact_truncated || self.bytes >= MAX_SESSION_BYTES {
            self.truncated = true;
        }
    }
}

/// A session never writes past its bound: a frame is written only when the
/// artifact admits it against what the session has left.
pub proof fn law_admitted_frame_fits_session(c: ArtifactCounters, s: SessionCounters, len: u64)
    requires
        s.bytes < MAX_SESSION_BYTES,
        len <= artifact_room(c, (MAX_SESSION_BYTES - s.bytes) as u64),
    ensures
        s.bytes + len <= MAX_SESSION_BYTES,
        c.data_bytes + len <= MAX_ARTIFACT_BYTES || c.data_bytes >= MAX_ARTIFACT_BYTES && len == 0,
{
}

/// The variant name of a sample format, as its `Debug` form writes it.
pub open spec fn sample_format_variant(format: PcmSampleFormat) -> Seq<char> {
    match format {
        PcmSampleFormat::U8 => "U8"@,
        PcmSampleFormat::I16Le => "I16Le"@,
        PcmSampleFormat::I24Le => "I24Le"@,
        PcmSampleFormat::I32Le => "I32Le"@,
        PcmSampleFormat::F32Le => "F32Le"@,
        PcmSampleFormat::F64Le => "F64Le"@,
    }
}

fn variant_name(format: PcmSampleFormat) -> (r: &'static str)
    ensures
        r@ == sample_format_variant(format),
{
    match format {
        PcmSampleFormat::U8 => "U8",
        PcmSampleFormat::I16Le => "I16Le",
        PcmSampleFormat::I24Le => "I24Le",
        PcmSampleFormat::I32Le => "I32Le",
        PcmSampleFormat::F32Le => "F32Le",
        PcmSampleFormat::F64Le => "F64Le",
    }
}

/// The track an audio frame is dumped to: frames of one node, direction,
/// port and PCM format share a WAV file. Written
/// `node|direction|port|audio|rate|channels|format`.
pub fn audio_track_key(
    node_id: &str,
    direction: &str,
    port: &str,
    sample_rate_hz: u32,
    channels: u16,
    format: PcmSampleFormat,
) -> (r: String)
    ensures
        r@ == node_id@ + "|"@ + direction@ + "|"@ + port@ + "|audio|"@ + decimal_digits(sample_rate_hz as nat)
            + "|"@ + decimal_digits(channels as nat) + "|"@ + sample_format_variant(format),
{
    let mut key = node_id.to_owned();
    key.append("|");
    key.append(direction);
    key.append("|");
    key.append(port);
    key.append("|audio|");
    let rate = u64_decimal(sample_rate_hz as u64);
    key.append(rate.as_str());
    key.append("|");
    let count = u64_decimal(channels as u64);
    key.append(count.as_str());
    key.append("|");
    key.append(variant_name(format));
    key
}

/// The most frames waiting for the capture writer.
pub const CAPTURE_QUEUE_FRAMES: usize = 256;

/// The most capture sessions the studio keeps.
pub const RETAINED_SESSIONS: usize = 4;

/// The data of a capture switch.
pub struct CaptureView {
    pub enabled: bool,
    pub dropped_frames: u64,
    pub active: Option<(Seq<char>, bool)>,
}

/// The studio's capture switch: whether capture is on, how many frames the
/// writer could not take, and the run being captured with whether its
/// finish was already requested.
pub struct CaptureControl {
    enabled: bool,
    dropped_frames: u64,
    active: Option<(String, bool)>,
}

impl View for CaptureControl {
    type V = CaptureView;

    closed spec fn view(&self) -> CaptureView {
        CaptureView {
            enabled: self.enabled,
            dropped_frames: self.dropped_frames,
            active: match self.active {
                Some((run, finished)) => Some((run@, finished)),
                None => None,
            },
        }
    }
}

impl CaptureControl {
    /// Capture off, nothing dropped, no run.
    pub fn new() -> (r: Self)
        ensures
            r@ == (CaptureView { enabled: false, dropped_frames: 0, active: None }),
    {
        CaptureControl { enabled: false, dropped_frames: 0, active: None }
    }

    /// Turns capture on or off.
    pub fn set_enabled(&mut self, enabled: bool)
        ensures
            final(self)@ == (CaptureView { enabled, ..old(self)@ }),
    {
        self.enabled = enabled;
    }

    /// Starts capturing the run `run_id`: the drop count starts afresh.
    pub fn start(&mut self, run_id: &str)
        ensures
            final(self)@ == (CaptureView {
                enabled: old(self)@.enabled,
                dropped_frames: 0,
                active: Some((run_id@, false)),
            }),
    {
        self.dropped_frames = 0;
        self.active = Some((run_id.to_owned(), false));
    }

    /// Requests the finish of the run `run_id`; returns whether the writer
    /// must finish it: only for the run being captured, and only once.
    pub fn finish(&mut self, run_id: &str) -> (r: bool)
        ensures
            match old(self)@.active {
                Some((current, finished)) => if current == run_id@ && !finished {
                    r && final(self)@ == (CaptureView { active: Some((current, true)), ..old(self)@ })
                } else {
                    !r && final(self)@ == old(self)@
                },
                None => !r && final(self)@ == old(self)@,
            },
    {
        let due = match &self.active {
            Some((current, finished)) => !*finished && crate::registry::str_equal(current.as_str(), run_id),
            None => false,
        };
        if due {
            match &mut self.active {
                Some((_, finished)) => {
                    *finished = true;
                },
                None => {},
            }
        }
        due
    }

    /// Whether an observed frame goes to the writer: only audio and video,
    /// and only while capture is on.
    pub fn admits(&self, media: bool) -> (r: bool)
        ensures
            r == (self@.enabled && media),
    {
        self.enabled && media
    }

    /// Counts a frame the writer could not take; the count wraps around.
    pub fn record_drop(&mut self)
        ensures
            final(self)@ == (CaptureView {
                dropped_frames: if old(self)@.dropped_frames == u64::MAX {
                    0
                } else {
                    (old(self)@.dropped_frames + 1) as u64
                },
                ..old(self)@
            }),
    {
        self.dropped_frames = self.dropped_frames.wrapping_add(1);
    }

    /// Whether capture is on.
    pub fn enabled(&self) -> (r: bool)
        ensures
            r == self@.enabled,
    {
        self.enabled
    }

    /// The frames the writer could not take in this run.
    pub fn dropped_frames(&self) -> (r: u64)
        ensures
            r == self@.dropped_frames,
    {
        self.dropped_frames
    }

    /// The run being captured.
    pub fn active_run_id(&self) -> (r: Option<&str>)
        ensures
            match self@.active {
                Some((run, _)) => r matches Some(s) && s@ == run,
                None => r is None,
            },
    {
        match &self.active {
            Some((run, _)) => Some(run.as_str()),
            None => None,
        }
    }
}

/// Why a request for a captured artifact is refused before its bytes are
/// read: unsafe path components, then an artifact the run does not list,
/// then one that is not ready or whose file name is unsafe. `listed` says,
/// for the artifact the run lists under `artifact_id`, whether it is ready
/// and its file name.
pub open spec fn artifact_request_problem(
    run_id: Seq<char>,
    artifact_id: Seq<char>,
    listed: Option<(bool, Seq<char>)>,
) -> Option<Seq<char>> {
    if !safe_component_spec(run_id) || !safe_component_spec(artifact_id) {
        Some("invalid media artifact path"@)
    } else {
        match listed {
            None => Some("media artifact not found"@),
            Some((ready, file_name)) => if !ready || !safe_component_spec(file_name) {
                Some("media artifact is not ready"@)
            } else {
                None
            },
        }
    }
}

/// Checks a request for a captured artifact (see `artifact_request_problem`).
pub fn check_artifact_request(run_id: &str, artifact_id: &str, listed: Option<(bool, &str)>) -> (r: Result<(), String>)
    ensures
        match artifact_request_problem(
            run_id@,
            artifact_id@,
            match listed {
                Some((ready, name)) => Some((ready, name@)),
                None => None,
            },
        ) {
            Some(e) => r matches Err(m) && m@ == e,
            None => r is Ok,
        },
{
    if !safe_component(run_id) || !safe_component(artifact_id) {
        return Err("invalid media artifact path".to_owned());
    }
    match listed {
        None => Err("media artifact not found".to_owned()),
        Some((ready, name)) => if !ready || !safe_component(name) {
            Err("media artifact is not ready".to_owned())
        } else {
            Ok(())
        },
    }
}

/// Checks the size of an artifact read back from disk: at most the artifact
/// bound plus a WAV header.
pub fn check_artifact_size(len: usize) -> (r: Result<(), String>)
    ensures
        len <= MAX_ARTIFACT_BYTES + WAV_HEADER_BYTES ==> r is Ok,
        len > MAX_ARTIFACT_BYTES + WAV_HEADER_BYTES ==> (r matches Err(m) && m@
            == "media artifact exceeds its configured limit"@),
{
    if len as u64 > MAX_ARTIFACT_BYTES + WAV_HEADER_BYTES {
        Err("media artifact exceeds its configured limit".to_owned())
    } else {
        Ok(())
    }
}

proof fn lemma_plane_len(v: AudioView, p: int)
    requires
        audio_well_formed(v),
        0 <= p < v.channels,
    ensures
        planar_range(v, p as nat).len() == v.samples_per_channel * sample_width(v.sample_format),
{
    let n = v.samples_per_channel as int;
    let w = sample_width(v.sample_format) as int;
    let ch = v.channels as int;
    lemma_plane_geometry(n, ch, w, p, 0);
    assert(v.bytes.len() == n * ch * w) by (nonlinear_arith)
        requires
            v.bytes.len() == expected_audio_bytes(v.channels as nat, v.sample_format, v.samples_per_channel as nat),
            n == v.samples_per_channel,
            w == sample_width(v.sample_format),
            ch == v.channels,
    ;
}

proof fn lemma_sample_frame(v: AudioView, s: int, c: int)
    requires
        audio_well_formed(v),
        0 <= s < v.samples_per_channel,
        0 <= c <= v.channels,
    ensures
        sample_frame(v, s, c).len() == c * sample_width(v.sample_format),
        forall|p: int, k: int|
            0 <= p < c && 0 <= k < sample_width(v.sample_format) ==> #[trigger] sample_frame(v, s, c)[p
                * sample_width(v.sample_format) + k] == planar_range(v, p as nat)[s * sample_width(v.sample_format)
                + k],
    decreases c,
{
    let w = sample_width(v.sample_format) as int;
    let n = v.samples_per_channel as int;
    if c > 0 {
        lemma_sample_frame(v, s, c - 1);
        lemma_plane_len(v, c - 1);
        lemma_plane_geometry(n, v.channels as int, w, c - 1, s);
        let prefix = sample_frame(v, s, c - 1);
        let piece = planar_range(v, (c - 1) as nat).subrange(s * w, s * w + w);
        assert(sample_frame(v, s, c) == prefix + piece);
        assert(prefix.len() == (c - 1) * w);
        assert(c * w == (c - 1) * w + w) by (nonlinear_arith);
        assert forall|p: int, k: int| 0 <= p < c && 0 <= k < w implies #[trigger] sample_frame(v, s, c)[p * w + k]
            == planar_range(v, p as nat)[s * w + k] by {
            if p < c - 1 {
                assert(p * w + k < (c - 1) * w) by (nonlinear_arith)
                    requires
                        0 <= p < c - 1,
                        0 <= k < w,
                ;
                assert(0 <= p * w + k) by (nonlinear_arith)
                    requires
                        0 <= p,
                        0 <= k,
                        w >= 0,
                ;
                assert(sample_frame(v, s, c)[p * w + k] == prefix[p * w + k]);
            } else {
                assert(p * w + k == (c - 1) * w + k);
                assert(sample_frame(v, s, c)[p * w + k] == piece[k]);
            }
        }
    }
}

proof fn lemma_frames(v: AudioView, m: int)
    requires
        audio_well_formed(v),
        0 <= m <= v.samples_per_channel,
    ensures
        interleaved_frames(v, m).len() == m * v.channels * sample_width(v.sample_format),
        forall|s: int, c: int, k: int|
            0 <= s < m && 0 <= c < v.channels && 0 <= k < sample_width(v.sample_format) ==> #[trigger] interleaved_frames(
                v,
                m,
            )[(s * v.channels + c) * sample_width(v.sample_format) + k] == planar_range(v, c as nat)[s
                * sample_width(v.sample_format) + k],
    decreases m,
{
    let w = sample_width(v.sample_format) as int;
    let ch = v.channels as int;
    if m > 0 {
        lemma_frames(v, m - 1);
        lemma_sample_frame(v, m - 1, ch);
        let prefix = interleaved_frames(v, m - 1);
        let last = sample_frame(v, m - 1, ch);
        assert(interleaved_frames(v, m) == prefix + last);
        assert(m * ch * w == (m - 1) * ch * w + ch * w) by (nonlinear_arith);
        assert forall|s: int, c: int, k: int| 0 <= s < m && 0 <= c < ch && 0 <= k < w implies #[trigger] interleaved_frames(
            v,
            m,
        )[(s * ch + c) * w + k] == planar_range(v, c as nat)[s * w + k] by {
            assert(0 <= (s * ch + c) * w + k) by (nonlinear_arith)
                requires
                    0 <= s,
                    0 <= c,
                    0 <= k,
                    ch >= 0,
                    w >= 0,
            ;
            if s < m - 1 {
                assert((s * ch + c) * w + k < (m - 1) * ch * w) by (nonlinear_arith)
                    requires
                        0 <= s < m - 1,
                        0 <= c < ch,
                        0 <= k < w,
                ;
                assert(interleaved_frames(v, m)[(s * ch + c) * w + k] == prefix[(s * ch + c) * w + k]);
            } else {
                assert((s * ch + c) * w + k == (m - 1) * ch * w + (c * w + k)) by (nonlinear_arith)
                    requires
                        s == m - 1,
                ;
                assert(interleaved_frames(v, m)[(s * ch + c) * w + k] == last[c * w + k]);
            }
        }
    }
}

/// Interleaving keeps every byte: the result is as long as the audio, and
/// in planar audio byte `k` of sample `s` of channel `c` lands at
/// `(s * channels + c) * width + k`, where `width` is the sample width.
pub proof fn law_interleaving_places_each_sample(v: AudioView, s: int, c: int, k: int)
    requires
        audio_well_formed(v),
        v.layout == AudioLayout::Planar,
        0 <= s < v.samples_per_channel,
        0 <= c < v.channels,
        0 <= k < sample_width(v.sample_format),
    ensures
        interleaved_bytes(v).len() == v.bytes.len(),
        interleaved_bytes(v)[(s * v.channels + c) * sample_width(v.sample_format) + k] == planar_range(v, c as nat)[s
            * sample_width(v.sample_format) + k],
{
    lemma_frames(v, v.samples_per_channel as int);
    assert(v.bytes.len() == v.samples_per_channel * v.channels * sample_width(v.sample_format)) by (nonlinear_arith)
        requires
            v.bytes.len() == expected_audio_bytes(v.channels as nat, v.sample_format, v.samples_per_channel as nat),
    ;
}

/// How an artifact is stored and served: its file name, its content type
/// and its kind.
#[derive(Clone, Debug)]
pub struct ArtifactNaming {
    pub file_name: String,
    pub content_type: &'static str,
    pub kind: &'static str,
}

/// The naming of artifact `id`: audio is a WAV file served as `audio/wav`,
/// video raw frames in a `.rawvideo` file served as plain bytes.
pub fn artifact_naming(id: &str, audio: bool) -> (r: ArtifactNaming)
    ensures
        audio ==> r.file_name@ == id@ + ".wav"@ && r.content_type@ == "audio/wav"@ && r.kind@ == "audio"@,
        !audio ==> r.file_name@ == id@ + ".rawvideo"@ && r.content_type@ == "application/octet-stream"@ && r.kind@
            == "video"@,
{
    let mut file_name = id.to_owned();
    if audio {
        file_name.append(".wav");
        ArtifactNaming { file_name, content_type: "audio/wav", kind: "audio" }
    } else {
        file_name.append(".rawvideo");
        ArtifactNaming { file_name, content_type: "application/octet-stream", kind: "video" }
    }
}

} // verus!
