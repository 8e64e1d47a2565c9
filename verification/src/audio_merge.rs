//! Payload coalescing of compatible PCM audio: the bytes of several parents
//! joined into one buffer of the same layout.
use vstd::prelude::*;

use crate::audio::{
    audio_rejection, audio_rejection_code, duration_floor_ns, planar_range, AudioData, AudioLayout,
    AudioView,
};
use crate::frame_buffer::FrameBuffer;
use crate::error::MuxivaError;

verus! {

/// The bytes of one plane of audio, if the plane exists: plane zero of
/// interleaved audio, or a channel of planar audio.
pub open spec fn plane_of(v: AudioView, plane: nat) -> Option<Seq<u8>> {
    match v.layout {
        AudioLayout::Interleaved => if plane == 0 {
            Some(v.bytes)
        } else {
            None
        },
        AudioLayout::Planar => if plane < v.channels {
            Some(planar_range(v, plane))
        } else {
            None
        },
    }
}

/// The plane `plane` of the first `n` parents, joined in order.
pub open spec fn joined_plane(ps: Seq<AudioView>, plane: nat, n: int) -> Option<Seq<u8>>
    decreases n,
{
    if n <= 0 {
        Some(Seq::empty())
    } else {
        match (joined_plane(ps, plane, n - 1), plane_of(ps[n - 1], plane)) {
            (Some(a), Some(b)) => Some(a + b),
            _ => None,
        }
    }
}

/// The first `c` planes of every parent: plane by plane, parent by parent.
pub open spec fn joined_planes(ps: Seq<AudioView>, c: int) -> Option<Seq<u8>>
    decreases c,
{
    if c <= 0 {
        Some(Seq::empty())
    } else {
        match (joined_planes(ps, c - 1), joined_plane(ps, (c - 1) as nat, ps.len() as int)) {
            (Some(a), Some(b)) => Some(a + b),
            _ => None,
        }
    }
}

/// The buffers of the first `n` parents, joined in order.
pub open spec fn joined_buffers(ps: Seq<AudioView>, n: int) -> Seq<u8>
    decreases n,
{
    if n <= 0 {
        Seq::empty()
    } else {
        joined_buffers(ps, n - 1) + ps[n - 1].bytes
    }
}

/// The views of a sequence of audio payloads.
pub open spec fn audio_views(ps: Seq<AudioData>) -> Seq<AudioView> {
    ps.map_values(|a: AudioData| a@)
}

/// Why audio could not be merged.
#[derive(Clone, Debug)]
pub enum AudioMergeError {
    /// The merge target is zero, or the maximum is zero or below the target.
    Duration,
    /// A merged size or sample count does not fit its machine integer.
    Arithmetic,
    /// A parent lacks a plane that the merge reads, or the merged audio is
    /// refused as a frame payload.
    Frame(MuxivaError),
}

impl AudioMergeError {
    /// The stable error code.
    pub fn code(&self) -> (r: &str)
        ensures
            match self {
                AudioMergeError::Duration => r@ == "VOXA-RT-AUDIO-MERGE-DURATION"@,
                AudioMergeError::Arithmetic => r@ == "VOXA-RT-AUDIO-MERGE-ARITHMETIC"@,
                AudioMergeError::Frame(e) => r@ == e.spec_code(),
            },
    {
        match self {
            AudioMergeError::Duration => "VOXA-RT-AUDIO-MERGE-DURATION",
            AudioMergeError::Arithmetic => "VOXA-RT-AUDIO-MERGE-ARITHMETIC",
            AudioMergeError::Frame(e) => e.code(),
        }
    }

    /// The human-readable message.
    pub fn message(&self) -> (r: &str)
        ensures
            match self {
                AudioMergeError::Duration => r@
                    == "audio merge target must be non-zero and no greater than its maximum"@,
                AudioMergeError::Arithmetic => r@ == "audio merge arithmetic overflowed"@,
                AudioMergeError::Frame(e) => r@ == e.spec_message(),
            },
    {
        match self {
            AudioMergeError::Duration => "audio merge target must be non-zero and no greater than its maximum",
            AudioMergeError::Arithmetic => "audio merge arithmetic overflowed",
            AudioMergeError::Frame(e) => e.message(),
        }
    }
}

/// The joined payload of `ps` in `layout`, when every plane it reads exists.
pub open spec fn merged_bytes(ps: Seq<AudioView>, layout: AudioLayout) -> Option<Seq<u8>> {
    match layout {
        AudioLayout::Interleaved => Some(joined_buffers(ps, ps.len() as int)),
        AudioLayout::Planar => joined_planes(ps, ps[0].channels as int),
    }
}

/// The total size of the first `n` buffers.
pub open spec fn total_bytes(ps: Seq<AudioView>, n: int) -> int
    decreases n,
{
    if n <= 0 {
        0
    } else {
        total_bytes(ps, n - 1) + ps[n - 1].bytes.len()
    }
}

/// Joins the payloads of `parents` into one buffer of `layout`: interleaved
/// buffers back to back; planar channels one after another, each holding
/// that channel of every parent in order.
pub fn merge_payload_bytes(parents: &[AudioData], layout: AudioLayout) -> (r: Result<Vec<u8>, AudioMergeError>)
    requires
        layout == AudioLayout::Planar ==> parents@.len() > 0,
    ensures
        total_bytes(audio_views(parents@), parents@.len() as int) > usize::MAX ==> r matches Err(
            AudioMergeError::Arithmetic,
        ),
        total_bytes(audio_views(parents@), parents@.len() as int) <= usize::MAX ==> match merged_bytes(
            audio_views(parents@),
            layout,
        ) {
            Some(bytes) => r matches Ok(v) && v@ == bytes,
            None => r matches Err(AudioMergeError::Frame(e)) && e.spec_code() == "MUXIVA-FRM-AUDIO-PLANE"@,
        },
{
    let ghost ps = audio_views(parents@);
    let mut total: usize = 0;
    let mut i: usize = 0;
    while i < parents.len()
        invariant
            ps == audio_views(parents@),
            0 <= i <= parents@.len(),
            total == total_bytes(ps, i as int),
        decreases parents@.len() - i,
    {
        proof {
            assert(ps[i as int] == parents@[i as int]@);
        }
        let len = parents[i].buffer().len();
        match total.checked_add(len) {
            Some(t) => {
                total = t;
            },
            None => {
                proof {
                    lemma_total_grows(ps, i + 1, parents@.len() as int);
                }
                return Err(AudioMergeError::Arithmetic);
            },
        }
        i = i + 1;
    }
    let ghost sum = total_bytes(ps, parents@.len() as int);
    assert(sum <= usize::MAX);
    let mut output: Vec<u8> = Vec::new();
    match layout {
        AudioLayout::Interleaved => {
            let mut k: usize = 0;
            while k < parents.len()
                invariant
                    ps == audio_views(parents@),
                    sum == total_bytes(ps, parents@.len() as int),
                    sum <= usize::MAX,
                    layout == AudioLayout::Interleaved,
                    0 <= k <= parents@.len(),
                    output@ == joined_buffers(ps, k as int),
                decreases parents@.len() - k,
            {
                proof {
                    assert(ps[k as int] == parents@[k as int]@);
                }
                let bytes = parents[k].buffer().as_slice();
                let ghost before = output@;
                append_bytes(&mut output, bytes);
                k = k + 1;
            }
            Ok(output)
        },
        AudioLayout::Planar => {
            let channels = parents[0].channels();
            let mut channel: u16 = 0;
            while channel < channels
                invariant
                    ps == audio_views(parents@),
                    sum == total_bytes(ps, parents@.len() as int),
                    sum <= usize::MAX,
                    layout == AudioLayout::Planar,
                    parents@.len() > 0,
                    channels == ps[0].channels,
                    0 <= channel <= channels,
                    joined_planes(ps, channel as int) == Some(output@),
                decreases channels - channel,
            {
                let mut k: usize = 0;
                let ghost base = output@;
                while k < parents.len()
                    invariant
                        ps == audio_views(parents@),
                        sum == total_bytes(ps, parents@.len() as int),
                        sum <= usize::MAX,
                        layout == AudioLayout::Planar,
                        parents@.len() > 0,
                        channels == ps[0].channels,
                        channel < channels,
                        0 <= k <= parents@.len(),
                        joined_planes(ps, channel as int) == Some(base),
                        joined_plane(ps, channel as nat, k as int) matches Some(part) && output@ == base + part,
                    decreases parents@.len() - k,
                {
                    proof {
                        assert(ps[k as int] == parents@[k as int]@);
                    }
                    match parents[k].plane_bytes(channel) {
                        Ok(bytes) => {
                            append_bytes(&mut output, bytes);
                            proof {
                                let part = joined_plane(ps, channel as nat, k as int).unwrap();
                                assert(base + part + bytes@ =~= base + (part + bytes@));
                            }
                        },
                        Err(e) => {
                            proof {
                                assert(plane_of(ps[k as int], channel as nat) is None);
                                assert(joined_plane(ps, channel as nat, k + 1) is None);
                                lemma_plane_missing(ps, channel as nat, k + 1, ps.len() as int);
                                assert(joined_planes(ps, channel + 1) is None);
                                lemma_planes_missing(ps, channel + 1, ps[0].channels as int);
                            }
                            return Err(AudioMergeError::Frame(e));
                        },
                    }
                    k = k + 1;
                }
                channel = channel + 1;
            }
            Ok(output)
        },
    }
}


/// The header facts that decide whether one audio frame continues another:
/// the stream, trace and clock domain it belongs to, its sequence number and
/// its timestamp in nanoseconds.
#[derive(Clone, Copy, Debug, PartialEq, Eq, Structural)]
pub struct MergeHeader {
    pub stream_id: u64,
    pub trace_id: u64,
    pub clock_domain: u64,
    pub sequence: u64,
    pub timestamp_ns: i64,
}

/// One queued frame as the merge sees it: its header and, when it carries
/// audio, that audio.
#[derive(Clone, Debug)]
pub struct MergeCandidate {
    pub header: MergeHeader,
    pub audio: Option<AudioData>,
}

/// The most frames one merge consumes.
pub const MAX_MERGED_FRAMES: usize = 1024;

/// Whether `next` continues `prev`: both carry audio of one format, they share
/// stream, trace and clock domain, `next` has the following sequence number,
/// and its timestamp is that of `prev` plus the duration of `prev`.
pub open spec fn continues(prev: MergeCandidate, next: MergeCandidate) -> bool {
    match (prev.audio, next.audio) {
        (Some(p), Some(n)) => {
            &&& p@.duration_ns <= i64::MAX
            &&& prev.header.stream_id == next.header.stream_id
            &&& prev.header.trace_id == next.header.trace_id
            &&& prev.header.clock_domain == next.header.clock_domain
            &&& prev.header.sequence + 1 == next.header.sequence
            &&& prev.header.timestamp_ns + p@.duration_ns == next.header.timestamp_ns
            &&& p@.sample_rate_hz == n@.sample_rate_hz
            &&& p@.channels == n@.channels
            &&& p@.sample_format == n@.sample_format
            &&& p@.layout == n@.layout
        },
        _ => false,
    }
}

/// Decides whether `next` continues `prev` (see `continues`).
pub fn compatible_with_previous(prev: &MergeCandidate, next: &MergeCandidate) -> (r: bool)
    ensures
        r == continues(*prev, *next),
{
    match (&prev.audio, &next.audio) {
        (Some(p), Some(n)) => {
            let duration = p.duration_ns();
            if duration > 0x7fff_ffff_ffff_ffffu64 {
                return false;
            }
            let a = prev.header;
            let b = next.header;
            let later = (a.timestamp_ns as i128) + (duration as i128);
            a.stream_id == b.stream_id && a.trace_id == b.trace_id && a.clock_domain
                == b.clock_domain && a.sequence < u64::MAX && a.sequence + 1 == b.sequence
                && later == (b.timestamp_ns as i128) && p.sample_rate_hz() == n.sample_rate_hz()
                && p.channels() == n.channels() && p.sample_format() == n.sample_format()
                && p.layout() == n.layout()
        },
        _ => false,
    }
}

/// The prefix scan of a merge from frame `count` on, with `duration`
/// nanoseconds taken so far: frames are taken while they carry audio,
/// continue their predecessor and keep the total within `maximum`, up to
/// `MAX_MERGED_FRAMES` frames, stopping once the total reaches `target`.
/// Gives the number of frames taken and their total duration.
pub open spec fn scan_prefix(cs: Seq<MergeCandidate>, target: nat, maximum: nat, count: nat, duration: nat) -> (nat, nat)
    decreases cs.len() - count,
{
    if count >= cs.len() || count >= MAX_MERGED_FRAMES {
        (count, duration)
    } else if cs[count as int].audio is None {
        (count, duration)
    } else if count > 0 && !continues(cs[count - 1], cs[count as int]) {
        (count, duration)
    } else {
        let next: nat = duration + (cs[count as int].audio.unwrap()@.duration_ns as nat);
        if next > maximum {
            (count, duration)
        } else if next >= target {
            (count + 1, next)
        } else {
            scan_prefix(cs, target, maximum, count + 1, next)
        }
    }
}

/// Runs the prefix scan from the first frame.
fn take_prefix(frames: &[MergeCandidate], target: u64, maximum: u64) -> (r: (usize, u64))
    ensures
        (r.0 as nat, r.1 as nat) == scan_prefix(frames@, target as nat, maximum as nat, 0, 0),
        r.0 <= frames@.len(),
{
    let mut count: usize = 0;
    let mut duration: u64 = 0;
    while count < frames.len() && count < MAX_MERGED_FRAMES
        invariant
            count <= frames@.len(),
            duration <= maximum,
            scan_prefix(frames@, target as nat, maximum as nat, 0, 0) == scan_prefix(
                frames@,
                target as nat,
                maximum as nat,
                count as nat,
                duration as nat,
            ),
        decreases frames@.len() - count,
    {
        let d = match &frames[count].audio {
            Some(a) => a.duration_ns(),
            None => return (count, duration),
        };
        if count > 0 && !compatible_with_previous(&frames[count - 1], &frames[count]) {
            return (count, duration);
        }
        if d > maximum - duration {
            return (count, duration);
        }
        duration = duration + d;
        count = count + 1;
        if duration >= target {
            return (count, duration);
        }
    }
    (count, duration)
}

/// The total samples per channel of the first `n` views.
pub open spec fn total_samples(ps: Seq<AudioView>, n: int) -> int
    decreases n,
{
    if n <= 0 {
        0
    } else {
        total_samples(ps, n - 1) + ps[n - 1].samples_per_channel
    }
}

/// The audio views of the first `n` candidates, all of which carry audio.
pub open spec fn prefix_views(cs: Seq<MergeCandidate>, n: int) -> Seq<AudioView> {
    Seq::new(n as nat, |i: int| cs[i].audio.unwrap()@)
}

/// What merging the first `n` candidates gives once the prefix is chosen: the
/// payload, then the summed sample count, then the merged audio as
/// `AudioData::new` validates it, each failing as its step does.
pub open spec fn merge_outcome(ps: Seq<AudioView>, r: Result<Option<MergedAudioFrame>, AudioMergeError>) -> bool {
    let first = ps[0];
    if total_bytes(ps, ps.len() as int) > usize::MAX {
        r matches Err(AudioMergeError::Arithmetic)
    } else {
        match merged_bytes(ps, first.layout) {
            None => r matches Err(AudioMergeError::Frame(e)) && e.spec_code() == "MUXIVA-FRM-AUDIO-PLANE"@,
            Some(bytes) => if total_samples(ps, ps.len() as int) > u64::MAX {
                r matches Err(AudioMergeError::Arithmetic)
            } else {
                let samples = total_samples(ps, ps.len() as int) as u64;
                match audio_rejection(
                    bytes.len(),
                    first.sample_rate_hz,
                    first.channels,
                    first.sample_format,
                    samples,
                ) {
                    Some(k) => r matches Err(AudioMergeError::Frame(e)) && e.spec_code()
                        == audio_rejection_code(k),
                    None => r matches Ok(Some(m)) && m.source_count == ps.len() && m.audio@
                        == (AudioView {
                        bytes,
                        sample_rate_hz: first.sample_rate_hz,
                        channels: first.channels,
                        sample_format: first.sample_format,
                        layout: first.layout,
                        samples_per_channel: samples,
                        duration_ns: duration_floor_ns(samples as nat, first.sample_rate_hz as nat)
                            as u64,
                    }),
                }
            },
        }
    }
}

/// Merged audio and the number of queued frames it stands for.
#[derive(Clone, Debug)]
pub struct MergedAudioFrame {
    pub audio: AudioData,
    pub source_count: usize,
}

impl MergedAudioFrame {
    /// The merged audio.
    pub fn audio(&self) -> (r: &AudioData)
        ensures
            r == &self.audio,
    {
        &self.audio
    }

    /// How many queued frames the merged audio replaces.
    pub fn source_count(&self) -> (r: usize)
        ensures
            r == self.source_count,
    {
        self.source_count
    }

    /// Gives up the merged audio.
    pub fn into_audio(self) -> (r: AudioData)
        ensures
            r == self.audio,
    {
        self.audio
    }
}

/// Merges the longest compatible audio prefix of `frames` that reaches
/// `target_ns` without exceeding `maximum_ns`. A prefix that is too short or
/// stays under the target leaves the frames untouched (`None`).
pub fn merge_audio_prefix(frames: &[MergeCandidate], target_ns: u64, maximum_ns: u64) -> (r: Result<
    Option<MergedAudioFrame>,
    AudioMergeError,
>)
    ensures
        (target_ns == 0 || maximum_ns == 0 || target_ns > maximum_ns) ==> r matches Err(
            AudioMergeError::Duration,
        ),
        !(target_ns == 0 || maximum_ns == 0 || target_ns > maximum_ns) ==> {
            let (n, d) = scan_prefix(frames@, target_ns as nat, maximum_ns as nat, 0, 0);
            if n < 2 || d < target_ns {
                r matches Ok(None)
            } else {
                merge_outcome(prefix_views(frames@, n as int), r)
            }
        },
{
    if target_ns == 0 || maximum_ns == 0 || target_ns > maximum_ns {
        return Err(AudioMergeError::Duration);
    }
    let (count, duration) = take_prefix(frames, target_ns, maximum_ns);
    if count < 2 || duration < target_ns {
        return Ok(None);
    }
    proof {
        lemma_prefix_carries_audio(frames@, target_ns as nat, maximum_ns as nat, 0, 0);
    }
    let ghost ps = prefix_views(frames@, count as int);
    let mut parents: Vec<AudioData> = Vec::new();
    let mut i: usize = 0;
    while i < count
        invariant
            count <= frames@.len(),
            forall|j: int| 0 <= j < count ==> (#[trigger] frames@[j]).audio is Some,
            ps == prefix_views(frames@, count as int),
            0 <= i <= count,
            parents@.len() == i,
            forall|j: int| 0 <= j < i ==> (#[trigger] parents@[j])@ == ps[j],
        decreases count - i,
    {
        match &frames[i].audio {
            Some(a) => {
                parents.push(a.clone());
            },
            None => {
                proof {
                    assert(frames@[i as int].audio is Some);
                }
                return Ok(None);
            },
        }
        i = i + 1;
    }
    proof {
        assert(audio_views(parents@) =~= ps);
    }
    let first = parents[0].clone();
    let bytes = match merge_payload_bytes(parents.as_slice(), first.layout()) {
        Ok(b) => b,
        Err(e) => return Err(e),
    };
    let samples = match sum_samples(parents.as_slice()) {
        Some(t) => t,
        None => return Err(AudioMergeError::Arithmetic),
    };
    let merged = AudioData::new(
        FrameBuffer::from_vec(bytes),
        first.sample_rate_hz(),
        first.channels(),
        first.sample_format(),
        first.layout(),
        samples,
    );
    match merged {
        Ok(audio) => Ok(Some(MergedAudioFrame { audio, source_count: count })),
        Err(e) => Err(AudioMergeError::Frame(e)),
    }
}

/// The summed samples per channel of `parents`, or `None` when the sum does
/// not fit in `u64`.
fn sum_samples(parents: &[AudioData]) -> (r: Option<u64>)
    ensures
        match r {
            Some(t) => t == total_samples(audio_views(parents@), parents@.len() as int),
            None => total_samples(audio_views(parents@), parents@.len() as int) > u64::MAX,
        },
{
    let ghost ps = audio_views(parents@);
    let mut samples: u64 = 0;
    let mut k: usize = 0;
    while k < parents.len()
        invariant
            ps == audio_views(parents@),
            0 <= k <= parents@.len(),
            samples == total_samples(ps, k as int),
        decreases parents@.len() - k,
    {
        proof {
            assert(ps[k as int] == parents@[k as int]@);
        }
        match samples.checked_add(parents[k].samples_per_channel()) {
            Some(t) => {
                samples = t;
            },
            None => {
                proof {
                    lemma_samples_grow(ps, k + 1, parents@.len() as int);
                }
                return None;
            },
        }
        k = k + 1;
    }
    Some(samples)
}

proof fn lemma_prefix_carries_audio(cs: Seq<MergeCandidate>, target: nat, maximum: nat, count: nat, duration: nat)
    requires
        forall|j: int| 0 <= j < count ==> (#[trigger] cs[j]).audio is Some,
        count <= cs.len(),
    ensures
        scan_prefix(cs, target, maximum, count, duration).0 <= cs.len(),
        scan_prefix(cs, target, maximum, count, duration).0 >= count,
        forall|j: int|
            0 <= j < scan_prefix(cs, target, maximum, count, duration).0 ==> (#[trigger] cs[j]).audio is Some,
    decreases cs.len() - count,
{
    if count < cs.len() && count < MAX_MERGED_FRAMES && cs[count as int].audio is Some && !(count > 0
        && !continues(cs[count - 1], cs[count as int])) {
        let next: nat = duration + (cs[count as int].audio.unwrap()@.duration_ns as nat);
        if next <= maximum && next < target {
            lemma_prefix_carries_audio(cs, target, maximum, count + 1, next);
        }
    }
}

proof fn lemma_samples_grow(ps: Seq<AudioView>, m: int, n: int)
    requires
        0 <= m <= n,
    ensures
        total_samples(ps, m) <= total_samples(ps, n),
    decreases n - m,
{
    if m < n {
        lemma_samples_grow(ps, m, n - 1);
    }
}

pub(crate) fn append_bytes(output: &mut Vec<u8>, bytes: &[u8])
    ensures
        final(output)@ == old(output)@ + bytes@,
{
    let mut i: usize = 0;
    let ghost start = output@;
    while i < bytes.len()
        invariant
            0 <= i <= bytes@.len(),
            output@ == start + bytes@.take(i as int),
        decreases bytes@.len() - i,
    {
        output.push(bytes[i]);
        proof {
            assert(bytes@.take(i + 1) =~= bytes@.take(i as int).push(bytes@[i as int]));
        }
        i = i + 1;
    }
    proof {
        assert(bytes@.take(bytes@.len() as int) =~= bytes@);
    }
}

proof fn lemma_total_grows(ps: Seq<AudioView>, m: int, n: int)
    requires
        0 <= m <= n,
    ensures
        total_bytes(ps, m) <= total_bytes(ps, n),
    decreases n - m,
{
    if m < n {
        lemma_total_grows(ps, m, n - 1);
    }
}

proof fn lemma_plane_missing(ps: Seq<AudioView>, plane: nat, m: int, n: int)
    requires
        0 <= m <= n,
        joined_plane(ps, plane, m) is None,
    ensures
        joined_plane(ps, plane, n) is None,
    decreases n - m,
{
    if m < n {
        lemma_plane_missing(ps, plane, m, n - 1);
    }
}

proof fn lemma_planes_missing(ps: Seq<AudioView>, m: int, n: int)
    requires
        0 <= m,
        joined_planes(ps, m) is None,
    ensures
        m <= n ==> joined_planes(ps, n) is None,
    decreases n - m,
{
    if m < n {
        lemma_planes_missing(ps, m, n - 1);
    }
}

/// The summed durations of the first `n` candidates' audio.
pub open spec fn duration_sum(cs: Seq<MergeCandidate>, n: int) -> nat
    decreases n,
{
    if n <= 0 {
        0
    } else {
        duration_sum(cs, n - 1) + match cs[n - 1].audio {
            Some(a) => a@.duration_ns as nat,
            None => 0,
        }
    }
}

/// What a prefix of candidates is: audio frames, each continuing the one
/// before it.
pub open spec fn compatible_prefix(cs: Seq<MergeCandidate>, n: int) -> bool {
    &&& forall|j: int| 0 <= j < n ==> (#[trigger] cs[j]).audio is Some
    &&& forall|j: int| 0 < j < n ==> continues(cs[j - 1], #[trigger] cs[j])
}

proof fn lemma_scan_prefix(cs: Seq<MergeCandidate>, target: nat, maximum: nat, count: nat, duration: nat)
    requires
        count <= cs.len(),
        count <= MAX_MERGED_FRAMES,
        duration == duration_sum(cs, count as int),
        duration <= maximum,
        compatible_prefix(cs, count as int),
    ensures
        ({
            let (n, d) = scan_prefix(cs, target, maximum, count, duration);
            &&& count <= n <= cs.len()
            &&& n <= MAX_MERGED_FRAMES
            &&& d == duration_sum(cs, n as int)
            &&& d <= maximum
            &&& compatible_prefix(cs, n as int)
        }),
    decreases cs.len() - count,
{
    if count < cs.len() && count < MAX_MERGED_FRAMES && cs[count as int].audio is Some && !(count > 0
        && !continues(cs[count - 1], cs[count as int])) {
        let next: nat = duration + (cs[count as int].audio.unwrap()@.duration_ns as nat);
        assert(duration_sum(cs, (count + 1) as int) == next);
        if next <= maximum {
            assert(compatible_prefix(cs, (count + 1) as int)) by {
                assert forall|j: int| 0 < j < count + 1 implies continues(cs[j - 1], #[trigger] cs[j]) by {
                    if j < count {
                    }
                }
            }
            if next < target {
                lemma_scan_prefix(cs, target, maximum, count + 1, next);
            }
        }
    }
}

/// A merge consumes a compatible prefix that reaches the target: when
/// `merge_audio_prefix` gives a merged frame, it was made of the first
/// `k` frames, with 2 <= k <= min(frames, 1024), all of them audio, each
/// continuing the one before it, and their durations sum to at least the
/// target and at most the maximum.
pub proof fn law_merge_takes_a_compatible_prefix(
    cs: Seq<MergeCandidate>,
    target_ns: u64,
    maximum_ns: u64,
    merged: MergedAudioFrame,
)
    requires
        !(target_ns == 0 || maximum_ns == 0 || target_ns > maximum_ns),
        ({
            let (n, d) = scan_prefix(cs, target_ns as nat, maximum_ns as nat, 0, 0);
            !(n < 2 || d < target_ns) && merge_outcome(
                prefix_views(cs, n as int),
                Ok::<Option<MergedAudioFrame>, AudioMergeError>(Some(merged)),
            )
        }),
    ensures
        2 <= merged.source_count <= cs.len(),
        merged.source_count <= MAX_MERGED_FRAMES,
        compatible_prefix(cs, merged.source_count as int),
        target_ns <= duration_sum(cs, merged.source_count as int) <= maximum_ns,
{
    lemma_scan_prefix(cs, target_ns as nat, maximum_ns as nat, 0, 0);
    let (n, d) = scan_prefix(cs, target_ns as nat, maximum_ns as nat, 0, 0);
    assert(prefix_views(cs, n as int).len() == n);
}

} // verus!
