use voxa::audio::{AudioData, AudioLayout, PcmSampleFormat};
use voxa::audio_merge::{
    compatible_with_previous, merge_audio_prefix, merge_payload_bytes, AudioMergeError, MergeCandidate,
    MergeHeader,
};
use voxa::frame_buffer::FrameBuffer;
use voxa::media_dump::{
    artifact_id, audio_track_key, check_artifact_request, check_artifact_size, interleaved_audio, safe_component, sample_format_name, wav_header,
    ArtifactCounters, SessionCounters, MAX_ARTIFACT_BYTES, MAX_SESSION_BYTES,
};

fn pcm(bytes: Vec<u8>, channels: u16, layout: AudioLayout, samples: u64) -> AudioData {
    AudioData::new(
        FrameBuffer::from_vec(bytes),
        16_000,
        channels,
        PcmSampleFormat::I16Le,
        layout,
        samples,
    )
    .unwrap()
}

fn candidate(sequence: u64, timestamp_ns: i64, audio: Option<AudioData>) -> MergeCandidate {
    MergeCandidate {
        header: MergeHeader { stream_id: 1, trace_id: 2, clock_domain: 3, sequence, timestamp_ns },
        audio,
    }
}

#[test]
fn wav_header_is_standard_and_bounded() {
    let header = wav_header(16_000, 1, PcmSampleFormat::I16Le, 4).unwrap();
    let mut bytes = header.clone();
    bytes.extend_from_slice(&[0, 0, 1, 0]);
    assert_eq!(&bytes[..4], b"RIFF");
    assert_eq!(&bytes[8..12], b"WAVE");
    assert_eq!(u32::from_le_bytes(bytes[40..44].try_into().unwrap()), 4);
    assert_eq!(bytes.len(), 48);
    assert_eq!(u32::from_le_bytes(header[4..8].try_into().unwrap()), 40);
    assert_eq!(u16::from_le_bytes(header[20..22].try_into().unwrap()), 1);
    assert_eq!(u32::from_le_bytes(header[28..32].try_into().unwrap()), 32_000);
    assert_eq!(u16::from_le_bytes(header[32..34].try_into().unwrap()), 2);
    assert_eq!(u16::from_le_bytes(header[34..36].try_into().unwrap()), 16);
}

#[test]
fn wav_header_marks_float_and_rejects_oversized_data() {
    let header = wav_header(48_000, 2, PcmSampleFormat::F32Le, 8).unwrap();
    assert_eq!(u16::from_le_bytes(header[20..22].try_into().unwrap()), 3);
    assert_eq!(wav_header(16_000, 1, PcmSampleFormat::U8, 1 << 33).unwrap_err(), "WAV data exceeds 4 GiB");
    assert_eq!(
        wav_header(16_000, 65_535, PcmSampleFormat::F64Le, 0).unwrap_err(),
        "invalid WAV block alignment"
    );
    assert_eq!(
        wav_header(u32::MAX, 2, PcmSampleFormat::I16Le, 0).unwrap_err(),
        "invalid WAV byte rate"
    );
    let saturated = wav_header(8_000, 1, PcmSampleFormat::U8, u32::MAX as u64).unwrap();
    assert_eq!(u32::from_le_bytes(saturated[4..8].try_into().unwrap()), u32::MAX);
}

#[test]
fn planar_audio_is_interleaved_for_dumping() {
    let planar = pcm(vec![1, 2, 3, 4, 5, 6, 7, 8], 2, AudioLayout::Planar, 2);
    assert_eq!(interleaved_audio(&planar).unwrap(), vec![1, 2, 5, 6, 3, 4, 7, 8]);
    let interleaved = pcm(vec![9, 8, 7, 6], 2, AudioLayout::Interleaved, 1);
    assert_eq!(interleaved_audio(&interleaved).unwrap(), vec![9, 8, 7, 6]);
}

#[test]
fn dump_names_and_keys() {
    assert!(safe_component("run-1.A_b"));
    assert!(!safe_component(""));
    assert!(!safe_component("../x"));
    assert!(!safe_component(&"a".repeat(129)));
    assert_eq!(artifact_id(7), "media-0007");
    assert_eq!(artifact_id(12345), "media-12345");
    assert_eq!(sample_format_name(PcmSampleFormat::I16Le), "i16le");
    assert_eq!(
        audio_track_key("mic", "output", "audio", 16_000, 1, PcmSampleFormat::I16Le),
        "mic|output|audio|audio|16000|1|I16Le"
    );
}

#[test]
fn artifact_and_session_counters_bound_what_is_written() {
    let mut artifact = ArtifactCounters::new(true);
    assert_eq!(artifact.bytes, 44);
    assert!(artifact.admit_frame(100, MAX_SESSION_BYTES));
    artifact.record_frame(100, 20_000_000);
    assert_eq!(artifact.bytes, 144);
    assert_eq!(artifact.frames, 1);
    assert_eq!(artifact.duration_ms, 20);
    assert!(!artifact.admit_frame(MAX_ARTIFACT_BYTES, MAX_SESSION_BYTES));
    assert!(artifact.truncated);
    let mut video = ArtifactCounters::new(false);
    video.record_frame(10, 0);
    video.record_frame(10, 0);
    video.finish();
    assert_eq!(video.duration_ms, 66);

    let mut session = SessionCounters::new();
    assert!(session.open_for_frame());
    assert_eq!(session.next_artifact_number(), 1);
    session.record_write(100, false);
    assert_eq!(session.frames, 1);
    assert_eq!(session.remaining(), MAX_SESSION_BYTES - 100);
    session.record_write(0, true);
    assert_eq!(session.frames, 1);
    assert!(session.truncated);
    session.record_write(MAX_SESSION_BYTES, false);
    assert!(!session.open_for_frame());
}

#[test]
fn payload_bytes_join_interleaved_and_planar_parents() {
    let a = pcm(vec![1, 2, 3, 4], 1, AudioLayout::Interleaved, 2);
    let b = pcm(vec![5, 6], 1, AudioLayout::Interleaved, 1);
    assert_eq!(merge_payload_bytes(&[a, b], AudioLayout::Interleaved).unwrap(), vec![1, 2, 3, 4, 5, 6]);
    let p = pcm(vec![1, 2, 3, 4], 2, AudioLayout::Planar, 1);
    let q = pcm(vec![5, 6, 7, 8], 2, AudioLayout::Planar, 1);
    assert_eq!(merge_payload_bytes(&[p, q], AudioLayout::Planar).unwrap(), vec![1, 2, 5, 6, 3, 4, 7, 8]);
}

#[test]
fn payload_merge_reports_a_missing_plane() {
    let p = pcm(vec![1, 2, 3, 4], 2, AudioLayout::Planar, 1);
    let mono = pcm(vec![5, 6], 1, AudioLayout::Planar, 1);
    let error = merge_payload_bytes(&[p, mono], AudioLayout::Planar).unwrap_err();
    assert_eq!(error.code(), "MUXIVA-FRM-AUDIO-PLANE");
}

#[test]
fn audio_prefix_merges_until_the_target_and_respects_the_maximum() {
    // 160 samples at 16 kHz last 10 ms each.
    let frame = |sequence: u64| {
        let timestamp = (sequence as i64) * 10_000_000;
        candidate(sequence, timestamp, Some(pcm(vec![0; 320], 1, AudioLayout::Interleaved, 160)))
    };
    let frames = vec![frame(0), frame(1), frame(2), frame(3)];
    assert!(compatible_with_previous(&frames[0], &frames[1]));
    let merged = merge_audio_prefix(&frames, 30_000_000, 40_000_000).unwrap().unwrap();
    assert_eq!(merged.source_count(), 3);
    assert_eq!(merged.audio().samples_per_channel(), 480);
    assert_eq!(merged.audio().buffer().len(), 960);
    assert_eq!(merged.audio().duration_ns(), 30_000_000);

    assert!(merge_audio_prefix(&frames[..1], 10_000_000, 40_000_000).unwrap().is_none());
    assert!(merge_audio_prefix(&frames, 50_000_000, 50_000_000).unwrap().is_none());
    let gap = vec![frame(0), frame(2)];
    assert!(!compatible_with_previous(&gap[0], &gap[1]));
    assert!(merge_audio_prefix(&gap, 20_000_000, 40_000_000).unwrap().is_none());
    let not_audio = vec![candidate(0, 0, None), frame(1)];
    assert!(merge_audio_prefix(&not_audio, 10_000_000, 40_000_000).unwrap().is_none());
}

#[test]
fn audio_prefix_rejects_bad_durations() {
    let error = merge_audio_prefix(&[], 0, 10).unwrap_err();
    assert!(matches!(error, AudioMergeError::Duration));
    assert_eq!(error.code(), "VOXA-RT-AUDIO-MERGE-DURATION");
    assert!(matches!(merge_audio_prefix(&[], 20, 10), Err(AudioMergeError::Duration)));
    assert!(matches!(merge_audio_prefix(&[], 10, 0), Err(AudioMergeError::Duration)));
    assert_eq!(AudioMergeError::Arithmetic.message(), "audio merge arithmetic overflowed");
}

#[test]
fn capture_switch_finishes_each_run_once() {
    let mut control = voxa::media_dump::CaptureControl::new();
    assert!(!control.admits(true));
    control.set_enabled(true);
    assert!(control.admits(true));
    assert!(!control.admits(false));
    assert!(!control.finish("run-1"));
    control.start("run-1");
    control.record_drop();
    control.record_drop();
    assert_eq!(control.dropped_frames(), 2);
    assert_eq!(control.active_run_id(), Some("run-1"));
    assert!(!control.finish("run-2"));
    assert!(control.finish("run-1"));
    assert!(!control.finish("run-1"));
    control.start("run-2");
    assert_eq!(control.dropped_frames(), 0);
    assert!(control.enabled());
}

#[test]
fn artifact_requests_are_checked_before_reading() {
    assert_eq!(check_artifact_request("../x", "media-0001", Some((true, "a.wav"))).unwrap_err(), "invalid media artifact path");
    assert_eq!(check_artifact_request("run-1", "media-0001", None).unwrap_err(), "media artifact not found");
    assert_eq!(check_artifact_request("run-1", "media-0001", Some((false, "a.wav"))).unwrap_err(), "media artifact is not ready");
    assert_eq!(check_artifact_request("run-1", "media-0001", Some((true, "a/b.wav"))).unwrap_err(), "media artifact is not ready");
    assert!(check_artifact_request("run-1", "media-0001", Some((true, "a.wav"))).is_ok());
    assert!(check_artifact_size((MAX_ARTIFACT_BYTES + 44) as usize).is_ok());
    assert_eq!(
        check_artifact_size((MAX_ARTIFACT_BYTES + 45) as usize).unwrap_err(),
        "media artifact exceeds its configured limit"
    );
}

#[test]
fn artifacts_are_named_by_media_kind() {
    let audio = voxa::media_dump::artifact_naming("media-0001", true);
    assert_eq!((audio.file_name.as_str(), audio.content_type, audio.kind), ("media-0001.wav", "audio/wav", "audio"));
    let video = voxa::media_dump::artifact_naming("media-0002", false);
    assert_eq!(
        (video.file_name.as_str(), video.content_type, video.kind),
        ("media-0002.rawvideo", "application/octet-stream", "video")
    );
}
