use voxa::audio::{AudioLayout, PcmSampleFormat};
use voxa::error::{ErrorCategory, MuxivaError};
use voxa::python_host::{
    decode_python_payload, decode_python_pcm, host_response_step, EventChecks, HostStep, PythonPayload, PythonWire,
};
use voxa::wire_frame::{decode_wire_frame, WireError, WireField, WireFrame, WirePayload};

fn frame(kind: &str, sequence: i64) -> WireFrame {
    WireFrame {
        object: true,
        kind: WireField::Given(kind.to_owned()),
        sequence: WireField::Given(sequence),
        text: WireField::Missing,
        bytes: None,
        media_type: None,
        sample_rate_hz: WireField::Missing,
        channels: WireField::Missing,
        samples_per_channel: WireField::Missing,
        format: WireField::Missing,
        planar: None,
        pixel_format: None,
        width: WireField::Missing,
        height: WireField::Missing,
        stride: WireField::Missing,
    }
}

fn message(result: Result<voxa::wire_frame::DecodedWireFrame, WireError>) -> String {
    match result {
        Err(WireError::Invalid(m)) => m,
        Err(WireError::Media(e)) => format!("media:{}", e.code()),
        Ok(_) => "ok".to_owned(),
    }
}

#[test]
fn wire_text_and_bytes_decode_with_their_sequence() {
    let mut text = frame("text", 4);
    text.text = WireField::Given("hello".to_owned());
    let decoded = decode_wire_frame(&text, None).unwrap();
    assert_eq!(decoded.sequence, 4);
    assert!(matches!(decoded.payload, WirePayload::Text(ref t) if t == "hello"));
    let mut bytes = frame("byte", 1);
    bytes.bytes = Some(Ok(vec![1, 2, 3]));
    bytes.media_type = Some("application/octet-stream".to_owned());
    match decode_wire_frame(&bytes, None).unwrap().payload {
        WirePayload::Byte { bytes, media_type } => {
            assert_eq!(bytes, vec![1, 2, 3]);
            assert_eq!(media_type.as_deref(), Some("application/octet-stream"));
        }
        _ => panic!("expected bytes"),
    }
    text.sequence = WireField::Given(-1);
    assert_eq!(message(decode_wire_frame(&text, None)), "sequence must be non-negative");
}

#[test]
fn wire_frames_report_the_first_malformed_field() {
    let mut not_object = frame("text", 1);
    not_object.object = false;
    assert_eq!(message(decode_wire_frame(&not_object, None)), "frame must be an object");
    let mut no_sequence = frame("text", 1);
    no_sequence.sequence = WireField::Missing;
    assert_eq!(message(decode_wire_frame(&no_sequence, None)), "frame.sequence is required");
    let mut float_sequence = frame("text", 1);
    float_sequence.sequence = WireField::Mistyped;
    assert_eq!(message(decode_wire_frame(&float_sequence, None)), "frame.sequence must be an integer");
    assert_eq!(message(decode_wire_frame(&frame("signal", 1), None)), "frame.kind must be text, byte, audio, or video");
    assert_eq!(message(decode_wire_frame(&frame("text", 1), None)), "frame.text is required");
    let mut audio = frame("audio", 1);
    audio.bytes = Some(Ok(vec![0; 4]));
    audio.sample_rate_hz = WireField::Given(5_000_000_000);
    assert_eq!(message(decode_wire_frame(&audio, None)), "out of range integral type conversion attempted");
    audio.sample_rate_hz = WireField::Given(48_000);
    audio.channels = WireField::Mistyped;
    assert_eq!(message(decode_wire_frame(&audio, None)), "frame.channels must be an integer");
    audio.channels = WireField::Given(1);
    audio.samples_per_channel = WireField::Given(2);
    audio.format = WireField::Given("pcm".to_owned());
    assert_eq!(message(decode_wire_frame(&audio, None)), "unsupported PCM sample format");
    let mut video = frame("video", 1);
    video.pixel_format = Some("yuv420p".to_owned());
    assert_eq!(
        message(decode_wire_frame(&video, None)),
        "only rgba8 video is supported by the TypeScript graph wire protocol"
    );
    video.pixel_format = None;
    video.bytes = Some(Err("invalid type: string \"x\", expected a sequence".to_owned()));
    assert_eq!(message(decode_wire_frame(&video, None)), "invalid type: string \"x\", expected a sequence");
}

#[test]
fn wire_media_is_built_by_the_payload_constructors() {
    let mut audio = frame("audio", 2);
    audio.bytes = Some(Ok(vec![0; 8]));
    audio.sample_rate_hz = WireField::Given(48_000);
    audio.channels = WireField::Given(2);
    audio.samples_per_channel = WireField::Given(2);
    audio.format = WireField::Given("i16le".to_owned());
    audio.planar = Some(true);
    match decode_wire_frame(&audio, None).unwrap().payload {
        WirePayload::Audio(a) => {
            assert_eq!(a.layout(), AudioLayout::Planar);
            assert_eq!(a.channels(), 2);
            assert_eq!(a.samples_per_channel(), 2);
        }
        _ => panic!("expected audio"),
    }
    audio.samples_per_channel = WireField::Given(3);
    assert_eq!(message(decode_wire_frame(&audio, None)), "media:MUXIVA-FRM-AUDIO-LENGTH");
    let mut video = frame("video", 0);
    video.bytes = Some(Ok(vec![0; 16]));
    video.width = WireField::Given(2);
    video.height = WireField::Given(2);
    video.stride = WireField::Given(8);
    assert!(matches!(decode_wire_frame(&video, None).unwrap().payload, WirePayload::Video(_)));
    video.stride = WireField::Given(4);
    assert_eq!(message(decode_wire_frame(&video, None)), "media:MUXIVA-FRM-VIDEO-STRIDE");
}

#[test]
fn python_pcm_is_hexadecimal_interleaved_sixteen_bit_audio() {
    let audio = decode_python_pcm("0001ff7F", Some(16_000), Some(1)).unwrap();
    assert_eq!(audio.buffer().as_slice(), [0x00, 0x01, 0xff, 0x7f]);
    assert_eq!(audio.samples_per_channel(), 2);
    assert_eq!(audio.sample_format(), PcmSampleFormat::I16Le);
    assert_eq!(audio.layout(), AudioLayout::Interleaved);
    let problem = |hex: &str, rate: Option<u64>, channels: Option<u64>| {
        let error = decode_python_pcm(hex, rate, channels).unwrap_err();
        assert_eq!(error.code(), "MUXIVA-STUDIO-PYTHON-HOST");
        error.message().to_owned()
    };
    assert_eq!(problem("001", Some(16_000), Some(1)), "Python audio PCM has an invalid size");
    assert_eq!(problem("zz00", Some(16_000), Some(1)), "Python audio PCM is not hexadecimal");
    assert_eq!(problem("0000", None, Some(1)), "Python audio Frame has an invalid sample rate");
    assert_eq!(problem("0000", Some(1 << 33), Some(1)), "Python audio Frame has an invalid sample rate");
    assert_eq!(problem("0000", Some(16_000), Some(70_000)), "Python audio Frame has invalid channels");
    assert_eq!(problem("0000", Some(16_000), Some(0)), "Python audio Frame has invalid PCM length");
    let big = "0".repeat(8_388_610);
    assert_eq!(problem(&big, Some(16_000), Some(1)), "Python audio PCM has an invalid size");
    assert_eq!(decode_python_pcm("+a00", Some(16_000), Some(1)).unwrap().buffer().as_slice(), [10, 0]);
    assert_eq!(decode_python_pcm("000000", Some(16_000), Some(1)).unwrap_err().code(), "MUXIVA-FRM-AUDIO-LENGTH");
}

fn wire(kind: Option<&str>) -> PythonWire {
    PythonWire {
        kind: kind.map(str::to_owned),
        text: None,
        pcm_hex: None,
        sample_rate_hz: None,
        channels: None,
        topic: None,
        schema_version: None,
        source: None,
        payload: None,
    }
}

#[test]
fn python_payloads_cover_text_audio_and_events() {
    let mut text = wire(Some("text"));
    assert_eq!(decode_python_payload(&text, "node", valid()).unwrap_err().message(), "Python text Frame is missing text");
    text.text = Some("hi".to_owned());
    assert!(matches!(decode_python_payload(&text, "node", valid()).unwrap(), PythonPayload::Text(ref t) if t == "hi"));
    let mut event = wire(Some("event"));
    assert_eq!(decode_python_payload(&event, "node", valid()).unwrap_err().message(), "Python Event Frame is missing its topic");
    event.topic = Some("app.done".to_owned());
    event.schema_version = Some(1 << 40);
    match decode_python_payload(&event, "node", valid()).unwrap() {
        PythonPayload::Event(e) => {
            assert_eq!(e.topic, "app.done");
            assert_eq!(e.schema_version, 1);
            assert_eq!(e.source, "node");
            assert_eq!(e.payload, "");
        }
        _ => panic!("expected an event"),
    }
    let mut audio = wire(Some("audio"));
    assert_eq!(decode_python_payload(&audio, "node", valid()).unwrap_err().message(), "Python audio Frame is missing PCM");
    audio.pcm_hex = Some("0000".to_owned());
    audio.sample_rate_hz = Some(8_000);
    audio.channels = Some(1);
    assert!(matches!(decode_python_payload(&audio, "node", valid()).unwrap(), PythonPayload::Audio(_)));
    assert_eq!(decode_python_payload(&wire(None), "node", valid()).unwrap_err().message(), "Python Frame is missing its kind");
    assert_eq!(
        decode_python_payload(&wire(Some("video")), "node", valid()).unwrap_err().message(),
        "Python Host emitted an unsupported Frame"
    );
}

#[test]
fn host_replies_stream_then_finish_or_fail() {
    assert_eq!(host_response_step(Some("emission"), Some(false), None), HostStep::Emit);
    assert_eq!(host_response_step(Some("event"), None, None), HostStep::Publish);
    assert_eq!(host_response_step(Some("signal"), None, None), HostStep::Signal);
    assert_eq!(host_response_step(None, Some(true), Some("ignored")), HostStep::Finish);
    assert_eq!(host_response_step(Some("result"), Some(false), Some("boom")), HostStep::Fail("boom".to_owned()));
    assert_eq!(host_response_step(None, None, None), HostStep::Fail("Python Node failed".to_owned()));
}

fn valid() -> EventChecks {
    EventChecks { topic: None, schema_version: None, source_valid: true }
}

#[test]
fn python_events_are_refused_by_the_name_checks_in_order() {
    let mut event = wire(Some("event"));
    event.topic = Some("Bad Topic".to_owned());
    let topic_error = MuxivaError::new(ErrorCategory::Validation, "MUXIVA-NAME-TOPIC", "bad topic");
    let schema_error = MuxivaError::new(ErrorCategory::Validation, "MUXIVA-NAME-SCHEMA", "bad schema");
    let checks = EventChecks { topic: Some(topic_error), schema_version: Some(schema_error), source_valid: false };
    assert_eq!(decode_python_payload(&event, "node", checks).unwrap_err().code(), "MUXIVA-NAME-TOPIC");
    let schema_error = MuxivaError::new(ErrorCategory::Validation, "MUXIVA-NAME-SCHEMA", "bad schema");
    let checks = EventChecks { topic: None, schema_version: Some(schema_error), source_valid: false };
    assert_eq!(decode_python_payload(&event, "node", checks).unwrap_err().code(), "MUXIVA-NAME-SCHEMA");
    let checks = EventChecks { topic: None, schema_version: None, source_valid: false };
    let error = decode_python_payload(&event, "node", checks).unwrap_err();
    assert_eq!(error.code(), "MUXIVA-STUDIO-PYTHON-HOST");
    assert_eq!(error.message(), "Python Event Frame has an invalid source");
}

#[test]
fn wire_byte_frames_check_their_media_type() {
    let mut bytes = frame("byte", 1);
    bytes.bytes = Some(Ok(vec![1]));
    assert!(decode_wire_frame(&bytes, Some("invalid media type".to_owned())).is_ok());
    bytes.media_type = Some("not a type".to_owned());
    assert_eq!(message(decode_wire_frame(&bytes, Some("invalid media type".to_owned()))), "invalid media type");
    bytes.bytes = None;
    assert_eq!(message(decode_wire_frame(&bytes, Some("invalid media type".to_owned()))), "frame.bytes is required");
}
