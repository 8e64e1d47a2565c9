use voxa::observability::{
    exporter_settings, is_terminal_status, metrics_endpoint, parse_u64, valid_run_id, ExportAttempt,
    ExporterEnvironment, RecordingState,
};
use voxa::semantic_trace::{payload_preview, preview_hex, turn_marker, TraceEntry, TraceSession, TraceStatus};
use voxa::string_set::StringSet;
use voxa::studio::{
    is_turn_start, label, metric, parse_headers, percent_decode, safe_log, summarize, truncate, turn_label,
    worst_health,
};

fn entry(sequence: u64, name: &str) -> TraceEntry {
    TraceEntry {
        ordinal: 0,
        elapsed_ms: sequence,
        kind: "signal".to_owned(),
        direction: "output".to_owned(),
        node_id: "vad".to_owned(),
        port: None,
        name: name.to_owned(),
        summary: "{}".to_owned(),
        payload: "{}".to_owned(),
        payload_truncated: false,
        frame_id: format!("frame-{sequence}"),
        sequence,
        stream_id: "stream".to_owned(),
        trace_id: format!("trace-{sequence}"),
    }
}

#[test]
fn turn_markers_are_explicit_and_payloads_are_safe_json() {
    assert!(is_turn_start("muxiva.voice.speech.started"));
    assert!(is_turn_start("vendor.turn.started"));
    assert!(!is_turn_start("muxiva.voice.speech.stopped"));
    assert_eq!(truncate("你好世界", 7), "你好…");
    assert_eq!(preview_hex(&[0xab, 0xcd]), "abcd");
}

#[test]
fn session_groups_markers_into_turns_and_deduplicates_the_same_boundary() {
    let mut session = TraceSession::new("run-1".to_owned());
    for (sequence, marker) in [
        (10, Some("speech-10")),
        (10, Some("speech-10")),
        (20, None),
        (20, Some("speech-20")),
    ] {
        session.append(entry(sequence, "muxiva.voice.speech.started"), marker.map(|m| m.to_owned()));
    }
    assert_eq!(session.turns().len(), 2);
    assert_eq!(session.turns()[0].entries.len(), 2);
    assert_eq!(session.turns()[1].entries.len(), 2);
    assert_eq!(session.next_entry(), 4);
}

#[test]
fn trace_session_labels_numbers_and_bounds_turns() {
    let mut session = TraceSession::new("run-2".to_owned());
    session.append(entry(1, "text"), None);
    assert_eq!(session.turns().len(), 1);
    assert_eq!(session.turns()[0].id, "turn-1");
    assert_eq!(session.turns()[0].label, "Session flow");
    session.append(entry(2, "vendor.turn.started"), Some("m-2".to_owned()));
    assert_eq!(session.turns().len(), 1);
    assert_eq!(session.turns()[0].label, "Turn");
    session.append(entry(3, "a.speech.started"), Some("m-3".to_owned()));
    assert_eq!(session.turns().len(), 2);
    assert_eq!(session.turns()[1].id, "turn-2");
    assert_eq!(session.turns()[1].ordinal, 2);
    assert_eq!(session.turns()[1].label, "Speech turn");
    let ordinals: Vec<u64> = session
        .turns()
        .iter()
        .flat_map(|t| t.entries.iter().map(|e| e.ordinal))
        .collect();
    assert_eq!(ordinals, vec![1, 2, 3]);
    assert_eq!(session.entry_count(), 3);
    assert_eq!(session.payload_bytes(), 6);
    assert_eq!(session.status().as_str(), "running");
    session.finish();
    assert_eq!(session.status(), TraceStatus::Completed);
    assert_eq!(session.status().as_str(), "completed");
}

#[test]
fn trace_session_drops_entries_past_its_bound() {
    let mut session = TraceSession::new("run-3".to_owned());
    for i in 0..10_001u64 {
        session.append(entry(i, "text"), None);
    }
    assert_eq!(session.next_entry(), 10_000);
    assert_eq!(session.dropped_entries(), 1);
    assert!(session.truncated());
    assert_eq!(session.entry_count(), 10_000);
}

#[test]
fn turn_marker_only_for_output_turn_starts() {
    assert_eq!(
        turn_marker("x.turn.started", 7, "trace-a", "node-b", true).as_deref(),
        Some("x.turn.started|7|trace-a|node-b")
    );
    assert_eq!(turn_marker("x.turn.started", 7, "t", "n", false), None);
    assert_eq!(turn_marker("x.turn.ended", 7, "t", "n", true), None);
    assert_eq!(preview_hex(&[0u8; 40]).len(), 64);
    assert_eq!(preview_hex(&[]), "");
}

#[test]
fn labels_logs_and_health_are_sanitised() {
    assert_eq!(label("a\\b\"c\nd"), "a\\\\b\\\"c\\nd");
    assert_eq!(safe_log("line\r\nnext"), "linenext");
    assert_eq!(safe_log(&"x".repeat(600)).len(), 512);
    assert_eq!(worst_health("healthy", "critical"), "critical");
    assert_eq!(worst_health("critical", "warning"), "critical");
    assert_eq!(worst_health("unknown", "healthy"), "healthy");
    assert_eq!(turn_label("a.speech.started"), "Speech turn");
    assert_eq!(turn_label("a.turn.started"), "Turn");
    assert_eq!(summarize("  short  "), "short");
    assert_eq!(summarize(&"y".repeat(200)).chars().count(), 181);
    assert_eq!(truncate("abc", 3), "abc");
}

#[test]
fn headers_and_percent_decoding() {
    assert_eq!(percent_decode("x%20y"), "x y");
    assert_eq!(percent_decode("%FF"), "%FF");
    assert_eq!(percent_decode("a%2"), "a%2");
    let headers = parse_headers("a=1, b = x%20y ,=z,c");
    assert_eq!(
        headers,
        vec![("a".to_owned(), "1".to_owned()), ("b".to_owned(), "x y".to_owned())]
    );
}

#[test]
fn metric_lines_declare_each_name_once() {
    let mut output = String::new();
    let mut declared = StringSet::new();
    metric(&mut output, &mut declared, "muxiva_frames", "counter", &[], "3");
    metric(
        &mut output,
        &mut declared,
        "muxiva_frames",
        "counter",
        &[("node".to_owned(), "a".to_owned()), ("port".to_owned(), "out".to_owned())],
        "4",
    );
    assert_eq!(
        output,
        "# TYPE muxiva_frames counter\nmuxiva_frames 3\nmuxiva_frames{node=\"a\",port=\"out\"} 4\n"
    );
}

#[test]
fn recording_samples_running_runs_by_interval_and_terminal_once() {
    let mut state = RecordingState::new();
    assert!(state.offer("run", 10_000, false));
    assert!(!state.offer("run", 12_000, false));
    assert!(state.offer("run", 15_000, false));
    assert!(state.offer("run", 15_001, true));
    assert!(!state.offer("run", 30_000, true));
    assert!(state.offer("other", 100, true));
    assert!(is_terminal_status(Some("aborted")));
    assert!(!is_terminal_status(Some("running")));
    assert!(!is_terminal_status(None));
}

#[test]
fn run_ids_and_numbers_are_checked() {
    assert!(valid_run_id("run-1_A"));
    assert!(!valid_run_id(""));
    assert!(!valid_run_id("run/1"));
    assert!(!valid_run_id(&"a".repeat(97)));
    assert_eq!(parse_u64("1000"), Some(1000));
    assert_eq!(parse_u64("+42"), Some(42));
    assert_eq!(parse_u64("18446744073709551615"), Some(u64::MAX));
    assert_eq!(parse_u64("18446744073709551616"), None);
    assert_eq!(parse_u64("+"), None);
    assert_eq!(parse_u64(""), None);
    assert_eq!(parse_u64("-1"), None);
    assert_eq!(parse_u64("12a"), None);
}

#[test]
fn exporter_settings_follow_the_environment() {
    assert_eq!(metrics_endpoint("http://collector:4318//"), "http://collector:4318/v1/metrics");
    let env = ExporterEnvironment {
        metrics_endpoint: Some("  ".to_owned()),
        endpoint: Some("http://c:4318/".to_owned()),
        metrics_protocol: None,
        protocol: None,
        metrics_headers: None,
        headers: Some("authorization=Bearer%20x".to_owned()),
        interval: Some("500".to_owned()),
    };
    let settings = exporter_settings(&env);
    assert_eq!(settings.endpoint.as_deref(), Some("http://c:4318/v1/metrics"));
    assert_eq!(settings.protocol, "http/json");
    assert_eq!(settings.interval_ms, 10_000);
    assert_eq!(settings.headers, vec![("authorization".to_owned(), "Bearer x".to_owned())]);
    assert_eq!(settings.configuration_error, None);
    let grpc = ExporterEnvironment {
        metrics_endpoint: Some("http://m".to_owned()),
        endpoint: None,
        metrics_protocol: Some("grpc".to_owned()),
        protocol: None,
        metrics_headers: None,
        headers: None,
        interval: Some("2000".to_owned()),
    };
    let settings = exporter_settings(&grpc);
    assert_eq!(settings.endpoint, None);
    assert_eq!(settings.interval_ms, 2000);
    assert_eq!(
        settings.configuration_error.as_deref(),
        Some("unsupported protocol grpc; expected http/json")
    );
}

#[test]
fn export_attempts_are_spaced_and_reported() {
    let mut attempt = ExportAttempt::new(None);
    assert!(attempt.begin(20_000, 10_000));
    assert!(!attempt.begin(25_000, 10_000));
    assert!(attempt.begin(30_000, 10_000));
    let reason = attempt.fail("timed\nout");
    assert_eq!(reason, "timedout");
    let status = attempt.status(Some("http://c/v1/metrics".to_owned()), 10_000);
    assert!(status.configured);
    assert_eq!(status.protocol, "http/json");
    assert_eq!(status.last_attempt_unix_ms, Some(30_000));
    assert_eq!(status.last_error.as_deref(), Some("timedout"));
    attempt.succeed(31_000);
    let status = attempt.status(None, 10_000);
    assert!(!status.configured);
    assert_eq!(status.last_success_unix_ms, Some(31_000));
    assert_eq!(status.last_error, None);
    let fresh = ExportAttempt::new(Some("bad".to_owned())).status(None, 1000);
    assert_eq!(fresh.last_attempt_unix_ms, None);
}

#[test]
fn session_history_keeps_the_newest_runs_by_identity() {
    let mut history = voxa::session_history::SessionHistory::new(2);
    history.insert("run-1".to_owned(), 1u32);
    history.insert("run-3".to_owned(), 3);
    history.insert("run-2".to_owned(), 2);
    assert_eq!(history.len(), 2);
    assert_eq!(history.get("run-1"), None);
    assert_eq!(history.get("run-2"), Some(&2));
    history.insert("run-2".to_owned(), 20);
    assert_eq!(history.get("run-2"), Some(&20));
    assert_eq!(history.len(), 2);
    history.insert("run-0".to_owned(), 0);
    assert_eq!(history.get("run-0"), None);
    let index = history.position("run-3").unwrap();
    *history.session_mut(index) += 30;
    assert_eq!(history.get("run-3"), Some(&33));
    assert_eq!(history.select(Some("run-2"), Some("run-3")), Some(&20));
    assert_eq!(history.select(Some("run-9"), Some("run-3")), None);
    assert_eq!(history.select(None, Some("run-2")), Some(&20));
    assert_eq!(history.select(None, Some("run-9")), Some(&33));
    assert_eq!(history.select(None, None), Some(&33));
    let empty: voxa::session_history::SessionHistory<u8> = voxa::session_history::SessionHistory::new(1);
    assert_eq!(empty.select(None, None), None);
}

#[test]
fn payload_preview_keeps_small_payloads_and_cuts_large_ones() {
    assert_eq!(payload_preview("{\"a\":1}"), None);
    assert_eq!(payload_preview(&"x".repeat(4096)), None);
    let long = "y".repeat(5000);
    let (preview, size) = payload_preview(&long).unwrap();
    assert_eq!(size, 5000);
    assert_eq!(preview, format!("{}\u{2026}", "y".repeat(4096)));
    let wide = format!("{}\u{e9}", "z".repeat(4095));
    let (cut, n) = payload_preview(&wide).unwrap();
    assert_eq!(n, 4097);
    assert_eq!(cut, format!("{}\u{2026}", "z".repeat(4095)));
}
