use voxa::concurrent::{
    bounded, ConcurrentRunSummary, ConcurrentRuntimeState, DrainMode, RuntimeControl, RuntimeOptions,
    RuntimeStartError, RuntimeThreadRole,
};
use voxa::event_bus::{
    EventBusError, EventBusStopReport, HandlerOutcome, OfferOutcome, PublishReport, SubscriberSnapshot, Subscription,
};
use voxa::foreign::{fits, ForeignDriverConfig, ForeignDriverError, ForeignShutdownDiagnostics};
use voxa::managed_stream::{bounded_text, ManagedStreamBuildError, ManagedStreamOptions, RequestId, ServiceError};
use voxa::signal::{SignalQueue, SignalQueuePushError};
use voxa::string_set::StringSet;
use voxa::testkit::{
    AdapterResponse, EdgeAction, ManagedOutcome, ManualClock, ScriptedManagedStreamAdapter, SignalProbe,
    TestEdgeDisposition, TestEdgePolicy, TestGraphBuilder, ValidationDecision,
};
use voxa::graph::NodeKind;
use voxa::cli::timeout_report;

#[test]
fn runtime_options_default_and_builders() {
    let options = RuntimeOptions::default_options();
    assert_eq!(options.shutdown_mode(), DrainMode::Discard);
    assert_eq!(options.failure_mode(), DrainMode::Discard);
    assert_eq!(options.max_in_flight(), 1);
    assert_eq!(options.emission_budget(), 16_384);
    assert_eq!(options.signal_queue_capacity(), 64);
    let tuned = RuntimeOptions::new(DrainMode::Drain, DrainMode::Discard)
        .with_emission_budget(8)
        .with_signal_queue_capacity(2);
    assert_eq!(tuned.shutdown_mode(), DrainMode::Drain);
    assert_eq!(tuned.emission_budget(), 8);
    assert_eq!(tuned.signal_queue_capacity(), 2);
    assert_eq!(ConcurrentRunSummary::new(3).worker_total(), 3);
}

#[test]
fn run_authority_is_taken_once() {
    let mut control: RuntimeControl<&str> = RuntimeControl::new(StringSet::new());
    assert_eq!(control.state(), ConcurrentRuntimeState::Starting);
    control.mark_running();
    assert_eq!(control.state(), ConcurrentRuntimeState::Running);
    assert!(control.request_abort("first"));
    assert!(!control.request_abort("second"));
    assert_eq!(control.reason(), Some(&"first"));
    assert_eq!(control.state(), ConcurrentRuntimeState::Stopping);
    assert!(!control.seal_success());
    assert!(!control.begin_finishing());
    assert_eq!(*control.begin_aborting(), "first");
    control.publish_abort("first");
    assert_eq!(control.state(), ConcurrentRuntimeState::Aborted);
    assert!(matches!(control.result(), Some(Err(_))));
}

#[test]
fn sealed_success_refuses_aborts() {
    let mut active = StringSet::new();
    active.insert("a".to_owned());
    let mut control: RuntimeControl<u8> = RuntimeControl::new(active);
    assert!(control.begin_finishing());
    assert_eq!(control.state(), ConcurrentRuntimeState::Finishing);
    assert!(control.seal_success());
    assert!(!control.request_abort(1));
    control.node_inactive("a");
    control.lifecycle_enter("b".to_owned());
    let diagnostics = control.shutdown_diagnostics();
    assert_eq!(diagnostics.active_nodes(), ["b".to_owned()]);
    control.lifecycle_exit("b");
    control.publish_success(ConcurrentRunSummary::new(1));
    assert_eq!(control.state(), ConcurrentRuntimeState::Finished);
    assert!(control.shutdown_diagnostics().active_nodes().is_empty());
}

#[test]
fn abort_while_finishing_is_aborting() {
    let mut control: RuntimeControl<u8> = RuntimeControl::new(StringSet::new());
    assert!(control.begin_finishing());
    assert!(control.request_abort(7));
    assert_eq!(control.state(), ConcurrentRuntimeState::Aborting);
}

#[test]
fn diagnostic_messages_are_sanitized_and_bounded() {
    assert_eq!(bounded("a\nb\tc"), "a b c");
    let long = "é".repeat(200);
    let bounded = bounded(&long);
    assert_eq!(bounded.len(), 256);
    assert_eq!(bounded, "é".repeat(128));
    let error = RuntimeStartError::new(RuntimeThreadRole::NodeWorker, "voxa-node-a".to_owned(), "no memory".to_owned());
    assert_eq!(error.role(), RuntimeThreadRole::NodeWorker);
    assert_eq!(error.thread_name(), "voxa-node-a");
    assert_eq!(error.to_display_string(), "failed to spawn NodeWorker thread `voxa-node-a`: no memory");
}

#[test]
fn signal_queue_is_bounded_and_first_in_first_out() {
    let mut queue = SignalQueue::new(2);
    assert_eq!(queue.try_push(1), Ok(()));
    assert_eq!(queue.try_push(2), Ok(()));
    assert_eq!(queue.try_push(3), Err(SignalQueuePushError::Full));
    assert_eq!(queue.try_pop(), Some(1));
    assert_eq!(queue.try_pop(), Some(2));
    assert_eq!(queue.try_pop(), None);
    let snapshot = queue.snapshot();
    assert_eq!((snapshot.capacity, snapshot.queue_len), (2, 0));
    assert_eq!((snapshot.enqueue_total, snapshot.dequeue_total, snapshot.full_total), (2, 2, 1));
    queue.try_push(4).unwrap();
    queue.close(DrainMode::Drain);
    assert_eq!(queue.try_push(5), Err(SignalQueuePushError::Closed));
    assert!(!queue.is_closed_and_empty());
    assert_eq!(queue.try_pop(), Some(4));
    assert!(queue.is_closed_and_empty());
    let mut discarded = SignalQueue::new(4);
    discarded.try_push('x').unwrap();
    discarded.close(DrainMode::Discard);
    assert!(discarded.is_closed_and_empty());
}

#[test]
fn foreign_config_limits() {
    let config = ForeignDriverConfig::default_config();
    assert_eq!(config.validate(), Ok(()));
    assert_eq!(
        ForeignDriverConfig { max_in_flight: 4_097, ..config }.validate(),
        Err(ForeignDriverError::CapacityTooLarge)
    );
    assert_eq!(
        ForeignDriverConfig { command_capacity: 65_537, ..config }.validate(),
        Err(ForeignDriverError::CapacityTooLarge)
    );
    assert_eq!(
        ForeignDriverConfig { completion_byte_capacity: 64 * 1024 * 1024 + 1, ..config }.validate(),
        Err(ForeignDriverError::ByteCapacityTooLarge)
    );
    assert_eq!(
        ForeignDriverConfig { shutdown_deadline_ns: 0, ..config }.validate(),
        Err(ForeignDriverError::ZeroDeadline)
    );
    assert_eq!(
        ForeignDriverConfig { per_call_deadline_ns: 3_600_000_000_001, ..config }.validate(),
        Err(ForeignDriverError::DeadlineTooLarge)
    );
    assert_eq!(ForeignDriverError::ZeroDeadline.message(), "foreign execution deadlines must be non-zero");
    assert!(fits(3, 4, 7));
    assert!(!fits(3, 5, 7));
    assert!(!fits(usize::MAX, 1, usize::MAX));
    let diagnostics = ForeignShutdownDiagnostics::new(vec![4, 9], 1, 2);
    assert_eq!(diagnostics.live_sequences(), [4, 9]);
    assert_eq!((diagnostics.queued_command_count(), diagnostics.queued_completion_count()), (1, 2));
}

#[test]
fn service_errors_are_bounded_at_character_boundaries() {
    assert_eq!(bounded_text("hello", 5), "hello");
    assert_eq!(bounded_text("héllo", 2), "h");
    assert_eq!(bounded_text("héllo", 3), "hé");
    let error = ServiceError::new(&"c".repeat(70), "m");
    assert_eq!(error.code().len(), 64);
    assert_eq!(ServiceError::timeout().code(), "managed_stream_timeout");
    assert_eq!(ServiceError::worker_start().message(), "managed stream could not start an isolated request worker");
    assert_eq!(ServiceError::adapter_panic().to_display_string(), "managed_stream_adapter_panic: managed stream adapter panicked while handling a request");
    assert_eq!(RequestId::new(9).get(), 9);
    assert_eq!(ManagedStreamOptions::default_options().input_capacity, 8);
    assert_eq!(
        ManagedStreamBuildError::new("denied".to_owned()).to_display_string(),
        "failed to start managed stream executor: denied"
    );
}

#[test]
fn event_bus_reports() {
    assert_eq!(Subscription::new(3).get(), 3);
    assert_eq!(SubscriberSnapshot::default().delivered, 0);
    assert_eq!(PublishReport::default().matched, 0);
    assert!(EventBusStopReport::default().unfinished.is_empty());
    assert_eq!(EventBusError::Stopped.to_display_string(), "event bus is stopped");
    assert_eq!(
        EventBusError::Spawn { thread_name: "w".to_owned() }.to_display_string(),
        "failed to start EventBus subscriber `w`"
    );
}

#[test]
fn gate_clock_and_probes_are_deterministic_and_bounded() {
    let mut clock = ManualClock::new();
    clock.advance(25_000_000);
    assert_eq!(clock.now(), 25_000_000);
    assert_eq!(clock.advance(u64::MAX), u64::MAX);
    assert_eq!(clock.now(), 24_999_999);
    clock.set(7);
    assert_eq!(clock.now(), 7);

    let mut probe = SignalProbe::new();
    probe.record("one");
    probe.record("two");
    assert_eq!(probe.snapshot(), ["one", "two"]);
}

#[test]
fn scripted_edge_policy_replays_its_script() {
    let mut policy = TestEdgePolicy::new(vec![
        TestEdgeDisposition::Drop("late".to_owned()),
        TestEdgeDisposition::Reject("bad".to_owned()),
    ]);
    assert_eq!(policy.validate(), ValidationDecision::Accept);
    assert_eq!(policy.transform(), EdgeAction::Drop("late".to_owned()));
    assert_eq!(policy.validate(), ValidationDecision::Reject("bad".to_owned()));
    assert_eq!(policy.transform(), EdgeAction::Forward);
    assert_eq!(policy.calls(), 2);
}

#[test]
fn sink_frame_and_managed_helpers_are_copy_owned_and_scripted() {
    let mut adapter = ScriptedManagedStreamAdapter::new(vec![ManagedOutcome::Failed("fault".to_owned())]);
    assert!(matches!(adapter.send(RequestId::new(9), 1, "x"), AdapterResponse::Failed(_)));
    match adapter.send(RequestId::new(10), 2, "y") {
        AdapterResponse::Frames(frames) => assert_eq!(frames, ["y"]),
        other => panic!("unexpected {other:?}"),
    }
    assert_eq!(adapter.requests(), [(9, 1), (10, 2)]);
}

#[test]
fn graph_and_node_helpers_record_owned_deterministic_data() {
    let mut graph = TestGraphBuilder::new("harness");
    graph.text_node("source", NodeKind::Source).unwrap();
    graph.text_node("sink", NodeKind::Sink).unwrap();
    graph.connect_text("edge", "source", "sink", 2).unwrap();
    assert_eq!(graph.build().unwrap().topological_order().len(), 2);
}

#[test]
fn test_graph_builder_rejects_a_repeated_text_node() {
    let mut graph = TestGraphBuilder::new("harness");
    graph.text_node("source", NodeKind::Source).unwrap();
    assert!(graph.text_node("source", NodeKind::Sink).is_err());
    assert!(graph.connect_text("edge", "source", "missing", 1).is_err());
    let built = graph.build().unwrap();
    assert_eq!(built.topological_order().len(), 1);
    assert_eq!(built.graph_id(), "harness");
}

#[test]
fn timed_out_run_reports_state_active_nodes_and_cleanup() {
    let mut active = StringSet::new();
    active.insert("sink".to_owned());
    active.insert("source".to_owned());
    let mut control: RuntimeControl<u8> = RuntimeControl::new(active);
    let first = control.shutdown_diagnostics();
    assert_eq!(
        timeout_report("demo", 250, &first, None),
        "graph `demo` timed out after 250 ms in state Starting with active nodes [sink,source]; cleanup completed"
    );
    control.node_inactive("source");
    let remaining = control.shutdown_diagnostics();
    assert_eq!(
        timeout_report("demo", 250, &first, Some(&remaining)),
        "graph `demo` timed out after 250 ms in state Starting with active nodes [sink,source]; cleanup timed out with active nodes [sink]"
    );
}

#[test]
fn runtime_start_plans_edges_backwards_then_nodes_then_the_coordinator() {
    let mut enabled = StringSet::new();
    enabled.insert("e1".to_owned());
    enabled.insert("e3".to_owned());
    let plan = voxa::concurrent::start_plan(
        &["e1".to_owned(), "e2".to_owned(), "e3".to_owned()],
        &enabled,
        &["source".to_owned(), "sink".to_owned()],
    );
    let names: Vec<&str> = plan.iter().map(|(_, name)| name.as_str()).collect();
    assert_eq!(
        names,
        vec!["voxa-edge-e3", "voxa-edge-e1", "voxa-node-source", "voxa-node-sink", "voxa-runtime-coordinator"]
    );
    assert_eq!(plan[0].0, voxa::concurrent::RuntimeThreadRole::EdgeDispatcher);
    assert_eq!(plan[2].0, voxa::concurrent::RuntimeThreadRole::NodeWorker);
    assert_eq!(plan[4].0, voxa::concurrent::RuntimeThreadRole::Coordinator);
}

#[test]
fn aborted_run_reports_its_root_error() {
    assert_eq!(
        voxa::cli::abort_report("demo", "MUXIVA-X", voxa::error::ErrorCategory::External, "Process", Some("tts"), "boom"),
        "graph `demo` aborted: code=MUXIVA-X category=External stage=Process node=tts message=boom"
    );
    assert!(voxa::cli::abort_report("g", "C", voxa::error::ErrorCategory::Internal, "Start", None, "m").contains("node=<runtime>"));
}

#[test]
fn bounded_of_wide_characters_stops_on_a_whole_character() {
    let text = "é".repeat(200);
    let bounded = bounded(&text);
    assert_eq!(bounded.len(), 256);
    assert_eq!(bounded.chars().count(), 128);
}

#[test]
fn event_delivery_accounting_counts_each_outcome() {
    let mut report = PublishReport::default();
    assert!(!report.record(OfferOutcome::Enqueued));
    assert!(report.record(OfferOutcome::Full));
    assert!(!report.record(OfferOutcome::Disconnected));
    assert!(!report.record(OfferOutcome::Closing));
    assert_eq!((report.matched, report.enqueued, report.dropped_full), (4, 1, 1));
    let mut metrics = SubscriberSnapshot::default();
    metrics.record_outcome(HandlerOutcome::Delivered);
    metrics.record_outcome(HandlerOutcome::Failed);
    metrics.record_outcome(HandlerOutcome::Panicked);
    metrics.record_dropped();
    metrics.delivered = u64::MAX;
    metrics.record_outcome(HandlerOutcome::Delivered);
    assert_eq!(
        metrics,
        SubscriberSnapshot { delivered: u64::MAX, dropped_full: 1, handler_errors: 1, handler_panics: 1 }
    );
}
