use voxa::concurrent::{edge_action, edge_gate, push_abort, EdgeActionKind, EdgeDecision, EdgeVerdict, PushResult};
use voxa::graph::FrameType;
use voxa::managed_stream::{
    admission_action, may_admit, relaxed_release, release_in_order, worker_start_failure, AdmissionAction, DeliveryWindow, request_step, settle_request, AdapterResponse, CompletionCount, RequestAction,
    RequestEvent, ServiceError, StreamResult, StrictDelivery,
};

fn retryable() -> RequestEvent<u8> {
    RequestEvent::Replied(AdapterResponse::Retryable(ServiceError::new("busy", "try again")))
}

#[test]
fn request_steps_follow_cancellation_deadline_and_reply() {
    assert!(matches!(request_step::<u8>(1, 3, false, false, RequestEvent::Ready), RequestAction::Send));
    assert!(matches!(request_step::<u8>(1, 3, true, true, RequestEvent::Ready), RequestAction::Finish(None)));
    match request_step::<u8>(2, 3, false, true, RequestEvent::Ready) {
        RequestAction::Finish(Some(StreamResult::Failed(e))) => {
            assert_eq!(e.code(), "managed_stream_timeout");
            assert_eq!(e.message(), "managed stream request deadline elapsed");
        }
        other => panic!("unexpected {other:?}"),
    }
    match request_step(1, 3, false, false, RequestEvent::Replied(AdapterResponse::Frames(vec![7u8, 8]))) {
        RequestAction::Finish(Some(StreamResult::Frames(f))) => assert_eq!(f, [7, 8]),
        other => panic!("unexpected {other:?}"),
    }
    match request_step::<u8>(1, 3, false, false, RequestEvent::Replied(AdapterResponse::Failed(ServiceError::new("bad", "no")))) {
        RequestAction::Finish(Some(StreamResult::Failed(e))) => assert_eq!(e.code(), "bad"),
        other => panic!("unexpected {other:?}"),
    }
}

#[test]
fn retryable_results_come_only_at_the_attempt_limit() {
    assert!(matches!(request_step(1, 3, false, false, retryable()), RequestAction::Retry));
    assert!(matches!(request_step(2, 3, false, false, retryable()), RequestAction::Retry));
    match request_step(3, 3, false, false, retryable()) {
        RequestAction::Finish(Some(StreamResult::Retryable(e))) => {
            assert_eq!(e.code(), "busy");
            assert_eq!(e.message(), "try again");
        }
        other => panic!("unexpected {other:?}"),
    }
    assert!(matches!(request_step(3, 3, true, false, retryable()), RequestAction::Finish(None)));
    assert!(matches!(
        request_step(3, 3, false, true, retryable()),
        RequestAction::Finish(Some(StreamResult::Failed(_)))
    ));
}

#[test]
fn settled_requests_are_counted_once() {
    let (r, c) = settle_request(true, Some(StreamResult::Frames(vec![1u8])));
    assert!(matches!(r, Some(StreamResult::Frames(_))));
    assert_eq!(c, CompletionCount::Succeeded);
    let (_, c) = settle_request::<u8>(true, Some(StreamResult::Retryable(ServiceError::new("busy", ""))));
    assert_eq!(c, CompletionCount::RetryExhausted);
    let (_, c) = settle_request::<u8>(true, Some(StreamResult::Failed(ServiceError::timeout())));
    assert_eq!(c, CompletionCount::TimedOut);
    let (_, c) = settle_request::<u8>(true, Some(StreamResult::Failed(ServiceError::adapter_panic())));
    assert_eq!(c, CompletionCount::Failed);
    let (_, c) = settle_request::<u8>(true, None);
    assert_eq!(c, CompletionCount::Failed);
    let (r, c) = settle_request(false, Some(StreamResult::Frames(vec![1u8])));
    assert!(r.is_none());
    assert_eq!(c, CompletionCount::LateDiscarded);
}

#[test]
fn strict_delivery_releases_in_submission_order() {
    let mut pending = vec![(3u64, Some("c")), (4, None), (5, Some("e")), (7, Some("g"))];
    let (released, next, backpressure) = release_in_order(&mut pending, 3, 8);
    assert_eq!(released, ["c", "e"]);
    assert_eq!(next, 6);
    assert!(!backpressure);
    assert_eq!(pending, [(7, Some("g"))]);

    let mut waiting = vec![(1u64, Some("b")), (2, Some("c"))];
    let (released, next, backpressure) = release_in_order(&mut waiting, 0, 4);
    assert!(released.is_empty());
    assert_eq!(next, 0);
    assert!(!backpressure);
    assert_eq!(waiting.len(), 2);

    let mut full = vec![(0u64, Some("a")), (1, None), (2, Some("c")), (3, Some("d"))];
    let (released, next, backpressure) = release_in_order(&mut full, 0, 1);
    assert_eq!(released, ["a"]);
    assert_eq!(next, 2);
    assert!(backpressure);
    assert_eq!(full, [(2, Some("c")), (3, Some("d"))]);
}

#[test]
fn admission_keeps_the_in_flight_window() {
    assert!(may_admit(0, 0, 1));
    assert!(!may_admit(1, 0, 1));
    assert!(!may_admit(0, 1, 1));
    assert!(may_admit(2, 1, 4));
    assert!(!may_admit(2, 2, 4));
    assert!(!may_admit(usize::MAX, 1, 3));
}

#[test]
fn edges_gate_frames_by_exact_type_and_verdict() {
    match edge_gate(FrameType::Audio, FrameType::Text, None, true) {
        Some(EdgeDecision::Abort(a)) => {
            assert_eq!(a.code, "VOXA-CONCURRENT-EDGE-TYPE");
            assert_eq!(a.message, "frame failed the mandatory exact Edge type gate");
            assert_eq!(a.stage, "type_gate");
        }
        other => panic!("unexpected {other:?}"),
    }
    assert_eq!(edge_gate(FrameType::Text, FrameType::Text, None, true), None);
    assert_eq!(edge_gate(FrameType::Text, FrameType::Text, Some(EdgeVerdict::Accept), true), None);
    match edge_gate(FrameType::Text, FrameType::Text, Some(EdgeVerdict::Reject("too loud".to_owned())), true) {
        Some(EdgeDecision::Abort(a)) => {
            assert_eq!(a.code, "VOXA-CONCURRENT-VALIDATION");
            assert_eq!(a.message, "too loud");
            assert_eq!(a.stage, "validate");
        }
        other => panic!("unexpected {other:?}"),
    }
    assert_eq!(
        edge_gate(FrameType::Text, FrameType::Text, Some(EdgeVerdict::Reject("too loud".to_owned())), false),
        Some(EdgeDecision::Drop("too loud".to_owned()))
    );
}

#[test]
fn edge_actions_are_checked_before_routing() {
    assert_eq!(edge_action(FrameType::Text, EdgeActionKind::Forward { unchanged: true }), EdgeDecision::Enqueue);
    match edge_action(FrameType::Text, EdgeActionKind::Forward { unchanged: false }) {
        EdgeDecision::Abort(a) => {
            assert_eq!(a.code, "VOXA-CONCURRENT-FORWARD-MUTATION");
            assert_eq!(a.message, "Forward must return the unchanged frame");
            assert_eq!(a.stage, "transform");
        }
        other => panic!("unexpected {other:?}"),
    }
    assert_eq!(
        edge_action(FrameType::Text, EdgeActionKind::Replace { fresh_id: true, frame_type: FrameType::Text }),
        EdgeDecision::EnqueueReplacement
    );
    for bad in [
        EdgeActionKind::Replace { fresh_id: false, frame_type: FrameType::Text },
        EdgeActionKind::Replace { fresh_id: true, frame_type: FrameType::Audio },
    ] {
        match edge_action(FrameType::Text, bad) {
            EdgeDecision::Abort(a) => {
                assert_eq!(a.code, "VOXA-CONCURRENT-REPLACE");
                assert_eq!(a.message, "Replace requires a fresh ID and the exact Edge type");
            }
            other => panic!("unexpected {other:?}"),
        }
    }
    assert_eq!(
        edge_action(FrameType::Text, EdgeActionKind::Drop("late".to_owned())),
        EdgeDecision::Drop("late".to_owned())
    );
    match edge_action(FrameType::Text, EdgeActionKind::Abort("stop".to_owned())) {
        EdgeDecision::Abort(a) => {
            assert_eq!(a.code, "VOXA-CONCURRENT-POLICY-ABORT");
            assert_eq!(a.message, "stop");
            assert_eq!(a.stage, "transform");
        }
        other => panic!("unexpected {other:?}"),
    }
    assert_eq!(
        edge_action(FrameType::Text, EdgeActionKind::EmitSignal { frame_type: FrameType::Signal }),
        EdgeDecision::Signal
    );
    match edge_action(FrameType::Text, EdgeActionKind::EmitSignal { frame_type: FrameType::Event }) {
        EdgeDecision::Abort(a) => {
            assert_eq!(a.code, "VOXA-CONCURRENT-SIGNAL-TYPE");
            assert_eq!(a.message, "EmitSignal requires a Signal frame");
        }
        other => panic!("unexpected {other:?}"),
    }
}

#[test]
fn queue_pushes_abort_only_on_overflow_abort_or_close() {
    assert_eq!(push_abort(PushResult::Enqueued), None);
    assert_eq!(push_abort(PushResult::EnqueuedAfterDroppingOldest), None);
    assert_eq!(push_abort(PushResult::Dropped), None);
    let a = push_abort(PushResult::OverflowAbort).unwrap();
    assert_eq!((a.code.as_str(), a.message.as_str(), a.stage.as_str()), (
        "VOXA-CONCURRENT-QUEUE-ABORT",
        "queue overflow policy aborted",
        "queue"
    ));
    let c = push_abort(PushResult::Closed).unwrap();
    assert_eq!(c.code, "VOXA-CONCURRENT-QUEUE-CLOSED");
    assert_eq!(c.message, "queue closed while routing a frame");
}

#[test]
fn strict_delivery_records_each_sequence_once() {
    let mut d = StrictDelivery::new();
    assert!(d.resolve(2, Some("c")));
    assert!(d.resolve(0, Some("a")));
    assert!(!d.resolve(0, Some("x")));
    assert_eq!(d.pending_len(), 2);
    assert_eq!(d.release(8), (vec!["a"], false));
    assert_eq!(d.next_delivery(), 1);
    assert!(!d.resolve(0, Some("late")));
    assert!(d.resolve(1, None));
    assert_eq!(d.release(0), (vec![], true));
    assert_eq!(d.next_delivery(), 2);
    assert_eq!(d.release(1), (vec!["c"], false));
    assert_eq!(d.next_delivery(), 3);
    assert_eq!(d.pending_len(), 0);
}

#[test]
fn relaxed_delivery_and_admission_decisions() {
    assert_eq!(relaxed_release(3, 5), (3, false));
    assert_eq!(relaxed_release(5, 5), (5, false));
    assert_eq!(relaxed_release(6, 2), (2, true));
    assert_eq!(relaxed_release(1, 0), (0, true));
    assert_eq!(admission_action(true, true), AdmissionAction::Skip);
    assert_eq!(admission_action(false, true), AdmissionAction::Expire);
    assert_eq!(admission_action(false, false), AdmissionAction::Start);
    match worker_start_failure::<u8>(true) {
        Some(StreamResult::Failed(e)) => assert_eq!(e.code(), "managed_stream_worker_start"),
        other => panic!("unexpected {other:?}"),
    }
    assert!(worker_start_failure::<u8>(false).is_none());
}

#[test]
fn the_in_flight_window_counts_active_and_waiting_requests() {
    let mut w: DeliveryWindow<&str> = DeliveryWindow::new(2);
    assert_eq!(w.window_len(), 0);
    assert!(w.may_admit());
    w.start(0);
    assert!(w.may_admit());
    assert!(w.resolve_queued(1, None));
    assert_eq!(w.window_len(), 2);
    assert!(!w.may_admit());
    assert!(w.time_out(0, Some("late")));
    assert_eq!(w.window_len(), 2);
    assert!(!w.complete(0, Some("done")));
    assert_eq!(w.window_len(), 2);
    assert_eq!(w.release(4), (vec!["late"], false));
    assert_eq!(w.window_len(), 0);
    assert!(w.may_admit());
    w.start(2);
    assert!(w.complete(2, Some("c")));
    assert_eq!(w.window_len(), 1);
    assert_eq!(w.release(0), (vec![], true));
    assert_eq!(w.release(1), (vec!["c"], false));
    assert_eq!(w.window_len(), 0);
}
