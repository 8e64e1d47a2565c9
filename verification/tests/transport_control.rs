use voxa::extension::{Extension, ExtensionProducer, ExtensionVisibility, Extensions};
use voxa::transport::{
    ConnectionState, ControlApplyOutcome, TransportControl, TransportControlError,
};
use voxa::value::{Value, ValueMap};

fn stamped(turn: &str) -> Extensions {
    Extensions::try_from_iter(vec![Extension::new(
        "voxa.transport.turn".to_owned(),
        1,
        ExtensionProducer::Core,
        ExtensionVisibility::Private,
        Value::String(turn.to_owned()),
    )])
    .unwrap()
}

fn payload(key: &str, value: &str) -> Value {
    Value::Dict(ValueMap::try_from_iter(vec![(key.to_owned(), Value::String(value.to_owned()))]).unwrap())
}

#[test]
fn turn_snapshot_switch_stale_filter_and_interrupt_are_atomic_and_idempotent() {
    let mut control = TransportControl::new("turn-1".to_owned());
    assert_eq!(control.interrupt("turn-1"), ControlApplyOutcome::Applied);
    assert_eq!(control.interrupt("turn-1"), ControlApplyOutcome::AlreadyApplied);
    assert!(control.snapshot().interrupted());

    let old = stamped("turn-1");
    assert_eq!(control.transition_turn("turn-2".to_owned()), ControlApplyOutcome::Applied);
    let snapshot = control.snapshot();
    assert_eq!(snapshot.turn_id(), "turn-2");
    assert!(!snapshot.interrupted());
    assert!(!snapshot.audio_ended());
    assert!(!control.should_deliver_to_sink(&old).unwrap());
    assert_eq!(control.stale_sink_drops(), 1);

    let current = stamped("turn-2");
    assert!(control.should_deliver_to_sink(&current).unwrap());
    assert_eq!(control.interrupt("turn-1"), ControlApplyOutcome::StaleTurn);
    assert_eq!(control.set_connection(ConnectionState::Connected), ControlApplyOutcome::Applied);
}

#[test]
fn revision_counts_only_effective_changes() {
    let mut control = TransportControl::new("t".to_owned());
    assert_eq!(control.snapshot().revision(), 0);
    assert_eq!(control.transition_turn("t".to_owned()), ControlApplyOutcome::AlreadyApplied);
    assert_eq!(control.snapshot().revision(), 0);
    assert_eq!(control.end_audio("t"), ControlApplyOutcome::Applied);
    assert_eq!(control.end_audio("t"), ControlApplyOutcome::AlreadyApplied);
    assert_eq!(control.end_audio("other"), ControlApplyOutcome::StaleTurn);
    assert_eq!(control.snapshot().revision(), 1);
    assert!(control.snapshot().audio_ended());
    assert_eq!(control.user_join("alice".to_owned()), ControlApplyOutcome::Applied);
    assert_eq!(control.user_join("alice".to_owned()), ControlApplyOutcome::AlreadyApplied);
    assert_eq!(control.user_join("bob".to_owned()), ControlApplyOutcome::Applied);
    assert_eq!(control.snapshot().users(), ["alice".to_owned(), "bob".to_owned()]);
    assert_eq!(control.user_leave("alice"), ControlApplyOutcome::Applied);
    assert_eq!(control.user_leave("alice"), ControlApplyOutcome::AlreadyApplied);
    assert_eq!(control.snapshot().revision(), 4);
}

#[test]
fn barge_in_opens_a_fresh_runtime_turn() {
    let mut control = TransportControl::new("turn-a".to_owned());
    control.interrupt("turn-a");
    let next = control.advance_after_interrupt();
    assert_eq!(next, "turn.runtime.2");
    assert_eq!(control.snapshot().turn_id(), "turn.runtime.2");
    assert!(!control.snapshot().interrupted());
    assert!(!control.should_deliver_turn(Some("turn-a")));
    assert!(control.should_deliver_turn(Some("turn.runtime.2")));
    assert!(control.should_deliver_turn(None));
    assert_eq!(control.stale_sink_drops(), 1);
}

#[test]
fn control_payloads_apply_by_topic() {
    let mut control = TransportControl::new("t1".to_owned());
    assert_eq!(
        control.apply_event("voxa.transport.turn.changed", &payload("turn_id", "t2")),
        Ok(ControlApplyOutcome::Applied)
    );
    assert_eq!(control.snapshot().turn_id(), "t2");
    assert_eq!(
        control.apply_signal("voxa.transport.connection.changed", &payload("state", "reconnecting")),
        Ok(ControlApplyOutcome::Applied)
    );
    assert_eq!(control.snapshot().connection(), ConnectionState::Reconnecting);
    assert_eq!(
        control.apply_signal("voxa.transport.connection.changed", &payload("state", "sideways")),
        Err(TransportControlError::InvalidField("state".to_owned()))
    );
    assert_eq!(
        control.apply_signal("voxa.transport.turn.changed", &payload("user_id", "x")),
        Err(TransportControlError::MissingField("turn_id".to_owned()))
    );
    assert_eq!(
        control.apply_signal("voxa.transport.turn.changed", &payload("turn_id", "")),
        Err(TransportControlError::InvalidField("turn_id".to_owned()))
    );
    assert_eq!(
        control.apply_signal("voxa.unknown", &payload("turn_id", "x")),
        Err(TransportControlError::UnknownTopic("voxa.unknown".to_owned()))
    );
    assert_eq!(
        control.apply_signal("voxa.transport.turn.changed", &Value::Null),
        Err(TransportControlError::PayloadNotMap)
    );
    assert_eq!(
        control.apply_event("voxa.transport.user.joined", &payload("user_id", "u")),
        Ok(ControlApplyOutcome::Applied)
    );
}

#[test]
fn malformed_turn_extension_is_rejected() {
    let mut control = TransportControl::new("t".to_owned());
    let malformed = Extensions::try_from_iter(vec![Extension::new(
        "voxa.transport.turn".to_owned(),
        1,
        ExtensionProducer::Core,
        ExtensionVisibility::Private,
        Value::Integer(3),
    )])
    .unwrap();
    assert_eq!(control.should_deliver_to_sink(&malformed), Err(TransportControlError::InvalidFrameTurn));
    assert_eq!(control.frame_turn(&Extensions::empty()), Ok(None));
    assert_eq!(control.should_deliver_to_sink(&Extensions::empty()), Ok(true));
    assert_eq!(control.stale_sink_drops(), 0);
}

#[test]
fn connection_state_names_round_trip() {
    for state in [
        ConnectionState::Disconnected,
        ConnectionState::Connecting,
        ConnectionState::Connected,
        ConnectionState::Reconnecting,
    ] {
        assert_eq!(ConnectionState::parse(state.as_str()), Some(state));
    }
    assert_eq!(ConnectionState::parse("gone"), None);
}
