//! Transport turn, interruption, user and connection control.
//!
//! One `TransportControl` holds a coherent snapshot. Every effective change
//! bumps the revision; repeated or stale requests change nothing.
use vstd::prelude::*;

use crate::extension::{same_identity, Extension, Extensions};
use crate::registry::str_equal;
use crate::string_set::StringSet;
use crate::text::{decimal_digits, u64_decimal};
use crate::value::{key_bytes, Value, ValueMap};

verus! {

/// The private extension key that carries a frame's turn.
pub open spec fn turn_extension_key() -> Seq<char> {
    "voxa.transport.turn"@
}

/// The runtime signal name that requests an interruption.
pub fn runtime_interrupt_signal() -> (r: &'static str)
    ensures
        r@ == "voxa.runtime.interrupt"@,
{
    "voxa.runtime.interrupt"
}

/// The connection state of the transport.
#[derive(Clone, Copy, Debug, PartialEq, Eq, Structural)]
pub enum ConnectionState {
    Disconnected,
    Connecting,
    Connected,
    Reconnecting,
}

/// The stable name of a connection state.
pub open spec fn connection_name(c: ConnectionState) -> Seq<char> {
    match c {
        ConnectionState::Disconnected => "disconnected"@,
        ConnectionState::Connecting => "connecting"@,
        ConnectionState::Connected => "connected"@,
        ConnectionState::Reconnecting => "reconnecting"@,
    }
}

impl ConnectionState {
    /// Returns the stable name.
    pub fn as_str(self) -> (r: &'static str)
        ensures
            r@ == connection_name(self),
    {
        match self {
            ConnectionState::Disconnected => "disconnected",
            ConnectionState::Connecting => "connecting",
            ConnectionState::Connected => "connected",
            ConnectionState::Reconnecting => "reconnecting",
        }
    }

    /// Parses a stable name.
    pub fn parse(value: &str) -> (r: Option<ConnectionState>)
        ensures
            r == parse_connection(value@),
    {
        if str_equal(value, "disconnected") {
            Some(ConnectionState::Disconnected)
        } else if str_equal(value, "connecting") {
            Some(ConnectionState::Connecting)
        } else if str_equal(value, "connected") {
            Some(ConnectionState::Connected)
        } else if str_equal(value, "reconnecting") {
            Some(ConnectionState::Reconnecting)
        } else {
            None
        }
    }
}

/// The outcome of one control request.
#[derive(Clone, Copy, Debug, PartialEq, Eq, Structural)]
pub enum ControlApplyOutcome {
    Applied,
    AlreadyApplied,
    StaleTurn,
}

/// Why a control payload or frame turn was rejected.
#[derive(Clone, Debug, PartialEq, Eq)]
pub enum TransportControlError {
    UnknownTopic(String),
    PayloadNotMap,
    MissingField(String),
    InvalidField(String),
    InvalidTurnId,
    InvalidFrameTurn,
    FrameDerivation(String),
}

/// The abstract transport state.
pub struct TransportView {
    pub turn_id: Seq<char>,
    pub interrupted: bool,
    pub audio_ended: bool,
    pub users: Set<Seq<char>>,
    pub connection: ConnectionState,
    pub revision: u64,
}

/// One coherent transport snapshot.
#[derive(Debug)]
pub struct TransportSnapshot {
    turn_id: String,
    interrupted: bool,
    audio_ended: bool,
    users: StringSet,
    connection: ConnectionState,
    revision: u64,
}

impl View for TransportSnapshot {
    type V = TransportView;

    closed spec fn view(&self) -> TransportView {
        TransportView {
            turn_id: self.turn_id@,
            interrupted: self.interrupted,
            audio_ended: self.audio_ended,
            users: self.users@.to_set(),
            connection: self.connection,
            revision: self.revision,
        }
    }
}

impl TransportSnapshot {
    /// Returns the current turn.
    pub fn turn_id(&self) -> (r: &str)
        ensures
            r@ == self@.turn_id,
    {
        self.turn_id.as_str()
    }

    /// Returns whether the current turn was interrupted.
    pub fn interrupted(&self) -> (r: bool)
        ensures
            r == self@.interrupted,
    {
        self.interrupted
    }

    /// Returns whether the current turn's audio ended.
    pub fn audio_ended(&self) -> (r: bool)
        ensures
            r == self@.audio_ended,
    {
        self.audio_ended
    }

    /// Returns the joined users in byte order.
    pub fn users(&self) -> (r: &[String])
        ensures
            r@.map_values(|s: String| s@).to_set() == self@.users,
    {
        self.users.items()
    }

    /// Returns the connection state.
    pub fn connection(&self) -> (r: ConnectionState)
        ensures
            r == self@.connection,
    {
        self.connection
    }

    /// Returns the revision, bumped by every effective change.
    pub fn revision(&self) -> (r: u64)
        ensures
            r == self@.revision,
    {
        self.revision
    }

    fn copy(&self) -> (r: Self)
        ensures
            r@ == self@,
    {
        let users = self.users.duplicate();
        TransportSnapshot {
            turn_id: self.turn_id.clone(),
            interrupted: self.interrupted,
            audio_ended: self.audio_ended,
            users,
            connection: self.connection,
            revision: self.revision,
        }
    }
}

/// The revision after one more effective change; it stops at `u64::MAX`.
pub open spec fn bumped(revision: u64) -> u64 {
    if revision == u64::MAX {
        u64::MAX
    } else {
        (revision + 1) as u64
    }
}

/// Switching to a turn: a new turn resets interruption and audio end.
pub open spec fn transition_spec(v: TransportView, t: Seq<char>) -> (TransportView, ControlApplyOutcome) {
    if v.turn_id == t {
        (v, ControlApplyOutcome::AlreadyApplied)
    } else {
        (
            TransportView {
                turn_id: t,
                interrupted: false,
                audio_ended: false,
                revision: bumped(v.revision),
                ..v
            },
            ControlApplyOutcome::Applied,
        )
    }
}

/// Interrupting a turn: only the current turn, only once.
pub open spec fn interrupt_spec(v: TransportView, t: Seq<char>) -> (TransportView, ControlApplyOutcome) {
    if v.turn_id != t {
        (v, ControlApplyOutcome::StaleTurn)
    } else if v.interrupted {
        (v, ControlApplyOutcome::AlreadyApplied)
    } else {
        (TransportView { interrupted: true, revision: bumped(v.revision), ..v }, ControlApplyOutcome::Applied)
    }
}

/// Ending a turn's audio: only the current turn, only once.
pub open spec fn end_audio_spec(v: TransportView, t: Seq<char>) -> (TransportView, ControlApplyOutcome) {
    if v.turn_id != t {
        (v, ControlApplyOutcome::StaleTurn)
    } else if v.audio_ended {
        (v, ControlApplyOutcome::AlreadyApplied)
    } else {
        (TransportView { audio_ended: true, revision: bumped(v.revision), ..v }, ControlApplyOutcome::Applied)
    }
}

/// Changing the connection state.
pub open spec fn connection_spec(v: TransportView, c: ConnectionState) -> (TransportView, ControlApplyOutcome) {
    if v.connection == c {
        (v, ControlApplyOutcome::AlreadyApplied)
    } else {
        (TransportView { connection: c, revision: bumped(v.revision), ..v }, ControlApplyOutcome::Applied)
    }
}

/// A user joining.
pub open spec fn join_spec(v: TransportView, u: Seq<char>) -> (TransportView, ControlApplyOutcome) {
    if v.users.contains(u) {
        (v, ControlApplyOutcome::AlreadyApplied)
    } else {
        (TransportView { users: v.users.insert(u), revision: bumped(v.revision), ..v }, ControlApplyOutcome::Applied)
    }
}

/// A user leaving.
pub open spec fn leave_spec(v: TransportView, u: Seq<char>) -> (TransportView, ControlApplyOutcome) {
    if !v.users.contains(u) {
        (v, ControlApplyOutcome::AlreadyApplied)
    } else {
        (TransportView { users: v.users.remove(u), revision: bumped(v.revision), ..v }, ControlApplyOutcome::Applied)
    }
}

/// The name of the fresh turn opened after an interruption.
pub open spec fn runtime_turn_name(revision: u64) -> Seq<char> {
    "turn.runtime."@ + decimal_digits(revision as nat)
}

/// Opening a fresh runtime turn after an interruption.
pub open spec fn advance_spec(v: TransportView) -> TransportView {
    TransportView {
        turn_id: runtime_turn_name(bumped(v.revision)),
        interrupted: false,
        audio_ended: false,
        revision: bumped(v.revision),
        ..v
    }
}

/// Whether a frame stamped with `frame_turn` reaches a sink: unstamped
/// frames always do, stamped ones only in their own turn.
pub open spec fn deliver_spec(v: TransportView, frame_turn: Option<Seq<char>>) -> bool {
    match frame_turn {
        None => true,
        Some(t) => t == v.turn_id,
    }
}

/// The text of a string field of a control payload.
pub enum FieldRead {
    Missing,
    Invalid,
    Text(Seq<char>),
}

/// Looks up a field of a control payload: a present text field must be
/// 1 through 255 bytes.
pub open spec fn read_field(entries: Seq<(String, Value)>, key: Seq<char>) -> FieldRead {
    if exists|p: int| 0 <= p < entries.len() && key_bytes(#[trigger] entries[p].0) == vstd::utf8::encode_utf8(key) {
        let p = choose|p: int| 0 <= p < entries.len() && key_bytes(#[trigger] entries[p].0) == vstd::utf8::encode_utf8(key);
        match entries[p].1 {
            Value::String(s) => if 0 < vstd::utf8::encode_utf8(s@).len() <= 255 {
                FieldRead::Text(s@)
            } else {
                FieldRead::Invalid
            },
            _ => FieldRead::Invalid,
        }
    } else {
        FieldRead::Missing
    }
}

/// The private turn extension: its key at schema version 1.
pub open spec fn is_turn_stamp(e: Extension) -> bool {
    e.spec_key_bytes() == vstd::utf8::encode_utf8(turn_extension_key()) && e.spec_schema_version() == 1
}

/// What a frame's extensions say about its turn.
pub enum TurnStamp {
    /// No turn extension.
    Absent,
    /// A text turn extension.
    Turn(Seq<char>),
    /// A turn extension whose value is not text.
    Malformed,
}

/// Reads the turn stamp of a set of extensions.
pub open spec fn turn_of(exts: Seq<Extension>) -> TurnStamp {
    if exists|q: int| 0 <= q < exts.len() && is_turn_stamp(#[trigger] exts[q]) {
        let q = choose|q: int| 0 <= q < exts.len() && is_turn_stamp(#[trigger] exts[q]);
        match exts[q].spec_value() {
            Value::String(s) => TurnStamp::Turn(s@),
            _ => TurnStamp::Malformed,
        }
    } else {
        TurnStamp::Absent
    }
}

/// Why a control request failed.
pub enum ApplyFailure {
    UnknownTopic(Seq<char>),
    PayloadNotMap,
    MissingField(Seq<char>),
    InvalidField(Seq<char>),
}

/// The outcome of a control request.
pub enum ApplyResult {
    Done(TransportView, ControlApplyOutcome),
    Fail(ApplyFailure),
}

/// An error value reports the given failure.
pub open spec fn failure_matches(r: Result<ControlApplyOutcome, TransportControlError>, f: ApplyFailure) -> bool {
    match f {
        ApplyFailure::UnknownTopic(t) => r matches Err(TransportControlError::UnknownTopic(s)) && s@ == t,
        ApplyFailure::PayloadNotMap => r matches Err(TransportControlError::PayloadNotMap),
        ApplyFailure::MissingField(k) => r matches Err(TransportControlError::MissingField(s)) && s@ == k,
        ApplyFailure::InvalidField(k) => r matches Err(TransportControlError::InvalidField(s)) && s@ == k,
    }
}

/// Applies a transition to a required text field of the payload.
pub open spec fn with_field(
    entries: Seq<(String, Value)>,
    key: Seq<char>,
    step: spec_fn(Seq<char>) -> (TransportView, ControlApplyOutcome),
) -> ApplyResult {
    match read_field(entries, key) {
        FieldRead::Missing => ApplyResult::Fail(ApplyFailure::MissingField(key)),
        FieldRead::Invalid => ApplyResult::Fail(ApplyFailure::InvalidField(key)),
        FieldRead::Text(t) => ApplyResult::Done(step(t).0, step(t).1),
    }
}

/// The connection state that a stable name names, if any.
pub open spec fn parse_connection(t: Seq<char>) -> Option<ConnectionState> {
    if t == "disconnected"@ {
        Some(ConnectionState::Disconnected)
    } else if t == "connecting"@ {
        Some(ConnectionState::Connecting)
    } else if t == "connected"@ {
        Some(ConnectionState::Connected)
    } else if t == "reconnecting"@ {
        Some(ConnectionState::Reconnecting)
    } else {
        None
    }
}

/// The effect of one control topic and payload on the transport state.
pub open spec fn apply_spec(v: TransportView, topic: Seq<char>, payload: Value) -> ApplyResult {
    match payload {
        Value::Dict(m) => {
            let e = m.spec_entries();
            if topic == "voxa.transport.turn.changed"@ {
                with_field(e, "turn_id"@, |t: Seq<char>| transition_spec(v, t))
            } else if topic == "voxa.transport.turn.interrupted"@ {
                with_field(e, "turn_id"@, |t: Seq<char>| interrupt_spec(v, t))
            } else if topic == "voxa.transport.audio.ended"@ {
                with_field(e, "turn_id"@, |t: Seq<char>| end_audio_spec(v, t))
            } else if topic == "voxa.transport.user.joined"@ {
                with_field(e, "user_id"@, |t: Seq<char>| join_spec(v, t))
            } else if topic == "voxa.transport.user.left"@ {
                with_field(e, "user_id"@, |t: Seq<char>| leave_spec(v, t))
            } else if topic == "voxa.transport.connection.changed"@ {
                match read_field(e, "state"@) {
                    FieldRead::Missing => ApplyResult::Fail(ApplyFailure::MissingField("state"@)),
                    FieldRead::Invalid => ApplyResult::Fail(ApplyFailure::InvalidField("state"@)),
                    FieldRead::Text(t) => match parse_connection(t) {
                        Some(c) => ApplyResult::Done(connection_spec(v, c).0, connection_spec(v, c).1),
                        None => ApplyResult::Fail(ApplyFailure::InvalidField("state"@)),
                    },
                }
            } else {
                ApplyResult::Fail(ApplyFailure::UnknownTopic(topic))
            }
        },
        _ => ApplyResult::Fail(ApplyFailure::PayloadNotMap),
    }
}

/// Reads a required text field: present, text, and 1 through 255 bytes.
fn parse_string<'a>(values: &'a ValueMap, key: &str) -> (r: Result<&'a str, TransportControlError>)
    ensures
        match read_field(values.spec_entries(), key@) {
            FieldRead::Missing => r matches Err(TransportControlError::MissingField(s)) && s@ == key@,
            FieldRead::Invalid => r matches Err(TransportControlError::InvalidField(s)) && s@ == key@,
            FieldRead::Text(t) => r matches Ok(s) && s@ == t,
        },
{
    values.check_well_formed();
    match values.get(key) {
        None => Err(TransportControlError::MissingField(key.to_owned())),
        Some(found) => {
            proof {
                let e = values.spec_entries();
                let kb = vstd::utf8::encode_utf8(key@);
                let p = choose|p: int| 0 <= p < e.len() && key_bytes(#[trigger] e[p].0) == kb && e[p].1 == *found;
                let q = choose|q: int| 0 <= q < e.len() && key_bytes(#[trigger] e[q].0) == kb;
                assert(p == q);
                assert(e[q].1 == *found);
            }
            match found {
                Value::String(text) => {
                    let s = text.as_str();
                    let n = s.as_bytes().len();
                    if n > 0 && n <= 255 {
                        Ok(s)
                    } else {
                        Err(TransportControlError::InvalidField(key.to_owned()))
                    }
                },
                _ => Err(TransportControlError::InvalidField(key.to_owned())),
            }
        },
    }
}

/// The transport control state.
#[derive(Debug)]
pub struct TransportControl {
    state: TransportSnapshot,
    stale_sink_drops: u64,
}

impl TransportControl {
    /// The current transport state.
    pub closed spec fn spec_state(&self) -> TransportView {
        self.state@
    }

    /// The number of frames the sink gate dropped as stale.
    pub closed spec fn spec_stale_sink_drops(&self) -> u64 {
        self.stale_sink_drops
    }

    /// Starts disconnected, in `initial_turn`, with no users.
    pub fn new(initial_turn: String) -> (r: Self)
        ensures
            r.spec_state().turn_id == initial_turn@,
            !r.spec_state().interrupted,
            !r.spec_state().audio_ended,
            r.spec_state().users == Set::<Seq<char>>::empty(),
            r.spec_state().connection == ConnectionState::Disconnected,
            r.spec_state().revision == 0,
            r.spec_stale_sink_drops() == 0,
    {
        let users = StringSet::new();
        proof {
            assert(users@.to_set() =~= Set::<Seq<char>>::empty());
        }
        TransportControl {
            state: TransportSnapshot {
                turn_id: initial_turn,
                interrupted: false,
                audio_ended: false,
                users,
                connection: ConnectionState::Disconnected,
                revision: 0,
            },
            stale_sink_drops: 0,
        }
    }

    /// Reads every transport field from one coherent snapshot.
    pub fn snapshot(&self) -> (r: TransportSnapshot)
        ensures
            r@ == self.spec_state(),
    {
        self.state.copy()
    }

    fn bump(&mut self)
        ensures
            final(self).state@ == (TransportView { revision: bumped(old(self).state@.revision), ..old(self).state@ }),
            final(self).stale_sink_drops == old(self).stale_sink_drops,
    {
        self.state.revision = if self.state.revision == u64::MAX {
            u64::MAX
        } else {
            self.state.revision + 1
        };
    }

    /// Switches to `turn_id`, resetting interruption and audio end.
    pub fn transition_turn(&mut self, turn_id: String) -> (r: ControlApplyOutcome)
        ensures
            (final(self).spec_state(), r) == transition_spec(old(self).spec_state(), turn_id@),
            final(self).spec_stale_sink_drops() == old(self).spec_stale_sink_drops(),
    {
        if str_equal(self.state.turn_id.as_str(), turn_id.as_str()) {
            return ControlApplyOutcome::AlreadyApplied;
        }
        self.state.turn_id = turn_id;
        self.state.interrupted = false;
        self.state.audio_ended = false;
        self.bump();
        ControlApplyOutcome::Applied
    }

    /// Marks the current turn interrupted.
    pub fn interrupt(&mut self, turn_id: &str) -> (r: ControlApplyOutcome)
        ensures
            (final(self).spec_state(), r) == interrupt_spec(old(self).spec_state(), turn_id@),
            final(self).spec_stale_sink_drops() == old(self).spec_stale_sink_drops(),
    {
        if !str_equal(self.state.turn_id.as_str(), turn_id) {
            return ControlApplyOutcome::StaleTurn;
        }
        if self.state.interrupted {
            return ControlApplyOutcome::AlreadyApplied;
        }
        self.state.interrupted = true;
        self.bump();
        ControlApplyOutcome::Applied
    }

    /// Atomically invalidates the current turn and opens a fresh runtime turn
    /// named `turn.runtime.<revision>`. Frames stamped with the old turn become
    /// stale at every sink gate.
    pub fn advance_after_interrupt(&mut self) -> (r: String)
        ensures
            final(self).spec_state() == advance_spec(old(self).spec_state()),
            r@ == final(self).spec_state().turn_id,
            final(self).spec_stale_sink_drops() == old(self).spec_stale_sink_drops(),
    {
        let next_revision = if self.state.revision == u64::MAX {
            u64::MAX
        } else {
            self.state.revision + 1
        };
        let mut turn_id = String::from_str("turn.runtime.");
        let digits = u64_decimal(next_revision);
        turn_id.append(digits.as_str());
        self.state.turn_id = turn_id.clone();
        self.state.interrupted = false;
        self.state.audio_ended = false;
        self.state.revision = next_revision;
        turn_id
    }

    /// Marks the current turn's audio ended.
    pub fn end_audio(&mut self, turn_id: &str) -> (r: ControlApplyOutcome)
        ensures
            (final(self).spec_state(), r) == end_audio_spec(old(self).spec_state(), turn_id@),
            final(self).spec_stale_sink_drops() == old(self).spec_stale_sink_drops(),
    {
        if !str_equal(self.state.turn_id.as_str(), turn_id) {
            return ControlApplyOutcome::StaleTurn;
        }
        if self.state.audio_ended {
            return ControlApplyOutcome::AlreadyApplied;
        }
        self.state.audio_ended = true;
        self.bump();
        ControlApplyOutcome::Applied
    }

    /// Records a connection state change.
    pub fn set_connection(&mut self, connection: ConnectionState) -> (r: ControlApplyOutcome)
        ensures
            (final(self).spec_state(), r) == connection_spec(old(self).spec_state(), connection),
            final(self).spec_stale_sink_drops() == old(self).spec_stale_sink_drops(),
    {
        if self.state.connection == connection {
            return ControlApplyOutcome::AlreadyApplied;
        }
        self.state.connection = connection;
        self.bump();
        ControlApplyOutcome::Applied
    }

    /// Records a user joining.
    pub fn user_join(&mut self, user_id: String) -> (r: ControlApplyOutcome)
        ensures
            (final(self).spec_state(), r) == join_spec(old(self).spec_state(), user_id@),
            final(self).spec_stale_sink_drops() == old(self).spec_stale_sink_drops(),
    {
        let ghost before = self.state@;
        let inserted = self.state.users.insert(user_id);
        if !inserted {
            proof {
                assert(before.users.contains(user_id@));
            }
            return ControlApplyOutcome::AlreadyApplied;
        }
        self.bump();
        ControlApplyOutcome::Applied
    }

    /// Records a user leaving.
    pub fn user_leave(&mut self, user_id: &str) -> (r: ControlApplyOutcome)
        ensures
            (final(self).spec_state(), r) == leave_spec(old(self).spec_state(), user_id@),
            final(self).spec_stale_sink_drops() == old(self).spec_stale_sink_drops(),
    {
        let ghost before = self.state@;
        let removed = self.state.users.remove(user_id);
        if !removed {
            proof {
                assert(!before.users.contains(user_id@));
            }
            return ControlApplyOutcome::AlreadyApplied;
        }
        self.bump();
        ControlApplyOutcome::Applied
    }

    /// The turn stamped on a frame's extensions, if any.
    pub fn frame_turn(&self, extensions: &Extensions) -> (r: Result<Option<String>, TransportControlError>)
        ensures
            match turn_of(extensions@) {
                TurnStamp::Absent => r matches Ok(None),
                TurnStamp::Turn(t) => r matches Ok(Some(s)) && s@ == t,
                TurnStamp::Malformed => r == Err::<Option<String>, TransportControlError>(TransportControlError::InvalidFrameTurn),
            },
    {
        extensions.check_unique();
        proof {
            reveal_strlit("voxa.transport.turn");
        }
        match extensions.get("voxa.transport.turn", 1) {
            None => Ok(None),
            Some(extension) => {
                proof {
                    let p = choose|p: int| 0 <= p < extensions@.len() && #[trigger] extensions@[p] == *extension
                        && extension.spec_key_bytes() == vstd::utf8::encode_utf8(turn_extension_key())
                        && extension.spec_schema_version() == 1;
                    let q = choose|q: int| 0 <= q < extensions@.len() && is_turn_stamp(#[trigger] extensions@[q]);
                    if p != q {
                        if p < q {
                            assert(!same_identity(extensions@[p], extensions@[q]));
                        } else {
                            assert(!same_identity(extensions@[q], extensions@[p]));
                        }
                    }
                }
                match extension.value() {
                    Value::String(value) => Ok(Some(value.clone())),
                    _ => Err(TransportControlError::InvalidFrameTurn),
                }
            },
        }
    }

    /// Applies the stale-turn gate immediately before a sink callback,
    /// counting every frame it drops.
    pub fn should_deliver_turn(&mut self, frame_turn: Option<&str>) -> (r: bool)
        ensures
            r == deliver_spec(
                old(self).spec_state(),
                match frame_turn {
                    Some(t) => Some(t@),
                    None => None,
                },
            ),
            final(self).spec_state() == old(self).spec_state(),
            final(self).spec_stale_sink_drops() == if r {
                old(self).spec_stale_sink_drops()
            } else {
                bumped(old(self).spec_stale_sink_drops())
            },
    {
        let deliver = match frame_turn {
            None => true,
            Some(t) => str_equal(t, self.state.turn_id.as_str()),
        };
        if !deliver {
            self.stale_sink_drops = if self.stale_sink_drops == u64::MAX {
                u64::MAX
            } else {
                self.stale_sink_drops + 1
            };
        }
        deliver
    }

    /// Applies the mandatory stale-turn gate to a frame's extensions
    /// immediately before a sink callback.
    pub fn should_deliver_to_sink(&mut self, extensions: &Extensions) -> (r: Result<bool, TransportControlError>)
        ensures
            final(self).spec_state() == old(self).spec_state(),
            match turn_of(extensions@) {
                TurnStamp::Malformed => r == Err::<bool, TransportControlError>(TransportControlError::InvalidFrameTurn)
                    && final(self).spec_stale_sink_drops() == old(self).spec_stale_sink_drops(),
                TurnStamp::Absent => r == Ok::<bool, TransportControlError>(true)
                    && final(self).spec_stale_sink_drops() == old(self).spec_stale_sink_drops(),
                TurnStamp::Turn(t) => if t == old(self).spec_state().turn_id {
                    r == Ok::<bool, TransportControlError>(true) && final(self).spec_stale_sink_drops()
                        == old(self).spec_stale_sink_drops()
                } else {
                    r == Ok::<bool, TransportControlError>(false) && final(self).spec_stale_sink_drops()
                        == bumped(old(self).spec_stale_sink_drops())
                },
            },
    {
        let turn = self.frame_turn(extensions)?;
        let deliver = match &turn {
            None => self.should_deliver_turn(None),
            Some(t) => self.should_deliver_turn(Some(t.as_str())),
        };
        Ok(deliver)
    }

    fn apply(&mut self, topic: &str, payload: &Value) -> (r: Result<ControlApplyOutcome, TransportControlError>)
        ensures
            match apply_spec(old(self).spec_state(), topic@, *payload) {
                ApplyResult::Done(v, o) => r == Ok::<ControlApplyOutcome, TransportControlError>(o) && final(self).spec_state() == v,
                ApplyResult::Fail(f) => failure_matches(r, f) && final(self).spec_state() == old(self).spec_state(),
            },
            final(self).spec_stale_sink_drops() == old(self).spec_stale_sink_drops(),
    {
        let values = match payload {
            Value::Dict(values) => values,
            _ => return Err(TransportControlError::PayloadNotMap),
        };
        proof {
            reveal_strlit("voxa.transport.turn.changed");
            reveal_strlit("voxa.transport.turn.interrupted");
            reveal_strlit("voxa.transport.audio.ended");
            reveal_strlit("voxa.transport.user.joined");
            reveal_strlit("voxa.transport.user.left");
            reveal_strlit("voxa.transport.connection.changed");
        }
        if str_equal(topic, "voxa.transport.turn.changed") {
            let turn = parse_string(values, "turn_id")?;
            Ok(self.transition_turn(turn.to_owned()))
        } else if str_equal(topic, "voxa.transport.turn.interrupted") {
            let turn = parse_string(values, "turn_id")?;
            Ok(self.interrupt(turn))
        } else if str_equal(topic, "voxa.transport.audio.ended") {
            let turn = parse_string(values, "turn_id")?;
            Ok(self.end_audio(turn))
        } else if str_equal(topic, "voxa.transport.user.joined") {
            let user = parse_string(values, "user_id")?;
            Ok(self.user_join(user.to_owned()))
        } else if str_equal(topic, "voxa.transport.user.left") {
            let user = parse_string(values, "user_id")?;
            Ok(self.user_leave(user))
        } else if str_equal(topic, "voxa.transport.connection.changed") {
            let value = parse_string(values, "state")?;
            match ConnectionState::parse(value) {
                Some(state) => Ok(self.set_connection(state)),
                None => Err(TransportControlError::InvalidField("state".to_owned())),
            }
        } else {
            Err(TransportControlError::UnknownTopic(topic.to_owned()))
        }
    }

    /// Applies a transport control signal by name and payload.
    pub fn apply_signal(&mut self, name: &str, payload: &Value) -> (r: Result<ControlApplyOutcome, TransportControlError>)
        ensures
            match apply_spec(old(self).spec_state(), name@, *payload) {
                ApplyResult::Done(v, o) => r == Ok::<ControlApplyOutcome, TransportControlError>(o) && final(self).spec_state() == v,
                ApplyResult::Fail(f) => failure_matches(r, f) && final(self).spec_state() == old(self).spec_state(),
            },
            final(self).spec_stale_sink_drops() == old(self).spec_stale_sink_drops(),
    {
        self.apply(name, payload)
    }

    /// Applies a transport control event by topic and payload.
    pub fn apply_event(&mut self, topic: &str, payload: &Value) -> (r: Result<ControlApplyOutcome, TransportControlError>)
        ensures
            match apply_spec(old(self).spec_state(), topic@, *payload) {
                ApplyResult::Done(v, o) => r == Ok::<ControlApplyOutcome, TransportControlError>(o) && final(self).spec_state() == v,
                ApplyResult::Fail(f) => failure_matches(r, f) && final(self).spec_state() == old(self).spec_state(),
            },
            final(self).spec_stale_sink_drops() == old(self).spec_stale_sink_drops(),
    {
        self.apply(topic, payload)
    }

    /// Returns how many frames the sink gate dropped as stale.
    pub fn stale_sink_drops(&self) -> (r: u64)
        ensures
            r == self.spec_stale_sink_drops(),
    {
        self.stale_sink_drops
    }
}

/// Every control step is idempotent: repeating the same request reports
/// `AlreadyApplied` and leaves the state as the first request left it.
pub proof fn law_control_steps_are_idempotent(v: TransportView, t: Seq<char>, c: ConnectionState)
    ensures
        transition_spec(transition_spec(v, t).0, t) == (transition_spec(v, t).0, ControlApplyOutcome::AlreadyApplied),
        interrupt_spec(v, t).1 != ControlApplyOutcome::StaleTurn
            ==> interrupt_spec(interrupt_spec(v, t).0, t) == (interrupt_spec(v, t).0, ControlApplyOutcome::AlreadyApplied),
        end_audio_spec(v, t).1 != ControlApplyOutcome::StaleTurn
            ==> end_audio_spec(end_audio_spec(v, t).0, t) == (end_audio_spec(v, t).0, ControlApplyOutcome::AlreadyApplied),
        connection_spec(connection_spec(v, c).0, c) == (connection_spec(v, c).0, ControlApplyOutcome::AlreadyApplied),
        join_spec(join_spec(v, t).0, t) == (join_spec(v, t).0, ControlApplyOutcome::AlreadyApplied),
        leave_spec(leave_spec(v, t).0, t) == (leave_spec(v, t).0, ControlApplyOutcome::AlreadyApplied),
{
    assert(join_spec(v, t).0.users.contains(t));
    assert(!leave_spec(v, t).0.users.contains(t));
}

/// A step changes the state exactly when it reports `Applied`, and then it
/// bumps the revision.
pub open spec fn step_changes_exactly_when_applied(
    before: TransportView,
    step: (TransportView, ControlApplyOutcome),
) -> bool {
    &&& step.1 == ControlApplyOutcome::Applied ==> step.0.revision == bumped(before.revision)
    &&& step.1 != ControlApplyOutcome::Applied ==> step.0 == before
}

/// Only an applied request changes the state or its revision; an already
/// applied or stale request changes nothing.
pub proof fn law_only_applied_requests_change_state(v: TransportView, t: Seq<char>, c: ConnectionState)
    ensures
        step_changes_exactly_when_applied(v, transition_spec(v, t)),
        step_changes_exactly_when_applied(v, interrupt_spec(v, t)),
        step_changes_exactly_when_applied(v, end_audio_spec(v, t)),
        step_changes_exactly_when_applied(v, connection_spec(v, c)),
        step_changes_exactly_when_applied(v, join_spec(v, t)),
        step_changes_exactly_when_applied(v, leave_spec(v, t)),
{
}

/// A request for a turn other than the current one is stale: it is reported
/// as `StaleTurn` and changes nothing.
pub proof fn law_stale_turn_requests_change_nothing(v: TransportView, t: Seq<char>)
    requires
        t != v.turn_id,
    ensures
        interrupt_spec(v, t) == (v, ControlApplyOutcome::StaleTurn),
        end_audio_spec(v, t) == (v, ControlApplyOutcome::StaleTurn),
{
}

/// After switching to a new turn, frames stamped with any other turn are
/// dropped at the sink gate, frames of the new turn and unstamped frames
/// pass.
pub proof fn law_switch_makes_other_turns_stale(v: TransportView, next: Seq<char>, other: Seq<char>)
    requires
        other != next,
    ensures
        !deliver_spec(transition_spec(v, next).0, Some(other)),
        deliver_spec(transition_spec(v, next).0, Some(next)),
        deliver_spec(transition_spec(v, next).0, None),
{
}

/// After the barge-in step, frames of the turn that was current are stale,
/// unless that turn already carried the fresh runtime name.
pub proof fn law_advance_invalidates_the_current_turn(v: TransportView)
    requires
        v.turn_id != runtime_turn_name(bumped(v.revision)),
    ensures
        !deliver_spec(advance_spec(v), Some(v.turn_id)),
        deliver_spec(advance_spec(v), Some(advance_spec(v).turn_id)),
        !advance_spec(v).interrupted,
        !advance_spec(v).audio_ended,
{
}

/// Every connection state is parsed back from its stable name.
pub proof fn law_connection_name_round_trip(c: ConnectionState)
    ensures
        parse_connection(connection_name(c)) == Some(c),
{
    reveal_strlit("disconnected");
    reveal_strlit("connecting");
    reveal_strlit("connected");
    reveal_strlit("reconnecting");
    match c {
        ConnectionState::Disconnected => {},
        ConnectionState::Connecting => {
            assert("connecting"@.len() != "disconnected"@.len());
        },
        ConnectionState::Connected => {
            assert("connected"@.len() != "disconnected"@.len());
            assert("connected"@.len() != "connecting"@.len());
        },
        ConnectionState::Reconnecting => {
            assert("reconnecting"@[0] != "disconnected"@[0]);
            assert("reconnecting"@ != "connecting"@);
            assert("reconnecting"@ != "connected"@);
        },
    }
}

/// Switching turns: a request for another turn is always applied and opens
/// that turn fresh, neither interrupted nor with its audio ended, with one
/// more revision and the same users and connection; a request for the
/// current turn changes nothing.
pub proof fn law_switch_opens_a_fresh_turn(v: TransportView, t: Seq<char>)
    ensures
        t != v.turn_id ==> transition_spec(v, t).1 == ControlApplyOutcome::Applied,
        transition_spec(v, t).1 == ControlApplyOutcome::Applied ==> ({
            let w = transition_spec(v, t).0;
            &&& w.turn_id == t
            &&& !w.interrupted
            &&& !w.audio_ended
            &&& w.users == v.users
            &&& w.connection == v.connection
            &&& w.revision == bumped(v.revision)
        }),
        t == v.turn_id ==> transition_spec(v, t) == (v, ControlApplyOutcome::AlreadyApplied),
{
}

/// Interrupting or ending the audio of the current turn marks exactly that
/// and keeps the turn: the state after the step holds the flag, the same
/// turn, users and connection.
pub proof fn law_turn_flags_follow_their_requests(v: TransportView, t: Seq<char>)
    requires
        t == v.turn_id,
    ensures
        interrupt_spec(v, t).0.interrupted,
        interrupt_spec(v, t).0.turn_id == v.turn_id,
        interrupt_spec(v, t).0.audio_ended == v.audio_ended,
        end_audio_spec(v, t).0.audio_ended,
        end_audio_spec(v, t).0.turn_id == v.turn_id,
        end_audio_spec(v, t).0.interrupted == v.interrupted,
        interrupt_spec(v, t).0.users == v.users && end_audio_spec(v, t).0.users == v.users,
{
}

} // verus!
