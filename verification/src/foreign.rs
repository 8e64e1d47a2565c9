//! Settings, outcomes and diagnostics of the bounded command/completion
//! gate between the core and a foreign execution domain.
use vstd::prelude::*;

use crate::registry::str_equal;

verus! {

/// The most items a foreign mailbox may hold.
pub const MAX_MAILBOX_ITEMS: usize = 65536;

/// The most bytes a foreign mailbox may hold.
pub const MAX_MAILBOX_BYTES: usize = 67108864;

/// The most calls that may be in flight at once.
pub const MAX_IN_FLIGHT: usize = 4096;

/// The longest deadline, one hour, in nanoseconds.
pub const MAX_DEADLINE_NS: u64 = 3600000000000;

/// What a full foreign mailbox does with more work.
#[derive(Clone, Copy, Debug, PartialEq, Eq, Structural)]
pub enum ForeignFullPolicy {
    /// Reject immediately; the caller applies its declared edge policy.
    Reject,
}

/// The completion release order of one foreign node.
#[derive(Clone, Copy, Debug, PartialEq, Eq, Structural)]
pub enum ForeignOrdering {
    /// Release only the next submitted sequence after every earlier one.
    Strict,
    /// Release a completed sequence as soon as it is accepted.
    Unordered,
}

/// Configuration or state errors of a foreign driver.
#[derive(Clone, Copy, Debug, PartialEq, Eq, Structural)]
pub enum ForeignDriverError {
    CapacityTooLarge,
    ByteCapacityTooLarge,
    ZeroDeadline,
    DeadlineTooLarge,
    DuplicateSequence,
    StrictSequenceGap,
}

/// The message of a driver error.
pub open spec fn driver_error_message(e: ForeignDriverError) -> Seq<char> {
    match e {
        ForeignDriverError::CapacityTooLarge => "foreign mailbox item capacity exceeds the Core hard limit"@,
        ForeignDriverError::ByteCapacityTooLarge => "foreign mailbox byte capacity exceeds the Core hard limit"@,
        ForeignDriverError::ZeroDeadline => "foreign execution deadlines must be non-zero"@,
        ForeignDriverError::DeadlineTooLarge => "foreign execution deadlines exceed the Core hard limit"@,
        ForeignDriverError::DuplicateSequence => "foreign command sequence is already live"@,
        ForeignDriverError::StrictSequenceGap => "strict foreign command sequence must be contiguous"@,
    }
}

impl ForeignDriverError {
    /// The human-readable message.
    pub fn message(self) -> (r: &'static str)
        ensures
            r@ == driver_error_message(self),
    {
        match self {
            ForeignDriverError::CapacityTooLarge => "foreign mailbox item capacity exceeds the Core hard limit",
            ForeignDriverError::ByteCapacityTooLarge => "foreign mailbox byte capacity exceeds the Core hard limit",
            ForeignDriverError::ZeroDeadline => "foreign execution deadlines must be non-zero",
            ForeignDriverError::DeadlineTooLarge => "foreign execution deadlines exceed the Core hard limit",
            ForeignDriverError::DuplicateSequence => "foreign command sequence is already live",
            ForeignDriverError::StrictSequenceGap => "strict foreign command sequence must be contiguous",
        }
    }
}

/// Bounded driver settings. Capacities are at least one; deadlines are in
/// nanoseconds.
#[derive(Clone, Copy, Debug, PartialEq, Eq, Structural)]
pub struct ForeignDriverConfig {
    pub command_capacity: usize,
    pub command_byte_capacity: usize,
    pub completion_capacity: usize,
    pub completion_byte_capacity: usize,
    pub max_in_flight: usize,
    pub per_call_deadline_ns: u64,
    pub shutdown_deadline_ns: u64,
    pub ordering: ForeignOrdering,
    pub command_full_policy: ForeignFullPolicy,
    pub completion_full_policy: ForeignFullPolicy,
}

/// Every capacity of a configuration is at least one.
pub open spec fn capacities_nonzero(c: ForeignDriverConfig) -> bool {
    &&& c.command_capacity > 0
    &&& c.command_byte_capacity > 0
    &&& c.completion_capacity > 0
    &&& c.completion_byte_capacity > 0
    &&& c.max_in_flight > 0
}

/// The first limit a configuration breaks, checked in this order: item
/// capacities, byte capacities, zero deadlines, oversized deadlines.
pub open spec fn config_problem(c: ForeignDriverConfig) -> Option<ForeignDriverError> {
    if c.command_capacity > MAX_MAILBOX_ITEMS || c.completion_capacity > MAX_MAILBOX_ITEMS || c.max_in_flight
        > MAX_MAILBOX_ITEMS || c.max_in_flight > MAX_IN_FLIGHT {
        Some(ForeignDriverError::CapacityTooLarge)
    } else if c.command_byte_capacity > MAX_MAILBOX_BYTES || c.completion_byte_capacity > MAX_MAILBOX_BYTES {
        Some(ForeignDriverError::ByteCapacityTooLarge)
    } else if c.per_call_deadline_ns == 0 || c.shutdown_deadline_ns == 0 {
        Some(ForeignDriverError::ZeroDeadline)
    } else if c.per_call_deadline_ns > MAX_DEADLINE_NS || c.shutdown_deadline_ns > MAX_DEADLINE_NS {
        Some(ForeignDriverError::DeadlineTooLarge)
    } else {
        None
    }
}

impl ForeignDriverConfig {
    /// Sixteen items and one MiB per mailbox, one call in flight, a ten
    /// second call deadline, a five second shutdown deadline, strict order,
    /// and rejection when full.
    pub fn default_config() -> (r: Self)
        ensures
            r == (ForeignDriverConfig {
                command_capacity: 16,
                command_byte_capacity: 1048576,
                completion_capacity: 16,
                completion_byte_capacity: 1048576,
                max_in_flight: 1,
                per_call_deadline_ns: 10000000000,
                shutdown_deadline_ns: 5000000000,
                ordering: ForeignOrdering::Strict,
                command_full_policy: ForeignFullPolicy::Reject,
                completion_full_policy: ForeignFullPolicy::Reject,
            }),
    {
        ForeignDriverConfig {
            command_capacity: 16,
            command_byte_capacity: 1048576,
            completion_capacity: 16,
            completion_byte_capacity: 1048576,
            max_in_flight: 1,
            per_call_deadline_ns: 10000000000,
            shutdown_deadline_ns: 5000000000,
            ordering: ForeignOrdering::Strict,
            command_full_policy: ForeignFullPolicy::Reject,
            completion_full_policy: ForeignFullPolicy::Reject,
        }
    }

    /// Checks the configuration against the core's hard limits.
    pub fn validate(self) -> (r: Result<(), ForeignDriverError>)
        requires
            capacities_nonzero(self),
        ensures
            match config_problem(self) {
                None => r is Ok,
                Some(e) => r == Err::<(), ForeignDriverError>(e),
            },
    {
        if self.command_capacity > MAX_MAILBOX_ITEMS || self.completion_capacity > MAX_MAILBOX_ITEMS
            || self.max_in_flight > MAX_MAILBOX_ITEMS || self.max_in_flight > MAX_IN_FLIGHT {
            return Err(ForeignDriverError::CapacityTooLarge);
        }
        if self.command_byte_capacity > MAX_MAILBOX_BYTES || self.completion_byte_capacity > MAX_MAILBOX_BYTES {
            return Err(ForeignDriverError::ByteCapacityTooLarge);
        }
        if self.per_call_deadline_ns == 0 || self.shutdown_deadline_ns == 0 {
            return Err(ForeignDriverError::ZeroDeadline);
        }
        if self.per_call_deadline_ns > MAX_DEADLINE_NS || self.shutdown_deadline_ns > MAX_DEADLINE_NS {
            return Err(ForeignDriverError::DeadlineTooLarge);
        }
        Ok(())
    }
}

/// Whether `addition` more bytes fit next to `current` within `capacity`,
/// without overflow.
pub fn fits(current: usize, addition: usize, capacity: usize) -> (r: bool)
    ensures
        r == (current + addition <= capacity),
{
    match current.checked_add(addition) {
        Some(total) => total <= capacity,
        None => false,
    }
}

/// A submit result that never makes a producer wait on a foreign domain.
#[derive(Clone, Copy, Debug, PartialEq, Eq, Structural)]
pub enum ForeignSubmitOutcome {
    Accepted,
    Full,
    Closed,
    Cancelled,
}

/// A completion result; late output is observable and discarded.
#[derive(Clone, Copy, Debug, PartialEq, Eq, Structural)]
pub enum ForeignCompletionOutcome {
    Accepted,
    Full,
    Closed,
    LateDiscarded,
}

/// Diagnostics returned when a shutdown deadline passes.
#[derive(Clone, Debug, PartialEq, Eq)]
pub struct ForeignShutdownDiagnostics {
    live_sequences: Vec<u64>,
    queued_command_count: usize,
    queued_completion_count: usize,
}

impl ForeignShutdownDiagnostics {
    /// Diagnostics of the given live sequences and queue fill levels.
    pub fn new(live_sequences: Vec<u64>, queued_command_count: usize, queued_completion_count: usize) -> (r: Self)
        ensures
            r.spec_live_sequences() == live_sequences@,
            r.spec_queued_command_count() == queued_command_count,
            r.spec_queued_completion_count() == queued_completion_count,
    {
        ForeignShutdownDiagnostics { live_sequences, queued_command_count, queued_completion_count }
    }

    /// The sequences still live.
    pub closed spec fn spec_live_sequences(&self) -> Seq<u64> {
        self.live_sequences@
    }

    /// The commands still queued.
    pub closed spec fn spec_queued_command_count(&self) -> usize {
        self.queued_command_count
    }

    /// The completions still queued.
    pub closed spec fn spec_queued_completion_count(&self) -> usize {
        self.queued_completion_count
    }

    /// The sequences still live.
    pub fn live_sequences(&self) -> (r: &[u64])
        ensures
            r@ == self.spec_live_sequences(),
    {
        self.live_sequences.as_slice()
    }

    /// The commands still queued.
    pub fn queued_command_count(&self) -> (r: usize)
        ensures
            r == self.spec_queued_command_count(),
    {
        self.queued_command_count
    }

    /// The completions still queued.
    pub fn queued_completion_count(&self) -> (r: usize)
        ensures
            r == self.spec_queued_completion_count(),
    {
        self.queued_completion_count
    }
}

/// A read-only view of the mailboxes and lifecycle.
#[derive(Clone, Copy, Debug, PartialEq, Eq, Structural)]
pub struct ForeignDriverSnapshot {
    pub command_count: usize,
    pub command_bytes: usize,
    pub completion_count: usize,
    pub completion_bytes: usize,
    pub in_flight: usize,
    pub accepting: bool,
    pub stopping: bool,
    pub late_completion_total: u64,
    pub cancellation_total: u64,
}

/// The execution domain a Python node asks for, refused unless it runs in
/// the host process: the isolated process worker is not available, and any
/// other name is unknown. A refusal reads `CODE: message`.
pub fn validate_isolation(value: &str) -> (r: Result<(), String>)
    ensures
        value@ == "in_process"@ ==> r is Ok,
        value@ == "isolated_process"@ ==> (r matches Err(m) && m@ == "MUXIVA-PY-ISOLATION-UNSUPPORTED: isolated_process requires the versioned authenticated IPC worker and is not available in V1"@),
        value@ != "in_process"@ && value@ != "isolated_process"@ ==> (r matches Err(m) && m@
            == "MUXIVA-PY-ISOLATION: isolation must be 'in_process' or 'isolated_process'"@),
{
    proof {
        reveal_strlit("in_process");
        reveal_strlit("isolated_process");
        assert("in_process"@.len() != "isolated_process"@.len());
    }
    if str_equal(value, "in_process") {
        Ok(())
    } else if str_equal(value, "isolated_process") {
        Err(
            "MUXIVA-PY-ISOLATION-UNSUPPORTED: isolated_process requires the versioned authenticated IPC worker and is not available in V1".to_owned(),
        )
    } else {
        Err("MUXIVA-PY-ISOLATION: isolation must be 'in_process' or 'isolated_process'".to_owned())
    }
}

} // verus!
