//! Concurrent runtime options, lifecycle states and the abort/success
//! authority that decides how a running graph ends.
use vstd::prelude::*;
use vstd::string::*;

use crate::graph::FrameType;
use crate::string_set::StringSet;
use crate::text::{char_utf8_width, is_ascii_control, push_char, utf8_width};

verus! {

/// How a queue behaves when it closes: deliver what it holds, or drop it.
#[derive(Clone, Copy, Debug, PartialEq, Eq, Structural)]
pub enum DrainMode {
    Drain,
    Discard,
}

/// Scheduler options: queue-close behaviour on stop and on failure, the
/// admission ceiling, the emission budget of one lifecycle call, and the
/// signal queue capacity of each edge.
#[derive(Clone, Copy, Debug, PartialEq, Eq, Structural)]
pub struct RuntimeOptions {
    shutdown_mode: DrainMode,
    failure_mode: DrainMode,
    max_in_flight: usize,
    emission_budget: usize,
    signal_queue_capacity: usize,
}

/// The default emission budget of one lifecycle call.
pub const DEFAULT_EMISSION_BUDGET: usize = 16384;

/// The default signal queue capacity of one edge.
pub const DEFAULT_SIGNAL_QUEUE_CAPACITY: usize = 64;

impl RuntimeOptions {
    /// The stop behaviour.
    pub closed spec fn spec_shutdown_mode(self) -> DrainMode {
        self.shutdown_mode
    }

    /// The failure behaviour.
    pub closed spec fn spec_failure_mode(self) -> DrainMode {
        self.failure_mode
    }

    /// The admission ceiling.
    pub closed spec fn spec_max_in_flight(self) -> usize {
        self.max_in_flight
    }

    /// The emission budget.
    pub closed spec fn spec_emission_budget(self) -> usize {
        self.emission_budget
    }

    /// The signal queue capacity.
    pub closed spec fn spec_signal_queue_capacity(self) -> usize {
        self.signal_queue_capacity
    }

    /// Creates explicit stop and failure behaviour with one callback in
    /// flight per node and the default budgets.
    pub fn new(shutdown_mode: DrainMode, failure_mode: DrainMode) -> (r: Self)
        ensures
            r.spec_shutdown_mode() == shutdown_mode,
            r.spec_failure_mode() == failure_mode,
            r.spec_max_in_flight() == 1,
            r.spec_emission_budget() == DEFAULT_EMISSION_BUDGET,
            r.spec_signal_queue_capacity() == DEFAULT_SIGNAL_QUEUE_CAPACITY,
    {
        RuntimeOptions {
            shutdown_mode,
            failure_mode,
            max_in_flight: 1,
            emission_budget: DEFAULT_EMISSION_BUDGET,
            signal_queue_capacity: DEFAULT_SIGNAL_QUEUE_CAPACITY,
        }
    }

    /// Options that discard queued work both on stop and on failure.
    pub fn default_options() -> (r: Self)
        ensures
            r.spec_shutdown_mode() == DrainMode::Discard,
            r.spec_failure_mode() == DrainMode::Discard,
            r.spec_max_in_flight() == 1,
            r.spec_emission_budget() == DEFAULT_EMISSION_BUDGET,
            r.spec_signal_queue_capacity() == DEFAULT_SIGNAL_QUEUE_CAPACITY,
    {
        Self::new(DrainMode::Discard, DrainMode::Discard)
    }

    /// The queue-close behaviour of a normal stop.
    pub fn shutdown_mode(self) -> (r: DrainMode)
        ensures
            r == self.spec_shutdown_mode(),
    {
        self.shutdown_mode
    }

    /// The queue-close behaviour of a failure.
    pub fn failure_mode(self) -> (r: DrainMode)
        ensures
            r == self.spec_failure_mode(),
    {
        self.failure_mode
    }

    /// The admission ceiling: one active callback per node.
    pub fn max_in_flight(self) -> (r: usize)
        ensures
            r == self.spec_max_in_flight(),
    {
        self.max_in_flight
    }

    /// Sets the maximum emissions retained from one lifecycle call.
    pub fn with_emission_budget(self, emission_budget: usize) -> (r: Self)
        requires
            emission_budget > 0,
        ensures
            r.spec_emission_budget() == emission_budget,
            r.spec_max_in_flight() == self.spec_max_in_flight(),
            r.spec_shutdown_mode() == self.spec_shutdown_mode(),
            r.spec_failure_mode() == self.spec_failure_mode(),
            r.spec_signal_queue_capacity() == self.spec_signal_queue_capacity(),
    {
        RuntimeOptions { emission_budget, ..self }
    }

    /// The maximum emissions retained from one lifecycle call.
    pub fn emission_budget(self) -> (r: usize)
        ensures
            r == self.spec_emission_budget(),
    {
        self.emission_budget
    }

    /// Sets the signal queue capacity of every edge.
    pub fn with_signal_queue_capacity(self, capacity: usize) -> (r: Self)
        requires
            capacity > 0,
        ensures
            r.spec_signal_queue_capacity() == capacity,
            r.spec_max_in_flight() == self.spec_max_in_flight(),
            r.spec_shutdown_mode() == self.spec_shutdown_mode(),
            r.spec_failure_mode() == self.spec_failure_mode(),
            r.spec_emission_budget() == self.spec_emission_budget(),
    {
        RuntimeOptions { signal_queue_capacity: capacity, ..self }
    }

    /// The signal queue capacity of every edge.
    pub fn signal_queue_capacity(self) -> (r: usize)
        ensures
            r == self.spec_signal_queue_capacity(),
    {
        self.signal_queue_capacity
    }
}


/// Observable concurrent graph lifecycle state.
#[derive(Clone, Copy, Debug, PartialEq, Eq, Structural)]
pub enum ConcurrentRuntimeState {
    Starting,
    Running,
    Stopping,
    Finishing,
    Aborting,
    Finished,
    Aborted,
}

/// The successful result after every worker and lifecycle hook completed.
#[derive(Clone, Copy, Debug, PartialEq, Eq, Structural)]
pub struct ConcurrentRunSummary {
    worker_total: usize,
}

impl ConcurrentRunSummary {
    /// A summary of a run with `worker_total` node workers.
    pub fn new(worker_total: usize) -> (r: Self)
        ensures
            r.spec_worker_total() == worker_total,
    {
        ConcurrentRunSummary { worker_total }
    }

    /// The number of node workers.
    pub closed spec fn spec_worker_total(self) -> usize {
        self.worker_total
    }

    /// The number of node workers.
    pub fn worker_total(self) -> (r: usize)
        ensures
            r == self.spec_worker_total(),
    {
        self.worker_total
    }
}

/// The kind of execution domain whose creation stopped a runtime start.
#[derive(Clone, Copy, Debug, PartialEq, Eq, Structural)]
pub enum RuntimeThreadRole {
    EdgeDispatcher,
    NodeWorker,
    Coordinator,
}

/// A recoverable failure to create every runtime execution domain.
#[derive(Clone, Debug, PartialEq, Eq)]
pub struct RuntimeStartError {
    role: RuntimeThreadRole,
    thread_name: String,
    source: String,
}

impl RuntimeStartError {
    /// The failure to spawn the thread `thread_name` of a role, with the
    /// operating system's message.
    pub fn new(role: RuntimeThreadRole, thread_name: String, source: String) -> (r: Self)
        ensures
            r.spec_role() == role,
            r.spec_thread_name() == thread_name@,
            r.spec_source() == source@,
    {
        RuntimeStartError { role, thread_name, source }
    }

    /// The thread name.
    pub closed spec fn spec_thread_name(&self) -> Seq<char> {
        self.thread_name@
    }

    /// The operating system's message.
    pub closed spec fn spec_source(&self) -> Seq<char> {
        self.source@
    }

    /// The role of the thread that could not start.
    pub fn role(&self) -> (r: RuntimeThreadRole)
        ensures
            r == self.spec_role(),
    {
        self.role
    }

    /// The role of the thread that could not start.
    pub closed spec fn spec_role(&self) -> RuntimeThreadRole {
        self.role
    }

    /// The name of the thread that could not start.
    pub fn thread_name(&self) -> (r: &str)
        ensures
            r@ == self.spec_thread_name(),
    {
        self.thread_name.as_str()
    }

    /// `failed to spawn <role> thread `<name>`: <source>`.
    pub fn to_display_string(&self) -> (r: String)
        ensures
            r@ == "failed to spawn "@ + role_name(self.spec_role()) + " thread `"@ + self.spec_thread_name() + "`: "@
                + self.spec_source(),
    {
        let mut text = "failed to spawn ".to_owned();
        text.append(role_debug_name(self.role));
        text.append(" thread `");
        text.append(self.thread_name.as_str());
        text.append("`: ");
        text.append(self.source.as_str());
        text
    }
}

/// The debug name of a thread role.
pub open spec fn role_name(r: RuntimeThreadRole) -> Seq<char> {
    match r {
        RuntimeThreadRole::EdgeDispatcher => "EdgeDispatcher"@,
        RuntimeThreadRole::NodeWorker => "NodeWorker"@,
        RuntimeThreadRole::Coordinator => "Coordinator"@,
    }
}

fn role_debug_name(r: RuntimeThreadRole) -> (s: &'static str)
    ensures
        s@ == role_name(r),
{
    match r {
        RuntimeThreadRole::EdgeDispatcher => "EdgeDispatcher",
        RuntimeThreadRole::NodeWorker => "NodeWorker",
        RuntimeThreadRole::Coordinator => "Coordinator",
    }
}

/// Bounded diagnostics returned instead of joining forever.
#[derive(Clone, Debug, PartialEq, Eq)]
pub struct ShutdownDiagnostics {
    state: ConcurrentRuntimeState,
    active_nodes: Vec<String>,
}

impl ShutdownDiagnostics {
    /// The lifecycle state when the wait gave up.
    pub closed spec fn spec_state(&self) -> ConcurrentRuntimeState {
        self.state
    }

    /// The workers still active, in identity order.
    pub closed spec fn spec_active_nodes(&self) -> Seq<Seq<char>> {
        self.active_nodes@.map_values(|s: String| s@)
    }

    /// The lifecycle state when the wait gave up.
    pub fn state(&self) -> (r: ConcurrentRuntimeState)
        ensures
            r == self.spec_state(),
    {
        self.state
    }

    /// The workers still active, in identity order.
    pub fn active_nodes(&self) -> (r: &[String])
        ensures
            r@.map_values(|s: String| s@) == self.spec_active_nodes(),
    {
        self.active_nodes.as_slice()
    }
}

/// The abstract state of the run authority.
pub struct ControlView<R> {
    pub state: ConcurrentRuntimeState,
    pub reason: Option<R>,
    pub success_sealed: bool,
    pub result: Option<Result<ConcurrentRunSummary, R>>,
    pub active_nodes: Seq<Seq<char>>,
}

/// Requesting an abort: only while no abort, sealed success or result
/// exists. A finishing graph then aborts, any other stops.
pub open spec fn request_abort_spec<R>(v: ControlView<R>, reason: R) -> (ControlView<R>, bool) {
    if v.reason is Some || v.success_sealed || v.result is Some {
        (v, false)
    } else {
        (
            ControlView {
                reason: Some(reason),
                state: if v.state == ConcurrentRuntimeState::Finishing {
                    ConcurrentRuntimeState::Aborting
                } else {
                    ConcurrentRuntimeState::Stopping
                },
                ..v
            },
            true,
        )
    }
}

/// Entering the finishing phase: only without an abort or result, and
/// only from starting or running.
pub open spec fn begin_finishing_spec<R>(v: ControlView<R>) -> (ControlView<R>, bool) {
    if v.reason is Some || v.result is Some {
        (v, false)
    } else {
        let next = if v.state == ConcurrentRuntimeState::Starting || v.state == ConcurrentRuntimeState::Running {
            ControlView { state: ConcurrentRuntimeState::Finishing, ..v }
        } else {
            v
        };
        (next, next.state == ConcurrentRuntimeState::Finishing)
    }
}

/// Sealing success: only without an abort or result.
pub open spec fn seal_success_spec<R>(v: ControlView<R>) -> (ControlView<R>, bool) {
    if v.reason is None && v.result is None {
        (ControlView { success_sealed: true, ..v }, true)
    } else {
        (v, false)
    }
}

/// The authority that decides, once, whether a run succeeds or aborts, and
/// tracks the workers that are still active.
pub struct RuntimeControl<R> {
    state: ConcurrentRuntimeState,
    reason: Option<R>,
    success_sealed: bool,
    result: Option<Result<ConcurrentRunSummary, R>>,
    active_nodes: StringSet,
}

impl<R> View for RuntimeControl<R> {
    type V = ControlView<R>;

    closed spec fn view(&self) -> ControlView<R> {
        ControlView {
            state: self.state,
            reason: self.reason,
            success_sealed: self.success_sealed,
            result: self.result,
            active_nodes: self.active_nodes@,
        }
    }
}

impl<R> RuntimeControl<R> {
    /// A starting run whose workers are all active.
    pub fn new(active_nodes: StringSet) -> (r: Self)
        ensures
            r@ == (ControlView::<R> {
                state: ConcurrentRuntimeState::Starting,
                reason: None,
                success_sealed: false,
                result: None,
                active_nodes: active_nodes@,
            }),
    {
        RuntimeControl { state: ConcurrentRuntimeState::Starting, reason: None, success_sealed: false, result: None, active_nodes }
    }

    /// The lifecycle state.
    pub fn state(&self) -> (r: ConcurrentRuntimeState)
        ensures
            r == self@.state,
    {
        self.state
    }

    /// Marks a starting run as running, unless an abort was requested.
    pub fn mark_running(&mut self)
        ensures
            final(self)@ == if old(self)@.state == ConcurrentRuntimeState::Starting && old(self)@.reason is None {
                ControlView { state: ConcurrentRuntimeState::Running, ..old(self)@ }
            } else {
                old(self)@
            },
    {
        if self.state == ConcurrentRuntimeState::Starting && self.reason.is_none() {
            self.state = ConcurrentRuntimeState::Running;
        }
    }

    /// Installs the abort reason; only the first request, made before success
    /// is sealed, obtains the authority.
    pub fn request_abort(&mut self, reason: R) -> (r: bool)
        ensures
            (final(self)@, r) == request_abort_spec(old(self)@, reason),
    {
        if self.reason.is_some() || self.success_sealed || self.result.is_some() {
            return false;
        }
        self.reason = Some(reason);
        self.state = if self.state == ConcurrentRuntimeState::Finishing {
            ConcurrentRuntimeState::Aborting
        } else {
            ConcurrentRuntimeState::Stopping
        };
        true
    }

    /// The installed abort reason.
    pub fn reason(&self) -> (r: Option<&R>)
        ensures
            match r {
                Some(x) => self@.reason == Some(*x),
                None => self@.reason is None,
            },
    {
        match &self.reason {
            Some(x) => Some(x),
            None => None,
        }
    }

    /// Enters the finishing phase; reports whether the run is finishing.
    pub fn begin_finishing(&mut self) -> (r: bool)
        ensures
            (final(self)@, r) == begin_finishing_spec(old(self)@),
    {
        if self.reason.is_some() || self.result.is_some() {
            return false;
        }
        if self.state == ConcurrentRuntimeState::Starting || self.state == ConcurrentRuntimeState::Running {
            self.state = ConcurrentRuntimeState::Finishing;
        }
        self.state == ConcurrentRuntimeState::Finishing
    }

    /// Seals success: from now on no abort can be installed.
    pub fn seal_success(&mut self) -> (r: bool)
        ensures
            (final(self)@, r) == seal_success_spec(old(self)@),
    {
        if self.reason.is_none() && self.result.is_none() {
            self.success_sealed = true;
            true
        } else {
            false
        }
    }

    /// Publishes the successful result of a sealed run.
    pub fn publish_success(&mut self, summary: ConcurrentRunSummary)
        requires
            old(self)@.success_sealed,
            old(self)@.reason is None,
        ensures
            final(self)@ == (ControlView {
                state: ConcurrentRuntimeState::Finished,
                result: Some(Ok::<ConcurrentRunSummary, R>(summary)),
                ..old(self)@
            }),
    {
        self.state = ConcurrentRuntimeState::Finished;
        self.result = Some(Ok(summary));
    }

    /// Enters the aborting phase and returns the installed reason.
    pub fn begin_aborting(&mut self) -> (r: &R)
        requires
            old(self)@.reason is Some,
        ensures
            final(self)@ == (ControlView { state: ConcurrentRuntimeState::Aborting, ..old(self)@ }),
            old(self)@.reason == Some(*r),
    {
        self.state = ConcurrentRuntimeState::Aborting;
        match &self.reason {
            Some(x) => x,
            None => vstd::pervasive::unreached(),
        }
    }

    /// Publishes the abort result.
    pub fn publish_abort(&mut self, reason: R)
        ensures
            final(self)@ == (ControlView {
                state: ConcurrentRuntimeState::Aborted,
                result: Some(Err::<ConcurrentRunSummary, R>(reason)),
                ..old(self)@
            }),
    {
        self.state = ConcurrentRuntimeState::Aborted;
        self.result = Some(Err(reason));
    }

    /// The published result, if the run ended.
    pub fn result(&self) -> (r: Option<&Result<ConcurrentRunSummary, R>>)
        ensures
            match r {
                Some(x) => self@.result == Some(*x),
                None => self@.result is None,
            },
    {
        match &self.result {
            Some(x) => Some(x),
            None => None,
        }
    }

    /// A worker entered a lifecycle callback.
    pub fn lifecycle_enter(&mut self, node_id: String)
        ensures
            final(self)@ == (ControlView { active_nodes: final(self)@.active_nodes, ..old(self)@ }),
            final(self)@.active_nodes.to_set() == old(self)@.active_nodes.to_set().insert(node_id@),
    {
        self.active_nodes.insert(node_id);
    }

    /// A worker became inactive.
    pub fn node_inactive(&mut self, node_id: &str)
        ensures
            final(self)@ == (ControlView { active_nodes: final(self)@.active_nodes, ..old(self)@ }),
            final(self)@.active_nodes.to_set() == old(self)@.active_nodes.to_set().remove(node_id@),
    {
        self.active_nodes.remove(node_id);
    }

    /// A worker left its lifecycle callback.
    pub fn lifecycle_exit(&mut self, node_id: &str)
        ensures
            final(self)@ == (ControlView { active_nodes: final(self)@.active_nodes, ..old(self)@ }),
            final(self)@.active_nodes.to_set() == old(self)@.active_nodes.to_set().remove(node_id@),
    {
        self.node_inactive(node_id);
    }

    /// The diagnostics of a wait that gave up: the state and the workers
    /// still active.
    pub fn shutdown_diagnostics(&self) -> (r: ShutdownDiagnostics)
        ensures
            r.spec_state() == self@.state,
            r.spec_active_nodes() == self@.active_nodes,
    {
        let items = self.active_nodes.items();
        let mut active: Vec<String> = Vec::new();
        let mut i: usize = 0;
        while i < items.len()
            invariant
                0 <= i <= items@.len(),
                active@.len() == i,
                forall|j: int| 0 <= j < i ==> #[trigger] active@[j]@ == items@[j]@,
            decreases items@.len() - i,
        {
            active.push(items[i].clone());
            i = i + 1;
        }
        proof {
            assert(active@.map_values(|s: String| s@) =~= items@.map_values(|s: String| s@));
        }
        ShutdownDiagnostics { state: self.state, active_nodes: active }
    }
}

/// Only one abort request obtains the authority: once one succeeded, every
/// later request is refused and changes nothing.
pub proof fn law_abort_authority_is_taken_once<R>(v: ControlView<R>, first: R, second: R)
    requires
        request_abort_spec(v, first).1,
    ensures
        request_abort_spec(request_abort_spec(v, first).0, second) == (request_abort_spec(v, first).0, false),
        request_abort_spec(v, first).0.reason == Some(first),
{
}

/// Success and abort exclude each other: a sealed success refuses every
/// abort, and an installed abort refuses sealing and finishing.
pub proof fn law_success_and_abort_exclude<R>(v: ControlView<R>, reason: R)
    ensures
        seal_success_spec(v).1 ==> !request_abort_spec(seal_success_spec(v).0, reason).1,
        request_abort_spec(v, reason).1 ==> !seal_success_spec(request_abort_spec(v, reason).0).1
            && !begin_finishing_spec(request_abort_spec(v, reason).0).1,
{
}

/// The character that a diagnostic keeps: ASCII controls become spaces.
pub open spec fn sanitized(c: char) -> char {
    if is_ascii_control(c) {
        ' '
    } else {
        c
    }
}

/// The sanitized characters of `s` that fit, whole, in `budget` UTF-8 bytes.
pub open spec fn bounded_chars(s: Seq<char>, budget: int) -> Seq<char>
    decreases s.len(),
{
    if s.len() == 0 {
        Seq::empty()
    } else if utf8_width(sanitized(s[0])) > budget {
        Seq::empty()
    } else {
        seq![sanitized(s[0])] + bounded_chars(s.drop_first(), budget - utf8_width(sanitized(s[0])))
    }
}

/// The most bytes a runtime diagnostic message keeps.
pub const MAX_MESSAGE_BYTES: usize = 256;

/// Bounds a diagnostic message: ASCII control characters become spaces and
/// the text stops before the first character that would exceed 256 bytes.
pub fn bounded(message: &str) -> (r: String)
    ensures
        r@ == bounded_chars(message@, MAX_MESSAGE_BYTES as int),
        vstd::utf8::encode_utf8(r@).len() <= MAX_MESSAGE_BYTES,
        forall|i: int| 0 <= i < r@.len() ==> !is_ascii_control(#[trigger] r@[i]),
        vstd::utf8::encode_utf8(sanitized_text(message@)).len() <= MAX_MESSAGE_BYTES ==> r@ == sanitized_text(message@),
{
    proof {
        lemma_bounded_chars(message@, MAX_MESSAGE_BYTES as int);
    }
    let n = message.unicode_len();
    let mut value = String::new();
    let mut used: usize = 0;
    let mut i: usize = 0;
    let mut stop = false;
    proof {
        assert(message@.subrange(0, n as int) =~= message@);
        assert(value@ + bounded_chars(message@, MAX_MESSAGE_BYTES as int) =~= bounded_chars(message@, MAX_MESSAGE_BYTES as int));
    }
    while i < n && !stop
        invariant
            n == message@.len(),
            0 <= i <= n,
            used <= MAX_MESSAGE_BYTES,
            !stop ==> bounded_chars(message@, MAX_MESSAGE_BYTES as int) == value@ + bounded_chars(
                message@.subrange(i as int, n as int),
                MAX_MESSAGE_BYTES - used,
            ),
            stop ==> bounded_chars(message@, MAX_MESSAGE_BYTES as int) == value@,
        decreases n - i + if stop { 0int } else { 1int },
    {
        let original = message.get_char(i);
        let c = if original <= '\u{1f}' || original == '\u{7f}' {
            ' '
        } else {
            original
        };
        let width = char_utf8_width(c);
        let ghost rest = message@.subrange(i as int, n as int);
        proof {
            assert(rest[0] == original);
            assert(rest.drop_first() =~= message@.subrange(i + 1, n as int));
        }
        if used + width > MAX_MESSAGE_BYTES {
            stop = true;
            proof {
                assert(value@ + Seq::<char>::empty() =~= value@);
            }
        } else {
            push_char(&mut value, c);
            used = used + width;
            i = i + 1;
            proof {
                assert(value@ =~= (value@.drop_last()).push(c));
            }
        }
    }
    proof {
        if !stop {
            assert(message@.subrange(i as int, n as int) =~= Seq::<char>::empty());
            assert(value@ + Seq::<char>::empty() =~= value@);
        }
    }
    value
}

proof fn lemma_scalar_width(c: char)
    ensures
        vstd::utf8::encode_scalar(c as u32).len() == utf8_width(c),
{
    vstd::utf8::char_is_scalar(c);
}

/// Every character of `s`, sanitized.
pub open spec fn sanitized_text(s: Seq<char>) -> Seq<char> {
    s.map_values(|c: char| sanitized(c))
}

proof fn lemma_bounded_chars(s: Seq<char>, budget: int)
    requires
        budget >= 0,
    ensures
        vstd::utf8::encode_utf8(bounded_chars(s, budget)).len() <= budget,
        forall|i: int| 0 <= i < bounded_chars(s, budget).len() ==> !is_ascii_control(#[trigger] bounded_chars(s, budget)[i]),
        vstd::utf8::encode_utf8(sanitized_text(s)).len() <= budget ==> bounded_chars(s, budget) == sanitized_text(s),
    decreases s.len(),
{
    if s.len() == 0 {
        assert(sanitized_text(s) =~= Seq::<char>::empty());
    } else {
        let c = sanitized(s[0]);
        let rest = s.drop_first();
        lemma_scalar_width(c);
        assert(sanitized_text(s)[0] == c);
        assert(sanitized_text(s).drop_first() =~= sanitized_text(rest));
        if utf8_width(c) > budget {
            assert(vstd::utf8::encode_utf8(Seq::<char>::empty()) =~= Seq::<u8>::empty());
        } else {
            lemma_bounded_chars(rest, budget - utf8_width(c));
            let tail = bounded_chars(rest, budget - utf8_width(c));
            let out = seq![c] + tail;
            assert(out[0] == c);
            assert(out.drop_first() =~= tail);
            assert(vstd::utf8::encode_utf8(out) == vstd::utf8::encode_scalar(c as u32) + vstd::utf8::encode_utf8(tail));
            assert forall|i: int| 0 <= i < out.len() implies !is_ascii_control(#[trigger] out[i]) by {
                if i > 0 {
                    assert(out[i] == tail[i - 1]);
                }
            }
            if vstd::utf8::encode_utf8(sanitized_text(s)).len() <= budget {
                assert(vstd::utf8::encode_utf8(sanitized_text(s)) == vstd::utf8::encode_scalar(c as u32)
                    + vstd::utf8::encode_utf8(sanitized_text(rest)));
                assert(out =~= sanitized_text(s));
            }
        }
    }
}

/// A bounded diagnostic holds at most 256 bytes of UTF-8 and no ASCII
/// control character, and it is the whole sanitized message when that fits.
pub proof fn law_bounded_fits(message: Seq<char>)
    ensures
        vstd::utf8::encode_utf8(bounded_chars(message, MAX_MESSAGE_BYTES as int)).len() <= MAX_MESSAGE_BYTES,
        forall|i: int|
            0 <= i < bounded_chars(message, MAX_MESSAGE_BYTES as int).len() ==> !is_ascii_control(
                #[trigger] bounded_chars(message, MAX_MESSAGE_BYTES as int)[i],
            ),
        vstd::utf8::encode_utf8(sanitized_text(message)).len() <= MAX_MESSAGE_BYTES ==> bounded_chars(
            message,
            MAX_MESSAGE_BYTES as int,
        ) == sanitized_text(message),
{
    lemma_bounded_chars(message, MAX_MESSAGE_BYTES as int);
}

/// The edges among the first `n` whose identity is enabled, in order.
pub open spec fn enabled_edges(edges: Seq<Seq<char>>, enabled: Seq<Seq<char>>, n: int) -> Seq<Seq<char>>
    decreases n,
{
    if n <= 0 {
        Seq::empty()
    } else if enabled.contains(edges[n - 1]) {
        enabled_edges(edges, enabled, n - 1).push(edges[n - 1])
    } else {
        enabled_edges(edges, enabled, n - 1)
    }
}

/// The threads a runtime start creates, in the order it creates them: one
/// dispatcher per enabled edge, the last edge first; one worker per node in
/// topological order; then the coordinator.
pub open spec fn start_plan_spec(
    edges: Seq<Seq<char>>,
    enabled: Seq<Seq<char>>,
    order: Seq<Seq<char>>,
) -> Seq<(RuntimeThreadRole, Seq<char>)> {
    let kept = enabled_edges(edges, enabled, edges.len() as int);
    Seq::new(kept.len(), |i: int| (RuntimeThreadRole::EdgeDispatcher, "voxa-edge-"@ + kept[kept.len() - 1 - i]))
        + order.map_values(|n: Seq<char>| (RuntimeThreadRole::NodeWorker, "voxa-node-"@ + n))
        + seq![(RuntimeThreadRole::Coordinator, "voxa-runtime-coordinator"@)]
}

/// The views of planned threads.
pub open spec fn plan_views(p: Seq<(RuntimeThreadRole, String)>) -> Seq<(RuntimeThreadRole, Seq<char>)> {
    p.map_values(|t: (RuntimeThreadRole, String)| (t.0, t.1@))
}

fn prefixed(prefix: &str, id: &str) -> (r: String)
    ensures
        r@ == prefix@ + id@,
{
    let mut text = prefix.to_owned();
    text.append(id);
    text
}

/// The threads a runtime start creates, with their roles and names (see
/// `start_plan_spec`): `edges` are the graph's edge identities in order,
/// `enabled` those with a dispatcher, `order` the topological order of the
/// nodes. A failed spawn of step `i` is reported with that step's role and
/// name.
pub fn start_plan(edges: &[String], enabled: &StringSet, order: &[String]) -> (r: Vec<(RuntimeThreadRole, String)>)
    ensures
        plan_views(r@) == start_plan_spec(edges@.map_values(|e: String| e@), enabled@, order@.map_values(|n: String| n@)),
{
    let ghost es = edges@.map_values(|e: String| e@);
    let ghost ns = order@.map_values(|n: String| n@);
    let mut kept: Vec<String> = Vec::new();
    let mut i: usize = 0;
    while i < edges.len()
        invariant
            es == edges@.map_values(|e: String| e@),
            0 <= i <= edges@.len(),
            kept@.map_values(|e: String| e@) == enabled_edges(es, enabled@, i as int),
        decreases edges@.len() - i,
    {
        if enabled.contains(edges[i].as_str()) {
            let ghost before = kept@;
            kept.push(edges[i].clone());
            proof {
                assert(kept@.map_values(|e: String| e@) =~= before.map_values(|e: String| e@).push(es[i as int]));
            }
        }
        i = i + 1;
    }
    let ghost kv = kept@.map_values(|e: String| e@);
    proof {
        assert(kv == enabled_edges(es, enabled@, es.len() as int));
    }
    let mut plan: Vec<(RuntimeThreadRole, String)> = Vec::new();
    let mut j: usize = kept.len();
    while j > 0
        invariant
            kv == kept@.map_values(|e: String| e@),
            0 <= j <= kept@.len(),
            plan_views(plan@) == Seq::new(
                (kept@.len() - j) as nat,
                |q: int| (RuntimeThreadRole::EdgeDispatcher, "voxa-edge-"@ + kv[kv.len() - 1 - q]),
            ),
        decreases j,
    {
        j = j - 1;
        let ghost before = plan@;
        let name = prefixed("voxa-edge-", kept[j].as_str());
        let ghost nv = name@;
        plan.push((RuntimeThreadRole::EdgeDispatcher, name));
        proof {
            assert(kv[j as int] == kept@[j as int]@);
            assert(plan_views(plan@) =~= plan_views(before).push((RuntimeThreadRole::EdgeDispatcher, nv)));
            assert(plan_views(plan@) =~= Seq::new(
                (kept@.len() - j) as nat,
                |q: int| (RuntimeThreadRole::EdgeDispatcher, "voxa-edge-"@ + kv[kv.len() - 1 - q]),
            ));
        }
    }
    let ghost edge_part = plan_views(plan@);
    let mut k: usize = 0;
    while k < order.len()
        invariant
            ns == order@.map_values(|n: String| n@),
            0 <= k <= order@.len(),
            plan_views(plan@) == edge_part + ns.take(k as int).map_values(
                |n: Seq<char>| (RuntimeThreadRole::NodeWorker, "voxa-node-"@ + n),
            ),
        decreases order@.len() - k,
    {
        let ghost before = plan@;
        let name = prefixed("voxa-node-", order[k].as_str());
        let ghost nv = name@;
        plan.push((RuntimeThreadRole::NodeWorker, name));
        proof {
            assert(plan_views(plan@) =~= plan_views(before).push((RuntimeThreadRole::NodeWorker, nv)));
            assert(ns[k as int] == order@[k as int]@);
            assert(ns.take(k + 1) =~= ns.take(k as int).push(ns[k as int]));
            assert(plan_views(plan@) =~= edge_part + ns.take(k + 1).map_values(
                |n: Seq<char>| (RuntimeThreadRole::NodeWorker, "voxa-node-"@ + n),
            ));
        }
        k = k + 1;
    }
    plan.push((RuntimeThreadRole::Coordinator, "voxa-runtime-coordinator".to_owned()));
    proof {
        assert(ns.take(ns.len() as int) =~= ns);
        assert(plan_views(plan@) =~= start_plan_spec(es, enabled@, ns));
    }
    plan
}

/// What a named validation policy decided about a frame on its edge.
#[derive(Clone, Debug, PartialEq, Eq)]
pub enum EdgeVerdict {
    Accept,
    Reject(String),
}

/// A transform policy's action, described by what routing reads of it.
#[derive(Clone, Debug, PartialEq, Eq)]
pub enum EdgeActionKind {
    /// Forward a frame; `unchanged` when it equals the original, frame ID
    /// included. An edge without a transform policy forwards unchanged.
    Forward { unchanged: bool },
    /// Replace the frame; `fresh_id` when the replacement's frame ID differs
    /// from the original's.
    Replace { fresh_id: bool, frame_type: FrameType },
    Drop(String),
    Abort(String),
    /// Hand a frame of this type to the policy's signal handler.
    EmitSignal { frame_type: FrameType },
}

/// Why routing a frame over an edge aborted the run.
#[derive(Clone, Debug, PartialEq, Eq)]
pub struct EdgeAbort {
    pub code: String,
    pub message: String,
    pub stage: String,
}

/// `a` carries this code, message and stage.
pub open spec fn edge_abort_is(a: EdgeAbort, code: Seq<char>, message: Seq<char>, stage: Seq<char>) -> bool {
    a.code@ == code && a.message@ == message && a.stage@ == stage
}

fn edge_abort(code: &str, message: &str, stage: &str) -> (r: EdgeAbort)
    ensures
        edge_abort_is(r, code@, message@, stage@),
{
    EdgeAbort { code: code.to_string(), message: message.to_string(), stage: stage.to_string() }
}

/// What routing does with a frame on an edge.
#[derive(Clone, Debug, PartialEq, Eq)]
pub enum EdgeDecision {
    Abort(EdgeAbort),
    /// Record the drop, then call the policy's drop handler.
    Drop(String),
    /// Record the signal, then call the policy's signal handler.
    Signal,
    /// Push the original frame.
    Enqueue,
    /// Attach the replacement's lineage, then push it.
    EnqueueReplacement,
}

/// The decision before any transform: the mandatory exact type gate, then
/// a named validation policy's verdict (`None` for an edge that only has
/// the type gate). A rejection aborts when the policy says so, else drops.
pub open spec fn edge_gate_holds(
    frame_type: FrameType,
    edge_type: FrameType,
    verdict: Option<EdgeVerdict>,
    abort_on_reject: bool,
    r: Option<EdgeDecision>,
) -> bool {
    if frame_type != edge_type {
        r matches Some(EdgeDecision::Abort(a)) && edge_abort_is(
            a,
            "VOXA-CONCURRENT-EDGE-TYPE"@,
            "frame failed the mandatory exact Edge type gate"@,
            "type_gate"@,
        )
    } else {
        match verdict {
            Some(EdgeVerdict::Reject(reason)) => if abort_on_reject {
                r matches Some(EdgeDecision::Abort(a)) && edge_abort_is(
                    a,
                    "VOXA-CONCURRENT-VALIDATION"@,
                    reason@,
                    "validate"@,
                )
            } else {
                r matches Some(EdgeDecision::Drop(d)) && d@ == reason@
            },
            _ => r is None,
        }
    }
}

/// Checks a frame at the entry of an edge. `None`: the frame passed and
/// goes to the transform policy.
pub fn edge_gate(frame_type: FrameType, edge_type: FrameType, verdict: Option<EdgeVerdict>, abort_on_reject: bool) -> (r:
    Option<EdgeDecision>)
    ensures
        edge_gate_holds(frame_type, edge_type, verdict, abort_on_reject, r),
{
    if frame_type != edge_type {
        return Some(
            EdgeDecision::Abort(
                edge_abort(
                    "VOXA-CONCURRENT-EDGE-TYPE",
                    "frame failed the mandatory exact Edge type gate",
                    "type_gate",
                ),
            ),
        );
    }
    match verdict {
        Some(EdgeVerdict::Reject(reason)) => if abort_on_reject {
            Some(EdgeDecision::Abort(edge_abort("VOXA-CONCURRENT-VALIDATION", reason.as_str(), "validate")))
        } else {
            Some(EdgeDecision::Drop(reason))
        },
        _ => None,
    }
}

/// The decision on a transform policy's action: Forward must return the
/// unchanged frame, Replace needs a fresh frame ID and the edge's exact
/// type, EmitSignal needs a Signal frame.
pub open spec fn edge_action_holds(edge_type: FrameType, action: EdgeActionKind, r: EdgeDecision) -> bool {
    match action {
        EdgeActionKind::Forward { unchanged } => if unchanged {
            r is Enqueue
        } else {
            r matches EdgeDecision::Abort(a) && edge_abort_is(
                a,
                "VOXA-CONCURRENT-FORWARD-MUTATION"@,
                "Forward must return the unchanged frame"@,
                "transform"@,
            )
        },
        EdgeActionKind::Replace { fresh_id, frame_type } => if fresh_id && frame_type == edge_type {
            r is EnqueueReplacement
        } else {
            r matches EdgeDecision::Abort(a) && edge_abort_is(
                a,
                "VOXA-CONCURRENT-REPLACE"@,
                "Replace requires a fresh ID and the exact Edge type"@,
                "transform"@,
            )
        },
        EdgeActionKind::Drop(reason) => r matches EdgeDecision::Drop(d) && d@ == reason@,
        EdgeActionKind::Abort(reason) => r matches EdgeDecision::Abort(a) && edge_abort_is(
            a,
            "VOXA-CONCURRENT-POLICY-ABORT"@,
            reason@,
            "transform"@,
        ),
        EdgeActionKind::EmitSignal { frame_type } => if frame_type == FrameType::Signal {
            r is Signal
        } else {
            r matches EdgeDecision::Abort(a) && edge_abort_is(
                a,
                "VOXA-CONCURRENT-SIGNAL-TYPE"@,
                "EmitSignal requires a Signal frame"@,
                "transform"@,
            )
        },
    }
}

/// Decides what routing does with a transform policy's action on an edge
/// of type `edge_type`.
pub fn edge_action(edge_type: FrameType, action: EdgeActionKind) -> (r: EdgeDecision)
    ensures
        edge_action_holds(edge_type, action, r),
{
    match action {
        EdgeActionKind::Forward { unchanged } => if unchanged {
            EdgeDecision::Enqueue
        } else {
            EdgeDecision::Abort(
                edge_abort(
                    "VOXA-CONCURRENT-FORWARD-MUTATION",
                    "Forward must return the unchanged frame",
                    "transform",
                ),
            )
        },
        EdgeActionKind::Replace { fresh_id, frame_type } => if fresh_id && frame_type == edge_type {
            EdgeDecision::EnqueueReplacement
        } else {
            EdgeDecision::Abort(
                edge_abort(
                    "VOXA-CONCURRENT-REPLACE",
                    "Replace requires a fresh ID and the exact Edge type",
                    "transform",
                ),
            )
        },
        EdgeActionKind::Drop(reason) => EdgeDecision::Drop(reason),
        EdgeActionKind::Abort(reason) => EdgeDecision::Abort(
            edge_abort("VOXA-CONCURRENT-POLICY-ABORT", reason.as_str(), "transform"),
        ),
        EdgeActionKind::EmitSignal { frame_type } => if frame_type == FrameType::Signal {
            EdgeDecision::Signal
        } else {
            EdgeDecision::Abort(
                edge_abort("VOXA-CONCURRENT-SIGNAL-TYPE", "EmitSignal requires a Signal frame", "transform"),
            )
        },
    }
}

/// What an edge queue answered to a push.
#[derive(Clone, Copy, Debug, PartialEq, Eq, Structural)]
pub enum PushResult {
    Enqueued,
    EnqueuedAfterDroppingOldest,
    /// The queue's overflow policy dropped the frame.
    Dropped,
    OverflowAbort,
    Closed,
}

/// The abort that a queue push causes, if any: an overflow policy that
/// aborts, or a closed queue; anything the queue accepted or dropped by
/// its own policy routes on.
pub fn push_abort(push: PushResult) -> (r: Option<EdgeAbort>)
    ensures
        push == PushResult::OverflowAbort ==> (r matches Some(a) && edge_abort_is(
            a,
            "VOXA-CONCURRENT-QUEUE-ABORT"@,
            "queue overflow policy aborted"@,
            "queue"@,
        )),
        push == PushResult::Closed ==> (r matches Some(a) && edge_abort_is(
            a,
            "VOXA-CONCURRENT-QUEUE-CLOSED"@,
            "queue closed while routing a frame"@,
            "queue"@,
        )),
        push != PushResult::OverflowAbort && push != PushResult::Closed ==> r is None,
{
    match push {
        PushResult::OverflowAbort => Some(
            edge_abort("VOXA-CONCURRENT-QUEUE-ABORT", "queue overflow policy aborted", "queue"),
        ),
        PushResult::Closed => Some(
            edge_abort("VOXA-CONCURRENT-QUEUE-CLOSED", "queue closed while routing a frame", "queue"),
        ),
        _ => None,
    }
}

/// No frame reaches an edge's queue unless its type is the edge's type:
/// the type gate stops every other frame, and what a transform enqueues is
/// the unchanged original or a replacement of the edge's type.
pub proof fn law_only_the_edge_type_is_enqueued(
    frame_type: FrameType,
    edge_type: FrameType,
    verdict: Option<EdgeVerdict>,
    abort_on_reject: bool,
    gate: Option<EdgeDecision>,
    action: EdgeActionKind,
    decision: EdgeDecision,
)
    requires
        edge_gate_holds(frame_type, edge_type, verdict, abort_on_reject, gate),
        edge_action_holds(edge_type, action, decision),
    ensures
        frame_type != edge_type ==> gate matches Some(EdgeDecision::Abort(_)),
        gate is None && decision is Enqueue ==> frame_type == edge_type,
        decision is EnqueueReplacement ==> (action matches EdgeActionKind::Replace { frame_type: t, .. } && t
            == edge_type),
{
}

} // verus!
