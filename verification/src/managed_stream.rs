//! Identities, bounded errors, options and counters of managed service
//! streams.
use vstd::prelude::*;

use crate::registry::str_equal;

verus! {

/// Identifies one request within a managed service session.
#[derive(Clone, Copy, Debug, PartialEq, Eq, Hash, PartialOrd, Ord, Structural)]
pub struct RequestId(u64);

impl RequestId {
    /// Wraps a request number.
    pub fn new(value: u64) -> (r: Self)
        ensures
            r.spec_get() == value,
    {
        RequestId(value)
    }

    /// The request number.
    pub closed spec fn spec_get(self) -> u64 {
        self.0
    }

    /// The request number.
    pub fn get(self) -> (r: u64)
        ensures
            r == self.spec_get(),
    {
        self.0
    }
}

/// The largest character boundary of `bytes` at or below `end`.
pub open spec fn boundary_at_or_below(bytes: Seq<u8>, end: int) -> int
    decreases end,
{
    if end <= 0 {
        0
    } else if vstd::utf8::is_char_boundary(bytes, end) {
        end
    } else {
        boundary_at_or_below(bytes, end - 1)
    }
}

/// The UTF-8 bytes that a text bounded to `max_bytes` keeps: all of them
/// when they fit, else those before the last character boundary that fits.
pub open spec fn bounded_bytes(bytes: Seq<u8>, max_bytes: int) -> Seq<u8> {
    if bytes.len() <= max_bytes {
        bytes
    } else {
        bytes.subrange(0, boundary_at_or_below(bytes, max_bytes))
    }
}

/// Cuts a text to at most `max_bytes` UTF-8 bytes without splitting a
/// character.
pub fn bounded_text(value: &str, max_bytes: usize) -> (r: String)
    ensures
        vstd::utf8::encode_utf8(r@) == bounded_bytes(vstd::utf8::encode_utf8(value@), max_bytes as int),
{
    let ghost b = vstd::utf8::encode_utf8(value@);
    proof {
        vstd::utf8::encode_utf8_valid_utf8(value@);
    }
    let len = value.as_bytes().len();
    if len <= max_bytes {
        return value.to_owned();
    }
    let mut end = max_bytes;
    while !value.is_char_boundary(end)
        invariant
            b == vstd::utf8::encode_utf8(value@),
            vstd::utf8::valid_utf8(b),
            0 <= end <= max_bytes < b.len(),
            boundary_at_or_below(b, end as int) == boundary_at_or_below(b, max_bytes as int),
        decreases end,
    {
        end = end - 1;
    }
    let (head, _) = value.split_at(end);
    head.to_owned()
}

/// A bounded service error safe to keep in runtime diagnostics: the code
/// keeps at most 64 bytes, the message at most 512.
#[derive(Clone, Debug, PartialEq, Eq)]
pub struct ServiceError {
    code: String,
    message: String,
}

impl ServiceError {
    /// The code.
    pub closed spec fn spec_code(&self) -> Seq<char> {
        self.code@
    }

    /// The message.
    pub closed spec fn spec_message(&self) -> Seq<char> {
        self.message@
    }

    /// An error with a code and message, each bounded.
    pub fn new(code: &str, message: &str) -> (r: Self)
        ensures
            vstd::utf8::encode_utf8(r.spec_code()) == bounded_bytes(vstd::utf8::encode_utf8(code@), 64),
            vstd::utf8::encode_utf8(r.spec_message()) == bounded_bytes(vstd::utf8::encode_utf8(message@), 512),
    {
        ServiceError { code: bounded_text(code, 64), message: bounded_text(message, 512) }
    }

    /// The error of a request whose deadline elapsed.
    pub fn timeout() -> (r: Self)
        ensures
            r.spec_code() == "managed_stream_timeout"@,
            r.spec_message() == "managed stream request deadline elapsed"@,
    {
        proof {
            reveal_strlit("managed_stream_timeout");
            reveal_strlit("managed stream request deadline elapsed");
            assert(vstd::utf8::is_ascii_chars("managed_stream_timeout"@));
            assert(vstd::utf8::is_ascii_chars("managed stream request deadline elapsed"@));
            vstd::utf8::is_ascii_chars_encode_utf8("managed_stream_timeout"@);
            vstd::utf8::is_ascii_chars_encode_utf8("managed stream request deadline elapsed"@);
        }
        Self::fixed("managed_stream_timeout", "managed stream request deadline elapsed")
    }

    /// The error of a request whose isolated worker could not start.
    pub fn worker_start() -> (r: Self)
        ensures
            r.spec_code() == "managed_stream_worker_start"@,
            r.spec_message() == "managed stream could not start an isolated request worker"@,
    {
        proof {
            reveal_strlit("managed_stream_worker_start");
            reveal_strlit("managed stream could not start an isolated request worker");
            assert(vstd::utf8::is_ascii_chars("managed_stream_worker_start"@));
            assert(vstd::utf8::is_ascii_chars("managed stream could not start an isolated request worker"@));
            vstd::utf8::is_ascii_chars_encode_utf8("managed_stream_worker_start"@);
            vstd::utf8::is_ascii_chars_encode_utf8("managed stream could not start an isolated request worker"@);
        }
        Self::fixed("managed_stream_worker_start", "managed stream could not start an isolated request worker")
    }

    /// The error of a request whose adapter panicked.
    pub fn adapter_panic() -> (r: Self)
        ensures
            r.spec_code() == "managed_stream_adapter_panic"@,
            r.spec_message() == "managed stream adapter panicked while handling a request"@,
    {
        proof {
            reveal_strlit("managed_stream_adapter_panic");
            reveal_strlit("managed stream adapter panicked while handling a request");
            assert(vstd::utf8::is_ascii_chars("managed_stream_adapter_panic"@));
            assert(vstd::utf8::is_ascii_chars("managed stream adapter panicked while handling a request"@));
            vstd::utf8::is_ascii_chars_encode_utf8("managed_stream_adapter_panic"@);
            vstd::utf8::is_ascii_chars_encode_utf8("managed stream adapter panicked while handling a request"@);
        }
        Self::fixed("managed_stream_adapter_panic", "managed stream adapter panicked while handling a request")
    }

    fn fixed(code: &str, message: &str) -> (r: Self)
        ensures
            vstd::utf8::encode_utf8(code@).len() <= 64 ==> r.spec_code() == code@,
            vstd::utf8::encode_utf8(message@).len() <= 512 ==> r.spec_message() == message@,
    {
        let r = Self::new(code, message);
        proof {
            if vstd::utf8::encode_utf8(code@).len() <= 64 {
                crate::string_set::lemma_utf8_injective(r.spec_code(), code@);
            }
            if vstd::utf8::encode_utf8(message@).len() <= 512 {
                crate::string_set::lemma_utf8_injective(r.spec_message(), message@);
            }
        }
        r
    }

    /// The code.
    pub fn code(&self) -> (r: &str)
        ensures
            r@ == self.spec_code(),
    {
        self.code.as_str()
    }

    /// The message.
    pub fn message(&self) -> (r: &str)
        ensures
            r@ == self.spec_message(),
    {
        self.message.as_str()
    }

    /// `<code>: <message>`.
    pub fn to_display_string(&self) -> (r: String)
        ensures
            r@ == self.spec_code() + ": "@ + self.spec_message(),
    {
        let mut text = self.code.clone();
        text.append(": ");
        text.append(self.message.as_str());
        text
    }
}

/// The immediate outcome of a non-blocking submission.
#[derive(Clone, Copy, Debug, PartialEq, Eq, Structural)]
pub enum SubmitOutcome {
    Accepted,
    MailboxFull,
    Stopping,
    Cancelled,
}

/// The order in which results are released.
#[derive(Clone, Copy, Debug, PartialEq, Eq, Structural)]
pub enum DeliveryOrdering {
    /// In submission order.
    Strict,
    /// As they complete.
    Relaxed,
}

/// Bounded resources of one service session. Capacities are at least one;
/// the reconnect delay is in nanoseconds.
#[derive(Clone, Debug, PartialEq, Eq)]
pub struct ManagedStreamOptions {
    pub input_capacity: usize,
    pub result_capacity: usize,
    pub max_in_flight: usize,
    pub ordering: DeliveryOrdering,
    pub reconnect_delay_ns: u64,
    pub thread_name: String,
}

impl ManagedStreamOptions {
    /// Eight inputs and results, one request in flight, strict order, no
    /// reconnect delay, and the executor thread `voxa-managed-stream`.
    pub fn default_options() -> (r: Self)
        ensures
            r.input_capacity == 8,
            r.result_capacity == 8,
            r.max_in_flight == 1,
            r.ordering == DeliveryOrdering::Strict,
            r.reconnect_delay_ns == 0,
            r.thread_name@ == "voxa-managed-stream"@,
    {
        ManagedStreamOptions {
            input_capacity: 8,
            result_capacity: 8,
            max_in_flight: 1,
            ordering: DeliveryOrdering::Strict,
            reconnect_delay_ns: 0,
            thread_name: "voxa-managed-stream".to_owned(),
        }
    }
}

/// The executor of a managed stream could not start.
#[derive(Clone, Debug, PartialEq, Eq)]
pub struct ManagedStreamBuildError {
    source: String,
}

impl ManagedStreamBuildError {
    /// The failure, with the operating system's message.
    pub fn new(source: String) -> (r: Self)
        ensures
            r.spec_source() == source@,
    {
        ManagedStreamBuildError { source }
    }

    /// The operating system's message.
    pub closed spec fn spec_source(&self) -> Seq<char> {
        self.source@
    }

    /// `failed to start managed stream executor: <source>`.
    pub fn to_display_string(&self) -> (r: String)
        ensures
            r@ == "failed to start managed stream executor: "@ + self.spec_source(),
    {
        let mut text = "failed to start managed stream executor: ".to_owned();
        text.append(self.source.as_str());
        text
    }
}

/// The lifecycle of a managed session executor.
#[derive(Clone, Copy, Debug, PartialEq, Eq, Structural)]
pub enum ManagedStreamState {
    Running,
    Stopping,
    Stopped,
}

/// Counters for capacity, isolation and lifecycle diagnostics.
#[derive(Clone, Copy, Debug, PartialEq, Eq, Structural)]
pub struct ManagedStreamMetricsSnapshot {
    pub state: ManagedStreamState,
    pub submitted: u64,
    pub accepted: u64,
    pub mailbox_full: u64,
    pub started: u64,
    pub attempts: u64,
    pub retries: u64,
    pub reconnects: u64,
    pub completed: u64,
    pub succeeded: u64,
    pub retry_exhausted: u64,
    pub failed: u64,
    pub timed_out: u64,
    pub cancelled: u64,
    pub late_results_discarded: u64,
    pub result_backpressure: u64,
    pub results_delivered: u64,
    pub queued_inputs: usize,
    pub active_requests: usize,
    pub ordered_pending: usize,
    pub queued_results: usize,
    pub peak_active_requests: usize,
}

/// A bounded stop observation: `executor_finished` false means only that
/// the diagnostic timeout elapsed.
#[derive(Clone, Copy, Debug, PartialEq, Eq, Structural)]
pub struct ManagedStreamStopReport {
    pub executor_finished: bool,
    pub metrics: ManagedStreamMetricsSnapshot,
}

/// The result of one service exchange.
#[derive(Debug)]
pub enum AdapterResponse<T> {
    Frames(Vec<T>),
    Retryable(ServiceError),
    Failed(ServiceError),
}

/// A terminal service result. `Retryable` means that the attempt limit was
/// reached while the adapter still reported a reconnectable failure.
#[derive(Debug)]
pub enum StreamResult<T> {
    Frames(Vec<T>),
    Retryable(ServiceError),
    Failed(ServiceError),
}

/// What a request worker observes at one point of its attempt loop.
#[derive(Debug)]
pub enum RequestEvent<T> {
    /// An attempt is about to be sent; for a reconnection, after the delay.
    Ready,
    /// The adapter answered the attempt.
    Replied(AdapterResponse<T>),
}

/// What a request worker does next.
#[derive(Debug)]
pub enum RequestAction<T> {
    /// Connect, reconnecting from the second attempt on, and send.
    Send,
    /// Count a retry and go on with the next attempt.
    Retry,
    /// Stop with this terminal result; `None` when the request was cancelled.
    Finish(Option<StreamResult<T>>),
}

/// `e` is the error of a request whose deadline elapsed.
pub open spec fn is_timeout_error(e: ServiceError) -> bool {
    &&& e.spec_code() == "managed_stream_timeout"@
    &&& e.spec_message() == "managed stream request deadline elapsed"@
}

/// The step of a request worker at attempt `attempt` of `attempt_limit`:
/// cancellation wins, then an elapsed deadline; an attempt that is ready is
/// sent; frames and failures end the request; a reconnectable failure is
/// retried while attempts remain and is returned as `Retryable` at the limit.
pub open spec fn request_step_holds<T>(
    attempt: int,
    attempt_limit: int,
    cancelled: bool,
    expired: bool,
    event: RequestEvent<T>,
    r: RequestAction<T>,
) -> bool {
    if cancelled {
        r matches RequestAction::Finish(None)
    } else if expired {
        r matches RequestAction::Finish(Some(StreamResult::Failed(e))) && is_timeout_error(e)
    } else {
        match event {
            RequestEvent::Ready => r is Send,
            RequestEvent::Replied(AdapterResponse::Frames(f)) => r == RequestAction::Finish(
                Some(StreamResult::Frames(f)),
            ),
            RequestEvent::Replied(AdapterResponse::Failed(e)) => r == RequestAction::<T>::Finish(
                Some(StreamResult::Failed(e)),
            ),
            RequestEvent::Replied(AdapterResponse::Retryable(e)) => if attempt < attempt_limit {
                r is Retry
            } else {
                r == RequestAction::<T>::Finish(Some(StreamResult::Retryable(e)))
            },
        }
    }
}

/// Decides what a request worker does at one point of attempt `attempt`
/// (counted from one) of `attempt_limit`, given whether the request was
/// cancelled and whether its deadline has passed.
pub fn request_step<T>(
    attempt: u64,
    attempt_limit: u64,
    cancelled: bool,
    expired: bool,
    event: RequestEvent<T>,
) -> (r: RequestAction<T>)
    requires
        1 <= attempt <= attempt_limit,
    ensures
        request_step_holds(attempt as int, attempt_limit as int, cancelled, expired, event, r),
{
    if cancelled {
        return RequestAction::Finish(None);
    }
    if expired {
        return RequestAction::Finish(Some(StreamResult::Failed(ServiceError::timeout())));
    }
    match event {
        RequestEvent::Ready => RequestAction::Send,
        RequestEvent::Replied(AdapterResponse::Frames(f)) => RequestAction::Finish(Some(StreamResult::Frames(f))),
        RequestEvent::Replied(AdapterResponse::Failed(e)) => RequestAction::Finish(Some(StreamResult::Failed(e))),
        RequestEvent::Replied(AdapterResponse::Retryable(e)) => if attempt < attempt_limit {
            RequestAction::Retry
        } else {
            RequestAction::Finish(Some(StreamResult::Retryable(e)))
        },
    }
}

/// A request ends as `Retryable` exactly when the adapter reported a
/// reconnectable failure on the last allowed attempt of a request that was
/// neither cancelled nor past its deadline; a retry is only ever decided
/// while attempts remain, so no request is sent more than `attempt_limit`
/// times.
pub proof fn law_retryable_only_at_the_limit<T>(
    attempt: int,
    attempt_limit: int,
    cancelled: bool,
    expired: bool,
    event: RequestEvent<T>,
    r: RequestAction<T>,
)
    requires
        1 <= attempt <= attempt_limit,
        request_step_holds(attempt, attempt_limit, cancelled, expired, event, r),
    ensures
        (r matches RequestAction::Finish(Some(StreamResult::Retryable(_)))) <==> (!cancelled && !expired
            && attempt == attempt_limit && event matches RequestEvent::Replied(AdapterResponse::Retryable(_))),
        r is Retry ==> attempt < attempt_limit,
{
}

/// The counter that a finished request moves.
#[derive(Clone, Copy, Debug, PartialEq, Eq, Structural)]
pub enum CompletionCount {
    Succeeded,
    RetryExhausted,
    TimedOut,
    Failed,
    /// The request had already been settled elsewhere; its result is dropped.
    LateDiscarded,
}

/// The counter for a request that settled (`won`) with `result`.
pub open spec fn completion_count_spec<T>(won: bool, result: Option<StreamResult<T>>) -> CompletionCount {
    if !won {
        CompletionCount::LateDiscarded
    } else {
        match result {
            Some(StreamResult::Frames(_)) => CompletionCount::Succeeded,
            Some(StreamResult::Retryable(_)) => CompletionCount::RetryExhausted,
            Some(StreamResult::Failed(e)) => if e.spec_code() == "managed_stream_timeout"@ {
                CompletionCount::TimedOut
            } else {
                CompletionCount::Failed
            },
            None => CompletionCount::Failed,
        }
    }
}

/// Settles a finished request: the worker that wins the request's terminal
/// state hands on its result and counts it; a late worker hands on nothing.
pub fn settle_request<T>(won: bool, result: Option<StreamResult<T>>) -> (r: (Option<StreamResult<T>>, CompletionCount))
    ensures
        r.1 == completion_count_spec(won, result),
        won ==> r.0 == result,
        !won ==> r.0 is None,
{
    let count = if !won {
        CompletionCount::LateDiscarded
    } else {
        match &result {
            Some(StreamResult::Frames(_)) => CompletionCount::Succeeded,
            Some(StreamResult::Retryable(_)) => CompletionCount::RetryExhausted,
            Some(StreamResult::Failed(e)) => if str_equal(e.code(), "managed_stream_timeout") {
                CompletionCount::TimedOut
            } else {
                CompletionCount::Failed
            },
            None => CompletionCount::Failed,
        }
    };
    if won {
        (result, count)
    } else {
        (None, count)
    }
}

/// The results present among `entries`, in order.
pub open spec fn present_results<T>(entries: Seq<(u64, Option<T>)>) -> Seq<T>
    decreases entries.len(),
{
    if entries.len() == 0 {
        Seq::empty()
    } else {
        let rest = present_results(entries.drop_last());
        match entries.last().1 {
            Some(v) => rest.push(v),
            None => rest,
        }
    }
}

/// How many resolutions strict delivery releases from the front of
/// `pending`, starting at sequence `next` with `free` result slots: each
/// must carry the next sequence, and one with a result needs a free slot.
pub open spec fn release_count<T>(pending: Seq<(u64, Option<T>)>, next: int, free: int) -> nat
    decreases pending.len(),
{
    if pending.len() > 0 && pending[0].0 == next && !(pending[0].1 is Some && free <= 0) {
        1 + release_count(
            pending.drop_first(),
            next + 1,
            if pending[0].1 is Some {
                free - 1
            } else {
                free
            },
        )
    } else {
        0
    }
}

/// Resolutions waiting for strict delivery: ascending, unique sequences,
/// none below the next sequence to deliver.
pub open spec fn ordered_from<T>(pending: Seq<(u64, Option<T>)>, next: int) -> bool {
    &&& forall|i: int, j: int| 0 <= i < j < pending.len() ==> pending[i].0 < pending[j].0
    &&& forall|i: int| 0 <= i < pending.len() ==> pending[i].0 >= next
}

/// Releases, in submission order, the resolutions that strict delivery can
/// hand on: from sequence `next_delivery` on, while the next sequence has
/// resolved and, where it carries a result, a result slot is free. A
/// resolution without a result (a cancelled request) only advances the
/// sequence. Returns the released results, the next sequence to deliver,
/// and whether delivery stopped for want of a result slot.
pub fn release_in_order<T>(pending: &mut Vec<(u64, Option<T>)>, next_delivery: u64, free_slots: usize) -> (r: (
    Vec<T>,
    u64,
    bool,
))
    requires
        ordered_from(old(pending)@, next_delivery as int),
        next_delivery + old(pending)@.len() <= u64::MAX,
    ensures
        ({
            let k = release_count(old(pending)@, next_delivery as int, free_slots as int);
            &&& k <= old(pending)@.len()
            &&& final(pending)@ == old(pending)@.skip(k as int)
            &&& r.0@ == present_results(old(pending)@.take(k as int))
            &&& r.1 == next_delivery + k
            &&& r.2 == (k < old(pending)@.len() && old(pending)@[k as int].0 == next_delivery + k)
        }),
{
    let ghost orig = pending@;
    let ghost mut k: int = 0;
    let mut released: Vec<T> = Vec::new();
    let mut next = next_delivery;
    let mut free = free_slots;
    let mut backpressure = false;
    while pending.len() > 0 && pending[0].0 == next
        invariant_except_break
            !backpressure,
        invariant
            0 <= k <= orig.len(),
            pending@ == orig.skip(k),
            next == next_delivery + k,
            next_delivery + orig.len() <= u64::MAX,
            released@ == present_results(orig.take(k)),
            release_count(orig, next_delivery as int, free_slots as int) == k + release_count(
                pending@,
                next as int,
                free as int,
            ),
        ensures
            backpressure ==> (pending@.len() > 0 && pending@[0].0 == next && pending@[0].1 is Some && free == 0),
            !backpressure ==> !(pending@.len() > 0 && pending@[0].0 == next),
        decreases pending.len(),
    {
        if pending[0].1.is_some() && free == 0 {
            backpressure = true;
            break;
        }
        let ghost before = pending@;
        let (_, item) = pending.remove(0);
        proof {
            assert(pending@ =~= before.drop_first());
            assert(orig.skip(k + 1) =~= orig.skip(k).drop_first());
            assert(orig.take(k + 1).drop_last() =~= orig.take(k));
            assert(orig.take(k + 1).last() == before[0]);
        }
        match item {
            Some(v) => {
                released.push(v);
                free = free - 1;
            },
            None => {},
        }
        next = next + 1;
        proof {
            k = k + 1;
        }
    }
    (released, next, backpressure)
}

/// Strict delivery hands results on in submission order: the resolutions it
/// releases carry the consecutive sequences from `next` on, and it releases
/// no more results than there were free slots.
pub proof fn law_release_follows_submission_order<T>(pending: Seq<(u64, Option<T>)>, next: int, free: int)
    requires
        free >= 0,
    ensures
        release_count(pending, next, free) <= pending.len(),
        forall|i: int| 0 <= i < release_count(pending, next, free) ==> #[trigger] pending[i].0 == next + i,
        present_results(pending.take(release_count(pending, next, free) as int)).len() <= free,
    decreases pending.len(),
{
    let k = release_count(pending, next, free);
    if k > 0 {
        let f2 = if pending[0].1 is Some {
            free - 1
        } else {
            free
        };
        law_release_follows_submission_order(pending.drop_first(), next + 1, f2);
        assert forall|i: int| 0 <= i < k implies #[trigger] pending[i].0 == next + i by {
            if i > 0 {
                assert(pending.drop_first()[i - 1] == pending[i]);
            }
        }
        lemma_present_results_cons(pending[0], pending.drop_first().take(k - 1));
        assert(pending.take(k as int) =~= seq![pending[0]] + pending.drop_first().take(k - 1));
    } else {
        assert(pending.take(0) =~= Seq::<(u64, Option<T>)>::empty());
    }
}

/// The results of an entry followed by others.
pub proof fn lemma_present_results_cons<T>(first: (u64, Option<T>), rest: Seq<(u64, Option<T>)>)
    ensures
        present_results(seq![first] + rest).len() == present_results(rest).len() + if first.1 is Some {
            1int
        } else {
            0int
        },
    decreases rest.len(),
{
    if rest.len() == 0 {
        assert(seq![first] + rest =~= seq![first]);
        assert(seq![first].drop_last() =~= Seq::<(u64, Option<T>)>::empty());
        assert(present_results(Seq::<(u64, Option<T>)>::empty()).len() == 0);
        assert(seq![first].last() == first);
    } else {
        lemma_present_results_cons(first, rest.drop_last());
        let whole = seq![first] + rest;
        assert(whole.drop_last() =~= seq![first] + rest.drop_last());
        assert(whole.last() == rest.last());
        assert(whole.len() > 0);
        assert(present_results(rest) == match rest.last().1 {
            Some(v) => present_results(rest.drop_last()).push(v),
            None => present_results(rest.drop_last()),
        });
        assert(present_results(whole) == match whole.last().1 {
            Some(v) => present_results(whole.drop_last()).push(v),
            None => present_results(whole.drop_last()),
        });
    }
}

/// Whether the executor may start another input: requests still active
/// plus resolutions buffered for requests no longer active stay below the
/// session's in-flight limit.
pub fn may_admit(active: usize, buffered_not_active: usize, max_in_flight: usize) -> (r: bool)
    ensures
        r == (active + buffered_not_active < max_in_flight),
{
    active < max_in_flight && buffered_not_active < max_in_flight - active
}

/// The in-flight window is never exceeded: a request started when
/// admission allows it leaves active plus buffered requests within
/// `max_in_flight`.
pub proof fn law_admission_keeps_the_window(active: int, buffered_not_active: int, max_in_flight: int)
    requires
        active + buffered_not_active < max_in_flight,
    ensures
        (active + 1) + buffered_not_active <= max_in_flight,
{
}

/// Strictly increasing sequences in `[lo, hi)` number at most `hi - lo`.
proof fn lemma_sequences_fit<T>(pending: Seq<(u64, Option<T>)>, lo: int, hi: int)
    requires
        lo <= hi,
        forall|i: int, j: int| 0 <= i < j < pending.len() ==> pending[i].0 < pending[j].0,
        forall|i: int| 0 <= i < pending.len() ==> lo <= #[trigger] pending[i].0 < hi,
    ensures
        pending.len() <= hi - lo,
    decreases pending.len(),
{
    if pending.len() > 0 {
        let last = pending.len() - 1;
        let rest = pending.drop_last();
        assert forall|i: int| 0 <= i < rest.len() implies lo <= #[trigger] rest[i].0 < pending[last].0 by {
            assert(rest[i] == pending[i]);
        }
        assert forall|i: int, j: int| 0 <= i < j < rest.len() implies rest[i].0 < rest[j].0 by {
            assert(rest[i] == pending[i] && rest[j] == pending[j]);
        }
        lemma_sequences_fit(rest, lo, pending[last].0 as int);
        assert(lo <= pending[last].0 < hi);
    }
}

/// The resolutions of a strictly ordered session waiting for delivery, and
/// the next sequence to deliver.
#[derive(Debug)]
pub struct StrictDelivery<T> {
    pending: Vec<(u64, Option<T>)>,
    next_delivery: u64,
}

impl<T> StrictDelivery<T> {
    /// The waiting resolutions, by ascending sequence.
    pub closed spec fn spec_pending(&self) -> Seq<(u64, Option<T>)> {
        self.pending@
    }

    /// The next sequence to deliver.
    pub closed spec fn spec_next(&self) -> u64 {
        self.next_delivery
    }

    /// Waiting resolutions are ascending, unique and not yet due behind
    /// the next sequence; sequence numbers stay below `u64::MAX`.
    pub open spec fn wf(&self) -> bool {
        &&& ordered_from(self.spec_pending(), self.spec_next() as int)
        &&& forall|i: int| 0 <= i < self.spec_pending().len() ==> #[trigger] self.spec_pending()[i].0 < u64::MAX
    }

    /// Nothing waiting; sequence zero is delivered first.
    pub fn new() -> (r: Self)
        ensures
            r.wf(),
            r.spec_pending() == Seq::<(u64, Option<T>)>::empty(),
            r.spec_next() == 0,
    {
        StrictDelivery { pending: Vec::new(), next_delivery: 0 }
    }

    /// The next sequence to deliver.
    pub fn next_delivery(&self) -> (r: u64)
        ensures
            r == self.spec_next(),
    {
        self.next_delivery
    }

    /// How many resolutions wait.
    pub fn pending_len(&self) -> (r: usize)
        ensures
            r == self.spec_pending().len(),
    {
        self.pending.len()
    }

    /// Records how request `sequence` resolved (`None`: without a result,
    /// as a cancelled request). A sequence already delivered, or already
    /// resolved, keeps what it had; the answer says whether it was recorded.
    pub fn resolve(&mut self, sequence: u64, result: Option<T>) -> (r: bool)
        requires
            old(self).wf(),
            sequence < u64::MAX,
        ensures
            final(self).wf(),
            final(self).spec_next() == old(self).spec_next(),
            r == (sequence >= old(self).spec_next() && forall|i: int|
                0 <= i < old(self).spec_pending().len() ==> #[trigger] old(self).spec_pending()[i].0 != sequence),
            r ==> exists|i: int|
                0 <= i <= old(self).spec_pending().len() && final(self).spec_pending() == old(
                    self,
                ).spec_pending().insert(i, (sequence, result)),
            !r ==> final(self).spec_pending() == old(self).spec_pending(),
    {
        if sequence < self.next_delivery {
            return false;
        }
        let mut i: usize = 0;
        while i < self.pending.len() && self.pending[i].0 < sequence
            invariant
                0 <= i <= self.pending@.len(),
                self.wf(),
                forall|j: int| 0 <= j < i ==> #[trigger] self.pending@[j].0 < sequence,
            decreases self.pending@.len() - i,
        {
            i = i + 1;
        }
        if i < self.pending.len() && self.pending[i].0 == sequence {
            return false;
        }
        let ghost old_pending = self.pending@;
        proof {
            assert forall|j: int| 0 <= j < old_pending.len() implies #[trigger] old_pending[j].0 != sequence by {
                if j > i {
                    assert(old_pending[i as int].0 < old_pending[j].0);
                }
            }
        }
        self.pending.insert(i, (sequence, result));
        proof {
            let np = self.pending@;
            assert(np == old_pending.insert(i as int, (sequence, result)));
            assert forall|a: int, b: int| 0 <= a < b < np.len() implies np[a].0 < np[b].0 by {
                if b < i {
                } else if b == i {
                    assert(np[a] == old_pending[a]);
                } else if a == i {
                    assert(np[b] == old_pending[b - 1]);
                    if b - 1 > i {
                        assert(old_pending[i as int].0 < old_pending[b - 1].0);
                    }
                } else if a < i {
                    assert(np[a] == old_pending[a] && np[b] == old_pending[b - 1]);
                } else {
                    assert(np[a] == old_pending[a - 1] && np[b] == old_pending[b - 1]);
                }
            }
            assert forall|j: int| 0 <= j < np.len() implies #[trigger] np[j].0 >= self.next_delivery && np[j].0
                < u64::MAX by {
                if j < i {
                    assert(np[j] == old_pending[j]);
                } else if j > i {
                    assert(np[j] == old_pending[j - 1]);
                }
            }
        }
        true
    }

    /// Releases what strict delivery can hand on with `free_slots` result
    /// slots, in submission order (see `release_in_order`); the answer's
    /// flag says whether delivery stopped for want of a slot.
    pub fn release(&mut self, free_slots: usize) -> (r: (Vec<T>, bool))
        requires
            old(self).wf(),
        ensures
            final(self).wf(),
            ({
                let k = release_count(old(self).spec_pending(), old(self).spec_next() as int, free_slots as int);
                &&& final(self).spec_pending() == old(self).spec_pending().skip(k as int)
                &&& final(self).spec_next() == old(self).spec_next() + k
                &&& r.0@ == present_results(old(self).spec_pending().take(k as int))
                &&& r.1 == (k < old(self).spec_pending().len() && old(self).spec_pending()[k as int].0
                    == old(self).spec_next() + k)
            }),
    {
        proof {
            lemma_sequences_fit(self.pending@, self.next_delivery as int, u64::MAX as int);
            law_release_follows_submission_order(self.pending@, self.next_delivery as int, free_slots as int);
        }
        let ghost before = self.pending@;
        let (released, next, backpressure) = release_in_order(&mut self.pending, self.next_delivery, free_slots);
        self.next_delivery = next;
        proof {
            let k = release_count(before, old(self).next_delivery as int, free_slots as int);
            let np = self.pending@;
            assert forall|j: int| 0 <= j < np.len() implies #[trigger] np[j].0 >= next && np[j].0 < u64::MAX by {
                assert(np[j] == before[j + k]);
                if k > 0 {
                    assert(before[k - 1].0 == old(self).next_delivery + (k - 1));
                    assert(before[k - 1].0 < before[j + k].0);
                }
            }
            assert forall|a: int, b: int| 0 <= a < b < np.len() implies np[a].0 < np[b].0 by {
                assert(np[a] == before[a + k] && np[b] == before[b + k]);
            }
        }
        (released, backpressure)
    }
}

/// Moves results of relaxed delivery into the result mailbox: as many as
/// wait, up to the free slots. Returns how many move and whether results
/// are left waiting on a full mailbox (result backpressure).
pub fn relaxed_release(waiting: usize, free_slots: usize) -> (r: (usize, bool))
    ensures
        r.0 == if waiting <= free_slots {
            waiting
        } else {
            free_slots
        },
        r.1 == (waiting > free_slots),
{
    if waiting <= free_slots {
        (waiting, false)
    } else {
        (free_slots, true)
    }
}

/// What the executor does with an input it takes from the mailbox.
#[derive(Clone, Copy, Debug, PartialEq, Eq, Structural)]
pub enum AdmissionAction {
    /// The request was cancelled while queued: resolve it without a result.
    Skip,
    /// Its deadline passed while queued: resolve it as timed out.
    Expire,
    /// Start it on an isolated worker.
    Start,
}

/// Decides the fate of an admitted input: cancellation first, then the
/// deadline.
pub fn admission_action(cancelled: bool, expired: bool) -> (r: AdmissionAction)
    ensures
        cancelled ==> r == AdmissionAction::Skip,
        !cancelled && expired ==> r == AdmissionAction::Expire,
        !cancelled && !expired ==> r == AdmissionAction::Start,
{
    if cancelled {
        AdmissionAction::Skip
    } else if expired {
        AdmissionAction::Expire
    } else {
        AdmissionAction::Start
    }
}

/// The result of a request whose worker thread could not start: the
/// worker-start failure when this settles the request, else nothing.
pub fn worker_start_failure<T>(won: bool) -> (r: Option<StreamResult<T>>)
    ensures
        won ==> (r matches Some(StreamResult::Failed(e)) && e.spec_code() == "managed_stream_worker_start"@
            && e.spec_message() == "managed stream could not start an isolated request worker"@),
        !won ==> r is None,
{
    if won {
        Some(StreamResult::Failed(ServiceError::worker_start()))
    } else {
        None
    }
}

/// The sequences of waiting resolutions.
pub open spec fn pending_keys<T>(pending: Seq<(u64, Option<T>)>) -> Seq<u64> {
    pending.map_values(|e: (u64, Option<T>)| e.0)
}

/// The requests that occupy the in-flight window: those still active and
/// those whose resolution waits for delivery.
pub open spec fn in_flight<T>(active: Seq<u64>, pending: Seq<(u64, Option<T>)>) -> Set<u64> {
    (active + pending_keys(pending)).to_set()
}

/// A request occupies the window when it is active or its resolution waits.
proof fn lemma_in_flight_contains<T>(active: Seq<u64>, pending: Seq<(u64, Option<T>)>, s: u64)
    ensures
        in_flight(active, pending).contains(s) <==> (active.contains(s) || exists|i: int|
            0 <= i < pending.len() && #[trigger] pending[i].0 == s),
        in_flight(active, pending).finite(),
{
    let all = active + pending_keys(pending);
    vstd::seq_lib::seq_to_set_is_finite(all);
    if all.contains(s) {
        let j = choose|j: int| 0 <= j < all.len() && all[j] == s;
        if j >= active.len() {
            assert(pending[j - active.len()].0 == s);
        }
    }
    if active.contains(s) {
        let j = choose|j: int| 0 <= j < active.len() && active[j] == s;
        assert(all[j] == s);
    }
    if exists|i: int| 0 <= i < pending.len() && #[trigger] pending[i].0 == s {
        let i = choose|i: int| 0 <= i < pending.len() && #[trigger] pending[i].0 == s;
        assert(all[active.len() + i] == s);
    }
}

/// A window whose requests all come from another, or are `extra`, holds at
/// most one request more.
proof fn lemma_window_within<T>(
    a1: Seq<u64>,
    p1: Seq<(u64, Option<T>)>,
    a2: Seq<u64>,
    p2: Seq<(u64, Option<T>)>,
    extra: u64,
)
    requires
        forall|s: u64| #[trigger] a2.contains(s) ==> a1.contains(s) || s == extra,
        forall|j: int|
            0 <= j < p2.len() ==> #[trigger] p2[j].0 == extra || exists|i: int|
                0 <= i < p1.len() && #[trigger] p1[i].0 == p2[j].0,
    ensures
        in_flight(a2, p2).len() <= in_flight(a1, p1).len() + if in_flight(a1, p1).contains(extra) {
            0int
        } else {
            1int
        },
{
    let w1 = in_flight(a1, p1);
    let w2 = in_flight(a2, p2);
    lemma_in_flight_contains(a1, p1, extra);
    assert forall|s: u64| w2.contains(s) implies w1.insert(extra).contains(s) by {
        lemma_in_flight_contains(a2, p2, s);
        lemma_in_flight_contains(a1, p1, s);
        if !a2.contains(s) {
            let j = choose|j: int| 0 <= j < p2.len() && #[trigger] p2[j].0 == s;
            assert(p2[j].0 == extra || exists|i: int| 0 <= i < p1.len() && #[trigger] p1[i].0 == p2[j].0);
        }
    }
    vstd::set_lib::lemma_len_subset(w2, w1.insert(extra));
}

/// The sequences of `p.insert(i, e)` are those of `p` and `e`'s.
proof fn lemma_insert_keys<T>(p: Seq<(u64, Option<T>)>, i: int, e: (u64, Option<T>))
    requires
        0 <= i <= p.len(),
    ensures
        forall|j: int|
            0 <= j < p.insert(i, e).len() ==> #[trigger] p.insert(i, e)[j].0 == e.0 || exists|m: int|
                0 <= m < p.len() && #[trigger] p[m].0 == p.insert(i, e)[j].0,
{
    assert forall|j: int| 0 <= j < p.insert(i, e).len() implies #[trigger] p.insert(i, e)[j].0 == e.0 || exists|m: int|
        0 <= m < p.len() && #[trigger] p[m].0 == p.insert(i, e)[j].0 by {
        if j < i {
            assert(p.insert(i, e)[j] == p[j]);
        } else if j > i {
            assert(p.insert(i, e)[j] == p[j - 1]);
        }
    }
}

/// The sequences of `p` are among those of `p`.
proof fn lemma_same_keys<T>(p: Seq<(u64, Option<T>)>, extra: u64)
    ensures
        forall|j: int|
            0 <= j < p.len() ==> #[trigger] p[j].0 == extra || exists|m: int| 0 <= m < p.len() && #[trigger] p[m].0 == p[j].0,
{
    assert forall|j: int| 0 <= j < p.len() implies #[trigger] p[j].0 == extra || exists|m: int|
        0 <= m < p.len() && #[trigger] p[m].0 == p[j].0 by {
        assert(p[j].0 == p[j].0);
    }
}

/// Dropping waiting resolutions from the front never grows the window.
proof fn lemma_window_after_skip<T>(a: Seq<u64>, p: Seq<(u64, Option<T>)>, k: int)
    requires
        0 <= k <= p.len(),
    ensures
        in_flight(a, p.skip(k)).len() <= in_flight(a, p).len(),
{
    let w1 = in_flight(a, p);
    let w2 = in_flight(a, p.skip(k));
    lemma_in_flight_contains(a, p, 0);
    assert forall|s: u64| w2.contains(s) implies w1.contains(s) by {
        lemma_in_flight_contains(a, p.skip(k), s);
        lemma_in_flight_contains(a, p, s);
        if !a.contains(s) {
            let j = choose|j: int| 0 <= j < p.skip(k).len() && #[trigger] p.skip(k)[j].0 == s;
            assert(p[j + k].0 == s);
        }
    }
    vstd::set_lib::lemma_len_subset(w2, w1);
}

/// Whether `v` holds `x`.
fn holds(v: &Vec<u64>, x: u64) -> (r: bool)
    ensures
        r == v@.contains(x),
{
    let mut i: usize = 0;
    while i < v.len()
        invariant
            0 <= i <= v@.len(),
            forall|j: int| 0 <= j < i ==> v@[j] != x,
        decreases v@.len() - i,
    {
        if v[i] == x {
            return true;
        }
        i = i + 1;
    }
    false
}

/// The requests of a strictly ordered session that occupy its in-flight
/// window, and the window's limit. A request occupies the window from the
/// moment it starts, or is resolved without starting, until its resolution
/// is delivered and it is no longer active.
#[derive(Debug)]
pub struct DeliveryWindow<T> {
    active: Vec<u64>,
    delivery: StrictDelivery<T>,
    max_in_flight: usize,
}

impl<T> DeliveryWindow<T> {
    /// The sequences of active requests.
    pub closed spec fn spec_active(&self) -> Seq<u64> {
        self.active@
    }

    /// The resolutions waiting for delivery.
    pub closed spec fn spec_delivery(&self) -> StrictDelivery<T> {
        self.delivery
    }

    /// The window's limit.
    pub closed spec fn spec_max(&self) -> usize {
        self.max_in_flight
    }

    /// The requests in the window.
    pub open spec fn spec_window(&self) -> Set<u64> {
        in_flight(self.spec_active(), self.spec_delivery().spec_pending())
    }

    /// No request is active twice, waiting resolutions are in order, and
    /// the window never holds more than its limit.
    pub open spec fn wf(&self) -> bool {
        &&& self.spec_active().no_duplicates()
        &&& self.spec_delivery().wf()
        &&& self.spec_window().len() <= self.spec_max()
    }

    /// An empty window of `max_in_flight` requests.
    pub fn new(max_in_flight: usize) -> (r: Self)
        ensures
            r.wf(),
            r.spec_active() == Seq::<u64>::empty(),
            r.spec_delivery().spec_pending() == Seq::<(u64, Option<T>)>::empty(),
            r.spec_delivery().spec_next() == 0,
            r.spec_max() == max_in_flight,
    {
        let r = DeliveryWindow { active: Vec::new(), delivery: StrictDelivery::new(), max_in_flight };
        proof {
            assert(r.spec_window() =~= Set::<u64>::empty()) by {
                assert forall|s: u64| !r.spec_window().contains(s) by {
                    lemma_in_flight_contains(r.active@, r.delivery.spec_pending(), s);
                }
            }
        }
        r
    }

    /// How many requests are in the window.
    pub fn window_len(&self) -> (r: usize)
        requires
            self.wf(),
        ensures
            r == self.spec_window().len(),
    {
        let pending = &self.delivery.pending;
        let ghost a = self.active@;
        let ghost p = pending@;
        proof {
            a.unique_seq_to_set();
            assert(a + pending_keys(p.take(0)) =~= a);
        }
        let mut count: usize = self.active.len();
        let mut j: usize = 0;
        while j < pending.len()
            invariant
                0 <= j <= p.len(),
                p == pending@,
                a == self.active@,
                self.wf(),
                p == self.spec_delivery().spec_pending(),
                count == in_flight(a, p.take(j as int)).len(),
            decreases p.len() - j,
        {
            let key = pending[j].0;
            let active_key = holds(&self.active, key);
            proof {
                let before = in_flight(a, p.take(j as int));
                let after = in_flight(a, p.take(j + 1));
                assert forall|s: u64| #[trigger] after.contains(s) <==> before.insert(key).contains(s) by {
                    lemma_in_flight_contains(a, p.take(j + 1), s);
                    lemma_in_flight_contains(a, p.take(j as int), s);
                    if exists|i: int| 0 <= i < j + 1 && #[trigger] p.take(j + 1)[i].0 == s {
                        let i = choose|i: int| 0 <= i < j + 1 && #[trigger] p.take(j + 1)[i].0 == s;
                        if i < j {
                            assert(p.take(j as int)[i].0 == s);
                        }
                    }
                    if exists|i: int| 0 <= i < j && #[trigger] p.take(j as int)[i].0 == s {
                        let i = choose|i: int| 0 <= i < j && #[trigger] p.take(j as int)[i].0 == s;
                        assert(p.take(j + 1)[i].0 == s);
                    }
                    assert(p.take(j + 1)[j as int].0 == key);
                }
                assert(after =~= before.insert(key));
                lemma_in_flight_contains(a, p.take(j as int), key);
                if exists|i: int| 0 <= i < j && #[trigger] p.take(j as int)[i].0 == key {
                    let i = choose|i: int| 0 <= i < j && #[trigger] p.take(j as int)[i].0 == key;
                    assert(p[i].0 < p[j as int].0);
                }
                lemma_in_flight_contains(a, p, key);
                assert(after.subset_of(self.spec_window())) by {
                    assert forall|s: u64| after.contains(s) implies self.spec_window().contains(s) by {
                        lemma_in_flight_contains(a, p.take(j + 1), s);
                        lemma_in_flight_contains(a, p, s);
                        if !a.contains(s) {
                            let i = choose|i: int| 0 <= i < j + 1 && #[trigger] p.take(j + 1)[i].0 == s;
                            assert(p[i].0 == s);
                        }
                    }
                }
                vstd::set_lib::lemma_len_subset(after, self.spec_window());
            }
            if !active_key {
                count = count + 1;
            }
            j = j + 1;
        }
        proof {
            assert(p.take(p.len() as int) =~= p);
        }
        count
    }

    /// Whether another request may enter the window.
    pub fn may_admit(&self) -> (r: bool)
        requires
            self.wf(),
        ensures
            r == (self.spec_window().len() < self.spec_max()),
    {
        self.window_len() < self.max_in_flight
    }

    /// Starts request `sequence`, which must not be in the window yet, when
    /// the window has room.
    pub fn start(&mut self, sequence: u64)
        requires
            old(self).wf(),
            old(self).spec_window().len() < old(self).spec_max(),
            !old(self).spec_window().contains(sequence),
        ensures
            final(self).wf(),
            final(self).spec_active() == old(self).spec_active().push(sequence),
            final(self).spec_delivery() == old(self).spec_delivery(),
            final(self).spec_max() == old(self).spec_max(),
    {
        proof {
            lemma_in_flight_contains(self.active@, self.delivery.spec_pending(), sequence);
            let a1 = self.active@;
            let a2 = a1.push(sequence);
            assert forall|s: u64| #[trigger] a2.contains(s) implies a1.contains(s) || s == sequence by {
                if a2.contains(s) && s != sequence {
                    let j = choose|j: int| 0 <= j < a2.len() && a2[j] == s;
                    assert(a1[j] == s);
                }
            }
            lemma_same_keys(self.delivery.spec_pending(), sequence);
            lemma_window_within(a1, self.delivery.spec_pending(), a2, self.delivery.spec_pending(), sequence);
            assert forall|i: int, j: int| 0 <= i < a2.len() && 0 <= j < a2.len() && i != j implies a2[i] != a2[j] by {
                if i < a1.len() && j < a1.len() {
                } else if i < a1.len() {
                    assert(a1.contains(a2[i]));
                } else {
                    assert(a1.contains(a2[j]));
                }
            }
        }
        self.active.push(sequence);
    }

    /// Records how request `sequence` resolved without being started (it
    /// was cancelled or expired while queued), when the window has room.
    pub fn resolve_queued(&mut self, sequence: u64, result: Option<T>) -> (r: bool)
        requires
            old(self).wf(),
            old(self).spec_window().len() < old(self).spec_max(),
            sequence < u64::MAX,
        ensures
            final(self).wf(),
            final(self).spec_active() == old(self).spec_active(),
            final(self).spec_max() == old(self).spec_max(),
            final(self).spec_delivery().spec_next() == old(self).spec_delivery().spec_next(),
            r == (sequence >= old(self).spec_delivery().spec_next() && forall|i: int|
                0 <= i < old(self).spec_delivery().spec_pending().len() ==> #[trigger] old(
                    self,
                ).spec_delivery().spec_pending()[i].0 != sequence),
            r ==> exists|i: int|
                0 <= i <= old(self).spec_delivery().spec_pending().len() && final(self).spec_delivery().spec_pending()
                    == old(self).spec_delivery().spec_pending().insert(i, (sequence, result)),
            !r ==> final(self).spec_delivery().spec_pending() == old(self).spec_delivery().spec_pending(),
    {
        let ghost p1 = self.delivery.spec_pending();
        let ghost e = (sequence, result);
        let r = self.delivery.resolve(sequence, result);
        proof {
            let a = self.active@;
            let p2 = self.delivery.spec_pending();
            assert forall|s: u64| #[trigger] a.contains(s) implies a.contains(s) || s == sequence by {}
            if r {
                let i = choose|i: int| 0 <= i <= p1.len() && p2 == p1.insert(i, e);
                lemma_insert_keys(p1, i, e);
            } else {
                lemma_same_keys(p1, sequence);
            }
            lemma_window_within(a, p1, a, p2, sequence);
        }
        r
    }

    /// Records how active request `sequence` resolved when its worker
    /// finished: it leaves the active requests, and its resolution waits
    /// unless it was delivered or resolved before.
    pub fn complete(&mut self, sequence: u64, result: Option<T>) -> (r: bool)
        requires
            old(self).wf(),
            old(self).spec_active().contains(sequence),
            sequence < u64::MAX,
        ensures
            final(self).wf(),
            exists|i: int|
                0 <= i < old(self).spec_active().len() && old(self).spec_active()[i] == sequence
                    && final(self).spec_active() == old(self).spec_active().remove(i),
            final(self).spec_max() == old(self).spec_max(),
            final(self).spec_delivery().spec_next() == old(self).spec_delivery().spec_next(),
            r == (sequence >= old(self).spec_delivery().spec_next() && forall|i: int|
                0 <= i < old(self).spec_delivery().spec_pending().len() ==> #[trigger] old(
                    self,
                ).spec_delivery().spec_pending()[i].0 != sequence),
            r ==> exists|i: int|
                0 <= i <= old(self).spec_delivery().spec_pending().len() && final(self).spec_delivery().spec_pending()
                    == old(self).spec_delivery().spec_pending().insert(i, (sequence, result)),
            !r ==> final(self).spec_delivery().spec_pending() == old(self).spec_delivery().spec_pending(),
    {
        let ghost a1 = self.active@;
        let ghost p1 = self.delivery.spec_pending();
        let ghost e = (sequence, result);
        let mut i: usize = 0;
        while i < self.active.len() && self.active[i] != sequence
            invariant
                0 <= i <= self.active@.len(),
                self.active@ == a1,
                a1.contains(sequence),
                forall|j: int| 0 <= j < i ==> a1[j] != sequence,
            decreases a1.len() - i,
        {
            i = i + 1;
        }
        proof {
            if i == a1.len() {
                let j = choose|j: int| 0 <= j < a1.len() && a1[j] == sequence;
                assert(false);
            }
        }
        self.active.remove(i);
        let r = self.delivery.resolve(sequence, result);
        proof {
            let a2 = self.active@;
            let p2 = self.delivery.spec_pending();
            assert(a2 == a1.remove(i as int));
            assert forall|s: u64| #[trigger] a2.contains(s) implies a1.contains(s) || s == sequence by {
                let j = choose|j: int| 0 <= j < a2.len() && a2[j] == s;
                if j < i {
                    assert(a1[j] == s);
                } else {
                    assert(a1[j + 1] == s);
                }
            }
            assert forall|x: int, y: int| 0 <= x < a2.len() && 0 <= y < a2.len() && x != y implies a2[x] != a2[y] by {
                let xx = if x < i { x } else { x + 1 };
                let yy = if y < i { y } else { y + 1 };
                assert(a2[x] == a1[xx] && a2[y] == a1[yy]);
            }
            if r {
                let k = choose|k: int| 0 <= k <= p1.len() && p2 == p1.insert(k, e);
                lemma_insert_keys(p1, k, e);
            } else {
                lemma_same_keys(p1, sequence);
            }
            lemma_in_flight_contains(a1, p1, sequence);
            assert(a1[i as int] == sequence);
            lemma_window_within(a1, p1, a2, p2, sequence);
        }
        r
    }

    /// Records that active request `sequence` timed out: it stays active
    /// until its worker finishes, and its resolution waits unless it was
    /// resolved before.
    pub fn time_out(&mut self, sequence: u64, result: Option<T>) -> (r: bool)
        requires
            old(self).wf(),
            old(self).spec_active().contains(sequence),
            sequence < u64::MAX,
        ensures
            final(self).wf(),
            final(self).spec_active() == old(self).spec_active(),
            final(self).spec_max() == old(self).spec_max(),
            final(self).spec_delivery().spec_next() == old(self).spec_delivery().spec_next(),
            r == (sequence >= old(self).spec_delivery().spec_next() && forall|i: int|
                0 <= i < old(self).spec_delivery().spec_pending().len() ==> #[trigger] old(
                    self,
                ).spec_delivery().spec_pending()[i].0 != sequence),
            r ==> exists|i: int|
                0 <= i <= old(self).spec_delivery().spec_pending().len() && final(self).spec_delivery().spec_pending()
                    == old(self).spec_delivery().spec_pending().insert(i, (sequence, result)),
            !r ==> final(self).spec_delivery().spec_pending() == old(self).spec_delivery().spec_pending(),
    {
        let ghost p1 = self.delivery.spec_pending();
        let ghost e = (sequence, result);
        let r = self.delivery.resolve(sequence, result);
        proof {
            let a = self.active@;
            let p2 = self.delivery.spec_pending();
            assert forall|s: u64| #[trigger] a.contains(s) implies a.contains(s) || s == sequence by {}
            if r {
                let k = choose|k: int| 0 <= k <= p1.len() && p2 == p1.insert(k, e);
                lemma_insert_keys(p1, k, e);
            } else {
                lemma_same_keys(p1, sequence);
            }
            lemma_in_flight_contains(a, p1, sequence);
            lemma_window_within(a, p1, a, p2, sequence);
        }
        r
    }

    /// Releases what strict delivery can hand on with `free_slots` result
    /// slots (see `StrictDelivery::release`).
    pub fn release(&mut self, free_slots: usize) -> (r: (Vec<T>, bool))
        requires
            old(self).wf(),
        ensures
            final(self).wf(),
            final(self).spec_active() == old(self).spec_active(),
            final(self).spec_max() == old(self).spec_max(),
            ({
                let p = old(self).spec_delivery().spec_pending();
                let next = old(self).spec_delivery().spec_next();
                let k = release_count(p, next as int, free_slots as int);
                &&& final(self).spec_delivery().spec_pending() == p.skip(k as int)
                &&& final(self).spec_delivery().spec_next() == next + k
                &&& r.0@ == present_results(p.take(k as int))
                &&& r.1 == (k < p.len() && p[k as int].0 == next + k)
            }),
    {
        let ghost p1 = self.delivery.spec_pending();
        let ghost next = self.delivery.spec_next();
        let r = self.delivery.release(free_slots);
        proof {
            let a = self.active@;
            let k = release_count(p1, next as int, free_slots as int);
            law_release_follows_submission_order(p1, next as int, free_slots as int);
            lemma_window_after_skip(a, p1, k as int);
        }
        r
    }
}

/// The in-flight window of a session never holds more than its limit: it is
/// the requests still active together with those whose resolution waits
/// for delivery, and every operation on it keeps that count within
/// `max_in_flight`.
pub proof fn law_window_stays_within_its_limit<T>(w: DeliveryWindow<T>, s: u64)
    requires
        w.wf(),
    ensures
        w.spec_window().contains(s) <==> (w.spec_active().contains(s) || exists|i: int|
            0 <= i < w.spec_delivery().spec_pending().len() && #[trigger] w.spec_delivery().spec_pending()[i].0 == s),
        w.spec_window().len() <= w.spec_max(),
{
    lemma_in_flight_contains(w.spec_active(), w.spec_delivery().spec_pending(), s);
}

} // verus!
