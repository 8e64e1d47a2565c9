//! The bounded, first-in first-out signal queue of one edge.
use vstd::prelude::*;

use std::collections::VecDeque;

use crate::concurrent::DrainMode;

verus! {

/// Why a signal was not enqueued.
#[derive(Clone, Copy, Debug, PartialEq, Eq, Structural)]
pub enum SignalQueuePushError {
    Full,
    Closed,
}

/// The counters and fill level of one signal queue.
#[derive(Clone, Copy, Debug, PartialEq, Eq, Structural)]
pub struct SignalQueueSnapshot {
    pub capacity: usize,
    pub queue_len: usize,
    pub enqueue_total: u64,
    pub dequeue_total: u64,
    pub full_total: u64,
}

/// The content of a signal queue.
pub struct SignalQueueView<T> {
    pub items: Seq<T>,
    pub capacity: usize,
    pub closed: bool,
    pub enqueue_total: u64,
    pub dequeue_total: u64,
    pub full_total: u64,
}

/// A counter that stops at `u64::MAX`.
pub open spec fn saturating_inc(n: u64) -> u64 {
    if n == u64::MAX {
        u64::MAX
    } else {
        (n + 1) as u64
    }
}

/// The effect of offering a signal: a closed queue refuses it, a full queue
/// refuses it and counts the refusal, otherwise it joins the back.
pub open spec fn push_spec<T>(v: SignalQueueView<T>, x: T) -> (SignalQueueView<T>, Result<(), SignalQueuePushError>) {
    if v.closed {
        (v, Err(SignalQueuePushError::Closed))
    } else if v.items.len() == v.capacity {
        (SignalQueueView { full_total: saturating_inc(v.full_total), ..v }, Err(SignalQueuePushError::Full))
    } else {
        (SignalQueueView { items: v.items.push(x), enqueue_total: saturating_inc(v.enqueue_total), ..v }, Ok(()))
    }
}

/// The effect of taking a signal: the front one, if any.
pub open spec fn pop_spec<T>(v: SignalQueueView<T>) -> (SignalQueueView<T>, Option<T>) {
    if v.items.len() == 0 {
        (v, None)
    } else {
        (
            SignalQueueView { items: v.items.drop_first(), dequeue_total: saturating_inc(v.dequeue_total), ..v },
            Some(v.items[0]),
        )
    }
}

/// The effect of closing: no further signals; discard drops what is queued.
pub open spec fn close_spec<T>(v: SignalQueueView<T>, mode: DrainMode) -> SignalQueueView<T> {
    SignalQueueView {
        closed: true,
        items: if mode == DrainMode::Discard {
            Seq::empty()
        } else {
            v.items
        },
        ..v
    }
}

/// A bounded signal queue.
pub struct SignalQueue<T> {
    capacity: usize,
    queue: VecDeque<T>,
    closed: bool,
    enqueue_total: u64,
    dequeue_total: u64,
    full_total: u64,
}

impl<T> View for SignalQueue<T> {
    type V = SignalQueueView<T>;

    closed spec fn view(&self) -> SignalQueueView<T> {
        SignalQueueView {
            items: self.queue@,
            capacity: self.capacity,
            closed: self.closed,
            enqueue_total: self.enqueue_total,
            dequeue_total: self.dequeue_total,
            full_total: self.full_total,
        }
    }
}

impl<T> SignalQueue<T> {
    /// The queue never holds more than its capacity.
    pub closed spec fn wf(&self) -> bool {
        self.queue@.len() <= self.capacity
    }

    /// An open, empty queue of `capacity` signals.
    pub fn new(capacity: usize) -> (r: Self)
        requires
            capacity > 0,
        ensures
            r.wf(),
            r@ == (SignalQueueView::<T> {
                items: Seq::empty(),
                capacity,
                closed: false,
                enqueue_total: 0,
                dequeue_total: 0,
                full_total: 0,
            }),
    {
        SignalQueue { capacity, queue: VecDeque::new(), closed: false, enqueue_total: 0, dequeue_total: 0, full_total: 0 }
    }

    /// Offers a signal without waiting.
    pub fn try_push(&mut self, signal: T) -> (r: Result<(), SignalQueuePushError>)
        requires
            old(self).wf(),
        ensures
            final(self).wf(),
            (final(self)@, r) == push_spec(old(self)@, signal),
    {
        if self.closed {
            return Err(SignalQueuePushError::Closed);
        }
        if self.queue.len() == self.capacity {
            self.full_total = self.full_total.saturating_add(1);
            return Err(SignalQueuePushError::Full);
        }
        self.queue.push_back(signal);
        self.enqueue_total = self.enqueue_total.saturating_add(1);
        Ok(())
    }

    /// Takes the oldest signal, if any.
    pub fn try_pop(&mut self) -> (r: Option<T>)
        requires
            old(self).wf(),
        ensures
            final(self).wf(),
            (final(self)@, r) == pop_spec(old(self)@),
    {
        let signal = self.queue.pop_front();
        if signal.is_some() {
            self.dequeue_total = self.dequeue_total.saturating_add(1);
        }
        signal
    }

    /// Closes the queue; `Discard` drops the queued signals.
    pub fn close(&mut self, mode: DrainMode)
        requires
            old(self).wf(),
        ensures
            final(self).wf(),
            final(self)@ == close_spec(old(self)@, mode),
    {
        self.closed = true;
        if mode == DrainMode::Discard {
            self.queue.clear();
        }
    }

    /// Whether the queue is closed and drained.
    pub fn is_closed_and_empty(&self) -> (r: bool)
        ensures
            r == (self@.closed && self@.items.len() == 0),
    {
        self.closed && self.queue.len() == 0
    }

    /// The counters and fill level.
    pub fn snapshot(&self) -> (r: SignalQueueSnapshot)
        ensures
            r == (SignalQueueSnapshot {
                capacity: self@.capacity,
                queue_len: self@.items.len() as usize,
                enqueue_total: self@.enqueue_total,
                dequeue_total: self@.dequeue_total,
                full_total: self@.full_total,
            }),
    {
        SignalQueueSnapshot {
            capacity: self.capacity,
            queue_len: self.queue.len(),
            enqueue_total: self.enqueue_total,
            dequeue_total: self.dequeue_total,
            full_total: self.full_total,
        }
    }
}

/// First in, first out: signals offered to an open queue with room come
/// back in the order they were offered.
pub proof fn law_signals_leave_in_arrival_order<T>(v: SignalQueueView<T>, a: T, b: T)
    requires
        !v.closed,
        v.items.len() == 0,
        v.capacity >= 2,
    ensures
        ({
            let after_a = push_spec(v, a).0;
            let after_b = push_spec(after_a, b).0;
            &&& pop_spec(after_b).1 == Some(a)
            &&& pop_spec(pop_spec(after_b).0).1 == Some(b)
        }),
{
    let after_a = push_spec(v, a).0;
    let after_b = push_spec(after_a, b).0;
    assert(after_b.items =~= seq![a, b]);
    assert(pop_spec(after_b).0.items =~= seq![b]);
}

/// A refused signal leaves the queued signals untouched: a closed queue
/// changes nothing, a full one only counts the refusal.
pub proof fn law_refused_push_keeps_queue<T>(v: SignalQueueView<T>, x: T)
    requires
        v.closed || v.items.len() == v.capacity,
    ensures
        push_spec(v, x).0.items == v.items,
        push_spec(v, x).0.enqueue_total == v.enqueue_total,
        push_spec(v, x).1 is Err,
        v.closed ==> push_spec(v, x).0 == v,
{
}

/// An accepted signal joins the back, after every signal already queued.
pub proof fn law_accepted_push_appends<T>(v: SignalQueueView<T>, x: T)
    requires
        !v.closed,
        v.items.len() < v.capacity,
    ensures
        push_spec(v, x).1 is Ok,
        push_spec(v, x).0.items == v.items.push(x),
{
}

/// A closed queue accepts nothing more, whatever is offered.
pub proof fn law_closed_queue_refuses<T>(v: SignalQueueView<T>, mode: DrainMode, x: T)
    ensures
        push_spec(close_spec(v, mode), x) == (close_spec(v, mode), Err::<(), SignalQueuePushError>(SignalQueuePushError::Closed)),
{
}

} // verus!
