//! Identities, counters and reports of the event fan-out bus.
use vstd::prelude::*;

verus! {

/// The opaque identity of one subscriber.
#[derive(Clone, Copy, Debug, PartialEq, Eq, Hash, PartialOrd, Ord, Structural)]
pub struct Subscription(u64);

impl Subscription {
    /// Wraps a subscriber number.
    pub fn new(value: u64) -> (r: Self)
        ensures
            r.spec_get() == value,
    {
        Subscription(value)
    }

    /// The subscriber number.
    pub closed spec fn spec_get(self) -> u64 {
        self.0
    }

    /// The subscriber number.
    pub fn get(self) -> (r: u64)
        ensures
            r == self.spec_get(),
    {
        self.0
    }
}

/// The delivery counters of one subscriber.
#[derive(Clone, Copy, Debug, PartialEq, Eq, Structural)]
pub struct SubscriberSnapshot {
    pub delivered: u64,
    pub dropped_full: u64,
    pub handler_errors: u64,
    pub handler_panics: u64,
}

impl Default for SubscriberSnapshot {
    fn default() -> (r: Self)
        ensures
            r == (SubscriberSnapshot { delivered: 0, dropped_full: 0, handler_errors: 0, handler_panics: 0 }),
    {
        SubscriberSnapshot { delivered: 0, dropped_full: 0, handler_errors: 0, handler_panics: 0 }
    }
}

/// Why the bus refused an operation.
#[derive(Clone, Debug, PartialEq, Eq)]
pub enum EventBusError {
    Stopped,
    Spawn { thread_name: String },
}

/// The message of a bus error.
pub open spec fn event_bus_error_message(e: EventBusError) -> Seq<char> {
    match e {
        EventBusError::Stopped => "event bus is stopped"@,
        EventBusError::Spawn { thread_name } => "failed to start EventBus subscriber `"@ + thread_name@ + "`"@,
    }
}

impl EventBusError {
    /// The human-readable message.
    pub fn to_display_string(&self) -> (r: String)
        ensures
            r@ == event_bus_error_message(*self),
    {
        match self {
            EventBusError::Stopped => "event bus is stopped".to_owned(),
            EventBusError::Spawn { thread_name } => {
                let mut text = "failed to start EventBus subscriber `".to_owned();
                text.append(thread_name.as_str());
                text.append("`");
                text
            },
        }
    }
}

/// What one publication reached.
#[derive(Clone, Copy, Debug, PartialEq, Eq, Structural)]
pub struct PublishReport {
    pub matched: usize,
    pub enqueued: usize,
    pub dropped_full: usize,
}

impl Default for PublishReport {
    fn default() -> (r: Self)
        ensures
            r == (PublishReport { matched: 0, enqueued: 0, dropped_full: 0 }),
    {
        PublishReport { matched: 0, enqueued: 0, dropped_full: 0 }
    }
}

/// What stopping the bus observed.
#[derive(Clone, Debug, PartialEq, Eq)]
pub struct EventBusStopReport {
    pub stopped_first: bool,
    pub worker_total: usize,
    pub unfinished: Vec<Subscription>,
}

impl Default for EventBusStopReport {
    fn default() -> (r: Self)
        ensures
            !r.stopped_first,
            r.worker_total == 0,
            r.unfinished@.len() == 0,
    {
        EventBusStopReport { stopped_first: false, worker_total: 0, unfinished: Vec::new() }
    }
}

/// How a subscriber's handler finished with one event.
#[derive(Clone, Copy, Debug, PartialEq, Eq, Structural)]
pub enum HandlerOutcome {
    Delivered,
    Failed,
    Panicked,
}

/// `x + 1`, held at the largest value.
pub open spec fn bump(x: u64) -> u64 {
    if x == u64::MAX {
        x
    } else {
        (x + 1) as u64
    }
}

impl SubscriberSnapshot {
    /// Counts one handler outcome: a delivery, a handler error or a handler
    /// panic; each count stays at its largest value once there.
    pub fn record_outcome(&mut self, outcome: HandlerOutcome)
        ensures
            outcome == HandlerOutcome::Delivered ==> *final(self) == (SubscriberSnapshot {
                delivered: bump(old(self).delivered),
                ..*old(self)
            }),
            outcome == HandlerOutcome::Failed ==> *final(self) == (SubscriberSnapshot {
                handler_errors: bump(old(self).handler_errors),
                ..*old(self)
            }),
            outcome == HandlerOutcome::Panicked ==> *final(self) == (SubscriberSnapshot {
                handler_panics: bump(old(self).handler_panics),
                ..*old(self)
            }),
    {
        match outcome {
            HandlerOutcome::Delivered => self.delivered = self.delivered.saturating_add(1),
            HandlerOutcome::Failed => self.handler_errors = self.handler_errors.saturating_add(1),
            HandlerOutcome::Panicked => self.handler_panics = self.handler_panics.saturating_add(1),
        }
    }

    /// Counts one event dropped because the subscriber's queue was full.
    pub fn record_dropped(&mut self)
        ensures
            *final(self) == (SubscriberSnapshot { dropped_full: bump(old(self).dropped_full), ..*old(self) }),
    {
        self.dropped_full = self.dropped_full.saturating_add(1);
    }
}

/// What offering an event to one subscriber's queue gave.
#[derive(Clone, Copy, Debug, PartialEq, Eq, Structural)]
pub enum OfferOutcome {
    /// The subscriber is already closing: nothing was offered.
    Closing,
    /// The event was queued.
    Enqueued,
    /// The queue was full and the event dropped.
    Full,
    /// The subscriber's worker is gone.
    Disconnected,
}

impl PublishReport {
    /// Counts one subscriber of the published topic and what offering it
    /// the event gave; returns whether the subscriber's own drop count must
    /// grow (the queue was full).
    pub fn record(&mut self, outcome: OfferOutcome) -> (r: bool)
        requires
            old(self).matched < usize::MAX,
            old(self).enqueued < usize::MAX,
            old(self).dropped_full < usize::MAX,
        ensures
            r == (outcome == OfferOutcome::Full),
            final(self).matched == old(self).matched + 1,
            final(self).enqueued == old(self).enqueued + if outcome == OfferOutcome::Enqueued {
                1int
            } else {
                0int
            },
            final(self).dropped_full == old(self).dropped_full + if outcome == OfferOutcome::Full {
                1int
            } else {
                0int
            },
    {
        self.matched = self.matched + 1;
        match outcome {
            OfferOutcome::Enqueued => {
                self.enqueued = self.enqueued + 1;
                false
            },
            OfferOutcome::Full => {
                self.dropped_full = self.dropped_full + 1;
                true
            },
            _ => false,
        }
    }
}

} // verus!
