//! Deterministic test doubles: a manual clock, a signal recorder, a scripted
//! edge policy and a scripted service adapter.
use vstd::prelude::*;

use crate::graph::{
    complete, descriptor_problem, edge_ids, edge_problem, node_ids, port_views, source_of, stable_order,
    target_of, unplaced_in, BuildErrorView, EdgeDescriptor, EdgeView, FrameType, GraphBuildError, GraphBuilder,
    GraphDefinition, NodeDefinitionView, NodeDescriptor, NodeDescriptorView, NodeKind, PortDescriptor,
    PortDirection, PortView,
};
pub use crate::managed_stream::AdapterResponse;
use crate::managed_stream::{RequestId, ServiceError};

verus! {

/// A monotonic clock in nanoseconds, advanced only by its test controller.
#[derive(Debug)]
pub struct ManualClock {
    nanos: u64,
}

/// The sum of two counters, wrapped to 64 bits.
pub open spec fn wrapping_sum(a: u64, b: u64) -> u64 {
    if a + b > u64::MAX {
        (a + b - (u64::MAX + 1)) as u64
    } else {
        (a + b) as u64
    }
}

impl ManualClock {
    /// The current reading.
    pub closed spec fn spec_now(&self) -> u64 {
        self.nanos
    }

    /// A clock reading zero.
    pub fn new() -> (r: Self)
        ensures
            r.spec_now() == 0,
    {
        ManualClock { nanos: 0 }
    }

    /// Advances by `delta` nanoseconds. The stored reading wraps like an
    /// atomic add; the returned reading saturates.
    pub fn advance(&mut self, delta: u64) -> (r: u64)
        ensures
            final(self).spec_now() == wrapping_sum(old(self).spec_now(), delta),
            r == if old(self).spec_now() + delta > u64::MAX {
                u64::MAX
            } else {
                (old(self).spec_now() + delta) as u64
            },
    {
        let previous = self.nanos;
        self.nanos = if delta <= u64::MAX - previous {
            previous + delta
        } else {
            delta - (u64::MAX - previous) - 1
        };
        previous.saturating_add(delta)
    }

    /// Sets the reading.
    pub fn set(&mut self, value: u64)
        ensures
            final(self).spec_now() == value,
    {
        self.nanos = value;
    }

    /// The current reading.
    pub fn now(&self) -> (r: u64)
        ensures
            r == self.spec_now(),
    {
        self.nanos
    }
}

/// Records the signals a test node receives, in order.
#[derive(Debug)]
pub struct SignalProbe<T> {
    signals: Vec<T>,
}

impl<T> SignalProbe<T> {
    /// The recorded signals.
    pub closed spec fn spec_signals(&self) -> Seq<T> {
        self.signals@
    }

    /// An empty probe.
    pub fn new() -> (r: Self)
        ensures
            r.spec_signals() == Seq::<T>::empty(),
    {
        SignalProbe { signals: Vec::new() }
    }

    /// Records one signal after the earlier ones.
    pub fn record(&mut self, signal: T)
        ensures
            final(self).spec_signals() == old(self).spec_signals().push(signal),
    {
        self.signals.push(signal);
    }

    /// The recorded signals, oldest first.
    pub fn snapshot(&self) -> (r: &[T])
        ensures
            r@ == self.spec_signals(),
    {
        self.signals.as_slice()
    }
}

/// One scripted edge decision.
#[derive(Clone, Debug, PartialEq, Eq)]
pub enum TestEdgeDisposition {
    Forward,
    Drop(String),
    Abort(String),
    Reject(String),
}

/// What a policy decides when it validates a frame.
#[derive(Clone, Debug, PartialEq, Eq)]
pub enum ValidationDecision {
    Accept,
    Reject(String),
}

/// What a policy does with a validated frame.
#[derive(Clone, Debug, PartialEq, Eq)]
pub enum EdgeAction {
    Forward,
    Drop(String),
    Abort(String),
}

/// An edge policy that replays a script of decisions and counts its
/// validation calls.
#[derive(Debug)]
pub struct TestEdgePolicy {
    script: Vec<TestEdgeDisposition>,
    calls: usize,
}

/// The validation decision for the head of a script: a scripted rejection
/// is consumed, anything else stays for the transform.
pub open spec fn validate_spec(script: Seq<TestEdgeDisposition>) -> (Seq<TestEdgeDisposition>, ValidationDecision) {
    if script.len() > 0 {
        match script[0] {
            TestEdgeDisposition::Reject(r) => (script.drop_first(), ValidationDecision::Reject(r)),
            _ => (script, ValidationDecision::Accept),
        }
    } else {
        (script, ValidationDecision::Accept)
    }
}

/// The action for the head of a script, which it consumes; an empty script
/// forwards. A scripted rejection reaching the transform drops the frame.
pub open spec fn transform_spec(script: Seq<TestEdgeDisposition>) -> (Seq<TestEdgeDisposition>, EdgeAction) {
    if script.len() == 0 {
        (script, EdgeAction::Forward)
    } else {
        (
            script.drop_first(),
            match script[0] {
                TestEdgeDisposition::Forward => EdgeAction::Forward,
                TestEdgeDisposition::Drop(r) => EdgeAction::Drop(r),
                TestEdgeDisposition::Abort(r) => EdgeAction::Abort(r),
                TestEdgeDisposition::Reject(r) => EdgeAction::Drop(r),
            },
        )
    }
}

impl TestEdgePolicy {
    /// The decisions still scripted.
    pub closed spec fn spec_script(&self) -> Seq<TestEdgeDisposition> {
        self.script@
    }

    /// The number of validation calls so far.
    pub closed spec fn spec_calls(&self) -> usize {
        self.calls
    }

    /// A policy replaying `script`.
    pub fn new(script: Vec<TestEdgeDisposition>) -> (r: Self)
        ensures
            r.spec_script() == script@,
            r.spec_calls() == 0,
    {
        TestEdgePolicy { script, calls: 0 }
    }

    /// The number of validation calls so far.
    pub fn calls(&self) -> (r: usize)
        ensures
            r == self.spec_calls(),
    {
        self.calls
    }

    /// Validates one frame: counts the call and consumes a scripted
    /// rejection.
    pub fn validate(&mut self) -> (r: ValidationDecision)
        requires
            old(self).spec_calls() < usize::MAX,
        ensures
            final(self).spec_calls() == old(self).spec_calls() + 1,
            (final(self).spec_script(), r) == validate_spec(old(self).spec_script()),
    {
        self.calls = self.calls + 1;
        if self.script.len() > 0 {
            let head = self.script.remove(0);
            match head {
                TestEdgeDisposition::Reject(reason) => {
                    return ValidationDecision::Reject(reason);
                },
                other => {
                    self.script.insert(0, other);
                    proof {
                        assert(self.script@ =~= old(self).spec_script());
                    }
                },
            }
        }
        ValidationDecision::Accept
    }

    /// Transforms one frame by the next scripted action.
    pub fn transform(&mut self) -> (r: EdgeAction)
        ensures
            final(self).spec_calls() == old(self).spec_calls(),
            (final(self).spec_script(), r) == transform_spec(old(self).spec_script()),
    {
        if self.script.len() == 0 {
            return EdgeAction::Forward;
        }
        let head = self.script.remove(0);
        match head {
            TestEdgeDisposition::Forward => EdgeAction::Forward,
            TestEdgeDisposition::Drop(r) => EdgeAction::Drop(r),
            TestEdgeDisposition::Abort(r) => EdgeAction::Abort(r),
            TestEdgeDisposition::Reject(r) => EdgeAction::Drop(r),
        }
    }
}

/// One scripted service outcome.
#[derive(Clone, Debug, PartialEq, Eq)]
pub enum ManagedOutcome {
    Echo,
    Retryable(String),
    Failed(String),
}

/// A service adapter that replays scripted outcomes and records each
/// request's number and attempt.
#[derive(Debug)]
pub struct ScriptedManagedStreamAdapter {
    outcomes: Vec<ManagedOutcome>,
    requests: Vec<(u64, usize)>,
}

impl ScriptedManagedStreamAdapter {
    /// The outcomes still scripted.
    pub closed spec fn spec_outcomes(&self) -> Seq<ManagedOutcome> {
        self.outcomes@
    }

    /// The requests seen so far.
    pub closed spec fn spec_requests(&self) -> Seq<(u64, usize)> {
        self.requests@
    }

    /// An adapter replaying `outcomes`.
    pub fn new(outcomes: Vec<ManagedOutcome>) -> (r: Self)
        ensures
            r.spec_outcomes() == outcomes@,
            r.spec_requests() == Seq::<(u64, usize)>::empty(),
    {
        ScriptedManagedStreamAdapter { outcomes, requests: Vec::new() }
    }

    /// The requests seen so far, as request number and attempt.
    pub fn requests(&self) -> (r: &[(u64, usize)])
        ensures
            r@ == self.spec_requests(),
    {
        self.requests.as_slice()
    }

    /// Handles one request: records it, then echoes the input, or fails
    /// with the next scripted outcome.
    pub fn send<T>(&mut self, request_id: RequestId, attempt: usize, input: T) -> (r: AdapterResponse<T>)
        ensures
            final(self).spec_requests() == old(self).spec_requests().push((request_id.spec_get(), attempt)),
            final(self).spec_outcomes() == if old(self).spec_outcomes().len() == 0 {
                old(self).spec_outcomes()
            } else {
                old(self).spec_outcomes().drop_first()
            },
            old(self).spec_outcomes().len() == 0 || old(self).spec_outcomes()[0] == ManagedOutcome::Echo
                ==> (r matches AdapterResponse::Frames(v) && v@ == seq![input]),
            old(self).spec_outcomes().len() > 0 ==> (old(self).spec_outcomes()[0] matches ManagedOutcome::Retryable(m)
                ==> (r matches AdapterResponse::Retryable(e) && e.spec_code() == "test_retry"@
                    && vstd::utf8::encode_utf8(e.spec_message()) == crate::managed_stream::bounded_bytes(
                    vstd::utf8::encode_utf8(m@),
                    512,
                ))),
            old(self).spec_outcomes().len() > 0 ==> (old(self).spec_outcomes()[0] matches ManagedOutcome::Failed(m)
                ==> (r matches AdapterResponse::Failed(e) && e.spec_code() == "test_failed"@
                    && vstd::utf8::encode_utf8(e.spec_message()) == crate::managed_stream::bounded_bytes(
                    vstd::utf8::encode_utf8(m@),
                    512,
                ))),
    {
        self.requests.push((request_id.get(), attempt));
        let outcome = if self.outcomes.len() == 0 {
            ManagedOutcome::Echo
        } else {
            self.outcomes.remove(0)
        };
        match outcome {
            ManagedOutcome::Echo => {
                let mut frames = Vec::new();
                frames.push(input);
                proof {
                    assert(frames@ =~= seq![input]);
                }
                AdapterResponse::Frames(frames)
            },
            ManagedOutcome::Retryable(m) => {
                let e = ServiceError::new("test_retry", m.as_str());
                proof {
                    reveal_strlit("test_retry");
                    assert(vstd::utf8::is_ascii_chars("test_retry"@));
                    vstd::utf8::is_ascii_chars_encode_utf8("test_retry"@);
                    crate::string_set::lemma_utf8_injective(e.spec_code(), "test_retry"@);
                }
                AdapterResponse::Retryable(e)
            },
            ManagedOutcome::Failed(m) => {
                let e = ServiceError::new("test_failed", m.as_str());
                proof {
                    reveal_strlit("test_failed");
                    assert(vstd::utf8::is_ascii_chars("test_failed"@));
                    vstd::utf8::is_ascii_chars_encode_utf8("test_failed"@);
                    crate::string_set::lemma_utf8_injective(e.spec_code(), "test_failed"@);
                }
                AdapterResponse::Failed(e)
            },
        }
    }
}


/// The node type of the text nodes of test graphs.
pub open spec fn test_text_type() -> Seq<char> {
    "test.text"@
}

/// The text ports of a test node: an `in` input unless it is a source, then
/// an `out` output unless it is a sink.
pub open spec fn text_ports(id: Seq<char>, kind: NodeKind) -> Seq<PortView> {
    let input = if kind != NodeKind::Source {
        seq![PortView { node_id: id, name: "in"@, direction: PortDirection::Input, frame_type: FrameType::Text }]
    } else {
        Seq::empty()
    };
    let output = if kind != NodeKind::Sink {
        seq![PortView { node_id: id, name: "out"@, direction: PortDirection::Output, frame_type: FrameType::Text }]
    } else {
        Seq::empty()
    };
    input + output
}

/// The descriptor of a test text node.
pub open spec fn text_descriptor(id: Seq<char>, kind: NodeKind) -> NodeDescriptorView {
    NodeDescriptorView { node_id: id, node_type: test_text_type(), kind, ports: text_ports(id, kind), process: true }
}

/// The text edge `id` from `from.out` to `to.in`.
pub open spec fn text_edge(id: Seq<char>, from: Seq<char>, to: Seq<char>) -> EdgeView {
    EdgeView {
        edge_id: id,
        from_node_id: from,
        from_output_port: "out"@,
        to_node_id: to,
        to_input_port: "in"@,
        frame_type: FrameType::Text,
    }
}

/// A graph builder for tests that wires text nodes by name.
#[derive(Debug)]
pub struct TestGraphBuilder {
    builder: GraphBuilder,
}

impl TestGraphBuilder {
    /// The graph builder underneath.
    pub closed spec fn inner(&self) -> GraphBuilder {
        self.builder
    }

    /// An empty graph named `id`.
    pub fn new(id: &str) -> (r: Self)
        ensures
            r.inner().wf(),
            r.inner()@.graph_id == id@,
            r.inner()@.nodes.len() == 0,
            r.inner()@.edges.len() == 0,
    {
        TestGraphBuilder { builder: GraphBuilder::with_graph_id(id.to_owned()) }
    }

    /// Adds a text node `id` of `kind` (see `text_descriptor`), as the graph
    /// builder adds any node.
    pub fn text_node(&mut self, id: &str, kind: NodeKind) -> (r: Result<(), GraphBuildError>)
        requires
            old(self).inner().wf(),
        ensures
            final(self).inner().wf(),
            match descriptor_problem(text_descriptor(id@, kind)) {
                Some(e) => r matches Err(err) && err@ == e && final(self).inner()@ == old(self).inner()@,
                None => if node_ids(old(self).inner()@.nodes).contains(id@) {
                    r matches Err(err) && err@ == (BuildErrorView::DuplicateNode { node_id: id@ })
                        && final(self).inner()@ == old(self).inner()@
                } else {
                    r is Ok && final(self).inner()@.graph_id == old(self).inner()@.graph_id && final(self).inner()@.edges == old(self).inner()@.edges && exists|pos: int|
                        0 <= pos <= old(self).inner()@.nodes.len() && final(self).inner()@.nodes == old(self).inner()@.nodes.insert(
                            pos,
                            NodeDefinitionView {
                                descriptor: text_descriptor(id@, kind),
                                config: Seq::empty(),
                                factory: None,
                            },
                        )
                },
            },
    {
        let mut ports: Vec<PortDescriptor> = Vec::new();
        if kind != NodeKind::Source {
            ports.push(PortDescriptor::new(id.to_owned(), "in".to_owned(), PortDirection::Input, FrameType::Text));
        }
        if kind != NodeKind::Sink {
            ports.push(PortDescriptor::new(id.to_owned(), "out".to_owned(), PortDirection::Output, FrameType::Text));
        }
        let descriptor = NodeDescriptor::new(id.to_owned(), "test.text".to_owned(), kind, ports, true);
        proof {
            assert(port_views(ports@) =~= text_ports(id@, kind));
            assert(descriptor@ == text_descriptor(id@, kind));
        }
        self.builder.add_node(descriptor)
    }

    /// Connects `from.out` to `to.in` with a text edge `id`, as the graph
    /// builder connects any edge. The queue holds `capacity` frames.
    pub fn connect_text(&mut self, id: &str, from: &str, to: &str, capacity: usize) -> (r: Result<(), GraphBuildError>)
        requires
            old(self).inner().wf(),
            capacity > 0,
        ensures
            final(self).inner().wf(),
            if edge_ids(old(self).inner()@.edges).contains(id@) {
                r matches Err(err) && err@ == (BuildErrorView::DuplicateEdge {
                    edge_id: id@,
                    source: source_of(text_edge(id@, from@, to@)),
                    target: target_of(text_edge(id@, from@, to@)),
                }) && final(self).inner()@ == old(self).inner()@
            } else {
                match edge_problem(old(self).inner()@.nodes, text_edge(id@, from@, to@)) {
                    Some(e) => r matches Err(err) && err@ == e && final(self).inner()@ == old(self).inner()@,
                    None => (r is Ok && final(self).inner()@.graph_id == old(self).inner()@.graph_id && final(self).inner()@.nodes == old(self).inner()@.nodes && exists|pos: int|
                        0 <= pos <= old(self).inner()@.edges.len() && final(self).inner()@.edges == old(self).inner()@.edges.insert(pos, text_edge(id@, from@, to@))),
                }
            },
    {
        let edge = EdgeDescriptor::new(
            id.to_owned(),
            from.to_owned(),
            "out".to_owned(),
            to.to_owned(),
            "in".to_owned(),
            FrameType::Text,
        );
        self.builder.connect(edge)
    }

    /// Builds the graph.
    pub fn build(self) -> (r: Result<GraphDefinition, GraphBuildError>)
        requires
            self.inner().wf(),
        ensures
            match r {
                Ok(g) => g.wf() && g@.graph_id == self.inner()@.graph_id && g@.nodes == self.inner()@.nodes
                    && g@.edges == self.inner()@.edges && stable_order(
                    node_ids(self.inner()@.nodes),
                    self.inner()@.edges,
                    g@.topological_order,
                ) && complete(node_ids(self.inner()@.nodes), g@.topological_order),
                Err(e) => exists|order: Seq<Seq<char>>|
                    stable_order(node_ids(self.inner()@.nodes), self.inner()@.edges, order) && !complete(
                        node_ids(self.inner()@.nodes),
                        order,
                    ) && e@ == (BuildErrorView::Cycle {
                        node_ids: unplaced_in(node_ids(self.inner()@.nodes), order, self.inner()@.nodes.len() as int),
                    }),
            },
    {
        self.builder.build()
    }
}

} // verus!
