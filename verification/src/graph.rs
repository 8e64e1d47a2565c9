//! Static graph construction: typed node and edge descriptors, explicit
//! port validation, and a deterministic topological order.
use vstd::prelude::*;

use crate::registry::{str_equal, NodeFactoryVersion, NodeLanguage};
use crate::string_set::{sorted_strings, StringSet};
use crate::value::ValueMap;

verus! {

/// The kind of frame that a port carries.
#[derive(Clone, Copy, Debug, PartialEq, Eq, Structural)]
pub enum FrameType {
    Audio,
    Video,
    Text,
    Byte,
    Signal,
    Event,
}

/// The debug name of a frame type.
pub open spec fn frame_type_debug(t: FrameType) -> Seq<char> {
    match t {
        FrameType::Audio => "Audio"@,
        FrameType::Video => "Video"@,
        FrameType::Text => "Text"@,
        FrameType::Byte => "Byte"@,
        FrameType::Signal => "Signal"@,
        FrameType::Event => "Event"@,
    }
}

/// Returns the debug name of a frame type.
pub fn frame_type_debug_name(t: FrameType) -> (r: &'static str)
    ensures
        r@ == frame_type_debug(t),
{
    match t {
        FrameType::Audio => "Audio",
        FrameType::Video => "Video",
        FrameType::Text => "Text",
        FrameType::Byte => "Byte",
        FrameType::Signal => "Signal",
        FrameType::Event => "Event",
    }
}

/// The role of a node in the graph.
#[derive(Clone, Copy, Debug, PartialEq, Eq, Structural)]
pub enum NodeKind {
    Source,
    Transform,
    Sink,
}

/// The direction of a port.
#[derive(Clone, Copy, Debug, PartialEq, Eq, Structural)]
pub enum PortDirection {
    Input,
    Output,
}

/// Whether an invalid endpoint is the source or target of an edge.
#[derive(Clone, Copy, Debug, PartialEq, Eq, Structural)]
pub enum EndpointRole {
    /// The `from` endpoint.
    Source,
    /// The `to` endpoint.
    Target,
}

/// The direction other than `d`.
pub open spec fn opposite(d: PortDirection) -> PortDirection {
    match d {
        PortDirection::Input => PortDirection::Output,
        PortDirection::Output => PortDirection::Input,
    }
}

/// The data of a port.
pub struct PortView {
    pub node_id: Seq<char>,
    pub name: Seq<char>,
    pub direction: PortDirection,
    pub frame_type: FrameType,
}

/// A typed port owned by one node.
#[derive(Clone, Debug)]
pub struct PortDescriptor {
    node_id: String,
    name: String,
    direction: PortDirection,
    frame_type: FrameType,
}

impl View for PortDescriptor {
    type V = PortView;

    closed spec fn view(&self) -> PortView {
        PortView { node_id: self.node_id@, name: self.name@, direction: self.direction, frame_type: self.frame_type }
    }
}

impl PortDescriptor {
    /// Creates a port descriptor.
    pub fn new(node_id: String, name: String, direction: PortDirection, frame_type: FrameType) -> (r: Self)
        ensures
            r@ == (PortView { node_id: node_id@, name: name@, direction, frame_type }),
    {
        PortDescriptor { node_id, name, direction, frame_type }
    }

    /// The owning node.
    pub fn node_id(&self) -> (r: &str)
        ensures
            r@ == self@.node_id,
    {
        self.node_id.as_str()
    }

    /// The port name.
    pub fn name(&self) -> (r: &str)
        ensures
            r@ == self@.name,
    {
        self.name.as_str()
    }

    /// The port direction.
    pub fn direction(&self) -> (r: PortDirection)
        ensures
            r == self@.direction,
    {
        self.direction
    }

    /// The exact frame type the port carries.
    pub fn frame_type(&self) -> (r: FrameType)
        ensures
            r == self@.frame_type,
    {
        self.frame_type
    }
}

/// The data of a node descriptor.
pub struct NodeDescriptorView {
    pub node_id: Seq<char>,
    pub node_type: Seq<char>,
    pub kind: NodeKind,
    pub ports: Seq<PortView>,
    pub process: bool,
}

/// A node's registration data: identity, type, role, ports and whether it
/// declares the mandatory process hook.
#[derive(Clone, Debug)]
pub struct NodeDescriptor {
    node_id: String,
    node_type: String,
    kind: NodeKind,
    ports: Vec<PortDescriptor>,
    process: bool,
}

/// The views of a sequence of ports.
pub open spec fn port_views(ports: Seq<PortDescriptor>) -> Seq<PortView> {
    ports.map_values(|p: PortDescriptor| p@)
}

impl View for NodeDescriptor {
    type V = NodeDescriptorView;

    closed spec fn view(&self) -> NodeDescriptorView {
        NodeDescriptorView {
            node_id: self.node_id@,
            node_type: self.node_type@,
            kind: self.kind,
            ports: port_views(self.ports@),
            process: self.process,
        }
    }
}

impl NodeDescriptor {
    /// Creates a node descriptor.
    pub fn new(node_id: String, node_type: String, kind: NodeKind, ports: Vec<PortDescriptor>, process: bool) -> (r: Self)
        ensures
            r@ == (NodeDescriptorView {
                node_id: node_id@,
                node_type: node_type@,
                kind,
                ports: port_views(ports@),
                process,
            }),
    {
        NodeDescriptor { node_id, node_type, kind, ports, process }
    }

    /// The node identity.
    pub fn node_id(&self) -> (r: &str)
        ensures
            r@ == self@.node_id,
    {
        self.node_id.as_str()
    }

    /// The registered node type.
    pub fn node_type(&self) -> (r: &str)
        ensures
            r@ == self@.node_type,
    {
        self.node_type.as_str()
    }

    /// The node role.
    pub fn kind(&self) -> (r: NodeKind)
        ensures
            r == self@.kind,
    {
        self.kind
    }

    /// The declared ports, in declaration order.
    pub fn ports(&self) -> (r: &[PortDescriptor])
        ensures
            port_views(r@) == self@.ports,
    {
        self.ports.as_slice()
    }

    /// Whether the node declares the mandatory process hook.
    pub fn process_capable(&self) -> (r: bool)
        ensures
            r == self@.process,
    {
        self.process
    }
}

/// The data of an edge descriptor.
pub struct EdgeView {
    pub edge_id: Seq<char>,
    pub from_node_id: Seq<char>,
    pub from_output_port: Seq<char>,
    pub to_node_id: Seq<char>,
    pub to_input_port: Seq<char>,
    pub frame_type: FrameType,
}

/// An explicit, exactly typed connection between two ports.
#[derive(Clone, Debug)]
pub struct EdgeDescriptor {
    edge_id: String,
    from_node_id: String,
    from_output_port: String,
    to_node_id: String,
    to_input_port: String,
    frame_type: FrameType,
}

impl View for EdgeDescriptor {
    type V = EdgeView;

    closed spec fn view(&self) -> EdgeView {
        EdgeView {
            edge_id: self.edge_id@,
            from_node_id: self.from_node_id@,
            from_output_port: self.from_output_port@,
            to_node_id: self.to_node_id@,
            to_input_port: self.to_input_port@,
            frame_type: self.frame_type,
        }
    }
}

impl EdgeDescriptor {
    /// Creates an edge descriptor.
    pub fn new(
        edge_id: String,
        from_node_id: String,
        from_output_port: String,
        to_node_id: String,
        to_input_port: String,
        frame_type: FrameType,
    ) -> (r: Self)
        ensures
            r@ == (EdgeView {
                edge_id: edge_id@,
                from_node_id: from_node_id@,
                from_output_port: from_output_port@,
                to_node_id: to_node_id@,
                to_input_port: to_input_port@,
                frame_type,
            }),
    {
        EdgeDescriptor { edge_id, from_node_id, from_output_port, to_node_id, to_input_port, frame_type }
    }

    /// The edge identity.
    pub fn edge_id(&self) -> (r: &str)
        ensures
            r@ == self@.edge_id,
    {
        self.edge_id.as_str()
    }

    /// The source node.
    pub fn from_node_id(&self) -> (r: &str)
        ensures
            r@ == self@.from_node_id,
    {
        self.from_node_id.as_str()
    }

    /// The source output port.
    pub fn from_output_port(&self) -> (r: &str)
        ensures
            r@ == self@.from_output_port,
    {
        self.from_output_port.as_str()
    }

    /// The target node.
    pub fn to_node_id(&self) -> (r: &str)
        ensures
            r@ == self@.to_node_id,
    {
        self.to_node_id.as_str()
    }

    /// The target input port.
    pub fn to_input_port(&self) -> (r: &str)
        ensures
            r@ == self@.to_input_port,
    {
        self.to_input_port.as_str()
    }

    /// The exact frame type the edge declares.
    pub fn frame_type(&self) -> (r: FrameType)
        ensures
            r == self@.frame_type,
    {
        self.frame_type
    }
}

/// One endpoint named in a diagnostic: a node and one of its ports.
#[derive(Clone, Debug, PartialEq, Eq)]
pub struct EdgeEndpoint {
    node_id: String,
    port_name: String,
}

impl View for EdgeEndpoint {
    type V = (Seq<char>, Seq<char>);

    closed spec fn view(&self) -> (Seq<char>, Seq<char>) {
        (self.node_id@, self.port_name@)
    }
}

impl EdgeEndpoint {
    fn new(node_id: &str, port_name: &str) -> (r: Self)
        ensures
            r@ == (node_id@, port_name@),
    {
        EdgeEndpoint { node_id: node_id.to_owned(), port_name: port_name.to_owned() }
    }

    /// The endpoint node.
    pub fn node_id(&self) -> (r: &str)
        ensures
            r@ == self@.0,
    {
        self.node_id.as_str()
    }

    /// The endpoint port.
    pub fn port_name(&self) -> (r: &str)
        ensures
            r@ == self@.1,
    {
        self.port_name.as_str()
    }
}

/// The source endpoint of an edge.
pub open spec fn source_of(e: EdgeView) -> (Seq<char>, Seq<char>) {
    (e.from_node_id, e.from_output_port)
}

/// The target endpoint of an edge.
pub open spec fn target_of(e: EdgeView) -> (Seq<char>, Seq<char>) {
    (e.to_node_id, e.to_input_port)
}

/// Structured errors returned by the graph builder.
#[derive(Clone, Debug, PartialEq, Eq)]
pub enum GraphBuildError {
    /// Two node descriptors use the same identity.
    DuplicateNode { node_id: String },
    /// Two edge descriptors use the same identity.
    DuplicateEdge { edge_id: String, source: EdgeEndpoint, target: EdgeEndpoint },
    /// A descriptor port claims a different owner.
    PortNodeMismatch { node_id: String, port_node_id: String, port_name: String },
    /// A descriptor repeats a port in one direction.
    DuplicatePort { node_id: String, port_name: String, direction: PortDirection },
    /// The node kind conflicts with its port shape.
    InvalidNodeKind { node_id: String, kind: NodeKind, message: String },
    /// The node does not declare the mandatory process hook.
    ProcessCapabilityMissing { node_id: String },
    /// An edge endpoint names a missing node.
    MissingNode {
        edge_id: String,
        role: EndpointRole,
        missing_node_id: String,
        source: EdgeEndpoint,
        target: EdgeEndpoint,
    },
    /// An edge endpoint names a missing port.
    MissingPort {
        edge_id: String,
        role: EndpointRole,
        endpoint: EdgeEndpoint,
        expected_direction: PortDirection,
        source: EdgeEndpoint,
        target: EdgeEndpoint,
    },
    /// The named port exists but points the wrong way.
    DirectionMismatch {
        edge_id: String,
        role: EndpointRole,
        endpoint: EdgeEndpoint,
        expected: PortDirection,
        actual: PortDirection,
        source: EdgeEndpoint,
        target: EdgeEndpoint,
    },
    /// Source, target and edge-declared types are not identical.
    TypeMismatch {
        edge_id: String,
        source: EdgeEndpoint,
        target: EdgeEndpoint,
        source_type: FrameType,
        target_type: FrameType,
        edge_type: FrameType,
        suggested_explicit_transform: String,
    },
    /// Configuration was supplied for a missing node.
    ConfigNodeMissing { node_id: String },
    /// A factory selection was supplied for a missing node.
    FactoryNodeMissing { node_id: String },
    /// The complete graph contains a directed cycle.
    Cycle { node_ids: Vec<String> },
}

/// The content of a graph build error.
pub enum BuildErrorView {
    DuplicateNode { node_id: Seq<char> },
    DuplicateEdge { edge_id: Seq<char>, source: (Seq<char>, Seq<char>), target: (Seq<char>, Seq<char>) },
    PortNodeMismatch { node_id: Seq<char>, port_node_id: Seq<char>, port_name: Seq<char> },
    DuplicatePort { node_id: Seq<char>, port_name: Seq<char>, direction: PortDirection },
    InvalidNodeKind { node_id: Seq<char>, kind: NodeKind, message: Seq<char> },
    ProcessCapabilityMissing { node_id: Seq<char> },
    MissingNode {
        edge_id: Seq<char>,
        role: EndpointRole,
        missing_node_id: Seq<char>,
        source: (Seq<char>, Seq<char>),
        target: (Seq<char>, Seq<char>),
    },
    MissingPort {
        edge_id: Seq<char>,
        role: EndpointRole,
        endpoint: (Seq<char>, Seq<char>),
        expected_direction: PortDirection,
        source: (Seq<char>, Seq<char>),
        target: (Seq<char>, Seq<char>),
    },
    DirectionMismatch {
        edge_id: Seq<char>,
        role: EndpointRole,
        endpoint: (Seq<char>, Seq<char>),
        expected: PortDirection,
        actual: PortDirection,
        source: (Seq<char>, Seq<char>),
        target: (Seq<char>, Seq<char>),
    },
    TypeMismatch {
        edge_id: Seq<char>,
        source: (Seq<char>, Seq<char>),
        target: (Seq<char>, Seq<char>),
        source_type: FrameType,
        target_type: FrameType,
        edge_type: FrameType,
        suggested_explicit_transform: Seq<char>,
    },
    ConfigNodeMissing { node_id: Seq<char> },
    FactoryNodeMissing { node_id: Seq<char> },
    Cycle { node_ids: Seq<Seq<char>> },
}

/// The views of a sequence of strings.
pub open spec fn string_views(v: Seq<String>) -> Seq<Seq<char>> {
    v.map_values(|s: String| s@)
}

impl View for GraphBuildError {
    type V = BuildErrorView;

    closed spec fn view(&self) -> BuildErrorView {
        match self {
            GraphBuildError::DuplicateNode { node_id } => BuildErrorView::DuplicateNode { node_id: node_id@ },
            GraphBuildError::DuplicateEdge { edge_id, source, target } => BuildErrorView::DuplicateEdge {
                edge_id: edge_id@,
                source: source@,
                target: target@,
            },
            GraphBuildError::PortNodeMismatch { node_id, port_node_id, port_name } => BuildErrorView::PortNodeMismatch {
                node_id: node_id@,
                port_node_id: port_node_id@,
                port_name: port_name@,
            },
            GraphBuildError::DuplicatePort { node_id, port_name, direction } => BuildErrorView::DuplicatePort {
                node_id: node_id@,
                port_name: port_name@,
                direction: *direction,
            },
            GraphBuildError::InvalidNodeKind { node_id, kind, message } => BuildErrorView::InvalidNodeKind {
                node_id: node_id@,
                kind: *kind,
                message: message@,
            },
            GraphBuildError::ProcessCapabilityMissing { node_id } => BuildErrorView::ProcessCapabilityMissing {
                node_id: node_id@,
            },
            GraphBuildError::MissingNode { edge_id, role, missing_node_id, source, target } => BuildErrorView::MissingNode {
                edge_id: edge_id@,
                role: *role,
                missing_node_id: missing_node_id@,
                source: source@,
                target: target@,
            },
            GraphBuildError::MissingPort { edge_id, role, endpoint, expected_direction, source, target } => BuildErrorView::MissingPort {
                edge_id: edge_id@,
                role: *role,
                endpoint: endpoint@,
                expected_direction: *expected_direction,
                source: source@,
                target: target@,
            },
            GraphBuildError::DirectionMismatch { edge_id, role, endpoint, expected, actual, source, target } => BuildErrorView::DirectionMismatch {
                edge_id: edge_id@,
                role: *role,
                endpoint: endpoint@,
                expected: *expected,
                actual: *actual,
                source: source@,
                target: target@,
            },
            GraphBuildError::TypeMismatch {
                edge_id,
                source,
                target,
                source_type,
                target_type,
                edge_type,
                suggested_explicit_transform,
            } => BuildErrorView::TypeMismatch {
                edge_id: edge_id@,
                source: source@,
                target: target@,
                source_type: *source_type,
                target_type: *target_type,
                edge_type: *edge_type,
                suggested_explicit_transform: suggested_explicit_transform@,
            },
            GraphBuildError::ConfigNodeMissing { node_id } => BuildErrorView::ConfigNodeMissing { node_id: node_id@ },
            GraphBuildError::FactoryNodeMissing { node_id } => BuildErrorView::FactoryNodeMissing { node_id: node_id@ },
            GraphBuildError::Cycle { node_ids } => BuildErrorView::Cycle { node_ids: string_views(node_ids@) },
        }
    }
}

/// The diagnostic for a port problem at index `i` of a descriptor, checked
/// in this order: foreign owner, repeated name in one direction, then a
/// direction that the node kind forbids.
pub open spec fn port_problem(d: NodeDescriptorView, i: int) -> Option<BuildErrorView> {
    let p = d.ports[i];
    if p.node_id != d.node_id {
        Some(BuildErrorView::PortNodeMismatch { node_id: d.node_id, port_node_id: p.node_id, port_name: p.name })
    } else if exists|j: int| 0 <= j < i && #[trigger] d.ports[j].direction == p.direction && d.ports[j].name == p.name {
        Some(BuildErrorView::DuplicatePort { node_id: d.node_id, port_name: p.name, direction: p.direction })
    } else if d.kind == NodeKind::Source && p.direction == PortDirection::Input {
        Some(BuildErrorView::InvalidNodeKind {
            node_id: d.node_id,
            kind: d.kind,
            message: "Source nodes cannot declare input ports"@,
        })
    } else if d.kind == NodeKind::Sink && p.direction == PortDirection::Output {
        Some(BuildErrorView::InvalidNodeKind {
            node_id: d.node_id,
            kind: d.kind,
            message: "Sink nodes cannot declare output ports"@,
        })
    } else {
        None
    }
}

/// The first port problem among the first `n` ports.
pub open spec fn first_port_problem(d: NodeDescriptorView, n: int) -> Option<BuildErrorView>
    decreases n,
{
    if n <= 0 {
        None
    } else {
        match first_port_problem(d, n - 1) {
            Some(e) => Some(e),
            None => port_problem(d, n - 1),
        }
    }
}

/// Once a prefix of the ports has a problem, every longer prefix reports
/// the same one.
pub proof fn lemma_first_problem_stable(d: NodeDescriptorView, m: int, n: int)
    requires
        0 <= m <= n,
        first_port_problem(d, m) is Some,
    ensures
        first_port_problem(d, n) == first_port_problem(d, m),
    decreases n - m,
{
    if m < n {
        lemma_first_problem_stable(d, m, n - 1);
    }
}

/// Why a descriptor cannot enter a graph, if it cannot.
pub open spec fn descriptor_problem(d: NodeDescriptorView) -> Option<BuildErrorView> {
    if !d.process {
        Some(BuildErrorView::ProcessCapabilityMissing { node_id: d.node_id })
    } else {
        first_port_problem(d, d.ports.len() as int)
    }
}

/// Checks a node descriptor: the process hook, port owners, repeated
/// ports and the port directions that its kind allows.
pub fn validate_node_descriptor(descriptor: &NodeDescriptor) -> (r: Result<(), GraphBuildError>)
    ensures
        match descriptor_problem(descriptor@) {
            None => r is Ok,
            Some(e) => r matches Err(err) && err@ == e,
        },
{
    if !descriptor.process_capable() {
        return Err(GraphBuildError::ProcessCapabilityMissing { node_id: descriptor.node_id().to_owned() });
    }
    let ports = descriptor.ports();
    let ghost d = descriptor@;
    let mut i: usize = 0;
    while i < ports.len()
        invariant
            d == descriptor@,
            port_views(ports@) == d.ports,
            d.process,
            0 <= i <= ports@.len(),
            first_port_problem(d, i as int) is None,
        decreases ports@.len() - i,
    {
        let port = &ports[i];
        proof {
            assert(d.ports[i as int] == port@);
        }
        if !str_equal(port.node_id(), descriptor.node_id()) {
            proof {
                lemma_first_problem_stable(d, i + 1, d.ports.len() as int);
            }
            return Err(GraphBuildError::PortNodeMismatch {
                node_id: descriptor.node_id().to_owned(),
                port_node_id: port.node_id().to_owned(),
                port_name: port.name().to_owned(),
            });
        }
        let mut j: usize = 0;
        let mut repeated = false;
        while j < i
            invariant
                port_views(ports@) == d.ports,
                0 <= j <= i < ports@.len(),
                d.ports[i as int] == port@,
                repeated == exists|k: int| 0 <= k < j && #[trigger] d.ports[k].direction == port@.direction && d.ports[k].name == port@.name,
            decreases i - j,
        {
            let other = &ports[j];
            proof {
                assert(d.ports[j as int] == other@);
            }
            if other.direction() == port.direction() && str_equal(other.name(), port.name()) {
                repeated = true;
            }
            j = j + 1;
        }
        if repeated {
            proof {
                lemma_first_problem_stable(d, i + 1, d.ports.len() as int);
            }
            return Err(GraphBuildError::DuplicatePort {
                node_id: descriptor.node_id().to_owned(),
                port_name: port.name().to_owned(),
                direction: port.direction(),
            });
        }
        if descriptor.kind() == NodeKind::Source && port.direction() == PortDirection::Input {
            proof {
                lemma_first_problem_stable(d, i + 1, d.ports.len() as int);
            }
            return Err(GraphBuildError::InvalidNodeKind {
                node_id: descriptor.node_id().to_owned(),
                kind: descriptor.kind(),
                message: "Source nodes cannot declare input ports".to_owned(),
            });
        }
        if descriptor.kind() == NodeKind::Sink && port.direction() == PortDirection::Output {
            proof {
                lemma_first_problem_stable(d, i + 1, d.ports.len() as int);
            }
            return Err(GraphBuildError::InvalidNodeKind {
                node_id: descriptor.node_id().to_owned(),
                kind: descriptor.kind(),
                message: "Sink nodes cannot declare output ports".to_owned(),
            });
        }
        i = i + 1;
    }
    Ok(())
}


/// The registered implementation chosen for one node: its language and
/// version.
#[derive(Clone, Debug)]
pub struct NodeFactorySelection {
    language: NodeLanguage,
    version: NodeFactoryVersion,
}

/// The data of a factory selection.
pub struct SelectionView {
    pub language: NodeLanguage,
    pub version: Seq<char>,
}

impl View for NodeFactorySelection {
    type V = SelectionView;

    closed spec fn view(&self) -> SelectionView {
        SelectionView { language: self.language, version: self.version@ }
    }
}

impl NodeFactorySelection {
    /// Selects a language and version.
    pub fn new(language: NodeLanguage, version: NodeFactoryVersion) -> (r: Self)
        ensures
            r@ == (SelectionView { language, version: version@ }),
    {
        NodeFactorySelection { language, version }
    }

    /// The selected language.
    pub fn language(&self) -> (r: NodeLanguage)
        ensures
            r == self@.language,
    {
        self.language
    }

    /// The selected version.
    pub fn version(&self) -> (r: &NodeFactoryVersion)
        ensures
            r@ == self@.version,
    {
        &self.version
    }
}

/// The data of a node definition.
pub struct NodeDefinitionView {
    pub descriptor: NodeDescriptorView,
    pub config: Seq<(String, crate::value::Value)>,
    pub factory: Option<SelectionView>,
}

/// A configured node in a stable graph definition.
#[derive(Debug)]
pub struct NodeDefinition {
    descriptor: NodeDescriptor,
    config: ValueMap,
    factory: Option<NodeFactorySelection>,
}

impl View for NodeDefinition {
    type V = NodeDefinitionView;

    closed spec fn view(&self) -> NodeDefinitionView {
        NodeDefinitionView {
            descriptor: self.descriptor@,
            config: self.config.spec_entries(),
            factory: match self.factory {
                Some(f) => Some(f@),
                None => None,
            },
        }
    }
}

impl NodeDefinition {
    /// The node's registration and port data.
    pub fn descriptor(&self) -> (r: &NodeDescriptor)
        ensures
            r@ == self@.descriptor,
    {
        &self.descriptor
    }

    /// The node's configuration.
    pub fn config(&self) -> (r: &ValueMap)
        ensures
            r.spec_entries() == self@.config,
    {
        &self.config
    }

    /// The implementation selected for the node, if any.
    pub fn factory(&self) -> (r: Option<&NodeFactorySelection>)
        ensures
            match r {
                Some(f) => self@.factory == Some(f@),
                None => self@.factory is None,
            },
    {
        match &self.factory {
            Some(f) => Some(f),
            None => None,
        }
    }
}

/// The node identities of a sequence of node definitions.
pub open spec fn node_ids(nodes: Seq<NodeDefinitionView>) -> Seq<Seq<char>> {
    nodes.map_values(|n: NodeDefinitionView| n.descriptor.node_id)
}

/// The edge identities of a sequence of edges.
pub open spec fn edge_ids(edges: Seq<EdgeView>) -> Seq<Seq<char>> {
    edges.map_values(|e: EdgeView| e.edge_id)
}

/// The index of the node with identity `id`, if there is one.
pub open spec fn find_node(nodes: Seq<NodeDefinitionView>, id: Seq<char>) -> Option<int> {
    if exists|i: int| 0 <= i < nodes.len() && #[trigger] nodes[i].descriptor.node_id == id {
        Some(choose|i: int| 0 <= i < nodes.len() && #[trigger] nodes[i].descriptor.node_id == id)
    } else {
        None
    }
}

/// The first of the first `n` ports with this name and direction.
pub open spec fn first_exact(ports: Seq<PortView>, name: Seq<char>, dir: PortDirection, n: int) -> Option<int>
    decreases n,
{
    if n <= 0 {
        None
    } else {
        match first_exact(ports, name, dir, n - 1) {
            Some(k) => Some(k),
            None => if ports[n - 1].name == name && ports[n - 1].direction == dir {
                Some(n - 1)
            } else {
                None
            },
        }
    }
}

/// Once a prefix has an exact port, every longer prefix has the same one.
pub proof fn lemma_first_exact_stable(ports: Seq<PortView>, name: Seq<char>, dir: PortDirection, m: int, n: int)
    requires
        0 <= m <= n,
        first_exact(ports, name, dir, m) is Some,
    ensures
        first_exact(ports, name, dir, n) == first_exact(ports, name, dir, m),
    decreases n - m,
{
    if m < n {
        lemma_first_exact_stable(ports, name, dir, m, n - 1);
    }
}

/// What an exact first match says of the ports before and at it.
pub proof fn lemma_first_exact_none(ports: Seq<PortView>, name: Seq<char>, dir: PortDirection, n: int)
    requires
        0 <= n <= ports.len(),
        first_exact(ports, name, dir, n) is None,
    ensures
        forall|i: int| 0 <= i < n ==> !(#[trigger] ports[i].name == name && ports[i].direction == dir),
    decreases n,
{
    if n > 0 {
        lemma_first_exact_none(ports, name, dir, n - 1);
    }
}

/// The endpoint of an edge in a role.
pub open spec fn endpoint_of(e: EdgeView, role: EndpointRole) -> (Seq<char>, Seq<char>) {
    match role {
        EndpointRole::Source => source_of(e),
        EndpointRole::Target => target_of(e),
    }
}

/// Resolves the port that an edge endpoint names.
pub open spec fn port_check(
    ports: Seq<PortView>,
    name: Seq<char>,
    expected: PortDirection,
    e: EdgeView,
    role: EndpointRole,
) -> Result<PortView, BuildErrorView> {
    match first_exact(ports, name, expected, ports.len() as int) {
        Some(k) => Ok(ports[k]),
        None => if exists|i: int| 0 <= i < ports.len() && #[trigger] ports[i].name == name {
            Err(BuildErrorView::DirectionMismatch {
                edge_id: e.edge_id,
                role,
                endpoint: endpoint_of(e, role),
                expected,
                actual: opposite(expected),
                source: source_of(e),
                target: target_of(e),
            })
        } else {
            Err(BuildErrorView::MissingPort {
                edge_id: e.edge_id,
                role,
                endpoint: endpoint_of(e, role),
                expected_direction: expected,
                source: source_of(e),
                target: target_of(e),
            })
        },
    }
}

/// The advice attached to a type mismatch.
pub open spec fn transform_advice(source: FrameType, target: FrameType) -> Seq<char> {
    if source != target {
        "insert an explicit TransformNode converting "@ + frame_type_debug(source) + " to "@ + frame_type_debug(target)
    } else {
        "no transform is needed; declare this Edge as exactly "@ + frame_type_debug(source)
    }
}

/// Why an edge cannot join these nodes, if it cannot: checked in the order
/// source node, target node, source port, target port, exact types.
pub open spec fn edge_problem(nodes: Seq<NodeDefinitionView>, e: EdgeView) -> Option<BuildErrorView> {
    match find_node(nodes, e.from_node_id) {
        None => Some(BuildErrorView::MissingNode {
            edge_id: e.edge_id,
            role: EndpointRole::Source,
            missing_node_id: e.from_node_id,
            source: source_of(e),
            target: target_of(e),
        }),
        Some(si) => match find_node(nodes, e.to_node_id) {
            None => Some(BuildErrorView::MissingNode {
                edge_id: e.edge_id,
                role: EndpointRole::Target,
                missing_node_id: e.to_node_id,
                source: source_of(e),
                target: target_of(e),
            }),
            Some(ti) => match port_check(nodes[si].descriptor.ports, e.from_output_port, PortDirection::Output, e, EndpointRole::Source) {
                Err(x) => Some(x),
                Ok(sp) => match port_check(nodes[ti].descriptor.ports, e.to_input_port, PortDirection::Input, e, EndpointRole::Target) {
                    Err(x) => Some(x),
                    Ok(tp) => if sp.frame_type != tp.frame_type || e.frame_type != sp.frame_type || e.frame_type != tp.frame_type {
                        Some(BuildErrorView::TypeMismatch {
                            edge_id: e.edge_id,
                            source: source_of(e),
                            target: target_of(e),
                            source_type: sp.frame_type,
                            target_type: tp.frame_type,
                            edge_type: e.frame_type,
                            suggested_explicit_transform: transform_advice(sp.frame_type, tp.frame_type),
                        })
                    } else {
                        None
                    },
                },
            },
        },
    }
}

/// The builder's content.
pub struct BuilderView {
    pub graph_id: Seq<char>,
    pub nodes: Seq<NodeDefinitionView>,
    pub edges: Seq<EdgeView>,
}

/// Builds and validates a static directed acyclic graph without executing
/// it. Nodes and edges are kept sorted by identity.
#[derive(Debug)]
pub struct GraphBuilder {
    graph_id: String,
    node_ids: StringSet,
    nodes: Vec<NodeDefinition>,
    edge_ids: StringSet,
    edges: Vec<EdgeDescriptor>,
}

/// The views of a sequence of node definitions.
pub open spec fn node_views(nodes: Seq<NodeDefinition>) -> Seq<NodeDefinitionView> {
    nodes.map_values(|n: NodeDefinition| n@)
}

/// The views of a sequence of edges.
pub open spec fn edge_views(edges: Seq<EdgeDescriptor>) -> Seq<EdgeView> {
    edges.map_values(|e: EdgeDescriptor| e@)
}

/// What every builder keeps: identities sorted and distinct, every node
/// descriptor valid, every edge endpoint an existing node.
pub open spec fn builder_wf(v: BuilderView) -> bool {
    &&& sorted_strings(node_ids(v.nodes))
    &&& sorted_strings(edge_ids(v.edges))
    &&& forall|i: int| 0 <= i < v.nodes.len() ==> descriptor_problem(#[trigger] v.nodes[i].descriptor) is None
    &&& forall|k: int| 0 <= k < v.edges.len() ==> node_ids(v.nodes).contains(#[trigger] v.edges[k].from_node_id)
        && node_ids(v.nodes).contains(v.edges[k].to_node_id)
}

impl View for GraphBuilder {
    type V = BuilderView;

    closed spec fn view(&self) -> BuilderView {
        BuilderView { graph_id: self.graph_id@, nodes: node_views(self.nodes@), edges: edge_views(self.edges@) }
    }
}

impl GraphBuilder {
    /// The builder's fields agree with each other and it is well formed.
    pub closed spec fn wf(&self) -> bool {
        &&& self.node_ids@ == node_ids(self@.nodes)
        &&& self.edge_ids@ == edge_ids(self@.edges)
        &&& builder_wf(self@)
    }

    /// Creates an empty builder for the graph named `graph`.
    pub fn new() -> (r: Self)
        ensures
            r.wf(),
            r@.graph_id == "graph"@,
            r@.nodes.len() == 0,
            r@.edges.len() == 0,
    {
        Self::with_graph_id("graph".to_owned())
    }

    /// Creates an empty builder with an explicit graph identity.
    pub fn with_graph_id(graph_id: String) -> (r: Self)
        ensures
            r.wf(),
            r@.graph_id == graph_id@,
            r@.nodes.len() == 0,
            r@.edges.len() == 0,
    {
        let r = GraphBuilder {
            graph_id,
            node_ids: StringSet::new(),
            nodes: Vec::new(),
            edge_ids: StringSet::new(),
            edges: Vec::new(),
        };
        proof {
            assert(node_ids(r@.nodes) =~= Seq::<Seq<char>>::empty());
            assert(edge_ids(r@.edges) =~= Seq::<Seq<char>>::empty());
        }
        r
    }

    /// Adds one node descriptor with an empty configuration and no factory.
    pub fn add_node(&mut self, descriptor: NodeDescriptor) -> (r: Result<(), GraphBuildError>)
        requires
            old(self).wf(),
        ensures
            final(self).wf(),
            match descriptor_problem(descriptor@) {
                Some(e) => r matches Err(err) && err@ == e && final(self)@ == old(self)@,
                None => if node_ids(old(self)@.nodes).contains(descriptor@.node_id) {
                    r matches Err(err) && err@ == (BuildErrorView::DuplicateNode { node_id: descriptor@.node_id })
                        && final(self)@ == old(self)@
                } else {
                    r is Ok && final(self)@.graph_id == old(self)@.graph_id && final(self)@.edges == old(self)@.edges
                        && exists|pos: int| 0 <= pos <= old(self)@.nodes.len() && final(self)@.nodes == old(self)@.nodes.insert(
                            pos,
                            NodeDefinitionView { descriptor: descriptor@, config: Seq::empty(), factory: None },
                        )
                },
            },
    {
        validate_node_descriptor(&descriptor)?;
        let (pos, found) = self.node_ids.locate(descriptor.node_id());
        if found {
            return Err(GraphBuildError::DuplicateNode { node_id: descriptor.node_id().to_owned() });
        }
        let ghost before = self@;
        proof {
            crate::bytes_order::lemma_lex_irreflexive(crate::string_set::utf8(descriptor@.node_id));
            if node_ids(before.nodes).contains(descriptor@.node_id) {
                let q = choose|q: int| 0 <= q < node_ids(before.nodes).len() && node_ids(before.nodes)[q] == descriptor@.node_id;
                if q < pos {
                    assert(crate::bytes_order::lex_lt(
                        crate::string_set::utf8(self.node_ids@[q]),
                        crate::string_set::utf8(descriptor@.node_id),
                    ));
                } else {
                    assert(crate::bytes_order::lex_lt(
                        crate::string_set::utf8(descriptor@.node_id),
                        crate::string_set::utf8(self.node_ids@[q]),
                    ));
                }
            }
        }
        let id = descriptor.node_id().to_owned();
        let definition = NodeDefinition { descriptor, config: ValueMap::empty(), factory: None };
        self.node_ids.insert_at(pos, id);
        self.nodes.insert(pos, definition);
        proof {
            let new_def = NodeDefinitionView { descriptor: definition@.descriptor, config: Seq::empty(), factory: None };
            assert(node_views(self.nodes@) =~= before.nodes.insert(pos as int, new_def));
            assert(node_ids(self@.nodes) =~= node_ids(before.nodes).insert(pos as int, new_def.descriptor.node_id));
            assert forall|k: int| 0 <= k < self@.edges.len() implies node_ids(self@.nodes).contains(#[trigger] self@.edges[k].from_node_id)
                && node_ids(self@.nodes).contains(self@.edges[k].to_node_id) by {
                let a = choose|a: int| 0 <= a < node_ids(before.nodes).len() && node_ids(before.nodes)[a] == before.edges[k].from_node_id;
                let b = choose|b: int| 0 <= b < node_ids(before.nodes).len() && node_ids(before.nodes)[b] == before.edges[k].to_node_id;
                if a < pos {
                    assert(node_ids(self@.nodes)[a] == before.edges[k].from_node_id);
                } else {
                    assert(node_ids(self@.nodes)[a + 1] == before.edges[k].from_node_id);
                }
                if b < pos {
                    assert(node_ids(self@.nodes)[b] == before.edges[k].to_node_id);
                } else {
                    assert(node_ids(self@.nodes)[b + 1] == before.edges[k].to_node_id);
                }
            }
            assert forall|i: int| 0 <= i < self@.nodes.len() implies descriptor_problem(#[trigger] self@.nodes[i].descriptor) is None by {
                if i < pos {
                    assert(self@.nodes[i] == before.nodes[i]);
                } else if i > pos {
                    assert(self@.nodes[i] == before.nodes[i - 1]);
                }
            }
        }
        Ok(())
    }
}


fn edge_source(edge: &EdgeDescriptor) -> (r: EdgeEndpoint)
    ensures
        r@ == source_of(edge@),
{
    EdgeEndpoint::new(edge.from_node_id(), edge.from_output_port())
}

fn edge_target(edge: &EdgeDescriptor) -> (r: EdgeEndpoint)
    ensures
        r@ == target_of(edge@),
{
    EdgeEndpoint::new(edge.to_node_id(), edge.to_input_port())
}

/// Finds the port that an edge endpoint names: the first port with the name
/// and the expected direction; otherwise a direction mismatch when the name
/// exists, or a missing port.
pub fn find_port<'a>(
    ports: &'a [PortDescriptor],
    name: &str,
    expected: PortDirection,
    edge: &EdgeDescriptor,
    role: EndpointRole,
) -> (r: Result<&'a PortDescriptor, GraphBuildError>)
    ensures
        match port_check(port_views(ports@), name@, expected, edge@, role) {
            Ok(p) => r matches Ok(x) && x@ == p,
            Err(e) => r matches Err(err) && err@ == e,
        },
{
    let ghost pv = port_views(ports@);
    let mut i: usize = 0;
    while i < ports.len()
        invariant
            pv == port_views(ports@),
            0 <= i <= ports@.len(),
            first_exact(pv, name@, expected, i as int) is None,
        decreases ports@.len() - i,
    {
        let port = &ports[i];
        proof {
            assert(pv[i as int] == port@);
        }
        if str_equal(port.name(), name) && port.direction() == expected {
            proof {
                lemma_first_exact_stable(pv, name@, expected, i + 1, pv.len() as int);
            }
            return Ok(port);
        }
        i = i + 1;
    }
    proof {
        lemma_first_exact_none(pv, name@, expected, pv.len() as int);
    }
    let source = edge_source(edge);
    let target = edge_target(edge);
    let endpoint = match role {
        EndpointRole::Source => edge_source(edge),
        EndpointRole::Target => edge_target(edge),
    };
    let mut j: usize = 0;
    while j < ports.len()
        invariant
            pv == port_views(ports@),
            0 <= j <= ports@.len(),
            first_exact(pv, name@, expected, pv.len() as int) is None,
            forall|k: int| 0 <= k < pv.len() ==> !(#[trigger] pv[k].name == name@ && pv[k].direction == expected),
            endpoint@ == endpoint_of(edge@, role),
            source@ == source_of(edge@),
            target@ == target_of(edge@),
            forall|k: int| 0 <= k < j ==> #[trigger] pv[k].name != name@,
        decreases ports@.len() - j,
    {
        let port = &ports[j];
        proof {
            assert(pv[j as int] == port@);
        }
        if str_equal(port.name(), name) {
            proof {
                assert(!(pv[j as int].name == name@ && pv[j as int].direction == expected));
            }
            return Err(GraphBuildError::DirectionMismatch {
                edge_id: edge.edge_id().to_owned(),
                role,
                endpoint,
                expected,
                actual: port.direction(),
                source,
                target,
            });
        }
        j = j + 1;
    }
    Err(GraphBuildError::MissingPort {
        edge_id: edge.edge_id().to_owned(),
        role,
        endpoint,
        expected_direction: expected,
        source,
        target,
    })
}

/// Builds the advice attached to a type mismatch.
fn advice(source: FrameType, target: FrameType) -> (r: String)
    ensures
        r@ == transform_advice(source, target),
{
    if source != target {
        let mut text = "insert an explicit TransformNode converting ".to_owned();
        text.append(frame_type_debug_name(source));
        text.append(" to ");
        text.append(frame_type_debug_name(target));
        text
    } else {
        let mut text = "no transform is needed; declare this Edge as exactly ".to_owned();
        text.append(frame_type_debug_name(source));
        text
    }
}

impl GraphBuilder {
    /// The index of a node by identity.
    fn node_index(&self, id: &str) -> (r: Option<usize>)
        requires
            self.wf(),
        ensures
            match find_node(self@.nodes, id@) {
                Some(i) => r is Some && r.unwrap() == i && i < self.nodes@.len(),
                None => r is None,
            },
    {
        let found = self.node_ids.find(id);
        proof {
            let nodes = self@.nodes;
            match found {
                Some(i) => {
                    assert(nodes[i as int].descriptor.node_id == id@);
                    let j = choose|j: int| 0 <= j < nodes.len() && #[trigger] nodes[j].descriptor.node_id == id@;
                    assert(self.node_ids@[j] == id@);
                },
                None => {
                    if exists|j: int| 0 <= j < nodes.len() && #[trigger] nodes[j].descriptor.node_id == id@ {
                        let j = choose|j: int| 0 <= j < nodes.len() && #[trigger] nodes[j].descriptor.node_id == id@;
                        assert(self.node_ids@[j] == id@);
                    }
                },
            }
        }
        found
    }

    /// Checks an edge against the nodes.
    fn validate_edge(&self, edge: &EdgeDescriptor) -> (r: Result<(), GraphBuildError>)
        requires
            self.wf(),
        ensures
            match edge_problem(self@.nodes, edge@) {
                None => r is Ok,
                Some(e) => r matches Err(err) && err@ == e,
            },
    {
        let source_index = match self.node_index(edge.from_node_id()) {
            Some(i) => i,
            None => {
                return Err(GraphBuildError::MissingNode {
                    edge_id: edge.edge_id().to_owned(),
                    role: EndpointRole::Source,
                    missing_node_id: edge.from_node_id().to_owned(),
                    source: edge_source(edge),
                    target: edge_target(edge),
                });
            },
        };
        let target_index = match self.node_index(edge.to_node_id()) {
            Some(i) => i,
            None => {
                return Err(GraphBuildError::MissingNode {
                    edge_id: edge.edge_id().to_owned(),
                    role: EndpointRole::Target,
                    missing_node_id: edge.to_node_id().to_owned(),
                    source: edge_source(edge),
                    target: edge_target(edge),
                });
            },
        };
        let source_node = &self.nodes[source_index];
        let target_node = &self.nodes[target_index];
        proof {
            assert(self@.nodes[source_index as int] == source_node@);
            assert(self@.nodes[target_index as int] == target_node@);
            assert(find_node(self@.nodes, edge@.from_node_id) == Some(source_index as int));
            assert(find_node(self@.nodes, edge@.to_node_id) == Some(target_index as int));
        }
        let source_port = match find_port(
            source_node.descriptor.ports(),
            edge.from_output_port(),
            PortDirection::Output,
            edge,
            EndpointRole::Source,
        ) {
            Ok(p) => p,
            Err(e) => {
                return Err(e);
            },
        };
        let target_port = match find_port(
            target_node.descriptor.ports(),
            edge.to_input_port(),
            PortDirection::Input,
            edge,
            EndpointRole::Target,
        ) {
            Ok(p) => p,
            Err(e) => {
                return Err(e);
            },
        };
        let st = source_port.frame_type();
        let tt = target_port.frame_type();
        let et = edge.frame_type();
        if st != tt || et != st || et != tt {
            return Err(GraphBuildError::TypeMismatch {
                edge_id: edge.edge_id().to_owned(),
                source: edge_source(edge),
                target: edge_target(edge),
                source_type: st,
                target_type: tt,
                edge_type: et,
                suggested_explicit_transform: advice(st, tt),
            });
        }
        Ok(())
    }

    /// Connects two explicitly named, exactly typed ports.
    pub fn connect(&mut self, edge: EdgeDescriptor) -> (r: Result<(), GraphBuildError>)
        requires
            old(self).wf(),
        ensures
            final(self).wf(),
            if edge_ids(old(self)@.edges).contains(edge@.edge_id) {
                r matches Err(err) && err@ == (BuildErrorView::DuplicateEdge {
                    edge_id: edge@.edge_id,
                    source: source_of(edge@),
                    target: target_of(edge@),
                }) && final(self)@ == old(self)@
            } else {
                match edge_problem(old(self)@.nodes, edge@) {
                    Some(e) => r matches Err(err) && err@ == e && final(self)@ == old(self)@,
                    None => r is Ok && final(self)@.graph_id == old(self)@.graph_id && final(self)@.nodes == old(self)@.nodes
                        && exists|pos: int| 0 <= pos <= old(self)@.edges.len() && final(self)@.edges == old(self)@.edges.insert(pos, edge@),
                }
            },
    {
        let ghost before = self@;
        let (pos, found) = self.edge_ids.locate(edge.edge_id());
        proof {
            crate::bytes_order::lemma_lex_irreflexive(crate::string_set::utf8(edge@.edge_id));
            if !found && edge_ids(before.edges).contains(edge@.edge_id) {
                let q = choose|q: int| 0 <= q < edge_ids(before.edges).len() && edge_ids(before.edges)[q] == edge@.edge_id;
                if q < pos {
                    assert(crate::bytes_order::lex_lt(
                        crate::string_set::utf8(self.edge_ids@[q]),
                        crate::string_set::utf8(edge@.edge_id),
                    ));
                } else {
                    assert(crate::bytes_order::lex_lt(
                        crate::string_set::utf8(edge@.edge_id),
                        crate::string_set::utf8(self.edge_ids@[q]),
                    ));
                }
            }
        }
        if found {
            return Err(GraphBuildError::DuplicateEdge {
                edge_id: edge.edge_id().to_owned(),
                source: edge_source(&edge),
                target: edge_target(&edge),
            });
        }
        self.validate_edge(&edge)?;
        let id = edge.edge_id().to_owned();
        self.edge_ids.insert_at(pos, id);
        self.edges.insert(pos, edge);
        proof {
            let e = edge@;
            assert(edge_views(self.edges@) =~= before.edges.insert(pos as int, e));
            assert(edge_ids(self@.edges) =~= edge_ids(before.edges).insert(pos as int, e.edge_id));
            let si = find_node(before.nodes, e.from_node_id).unwrap();
            let ti = find_node(before.nodes, e.to_node_id).unwrap();
            assert(node_ids(before.nodes)[si] == e.from_node_id);
            assert(node_ids(before.nodes)[ti] == e.to_node_id);
            assert forall|k: int| 0 <= k < self@.edges.len() implies node_ids(self@.nodes).contains(#[trigger] self@.edges[k].from_node_id)
                && node_ids(self@.nodes).contains(self@.edges[k].to_node_id) by {
                if k < pos {
                    assert(self@.edges[k] == before.edges[k]);
                } else if k > pos {
                    assert(self@.edges[k] == before.edges[k - 1]);
                }
            }
        }
        Ok(())
    }

    /// Replaces the configuration of one existing node.
    pub fn set_config(&mut self, node_id: &str, config: ValueMap) -> (r: Result<(), GraphBuildError>)
        requires
            old(self).wf(),
        ensures
            final(self).wf(),
            match find_node(old(self)@.nodes, node_id@) {
                None => r matches Err(err) && err@ == (BuildErrorView::ConfigNodeMissing { node_id: node_id@ })
                    && final(self)@ == old(self)@,
                Some(i) => r is Ok && final(self)@ == (BuilderView {
                    nodes: old(self)@.nodes.update(i, NodeDefinitionView { config: config.spec_entries(), ..old(self)@.nodes[i] }),
                    ..old(self)@
                }),
            },
    {
        let i = match self.node_index(node_id) {
            Some(i) => i,
            None => {
                return Err(GraphBuildError::ConfigNodeMissing { node_id: node_id.to_owned() });
            },
        };
        let ghost before = self@;
        let mut definition = self.nodes.remove(i);
        proof {
            assert(definition@ == before.nodes[i as int]);
        }
        definition.config = config;
        self.nodes.insert(i, definition);
        proof {
            assert(node_views(self.nodes@) =~= before.nodes.update(
                i as int,
                NodeDefinitionView { config: config.spec_entries(), ..before.nodes[i as int] },
            ));
            assert(node_ids(self@.nodes) =~= node_ids(before.nodes));
            assert forall|j: int| 0 <= j < self@.nodes.len() implies descriptor_problem(#[trigger] self@.nodes[j].descriptor) is None by {
                assert(self@.nodes[j].descriptor == before.nodes[j].descriptor);
            }
        }
        Ok(())
    }

    /// Selects the executable factory of one existing node.
    pub fn set_factory(&mut self, node_id: &str, factory: NodeFactorySelection) -> (r: Result<(), GraphBuildError>)
        requires
            old(self).wf(),
        ensures
            final(self).wf(),
            match find_node(old(self)@.nodes, node_id@) {
                None => r matches Err(err) && err@ == (BuildErrorView::FactoryNodeMissing { node_id: node_id@ })
                    && final(self)@ == old(self)@,
                Some(i) => r is Ok && final(self)@ == (BuilderView {
                    nodes: old(self)@.nodes.update(i, NodeDefinitionView { factory: Some(factory@), ..old(self)@.nodes[i] }),
                    ..old(self)@
                }),
            },
    {
        let i = match self.node_index(node_id) {
            Some(i) => i,
            None => {
                return Err(GraphBuildError::FactoryNodeMissing { node_id: node_id.to_owned() });
            },
        };
        let ghost before = self@;
        let mut definition = self.nodes.remove(i);
        proof {
            assert(definition@ == before.nodes[i as int]);
        }
        definition.factory = Some(factory);
        self.nodes.insert(i, definition);
        proof {
            assert(node_views(self.nodes@) =~= before.nodes.update(
                i as int,
                NodeDefinitionView { factory: Some(factory@), ..before.nodes[i as int] },
            ));
            assert(node_ids(self@.nodes) =~= node_ids(before.nodes));
            assert forall|j: int| 0 <= j < self@.nodes.len() implies descriptor_problem(#[trigger] self@.nodes[j].descriptor) is None by {
                assert(self@.nodes[j].descriptor == before.nodes[j].descriptor);
            }
        }
        Ok(())
    }
}


/// Sorted identities are distinct.
pub proof fn lemma_sorted_distinct(ids: Seq<Seq<char>>, i: int, j: int)
    requires
        sorted_strings(ids),
        0 <= i < ids.len(),
        0 <= j < ids.len(),
        i != j,
    ensures
        ids[i] != ids[j],
{
    crate::bytes_order::lemma_lex_irreflexive(crate::string_set::utf8(ids[i]));
    if i < j {
        assert(crate::bytes_order::lex_lt(crate::string_set::utf8(ids[i]), crate::string_set::utf8(ids[j])));
    } else {
        assert(crate::bytes_order::lex_lt(crate::string_set::utf8(ids[j]), crate::string_set::utf8(ids[i])));
    }
}

/// A node is ready once it is not placed yet and every edge into it starts
/// at a placed node.
pub open spec fn ready(es: Seq<EdgeView>, placed: Seq<Seq<char>>, id: Seq<char>) -> bool {
    &&& !placed.contains(id)
    &&& forall|k: int| 0 <= k < es.len() && #[trigger] es[k].to_node_id == id ==> placed.contains(es[k].from_node_id)
}

/// The first of the first `n` identities that is ready.
pub open spec fn first_ready_in(ids: Seq<Seq<char>>, es: Seq<EdgeView>, placed: Seq<Seq<char>>, n: int) -> Option<int>
    decreases n,
{
    if n <= 0 {
        None
    } else {
        match first_ready_in(ids, es, placed, n - 1) {
            Some(j) => Some(j),
            None => if ready(es, placed, ids[n - 1]) {
                Some(n - 1)
            } else {
                None
            },
        }
    }
}

/// The ready node with the least identity, if any node is ready.
pub open spec fn first_ready(ids: Seq<Seq<char>>, es: Seq<EdgeView>, placed: Seq<Seq<char>>) -> Option<int> {
    first_ready_in(ids, es, placed, ids.len() as int)
}

/// `order` is what repeatedly placing the ready node with the least
/// identity produces, until no node is ready.
pub open spec fn stable_order(ids: Seq<Seq<char>>, es: Seq<EdgeView>, order: Seq<Seq<char>>) -> bool {
    &&& forall|k: int| 0 <= k < order.len() ==> (#[trigger] first_ready(ids, es, order.take(k)) matches Some(i)
        && 0 <= i < ids.len() && ids[i] == order[k])
    &&& first_ready(ids, es, order) is None
}

/// Every identity has been placed.
pub open spec fn complete(ids: Seq<Seq<char>>, order: Seq<Seq<char>>) -> bool {
    forall|i: int| 0 <= i < ids.len() ==> order.contains(#[trigger] ids[i])
}

/// The identities among the first `n` that are not placed, in order.
pub open spec fn unplaced_in(ids: Seq<Seq<char>>, order: Seq<Seq<char>>, n: int) -> Seq<Seq<char>>
    decreases n,
{
    if n <= 0 {
        Seq::empty()
    } else if order.contains(ids[n - 1]) {
        unplaced_in(ids, order, n - 1)
    } else {
        unplaced_in(ids, order, n - 1).push(ids[n - 1])
    }
}

/// The number of `false` entries among the first `n` flags.
pub open spec fn count_unset(flags: Seq<bool>, n: int) -> nat
    decreases n,
{
    if n <= 0 {
        0
    } else {
        count_unset(flags, n - 1) + if flags[n - 1] {
            0nat
        } else {
            1nat
        }
    }
}

proof fn lemma_count_unset_set(flags: Seq<bool>, i: int, n: int)
    requires
        0 <= i < n <= flags.len(),
        !flags[i],
    ensures
        count_unset(flags.update(i, true), n) + 1 == count_unset(flags, n),
    decreases n,
{
    if n - 1 > i {
        lemma_count_unset_set(flags, i, n - 1);
    } else {
        lemma_count_unset_prefix(flags, i, i);
    }
}

proof fn lemma_count_unset_prefix(flags: Seq<bool>, i: int, m: int)
    requires
        0 <= m <= i < flags.len(),
    ensures
        count_unset(flags.update(i, true), m) == count_unset(flags, m),
    decreases m,
{
    if m > 0 {
        lemma_count_unset_prefix(flags, i, m - 1);
    }
}

proof fn lemma_first_ready_stable(ids: Seq<Seq<char>>, es: Seq<EdgeView>, placed: Seq<Seq<char>>, m: int, n: int)
    requires
        0 <= m <= n,
        first_ready_in(ids, es, placed, m) is Some,
    ensures
        first_ready_in(ids, es, placed, n) == first_ready_in(ids, es, placed, m),
    decreases n - m,
{
    if m < n {
        lemma_first_ready_stable(ids, es, placed, m, n - 1);
    }
}

proof fn lemma_first_ready_some(ids: Seq<Seq<char>>, es: Seq<EdgeView>, placed: Seq<Seq<char>>, n: int)
    requires
        first_ready_in(ids, es, placed, n) is Some,
    ensures
        (first_ready_in(ids, es, placed, n) matches Some(i) && 0 <= i < n && ready(es, placed, ids[i])),
    decreases n,
{
    if n > 0 && first_ready_in(ids, es, placed, n - 1) is Some {
        lemma_first_ready_some(ids, es, placed, n - 1);
    }
}

proof fn lemma_first_ready_none(ids: Seq<Seq<char>>, es: Seq<EdgeView>, placed: Seq<Seq<char>>, n: int)
    requires
        0 <= n <= ids.len(),
        first_ready_in(ids, es, placed, n) is None,
    ensures
        forall|i: int| 0 <= i < n ==> !ready(es, placed, #[trigger] ids[i]),
    decreases n,
{
    if n > 0 {
        lemma_first_ready_none(ids, es, placed, n - 1);
    }
}

/// The data of a built graph.
pub struct GraphView {
    pub graph_id: Seq<char>,
    pub nodes: Seq<NodeDefinitionView>,
    pub edges: Seq<EdgeView>,
    pub topological_order: Seq<Seq<char>>,
}

/// Pure, stable graph data: nodes and edges sorted by identity and a
/// deterministic topological order.
#[derive(Debug)]
pub struct GraphDefinition {
    graph_id: String,
    node_ids: StringSet,
    nodes: Vec<NodeDefinition>,
    edge_ids: StringSet,
    edges: Vec<EdgeDescriptor>,
    topological_order: Vec<String>,
}

impl View for GraphDefinition {
    type V = GraphView;

    closed spec fn view(&self) -> GraphView {
        GraphView {
            graph_id: self.graph_id@,
            nodes: node_views(self.nodes@),
            edges: edge_views(self.edges@),
            topological_order: string_views(self.topological_order@),
        }
    }
}

impl GraphDefinition {
    /// The lookup tables agree with the nodes and edges.
    pub closed spec fn wf(&self) -> bool {
        &&& self.node_ids@ == node_ids(self@.nodes)
        &&& self.edge_ids@ == edge_ids(self@.edges)
    }

    /// The graph identity.
    pub fn graph_id(&self) -> (r: &str)
        ensures
            r@ == self@.graph_id,
    {
        self.graph_id.as_str()
    }

    /// The nodes, sorted by identity.
    pub fn nodes(&self) -> (r: &[NodeDefinition])
        ensures
            node_views(r@) == self@.nodes,
    {
        self.nodes.as_slice()
    }

    /// The edges, sorted by identity.
    pub fn edges(&self) -> (r: &[EdgeDescriptor])
        ensures
            edge_views(r@) == self@.edges,
    {
        self.edges.as_slice()
    }

    /// The deterministic topological order, ties broken by identity.
    pub fn topological_order(&self) -> (r: &[String])
        ensures
            string_views(r@) == self@.topological_order,
    {
        self.topological_order.as_slice()
    }

    /// One node by identity.
    pub fn node(&self, node_id: &str) -> (r: Option<&NodeDefinition>)
        requires
            self.wf(),
        ensures
            match find_node(self@.nodes, node_id@) {
                Some(i) => r matches Some(n) && n@ == self@.nodes[i],
                None => r is None,
            },
    {
        let found = self.node_ids.find(node_id);
        proof {
            let nodes = self@.nodes;
            match found {
                Some(i) => {
                    assert(nodes[i as int].descriptor.node_id == node_id@);
                    let j = choose|j: int| 0 <= j < nodes.len() && #[trigger] nodes[j].descriptor.node_id == node_id@;
                    assert(self.node_ids@[j] == node_id@);
                },
                None => {
                    if exists|j: int| 0 <= j < nodes.len() && #[trigger] nodes[j].descriptor.node_id == node_id@ {
                        let j = choose|j: int| 0 <= j < nodes.len() && #[trigger] nodes[j].descriptor.node_id == node_id@;
                        assert(self.node_ids@[j] == node_id@);
                    }
                },
            }
        }
        match found {
            Some(i) => {
                proof {
                    assert(self@.nodes[i as int] == self.nodes@[i as int]@);
                }
                Some(&self.nodes[i])
            },
            None => None,
        }
    }

    /// One edge by identity.
    pub fn edge(&self, edge_id: &str) -> (r: Option<&EdgeDescriptor>)
        requires
            self.wf(),
        ensures
            match r {
                Some(e) => e@.edge_id == edge_id@ && self@.edges.contains(e@),
                None => forall|k: int| 0 <= k < self@.edges.len() ==> #[trigger] self@.edges[k].edge_id != edge_id@,
            },
    {
        let found = self.edge_ids.find(edge_id);
        match found {
            Some(i) => {
                proof {
                    assert(self@.edges[i as int] == self.edges@[i as int]@);
                    assert(edge_ids(self@.edges)[i as int] == edge_id@);
                }
                Some(&self.edges[i])
            },
            None => {
                proof {
                    assert forall|k: int| 0 <= k < self@.edges.len() implies #[trigger] self@.edges[k].edge_id != edge_id@ by {
                        assert(edge_ids(self@.edges)[k] == self@.edges[k].edge_id);
                    }
                }
                None
            },
        }
    }

    /// Whether the graph has no nodes.
    pub fn is_empty(&self) -> (r: bool)
        ensures
            r == (self@.nodes.len() == 0),
    {
        self.nodes.len() == 0
    }
}


impl GraphBuilder {
    /// Repeatedly places the ready node with the least identity. Succeeds when
    /// every node is placed; otherwise reports the nodes left on or behind a
    /// cycle, in identity order.
    fn stable_topological_order(&self) -> (r: Result<Vec<String>, GraphBuildError>)
        requires
            self.wf(),
        ensures
            match r {
                Ok(o) => stable_order(node_ids(self@.nodes), self@.edges, string_views(o@))
                    && complete(node_ids(self@.nodes), string_views(o@)),
                Err(e) => exists|order: Seq<Seq<char>>|
                    stable_order(node_ids(self@.nodes), self@.edges, order) && !complete(node_ids(self@.nodes), order)
                        && e@ == (BuildErrorView::Cycle {
                        node_ids: unplaced_in(node_ids(self@.nodes), order, self@.nodes.len() as int),
                    }),
            },
    {
        let ghost ids = node_ids(self@.nodes);
        let ghost es = self@.edges;
        let n = self.nodes.len();
        let m = self.edges.len();
        let mut from_idx: Vec<usize> = Vec::new();
        let mut to_idx: Vec<usize> = Vec::new();
        let mut k: usize = 0;
        while k < m
            invariant
                self.wf(),
                ids == node_ids(self@.nodes),
                es == self@.edges,
                n == ids.len(),
                m == es.len(),
                0 <= k <= m,
                from_idx@.len() == k,
                to_idx@.len() == k,
                forall|j: int| 0 <= j < k ==> #[trigger] from_idx@[j] < n && ids[from_idx@[j] as int] == es[j].from_node_id,
                forall|j: int| 0 <= j < k ==> #[trigger] to_idx@[j] < n && ids[to_idx@[j] as int] == es[j].to_node_id,
            decreases m - k,
        {
            let e = &self.edges[k];
            proof {
                assert(es[k as int] == e@);
                assert(ids.contains(es[k as int].from_node_id));
                assert(ids.contains(es[k as int].to_node_id));
                let a = choose|a: int| 0 <= a < ids.len() && ids[a] == es[k as int].from_node_id;
                let b = choose|b: int| 0 <= b < ids.len() && ids[b] == es[k as int].to_node_id;
                assert(self@.nodes[a].descriptor.node_id == es[k as int].from_node_id);
                assert(self@.nodes[b].descriptor.node_id == es[k as int].to_node_id);
            }
            let a = match self.node_index(e.from_node_id()) {
                Some(a) => a,
                None => 0,
            };
            let b = match self.node_index(e.to_node_id()) {
                Some(b) => b,
                None => 0,
            };
            from_idx.push(a);
            to_idx.push(b);
            k = k + 1;
        }
        let mut placed: Vec<bool> = Vec::new();
        let mut p: usize = 0;
        while p < n
            invariant
                0 <= p <= n,
                placed@.len() == p,
                forall|j: int| 0 <= j < p ==> !#[trigger] placed@[j],
            decreases n - p,
        {
            placed.push(false);
            p = p + 1;
        }
        proof {
            assert forall|q: int| 0 <= q <= n implies count_unset(placed@, q) == q by {
                lemma_count_all_unset(placed@, q);
            }
        }
        let mut order: Vec<String> = Vec::new();
        let mut finished = false;
        while !finished
            invariant
                self.wf(),
                ids == node_ids(self@.nodes),
                es == self@.edges,
                sorted_strings(ids),
                n == ids.len(),
                m == es.len(),
                from_idx@.len() == m,
                to_idx@.len() == m,
                forall|j: int| 0 <= j < m ==> #[trigger] from_idx@[j] < n && ids[from_idx@[j] as int] == es[j].from_node_id,
                forall|j: int| 0 <= j < m ==> #[trigger] to_idx@[j] < n && ids[to_idx@[j] as int] == es[j].to_node_id,
                placed@.len() == n,
                forall|i: int| 0 <= i < n ==> (#[trigger] placed@[i] <==> string_views(order@).contains(ids[i])),
                forall|q: int| 0 <= q < string_views(order@).len() ==> (#[trigger] first_ready(ids, es, string_views(order@).take(q)) matches Some(i)
                    && 0 <= i < ids.len() && ids[i] == string_views(order@)[q]),
                order@.len() + count_unset(placed@, n as int) == n,
                finished ==> first_ready(ids, es, string_views(order@)) is None,
            decreases count_unset(placed@, n as int) + if finished { 0int } else { 1int },
        {
            let ghost ov = string_views(order@);
            let mut i: usize = 0;
            let mut done = false;
            while i < n && !done
                invariant
                    ids == node_ids(self@.nodes),
                    es == self@.edges,
                    sorted_strings(ids),
                    n == ids.len(),
                    m == es.len(),
                    ov == string_views(order@),
                    from_idx@.len() == m,
                    to_idx@.len() == m,
                    forall|j: int| 0 <= j < m ==> #[trigger] from_idx@[j] < n && ids[from_idx@[j] as int] == es[j].from_node_id,
                    forall|j: int| 0 <= j < m ==> #[trigger] to_idx@[j] < n && ids[to_idx@[j] as int] == es[j].to_node_id,
                    placed@.len() == n,
                    forall|q: int| 0 <= q < n ==> (#[trigger] placed@[q] <==> ov.contains(ids[q])),
                    0 <= i <= n,
                    !done ==> first_ready_in(ids, es, ov, i as int) is None,
                    done ==> i < n && first_ready_in(ids, es, ov, i + 1) == Some(i as int),
                decreases n - i + if done { 0int } else { 1int },
            {
                if !placed[i] {
                    let mut ok = true;
                    let mut j: usize = 0;
                    while j < m
                        invariant
                            m == es.len(),
                            from_idx@.len() == m,
                            to_idx@.len() == m,
                            placed@.len() == n,
                            0 <= i < n,
                            0 <= j <= m,
                            forall|x: int| 0 <= x < m ==> #[trigger] from_idx@[x] < n,
                            ok == forall|x: int| 0 <= x < j && #[trigger] to_idx@[x] == i ==> placed@[from_idx@[x] as int],
                        decreases m - j,
                    {
                        if to_idx[j] == i && !placed[from_idx[j]] {
                            ok = false;
                        }
                        j = j + 1;
                    }
                    proof {
                        assert(ok == ready(es, ov, ids[i as int])) by {
                            assert forall|x: int| 0 <= x < m implies (#[trigger] es[x].to_node_id == ids[i as int] <==> to_idx@[x] == i) by {
                                if to_idx@[x] != i {
                                    lemma_sorted_distinct(ids, to_idx@[x] as int, i as int);
                                }
                            }
                            assert forall|x: int| 0 <= x < m implies (ov.contains(#[trigger] es[x].from_node_id) <==> placed@[from_idx@[x] as int]) by {
                                assert(ids[from_idx@[x] as int] == es[x].from_node_id);
                            }
                        }
                    }
                    if ok {
                        done = true;
                    } else {
                        i = i + 1;
                    }
                } else {
                    proof {
                        assert(!ready(es, ov, ids[i as int]));
                    }
                    i = i + 1;
                }
            }
            if !done {
                finished = true;
            } else {
                proof {
                    lemma_first_ready_some(ids, es, ov, i + 1);
                    lemma_first_ready_stable(ids, es, ov, i + 1, n as int);
                    lemma_count_unset_set(placed@, i as int, n as int);
                }
                let id = self.nodes[i].descriptor.node_id.clone();
                proof {
                    assert(self@.nodes[i as int] == self.nodes@[i as int]@);
                    assert(id@ == ids[i as int]);
                }
                placed.set(i, true);
                order.push(id);
                proof {
                    let ov2 = string_views(order@);
                    assert(ov2 =~= ov.push(ids[i as int]));
                    assert(ov2.take(ov.len() as int) =~= ov);
                    assert forall|q: int| 0 <= q < ov2.len() implies (#[trigger] first_ready(ids, es, ov2.take(q)) matches Some(x)
                        && 0 <= x < ids.len() && ids[x] == ov2[q]) by {
                        if q < ov.len() {
                            assert(ov2.take(q) =~= ov.take(q));
                        }
                    }
                    assert forall|q: int| 0 <= q < n implies (#[trigger] placed@[q] <==> ov2.contains(ids[q])) by {
                        if q != i {
                            lemma_sorted_distinct(ids, q, i as int);
                            if ov2.contains(ids[q]) {
                                let w = choose|w: int| 0 <= w < ov2.len() && ov2[w] == ids[q];
                                assert(w < ov.len());
                                assert(ov[w] == ids[q]);
                            }
                            if ov.contains(ids[q]) {
                                let w = choose|w: int| 0 <= w < ov.len() && ov[w] == ids[q];
                                assert(ov2[w] == ids[q]);
                            }
                        } else {
                            assert(ov2[ov.len() as int] == ids[q]);
                        }
                    }
                }
            }
        }
        let ghost ov = string_views(order@);
        proof {
            assert(stable_order(ids, es, ov));
        }
        let mut rest: Vec<String> = Vec::new();
        let mut q: usize = 0;
        while q < n
            invariant
                self.wf(),
                ids == node_ids(self@.nodes),
                n == ids.len(),
                ov == string_views(order@),
                es == self@.edges,
                stable_order(ids, es, ov),
                placed@.len() == n,
                forall|i: int| 0 <= i < n ==> (#[trigger] placed@[i] <==> ov.contains(ids[i])),
                0 <= q <= n,
                string_views(rest@) == unplaced_in(ids, ov, q as int),
            decreases n - q,
        {
            if !placed[q] {
                let id = self.nodes[q].descriptor.node_id.clone();
                proof {
                    assert(self@.nodes[q as int] == self.nodes@[q as int]@);
                }
                rest.push(id);
                proof {
                    assert(string_views(rest@) =~= unplaced_in(ids, ov, q as int).push(ids[q as int]));
                }
            }
            q = q + 1;
        }
        if rest.len() == 0 {
            proof {
                assert forall|i: int| 0 <= i < ids.len() implies ov.contains(#[trigger] ids[i]) by {
                    lemma_unplaced_in_missing(ids, ov, n as int, i);
                }
            }
            Ok(order)
        } else {
            proof {
                lemma_unplaced_in_nonempty(ids, ov, n as int);
                let w = choose|w: int| 0 <= w < n && !ov.contains(#[trigger] ids[w]);
                assert(!complete(ids, ov));
            }
            let err = GraphBuildError::Cycle { node_ids: rest };
            proof {
                assert(err@ == (BuildErrorView::Cycle { node_ids: unplaced_in(ids, ov, n as int) }));
                assert(stable_order(ids, es, ov) && !complete(ids, ov) && err@ == (BuildErrorView::Cycle {
                    node_ids: unplaced_in(ids, ov, n as int),
                }));
            }
            Err(err)
        }
    }

    /// Validates acyclicity and returns pure stable graph data.
    pub fn build(self) -> (r: Result<GraphDefinition, GraphBuildError>)
        requires
            self.wf(),
        ensures
            match r {
                Ok(g) => g.wf() && g@.graph_id == self@.graph_id && g@.nodes == self@.nodes && g@.edges == self@.edges
                    && stable_order(node_ids(self@.nodes), self@.edges, g@.topological_order)
                    && complete(node_ids(self@.nodes), g@.topological_order),
                Err(e) => exists|order: Seq<Seq<char>>|
                    stable_order(node_ids(self@.nodes), self@.edges, order) && !complete(node_ids(self@.nodes), order)
                        && e@ == (BuildErrorView::Cycle {
                        node_ids: unplaced_in(node_ids(self@.nodes), order, self@.nodes.len() as int),
                    }),
            },
            r is Ok <==> exists|p: Seq<Seq<char>>| is_topological(node_ids(self@.nodes), self@.edges, p),
            r matches Ok(g) ==> is_topological(node_ids(self@.nodes), self@.edges, g@.topological_order),
            r matches Err(e) ==> (e@ matches BuildErrorView::Cycle { node_ids: c } && c.len() > 0 && sorted_strings(
                c,
            )),
    {
        let ghost ids = node_ids(self@.nodes);
        let ghost es = self@.edges;
        proof {
            assert(self@.nodes.len() == ids.len());
        }
        let order = match self.stable_topological_order() {
            Ok(order) => {
                proof {
                    law_build_succeeds_iff_acyclic(ids, es, string_views(order@));
                }
                order
            },
            Err(e) => {
                proof {
                    let o = choose|o: Seq<Seq<char>>|
                        stable_order(ids, es, o) && !complete(ids, o) && e@ == (BuildErrorView::Cycle {
                            node_ids: unplaced_in(ids, o, self@.nodes.len() as int),
                        });
                    law_build_succeeds_iff_acyclic(ids, es, o);
                }
                return Err(e);
            },
        };
        let GraphBuilder { graph_id, node_ids, nodes, edge_ids, edges } = self;
        Ok(GraphDefinition { graph_id, node_ids, nodes, edge_ids, edges, topological_order: order })
    }
}

proof fn lemma_count_all_unset(flags: Seq<bool>, q: int)
    requires
        0 <= q <= flags.len(),
        forall|j: int| 0 <= j < flags.len() ==> !#[trigger] flags[j],
    ensures
        count_unset(flags, q) == q,
    decreases q,
{
    if q > 0 {
        lemma_count_all_unset(flags, q - 1);
    }
}

proof fn lemma_unplaced_in_missing(ids: Seq<Seq<char>>, order: Seq<Seq<char>>, n: int, i: int)
    requires
        0 <= i < n <= ids.len(),
        unplaced_in(ids, order, n).len() == 0,
    ensures
        order.contains(ids[i]),
    decreases n,
{
    if n - 1 > i {
        if !order.contains(ids[n - 1]) {
            assert(unplaced_in(ids, order, n).len() > 0);
        }
        lemma_unplaced_in_missing(ids, order, n - 1, i);
    } else if !order.contains(ids[i]) {
        assert(unplaced_in(ids, order, n).len() > 0);
    }
}

proof fn lemma_unplaced_in_nonempty(ids: Seq<Seq<char>>, order: Seq<Seq<char>>, n: int)
    requires
        0 <= n <= ids.len(),
        unplaced_in(ids, order, n).len() > 0,
    ensures
        exists|i: int| 0 <= i < n && !order.contains(#[trigger] ids[i]),
    decreases n,
{
    if n > 0 && order.contains(ids[n - 1]) {
        lemma_unplaced_in_nonempty(ids, order, n - 1);
    }
}


/// `p` lists every node, and each edge's target comes after its source.
pub open spec fn is_topological(ids: Seq<Seq<char>>, es: Seq<EdgeView>, p: Seq<Seq<char>>) -> bool {
    &&& complete(ids, p)
    &&& forall|k: int, b: int| 0 <= k < es.len() && 0 <= b < p.len() && #[trigger] p[b] == #[trigger] es[k].to_node_id
        ==> exists|a: int| 0 <= a < b && p[a] == es[k].from_node_id
}

/// Every edge starts and ends at a node.
pub open spec fn edges_within(ids: Seq<Seq<char>>, es: Seq<EdgeView>) -> bool {
    forall|k: int| 0 <= k < es.len() ==> ids.contains(#[trigger] es[k].from_node_id) && ids.contains(es[k].to_node_id)
}

/// The order that the builder computes places each node once, only after the
/// sources of all edges into it, and only nodes of the graph.
pub proof fn law_order_places_sources_first(ids: Seq<Seq<char>>, es: Seq<EdgeView>, order: Seq<Seq<char>>)
    requires
        stable_order(ids, es, order),
    ensures
        forall|q: int| 0 <= q < order.len() ==> ids.contains(#[trigger] order[q]),
        forall|a: int, b: int| 0 <= a < b < order.len() ==> #[trigger] order[a] != #[trigger] order[b],
        forall|k: int, b: int| 0 <= k < es.len() && 0 <= b < order.len() && #[trigger] order[b] == #[trigger] es[k].to_node_id
            ==> exists|a: int| 0 <= a < b && order[a] == es[k].from_node_id,
{
    assert forall|q: int| 0 <= q < order.len() implies ids.contains(#[trigger] order[q]) by {
        let i = first_ready(ids, es, order.take(q)).unwrap();
        assert(ids[i] == order[q]);
    }
    assert forall|a: int, b: int| 0 <= a < b < order.len() implies #[trigger] order[a] != #[trigger] order[b] by {
        assert(first_ready(ids, es, order.take(b)) is Some);
        lemma_first_ready_some(ids, es, order.take(b), ids.len() as int);
        assert(order.take(b)[a] == order[a]);
    }
    assert forall|k: int, b: int| 0 <= k < es.len() && 0 <= b < order.len() && #[trigger] order[b] == #[trigger] es[k].to_node_id
        implies exists|a: int| 0 <= a < b && order[a] == es[k].from_node_id by {
        assert(first_ready(ids, es, order.take(b)) is Some);
        lemma_first_ready_some(ids, es, order.take(b), ids.len() as int);
        let i = first_ready(ids, es, order.take(b)).unwrap();
        assert(ids[i] == order[b]);
        assert(ready(es, order.take(b), ids[i]));
        let placed = order.take(b);
        assert(placed.contains(es[k].from_node_id));
        let a = choose|a: int| 0 <= a < placed.len() && placed[a] == es[k].from_node_id;
        assert(order[a] == es[k].from_node_id);
    }
}

/// A successful build yields a topological order of the graph.
pub proof fn law_complete_order_is_topological(ids: Seq<Seq<char>>, es: Seq<EdgeView>, order: Seq<Seq<char>>)
    requires
        stable_order(ids, es, order),
        complete(ids, order),
    ensures
        is_topological(ids, es, order),
{
    law_order_places_sources_first(ids, es, order);
}

proof fn lemma_first_bad(ids: Seq<Seq<char>>, order: Seq<Seq<char>>, p: Seq<Seq<char>>, b: int) -> (b0: int)
    requires
        0 <= b < p.len(),
        ids.contains(p[b]) && !order.contains(p[b]),
    ensures
        0 <= b0 <= b,
        ids.contains(p[b0]) && !order.contains(p[b0]),
        forall|a: int| 0 <= a < b0 ==> !(ids.contains(#[trigger] p[a]) && !order.contains(p[a])),
    decreases b,
{
    if exists|a: int| 0 <= a < b && ids.contains(#[trigger] p[a]) && !order.contains(p[a]) {
        let a = choose|a: int| 0 <= a < b && ids.contains(#[trigger] p[a]) && !order.contains(p[a]);
        lemma_first_bad(ids, order, p, a)
    } else {
        b
    }
}

/// The builder reports a cycle exactly when the graph has no topological
/// order: if its order leaves nodes out, no order of the nodes puts every
/// edge's source before its target.
pub proof fn law_cycle_means_no_topological_order(
    ids: Seq<Seq<char>>,
    es: Seq<EdgeView>,
    order: Seq<Seq<char>>,
    p: Seq<Seq<char>>,
)
    requires
        edges_within(ids, es),
        stable_order(ids, es, order),
        !complete(ids, order),
    ensures
        !is_topological(ids, es, p),
{
    if is_topological(ids, es, p) {
        let i = choose|i: int| 0 <= i < ids.len() && !order.contains(#[trigger] ids[i]);
        assert(p.contains(ids[i]));
        let b = choose|b: int| 0 <= b < p.len() && p[b] == ids[i];
        let b0 = lemma_first_bad(ids, order, p, b);
        let u = p[b0];
        let j = choose|j: int| 0 <= j < ids.len() && ids[j] == u;
        lemma_first_ready_none(ids, es, order, ids.len() as int);
        assert(!ready(es, order, ids[j]));
        let k = choose|k: int| 0 <= k < es.len() && #[trigger] es[k].to_node_id == u && !order.contains(es[k].from_node_id);
        assert(p[b0] == es[k].to_node_id);
        let a = choose|a: int| 0 <= a < b0 && p[a] == es[k].from_node_id;
        assert(ids.contains(es[k].from_node_id));
        assert(ids.contains(p[a]) && !order.contains(p[a]));
    }
}

/// The order is deterministic: the graph's nodes and edges fix it.
pub proof fn law_order_is_deterministic(ids: Seq<Seq<char>>, es: Seq<EdgeView>, o1: Seq<Seq<char>>, o2: Seq<Seq<char>>)
    requires
        stable_order(ids, es, o1),
        stable_order(ids, es, o2),
    ensures
        o1 == o2,
{
    assert(o1.take(0) =~= o2.take(0));
    lemma_same_prefix(ids, es, o1, o2, 0);
}

proof fn lemma_same_prefix(ids: Seq<Seq<char>>, es: Seq<EdgeView>, o1: Seq<Seq<char>>, o2: Seq<Seq<char>>, k: int)
    requires
        stable_order(ids, es, o1),
        stable_order(ids, es, o2),
        0 <= k <= o1.len(),
        k <= o2.len(),
        o1.take(k) == o2.take(k),
    ensures
        o1 == o2,
    decreases o1.len() + o2.len() - 2 * k,
{
    if k == o1.len() && k == o2.len() {
        assert(o1 =~= o1.take(k));
        assert(o2 =~= o2.take(k));
    } else if k == o1.len() {
        assert(o1 =~= o1.take(k));
        assert(first_ready(ids, es, o2.take(k)) is Some);
    } else if k == o2.len() {
        assert(o2 =~= o2.take(k));
        assert(first_ready(ids, es, o1.take(k)) is Some);
    } else {
        assert(first_ready(ids, es, o1.take(k)) is Some);
        assert(first_ready(ids, es, o2.take(k)) is Some);
        assert(o1.take(k + 1) =~= o1.take(k).push(o1[k]));
        assert(o2.take(k + 1) =~= o2.take(k).push(o2[k]));
        lemma_same_prefix(ids, es, o1, o2, k + 1);
    }
}


/// The text of an endpoint: `node.port`.
pub open spec fn endpoint_text(e: (Seq<char>, Seq<char>)) -> Seq<char> {
    e.0 + "."@ + e.1
}

/// The debug name of a port direction.
pub open spec fn direction_debug(d: PortDirection) -> Seq<char> {
    match d {
        PortDirection::Input => "Input"@,
        PortDirection::Output => "Output"@,
    }
}

/// The debug name of a node kind.
pub open spec fn kind_debug(k: NodeKind) -> Seq<char> {
    match k {
        NodeKind::Source => "Source"@,
        NodeKind::Transform => "Transform"@,
        NodeKind::Sink => "Sink"@,
    }
}

/// The debug name of an endpoint role.
pub open spec fn role_debug(r: EndpointRole) -> Seq<char> {
    match r {
        EndpointRole::Source => "Source"@,
        EndpointRole::Target => "Target"@,
    }
}

/// Node identifiers joined by `, `.
pub open spec fn joined_ids(ids: Seq<Seq<char>>) -> Seq<char>
    decreases ids.len(),
{
    if ids.len() == 0 {
        Seq::empty()
    } else if ids.len() == 1 {
        ids[0]
    } else {
        joined_ids(ids.drop_last()) + ", "@ + ids.last()
    }
}

/// The human-readable text of a graph build error.
pub open spec fn build_error_text(e: BuildErrorView) -> Seq<char> {
    match e {
        BuildErrorView::DuplicateNode { node_id } => "duplicate node `"@ + node_id + "`"@,
        BuildErrorView::DuplicateEdge { edge_id, source, target } => "duplicate edge `"@ + edge_id
            + "` connecting `"@ + endpoint_text(source) + "` to `"@ + endpoint_text(target) + "`"@,
        BuildErrorView::PortNodeMismatch { node_id, port_node_id, port_name } => "node `"@ + node_id
            + "` contains port `"@ + port_name + "` owned by `"@ + port_node_id + "`"@,
        BuildErrorView::DuplicatePort { node_id, port_name, direction } => "node `"@ + node_id
            + "` has duplicate "@ + direction_debug(direction) + " port `"@ + port_name + "`"@,
        BuildErrorView::InvalidNodeKind { node_id, kind, message } => "invalid "@ + kind_debug(kind)
            + " node `"@ + node_id + "`: "@ + message,
        BuildErrorView::ProcessCapabilityMissing { node_id } => "node `"@ + node_id
            + "` does not declare the mandatory process capability"@,
        BuildErrorView::MissingNode { edge_id, role, missing_node_id, source, target } => "edge `"@ + edge_id
            + "` from `"@ + endpoint_text(source) + "` to `"@ + endpoint_text(target) + "` has missing "@
            + role_debug(role) + " node `"@ + missing_node_id + "`"@,
        BuildErrorView::MissingPort { edge_id, role, endpoint, expected_direction, source, target } => "edge `"@
            + edge_id + "` from `"@ + endpoint_text(source) + "` to `"@ + endpoint_text(target)
            + "` has missing "@ + role_debug(role) + " "@ + direction_debug(expected_direction) + " port `"@
            + endpoint_text(endpoint) + "`"@,
        BuildErrorView::DirectionMismatch { edge_id, role, endpoint, expected, actual, source, target } => "edge `"@
            + edge_id + "` from `"@ + endpoint_text(source) + "` to `"@ + endpoint_text(target) + "` uses "@
            + role_debug(role) + " port `"@ + endpoint_text(endpoint) + "` as "@ + direction_debug(expected)
            + ", but it is "@ + direction_debug(actual),
        BuildErrorView::TypeMismatch {
            edge_id,
            source,
            target,
            source_type,
            target_type,
            edge_type,
            suggested_explicit_transform,
        } => "edge `"@ + edge_id + "` from `"@ + endpoint_text(source) + "` ("@ + frame_type_debug(source_type)
            + ") to `"@ + endpoint_text(target) + "` ("@ + frame_type_debug(target_type) + ") declares "@
            + frame_type_debug(edge_type) + "; "@ + suggested_explicit_transform,
        BuildErrorView::ConfigNodeMissing { node_id } => "configuration targets missing node `"@ + node_id
            + "`"@,
        BuildErrorView::FactoryNodeMissing { node_id } => "Factory selection targets missing node `"@ + node_id
            + "`"@,
        BuildErrorView::Cycle { node_ids } => "graph contains a directed cycle involving "@ + joined_ids(
            node_ids,
        ),
    }
}

fn direction_debug_name(d: PortDirection) -> (r: &'static str)
    ensures
        r@ == direction_debug(d),
{
    match d {
        PortDirection::Input => "Input",
        PortDirection::Output => "Output",
    }
}

fn kind_debug_name(k: NodeKind) -> (r: &'static str)
    ensures
        r@ == kind_debug(k),
{
    match k {
        NodeKind::Source => "Source",
        NodeKind::Transform => "Transform",
        NodeKind::Sink => "Sink",
    }
}

fn role_debug_name(r: EndpointRole) -> (t: &'static str)
    ensures
        t@ == role_debug(r),
{
    match r {
        EndpointRole::Source => "Source",
        EndpointRole::Target => "Target",
    }
}

fn push_endpoint(out: &mut String, e: &EdgeEndpoint)
    ensures
        final(out)@ == old(out)@ + endpoint_text(e@),
{
    out.append(e.node_id.as_str());
    out.append(".");
    out.append(e.port_name.as_str());
    proof {
        assert(final(out)@ =~= old(out)@ + endpoint_text(e@));
    }
}

impl GraphBuildError {
    /// The human-readable text of the error.
    pub fn to_display_string(&self) -> (r: String)
        ensures
            r@ == build_error_text(self@),
    {
        let mut out = String::new();
        match self {
            GraphBuildError::DuplicateNode { node_id } => {
                out.append("duplicate node `");
                out.append(node_id.as_str());
                out.append("`");
            },
            GraphBuildError::DuplicateEdge { edge_id, source, target } => {
                out.append("duplicate edge `");
                out.append(edge_id.as_str());
                out.append("` connecting `");
                push_endpoint(&mut out, source);
                out.append("` to `");
                push_endpoint(&mut out, target);
                out.append("`");
            },
            GraphBuildError::PortNodeMismatch { node_id, port_node_id, port_name } => {
                out.append("node `");
                out.append(node_id.as_str());
                out.append("` contains port `");
                out.append(port_name.as_str());
                out.append("` owned by `");
                out.append(port_node_id.as_str());
                out.append("`");
            },
            GraphBuildError::DuplicatePort { node_id, port_name, direction } => {
                out.append("node `");
                out.append(node_id.as_str());
                out.append("` has duplicate ");
                out.append(direction_debug_name(*direction));
                out.append(" port `");
                out.append(port_name.as_str());
                out.append("`");
            },
            GraphBuildError::InvalidNodeKind { node_id, kind, message } => {
                out.append("invalid ");
                out.append(kind_debug_name(*kind));
                out.append(" node `");
                out.append(node_id.as_str());
                out.append("`: ");
                out.append(message.as_str());
            },
            GraphBuildError::ProcessCapabilityMissing { node_id } => {
                out.append("node `");
                out.append(node_id.as_str());
                out.append("` does not declare the mandatory process capability");
            },
            GraphBuildError::MissingNode { edge_id, role, missing_node_id, source, target } => {
                out.append("edge `");
                out.append(edge_id.as_str());
                out.append("` from `");
                push_endpoint(&mut out, source);
                out.append("` to `");
                push_endpoint(&mut out, target);
                out.append("` has missing ");
                out.append(role_debug_name(*role));
                out.append(" node `");
                out.append(missing_node_id.as_str());
                out.append("`");
            },
            GraphBuildError::MissingPort { edge_id, role, endpoint, expected_direction, source, target } => {
                out.append("edge `");
                out.append(edge_id.as_str());
                out.append("` from `");
                push_endpoint(&mut out, source);
                out.append("` to `");
                push_endpoint(&mut out, target);
                out.append("` has missing ");
                out.append(role_debug_name(*role));
                out.append(" ");
                out.append(direction_debug_name(*expected_direction));
                out.append(" port `");
                push_endpoint(&mut out, endpoint);
                out.append("`");
            },
            GraphBuildError::DirectionMismatch { edge_id, role, endpoint, expected, actual, source, target } => {
                out.append("edge `");
                out.append(edge_id.as_str());
                out.append("` from `");
                push_endpoint(&mut out, source);
                out.append("` to `");
                push_endpoint(&mut out, target);
                out.append("` uses ");
                out.append(role_debug_name(*role));
                out.append(" port `");
                push_endpoint(&mut out, endpoint);
                out.append("` as ");
                out.append(direction_debug_name(*expected));
                out.append(", but it is ");
                out.append(direction_debug_name(*actual));
            },
            GraphBuildError::TypeMismatch {
                edge_id,
                source,
                target,
                source_type,
                target_type,
                edge_type,
                suggested_explicit_transform,
            } => {
                out.append("edge `");
                out.append(edge_id.as_str());
                out.append("` from `");
                push_endpoint(&mut out, source);
                out.append("` (");
                out.append(frame_type_debug_name(*source_type));
                out.append(") to `");
                push_endpoint(&mut out, target);
                out.append("` (");
                out.append(frame_type_debug_name(*target_type));
                out.append(") declares ");
                out.append(frame_type_debug_name(*edge_type));
                out.append("; ");
                out.append(suggested_explicit_transform.as_str());
            },
            GraphBuildError::ConfigNodeMissing { node_id } => {
                out.append("configuration targets missing node `");
                out.append(node_id.as_str());
                out.append("`");
            },
            GraphBuildError::FactoryNodeMissing { node_id } => {
                out.append("Factory selection targets missing node `");
                out.append(node_id.as_str());
                out.append("`");
            },
            GraphBuildError::Cycle { node_ids } => {
                out.append("graph contains a directed cycle involving ");
                let ghost ids = string_views(node_ids@);
                let ghost start = out@;
                let mut i: usize = 0;
                while i < node_ids.len()
                    invariant
                        ids == string_views(node_ids@),
                        0 <= i <= node_ids@.len(),
                        out@ == start + joined_ids(ids.take(i as int)),
                    decreases node_ids@.len() - i,
                {
                    if i > 0 {
                        out.append(", ");
                    }
                    out.append(node_ids[i].as_str());
                    proof {
                        assert(ids.take(i + 1).drop_last() =~= ids.take(i as int));
                        assert(ids.take(i + 1).last() == ids[i as int]);
                        if i == 0 {
                            assert(joined_ids(ids.take(0)) =~= Seq::<char>::empty());
                            assert(out@ =~= start + joined_ids(ids.take(1)));
                        } else {
                            assert(out@ =~= start + joined_ids(ids.take(i + 1)));
                        }
                    }
                    i = i + 1;
                }
                proof {
                    assert(ids.take(node_ids@.len() as int) =~= ids);
                }
            },
        }
        proof {
            assert(out@ =~= build_error_text(self@));
        }
        out
    }
}


/// Ports rebound to the node `node_id`.
pub open spec fn rebound_ports(ports: Seq<PortView>, node_id: Seq<char>) -> Seq<PortView> {
    ports.map_values(|p: PortView| PortView { node_id, ..p })
}

/// A descriptor rebound to the graph-local node `node_id`: the same type,
/// kind, port shape and capabilities, with every port owned by that node.
pub open spec fn rebound(d: NodeDescriptorView, node_id: Seq<char>) -> NodeDescriptorView {
    NodeDescriptorView { node_id, ports: rebound_ports(d.ports, node_id), ..d }
}

impl NodeDescriptor {
    /// The same type-level shape for the graph-local node `node_id`.
    pub fn for_node_id(&self, node_id: String) -> (r: NodeDescriptor)
        ensures
            r@ == rebound(self@, node_id@),
    {
        let mut ports: Vec<PortDescriptor> = Vec::new();
        let ghost target = rebound_ports(self@.ports, node_id@);
        let mut i: usize = 0;
        while i < self.ports.len()
            invariant
                target == rebound_ports(self@.ports, node_id@),
                self@.ports == port_views(self.ports@),
                0 <= i <= self.ports@.len(),
                port_views(ports@) == target.take(i as int),
            decreases self.ports@.len() - i,
        {
            let p = &self.ports[i];
            let rebound_port = PortDescriptor {
                node_id: node_id.clone(),
                name: p.name.clone(),
                direction: p.direction,
                frame_type: p.frame_type,
            };
            proof {
                assert(self@.ports[i as int] == p@);
                assert(port_views(ports@.push(rebound_port)) =~= port_views(ports@).push(rebound_port@));
                assert(port_views(ports@.push(rebound_port)) =~= target.take(i + 1));
            }
            ports.push(rebound_port);
            i = i + 1;
        }
        proof {
            assert(target.take(self.ports@.len() as int) =~= target);
        }
        let r = NodeDescriptor {
            node_id,
            node_type: self.node_type.clone(),
            kind: self.kind,
            ports,
            process: self.process,
        };
        proof {
            assert(r@ =~= rebound(self@, r@.node_id));
        }
        r
    }
}

proof fn lemma_first_ready_least(ids: Seq<Seq<char>>, es: Seq<EdgeView>, placed: Seq<Seq<char>>, n: int, j: int)
    requires
        0 <= j < n <= ids.len(),
        ready(es, placed, ids[j]),
    ensures
        first_ready_in(ids, es, placed, n) matches Some(f) && f <= j,
    decreases n,
{
    if j < n - 1 {
        lemma_first_ready_least(ids, es, placed, n - 1, j);
    } else if first_ready_in(ids, es, placed, n - 1) is Some {
        lemma_first_ready_some(ids, es, placed, n - 1);
    }
}

/// A sequence of node identities without repeats.
pub open spec fn distinct_ids(p: Seq<Seq<char>>) -> bool {
    forall|a: int, b: int| 0 <= a < b < p.len() ==> #[trigger] p[a] != #[trigger] p[b]
}

proof fn lemma_prefix_not_longer(order: Seq<Seq<char>>, p: Seq<Seq<char>>, ids: Seq<Seq<char>>)
    requires
        order.len() < p.len(),
        complete(ids, order),
        ids.contains(p[order.len() as int]),
        distinct_ids(p),
    ensures
        p.take(order.len() as int) != order,
{
    let n = order.len() as int;
    let i = choose|i: int| 0 <= i < ids.len() && ids[i] == p[n];
    assert(order.contains(ids[i]));
    let a = choose|a: int| 0 <= a < order.len() && order[a] == ids[i];
    assert(p.take(n)[a] == p[a]);
}

/// The order the builder computes is the least topological order by node
/// identity: any other topological order of the graph's nodes, each node
/// once, first differs from it where it holds a node whose identity sorts
/// after the one the builder placed there.
pub proof fn law_order_is_least(ids: Seq<Seq<char>>, es: Seq<EdgeView>, order: Seq<Seq<char>>, p: Seq<Seq<char>>)
    requires
        sorted_strings(ids),
        stable_order(ids, es, order),
        complete(ids, order),
        is_topological(ids, es, p),
        forall|q: int| 0 <= q < p.len() ==> ids.contains(#[trigger] p[q]),
        distinct_ids(p),
        p != order,
    ensures
        exists|i: int|
            0 <= i < order.len() && i < p.len() && order.take(i) == p.take(i) && crate::bytes_order::lex_lt(
                crate::string_set::utf8(#[trigger] order[i]),
                crate::string_set::utf8(p[i]),
            ),
{
    law_order_places_sources_first(ids, es, order);
    let m = if order.len() < p.len() {
        order.len() as int
    } else {
        p.len() as int
    };
    if forall|i: int| 0 <= i < m ==> #[trigger] order[i] == p[i] {
        if order.len() < p.len() {
            assert(p.take(order.len() as int) =~= order);
            lemma_prefix_not_longer(order, p, ids);
        } else if p.len() < order.len() {
            assert(order.take(p.len() as int) =~= p);
            assert(distinct_ids(order));
            assert(ids.contains(order[p.len() as int]));
            lemma_prefix_not_longer(p, order, ids);
        } else {
            assert(order =~= p);
        }
    } else {
        let i0 = choose|i: int| 0 <= i < m && #[trigger] order[i] != p[i];
        let i = lemma_first_difference(order, p, m, i0);
        let placed = order.take(i);
        assert(placed =~= p.take(i));
        let f = first_ready(ids, es, placed).unwrap();
        lemma_first_ready_some(ids, es, placed, ids.len() as int);
        assert(ids[f] == order[i]);
        let j = choose|j: int| 0 <= j < ids.len() && ids[j] == p[i];
        assert(ready(es, placed, ids[j])) by {
            if placed.contains(ids[j]) {
                let a = choose|a: int| 0 <= a < placed.len() && placed[a] == ids[j];
                assert(p.take(i)[a] == p[a]);
            }
            assert forall|k: int| 0 <= k < es.len() && #[trigger] es[k].to_node_id == ids[j] implies placed.contains(
                es[k].from_node_id,
            ) by {
                assert(p[i] == es[k].to_node_id);
                let a = choose|a: int| 0 <= a < i && p[a] == es[k].from_node_id;
                assert(p.take(i)[a] == p[a]);
            }
        }
        lemma_first_ready_least(ids, es, placed, ids.len() as int, j);
        assert(f != j);
        assert(crate::bytes_order::lex_lt(crate::string_set::utf8(ids[f]), crate::string_set::utf8(ids[j])));
    }
}

proof fn lemma_first_difference(a: Seq<Seq<char>>, b: Seq<Seq<char>>, m: int, i: int) -> (r: int)
    requires
        0 <= i < m,
        m <= a.len(),
        m <= b.len(),
        a[i] != b[i],
    ensures
        0 <= r <= i,
        a[r] != b[r],
        forall|q: int| 0 <= q < r ==> #[trigger] a[q] == b[q],
    decreases i,
{
    if exists|q: int| 0 <= q < i && #[trigger] a[q] != b[q] {
        let q = choose|q: int| 0 <= q < i && #[trigger] a[q] != b[q];
        lemma_first_difference(a, b, m, q)
    } else {
        i
    }
}

/// The unplaced identities of sorted `ids` are sorted, and all come before
/// the identities from `n` on.
proof fn lemma_unplaced_sorted(ids: Seq<Seq<char>>, order: Seq<Seq<char>>, n: int)
    requires
        sorted_strings(ids),
        0 <= n <= ids.len(),
    ensures
        sorted_strings(unplaced_in(ids, order, n)),
        forall|q: int, m: int|
            0 <= q < unplaced_in(ids, order, n).len() && n <= m < ids.len() ==> crate::bytes_order::lex_lt(
                crate::string_set::utf8(#[trigger] unplaced_in(ids, order, n)[q]),
                crate::string_set::utf8(#[trigger] ids[m]),
            ),
    decreases n,
{
    if n > 0 {
        lemma_unplaced_sorted(ids, order, n - 1);
        let u = unplaced_in(ids, order, n - 1);
        if !order.contains(ids[n - 1]) {
            let w = u.push(ids[n - 1]);
            assert(unplaced_in(ids, order, n) == w);
            assert forall|i: int, j: int| 0 <= i < j < w.len() implies crate::bytes_order::lex_lt(
                crate::string_set::utf8(#[trigger] w[i]),
                crate::string_set::utf8(#[trigger] w[j]),
            ) by {
                if j == w.len() - 1 {
                    assert(w[i] == u[i]);
                    assert(crate::bytes_order::lex_lt(crate::string_set::utf8(u[i]), crate::string_set::utf8(ids[n - 1])));
                } else {
                    assert(w[i] == u[i] && w[j] == u[j]);
                }
            }
            assert forall|q: int, m: int| 0 <= q < w.len() && n <= m < ids.len() implies crate::bytes_order::lex_lt(
                crate::string_set::utf8(#[trigger] w[q]),
                crate::string_set::utf8(#[trigger] ids[m]),
            ) by {
                if q == w.len() - 1 {
                    assert(w[q] == ids[n - 1]);
                } else {
                    assert(w[q] == u[q]);
                    assert(crate::bytes_order::lex_lt(crate::string_set::utf8(u[q]), crate::string_set::utf8(ids[m])));
                }
            }
        }
    }
}

/// Building a graph succeeds exactly when its nodes admit a topological
/// order. On success the order is topological and the least such order
/// under node-identity order; on failure the cycle error names the nodes
/// that could not be placed: at least one, in ascending order.
pub proof fn law_build_succeeds_iff_acyclic(ids: Seq<Seq<char>>, es: Seq<EdgeView>, order: Seq<Seq<char>>)
    requires
        sorted_strings(ids),
        edges_within(ids, es),
        stable_order(ids, es, order),
    ensures
        complete(ids, order) <==> exists|p: Seq<Seq<char>>| is_topological(ids, es, p),
        complete(ids, order) ==> is_topological(ids, es, order),
        complete(ids, order) ==> forall|p: Seq<Seq<char>>|
            #![trigger is_topological(ids, es, p)]
            is_topological(ids, es, p) && (forall|q: int| 0 <= q < p.len() ==> ids.contains(#[trigger] p[q]))
                && distinct_ids(p) && p != order ==> exists|i: int|
                0 <= i < order.len() && i < p.len() && order.take(i) == p.take(i) && crate::bytes_order::lex_lt(
                    crate::string_set::utf8(#[trigger] order[i]),
                    crate::string_set::utf8(p[i]),
                ),
        !complete(ids, order) ==> unplaced_in(ids, order, ids.len() as int).len() > 0 && sorted_strings(
            unplaced_in(ids, order, ids.len() as int),
        ),
{
    if complete(ids, order) {
        law_complete_order_is_topological(ids, es, order);
        assert forall|p: Seq<Seq<char>>|
            #![trigger is_topological(ids, es, p)]
            is_topological(ids, es, p) && (forall|q: int| 0 <= q < p.len() ==> ids.contains(#[trigger] p[q]))
                && distinct_ids(p) && p != order implies exists|i: int|
                0 <= i < order.len() && i < p.len() && order.take(i) == p.take(i) && crate::bytes_order::lex_lt(
                    crate::string_set::utf8(#[trigger] order[i]),
                    crate::string_set::utf8(p[i]),
                ) by {
            law_order_is_least(ids, es, order, p);
        }
    } else {
        assert forall|p: Seq<Seq<char>>| !is_topological(ids, es, p) by {
            law_cycle_means_no_topological_order(ids, es, order, p);
        }
        let i = choose|i: int| 0 <= i < ids.len() && !order.contains(#[trigger] ids[i]);
        if unplaced_in(ids, order, ids.len() as int).len() == 0 {
            lemma_unplaced_in_missing(ids, order, ids.len() as int, i);
        }
        lemma_unplaced_sorted(ids, order, ids.len() as int);
    }
}

/// What the first exact port among the first `n` is.
proof fn lemma_first_exact_found(ports: Seq<PortView>, name: Seq<char>, dir: PortDirection, n: int)
    ensures
        first_exact(ports, name, dir, n) matches Some(k) ==> 0 <= k < n && ports[k].name == name
            && ports[k].direction == dir,
    decreases n,
{
    if n > 0 {
        lemma_first_exact_found(ports, name, dir, n - 1);
    }
}

/// No port among the first `n` has a problem when none is reported.
proof fn lemma_no_port_problems(d: NodeDescriptorView, n: int)
    requires
        first_port_problem(d, n) is None,
    ensures
        forall|i: int| 0 <= i < n ==> #[trigger] port_problem(d, i) is None,
    decreases n,
{
    if n > 0 {
        lemma_no_port_problems(d, n - 1);
    }
}

/// In a descriptor without problems, name and direction identify a port,
/// and the port lookup finds it.
proof fn lemma_port_found(d: NodeDescriptorView, p: int, e: EdgeView, role: EndpointRole)
    requires
        descriptor_problem(d) is None,
        0 <= p < d.ports.len(),
    ensures
        port_check(d.ports, d.ports[p].name, d.ports[p].direction, e, role) == Ok::<PortView, BuildErrorView>(
            d.ports[p],
        ),
{
    let name = d.ports[p].name;
    let dir = d.ports[p].direction;
    let n = d.ports.len() as int;
    lemma_no_port_problems(d, n);
    if first_exact(d.ports, name, dir, n) is None {
        lemma_first_exact_none(d.ports, name, dir, n);
        assert(!(d.ports[p].name == name && d.ports[p].direction == dir));
    }
    lemma_first_exact_found(d.ports, name, dir, n);
    let k = first_exact(d.ports, name, dir, n).unwrap();
    if k != p {
        let hi = if k < p { p } else { k };
        let lo = if k < p { k } else { p };
        assert(port_problem(d, hi) is None);
        assert(d.ports[lo].direction == d.ports[hi].direction && d.ports[lo].name == d.ports[hi].name);
        assert(false);
    }
}

/// In nodes with distinct identities, the lookup of a node's identity
/// finds that node.
proof fn lemma_node_found(nodes: Seq<NodeDefinitionView>, i: int)
    requires
        sorted_strings(node_ids(nodes)),
        0 <= i < nodes.len(),
    ensures
        find_node(nodes, nodes[i].descriptor.node_id) == Some(i),
{
    let id = nodes[i].descriptor.node_id;
    assert(node_ids(nodes)[i] == id);
    let j = choose|j: int| 0 <= j < nodes.len() && #[trigger] nodes[j].descriptor.node_id == id;
    if j != i {
        assert(node_ids(nodes)[j] == id);
        lemma_sorted_distinct(node_ids(nodes), i, j);
    }
}

/// An accepted edge joins an output port of its source node and an input
/// port of its target node, both named by the edge and both carrying
/// exactly the edge's frame type.
pub proof fn law_accepted_edge_is_exactly_typed(nodes: Seq<NodeDefinitionView>, e: EdgeView)
    requires
        edge_problem(nodes, e) is None,
    ensures
        exists|i: int, p: int|
            0 <= i < nodes.len() && 0 <= p < nodes[i].descriptor.ports.len() && nodes[i].descriptor.node_id
                == e.from_node_id && #[trigger] nodes[i].descriptor.ports[p] == (PortView {
                node_id: nodes[i].descriptor.ports[p].node_id,
                name: e.from_output_port,
                direction: PortDirection::Output,
                frame_type: e.frame_type,
            }),
        exists|j: int, q: int|
            0 <= j < nodes.len() && 0 <= q < nodes[j].descriptor.ports.len() && nodes[j].descriptor.node_id
                == e.to_node_id && #[trigger] nodes[j].descriptor.ports[q] == (PortView {
                node_id: nodes[j].descriptor.ports[q].node_id,
                name: e.to_input_port,
                direction: PortDirection::Input,
                frame_type: e.frame_type,
            }),
{
    let si = find_node(nodes, e.from_node_id).unwrap();
    let ti = find_node(nodes, e.to_node_id).unwrap();
    let sports = nodes[si].descriptor.ports;
    let tports = nodes[ti].descriptor.ports;
    lemma_first_exact_found(sports, e.from_output_port, PortDirection::Output, sports.len() as int);
    lemma_first_exact_found(tports, e.to_input_port, PortDirection::Input, tports.len() as int);
    let p = first_exact(sports, e.from_output_port, PortDirection::Output, sports.len() as int).unwrap();
    let q = first_exact(tports, e.to_input_port, PortDirection::Input, tports.len() as int).unwrap();
    assert(nodes[si].descriptor.ports[p] == (PortView {
        node_id: nodes[si].descriptor.ports[p].node_id,
        name: e.from_output_port,
        direction: PortDirection::Output,
        frame_type: e.frame_type,
    }));
    assert(nodes[ti].descriptor.ports[q] == (PortView {
        node_id: nodes[ti].descriptor.ports[q].node_id,
        name: e.to_input_port,
        direction: PortDirection::Input,
        frame_type: e.frame_type,
    }));
}

/// Among well-formed nodes, an edge between an existing output port and an
/// existing input port is accepted exactly when the source port, the target
/// port and the edge all carry the same frame type; otherwise it is a type
/// mismatch that reports the two ports' types and the edge's.
pub proof fn law_edge_types_must_agree(nodes: Seq<NodeDefinitionView>, e: EdgeView, i: int, p: int, j: int, q: int)
    requires
        sorted_strings(node_ids(nodes)),
        forall|n: int| 0 <= n < nodes.len() ==> descriptor_problem(#[trigger] nodes[n].descriptor) is None,
        0 <= i < nodes.len(),
        0 <= j < nodes.len(),
        nodes[i].descriptor.node_id == e.from_node_id,
        nodes[j].descriptor.node_id == e.to_node_id,
        0 <= p < nodes[i].descriptor.ports.len(),
        0 <= q < nodes[j].descriptor.ports.len(),
        nodes[i].descriptor.ports[p].name == e.from_output_port,
        nodes[i].descriptor.ports[p].direction == PortDirection::Output,
        nodes[j].descriptor.ports[q].name == e.to_input_port,
        nodes[j].descriptor.ports[q].direction == PortDirection::Input,
    ensures
        edge_problem(nodes, e) is None <==> (nodes[i].descriptor.ports[p].frame_type == e.frame_type
            && nodes[j].descriptor.ports[q].frame_type == e.frame_type),
        edge_problem(nodes, e) is Some ==> (edge_problem(nodes, e) matches Some(
            BuildErrorView::TypeMismatch { source_type, target_type, edge_type, .. },
        ) && source_type == nodes[i].descriptor.ports[p].frame_type && target_type
            == nodes[j].descriptor.ports[q].frame_type && edge_type == e.frame_type),
{
    lemma_node_found(nodes, i);
    lemma_node_found(nodes, j);
    assert(descriptor_problem(nodes[i].descriptor) is None);
    assert(descriptor_problem(nodes[j].descriptor) is None);
    lemma_port_found(nodes[i].descriptor, p, e, EndpointRole::Source);
    lemma_port_found(nodes[j].descriptor, q, e, EndpointRole::Target);
}

} // verus!
