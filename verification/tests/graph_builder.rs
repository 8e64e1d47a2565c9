use voxa::graph::{
    EdgeDescriptor, EndpointRole, FrameType, GraphBuildError, GraphBuilder, NodeDescriptor, NodeFactorySelection,
    NodeKind, PortDescriptor, PortDirection,
};
use voxa::registry::{NodeFactoryVersion, NodeLanguage};
use voxa::value::{Value, ValueMap};

fn descriptor(name: &str, kind: NodeKind, ports: &[(&str, PortDirection)]) -> NodeDescriptor {
    NodeDescriptor::new(
        name.to_owned(),
        format!("test.{name}"),
        kind,
        ports
            .iter()
            .map(|(port, direction)| PortDescriptor::new(name.to_owned(), (*port).to_owned(), *direction, FrameType::Text))
            .collect(),
        true,
    )
}

fn edge(id: &str, from: &str, from_port: &str, to: &str, to_port: &str, frame_type: FrameType) -> EdgeDescriptor {
    EdgeDescriptor::new(
        id.to_owned(),
        from.to_owned(),
        from_port.to_owned(),
        to.to_owned(),
        to_port.to_owned(),
        frame_type,
    )
}

fn transform(name: &str) -> NodeDescriptor {
    descriptor(name, NodeKind::Transform, &[("in", PortDirection::Input), ("out", PortDirection::Output)])
}

#[test]
fn connected_graph_builds_in_topological_order() {
    let mut builder = GraphBuilder::new();
    builder.add_node(descriptor("sink", NodeKind::Sink, &[("in", PortDirection::Input)])).unwrap();
    builder.add_node(descriptor("source", NodeKind::Source, &[("out", PortDirection::Output)])).unwrap();
    builder.add_node(transform("middle")).unwrap();
    builder.connect(edge("b", "middle", "out", "sink", "in", FrameType::Text)).unwrap();
    builder.connect(edge("a", "source", "out", "middle", "in", FrameType::Text)).unwrap();
    let graph = builder.build().unwrap();
    assert_eq!(graph.graph_id(), "graph");
    assert_eq!(graph.topological_order(), ["source", "middle", "sink"]);
    let ids: Vec<&str> = graph.nodes().iter().map(|node| node.descriptor().node_id()).collect();
    assert_eq!(ids, ["middle", "sink", "source"]);
    let edge_ids: Vec<&str> = graph.edges().iter().map(|edge| edge.edge_id()).collect();
    assert_eq!(edge_ids, ["a", "b"]);
    assert!(graph.node("middle").is_some());
    assert!(graph.node("absent").is_none());
    assert_eq!(graph.edge("a").unwrap().to_node_id(), "middle");
    assert!(!graph.is_empty());
}

#[test]
fn ties_are_broken_by_node_identity() {
    let mut builder = GraphBuilder::with_graph_id("ties".to_owned());
    for name in ["c", "a", "b"] {
        builder.add_node(descriptor(name, NodeKind::Source, &[("out", PortDirection::Output)])).unwrap();
    }
    let graph = builder.build().unwrap();
    assert_eq!(graph.topological_order(), ["a", "b", "c"]);
    assert!(GraphBuilder::new().build().unwrap().is_empty());
}

#[test]
fn cycles_are_reported_with_their_nodes() {
    let mut builder = GraphBuilder::new();
    builder.add_node(descriptor("source", NodeKind::Source, &[("out", PortDirection::Output)])).unwrap();
    builder.add_node(transform("x")).unwrap();
    builder.add_node(transform("y")).unwrap();
    builder.connect(edge("xy", "x", "out", "y", "in", FrameType::Text)).unwrap();
    builder.connect(edge("yx", "y", "out", "x", "in", FrameType::Text)).unwrap();
    assert_eq!(
        builder.build().unwrap_err(),
        GraphBuildError::Cycle { node_ids: vec!["x".to_owned(), "y".to_owned()] }
    );
}

#[test]
fn descriptors_are_validated_before_entering_the_graph() {
    let mut builder = GraphBuilder::new();
    let no_process = NodeDescriptor::new("n".to_owned(), "t".to_owned(), NodeKind::Source, Vec::new(), false);
    assert_eq!(
        builder.add_node(no_process),
        Err(GraphBuildError::ProcessCapabilityMissing { node_id: "n".to_owned() })
    );
    let foreign_port = NodeDescriptor::new(
        "n".to_owned(),
        "t".to_owned(),
        NodeKind::Source,
        vec![PortDescriptor::new("m".to_owned(), "out".to_owned(), PortDirection::Output, FrameType::Text)],
        true,
    );
    assert_eq!(
        builder.add_node(foreign_port),
        Err(GraphBuildError::PortNodeMismatch {
            node_id: "n".to_owned(),
            port_node_id: "m".to_owned(),
            port_name: "out".to_owned()
        })
    );
    let repeated = descriptor("n", NodeKind::Transform, &[("p", PortDirection::Output), ("p", PortDirection::Output)]);
    assert_eq!(
        builder.add_node(repeated),
        Err(GraphBuildError::DuplicatePort {
            node_id: "n".to_owned(),
            port_name: "p".to_owned(),
            direction: PortDirection::Output
        })
    );
    let source_with_input = descriptor("n", NodeKind::Source, &[("in", PortDirection::Input)]);
    assert_eq!(
        builder.add_node(source_with_input),
        Err(GraphBuildError::InvalidNodeKind {
            node_id: "n".to_owned(),
            kind: NodeKind::Source,
            message: "Source nodes cannot declare input ports".to_owned()
        })
    );
    let sink_with_output = descriptor("n", NodeKind::Sink, &[("out", PortDirection::Output)]);
    assert_eq!(
        builder.add_node(sink_with_output),
        Err(GraphBuildError::InvalidNodeKind {
            node_id: "n".to_owned(),
            kind: NodeKind::Sink,
            message: "Sink nodes cannot declare output ports".to_owned()
        })
    );
    builder.add_node(transform("n")).unwrap();
    assert_eq!(
        builder.add_node(transform("n")),
        Err(GraphBuildError::DuplicateNode { node_id: "n".to_owned() })
    );
}

#[test]
fn edges_name_existing_ports_of_one_exact_type() {
    let mut builder = GraphBuilder::new();
    builder.add_node(descriptor("source", NodeKind::Source, &[("out", PortDirection::Output)])).unwrap();
    builder.add_node(descriptor("sink", NodeKind::Sink, &[("in", PortDirection::Input)])).unwrap();
    match builder.connect(edge("e", "ghost", "out", "sink", "in", FrameType::Text)) {
        Err(GraphBuildError::MissingNode { role, missing_node_id, .. }) => {
            assert_eq!(role, EndpointRole::Source);
            assert_eq!(missing_node_id, "ghost");
        },
        other => panic!("unexpected {other:?}"),
    }
    match builder.connect(edge("e", "source", "out", "ghost", "in", FrameType::Text)) {
        Err(GraphBuildError::MissingNode { role, .. }) => assert_eq!(role, EndpointRole::Target),
        other => panic!("unexpected {other:?}"),
    }
    match builder.connect(edge("e", "source", "nope", "sink", "in", FrameType::Text)) {
        Err(GraphBuildError::MissingPort { role, expected_direction, .. }) => {
            assert_eq!(role, EndpointRole::Source);
            assert_eq!(expected_direction, PortDirection::Output);
        },
        other => panic!("unexpected {other:?}"),
    }
    match builder.connect(edge("e", "sink", "in", "sink", "in", FrameType::Text)) {
        Err(GraphBuildError::DirectionMismatch { expected, actual, .. }) => {
            assert_eq!(expected, PortDirection::Output);
            assert_eq!(actual, PortDirection::Input);
        },
        other => panic!("unexpected {other:?}"),
    }
    match builder.connect(edge("e", "source", "out", "sink", "in", FrameType::Audio)) {
        Err(GraphBuildError::TypeMismatch { suggested_explicit_transform, edge_type, .. }) => {
            assert_eq!(edge_type, FrameType::Audio);
            assert_eq!(suggested_explicit_transform, "no transform is needed; declare this Edge as exactly Text");
        },
        other => panic!("unexpected {other:?}"),
    }
    builder.connect(edge("e", "source", "out", "sink", "in", FrameType::Text)).unwrap();
    match builder.connect(edge("e", "source", "out", "sink", "in", FrameType::Text)) {
        Err(GraphBuildError::DuplicateEdge { edge_id, .. }) => assert_eq!(edge_id, "e"),
        other => panic!("unexpected {other:?}"),
    }
}

#[test]
fn type_mismatch_suggests_a_transform_between_different_types() {
    let mut builder = GraphBuilder::new();
    builder
        .add_node(NodeDescriptor::new(
            "mic".to_owned(),
            "t".to_owned(),
            NodeKind::Source,
            vec![PortDescriptor::new("mic".to_owned(), "out".to_owned(), PortDirection::Output, FrameType::Audio)],
            true,
        ))
        .unwrap();
    builder.add_node(descriptor("sink", NodeKind::Sink, &[("in", PortDirection::Input)])).unwrap();
    match builder.connect(edge("e", "mic", "out", "sink", "in", FrameType::Audio)) {
        Err(GraphBuildError::TypeMismatch { suggested_explicit_transform, .. }) => {
            assert_eq!(suggested_explicit_transform, "insert an explicit TransformNode converting Audio to Text");
        },
        other => panic!("unexpected {other:?}"),
    }
}

#[test]
fn configuration_and_factories_target_existing_nodes() {
    let mut builder = GraphBuilder::new();
    builder.add_node(transform("n")).unwrap();
    let config = ValueMap::try_from_iter(vec![("model".to_owned(), Value::Integer(1))]).unwrap();
    builder.set_config("n", config).unwrap();
    let missing = ValueMap::empty();
    assert_eq!(
        builder.set_config("m", missing),
        Err(GraphBuildError::ConfigNodeMissing { node_id: "m".to_owned() })
    );
    let version = NodeFactoryVersion::new("1.0.0".to_owned()).unwrap();
    builder.set_factory("n", NodeFactorySelection::new(NodeLanguage::Rust, version.clone())).unwrap();
    assert_eq!(
        builder.set_factory("m", NodeFactorySelection::new(NodeLanguage::Rust, version)),
        Err(GraphBuildError::FactoryNodeMissing { node_id: "m".to_owned() })
    );
    let graph = builder.build().unwrap();
    let node = graph.node("n").unwrap();
    assert_eq!(node.config().len(), 1);
    assert_eq!(node.factory().unwrap().language(), NodeLanguage::Rust);
    assert_eq!(node.factory().unwrap().version().as_str(), "1.0.0");
}
