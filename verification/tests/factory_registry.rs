use voxa::graph::{FrameType, GraphBuildError, GraphBuilder, NodeDescriptor, NodeKind, PortDescriptor, PortDirection};
use voxa::node_registry::{EdgePolicyRegistration, EdgePolicyRegistry, NodeRegistration, NodeRegistry, RegistryError};
use voxa::registry::{NodeFactoryVersion, NodeLanguage};
use voxa::value::ValueMap;

const NODE_TYPE: &str = "test.counting-source";

fn version(value: &str) -> NodeFactoryVersion {
    NodeFactoryVersion::new(value.to_owned()).unwrap()
}

fn descriptor() -> NodeDescriptor {
    let template_id = "registry-template".to_owned();
    NodeDescriptor::new(
        template_id.clone(),
        NODE_TYPE.to_owned(),
        NodeKind::Source,
        vec![PortDescriptor::new(template_id, "output".to_owned(), PortDirection::Output, FrameType::Text)],
        true,
    )
}

fn registration(factory_version: &str) -> NodeRegistration<&'static str> {
    NodeRegistration::new(NodeLanguage::Rust, descriptor(), version(factory_version), "counting")
}

#[test]
fn exact_versions_coexist_and_duplicates_are_rejected() {
    let mut registry = NodeRegistry::new();
    registry.register(registration("1.0.0")).unwrap();
    registry.register(registration("2.0.0")).unwrap();

    assert_eq!(registry.entries().len(), 2);
    assert_eq!(
        registry
            .resolve(NODE_TYPE, NodeLanguage::Rust, &version("2.0.0"))
            .unwrap()
            .version()
            .as_str(),
        "2.0.0"
    );
    assert!(matches!(
        registry.register(registration("1.0.0")),
        Err(RegistryError::DuplicateNode { version, .. }) if version.as_str() == "1.0.0"
    ));
}

#[test]
fn registration_rebinds_descriptor_and_creates_a_runnable_node() {
    let mut registry = NodeRegistry::new();
    registry.register(registration("1.0.0")).unwrap();

    let actual_id = "source-1".to_owned();
    let registration = registry.resolve(NODE_TYPE, NodeLanguage::Rust, &version("1.0.0")).unwrap();
    let actual_descriptor = registration.descriptor_for(actual_id.clone());
    assert_eq!(actual_descriptor.node_id(), actual_id);
    assert_eq!(actual_descriptor.ports()[0].node_id(), actual_id);

    let mut builder = GraphBuilder::new();
    builder.add_node(actual_descriptor).unwrap();
    builder.set_config(&actual_id, ValueMap::empty()).unwrap();
    let graph = builder.build().unwrap();
    assert_eq!(graph.topological_order(), ["source-1".to_owned()]);
    assert_eq!(*registration.factory(), "counting");
}

#[test]
fn invalid_descriptor_is_rejected_before_it_enters_the_registry() {
    let invalid = NodeDescriptor::new(
        "invalid-template".to_owned(),
        NODE_TYPE.to_owned(),
        NodeKind::Source,
        Vec::new(),
        false,
    );
    let mut registry = NodeRegistry::new();
    let error = registry
        .register(NodeRegistration::new(NodeLanguage::Rust, invalid, version("1.0.0"), "counting"))
        .unwrap_err();
    assert!(matches!(
        &error,
        RegistryError::InvalidNodeDescriptor { source, .. }
            if matches!(source, GraphBuildError::ProcessCapabilityMissing { .. })
    ));
    assert_eq!(registry.entries().len(), 0);
    assert_eq!(
        error.to_display_string(),
        "invalid node factory descriptor `test.counting-source`: node `invalid-template` does not declare the mandatory process capability"
    );
}

#[test]
fn registry_orders_identities_and_reports_unknown_ones() {
    let mut registry = NodeRegistry::new();
    registry.register(NodeRegistration::new(NodeLanguage::Python, descriptor(), version("1.0.0"), "py")).unwrap();
    registry.register(registration("2.0.0")).unwrap();
    registry.register(registration("10.0.0")).unwrap();
    let order: Vec<(NodeLanguage, String)> = registry
        .entries()
        .iter()
        .map(|r| (r.language(), r.version().as_str().to_owned()))
        .collect();
    assert_eq!(
        order,
        vec![
            (NodeLanguage::Rust, "10.0.0".to_owned()),
            (NodeLanguage::Rust, "2.0.0".to_owned()),
            (NodeLanguage::Python, "1.0.0".to_owned()),
        ]
    );
    let missing = registry.resolve(NODE_TYPE, NodeLanguage::Cpp, &version("1.0.0")).unwrap_err();
    assert_eq!(
        missing.to_display_string(),
        "unknown Cpp node factory `test.counting-source` version `1.0.0`"
    );
    let rebound = registry
        .descriptor_for(NODE_TYPE, NodeLanguage::Python, &version("1.0.0"), "node-7".to_owned())
        .unwrap();
    assert_eq!(rebound.node_id(), "node-7");
    assert!(registry.descriptor_for(NODE_TYPE, NodeLanguage::Python, &version("9"), "x".to_owned()).is_err());
}

#[test]
fn edge_policies_are_registered_once_by_name() {
    let mut policies = EdgePolicyRegistry::new();
    let policy = |name: &str| EdgePolicyRegistration {
        policy: name.to_owned(),
        version: "1".to_owned(),
        supported_frame_types: vec![FrameType::Audio],
    };
    policies.register(policy("vad")).unwrap();
    policies.register(policy("drop")).unwrap();
    assert_eq!(policies.entries()[0].policy, "drop");
    assert!(matches!(policies.register(policy("vad")), Err(RegistryError::DuplicatePolicy { .. })));
    assert_eq!(policies.resolve("vad").unwrap().supported_frame_types, vec![FrameType::Audio]);
    let unknown = policies.resolve("none").unwrap_err();
    assert_eq!(unknown.to_display_string(), "unknown Edge policy `none`");
    let duplicate = RegistryError::DuplicateNode {
        node_type: "t".to_owned(),
        language: NodeLanguage::TypeScript,
        version: version("1"),
    };
    assert_eq!(duplicate.to_display_string(), "duplicate TypeScript node factory `t` version `1`");
}

#[test]
fn graph_errors_read_as_sentences() {
    let mut builder = GraphBuilder::new();
    builder.add_node(descriptor()).unwrap();
    let error = builder.add_node(descriptor()).unwrap_err();
    assert_eq!(error.to_display_string(), "duplicate node `registry-template`");
    let cycle = GraphBuildError::Cycle { node_ids: vec!["a".to_owned(), "b".to_owned()] };
    assert_eq!(cycle.to_display_string(), "graph contains a directed cycle involving a, b");
}
