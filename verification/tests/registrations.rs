use voxa::factory_spec::{
    parse_factory_kind, parse_port, parse_spec, registration, FactoryPortDocument, GraphFactorySpec,
};
use voxa::graph::{FrameType, NodeKind, PortDirection, PortDescriptor};
use voxa::node_package::{NodePackageManifest, NodePortManifest};
use voxa::node_registry::NodeRegistration;
use voxa::package_registration::{
    default_output, parse_frame_type, parse_node_kind, parse_port_direction, python_registration, template_node_id,
    validate_cpp_registration,
};
use voxa::graph::NodeDescriptor;
use voxa::registry::{NodeFactoryVersion, NodeLanguage};

fn port(name: &str, direction: &str, frame_type: &str) -> NodePortManifest {
    NodePortManifest {
        name: name.to_owned(),
        direction: direction.to_owned(),
        frame_type: frame_type.to_owned(),
        schema_is_object: true,
    }
}

fn manifest(language: &str, ports: Vec<NodePortManifest>) -> NodePackageManifest {
    NodePackageManifest {
        format: "muxiva.node/v1".to_owned(),
        package_id: "echo".to_owned(),
        display_name: "Echo".to_owned(),
        node_type: "project.echo".to_owned(),
        language: language.to_owned(),
        factory_version: "1.0.0".to_owned(),
        kind: "transform".to_owned(),
        entrypoint: "node.py:Echo".to_owned(),
        category: "utility".to_owned(),
        capability: "custom".to_owned(),
        summary: "echoes text".to_owned(),
        provider_id: None,
        connection_id: None,
        documentation: None,
        tags: Vec::new(),
        ports,
        config_schema_is_object: true,
        connection: None,
    }
}

fn echo_ports() -> Vec<NodePortManifest> {
    vec![port("in", "input", "text"), port("out", "output", "text"), port("events", "output", "event")]
}

#[test]
fn manifest_words_name_frame_types_kinds_and_directions() {
    assert_eq!(parse_frame_type("video").unwrap(), FrameType::Video);
    assert_eq!(parse_frame_type("event").unwrap(), FrameType::Event);
    assert_eq!(parse_frame_type("pcm").unwrap_err(), "unsupported Frame type `pcm`");
    assert_eq!(parse_node_kind("sink"), Some(NodeKind::Sink));
    assert_eq!(parse_node_kind("Sink"), None);
    assert_eq!(parse_port_direction("output"), Some(PortDirection::Output));
    assert_eq!(parse_port_direction("both"), None);
    assert_eq!(template_node_id("project.echo"), "template-project.echo");
}

#[test]
fn python_manifest_registers_a_template_descriptor() {
    let m = manifest("python", echo_ports());
    let registration = python_registration(&m, 7u32, None, &[None, None, None], None, None).unwrap();
    assert_eq!(registration.language(), NodeLanguage::Python);
    assert_eq!(registration.version().as_str(), "1.0.0");
    assert_eq!(*registration.factory(), 7);
    let descriptor = registration.descriptor();
    assert_eq!(descriptor.node_id(), "template-project.echo");
    assert_eq!(descriptor.node_type(), "project.echo");
    assert_eq!(descriptor.kind(), NodeKind::Transform);
    assert!(descriptor.process_capable());
    let ports = descriptor.ports();
    assert_eq!(ports.len(), 3);
    assert_eq!(ports[1].node_id(), "template-project.echo");
    assert_eq!(ports[1].name(), "out");
    assert_eq!(ports[1].direction(), PortDirection::Output);
    assert_eq!(ports[2].frame_type(), FrameType::Event);
    assert_eq!(default_output(&m).as_deref(), Some("out"));
    assert_eq!(default_output(&manifest("python", vec![port("in", "input", "text")])), None);
}

#[test]
fn python_registration_reports_the_first_problem_in_order() {
    let bad_port = manifest("python", vec![port("in", "sideways", "text"), port("x", "input", "pcm")]);
    assert_eq!(
        python_registration(&bad_port, (), None, &[None, None], None, None).unwrap_err(),
        "invalid project Port direction"
    );
    let bad_type = manifest("python", vec![port("in", "input", "pcm")]);
    assert_eq!(
        python_registration(&bad_type, (), None, &[None], None, None).unwrap_err(),
        "unsupported Frame type `pcm`"
    );
    let named = manifest("python", vec![port("in", "sideways", "text")]);
    assert_eq!(
        python_registration(&named, (), None, &[Some("bad port name".to_owned())], None, None).unwrap_err(),
        "bad port name"
    );
    assert_eq!(
        python_registration(&named, (), Some("bad template".to_owned()), &[None], None, None).unwrap_err(),
        "bad template"
    );
    let mut bad_kind = manifest("python", echo_ports());
    bad_kind.kind = "filter".to_owned();
    assert_eq!(
        python_registration(&bad_kind, (), None, &[None, None, None], Some("bad type".to_owned()), None).unwrap_err(),
        "invalid project Node kind"
    );
    let m = manifest("python", echo_ports());
    assert_eq!(
        python_registration(&m, (), None, &[None, None, None], Some("bad type".to_owned()), Some("bad schema".to_owned()))
            .unwrap_err(),
        "bad type"
    );
    assert_eq!(
        python_registration(&m, (), None, &[None, None, None], None, Some("bad schema".to_owned())).unwrap_err(),
        "bad schema"
    );
    let mut bad_version = manifest("python", echo_ports());
    bad_version.factory_version = " 1".to_owned();
    assert_eq!(
        python_registration(&bad_version, (), None, &[None, None, None], None, None).unwrap_err(),
        "node factory version must not have leading or trailing whitespace"
    );
}

fn cpp_pack(version: &str, language: NodeLanguage, ports: Vec<PortDescriptor>) -> NodeRegistration<()> {
    NodeRegistration::new(
        language,
        NodeDescriptor::new("pack".to_owned(), "project.echo".to_owned(), NodeKind::Transform, ports, true),
        NodeFactoryVersion::new(version.to_owned()).unwrap(),
        (),
    )
}

fn pack_port(name: &str, direction: PortDirection, frame_type: FrameType) -> PortDescriptor {
    PortDescriptor::new("pack".to_owned(), name.to_owned(), direction, frame_type)
}

#[test]
fn native_pack_must_match_its_manifest() {
    let m = manifest("cpp", vec![port("in", "input", "audio"), port("out", "output", "audio")]);
    let good = vec![
        pack_port("in", PortDirection::Input, FrameType::Audio),
        pack_port("out", PortDirection::Output, FrameType::Audio),
    ];
    assert!(validate_cpp_registration(&m, &cpp_pack("1.0.0", NodeLanguage::Cpp, good.clone()), "project.echo").is_ok());
    assert_eq!(
        validate_cpp_registration(&m, &cpp_pack("0.9.0", NodeLanguage::Cpp, good.clone()), "project.echo").unwrap_err(),
        "C++ artifact `echo` is version 0.9.0, but its Manifest requires 1.0.0; rebuild the Node pack"
    );
    assert_eq!(
        validate_cpp_registration(&m, &cpp_pack("1.0.0", NodeLanguage::Rust, good.clone()), "project.echo").unwrap_err(),
        "C++ artifact identity does not match Manifest `echo`"
    );
    assert_eq!(
        validate_cpp_registration(&m, &cpp_pack("0.9.0", NodeLanguage::Cpp, good.clone()), "project.other").unwrap_err(),
        "C++ artifact identity does not match Manifest `echo`"
    );
    let swapped = vec![
        pack_port("in", PortDirection::Input, FrameType::Video),
        pack_port("out", PortDirection::Output, FrameType::Audio),
    ];
    assert_eq!(
        validate_cpp_registration(&m, &cpp_pack("1.0.0", NodeLanguage::Cpp, swapped), "project.echo").unwrap_err(),
        "C++ artifact Port shape does not match Manifest `echo`"
    );
    let mut odd = m.clone();
    odd.ports[0].direction = "up".to_owned();
    assert_eq!(
        validate_cpp_registration(&odd, &cpp_pack("1.0.0", NodeLanguage::Cpp, good.clone()), "project.echo").unwrap_err(),
        "invalid C++ Port direction"
    );
    let mut kindless = m.clone();
    kindless.kind = "node".to_owned();
    assert_eq!(
        validate_cpp_registration(&kindless, &cpp_pack("1.0.0", NodeLanguage::Cpp, good), "project.echo").unwrap_err(),
        "invalid C++ Node kind"
    );
}

fn spec(kind: Option<&str>, ports_json: Option<&str>) -> GraphFactorySpec {
    GraphFactorySpec {
        node_type: "ts.upper".to_owned(),
        version: "2.1.0".to_owned(),
        input_port: "in".to_owned(),
        output_port: "out".to_owned(),
        kind: kind.map(str::to_owned),
        ports_json: ports_json.map(str::to_owned),
        config_schema_json: None,
    }
}

fn document(name: &str, direction: &str, frame_type: &str) -> FactoryPortDocument {
    FactoryPortDocument { name: name.to_owned(), direction: direction.to_owned(), frame_type: frame_type.to_owned() }
}

#[test]
fn factory_declarations_default_to_a_text_transform() {
    assert_eq!(parse_factory_kind(None).unwrap(), NodeKind::Transform);
    assert_eq!(parse_factory_kind(Some("source")).unwrap(), NodeKind::Source);
    assert_eq!(parse_factory_kind(Some("mixer")).unwrap_err(), "kind must be source, transform, or sink");
    let checked = parse_spec(spec(None, None), None, &[None, None], None, None, None).unwrap();
    assert_eq!(checked.kind, NodeKind::Transform);
    assert_eq!(checked.version.as_str(), "2.1.0");
    assert_eq!(checked.ports.len(), 2);
    assert_eq!(checked.ports[0].name, "in");
    assert_eq!(checked.ports[0].direction, PortDirection::Input);
    assert_eq!(checked.ports[1].frame_type, FrameType::Text);
    let registered = registration(&checked, "callback");
    assert_eq!(registered.language(), NodeLanguage::TypeScript);
    assert_eq!(registered.factory().factory_key, "ts.upper@2.1.0");
    assert_eq!(registered.factory().output_ports, vec!["out".to_owned()]);
    assert_eq!(registered.factory().callback, "callback");
    assert_eq!(registered.descriptor().node_id(), "template-ts.upper");
    assert_eq!(registered.descriptor().ports()[1].node_id(), "template-ts.upper");
}

#[test]
fn factory_declarations_check_each_declared_port() {
    let documents = vec![document("audio", "input", "audio"), document("a", "output", "byte"), document("b", "output", "text")];
    let checked = parse_spec(spec(Some("sink"), Some("[]")), Some(Ok(documents)), &[None, None, None], None, None, None).unwrap();
    assert_eq!(checked.kind, NodeKind::Sink);
    assert_eq!(checked.ports[0].frame_type, FrameType::Audio);
    assert_eq!(registration(&checked, ()).factory().output_ports, vec!["a".to_owned(), "b".to_owned()]);
    assert_eq!(
        parse_port(document("x", "output", "signal"), None).err().unwrap(),
        "port frameType must be audio, video, text, or byte"
    );
    assert_eq!(parse_port(document("x", "across", "text"), None).err().unwrap(), "port direction must be input or output");
    assert_eq!(parse_port(document("x", "input", "text"), Some("bad name".to_owned())).err().unwrap(), "bad name");
    assert_eq!(
        parse_spec(spec(Some("mixer"), Some("[")), Some(Err("bad json".to_owned())), &[], None, None, None).err().unwrap(),
        "kind must be source, transform, or sink"
    );
    assert_eq!(
        parse_spec(spec(None, Some("[")), Some(Err("bad json".to_owned())), &[], None, None, None).err().unwrap(),
        "bad json"
    );
    assert_eq!(
        parse_spec(spec(None, None), None, &[None, Some("bad output".to_owned())], None, None, None).err().unwrap(),
        "bad output"
    );
    assert_eq!(
        parse_spec(spec(None, None), None, &[None, None], Some("schema".to_owned()), Some("type".to_owned()), None)
            .err()
            .unwrap(),
        "schema"
    );
    let mut unversioned = spec(None, None);
    unversioned.version = String::new();
    assert_eq!(
        parse_spec(unversioned, None, &[None, None], None, None, Some("values".to_owned())).err().unwrap(),
        "node factory version must not be empty"
    );
    assert_eq!(
        parse_spec(spec(None, None), None, &[None, None], None, None, Some("values".to_owned())).err().unwrap(),
        "values"
    );
}
