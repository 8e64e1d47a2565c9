//! Node factories that a JavaScript host declares: reading a declaration
//! into a typed factory specification and registering it as a TypeScript
//! node.
use vstd::prelude::*;

use crate::graph::{port_views, string_views, FrameType, NodeDescriptor, NodeDescriptorView, NodeKind, PortDescriptor, PortDirection, PortView};
use crate::node_package::problem_views;
use crate::node_registry::NodeRegistration;
use crate::package_registration::{direction_named, kind_named, parse_node_kind, parse_port_direction, template_id, template_node_id};
use crate::registry::{str_equal, version_check, version_error_message, NodeFactoryVersion, NodeLanguage};

verus! {

/// A node factory as the JavaScript host declares it. Without `ports_json`
/// the factory has one text input and one text output port.
#[derive(Clone, Debug)]
pub struct GraphFactorySpec {
    pub node_type: String,
    pub version: String,
    pub input_port: String,
    pub output_port: String,
    pub kind: Option<String>,
    pub ports_json: Option<String>,
    pub config_schema_json: Option<String>,
}

/// One port of a declaration, as the host writes it.
#[derive(Clone, Debug)]
pub struct FactoryPortDocument {
    pub name: String,
    pub direction: String,
    pub frame_type: String,
}

/// A checked factory port.
#[derive(Clone, Debug)]
pub struct FactoryPort {
    pub name: String,
    pub direction: PortDirection,
    pub frame_type: FrameType,
}

/// A checked factory declaration.
#[derive(Clone, Debug)]
pub struct FactorySpec {
    pub node_type: String,
    pub version: NodeFactoryVersion,
    pub kind: NodeKind,
    pub ports: Vec<FactoryPort>,
}

/// The data of a checked port.
pub open spec fn port_data(p: FactoryPort) -> (Seq<char>, PortDirection, FrameType) {
    (p.name@, p.direction, p.frame_type)
}

/// The data of checked ports.
pub open spec fn ports_data(ps: Seq<FactoryPort>) -> Seq<(Seq<char>, PortDirection, FrameType)> {
    ps.map_values(|p: FactoryPort| port_data(p))
}

/// The node kind a declaration names; a declaration without one is a
/// transform.
pub open spec fn declared_kind(kind: Option<Seq<char>>) -> Option<NodeKind> {
    match kind {
        None => Some(NodeKind::Transform),
        Some(k) => kind_named(k),
    }
}

/// Reads the kind of a declaration.
pub fn parse_factory_kind(kind: Option<&str>) -> (r: Result<NodeKind, String>)
    ensures
        match declared_kind(
            match kind {
                Some(k) => Some(k@),
                None => None,
            },
        ) {
            Some(k) => r == Ok::<NodeKind, String>(k),
            None => r matches Err(e) && e@ == "kind must be source, transform, or sink"@,
        },
{
    match kind {
        None => Ok(NodeKind::Transform),
        Some(k) => match parse_node_kind(k) {
            Some(kind) => Ok(kind),
            None => Err("kind must be source, transform, or sink".to_owned()),
        },
    }
}

/// The frame types a declared port may carry, by their lowercase word.
pub open spec fn port_frame_type_named(t: Seq<char>) -> Option<FrameType> {
    if t == "audio"@ {
        Some(FrameType::Audio)
    } else if t == "video"@ {
        Some(FrameType::Video)
    } else if t == "text"@ {
        Some(FrameType::Text)
    } else if t == "byte"@ {
        Some(FrameType::Byte)
    } else {
        None
    }
}

/// Why a declared port is refused: its direction word, then its frame type
/// word, then the problem of its name if the name has one.
pub open spec fn port_document_problem(d: FactoryPortDocument, name_problem: Option<Seq<char>>) -> Option<Seq<char>> {
    if direction_named(d.direction@) is None {
        Some("port direction must be input or output"@)
    } else if port_frame_type_named(d.frame_type@) is None {
        Some("port frameType must be audio, video, text, or byte"@)
    } else {
        name_problem
    }
}

/// The checked port of a declared port that has no problem.
pub open spec fn document_port(d: FactoryPortDocument) -> (Seq<char>, PortDirection, FrameType) {
    (d.name@, direction_named(d.direction@)->0, port_frame_type_named(d.frame_type@)->0)
}

/// Checks one declared port; `name_problem` is what the runtime's port-name
/// validation says of its name.
pub fn parse_port(document: FactoryPortDocument, name_problem: Option<String>) -> (r: Result<FactoryPort, String>)
    ensures
        match port_document_problem(
            document,
            match name_problem {
                Some(s) => Some(s@),
                None => None,
            },
        ) {
            Some(e) => r matches Err(s) && s@ == e,
            None => r matches Ok(p) && port_data(p) == document_port(document),
        },
{
    let direction = match parse_port_direction(document.direction.as_str()) {
        Some(d) => d,
        None => {
            return Err("port direction must be input or output".to_owned());
        },
    };
    let t = document.frame_type.as_str();
    let frame_type = if str_equal(t, "audio") {
        FrameType::Audio
    } else if str_equal(t, "video") {
        FrameType::Video
    } else if str_equal(t, "text") {
        FrameType::Text
    } else if str_equal(t, "byte") {
        FrameType::Byte
    } else {
        return Err("port frameType must be audio, video, text, or byte".to_owned());
    };
    match name_problem {
        Some(e) => Err(e),
        None => Ok(FactoryPort { name: document.name, direction, frame_type }),
    }
}

/// The first problem among the first `n` declared ports.
pub open spec fn first_document_problem(
    ds: Seq<FactoryPortDocument>,
    names: Seq<Option<Seq<char>>>,
    n: int,
) -> Option<Seq<char>>
    decreases n,
{
    if n <= 0 {
        None
    } else {
        match first_document_problem(ds, names, n - 1) {
            Some(m) => Some(m),
            None => port_document_problem(ds[n - 1], names[n - 1]),
        }
    }
}

/// Why the ports of a declaration are refused. `decoded` is the outcome of
/// reading `ports_json` as a list of declared ports when the declaration has
/// it; `names` is what the runtime's port-name validation says of each
/// declared port name, or of the input and then the output port name when
/// there is no `ports_json`.
pub open spec fn ports_problem(
    decoded: Option<Result<Seq<FactoryPortDocument>, Seq<char>>>,
    names: Seq<Option<Seq<char>>>,
) -> Option<Seq<char>> {
    match decoded {
        Some(Err(e)) => Some(e),
        Some(Ok(ds)) => first_document_problem(ds, names, ds.len() as int),
        None => if names[0] is Some {
            names[0]
        } else {
            names[1]
        },
    }
}

/// The checked ports of a declaration without a port problem.
pub open spec fn declared_ports(
    spec: GraphFactorySpec,
    decoded: Option<Result<Seq<FactoryPortDocument>, Seq<char>>>,
) -> Seq<(Seq<char>, PortDirection, FrameType)> {
    match decoded {
        Some(Ok(ds)) => ds.map_values(|d: FactoryPortDocument| document_port(d)),
        _ => seq![
            (spec.input_port@, PortDirection::Input, FrameType::Text),
            (spec.output_port@, PortDirection::Output, FrameType::Text),
        ],
    }
}

/// Why a declaration is refused, checked in this order: the kind, the ports,
/// reading the configuration schema as JSON, the node type, the factory
/// version, and turning the schema into configuration values.
/// `schema_json_problem`, `node_type_problem` and `schema_value_problem` are
/// what the JSON reader, the runtime's node-type validation and its
/// configuration conversion say.
pub open spec fn factory_spec_problem(
    spec: GraphFactorySpec,
    decoded: Option<Result<Seq<FactoryPortDocument>, Seq<char>>>,
    names: Seq<Option<Seq<char>>>,
    schema_json_problem: Option<Seq<char>>,
    node_type_problem: Option<Seq<char>>,
    schema_value_problem: Option<Seq<char>>,
) -> Option<Seq<char>> {
    if declared_kind(
        match spec.kind {
            Some(k) => Some(k@),
            None => None,
        },
    ) is None {
        Some("kind must be source, transform, or sink"@)
    } else if ports_problem(decoded, names) is Some {
        ports_problem(decoded, names)
    } else if schema_json_problem is Some {
        schema_json_problem
    } else if node_type_problem is Some {
        node_type_problem
    } else if version_check(spec.version@) is Some {
        Some(version_error_message(version_check(spec.version@)->0))
    } else {
        schema_value_problem
    }
}

/// The views of the outcome of reading `ports_json`.
pub open spec fn decoded_view(
    decoded: Option<Result<Vec<FactoryPortDocument>, String>>,
) -> Option<Result<Seq<FactoryPortDocument>, Seq<char>>> {
    match decoded {
        Some(Ok(v)) => Some(Ok(v@)),
        Some(Err(e)) => Some(Err(e@)),
        None => None,
    }
}

/// The view of an optional text.
pub open spec fn text_option(t: Option<String>) -> Option<Seq<char>> {
    match t {
        Some(s) => Some(s@),
        None => None,
    }
}

proof fn lemma_first_document_stable(
    ds: Seq<FactoryPortDocument>,
    names: Seq<Option<Seq<char>>>,
    m: int,
    n: int,
)
    requires
        0 <= m <= n,
        first_document_problem(ds, names, m) is Some,
    ensures
        first_document_problem(ds, names, n) == first_document_problem(ds, names, m),
    decreases n - m,
{
    if m < n {
        lemma_first_document_stable(ds, names, m, n - 1);
    }
}

fn parse_ports(documents: Vec<FactoryPortDocument>, names: &[Option<String>]) -> (r: Result<Vec<FactoryPort>, String>)
    requires
        names@.len() == documents@.len(),
    ensures
        match first_document_problem(documents@, problem_views(names@), documents@.len() as int) {
            Some(e) => r matches Err(s) && s@ == e,
            None => r matches Ok(ps) && ports_data(ps@) == documents@.map_values(
                |d: FactoryPortDocument| document_port(d),
            ),
        },
{
    let ghost ds = documents@;
    let ghost views = problem_views(names@);
    let n = documents.len();
    let mut rest = documents;
    let mut out: Vec<FactoryPort> = Vec::new();
    let mut i: usize = 0;
    while i < n
        invariant
            n == ds.len(),
            ds == documents@,
            ds.len() == names@.len(),
            views == problem_views(names@),
            0 <= i <= ds.len(),
            rest@ == ds.subrange(i as int, ds.len() as int),
            first_document_problem(ds, views, i as int) is None,
            ports_data(out@) == ds.subrange(0, i as int).map_values(|d: FactoryPortDocument| document_port(d)),
        decreases ds.len() - i,
    {
        let document = rest.remove(0);
        assert(document == ds[i as int]);
        assert(rest@ =~= ds.subrange(i + 1, ds.len() as int));
        let name_problem = match &names[i] {
            Some(e) => Some(e.clone()),
            None => None,
        };
        proof {
            assert(views[i as int] == text_option(names@[i as int]));
            assert(text_option(name_problem) == views[i as int]);
        }
        match parse_port(document, name_problem) {
            Ok(p) => {
                let ghost before = out@;
                out.push(p);
                proof {
                    assert(ds.subrange(0, i + 1) == ds.subrange(0, i as int).push(ds[i as int]));
                    assert(ports_data(out@) =~= ports_data(before).push(document_port(ds[i as int])));
                }
            },
            Err(e) => {
                proof {
                    assert(port_document_problem(ds[i as int], views[i as int]) == Some(e@));
                    assert(first_document_problem(ds, views, i + 1) == Some(e@));
                    lemma_first_document_stable(ds, views, i + 1, ds.len() as int);
                }
                return Err(e);
            },
        }
        i = i + 1;
    }
    proof {
        assert(ds.subrange(0, ds.len() as int) == ds);
    }
    Ok(out)
}

/// Checks a declaration (see `factory_spec_problem` for when it is refused
/// and `declared_ports` for the ports it gets). `decoded_ports` is the
/// outcome of reading `ports_json` as a list of declared ports, present
/// exactly when the declaration has `ports_json`; `port_name_problems` is
/// what the runtime's port-name validation says of each declared port name,
/// or of the input and then the output port name without `ports_json`.
pub fn parse_spec(
    spec: GraphFactorySpec,
    decoded_ports: Option<Result<Vec<FactoryPortDocument>, String>>,
    port_name_problems: &[Option<String>],
    schema_json_problem: Option<String>,
    node_type_problem: Option<String>,
    schema_value_problem: Option<String>,
) -> (r: Result<FactorySpec, String>)
    requires
        decoded_ports is Some == spec.ports_json is Some,
        match decoded_ports {
            Some(Ok(ds)) => port_name_problems@.len() == ds@.len(),
            Some(Err(_)) => true,
            None => port_name_problems@.len() == 2,
        },
    ensures
        match factory_spec_problem(
            spec,
            decoded_view(decoded_ports),
            problem_views(port_name_problems@),
            text_option(schema_json_problem),
            text_option(node_type_problem),
            text_option(schema_value_problem),
        ) {
            Some(e) => r matches Err(s) && s@ == e,
            None => r matches Ok(f) && f.node_type@ == spec.node_type@ && f.version@ == spec.version@ && Some(f.kind)
                == declared_kind(text_option(spec.kind)) && ports_data(f.ports@) == declared_ports(
                spec,
                decoded_view(decoded_ports),
            ),
        },
{
    let kind_text: Option<&str> = match &spec.kind {
        Some(k) => Some(k.as_str()),
        None => None,
    };
    let kind = match parse_factory_kind(kind_text) {
        Ok(k) => k,
        Err(e) => {
            return Err(e);
        },
    };
    let ghost names = problem_views(port_name_problems@);
    let ports = match decoded_ports {
        Some(Err(e)) => {
            return Err(e);
        },
        Some(Ok(documents)) => match parse_ports(documents, port_name_problems) {
            Ok(p) => p,
            Err(e) => {
                return Err(e);
            },
        },
        None => {
            proof {
                assert(names[0] == text_option(port_name_problems@[0]));
                assert(names[1] == text_option(port_name_problems@[1]));
            }
            match &port_name_problems[0] {
                Some(e) => {
                    return Err(e.clone());
                },
                None => {},
            }
            match &port_name_problems[1] {
                Some(e) => {
                    return Err(e.clone());
                },
                None => {},
            }
            let mut defaults: Vec<FactoryPort> = Vec::new();
            defaults.push(FactoryPort { name: spec.input_port.clone(), direction: PortDirection::Input, frame_type: FrameType::Text });
            defaults.push(FactoryPort { name: spec.output_port.clone(), direction: PortDirection::Output, frame_type: FrameType::Text });
            proof {
                assert(ports_data(defaults@) =~= declared_ports(spec, None));
            }
            defaults
        },
    };
    match schema_json_problem {
        Some(e) => {
            return Err(e);
        },
        None => {},
    }
    match node_type_problem {
        Some(e) => {
            return Err(e);
        },
        None => {},
    }
    let version = match NodeFactoryVersion::new(spec.version) {
        Ok(v) => v,
        Err(e) => {
            return Err(e.message().to_owned());
        },
    };
    match schema_value_problem {
        Some(e) => {
            return Err(e);
        },
        None => {},
    }
    Ok(FactorySpec { node_type: spec.node_type, version, kind, ports })
}

/// The factory that a TypeScript registration hands to the runtime: the
/// host callback, the `node_type@version` key it is called with, the node
/// type, and the names of the output ports in declaration order.
#[derive(Clone, Debug)]
pub struct TypeScriptConstructor<C> {
    pub callback: C,
    pub factory_key: String,
    pub node_type: String,
    pub output_ports: Vec<String>,
}

/// The names of the output ports among checked ports, in order.
pub open spec fn output_names(ps: Seq<(Seq<char>, PortDirection, FrameType)>) -> Seq<Seq<char>>
    decreases ps.len(),
{
    if ps.len() == 0 {
        Seq::empty()
    } else {
        let rest = output_names(ps.drop_last());
        if ps.last().1 == PortDirection::Output {
            rest.push(ps.last().0)
        } else {
            rest
        }
    }
}

/// The template descriptor of a checked declaration: every lifecycle hook,
/// the declared ports in order, all owned by the template node.
pub open spec fn factory_descriptor(node_type: Seq<char>, kind: NodeKind, ps: Seq<(Seq<char>, PortDirection, FrameType)>) -> NodeDescriptorView {
    NodeDescriptorView {
        node_id: template_id(node_type),
        node_type,
        kind,
        ports: ps.map_values(
            |p: (Seq<char>, PortDirection, FrameType)|
                PortView { node_id: template_id(node_type), name: p.0, direction: p.1, frame_type: p.2 },
        ),
        process: true,
    }
}

/// Registers a checked declaration as a TypeScript node whose factory calls
/// `callback` (see `factory_descriptor`).
pub fn registration<C>(spec: &FactorySpec, callback: C) -> (r: NodeRegistration<TypeScriptConstructor<C>>)
    ensures
        r@.language == NodeLanguage::TypeScript,
        r@.descriptor == factory_descriptor(spec.node_type@, spec.kind, ports_data(spec.ports@)),
        r@.version == spec.version@,
        r@.factory.callback == callback,
        r@.factory.factory_key@ == spec.node_type@ + "@"@ + spec.version@,
        r@.factory.node_type@ == spec.node_type@,
        string_views(r@.factory.output_ports@) == output_names(ports_data(spec.ports@)),
{
    let node_type = spec.node_type.as_str();
    let ghost data = ports_data(spec.ports@);
    let mut ports: Vec<PortDescriptor> = Vec::new();
    let mut outputs: Vec<String> = Vec::new();
    let mut i: usize = 0;
    while i < spec.ports.len()
        invariant
            data == ports_data(spec.ports@),
            0 <= i <= spec.ports@.len(),
            port_views(ports@) == factory_descriptor(node_type@, spec.kind, data.subrange(0, i as int)).ports,
            string_views(outputs@) == output_names(data.subrange(0, i as int)),
        decreases spec.ports@.len() - i,
    {
        let port = &spec.ports[i];
        let ghost before = ports@;
        let ghost outputs_before = outputs@;
        let descriptor = PortDescriptor::new(template_node_id(node_type), port.name.clone(), port.direction, port.frame_type);
        assert(descriptor@ == (PortView {
            node_id: template_id(node_type@),
            name: port.name@,
            direction: port.direction,
            frame_type: port.frame_type,
        }));
        ports.push(descriptor);
        if port.direction == PortDirection::Output {
            outputs.push(port.name.clone());
        }
        proof {
            let next = data.subrange(0, i + 1);
            assert(next.drop_last() == data.subrange(0, i as int));
            assert(next.last() == port_data(*port));
            assert(port_views(ports@) =~= port_views(before).push(descriptor@));
            assert(port_views(ports@) =~= factory_descriptor(node_type@, spec.kind, next).ports);
            assert(string_views(outputs@) =~= output_names(next));
        }
        i = i + 1;
    }
    proof {
        assert(data.subrange(0, spec.ports@.len() as int) == data);
    }
    let mut key = spec.node_type.clone();
    key.append("@");
    key.append(spec.version.as_str());
    let descriptor = NodeDescriptor::new(template_node_id(node_type), spec.node_type.clone(), spec.kind, ports, true);
    let constructor = TypeScriptConstructor {
        callback,
        factory_key: key,
        node_type: spec.node_type.clone(),
        output_ports: outputs,
    };
    NodeRegistration::new(NodeLanguage::TypeScript, descriptor, spec.version.duplicate(), constructor)
}

} // verus!
