//! Turning a project node manifest into a factory registration, and checking
//! that a compiled native node pack matches the manifest it was built from.
use vstd::prelude::*;

use crate::graph::{port_views, FrameType, NodeDescriptor, NodeDescriptorView, NodeKind, PortDescriptor, PortDirection, PortView};
use crate::node_package::{first_port_problem, package_problem, problem_views, NodePackage, NodePackageManifest, NodePortManifest};
use crate::node_registry::{NodeRegistration, RegistrationView};
pub use crate::providers::parse_frame_type;
use crate::providers::frame_type_named;
use crate::registry::{str_equal, version_check, version_error_message, NodeFactoryVersion, NodeLanguage};

verus! {

/// The error for a frame type word that names no frame type.
pub open spec fn unsupported_frame_type(t: Seq<char>) -> Seq<char> {
    "unsupported Frame type `"@ + t + "`"@
}

/// The node kind a manifest names by its lowercase word.
pub open spec fn kind_named(k: Seq<char>) -> Option<NodeKind> {
    if k == "source"@ {
        Some(NodeKind::Source)
    } else if k == "transform"@ {
        Some(NodeKind::Transform)
    } else if k == "sink"@ {
        Some(NodeKind::Sink)
    } else {
        None
    }
}

/// Reads a manifest's node kind word.
pub fn parse_node_kind(value: &str) -> (r: Option<NodeKind>)
    ensures
        r == kind_named(value@),
{
    if str_equal(value, "source") {
        Some(NodeKind::Source)
    } else if str_equal(value, "transform") {
        Some(NodeKind::Transform)
    } else if str_equal(value, "sink") {
        Some(NodeKind::Sink)
    } else {
        None
    }
}

/// The port direction a manifest names by its lowercase word.
pub open spec fn direction_named(d: Seq<char>) -> Option<PortDirection> {
    if d == "input"@ {
        Some(PortDirection::Input)
    } else if d == "output"@ {
        Some(PortDirection::Output)
    } else {
        None
    }
}

/// Reads a manifest's port direction word.
pub fn parse_port_direction(value: &str) -> (r: Option<PortDirection>)
    ensures
        r == direction_named(value@),
{
    if str_equal(value, "input") {
        Some(PortDirection::Input)
    } else if str_equal(value, "output") {
        Some(PortDirection::Output)
    } else {
        None
    }
}

/// The node identity of the template descriptor of a node type.
pub open spec fn template_id(node_type: Seq<char>) -> Seq<char> {
    "template-"@ + node_type
}

/// Returns the node identity of the template descriptor of a node type.
pub fn template_node_id(node_type: &str) -> (r: String)
    ensures
        r@ == template_id(node_type@),
{
    let mut text = "template-".to_owned();
    text.append(node_type);
    text
}

/// The port that a manifest port becomes on the template node.
pub open spec fn manifest_port(node_type: Seq<char>, p: NodePortManifest) -> PortView {
    PortView {
        node_id: template_id(node_type),
        name: p.name@,
        direction: direction_named(p.direction@)->0,
        frame_type: frame_type_named(p.frame_type@)->0,
    }
}

/// Why a manifest port cannot become a port: the problem of its name, if the
/// name has one, then its direction, then its frame type.
pub open spec fn manifest_port_problem(p: NodePortManifest, name_problem: Option<Seq<char>>) -> Option<Seq<char>> {
    if name_problem is Some {
        name_problem
    } else if direction_named(p.direction@) is None {
        Some("invalid project Port direction"@)
    } else if frame_type_named(p.frame_type@) is None {
        Some(unsupported_frame_type(p.frame_type@))
    } else {
        None
    }
}

/// The first problem among the first `n` manifest ports.
pub open spec fn first_manifest_port_problem(
    ports: Seq<NodePortManifest>,
    name_problems: Seq<Option<Seq<char>>>,
    n: int,
) -> Option<Seq<char>>
    decreases n,
{
    if n <= 0 {
        None
    } else {
        match first_manifest_port_problem(ports, name_problems, n - 1) {
            Some(m) => Some(m),
            None => manifest_port_problem(ports[n - 1], name_problems[n - 1]),
        }
    }
}

/// Why a Python node manifest cannot be registered, checked in this order:
/// the template identity, each port (its name, direction and frame type),
/// the kind, the node type, the configuration schema and the factory
/// version. `template_problem`, `port_name_problems`, `node_type_problem`
/// and `schema_problem` are what the runtime's validators say of the
/// template identity, of each port name, of the node type and of the
/// configuration schema.
pub open spec fn python_registration_problem(
    m: NodePackageManifest,
    template_problem: Option<Seq<char>>,
    port_name_problems: Seq<Option<Seq<char>>>,
    node_type_problem: Option<Seq<char>>,
    schema_problem: Option<Seq<char>>,
) -> Option<Seq<char>> {
    if template_problem is Some {
        template_problem
    } else if first_manifest_port_problem(m.ports@, port_name_problems, m.ports@.len() as int) is Some {
        first_manifest_port_problem(m.ports@, port_name_problems, m.ports@.len() as int)
    } else if kind_named(m.kind@) is None {
        Some("invalid project Node kind"@)
    } else if node_type_problem is Some {
        node_type_problem
    } else if schema_problem is Some {
        schema_problem
    } else if version_check(m.factory_version@) is Some {
        Some(version_error_message(version_check(m.factory_version@)->0))
    } else {
        None
    }
}

/// The template descriptor of a Python node manifest: every lifecycle hook,
/// the manifest's ports in order, all owned by the template node.
pub open spec fn python_descriptor(m: NodePackageManifest) -> NodeDescriptorView {
    NodeDescriptorView {
        node_id: template_id(m.node_type@),
        node_type: m.node_type@,
        kind: kind_named(m.kind@)->0,
        ports: m.ports@.map_values(|p: NodePortManifest| manifest_port(m.node_type@, p)),
        process: true,
    }
}

proof fn lemma_first_problem_stable(
    ports: Seq<NodePortManifest>,
    names: Seq<Option<Seq<char>>>,
    m: int,
    n: int,
)
    requires
        0 <= m <= n,
        first_manifest_port_problem(ports, names, m) is Some,
    ensures
        first_manifest_port_problem(ports, names, n) == first_manifest_port_problem(ports, names, m),
    decreases n - m,
{
    if m < n {
        lemma_first_problem_stable(ports, names, m, n - 1);
    }
}

/// The template ports of a manifest, or the first port problem.
fn manifest_ports(
    node_type: &str,
    ports: &[NodePortManifest],
    name_problems: &[Option<String>],
) -> (r: Result<Vec<PortDescriptor>, String>)
    requires
        name_problems@.len() == ports@.len(),
    ensures
        match first_manifest_port_problem(ports@, problem_views(name_problems@), ports@.len() as int) {
            Some(e) => r matches Err(s) && s@ == e,
            None => r matches Ok(v) && port_views(v@) == ports@.map_values(
                |p: NodePortManifest| manifest_port(node_type@, p),
            ),
        },
{
    let ghost names = problem_views(name_problems@);
    let mut out: Vec<PortDescriptor> = Vec::new();
    let mut i: usize = 0;
    while i < ports.len()
        invariant
            names == problem_views(name_problems@),
            name_problems@.len() == ports@.len(),
            0 <= i <= ports@.len(),
            first_manifest_port_problem(ports@, names, i as int) is None,
            port_views(out@) == ports@.subrange(0, i as int).map_values(
                |p: NodePortManifest| manifest_port(node_type@, p),
            ),
        decreases ports@.len() - i,
    {
        let port = &ports[i];
        proof {
            assert(names[i as int] == match name_problems@[i as int] {
                Some(s) => Some(s@),
                None => None::<Seq<char>>,
            });
        }
        match &name_problems[i] {
            Some(e) => {
                proof {
                    lemma_first_problem_stable(ports@, names, i + 1, ports@.len() as int);
                }
                return Err(e.clone());
            },
            None => {},
        }
        let direction = match parse_port_direction(port.direction.as_str()) {
            Some(d) => d,
            None => {
                proof {
                    lemma_first_problem_stable(ports@, names, i + 1, ports@.len() as int);
                }
                return Err("invalid project Port direction".to_owned());
            },
        };
        let frame_type = match parse_frame_type(port.frame_type.as_str()) {
            Ok(t) => t,
            Err(e) => {
                proof {
                    lemma_first_problem_stable(ports@, names, i + 1, ports@.len() as int);
                }
                return Err(e);
            },
        };
        let descriptor = PortDescriptor::new(template_node_id(node_type), port.name.clone(), direction, frame_type);
        assert(descriptor@ == manifest_port(node_type@, ports@[i as int]));
        let ghost before = out@;
        out.push(descriptor);
        proof {
            assert(port_views(out@) =~= port_views(before).push(manifest_port(node_type@, ports@[i as int])));
            assert(ports@.subrange(0, i + 1) == ports@.subrange(0, i as int).push(ports@[i as int]));
            assert(port_views(out@) =~= ports@.subrange(0, i + 1).map_values(
                |p: NodePortManifest| manifest_port(node_type@, p),
            ));
        }
        i = i + 1;
    }
    proof {
        assert(ports@.subrange(0, ports@.len() as int) == ports@);
    }
    Ok(out)
}

/// Registers a Python node manifest with `factory` as its factory (see
/// `python_registration_problem` for when it is refused, and
/// `python_descriptor` for the descriptor it gets).
pub fn python_registration<F>(
    manifest: &NodePackageManifest,
    factory: F,
    template_problem: Option<String>,
    port_name_problems: &[Option<String>],
    node_type_problem: Option<String>,
    schema_problem: Option<String>,
) -> (r: Result<NodeRegistration<F>, String>)
    requires
        port_name_problems@.len() == manifest.ports@.len(),
    ensures
        match python_registration_problem(
            *manifest,
            match template_problem {
                Some(s) => Some(s@),
                None => None,
            },
            problem_views(port_name_problems@),
            match node_type_problem {
                Some(s) => Some(s@),
                None => None,
            },
            match schema_problem {
                Some(s) => Some(s@),
                None => None,
            },
        ) {
            Some(e) => r matches Err(s) && s@ == e,
            None => r matches Ok(reg) && reg@ == (RegistrationView {
                language: NodeLanguage::Python,
                descriptor: python_descriptor(*manifest),
                version: manifest.factory_version@,
                factory,
            }),
        },
{
    match template_problem {
        Some(e) => {
            return Err(e);
        },
        None => {},
    }
    let node_type = manifest.node_type.as_str();
    let ports = match manifest_ports(node_type, manifest.ports.as_slice(), port_name_problems) {
        Ok(p) => p,
        Err(e) => {
            return Err(e);
        },
    };
    let kind = match parse_node_kind(manifest.kind.as_str()) {
        Some(k) => k,
        None => {
            return Err("invalid project Node kind".to_owned());
        },
    };
    match node_type_problem {
        Some(e) => {
            return Err(e);
        },
        None => {},
    }
    match schema_problem {
        Some(e) => {
            return Err(e);
        },
        None => {},
    }
    let version = match NodeFactoryVersion::new(manifest.factory_version.clone()) {
        Ok(v) => v,
        Err(e) => {
            return Err(e.message().to_owned());
        },
    };
    let descriptor = NodeDescriptor::new(template_node_id(node_type), manifest.node_type.clone(), kind, ports, true);
    Ok(NodeRegistration::new(NodeLanguage::Python, descriptor, version, factory))
}

/// The name of the first output port among the first `n` manifest ports.
pub open spec fn first_output(ports: Seq<NodePortManifest>, n: int) -> Option<Seq<char>>
    decreases n,
{
    if n <= 0 {
        None
    } else {
        match first_output(ports, n - 1) {
            Some(name) => Some(name),
            None => if ports[n - 1].direction@ == "output"@ {
                Some(ports[n - 1].name@)
            } else {
                None
            },
        }
    }
}

/// The port a Python node emits on when its code names none: the first
/// output port the manifest declares.
pub fn default_output(manifest: &NodePackageManifest) -> (r: Option<String>)
    ensures
        match first_output(manifest.ports@, manifest.ports@.len() as int) {
            Some(name) => r matches Some(s) && s@ == name,
            None => r is None,
        },
{
    let mut i: usize = 0;
    while i < manifest.ports.len()
        invariant
            0 <= i <= manifest.ports@.len(),
            first_output(manifest.ports@, i as int) is None,
        decreases manifest.ports@.len() - i,
    {
        if str_equal(manifest.ports[i].direction.as_str(), "output") {
            proof {
                lemma_first_output_stable(manifest.ports@, i + 1, manifest.ports@.len() as int);
            }
            return Some(manifest.ports[i].name.clone());
        }
        i = i + 1;
    }
    None
}

proof fn lemma_first_output_stable(ports: Seq<NodePortManifest>, m: int, n: int)
    requires
        0 <= m <= n,
        first_output(ports, m) is Some,
    ensures
        first_output(ports, n) == first_output(ports, m),
    decreases n - m,
{
    if m < n {
        lemma_first_output_stable(ports, m, n - 1);
    }
}

/// The error for a native pack whose port shape differs from its manifest.
pub open spec fn cpp_shape_mismatch(package_id: Seq<char>) -> Seq<char> {
    "C++ artifact Port shape does not match Manifest `"@ + package_id + "`"@
}

/// Why a native pack's port `actual` does not match manifest port
/// `expected`: an unknown direction word, then the name and direction, then
/// the frame type word, then the frame type.
pub open spec fn cpp_port_problem(package_id: Seq<char>, actual: PortView, expected: NodePortManifest) -> Option<Seq<char>> {
    match direction_named(expected.direction@) {
        None => Some("invalid C++ Port direction"@),
        Some(d) => if actual.name != expected.name@ || actual.direction != d {
            Some(cpp_shape_mismatch(package_id))
        } else {
            match frame_type_named(expected.frame_type@) {
                None => Some(unsupported_frame_type(expected.frame_type@)),
                Some(t) => if actual.frame_type != t {
                    Some(cpp_shape_mismatch(package_id))
                } else {
                    None
                },
            }
        },
    }
}

/// The first port problem among the first `n` ports, paired in order.
pub open spec fn first_cpp_port_problem(
    package_id: Seq<char>,
    actual: Seq<PortView>,
    expected: Seq<NodePortManifest>,
    n: int,
) -> Option<Seq<char>>
    decreases n,
{
    if n <= 0 {
        None
    } else {
        match first_cpp_port_problem(package_id, actual, expected, n - 1) {
            Some(m) => Some(m),
            None => cpp_port_problem(package_id, actual[n - 1], expected[n - 1]),
        }
    }
}

/// Why a native pack's registration `r` does not match manifest `m`, given
/// `canonical`, the canonical form of the pack's node type: an unknown kind
/// word, then a version that differs for the same node type, then any
/// difference of language, node type, version, kind or port count, then the
/// first port that differs.
pub open spec fn cpp_registration_problem<F>(
    m: NodePackageManifest,
    r: RegistrationView<F>,
    canonical: Seq<char>,
) -> Option<Seq<char>> {
    match kind_named(m.kind@) {
        None => Some("invalid C++ Node kind"@),
        Some(k) => if canonical == m.node_type@ && r.version != m.factory_version@ {
            Some(
                "C++ artifact `"@ + m.package_id@ + "` is version "@ + r.version + ", but its Manifest requires "@
                    + m.factory_version@ + "; rebuild the Node pack"@,
            )
        } else if r.language != NodeLanguage::Cpp || canonical != m.node_type@ || r.version != m.factory_version@
            || r.descriptor.kind != k || r.descriptor.ports.len() != m.ports@.len() {
            Some("C++ artifact identity does not match Manifest `"@ + m.package_id@ + "`"@)
        } else {
            first_cpp_port_problem(m.package_id@, r.descriptor.ports, m.ports@, m.ports@.len() as int)
        },
    }
}

proof fn lemma_first_cpp_stable(
    id: Seq<char>,
    actual: Seq<PortView>,
    expected: Seq<NodePortManifest>,
    m: int,
    n: int,
)
    requires
        0 <= m <= n,
        first_cpp_port_problem(id, actual, expected, m) is Some,
    ensures
        first_cpp_port_problem(id, actual, expected, n) == first_cpp_port_problem(id, actual, expected, m),
    decreases n - m,
{
    if m < n {
        lemma_first_cpp_stable(id, actual, expected, m, n - 1);
    }
}

fn shape_mismatch(package_id: &str) -> (r: Result<(), String>)
    ensures
        r matches Err(s) && s@ == cpp_shape_mismatch(package_id@),
{
    let mut text = "C++ artifact Port shape does not match Manifest `".to_owned();
    text.append(package_id);
    text.append("`");
    Err(text)
}

/// Checks that a loaded native pack registration matches its manifest (see
/// `cpp_registration_problem`). `canonical_node_type` is the canonical form
/// of the pack's node type as the graph document format writes it.
pub fn validate_cpp_registration<F>(
    manifest: &NodePackageManifest,
    registration: &NodeRegistration<F>,
    canonical_node_type: &str,
) -> (r: Result<(), String>)
    ensures
        match cpp_registration_problem(*manifest, registration@, canonical_node_type@) {
            Some(e) => r matches Err(s) && s@ == e,
            None => r is Ok,
        },
{
    let expected_kind = match parse_node_kind(manifest.kind.as_str()) {
        Some(k) => k,
        None => {
            return Err("invalid C++ Node kind".to_owned());
        },
    };
    let descriptor = registration.descriptor();
    let version = registration.version().as_str();
    let same_type = str_equal(canonical_node_type, manifest.node_type.as_str());
    let same_version = str_equal(version, manifest.factory_version.as_str());
    if same_type && !same_version {
        let mut text = "C++ artifact `".to_owned();
        text.append(manifest.package_id.as_str());
        text.append("` is version ");
        text.append(version);
        text.append(", but its Manifest requires ");
        text.append(manifest.factory_version.as_str());
        text.append("; rebuild the Node pack");
        return Err(text);
    }
    let ports = descriptor.ports();
    if registration.language() != NodeLanguage::Cpp || !same_type || !same_version || descriptor.kind()
        != expected_kind || ports.len() != manifest.ports.len() {
        let mut text = "C++ artifact identity does not match Manifest `".to_owned();
        text.append(manifest.package_id.as_str());
        text.append("`");
        return Err(text);
    }
    let ghost actual = registration@.descriptor.ports;
    let ghost id = manifest.package_id@;
    assert(cpp_registration_problem(*manifest, registration@, canonical_node_type@) == first_cpp_port_problem(
        id,
        actual,
        manifest.ports@,
        manifest.ports@.len() as int,
    ));
    let mut i: usize = 0;
    while i < ports.len()
        invariant
            cpp_registration_problem(*manifest, registration@, canonical_node_type@) == first_cpp_port_problem(
                id,
                actual,
                manifest.ports@,
                manifest.ports@.len() as int,
            ),
            actual == registration@.descriptor.ports,
            id == manifest.package_id@,
            port_views(ports@) == actual,
            ports@.len() == manifest.ports@.len(),
            0 <= i <= ports@.len(),
            first_cpp_port_problem(id, actual, manifest.ports@, i as int) is None,
        decreases ports@.len() - i,
    {
        let port = &ports[i];
        let expected = &manifest.ports[i];
        assert(port@ == actual[i as int]);
        let direction = match parse_port_direction(expected.direction.as_str()) {
            Some(d) => d,
            None => {
                proof {
                    lemma_first_cpp_stable(id, actual, manifest.ports@, i + 1, ports@.len() as int);
                }
                return Err("invalid C++ Port direction".to_owned());
            },
        };
        if !str_equal(port.name(), expected.name.as_str()) || port.direction() != direction {
            proof {
                lemma_first_cpp_stable(id, actual, manifest.ports@, i + 1, ports@.len() as int);
            }
            return shape_mismatch(manifest.package_id.as_str());
        }
        let frame_type = match parse_frame_type(expected.frame_type.as_str()) {
            Ok(t) => t,
            Err(e) => {
                proof {
                    lemma_first_cpp_stable(id, actual, manifest.ports@, i + 1, ports@.len() as int);
                }
                return Err(e);
            },
        };
        if port.frame_type() != frame_type {
            proof {
                lemma_first_cpp_stable(id, actual, manifest.ports@, i + 1, ports@.len() as int);
            }
            return shape_mismatch(manifest.package_id.as_str());
        }
        i = i + 1;
    }
    Ok(())
}

proof fn lemma_valid_ports_convert(ports: Seq<NodePortManifest>, names: Seq<Option<Seq<char>>>, n: int)
    requires
        0 <= n <= ports.len(),
        n <= names.len(),
        first_port_problem(ports, names, n) is None,
    ensures
        first_manifest_port_problem(ports, names, n) is None,
    decreases n,
{
    if n > 0 {
        lemma_valid_ports_convert(ports, names, n - 1);
    }
}

/// Every package that passes validation registers as a Python node: the
/// directions, frame types, kind and version that validation accepts are
/// the ones registration reads, provided the runtime accepts the template
/// identity and the configuration schema as it accepted the node type and
/// port names.
pub proof fn law_valid_package_registers(p: NodePackage, port_name_problems: Seq<Option<Seq<char>>>)
    requires
        port_name_problems.len() == p.manifest.ports@.len(),
        package_problem(p, None, port_name_problems) is None,
    ensures
        python_registration_problem(p.manifest, None, port_name_problems, None, None) is None,
{
    lemma_valid_ports_convert(p.manifest.ports@, port_name_problems, p.manifest.ports@.len() as int);
}

} // verus!
