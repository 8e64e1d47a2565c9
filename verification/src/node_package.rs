//! Project node packages: the manifest a saved node declares and the checks
//! it passes before it is written.
use vstd::prelude::*;

use crate::providers::{
    blank, connection_problem, connection_views, copy_connection, ConnectionView, is_blank, valid_capability, valid_capability_spec, valid_category,
    valid_category_spec, valid_id, valid_package_id, validate_connection, ConnectionManifest,
    ProviderManifest, SaveError,
};
use crate::registry::{str_equal, version_check, version_error_message, NodeFactoryVersion, NodeLanguage, language_name};

verus! {

/// The format tag of a node package manifest.
pub const NODE_FORMAT: &'static str = "muxiva.node/v1";

/// The most bytes of source code a package may hold (512 KiB).
pub const MAX_CODE_BYTES: usize = 524288;

/// The most ports a node may declare.
pub const MAX_PORTS: usize = 64;

/// One port a node declares. `schema_is_object` says whether its schema is
/// a JSON object.
#[derive(Clone, Debug)]
pub struct NodePortManifest {
    pub name: String,
    pub direction: String,
    pub frame_type: String,
    pub schema_is_object: bool,
}

/// What a node package declares. `config_schema_is_object` says whether
/// its configuration schema is a JSON object.
#[derive(Clone, Debug)]
pub struct NodePackageManifest {
    pub format: String,
    pub package_id: String,
    pub display_name: String,
    pub node_type: String,
    pub language: String,
    pub factory_version: String,
    pub kind: String,
    pub entrypoint: String,
    pub category: String,
    pub capability: String,
    pub summary: String,
    pub provider_id: Option<String>,
    pub connection_id: Option<String>,
    pub documentation: Option<String>,
    pub tags: Vec<String>,
    pub ports: Vec<NodePortManifest>,
    pub config_schema_is_object: bool,
    pub connection: Option<ConnectionManifest>,
}

/// A node package: its manifest and source code, where it comes from, and
/// the provider it belongs to.
#[derive(Clone, Debug)]
pub struct NodePackage {
    pub manifest: NodePackageManifest,
    pub code: String,
    pub runtime_available: bool,
    pub origin: String,
    pub editable: bool,
    pub provider_manifest: Option<ProviderManifest>,
    /// The connection the package uses once resolved against its provider.
    pub resolved_connection: Option<ConnectionManifest>,
}

impl NodePackage {
    /// The identity of the connection the package resolved to, if any.
    pub fn resolved_connection_id(&self) -> (r: Option<&str>)
        ensures
            match self.resolved_connection {
                Some(c) => r matches Some(id) && id@ == c.id@,
                None => r is None,
            },
    {
        match &self.resolved_connection {
            Some(c) => Some(c.id.as_str()),
            None => None,
        }
    }
}

/// The number of UTF-8 bytes of a text.
pub open spec fn byte_len(s: Seq<char>) -> nat {
    vstd::utf8::encode_utf8(s).len()
}

/// The frame types a port may carry.
pub open spec fn port_frame_type(t: Seq<char>) -> bool {
    t == "audio"@ || t == "video"@ || t == "text"@ || t == "byte"@ || t == "signal"@ || t == "event"@
}

/// Why port `p` is invalid, given the problem of its name if it has one.
pub open spec fn port_problem(p: NodePortManifest, name_problem: Option<Seq<char>>) -> Option<Seq<char>> {
    match name_problem {
        Some(e) => Some("invalid Port name: "@ + e),
        None => if !(p.direction@ == "input"@ || p.direction@ == "output"@) {
            Some("Port direction must be input or output"@)
        } else if !port_frame_type(p.frame_type@) {
            Some("unsupported Port frame_type `"@ + p.frame_type@ + "`"@)
        } else if !p.schema_is_object {
            Some("Port `"@ + p.name@ + "` schema must be a JSON object"@)
        } else {
            None
        },
    }
}

/// The first problem among the first `n` ports.
pub open spec fn first_port_problem(ports: Seq<NodePortManifest>, name_problems: Seq<Option<Seq<char>>>, n: int) -> Option<Seq<char>>
    decreases n,
{
    if n <= 0 {
        None
    } else {
        match first_port_problem(ports, name_problems, n - 1) {
            Some(m) => Some(m),
            None => port_problem(ports[n - 1], name_problems[n - 1]),
        }
    }
}

/// Why a package is invalid, checked in this order: identifier, display
/// name, node type, factory version, language, kind, category, capability,
/// summary, provider and connection identifiers, connection exclusivity,
/// port count, each port, configuration schema, inline connection, code.
/// `node_type_problem` and `port_name_problems` are what the runtime's name
/// validation says of the node type and of each port name.
pub open spec fn package_problem(
    p: NodePackage,
    node_type_problem: Option<Seq<char>>,
    port_name_problems: Seq<Option<Seq<char>>>,
) -> Option<Seq<char>> {
    let m = p.manifest;
    if !valid_id(m.package_id@) {
        Some("package_id must use 1-64 lowercase letters, digits, '-' or '_'"@)
    } else if blank(m.display_name@) || byte_len(m.display_name@) > 100 {
        Some("display_name must contain 1-100 characters"@)
    } else if node_type_problem is Some {
        Some("invalid node_type: "@ + node_type_problem->0)
    } else if version_check(m.factory_version@) is Some {
        Some("invalid factory_version: "@ + version_error_message(version_check(m.factory_version@)->0))
    } else if forall|l: NodeLanguage| language_name(l) != m.language@ {
        Some("language must be rust, cpp, python, or typescript"@)
    } else if !(m.kind@ == "source"@ || m.kind@ == "transform"@ || m.kind@ == "sink"@) {
        Some("kind must be source, transform, or sink"@)
    } else if !valid_category_spec(m.category@) {
        Some("category must be transport, algorithm, media, control, or utility"@)
    } else if !valid_capability_spec(m.capability@) {
        Some("capability must use lowercase dot-separated identifiers"@)
    } else if byte_len(m.summary@) > 280 {
        Some("summary may contain at most 280 characters"@)
    } else if m.provider_id is Some && !valid_id(m.provider_id->0@) {
        Some("provider_id must be a filesystem-safe identifier"@)
    } else if m.connection_id is Some && !valid_id(m.connection_id->0@) {
        Some("connection_id must be a filesystem-safe identifier"@)
    } else if m.connection_id is Some && m.connection is Some {
        Some("connection_id and inline connection are mutually exclusive"@)
    } else if m.ports@.len() > MAX_PORTS {
        Some("a Node may declare at most 64 Ports"@)
    } else if first_port_problem(m.ports@, port_name_problems, m.ports@.len() as int) is Some {
        first_port_problem(m.ports@, port_name_problems, m.ports@.len() as int)
    } else if !m.config_schema_is_object {
        Some("config_schema must be a JSON object"@)
    } else if m.connection is Some && connection_problem(m.connection->0@) is Some {
        connection_problem(m.connection->0@)
    } else if byte_len(p.code@) == 0 || byte_len(p.code@) > MAX_CODE_BYTES {
        Some("code must contain 1 byte through 512 KiB"@)
    } else {
        None
    }
}

/// The views of optional problem texts.
pub open spec fn problem_views(ps: Seq<Option<String>>) -> Seq<Option<Seq<char>>> {
    ps.map_values(|p: Option<String>| match p {
        Some(s) => Some(s@),
        None => None,
    })
}

fn invalid(message: &str) -> (r: Result<(), SaveError>)
    ensures
        r matches Err(SaveError::Invalid(s)) && s@ == message@,
{
    Err(SaveError::Invalid(message.to_owned()))
}

fn invalid_with(prefix: &str, detail: &str, suffix: &str) -> (r: Result<(), SaveError>)
    ensures
        r matches Err(SaveError::Invalid(s)) && s@ == prefix@ + detail@ + suffix@,
{
    let mut text = prefix.to_owned();
    text.append(detail);
    text.append(suffix);
    Err(SaveError::Invalid(text))
}

fn invalid_after(prefix: &str, detail: &str) -> (r: Result<(), SaveError>)
    ensures
        r matches Err(SaveError::Invalid(s)) && s@ == prefix@ + detail@,
{
    let mut text = prefix.to_owned();
    text.append(detail);
    Err(SaveError::Invalid(text))
}

fn check_port(port: &NodePortManifest, name_problem: &Option<String>) -> (r: Result<(), SaveError>)
    ensures
        match port_problem(
            *port,
            match name_problem {
                Some(s) => Some(s@),
                None => None,
            },
        ) {
            None => r is Ok,
            Some(m) => r matches Err(SaveError::Invalid(s)) && s@ == m,
        },
{
    match name_problem {
        Some(e) => {
            return invalid_after("invalid Port name: ", e.as_str());
        },
        None => {},
    }
    let d = port.direction.as_str();
    if !(str_equal(d, "input") || str_equal(d, "output")) {
        return invalid("Port direction must be input or output");
    }
    let t = port.frame_type.as_str();
    if !(str_equal(t, "audio") || str_equal(t, "video") || str_equal(t, "text") || str_equal(t, "byte")
        || str_equal(t, "signal") || str_equal(t, "event")) {
        return invalid_with("unsupported Port frame_type `", t, "`");
    }
    if !port.schema_is_object {
        return invalid_with("Port `", port.name.as_str(), "` schema must be a JSON object");
    }
    Ok(())
}

proof fn lemma_first_port_problem_stable(
    ports: Seq<NodePortManifest>,
    names: Seq<Option<Seq<char>>>,
    m: int,
    n: int,
)
    requires
        0 <= m <= n,
        first_port_problem(ports, names, m) is Some,
    ensures
        first_port_problem(ports, names, n) == first_port_problem(ports, names, m),
    decreases n - m,
{
    if m < n {
        lemma_first_port_problem_stable(ports, names, m, n - 1);
    }
}

fn check_ports(ports: &[NodePortManifest], name_problems: &[Option<String>]) -> (r: Result<(), SaveError>)
    requires
        name_problems@.len() == ports@.len(),
    ensures
        match first_port_problem(ports@, problem_views(name_problems@), ports@.len() as int) {
            None => r is Ok,
            Some(m) => r matches Err(SaveError::Invalid(s)) && s@ == m,
        },
{
    let ghost names = problem_views(name_problems@);
    let mut i: usize = 0;
    while i < ports.len()
        invariant
            names == problem_views(name_problems@),
            name_problems@.len() == ports@.len(),
            0 <= i <= ports@.len(),
            first_port_problem(ports@, names, i as int) is None,
        decreases ports@.len() - i,
    {
        let checked = check_port(&ports[i], &name_problems[i]);
        match checked {
            Ok(()) => {},
            Err(e) => {
                proof {
                    assert(names[i as int] == match name_problems@[i as int] {
                        Some(s) => Some(s@),
                        None => None::<Seq<char>>,
                    });
                    lemma_first_port_problem_stable(ports@, names, i + 1, ports@.len() as int);
                }
                return Err(e);
            },
        }
        i = i + 1;
    }
    Ok(())
}

/// Validates a package before it is saved (see `package_problem`).
/// `node_type_problem` is what the runtime's node-type name validation says
/// of `manifest.node_type`, and `port_name_problems` what its port-name
/// validation says of each port name, in port order.
pub fn validate_package(
    package: &NodePackage,
    node_type_problem: Option<String>,
    port_name_problems: &[Option<String>],
) -> (r: Result<(), SaveError>)
    requires
        port_name_problems@.len() == package.manifest.ports@.len(),
    ensures
        match package_problem(
            *package,
            match node_type_problem {
                Some(s) => Some(s@),
                None => None,
            },
            problem_views(port_name_problems@),
        ) {
            None => r is Ok,
            Some(m) => r matches Err(SaveError::Invalid(s)) && s@ == m,
        },
{
    let m = &package.manifest;
    if !valid_package_id(m.package_id.as_str()) {
        return invalid("package_id must use 1-64 lowercase letters, digits, '-' or '_'");
    }
    if is_blank(m.display_name.as_str()) || m.display_name.as_str().as_bytes().len() > 100 {
        return invalid("display_name must contain 1-100 characters");
    }
    match &node_type_problem {
        Some(e) => {
            return invalid_after("invalid node_type: ", e.as_str());
        },
        None => {},
    }
    match NodeFactoryVersion::new(m.factory_version.clone()) {
        Ok(_) => {},
        Err(e) => {
            return invalid_after("invalid factory_version: ", e.message());
        },
    }
    match NodeLanguage::parse(m.language.as_str()) {
        Some(_) => {},
        None => {
            return invalid("language must be rust, cpp, python, or typescript");
        },
    }
    let kind = m.kind.as_str();
    if !(str_equal(kind, "source") || str_equal(kind, "transform") || str_equal(kind, "sink")) {
        return invalid("kind must be source, transform, or sink");
    }
    if !valid_category(m.category.as_str()) {
        return invalid("category must be transport, algorithm, media, control, or utility");
    }
    if !valid_capability(m.capability.as_str()) {
        return invalid("capability must use lowercase dot-separated identifiers");
    }
    if m.summary.as_str().as_bytes().len() > 280 {
        return invalid("summary may contain at most 280 characters");
    }
    match &m.provider_id {
        Some(id) => if !valid_package_id(id.as_str()) {
            return invalid("provider_id must be a filesystem-safe identifier");
        },
        None => {},
    }
    match &m.connection_id {
        Some(id) => if !valid_package_id(id.as_str()) {
            return invalid("connection_id must be a filesystem-safe identifier");
        },
        None => {},
    }
    if m.connection_id.is_some() && m.connection.is_some() {
        return invalid("connection_id and inline connection are mutually exclusive");
    }
    if m.ports.len() > MAX_PORTS {
        return invalid("a Node may declare at most 64 Ports");
    }
    match check_ports(m.ports.as_slice(), port_name_problems) {
        Ok(()) => {},
        Err(e) => {
            return Err(e);
        },
    }
    if !m.config_schema_is_object {
        return invalid("config_schema must be a JSON object");
    }
    match &m.connection {
        Some(c) => match validate_connection(c) {
            Ok(()) => {},
            Err(e) => {
                return Err(e);
            },
        },
        None => {},
    }
    let code_len = package.code.as_str().as_bytes().len();
    if code_len == 0 || code_len > MAX_CODE_BYTES {
        return invalid("code must contain 1 byte through 512 KiB");
    }
    Ok(())
}

/// The first of the first `n` connections with identifier `id`.
pub open spec fn find_connection(cs: Seq<ConnectionView>, id: Seq<char>, n: int) -> Option<int>
    decreases n,
{
    if n <= 0 {
        None
    } else {
        match find_connection(cs, id, n - 1) {
            Some(j) => Some(j),
            None => if cs[n - 1].id == id {
                Some(n - 1)
            } else {
                None
            },
        }
    }
}

proof fn lemma_find_connection_stable(cs: Seq<ConnectionView>, id: Seq<char>, m: int, n: int)
    requires
        0 <= m <= n,
        find_connection(cs, id, m) is Some,
    ensures
        find_connection(cs, id, n) == find_connection(cs, id, m),
    decreases n - m,
{
    if m < n {
        lemma_find_connection_stable(cs, id, m, n - 1);
    }
}

proof fn lemma_find_connection_bounds(cs: Seq<ConnectionView>, id: Seq<char>, n: int)
    ensures
        find_connection(cs, id, n) matches Some(j) ==> 0 <= j < n && cs[j].id == id,
    decreases n,
{
    if n > 0 {
        lemma_find_connection_bounds(cs, id, n - 1);
    }
}

/// The node type a stored package used before its canonical name, whose
/// factory version is read as `1.1.0`.
pub open spec fn legacy_audio_source() -> Seq<char> {
    "provider.agora.audio_source"@
}

/// Why a read package does not fit its provider, if it does not: it names
/// another provider, declares a connection twice, or references a
/// connection that its provider lacks.
pub open spec fn resolution_problem(m: NodePackageManifest, provider: Option<ProviderManifest>) -> Option<Seq<char>> {
    let id = m.package_id@;
    if m.provider_id is Some && provider is Some && m.provider_id->0@ != provider->0.provider_id@ {
        Some("Node `"@ + id + "` declares provider `"@ + m.provider_id->0@ + "` but is owned by `"@
            + provider->0.provider_id@ + "`"@)
    } else if m.connection_id is Some && m.connection is Some {
        Some("Node `"@ + id + "` cannot declare both connection_id and an inline connection"@)
    } else if m.connection_id is Some {
        let cid = m.connection_id->0@;
        match provider {
            None => Some("Node `"@ + id + "` references connection `"@ + cid + "` without a Provider Manifest"@),
            Some(p) => if find_connection(connection_views(p.connections@), cid, p.connections@.len() as int) is None {
                Some("Provider `"@ + p.provider_id@ + "` does not declare connection `"@ + cid + "`"@)
            } else {
                None
            },
        }
    } else {
        None
    }
}

/// The connection a package uses: the referenced connection of its
/// provider, or its inline connection.
pub open spec fn resolved_connection(m: NodePackageManifest, provider: Option<ProviderManifest>) -> Option<ConnectionView> {
    if m.connection_id is Some {
        let p = provider->0;
        Some(connection_views(p.connections@)[find_connection(
            connection_views(p.connections@),
            m.connection_id->0@,
            p.connections@.len() as int,
        )->0])
    } else {
        match m.connection {
            Some(c) => Some(c@),
            None => None,
        }
    }
}

/// A package manifest as read, under its canonical node type, and the
/// connection it uses.
#[derive(Debug)]
pub struct ResolvedPackage {
    pub manifest: NodePackageManifest,
    pub resolved_connection: Option<ConnectionManifest>,
}

fn text3(a: &str, b: &str, c: &str) -> (r: String)
    ensures
        r@ == a@ + b@ + c@,
{
    let mut out = a.to_owned();
    out.append(b);
    out.append(c);
    out
}

fn text5(a: &str, b: &str, c: &str, d: &str, e: &str) -> (r: String)
    ensures
        r@ == a@ + b@ + c@ + d@ + e@,
{
    let mut out = text3(a, b, c);
    out.append(d);
    out.append(e);
    out
}

fn text7(a: &str, b: &str, c: &str, d: &str, e: &str, f: &str, g: &str) -> (r: String)
    ensures
        r@ == a@ + b@ + c@ + d@ + e@ + f@ + g@,
{
    let mut out = text5(a, b, c, d, e);
    out.append(f);
    out.append(g);
    out
}

/// Finds the first connection with identifier `id`.
fn connection_index(cs: &[ConnectionManifest], id: &str) -> (r: Option<usize>)
    ensures
        match r {
            Some(i) => find_connection(connection_views(cs@), id@, cs@.len() as int) == Some(i as int),
            None => find_connection(connection_views(cs@), id@, cs@.len() as int) is None,
        },
{
    let ghost views = connection_views(cs@);
    let mut i: usize = 0;
    while i < cs.len()
        invariant
            views == connection_views(cs@),
            0 <= i <= cs@.len(),
            find_connection(views, id@, i as int) is None,
        decreases cs@.len() - i,
    {
        proof {
            assert(views[i as int] == cs@[i as int]@);
        }
        if str_equal(cs[i].id.as_str(), id) {
            proof {
                lemma_find_connection_stable(views, id@, i + 1, views.len() as int);
            }
            return Some(i);
        }
        i = i + 1;
    }
    None
}

/// Brings a read package manifest under its canonical node type (the legacy
/// audio source also gets factory version `1.1.0`) and resolves the
/// connection it uses against its provider.
pub fn resolve_package(
    manifest: NodePackageManifest,
    canonical_node_type: String,
    provider: &Option<ProviderManifest>,
) -> (r: Result<ResolvedPackage, String>)
    ensures
        match resolution_problem(manifest, *provider) {
            Some(e) => r matches Err(s) && s@ == e,
            None => r matches Ok(p) && {
                &&& p.manifest.node_type@ == canonical_node_type@
                &&& p.manifest.factory_version@ == if manifest.node_type@ == legacy_audio_source() {
                    "1.1.0"@
                } else {
                    manifest.factory_version@
                }
                &&& p.manifest == (NodePackageManifest {
                    node_type: p.manifest.node_type,
                    factory_version: p.manifest.factory_version,
                    ..manifest
                })
                &&& match (p.resolved_connection, resolved_connection(manifest, *provider)) {
                    (Some(c), Some(v)) => c@ == v,
                    (None, None) => true,
                    _ => false,
                }
            },
        },
{
    let mut manifest = manifest;
    let ghost original = manifest;
    let legacy = str_equal(manifest.node_type.as_str(), "provider.agora.audio_source");
    manifest.node_type = canonical_node_type;
    if legacy {
        manifest.factory_version = "1.1.0".to_owned();
    }
    match (&manifest.provider_id, provider) {
        (Some(expected), Some(p)) => if !str_equal(expected.as_str(), p.provider_id.as_str()) {
            return Err(text7(
                "Node `",
                manifest.package_id.as_str(),
                "` declares provider `",
                expected.as_str(),
                "` but is owned by `",
                p.provider_id.as_str(),
                "`",
            ));
        },
        _ => {},
    }
    let resolved = match (&manifest.connection_id, &manifest.connection) {
        (Some(_), Some(_)) => {
            return Err(text3(
                "Node `",
                manifest.package_id.as_str(),
                "` cannot declare both connection_id and an inline connection",
            ));
        },
        (Some(connection_id), None) => {
            let p = match provider {
                Some(p) => p,
                None => {
                    return Err(text5(
                        "Node `",
                        manifest.package_id.as_str(),
                        "` references connection `",
                        connection_id.as_str(),
                        "` without a Provider Manifest",
                    ));
                },
            };
            match connection_index(p.connections.as_slice(), connection_id.as_str()) {
                Some(i) => {
                    proof {
                        lemma_find_connection_bounds(connection_views(p.connections@), connection_id@, p.connections@.len() as int);
                    }
                    Some(copy_connection(&p.connections[i]))
                },
                None => {
                    return Err(text5(
                        "Provider `",
                        p.provider_id.as_str(),
                        "` does not declare connection `",
                        connection_id.as_str(),
                        "`",
                    ));
                },
            }
        },
        (None, Some(c)) => Some(copy_connection(c)),
        (None, None) => None,
    };
    Ok(ResolvedPackage { manifest, resolved_connection: resolved })
}

/// Why `next` cannot join the packages listed before it: its package id is
/// taken, or its node type, language and factory version are.
pub open spec fn duplicate_problem(earlier: Seq<NodePackageManifest>, next: NodePackageManifest) -> Option<Seq<char>> {
    if exists|j: int| 0 <= j < earlier.len() && (#[trigger] earlier[j]).package_id@ == next.package_id@ {
        Some("duplicate Node package_id `"@ + next.package_id@ + "` across project and Provider Roots"@)
    } else if exists|j: int|
        0 <= j < earlier.len() && (#[trigger] earlier[j]).node_type@ == next.node_type@ && earlier[j].language@
            == next.language@ && earlier[j].factory_version@ == next.factory_version@ {
        Some("duplicate Node Factory identity for `"@ + next.node_type@ + "`"@)
    } else {
        None
    }
}

/// Checks that `next` may join the packages listed before it (see
/// `duplicate_problem`).
pub fn check_new_package(earlier: &[NodePackageManifest], next: &NodePackageManifest) -> (r: Result<(), String>)
    ensures
        match duplicate_problem(earlier@, *next) {
            None => r is Ok,
            Some(e) => r matches Err(s) && s@ == e,
        },
{
    let mut i: usize = 0;
    while i < earlier.len()
        invariant
            0 <= i <= earlier@.len(),
            forall|j: int| 0 <= j < i ==> (#[trigger] earlier@[j]).package_id@ != next.package_id@,
        decreases earlier@.len() - i,
    {
        if str_equal(earlier[i].package_id.as_str(), next.package_id.as_str()) {
            return Err(text3(
                "duplicate Node package_id `",
                next.package_id.as_str(),
                "` across project and Provider Roots",
            ));
        }
        i = i + 1;
    }
    let mut k: usize = 0;
    while k < earlier.len()
        invariant
            0 <= k <= earlier@.len(),
            forall|j: int| 0 <= j < earlier@.len() ==> (#[trigger] earlier@[j]).package_id@ != next.package_id@,
            forall|j: int|
                0 <= j < k ==> !((#[trigger] earlier@[j]).node_type@ == next.node_type@ && earlier@[j].language@
                    == next.language@ && earlier@[j].factory_version@ == next.factory_version@),
        decreases earlier@.len() - k,
    {
        let e = &earlier[k];
        if str_equal(e.node_type.as_str(), next.node_type.as_str()) && str_equal(
            e.language.as_str(),
            next.language.as_str(),
        ) && str_equal(e.factory_version.as_str(), next.factory_version.as_str()) {
            return Err(text3("duplicate Node Factory identity for `", next.node_type.as_str(), "`"));
        }
        k = k + 1;
    }
    Ok(())
}

/// The format tag of a provider root configuration.
pub const PROVIDER_ROOTS_FORMAT: &'static str = "muxiva.providers/v1";

/// The most provider roots a project may configure.
pub const MAX_PROVIDER_ROOTS: usize = 32;

/// Checks a provider root configuration's format and root count.
pub fn check_root_config(format: &str, root_count: usize) -> (r: Result<(), String>)
    ensures
        format@ != PROVIDER_ROOTS_FORMAT@ ==> (r matches Err(s) && s@ == "unsupported Provider Root format `"@
            + format@ + "`"@),
        format@ == PROVIDER_ROOTS_FORMAT@ && root_count > MAX_PROVIDER_ROOTS ==> (r matches Err(s) && s@
            == "at most 32 Provider Roots may be configured"@),
        format@ == PROVIDER_ROOTS_FORMAT@ && root_count <= MAX_PROVIDER_ROOTS ==> r is Ok,
{
    if !str_equal(format, PROVIDER_ROOTS_FORMAT) {
        return Err(text3("unsupported Provider Root format `", format, "`"));
    }
    if root_count > MAX_PROVIDER_ROOTS {
        return Err("at most 32 Provider Roots may be configured".to_owned());
    }
    Ok(())
}

/// Whether the studio's Python host can exchange a port's frames: inputs of
/// text, audio or signals; outputs of text, audio, events or signals.
pub open spec fn python_port(p: NodePortManifest) -> bool {
    if p.direction@ == "input"@ {
        p.frame_type@ == "text"@ || p.frame_type@ == "audio"@ || p.frame_type@ == "signal"@
    } else if p.direction@ == "output"@ {
        p.frame_type@ == "text"@ || p.frame_type@ == "audio"@ || p.frame_type@ == "event"@ || p.frame_type@
            == "signal"@
    } else {
        false
    }
}

/// Whether a package is a Python node whose every port the Python host
/// supports (the host itself must also be installed).
pub fn python_ports_supported(manifest: &NodePackageManifest) -> (r: bool)
    ensures
        r == (manifest.language@ == "python"@ && forall|i: int|
            0 <= i < manifest.ports@.len() ==> python_port(#[trigger] manifest.ports@[i])),
{
    if !str_equal(manifest.language.as_str(), "python") {
        return false;
    }
    let mut i: usize = 0;
    while i < manifest.ports.len()
        invariant
            0 <= i <= manifest.ports@.len(),
            forall|j: int| 0 <= j < i ==> python_port(#[trigger] manifest.ports@[j]),
        decreases manifest.ports@.len() - i,
    {
        let port = &manifest.ports[i];
        let d = port.direction.as_str();
        let t = port.frame_type.as_str();
        let ok = if str_equal(d, "input") {
            str_equal(t, "text") || str_equal(t, "audio") || str_equal(t, "signal")
        } else if str_equal(d, "output") {
            str_equal(t, "text") || str_equal(t, "audio") || str_equal(t, "event") || str_equal(t, "signal")
        } else {
            false
        };
        if !ok {
            return false;
        }
        i = i + 1;
    }
    true
}

} // verus!
