//! The registry of versioned node factories and of edge policies: exact
//! `(type, language, version)` identities, each registered at most once and
//! kept in identity order.
use vstd::prelude::*;

use crate::bytes_order::{compare_bytes, lemma_lex_irreflexive, lemma_lex_total, lemma_lex_transitive, lex_lt, KeyOrder};
use crate::graph::{
    build_error_text, descriptor_problem, rebound, validate_node_descriptor, BuildErrorView, FrameType,
    GraphBuildError, NodeDescriptor, NodeDescriptorView,
};
use crate::registry::{NodeFactoryVersion, NodeLanguage};
use crate::string_set::utf8;

verus! {

/// The place of a language in identity order.
pub open spec fn language_rank(l: NodeLanguage) -> int {
    match l {
        NodeLanguage::Rust => 0,
        NodeLanguage::Cpp => 1,
        NodeLanguage::Python => 2,
        NodeLanguage::TypeScript => 3,
    }
}

/// The debug name of a language.
pub open spec fn language_debug(l: NodeLanguage) -> Seq<char> {
    match l {
        NodeLanguage::Rust => "Rust"@,
        NodeLanguage::Cpp => "Cpp"@,
        NodeLanguage::Python => "Python"@,
        NodeLanguage::TypeScript => "TypeScript"@,
    }
}

fn language_debug_name(l: NodeLanguage) -> (r: &'static str)
    ensures
        r@ == language_debug(l),
{
    match l {
        NodeLanguage::Rust => "Rust",
        NodeLanguage::Cpp => "Cpp",
        NodeLanguage::Python => "Python",
        NodeLanguage::TypeScript => "TypeScript",
    }
}

/// A factory identity: the node type's bytes, the language's rank and the
/// version's bytes.
pub type FactoryKey = (Seq<u8>, int, Seq<u8>);

/// The identity of `node_type` in `language` at `version`.
pub open spec fn factory_key(node_type: Seq<char>, language: NodeLanguage, version: Seq<char>) -> FactoryKey {
    (utf8(node_type), language_rank(language), utf8(version))
}

/// Identity order: by node type, then language, then version, each text
/// compared byte by byte.
pub open spec fn key_lt(a: FactoryKey, b: FactoryKey) -> bool {
    ||| lex_lt(a.0, b.0)
    ||| a.0 == b.0 && a.1 < b.1
    ||| a.0 == b.0 && a.1 == b.1 && lex_lt(a.2, b.2)
}

proof fn lemma_key_order(a: FactoryKey, b: FactoryKey, c: FactoryKey)
    ensures
        !key_lt(a, a),
        key_lt(a, b) && key_lt(b, c) ==> key_lt(a, c),
        a != b ==> key_lt(a, b) || key_lt(b, a),
        !(key_lt(a, b) && key_lt(b, a)),
{
    lemma_lex_irreflexive(a.0);
    lemma_lex_irreflexive(a.2);
    lemma_lex_total(a.0, b.0);
    lemma_lex_total(a.2, b.2);
    lemma_lex_total(b.0, c.0);
    if lex_lt(a.0, b.0) && lex_lt(b.0, c.0) {
        lemma_lex_transitive(a.0, b.0, c.0);
    }
    if lex_lt(a.2, b.2) && lex_lt(b.2, c.2) {
        lemma_lex_transitive(a.2, b.2, c.2);
    }
}

/// The content of a registration.
pub struct RegistrationView<F> {
    pub language: NodeLanguage,
    pub descriptor: NodeDescriptorView,
    pub version: Seq<char>,
    pub factory: F,
}

/// The identity of a registration.
pub open spec fn registration_key<F>(r: RegistrationView<F>) -> FactoryKey {
    factory_key(r.descriptor.node_type, r.language, r.version)
}

/// Registrations in strictly increasing identity order.
pub open spec fn sorted_registrations<F>(s: Seq<RegistrationView<F>>) -> bool {
    forall|i: int, j: int|
        0 <= i < j < s.len() ==> key_lt(registration_key(#[trigger] s[i]), registration_key(#[trigger] s[j]))
}

/// One versioned descriptor and its factory.
#[derive(Clone, Debug)]
pub struct NodeRegistration<F> {
    language: NodeLanguage,
    descriptor: NodeDescriptor,
    version: NodeFactoryVersion,
    factory: F,
}

impl<F> View for NodeRegistration<F> {
    type V = RegistrationView<F>;

    closed spec fn view(&self) -> RegistrationView<F> {
        RegistrationView {
            language: self.language,
            descriptor: self.descriptor@,
            version: self.version@,
            factory: self.factory,
        }
    }
}

impl<F> NodeRegistration<F> {
    /// Pairs a descriptor and version with its factory.
    pub fn new(language: NodeLanguage, descriptor: NodeDescriptor, version: NodeFactoryVersion, factory: F) -> (r: Self)
        ensures
            r@ == (RegistrationView { language, descriptor: descriptor@, version: version@, factory }),
    {
        NodeRegistration { language, descriptor, version, factory }
    }

    /// The factory's language.
    pub fn language(&self) -> (r: NodeLanguage)
        ensures
            r == self@.language,
    {
        self.language
    }

    /// The type-level descriptor.
    pub fn descriptor(&self) -> (r: &NodeDescriptor)
        ensures
            r@ == self@.descriptor,
    {
        &self.descriptor
    }

    /// The exact factory version.
    pub fn version(&self) -> (r: &NodeFactoryVersion)
        ensures
            r@ == self@.version,
    {
        &self.version
    }

    /// The factory.
    pub fn factory(&self) -> (r: &F)
        ensures
            *r == self@.factory,
    {
        &self.factory
    }

    /// The registered port shape for a graph-local node.
    pub fn descriptor_for(&self, node_id: String) -> (r: NodeDescriptor)
        ensures
            r@ == rebound(self@.descriptor, node_id@),
    {
        self.descriptor.for_node_id(node_id)
    }
}

/// Why a registry operation failed.
#[derive(Clone, Debug)]
pub enum RegistryError {
    /// The descriptor cannot enter a graph.
    InvalidNodeDescriptor { node_type: String, source: GraphBuildError },
    /// A factory with this identity is registered already.
    DuplicateNode { node_type: String, language: NodeLanguage, version: NodeFactoryVersion },
    /// An edge policy of this name is registered already.
    DuplicatePolicy { policy: String },
    /// No factory has this identity.
    UnknownNode { node_type: String, language: NodeLanguage, version: NodeFactoryVersion },
    /// No edge policy has this name.
    UnknownPolicy { policy: String },
}

/// The human-readable text of a registry error.
pub open spec fn registry_error_text(e: RegistryError) -> Seq<char> {
    match e {
        RegistryError::InvalidNodeDescriptor { node_type, source } => "invalid node factory descriptor `"@
            + node_type@ + "`: "@ + build_error_text(source@),
        RegistryError::DuplicateNode { node_type, language, version } => "duplicate "@ + language_debug(language)
            + " node factory `"@ + node_type@ + "` version `"@ + version@ + "`"@,
        RegistryError::DuplicatePolicy { policy } => "duplicate Edge policy `"@ + policy@ + "`"@,
        RegistryError::UnknownNode { node_type, language, version } => "unknown "@ + language_debug(language)
            + " node factory `"@ + node_type@ + "` version `"@ + version@ + "`"@,
        RegistryError::UnknownPolicy { policy } => "unknown Edge policy `"@ + policy@ + "`"@,
    }
}

impl RegistryError {
    /// The human-readable text of the error.
    pub fn to_display_string(&self) -> (r: String)
        ensures
            r@ == registry_error_text(*self),
    {
        let mut out = String::new();
        match self {
            RegistryError::InvalidNodeDescriptor { node_type, source } => {
                out.append("invalid node factory descriptor `");
                out.append(node_type.as_str());
                out.append("`: ");
                let text = source.to_display_string();
                out.append(text.as_str());
            },
            RegistryError::DuplicateNode { node_type, language, version } => {
                out.append("duplicate ");
                out.append(language_debug_name(*language));
                out.append(" node factory `");
                out.append(node_type.as_str());
                out.append("` version `");
                out.append(version.as_str());
                out.append("`");
            },
            RegistryError::DuplicatePolicy { policy } => {
                out.append("duplicate Edge policy `");
                out.append(policy.as_str());
                out.append("`");
            },
            RegistryError::UnknownNode { node_type, language, version } => {
                out.append("unknown ");
                out.append(language_debug_name(*language));
                out.append(" node factory `");
                out.append(node_type.as_str());
                out.append("` version `");
                out.append(version.as_str());
                out.append("`");
            },
            RegistryError::UnknownPolicy { policy } => {
                out.append("unknown Edge policy `");
                out.append(policy.as_str());
                out.append("`");
            },
        }
        proof {
            assert(out@ =~= registry_error_text(*self));
        }
        out
    }
}

/// Compares two factory identities.
fn compare_keys(
    a_type: &str,
    a_language: NodeLanguage,
    a_version: &str,
    b_type: &str,
    b_language: NodeLanguage,
    b_version: &str,
) -> (r: KeyOrder)
    ensures
        r == KeyOrder::Less <==> key_lt(
            factory_key(a_type@, a_language, a_version@),
            factory_key(b_type@, b_language, b_version@),
        ),
        r == KeyOrder::Greater <==> key_lt(
            factory_key(b_type@, b_language, b_version@),
            factory_key(a_type@, a_language, a_version@),
        ),
        r == KeyOrder::Equal <==> factory_key(a_type@, a_language, a_version@) == factory_key(
            b_type@,
            b_language,
            b_version@,
        ),
{
    let ghost ka = factory_key(a_type@, a_language, a_version@);
    let ghost kb = factory_key(b_type@, b_language, b_version@);
    proof {
        lemma_key_order(ka, kb, ka);
    }
    match compare_bytes(a_type.as_bytes(), b_type.as_bytes()) {
        KeyOrder::Less => KeyOrder::Less,
        KeyOrder::Greater => KeyOrder::Greater,
        KeyOrder::Equal => {
            let ra = language_rank_of(a_language);
            let rb = language_rank_of(b_language);
            if ra < rb {
                KeyOrder::Less
            } else if rb < ra {
                KeyOrder::Greater
            } else {
                compare_bytes(a_version.as_bytes(), b_version.as_bytes())
            }
        },
    }
}

fn language_rank_of(l: NodeLanguage) -> (r: u8)
    ensures
        r == language_rank(l),
{
    match l {
        NodeLanguage::Rust => 0,
        NodeLanguage::Cpp => 1,
        NodeLanguage::Python => 2,
        NodeLanguage::TypeScript => 3,
    }
}

/// The views of registrations.
pub open spec fn registration_views<F>(rs: Seq<NodeRegistration<F>>) -> Seq<RegistrationView<F>> {
    rs.map_values(|r: NodeRegistration<F>| r@)
}

/// Whether some registration has identity `k`.
pub open spec fn has_key<F>(s: Seq<RegistrationView<F>>, k: FactoryKey) -> bool {
    exists|i: int| 0 <= i < s.len() && registration_key(#[trigger] s[i]) == k
}

/// The versioned node factories, in identity order.
#[derive(Debug)]
pub struct NodeRegistry<F> {
    entries: Vec<NodeRegistration<F>>,
}

impl<F> View for NodeRegistry<F> {
    type V = Seq<RegistrationView<F>>;

    closed spec fn view(&self) -> Seq<RegistrationView<F>> {
        registration_views(self.entries@)
    }
}

impl<F> NodeRegistry<F> {
    #[verifier::type_invariant]
    closed spec fn inv(self) -> bool {
        sorted_registrations(self@)
    }

    /// An empty registry.
    pub fn new() -> (r: Self)
        ensures
            r@ == Seq::<RegistrationView<F>>::empty(),
    {
        let r = NodeRegistry { entries: Vec::new() };
        proof {
            assert(r@ =~= Seq::<RegistrationView<F>>::empty());
        }
        r
    }

    /// The registrations, in identity order.
    pub fn entries(&self) -> (r: &[NodeRegistration<F>])
        ensures
            registration_views(r@) == self@,
            sorted_registrations(self@),
    {
        proof {
            use_type_invariant(self);
        }
        self.entries.as_slice()
    }

    /// Finds where identity `k` sits: the first registration not below it,
    /// and whether that one has identity `k`.
    fn locate(&self, node_type: &str, language: NodeLanguage, version: &str) -> (r: (usize, bool))
        ensures
            r.0 <= self@.len(),
            forall|q: int| 0 <= q < r.0 ==> key_lt(registration_key(#[trigger] self@[q]), factory_key(node_type@, language, version@)),
            r.1 ==> r.0 < self@.len() && registration_key(self@[r.0 as int]) == factory_key(node_type@, language, version@),
            !r.1 ==> forall|q: int| r.0 <= q < self@.len() ==> key_lt(factory_key(node_type@, language, version@), registration_key(#[trigger] self@[q])),
    {
        proof {
            use_type_invariant(self);
        }
        let ghost k = factory_key(node_type@, language, version@);
        let ghost s = self@;
        let mut i: usize = 0;
        while i < self.entries.len()
            invariant
                s == self@,
                s == registration_views(self.entries@),
                k == factory_key(node_type@, language, version@),
                sorted_registrations(s),
                0 <= i <= s.len(),
                forall|q: int| 0 <= q < i ==> key_lt(registration_key(#[trigger] s[q]), k),
            decreases s.len() - i,
        {
            let e = &self.entries[i];
            proof {
                assert(s[i as int] == e@);
            }
            match compare_keys(e.descriptor.node_type(), e.language, e.version.as_str(), node_type, language, version) {
                KeyOrder::Less => {},
                KeyOrder::Equal => {
                    return (i, true);
                },
                KeyOrder::Greater => {
                    proof {
                        assert forall|q: int| i <= q < s.len() implies key_lt(k, registration_key(#[trigger] s[q])) by {
                            if q > i {
                                lemma_key_order(k, registration_key(s[i as int]), registration_key(s[q]));
                            }
                        }
                    }
                    return (i, false);
                },
            }
            i = i + 1;
        }
        (i, false)
    }

    /// Registers a factory: its descriptor must be able to enter a graph,
    /// and its identity must be new.
    pub fn register(&mut self, registration: NodeRegistration<F>) -> (r: Result<(), RegistryError>)
        ensures
            sorted_registrations(final(self)@),
            match descriptor_problem(registration@.descriptor) {
                Some(e) => final(self)@ == old(self)@ && (r matches Err(RegistryError::InvalidNodeDescriptor { node_type, source })
                    && node_type@ == registration@.descriptor.node_type && source@ == e),
                None => if has_key(old(self)@, registration_key(registration@)) {
                    final(self)@ == old(self)@ && (r matches Err(RegistryError::DuplicateNode { node_type, language, version })
                        && node_type@ == registration@.descriptor.node_type && language == registration@.language
                        && version@ == registration@.version)
                } else {
                    r is Ok && exists|pos: int|
                        0 <= pos <= old(self)@.len() && final(self)@ == old(self)@.insert(pos, registration@)
                },
            },
    {
        proof {
            use_type_invariant(&*self);
        }
        match validate_node_descriptor(&registration.descriptor) {
            Ok(()) => {},
            Err(source) => {
                return Err(RegistryError::InvalidNodeDescriptor {
                    node_type: registration.descriptor.node_type().to_owned(),
                    source,
                });
            },
        }
        let (pos, found) = self.locate(
            registration.descriptor.node_type(),
            registration.language,
            registration.version.as_str(),
        );
        let ghost before = self@;
        let ghost x = registration@;
        let ghost k = registration_key(x);
        if found {
            return Err(RegistryError::DuplicateNode {
                node_type: registration.descriptor.node_type().to_owned(),
                language: registration.language,
                version: registration.version.duplicate(),
            });
        }
        proof {
            if has_key(before, k) {
                let q = choose|q: int| 0 <= q < before.len() && registration_key(#[trigger] before[q]) == k;
                lemma_key_order(k, k, k);
                if q < pos {
                    assert(key_lt(registration_key(before[q]), k));
                } else {
                    assert(key_lt(k, registration_key(before[q])));
                }
            }
        }
        let mut entries: Vec<NodeRegistration<F>> = Vec::new();
        std::mem::swap(&mut entries, &mut self.entries);
        entries.insert(pos, registration);
        proof {
            let after = registration_views(entries@);
            assert(after =~= before.insert(pos as int, x));
            assert forall|i: int, j: int| 0 <= i < j < after.len() implies key_lt(
                registration_key(#[trigger] after[i]),
                registration_key(#[trigger] after[j]),
            ) by {
                let p = pos as int;
                if i < p && j > p {
                    lemma_key_order(registration_key(before[i]), k, registration_key(before[j - 1]));
                }
            }
        }
        self.entries = entries;
        Ok(())
    }

    /// The registration of an exact identity.
    pub fn resolve(&self, node_type: &str, language: NodeLanguage, version: &NodeFactoryVersion) -> (r: Result<&NodeRegistration<F>, RegistryError>)
        ensures
            has_key(self@, factory_key(node_type@, language, version@)) ==> (r matches Ok(x) && exists|i: int|
                0 <= i < self@.len() && self@[i] == x@ && registration_key(x@) == factory_key(node_type@, language, version@)),
            !has_key(self@, factory_key(node_type@, language, version@)) ==> (r matches Err(
                RegistryError::UnknownNode { node_type: t, language: l, version: v },
            ) && t@ == node_type@ && l == language && v@ == version@),
    {
        proof {
            use_type_invariant(self);
        }
        let (pos, found) = self.locate(node_type, language, version.as_str());
        let ghost k = factory_key(node_type@, language, version@);
        if found {
            let e = &self.entries[pos];
            proof {
                assert(self@[pos as int] == e@);
            }
            return Ok(e);
        }
        proof {
            if has_key(self@, k) {
                let q = choose|q: int| 0 <= q < self@.len() && registration_key(#[trigger] self@[q]) == k;
                lemma_key_order(k, k, k);
                if q < pos {
                    assert(key_lt(registration_key(self@[q]), k));
                } else {
                    assert(key_lt(k, registration_key(self@[q])));
                }
            }
        }
        Err(RegistryError::UnknownNode {
            node_type: node_type.to_owned(),
            language,
            version: version.duplicate(),
        })
    }

    /// The registered port shape of an identity for a graph-local node.
    pub fn descriptor_for(
        &self,
        node_type: &str,
        language: NodeLanguage,
        version: &NodeFactoryVersion,
        node_id: String,
    ) -> (r: Result<NodeDescriptor, RegistryError>)
        ensures
            has_key(self@, factory_key(node_type@, language, version@)) ==> (r matches Ok(d) && exists|i: int|
                0 <= i < self@.len() && registration_key(self@[i]) == factory_key(node_type@, language, version@)
                    && d@ == rebound(self@[i].descriptor, node_id@)),
            !has_key(self@, factory_key(node_type@, language, version@)) ==> r matches Err(
                RegistryError::UnknownNode { .. },
            ),
    {
        match self.resolve(node_type, language, version) {
            Ok(registration) => Ok(registration.descriptor_for(node_id)),
            Err(e) => Err(e),
        }
    }
}

/// Two registrations of a well-ordered registry with the same identity are
/// the same registration: each identity is registered at most once.
pub proof fn law_identities_are_unique<F>(s: Seq<RegistrationView<F>>, i: int, j: int)
    requires
        sorted_registrations(s),
        0 <= i < s.len(),
        0 <= j < s.len(),
        registration_key(s[i]) == registration_key(s[j]),
    ensures
        i == j,
{
    lemma_key_order(registration_key(s[i]), registration_key(s[j]), registration_key(s[i]));
    if i < j {
        assert(key_lt(registration_key(s[i]), registration_key(s[j])));
    } else if j < i {
        assert(key_lt(registration_key(s[j]), registration_key(s[i])));
    }
}

/// A registered edge policy: its name, version and the frame types it
/// handles.
#[derive(Clone, Debug)]
pub struct EdgePolicyRegistration {
    pub policy: String,
    pub version: String,
    pub supported_frame_types: Vec<FrameType>,
}

/// Policies in strictly increasing name order.
pub open spec fn sorted_policies(s: Seq<EdgePolicyRegistration>) -> bool {
    forall|i: int, j: int| 0 <= i < j < s.len() ==> lex_lt(utf8((#[trigger] s[i]).policy@), utf8((#[trigger] s[j]).policy@))
}

/// Whether some policy has the name `name`.
pub open spec fn has_policy(s: Seq<EdgePolicyRegistration>, name: Seq<char>) -> bool {
    exists|i: int| 0 <= i < s.len() && (#[trigger] s[i]).policy@ == name
}

/// The registered edge policies, in name order.
#[derive(Debug)]
pub struct EdgePolicyRegistry {
    entries: Vec<EdgePolicyRegistration>,
}

impl View for EdgePolicyRegistry {
    type V = Seq<EdgePolicyRegistration>;

    closed spec fn view(&self) -> Seq<EdgePolicyRegistration> {
        self.entries@
    }
}

impl EdgePolicyRegistry {
    #[verifier::type_invariant]
    closed spec fn inv(self) -> bool {
        sorted_policies(self@)
    }

    /// An empty registry.
    pub fn new() -> (r: Self)
        ensures
            r@ == Seq::<EdgePolicyRegistration>::empty(),
    {
        EdgePolicyRegistry { entries: Vec::new() }
    }

    /// The policies, in name order.
    pub fn entries(&self) -> (r: &[EdgePolicyRegistration])
        ensures
            r@ == self@,
            sorted_policies(self@),
    {
        proof {
            use_type_invariant(self);
        }
        self.entries.as_slice()
    }

    fn locate(&self, name: &str) -> (r: (usize, bool))
        ensures
            r.0 <= self@.len(),
            forall|q: int| 0 <= q < r.0 ==> lex_lt(utf8((#[trigger] self@[q]).policy@), utf8(name@)),
            r.1 ==> r.0 < self@.len() && self@[r.0 as int].policy@ == name@,
            !r.1 ==> forall|q: int| r.0 <= q < self@.len() ==> lex_lt(utf8(name@), utf8((#[trigger] self@[q]).policy@)),
    {
        proof {
            use_type_invariant(self);
        }
        let ghost s = self@;
        let mut i: usize = 0;
        while i < self.entries.len()
            invariant
                s == self@,
                s == self.entries@,
                sorted_policies(s),
                0 <= i <= s.len(),
                forall|q: int| 0 <= q < i ==> lex_lt(utf8((#[trigger] s[q]).policy@), utf8(name@)),
            decreases s.len() - i,
        {
            let e = &self.entries[i];
            match compare_bytes(e.policy.as_str().as_bytes(), name.as_bytes()) {
                KeyOrder::Less => {},
                KeyOrder::Equal => {
                    proof {
                        crate::string_set::lemma_utf8_injective(e.policy@, name@);
                    }
                    return (i, true);
                },
                KeyOrder::Greater => {
                    proof {
                        assert forall|q: int| i <= q < s.len() implies lex_lt(utf8(name@), utf8((#[trigger] s[q]).policy@)) by {
                            if q > i {
                                lemma_lex_transitive(utf8(name@), utf8(s[i as int].policy@), utf8(s[q].policy@));
                            }
                        }
                    }
                    return (i, false);
                },
            }
            i = i + 1;
        }
        (i, false)
    }

    /// Registers a policy whose name is new.
    pub fn register(&mut self, registration: EdgePolicyRegistration) -> (r: Result<(), RegistryError>)
        ensures
            sorted_policies(final(self)@),
            has_policy(old(self)@, registration.policy@) ==> final(self)@ == old(self)@ && (r matches Err(
                RegistryError::DuplicatePolicy { policy },
            ) && policy@ == registration.policy@),
            !has_policy(old(self)@, registration.policy@) ==> r is Ok && exists|pos: int|
                0 <= pos <= old(self)@.len() && final(self)@ == old(self)@.insert(pos, registration),
    {
        proof {
            use_type_invariant(&*self);
        }
        let (pos, found) = self.locate(registration.policy.as_str());
        let ghost before = self@;
        let ghost name = registration.policy@;
        if found {
            return Err(RegistryError::DuplicatePolicy { policy: registration.policy });
        }
        proof {
            if has_policy(before, name) {
                let q = choose|q: int| 0 <= q < before.len() && (#[trigger] before[q]).policy@ == name;
                lemma_lex_irreflexive(utf8(name));
                if q < pos {
                    assert(lex_lt(utf8(before[q].policy@), utf8(name)));
                } else {
                    assert(lex_lt(utf8(name), utf8(before[q].policy@)));
                }
            }
        }
        let mut entries: Vec<EdgePolicyRegistration> = Vec::new();
        std::mem::swap(&mut entries, &mut self.entries);
        entries.insert(pos, registration);
        proof {
            let after = entries@;
            assert(after =~= before.insert(pos as int, after[pos as int]));
            assert forall|i: int, j: int| 0 <= i < j < after.len() implies lex_lt(
                utf8((#[trigger] after[i]).policy@),
                utf8((#[trigger] after[j]).policy@),
            ) by {
                let p = pos as int;
                if i < p && j > p {
                    lemma_lex_transitive(utf8(before[i].policy@), utf8(name), utf8(before[j - 1].policy@));
                }
            }
        }
        self.entries = entries;
        Ok(())
    }

    /// The policy of a name.
    pub fn resolve(&self, name: &str) -> (r: Result<&EdgePolicyRegistration, RegistryError>)
        ensures
            has_policy(self@, name@) ==> (r matches Ok(x) && x.policy@ == name@ && exists|i: int|
                0 <= i < self@.len() && self@[i] == *x),
            !has_policy(self@, name@) ==> (r matches Err(RegistryError::UnknownPolicy { policy }) && policy@
                == name@),
    {
        proof {
            use_type_invariant(self);
        }
        let (pos, found) = self.locate(name);
        if found {
            return Ok(&self.entries[pos]);
        }
        proof {
            if has_policy(self@, name@) {
                let q = choose|q: int| 0 <= q < self@.len() && (#[trigger] self@[q]).policy@ == name@;
                lemma_lex_irreflexive(utf8(name@));
                if q < pos {
                    assert(lex_lt(utf8(self@[q].policy@), utf8(name@)));
                } else {
                    assert(lex_lt(utf8(name@), utf8(self@[q].policy@)));
                }
            }
        }
        Err(RegistryError::UnknownPolicy { policy: name.to_owned() })
    }
}

} // verus!
