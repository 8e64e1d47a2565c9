//! Immutable, versioned extension records.
use vstd::prelude::*;

use crate::bytes_order::{compare_bytes, KeyOrder};
use crate::error::{code_prefix, ErrorCategory, MuxivaError};
use crate::text::{decimal_digits, u64_decimal};
use crate::value::Value;

verus! {

/// Determines whether an extension is included in public diagnostic views.
#[derive(Clone, Copy, Debug, PartialEq, Eq, Structural)]
pub enum ExtensionVisibility {
    /// The extension may be included in public diagnostic views.
    Public,
    /// The extension is omitted from public diagnostic views and default logs.
    Private,
}

/// Identifies who produced an extension.
#[derive(Clone, Debug, PartialEq, Eq)]
pub enum ExtensionProducer {
    /// An extension produced by the runtime core.
    Core,
    /// An extension produced by a graph node.
    Node(String),
    /// An extension produced outside the graph.
    External(String),
}

/// The diagnostic text of a producer.
pub open spec fn producer_debug(p: ExtensionProducer) -> Seq<char> {
    match p {
        ExtensionProducer::Core => "Core"@,
        ExtensionProducer::Node(id) => "Node(\""@ + id@ + "\")"@,
        ExtensionProducer::External(id) => "External(\""@ + id@ + "\")"@,
    }
}

/// The diagnostic text of a visibility.
pub open spec fn visibility_debug(v: ExtensionVisibility) -> Seq<char> {
    match v {
        ExtensionVisibility::Public => "Public"@,
        ExtensionVisibility::Private => "Private"@,
    }
}

/// An immutable, versioned extension record.
#[derive(Debug, PartialEq, Eq)]
pub struct Extension {
    key: String,
    schema_version: u32,
    producer: ExtensionProducer,
    visibility: ExtensionVisibility,
    value: Value,
}

impl Extension {
    /// The extension's qualified key.
    pub closed spec fn spec_key(&self) -> Seq<char> {
        self.key@
    }

    /// The UTF-8 bytes of the key.
    pub open spec fn spec_key_bytes(&self) -> Seq<u8> {
        vstd::utf8::encode_utf8(self.spec_key())
    }

    /// The extension's schema version.
    pub closed spec fn spec_schema_version(&self) -> u32 {
        self.schema_version
    }

    /// The extension's producer.
    pub closed spec fn spec_producer(&self) -> ExtensionProducer {
        self.producer
    }

    /// The extension's visibility.
    pub closed spec fn spec_visibility(&self) -> ExtensionVisibility {
        self.visibility
    }

    /// The extension's value.
    pub closed spec fn spec_value(&self) -> Value {
        self.value
    }

    /// Creates an immutable extension record.
    pub fn new(
        key: String,
        schema_version: u32,
        producer: ExtensionProducer,
        visibility: ExtensionVisibility,
        value: Value,
    ) -> (r: Self)
        ensures
            r.spec_key() == key@,
            r.spec_schema_version() == schema_version,
            r.spec_producer() == producer,
            r.spec_visibility() == visibility,
            r.spec_value() == value,
    {
        Extension { key, schema_version, producer, visibility, value }
    }

    /// The diagnostic text of the record, which never shows the value and
    /// shows `<private>` in place of a private key:
    /// `Extension { key: "<key>", schema_version: <n>, producer: <p>, visibility: <v> }`.
    pub fn debug_string(&self) -> (r: String)
        ensures
            r@ == "Extension { key: \""@ + (if self.spec_visibility() == ExtensionVisibility::Private {
                "<private>"@
            } else {
                self.spec_key()
            }) + "\", schema_version: "@ + decimal_digits(self.spec_schema_version() as nat) + ", producer: "@
                + producer_debug(self.spec_producer()) + ", visibility: "@ + visibility_debug(self.spec_visibility())
                + " }"@,
    {
        let mut text = "Extension { key: \"".to_owned();
        match self.visibility {
            ExtensionVisibility::Public => text.append(self.key.as_str()),
            ExtensionVisibility::Private => text.append("<private>"),
        }
        text.append("\", schema_version: ");
        let version = u64_decimal(self.schema_version as u64);
        text.append(version.as_str());
        text.append(", producer: ");
        match &self.producer {
            ExtensionProducer::Core => text.append("Core"),
            ExtensionProducer::Node(id) => {
                text.append("Node(\"");
                text.append(id.as_str());
                text.append("\")");
            },
            ExtensionProducer::External(id) => {
                text.append("External(\"");
                text.append(id.as_str());
                text.append("\")");
            },
        }
        text.append(", visibility: ");
        match self.visibility {
            ExtensionVisibility::Public => text.append("Public"),
            ExtensionVisibility::Private => text.append("Private"),
        }
        text.append(" }");
        text
    }

    /// Returns this extension's qualified key.
    pub fn key(&self) -> (r: &str)
        ensures
            r@ == self.spec_key(),
    {
        self.key.as_str()
    }

    /// Returns this extension's schema version.
    pub fn schema_version(&self) -> (r: u32)
        ensures
            r == self.spec_schema_version(),
    {
        self.schema_version
    }

    /// Returns the producer of this extension.
    pub fn producer(&self) -> (r: &ExtensionProducer)
        ensures
            *r == self.spec_producer(),
    {
        &self.producer
    }

    /// Returns this extension's visibility.
    pub fn visibility(&self) -> (r: ExtensionVisibility)
        ensures
            r == self.spec_visibility(),
    {
        self.visibility
    }

    /// Returns this extension's immutable value.
    pub fn value(&self) -> (r: &Value)
        ensures
            *r == self.spec_value(),
    {
        &self.value
    }

    fn key_bytes(&self) -> (r: &[u8])
        ensures
            r@ == self.spec_key_bytes(),
    {
        let s = self.key.as_str();
        s.as_bytes()
    }
}

/// Two records share their key and schema version.
pub open spec fn same_identity(a: Extension, b: Extension) -> bool {
    a.spec_key_bytes() == b.spec_key_bytes() && a.spec_schema_version() == b.spec_schema_version()
}

/// No two records share a key and schema version.
pub open spec fn unique_identities(s: Seq<Extension>) -> bool {
    forall|i: int, j: int| 0 <= i < j < s.len() ==> !same_identity(#[trigger] s[i], #[trigger] s[j])
}

/// Whether a record is public.
pub open spec fn is_public(e: Extension) -> bool {
    e.spec_visibility() == ExtensionVisibility::Public
}

/// Immutable extension records in caller-provided order.
#[derive(Debug, PartialEq, Eq)]
pub struct Extensions(Vec<Extension>);

impl View for Extensions {
    type V = Seq<Extension>;

    closed spec fn view(&self) -> Seq<Extension> {
        self.0@
    }
}

impl Extensions {
    #[verifier::type_invariant]
    closed spec fn inv(self) -> bool {
        unique_identities(self.0@)
    }

    /// No two records share a key and schema version.
    pub fn check_unique(&self)
        ensures
            unique_identities(self@),
    {
        proof {
            use_type_invariant(self);
        }
    }

    /// Creates an empty extension collection.
    pub fn empty() -> (r: Self)
        ensures
            r@ == Seq::<Extension>::empty(),
    {
        Extensions(Vec::new())
    }

    /// Creates extensions after rejecting duplicate key and schema-version pairs.
    pub fn try_from_iter(extensions: Vec<Extension>) -> (r: Result<Self, MuxivaError>)
        ensures
            r is Ok <==> unique_identities(extensions@),
            r matches Ok(x) ==> x@ == extensions@,
            r matches Err(e) ==> e.spec_code() == "MUXIVA-FRM-EXTENSION-DUPLICATE"@ && e.spec_category()
                == ErrorCategory::Validation,
    {
        let n = extensions.len();
        let mut j: usize = 0;
        while j < n
            invariant
                n == extensions@.len(),
                0 <= j <= n,
                forall|a: int, b: int| 0 <= a < b < j ==> !same_identity(#[trigger] extensions@[a], #[trigger] extensions@[b]),
            decreases n - j,
        {
            let mut i: usize = 0;
            while i < j
                invariant
                    n == extensions@.len(),
                    0 <= i <= j < n,
                    forall|a: int| 0 <= a < i ==> !same_identity(#[trigger] extensions@[a], extensions@[j as int]),
                decreases j - i,
            {
                let same_key = compare_bytes(extensions[i].key_bytes(), extensions[j].key_bytes()) == KeyOrder::Equal;
                if same_key && extensions[i].schema_version == extensions[j].schema_version {
                    proof {
                        reveal_strlit("MUXIVA-FRM-EXTENSION-DUPLICATE");
                        assert("MUXIVA-FRM-EXTENSION-DUPLICATE"@.subrange(0, 7) =~= code_prefix());
                        assert(same_identity(extensions@[i as int], extensions@[j as int]));
                    }
                    return Err(
                        MuxivaError::new(
                            ErrorCategory::Validation,
                            "MUXIVA-FRM-EXTENSION-DUPLICATE",
                            "extension key and schema version must be unique",
                        ),
                    );
                }
                i = i + 1;
            }
            j = j + 1;
        }
        Ok(Extensions(extensions))
    }

    /// Returns the first extension identified by its key and schema version.
    pub fn get(&self, key: &str, version: u32) -> (r: Option<&Extension>)
        ensures
            match r {
                Some(e) => exists|p: int| {
                    &&& 0 <= p < self@.len()
                    &&& #[trigger] self@[p] == *e
                    &&& e.spec_key_bytes() == vstd::utf8::encode_utf8(key@)
                    &&& e.spec_schema_version() == version
                    &&& forall|q: int| 0 <= q < p ==> !(self@[q].spec_key_bytes() == vstd::utf8::encode_utf8(key@)
                        && self@[q].spec_schema_version() == version)
                },
                None => forall|q: int| 0 <= q < self@.len() ==> !(#[trigger] self@[q].spec_key_bytes() == vstd::utf8::encode_utf8(key@)
                    && self@[q].spec_schema_version() == version),
            },
    {
        let kb = key.as_bytes();
        let mut i: usize = 0;
        while i < self.0.len()
            invariant
                kb@ == vstd::utf8::encode_utf8(key@),
                0 <= i <= self@.len(),
                self@ == self.0@,
                forall|q: int| 0 <= q < i ==> !(#[trigger] self@[q].spec_key_bytes() == kb@ && self@[q].spec_schema_version() == version),
            decreases self@.len() - i,
        {
            if compare_bytes(self.0[i].key_bytes(), kb) == KeyOrder::Equal && self.0[i].schema_version == version {
                proof {
                    assert(self@[i as int] == self.0@[i as int]);
                }
                return Some(&self.0[i]);
            }
            i = i + 1;
        }
        None
    }

    /// Every extension in input order.
    pub fn iter(&self) -> (r: &[Extension])
        ensures
            r@ == self@,
    {
        self.0.as_slice()
    }

    /// Public extensions in input order.
    pub fn public_iter(&self) -> (r: Vec<&Extension>)
        ensures
            r@.map_values(|x: &Extension| *x) == self@.filter(|e: Extension| is_public(e)),
    {
        let mut out: Vec<&Extension> = Vec::new();
        let mut i: usize = 0;
        while i < self.0.len()
            invariant
                0 <= i <= self@.len(),
                self@ == self.0@,
                out@.map_values(|x: &Extension| *x) == self@.take(i as int).filter(|e: Extension| is_public(e)),
            decreases self@.len() - i,
        {
            proof {
                reveal_with_fuel(Seq::<_>::filter, 1);
                assert(self@.take(i + 1).drop_last() =~= self@.take(i as int));
            }
            if self.0[i].visibility == ExtensionVisibility::Public {
                out.push(&self.0[i]);
                proof {
                    assert(out@.map_values(|x: &Extension| *x) =~= self@.take(i + 1).filter(|e: Extension| is_public(e)));
                }
            } else {
                proof {
                    assert(out@.map_values(|x: &Extension| *x) =~= self@.take(i + 1).filter(|e: Extension| is_public(e)));
                }
            }
            i = i + 1;
        }
        proof {
            assert(self@.take(i as int) =~= self@);
        }
        out
    }

    /// Returns the number of extensions.
    pub fn len(&self) -> (r: usize)
        ensures
            r == self@.len(),
    {
        self.0.len()
    }

    /// Returns whether there are no extensions.
    pub fn is_empty(&self) -> (r: bool)
        ensures
            r == (self@.len() == 0),
    {
        self.0.len() == 0
    }
}

} // verus!
