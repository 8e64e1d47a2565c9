//! Versioned node-factory identities and the registry of factories.
use vstd::prelude::*;

use crate::text::{is_ascii_alphanumeric};

verus! {

/// The implementation language of a registered node factory.
#[derive(Clone, Copy, Debug, PartialEq, Eq, PartialOrd, Ord, Hash, Structural)]
pub enum NodeLanguage {
    Rust,
    Cpp,
    Python,
    TypeScript,
}

/// The stable lowercase name of a language.
pub open spec fn language_name(l: NodeLanguage) -> Seq<char> {
    match l {
        NodeLanguage::Rust => "rust"@,
        NodeLanguage::Cpp => "cpp"@,
        NodeLanguage::Python => "python"@,
        NodeLanguage::TypeScript => "typescript"@,
    }
}

impl NodeLanguage {
    /// Returns the stable lowercase name.
    pub fn as_str(self) -> (r: &'static str)
        ensures
            r@ == language_name(self),
    {
        match self {
            NodeLanguage::Rust => "rust",
            NodeLanguage::Cpp => "cpp",
            NodeLanguage::Python => "python",
            NodeLanguage::TypeScript => "typescript",
        }
    }

    /// Parses a stable lowercase name.
    pub fn parse(value: &str) -> (r: Option<NodeLanguage>)
        ensures
            match r {
                Some(l) => language_name(l) == value@,
                None => forall|l: NodeLanguage| language_name(l) != value@,
            },
    {
        proof {
            reveal_strlit("rust");
            reveal_strlit("cpp");
            reveal_strlit("python");
            reveal_strlit("typescript");
        }
        if str_equal(value, "rust") {
            Some(NodeLanguage::Rust)
        } else if str_equal(value, "cpp") {
            Some(NodeLanguage::Cpp)
        } else if str_equal(value, "python") {
            Some(NodeLanguage::Python)
        } else if str_equal(value, "typescript") {
            Some(NodeLanguage::TypeScript)
        } else {
            proof {
                assert forall|l: NodeLanguage| language_name(l) != value@ by {
                    match l {
                        NodeLanguage::Rust => {},
                        NodeLanguage::Cpp => {},
                        NodeLanguage::Python => {},
                        NodeLanguage::TypeScript => {},
                    }
                }
            }
            None
        }
    }
}

/// Compares two strings by their characters.
pub fn str_equal(a: &str, b: &str) -> (r: bool)
    ensures
        r == (a@ == b@),
{
    let x = a.as_bytes();
    let y = b.as_bytes();
    let same = crate::bytes_order::compare_bytes(x, y) == crate::bytes_order::KeyOrder::Equal;
    proof {
        if same {
            crate::string_set::lemma_utf8_injective(a@, b@);
        }
    }
    same
}

/// The characters with the Unicode `White_Space` property, which `str::trim`
/// removes from both ends.
pub open spec fn is_unicode_whitespace(c: char) -> bool {
    ||| '\u{9}' <= c <= '\u{d}'
    ||| c == ' '
    ||| c == '\u{85}'
    ||| c == '\u{a0}'
    ||| c == '\u{1680}'
    ||| '\u{2000}' <= c <= '\u{200a}'
    ||| c == '\u{2028}'
    ||| c == '\u{2029}'
    ||| c == '\u{202f}'
    ||| c == '\u{205f}'
    ||| c == '\u{3000}'
}

pub(crate) fn is_whitespace_char(c: char) -> (r: bool)
    ensures
        r == is_unicode_whitespace(c),
{
    ('\u{9}' <= c && c <= '\u{d}') || c == ' ' || c == '\u{85}' || c == '\u{a0}' || c == '\u{1680}'
        || ('\u{2000}' <= c && c <= '\u{200a}') || c == '\u{2028}' || c == '\u{2029}' || c
        == '\u{202f}' || c == '\u{205f}' || c == '\u{3000}'
}

/// A byte allowed in a factory version: ASCII letter, digit, `.`, `-`, `+`, `_`.
pub open spec fn is_version_byte(b: u8) -> bool {
    ||| 0x30 <= b <= 0x39
    ||| 0x41 <= b <= 0x5a
    ||| 0x61 <= b <= 0x7a
    ||| b == 0x2e
    ||| b == 0x2d
    ||| b == 0x2b
    ||| b == 0x5f
}

/// Why a factory version was rejected, in the order the checks run.
#[derive(Clone, Copy, Debug, PartialEq, Eq, Structural)]
pub enum NodeFactoryVersionError {
    Empty,
    TooLong,
    LeadingOrTrailingWhitespace,
    InvalidCharacter,
}

/// The human-readable explanation of a rejected factory version.
pub open spec fn version_error_message(e: NodeFactoryVersionError) -> Seq<char> {
    match e {
        NodeFactoryVersionError::Empty => "node factory version must not be empty"@,
        NodeFactoryVersionError::TooLong => "node factory version must be at most 64 bytes"@,
        NodeFactoryVersionError::LeadingOrTrailingWhitespace => "node factory version must not have leading or trailing whitespace"@,
        NodeFactoryVersionError::InvalidCharacter => "node factory version may contain only ASCII letters, digits, '.', '-', '+', and '_'"@,
    }
}

impl NodeFactoryVersionError {
    /// The human-readable explanation.
    pub fn message(&self) -> (r: &'static str)
        ensures
            r@ == version_error_message(*self),
    {
        match self {
            NodeFactoryVersionError::Empty => "node factory version must not be empty",
            NodeFactoryVersionError::TooLong => "node factory version must be at most 64 bytes",
            NodeFactoryVersionError::LeadingOrTrailingWhitespace => "node factory version must not have leading or trailing whitespace",
            NodeFactoryVersionError::InvalidCharacter => "node factory version may contain only ASCII letters, digits, '.', '-', '+', and '_'",
        }
    }
}

/// The outcome of validating a factory version text.
pub open spec fn version_check(v: Seq<char>) -> Option<NodeFactoryVersionError> {
    let bytes = vstd::utf8::encode_utf8(v);
    if v.len() == 0 {
        Some(NodeFactoryVersionError::Empty)
    } else if bytes.len() > 64 {
        Some(NodeFactoryVersionError::TooLong)
    } else if is_unicode_whitespace(v[0]) || is_unicode_whitespace(v[v.len() - 1]) {
        Some(NodeFactoryVersionError::LeadingOrTrailingWhitespace)
    } else if !(forall|i: int| 0 <= i < bytes.len() ==> is_version_byte(#[trigger] bytes[i])) {
        Some(NodeFactoryVersionError::InvalidCharacter)
    } else {
        None
    }
}

/// An exact, stable node-factory contract version.
///
/// Versions are opaque protocol identifiers rather than an ordering promise.
#[derive(Clone, Debug, PartialEq, Eq, PartialOrd, Ord, Hash)]
pub struct NodeFactoryVersion(String);

impl View for NodeFactoryVersion {
    type V = Seq<char>;

    closed spec fn view(&self) -> Seq<char> {
        self.0@
    }
}

impl NodeFactoryVersion {
    /// Validates and wraps a version identifier.
    pub fn new(value: String) -> (r: Result<Self, NodeFactoryVersionError>)
        ensures
            match version_check(value@) {
                None => r matches Ok(v) && v@ == value@,
                Some(e) => r == Err::<Self, NodeFactoryVersionError>(e),
            },
    {
        let s = value.as_str();
        let bytes = s.as_bytes();
        proof {
            assert(bytes@ == vstd::utf8::encode_utf8(value@));
            vstd::utf8::encode_utf8_valid_utf8(value@);
        }
        if bytes.len() == 0 {
            proof {
                lemma_utf8_empty(value@);
            }
            return Err(NodeFactoryVersionError::Empty);
        }
        proof {
            lemma_utf8_nonempty(value@);
        }
        if bytes.len() > 64 {
            return Err(NodeFactoryVersionError::TooLong);
        }
        let n = s.unicode_len();
        let first = s.get_char(0);
        let last = s.get_char(n - 1);
        if is_whitespace_char(first) || is_whitespace_char(last) {
            return Err(NodeFactoryVersionError::LeadingOrTrailingWhitespace);
        }
        let mut i: usize = 0;
        while i < bytes.len()
            invariant
                bytes@ == vstd::utf8::encode_utf8(value@),
                value@.len() > 0,
                bytes@.len() <= 64,
                !(is_unicode_whitespace(value@[0]) || is_unicode_whitespace(value@[value@.len() - 1])),
                0 <= i <= bytes@.len(),
                forall|k: int| 0 <= k < i ==> is_version_byte(#[trigger] bytes@[k]),
            decreases bytes@.len() - i,
        {
            let b = bytes[i];
            if !((0x30 <= b && b <= 0x39) || (0x41 <= b && b <= 0x5a) || (0x61 <= b && b <= 0x7a)
                || b == 0x2e || b == 0x2d || b == 0x2b || b == 0x5f) {
                return Err(NodeFactoryVersionError::InvalidCharacter);
            }
            i = i + 1;
        }
        Ok(NodeFactoryVersion(value))
    }

    /// Returns the identifier text.
    pub fn as_str(&self) -> (r: &str)
        ensures
            r@ == self@,
    {
        self.0.as_str()
    }

    /// A copy of the version.
    pub fn duplicate(&self) -> (r: Self)
        ensures
            r@ == self@,
    {
        NodeFactoryVersion(self.0.clone())
    }
}

proof fn lemma_utf8_empty(s: Seq<char>)
    requires
        vstd::utf8::encode_utf8(s).len() == 0,
    ensures
        s.len() == 0,
{
    if s.len() > 0 {
        lemma_utf8_nonempty(s);
    }
}

proof fn lemma_utf8_nonempty(s: Seq<char>)
    ensures
        s.len() > 0 ==> vstd::utf8::encode_utf8(s).len() > 0,
        s.len() == 0 ==> vstd::utf8::encode_utf8(s).len() == 0,
{
    vstd::utf8::encode_utf8_decode_utf8(s);
    if s.len() == 0 {
        assert(vstd::utf8::encode_utf8(s) =~= Seq::<u8>::empty()) by {
            reveal_with_fuel(vstd::utf8::encode_utf8, 1);
        }
    } else if vstd::utf8::encode_utf8(s).len() == 0 {
        assert(vstd::utf8::encode_utf8(s) =~= Seq::<u8>::empty());
        reveal_with_fuel(vstd::utf8::decode_utf8, 1);
    }
}

/// A stable failure returned by trusted factory configuration or creation code.
#[derive(Clone, Debug, PartialEq, Eq)]
pub struct NodeFactoryError {
    code: String,
    message: String,
}

impl NodeFactoryError {
    /// The failure code.
    pub closed spec fn spec_code(&self) -> Seq<char> {
        self.code@
    }

    /// The failure message.
    pub closed spec fn spec_message(&self) -> Seq<char> {
        self.message@
    }

    /// Creates a factory failure.
    pub fn new(code: &str, message: &str) -> (r: Self)
        ensures
            r.spec_code() == code@,
            r.spec_message() == message@,
    {
        NodeFactoryError { code: code.to_owned(), message: message.to_owned() }
    }

    /// Returns the failure code.
    pub fn code(&self) -> (r: &str)
        ensures
            r@ == self.spec_code(),
    {
        self.code.as_str()
    }

    /// Returns the failure message.
    pub fn message(&self) -> (r: &str)
        ensures
            r@ == self.spec_message(),
    {
        self.message.as_str()
    }

    /// Renders `code: message`.
    pub fn to_display_string(&self) -> (r: String)
        ensures
            r@ == self.spec_code() + ": "@ + self.spec_message(),
    {
        let mut out = String::from_str(self.code.as_str());
        out.append(": ");
        out.append(self.message.as_str());
        out
    }
}

/// The stage of node creation that failed.
#[derive(Clone, Copy, Debug, PartialEq, Eq, Structural)]
pub enum NodeCreationStage {
    ValidateConfig,
    Create,
}

} // verus!
