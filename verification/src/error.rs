//! Structured errors with stable, validated codes.
use vstd::prelude::*;

use crate::text::{ascii_bytes, is_ascii_digit, is_ascii_upper};

verus! {

/// Classifies a failure for callers that need stable error handling.
#[derive(Clone, Copy, Debug, PartialEq, Eq, Hash, Structural)]
pub enum ErrorCategory {
    /// A supplied configuration is missing or invalid.
    Configuration,
    /// An input or requested operation failed validation.
    Validation,
    /// A lifecycle transition could not be completed.
    Lifecycle,
    /// Work was cancelled before completion.
    Cancelled,
    /// A dependency outside the runtime failed.
    External,
    /// The runtime encountered an unexpected internal failure.
    Internal,
}

/// Structured, non-display context attached to a [`MuxivaError`].
#[derive(Clone, Debug, PartialEq, Eq)]
pub enum ErrorContext {
    /// The session associated with the failure.
    Session(String),
    /// The graph node associated with the failure.
    Node(String),
    /// The stream associated with the failure.
    Stream(String),
    /// The phase in which the failure occurred.
    Phase(String),
    /// A named contextual detail.
    Detail { key: String, value: String },
}

/// The reason an error code was rejected.
#[derive(Clone, Copy, Debug, PartialEq, Eq, Structural)]
pub struct ErrorCodeError;

impl ErrorCodeError {
    /// The human-readable explanation of the code rule.
    pub fn message(&self) -> (r: &'static str)
        ensures
            r@ == "error code must start with MUXIVA-, be 6 through 64 bytes, and contain only uppercase ASCII letters, digits, and hyphens"@,
    {
        "error code must start with MUXIVA-, be 6 through 64 bytes, and contain only uppercase ASCII letters, digits, and hyphens"
    }
}

/// A character allowed in a stable error code.
pub open spec fn is_code_char(c: char) -> bool {
    is_ascii_upper(c) || is_ascii_digit(c) || c == '-'
}

/// The mandatory prefix of every stable error code.
pub open spec fn code_prefix() -> Seq<char> {
    seq!['M', 'U', 'X', 'I', 'V', 'A', '-']
}

/// A stable code: 6 through 64 bytes, starting with `MUXIVA-`, made only of
/// uppercase ASCII letters, digits and hyphens. All allowed characters are
/// single-byte, so the character count equals the byte length.
pub open spec fn valid_code(code: Seq<char>) -> bool {
    &&& 6 <= code.len() <= 64
    &&& code.len() >= 7
    &&& code.subrange(0, 7) == code_prefix()
    &&& forall|i: int| 0 <= i < code.len() ==> #[trigger] is_code_char(code[i])
}

/// Returns whether `code` is a valid stable error code.
pub fn is_valid_code(code: &str) -> (r: bool)
    ensures
        r == valid_code(code@),
{
    let bytes = match ascii_bytes(code) {
        Some(bytes) => bytes,
        None => {
            proof {
                let i = choose|i: int| 0 <= i < code@.len() && !('\0' <= #[trigger] code@[i] <= '\u{7f}');
                assert(!is_code_char(code@[i]));
            }
            return false;
        },
    };
    let len = bytes.len();
    if len < 6 || len > 64 || len < 7 {
        return false;
    }
    if !(bytes[0] == 0x4d && bytes[1] == 0x55 && bytes[2] == 0x58 && bytes[3] == 0x49
        && bytes[4] == 0x56 && bytes[5] == 0x41 && bytes[6] == 0x2d) {
        proof {
            if code@.subrange(0, 7) == code_prefix() {
                assert(code@[0] == code@.subrange(0, 7)[0]);
                assert(code@[1] == code@.subrange(0, 7)[1]);
                assert(code@[2] == code@.subrange(0, 7)[2]);
                assert(code@[3] == code@.subrange(0, 7)[3]);
                assert(code@[4] == code@.subrange(0, 7)[4]);
                assert(code@[5] == code@.subrange(0, 7)[5]);
                assert(code@[6] == code@.subrange(0, 7)[6]);
            }
        }
        return false;
    }
    proof {
        assert(code@.subrange(0, 7) =~= code_prefix());
    }
    let mut i: usize = 0;
    while i < len
        invariant
            len == bytes@.len(),
            len == code@.len(),
            forall|k: int| 0 <= k < code@.len() ==> bytes@[k] as int == code@[k] as int,
            0 <= i <= len,
            forall|k: int| 0 <= k < i ==> #[trigger] is_code_char(code@[k]),
        decreases len - i,
    {
        let b = bytes[i];
        if !((0x41 <= b && b <= 0x5a) || (0x30 <= b && b <= 0x39) || b == 0x2d) {
            proof {
                assert(!is_code_char(code@[i as int]));
            }
            return false;
        }
        i = i + 1;
    }
    true
}

/// A structured error with a stable code and an optional source description.
#[derive(Clone, Debug)]
pub struct MuxivaError {
    category: ErrorCategory,
    code: String,
    message: String,
    contexts: Vec<ErrorContext>,
    cause: Option<String>,
}

impl MuxivaError {
    /// The error's category.
    pub closed spec fn spec_category(&self) -> ErrorCategory {
        self.category
    }

    /// The error's stable code.
    pub closed spec fn spec_code(&self) -> Seq<char> {
        self.code@
    }

    /// The error's human-readable message.
    pub closed spec fn spec_message(&self) -> Seq<char> {
        self.message@
    }

    /// The contexts in the order they were attached.
    pub closed spec fn spec_contexts(&self) -> Seq<ErrorContext> {
        self.contexts@
    }

    /// The attached source description, if any.
    pub closed spec fn spec_cause(&self) -> Option<Seq<char>> {
        match self.cause {
            Some(c) => Some(c@),
            None => None,
        }
    }

    /// Creates an error whose stable code must be valid.
    ///
    /// An invalid code is a programming error; use [`Self::try_new`] when
    /// handling invalid input is required.
    pub fn new(category: ErrorCategory, code: &str, message: &str) -> (r: Self)
        requires
            valid_code(code@),
        ensures
            r.spec_category() == category,
            r.spec_code() == code@,
            r.spec_message() == message@,
            r.spec_contexts() == Seq::<ErrorContext>::empty(),
            r.spec_cause() is None,
    {
        Self {
            category,
            code: code.to_owned(),
            message: message.to_owned(),
            contexts: Vec::new(),
            cause: None,
        }
    }

    /// Creates an error after validating its stable code.
    pub fn try_new(category: ErrorCategory, code: &str, message: &str) -> (r: Result<Self, ErrorCodeError>)
        ensures
            r is Ok <==> valid_code(code@),
            r matches Ok(e) ==> {
                &&& e.spec_category() == category
                &&& e.spec_code() == code@
                &&& e.spec_message() == message@
                &&& e.spec_contexts() == Seq::<ErrorContext>::empty()
                &&& e.spec_cause() is None
            },
    {
        if !is_valid_code(code) {
            return Err(ErrorCodeError);
        }
        Ok(Self::new(category, code, message))
    }

    /// Attaches the node associated with this error.
    pub fn with_node(self, node: String) -> (r: Self)
        ensures
            r.spec_category() == self.spec_category(),
            r.spec_code() == self.spec_code(),
            r.spec_message() == self.spec_message(),
            r.spec_contexts() == self.spec_contexts().push(ErrorContext::Node(node)),
            r.spec_cause() == self.spec_cause(),
    {
        self.with_context_entry(ErrorContext::Node(node))
    }

    /// Attaches the phase in which this error occurred.
    pub fn with_phase(self, phase: &str) -> (r: Self)
        ensures
            r.spec_category() == self.spec_category(),
            r.spec_code() == self.spec_code(),
            r.spec_message() == self.spec_message(),
            r.spec_contexts().len() == self.spec_contexts().len() + 1,
            r.spec_contexts().drop_last() == self.spec_contexts(),
            r.spec_contexts().last() matches ErrorContext::Phase(p) && p@ == phase@,
            r.spec_cause() == self.spec_cause(),
    {
        self.with_context_entry(ErrorContext::Phase(phase.to_owned()))
    }

    /// Attaches a named detail to this error.
    pub fn with_context(self, key: &str, value: &str) -> (r: Self)
        ensures
            r.spec_category() == self.spec_category(),
            r.spec_code() == self.spec_code(),
            r.spec_message() == self.spec_message(),
            r.spec_contexts().len() == self.spec_contexts().len() + 1,
            r.spec_contexts().drop_last() == self.spec_contexts(),
            r.spec_contexts().last() matches ErrorContext::Detail { key: k, value: v } && k@
                == key@ && v@ == value@,
            r.spec_cause() == self.spec_cause(),
    {
        self.with_context_entry(ErrorContext::Detail { key: key.to_owned(), value: value.to_owned() })
    }

    fn with_context_entry(self, context: ErrorContext) -> (r: Self)
        ensures
            r.spec_category() == self.spec_category(),
            r.spec_code() == self.spec_code(),
            r.spec_message() == self.spec_message(),
            r.spec_contexts() == self.spec_contexts().push(context),
            r.spec_cause() == self.spec_cause(),
    {
        let mut e = self;
        e.contexts.push(context);
        e
    }

    /// Attaches the description of an underlying source error.
    pub fn with_source(self, source: String) -> (r: Self)
        ensures
            r.spec_category() == self.spec_category(),
            r.spec_code() == self.spec_code(),
            r.spec_message() == self.spec_message(),
            r.spec_contexts() == self.spec_contexts(),
            r.spec_cause() == Some(source@),
    {
        let mut e = self;
        e.cause = Some(source);
        e
    }

    /// Returns the attached source description, if any.
    pub fn source(&self) -> (r: Option<&str>)
        ensures
            match r {
                Some(s) => self.spec_cause() == Some(s@),
                None => self.spec_cause() is None,
            },
    {
        match &self.cause {
            Some(c) => Some(c.as_str()),
            None => None,
        }
    }

    /// Returns this error's stable category.
    pub fn category(&self) -> (r: ErrorCategory)
        ensures
            r == self.spec_category(),
    {
        self.category
    }

    /// Returns this error's stable code.
    pub fn code(&self) -> (r: &str)
        ensures
            r@ == self.spec_code(),
    {
        self.code.as_str()
    }

    /// Returns this error's human-readable message.
    pub fn message(&self) -> (r: &str)
        ensures
            r@ == self.spec_message(),
    {
        self.message.as_str()
    }

    /// Returns contextual data in the order it was added.
    pub fn contexts(&self) -> (r: &[ErrorContext])
        ensures
            r@ == self.spec_contexts(),
    {
        self.contexts.as_slice()
    }

    /// Renders `[code] message`. Context values are never rendered.
    pub fn to_display_string(&self) -> (r: String)
        ensures
            r@ == seq!['['] + self.spec_code() + seq![']', ' '] + self.spec_message(),
    {
        let mut out = String::from_str("[");
        out.append(self.code.as_str());
        out.append("] ");
        out.append(self.message.as_str());
        proof {
            reveal_strlit("[");
            reveal_strlit("] ");
        }
        out
    }
}

} // verus!
