//! Immutable, reference-counted byte payloads.
use std::sync::Arc;
use vstd::prelude::*;

verus! {

/// Immutable, reference-counted bytes. Clones share one allocation.
#[derive(Debug)]
pub struct FrameBuffer(Arc<Vec<u8>>);

impl View for FrameBuffer {
    type V = Seq<u8>;

    closed spec fn view(&self) -> Seq<u8> {
        self.0@
    }
}

/// Counts the handles that share the allocation behind `a` (`Arc::strong_count`).
#[verifier::external_body]
fn arc_strong_count(a: &Arc<Vec<u8>>) -> (r: usize)
    ensures
        r >= 1,
{
    Arc::strong_count(a)
}

impl FrameBuffer {
    /// Moves a vector into immutable shared storage.
    pub fn from_vec(bytes: Vec<u8>) -> (r: Self)
        ensures
            r@ == bytes@,
    {
        FrameBuffer(Arc::new(bytes))
    }

    /// Moves a boxed byte slice into immutable shared storage.
    pub fn from_boxed_slice(bytes: Box<[u8]>) -> (r: Self)
        ensures
            r@ == bytes@,
    {
        let v = bytes.into_vec();
        FrameBuffer(Arc::new(v))
    }

    /// Returns the immutable bytes.
    pub fn as_slice(&self) -> (r: &[u8])
        ensures
            r@ == self@,
    {
        self.0.as_slice()
    }

    /// Returns the byte length.
    pub fn len(&self) -> (r: usize)
        ensures
            r == self@.len(),
    {
        self.0.len()
    }

    /// Returns whether the buffer has no bytes.
    pub fn is_empty(&self) -> (r: bool)
        ensures
            r == (self@.len() == 0),
    {
        self.0.len() == 0
    }

    /// Returns how many buffers currently share this allocation.
    pub fn share_count(&self) -> (r: usize)
        ensures
            r >= 1,
    {
        arc_strong_count(&self.0)
    }

    /// Renders the length-only diagnostic form `FrameBuffer { len: N }`.
    pub fn debug_string(&self) -> (r: String)
        ensures
            r@ == "FrameBuffer { len: "@ + crate::text::decimal_digits(self@.len()) + " }"@,
    {
        let mut out = String::from_str("FrameBuffer { len: ");
        let digits = crate::text::u64_decimal(self.0.len() as u64);
        out.append(digits.as_str());
        out.append(" }");
        out
    }

    /// Compares the bytes of two buffers.
    pub fn same_bytes(&self, other: &FrameBuffer) -> (r: bool)
        ensures
            r == (self@ == other@),
    {
        let a = self.as_slice();
        let b = other.as_slice();
        if a.len() != b.len() {
            return false;
        }
        let mut i: usize = 0;
        while i < a.len()
            invariant
                a@ == self@,
                b@ == other@,
                a@.len() == b@.len(),
                0 <= i <= a@.len(),
                forall|k: int| 0 <= k < i ==> a@[k] == b@[k],
            decreases a@.len() - i,
        {
            if a[i] != b[i] {
                return false;
            }
            i = i + 1;
        }
        proof {
            assert(a@ =~= b@);
        }
        true
    }
}

/// Creates another handle to the allocation behind `a` (`Arc::clone`); both
/// handles reach the same bytes.
#[verifier::external_body]
fn arc_share(a: &Arc<Vec<u8>>) -> (r: Arc<Vec<u8>>)
    ensures
        r@ == a@,
{
    Arc::clone(a)
}

impl Clone for FrameBuffer {
    /// Shares the same allocation; no bytes are copied.
    fn clone(&self) -> (r: Self)
        ensures
            r@ == self@,
    {
        FrameBuffer(arc_share(&self.0))
    }
}

impl PartialEq for FrameBuffer {
    fn eq(&self, other: &Self) -> (r: bool) {
        self.same_bytes(other)
    }
}

impl Eq for FrameBuffer {}

impl vstd::std_specs::cmp::PartialEqSpecImpl for FrameBuffer {
    open spec fn obeys_eq_spec() -> bool {
        true
    }

    open spec fn eq_spec(&self, other: &FrameBuffer) -> bool {
        self@ == other@
    }
}

} // verus!
