//! A closed, owned value algebra for metadata and extension values.
use vstd::prelude::*;

use crate::bytes_order::{compare_bytes, lemma_lex_irreflexive, lemma_lex_total, lemma_lex_transitive, lex_lt, KeyOrder};
use crate::error::{code_prefix, ErrorCategory, MuxivaError};
use crate::frame_buffer::FrameBuffer;

verus! {

/// The IEEE-754 bits of a finite `f64`: the exponent field is not all ones.
pub open spec fn finite_bits(bits: u64) -> bool {
    (bits >> 52u64) & 0x7ffu64 != 0x7ffu64
}

/// A finite floating-point value, held as its IEEE-754 bit pattern.
#[derive(Clone, Copy, Debug, PartialEq, Eq, Structural)]
pub struct FiniteF64(u64);

impl FiniteF64 {
    /// The bit pattern of this value.
    pub closed spec fn spec_bits(self) -> u64 {
        self.0
    }

    /// Creates a finite value from the bits of an `f64` (`f64::to_bits`).
    /// NaN and the infinities are rejected.
    pub fn new(bits: u64) -> (r: Result<Self, MuxivaError>)
        ensures
            r is Ok <==> finite_bits(bits),
            r matches Ok(f) ==> f.spec_bits() == bits,
            r matches Err(e) ==> e.spec_code() == "MUXIVA-FRM-VALUE-NUMBER"@ && e.spec_category()
                == ErrorCategory::Validation,
    {
        if (bits >> 52u64) & 0x7ffu64 != 0x7ffu64 {
            Ok(FiniteF64(bits))
        } else {
            proof {
                reveal_strlit("MUXIVA-FRM-VALUE-NUMBER");
                assert("MUXIVA-FRM-VALUE-NUMBER"@.subrange(0, 7) =~= code_prefix());
            }
            Err(
                MuxivaError::new(
                    ErrorCategory::Validation,
                    "MUXIVA-FRM-VALUE-NUMBER",
                    "value must be a finite number",
                ),
            )
        }
    }

    /// Returns the bit pattern of the finite value (`f64::from_bits` restores it).
    pub fn get(self) -> (r: u64)
        ensures
            r == self.spec_bits(),
    {
        self.0
    }
}

/// A closed, owned value algebra for metadata and extension values.
#[derive(Debug, PartialEq, Eq)]
pub enum Value {
    /// An absent value.
    Null,
    /// A boolean value.
    Bool(bool),
    /// A signed integer value.
    Integer(i64),
    /// A finite floating-point value.
    Float(FiniteF64),
    /// An owned UTF-8 string.
    String(String),
    /// Immutable owned bytes.
    Bytes(FrameBuffer),
    /// An ordered owned list.
    List(Vec<Value>),
    /// An ordered, validated string-keyed map.
    Dict(ValueMap),
}

/// The UTF-8 bytes of a key.
pub open spec fn key_bytes(k: String) -> Seq<u8> {
    vstd::utf8::encode_utf8(k@)
}

/// A valid key: 1 through 255 bytes, none of them an ASCII control.
pub open spec fn valid_key_bytes(b: Seq<u8>) -> bool {
    &&& 0 < b.len() <= 255
    &&& forall|i: int| 0 <= i < b.len() ==> !(#[trigger] b[i] <= 0x1f || b[i] == 0x7f)
}

/// Entries strictly sorted by the byte order of their keys.
#[verifier::opaque]
pub open spec fn strictly_sorted(e: Seq<(String, Value)>) -> bool {
    forall|i: int, j: int| 0 <= i < j < e.len() ==> lex_lt(key_bytes(#[trigger] e[i].0), key_bytes(#[trigger] e[j].0))
}

/// Every key in the sequence is valid.
#[verifier::opaque]
pub open spec fn all_keys_valid(e: Seq<(String, Value)>) -> bool {
    forall|i: int| 0 <= i < e.len() ==> valid_key_bytes(key_bytes(#[trigger] e[i].0))
}

/// No two entries share a key.
#[verifier::opaque]
pub open spec fn distinct_keys(e: Seq<(String, Value)>) -> bool {
    forall|i: int, j: int| 0 <= i < j < e.len() ==> key_bytes(#[trigger] e[i].0) != key_bytes(#[trigger] e[j].0)
}

/// `a` holds exactly the entries of `b`, possibly in another order.
#[verifier::opaque]
pub open spec fn same_entries(a: Seq<(String, Value)>, b: Seq<(String, Value)>) -> bool {
    &&& a.len() == b.len()
    &&& forall|j: int| 0 <= j < b.len() ==> exists|p: int| 0 <= p < a.len() && a[p] == #[trigger] b[j]
    &&& forall|p: int| 0 <= p < a.len() ==> exists|j: int| 0 <= j < b.len() && #[trigger] a[p] == b[j]
}

/// The UTF-8 bytes of a key string.
pub fn key_slice(k: &String) -> (r: &[u8])
    ensures
        r@ == key_bytes(*k),
{
    let s = k.as_str();
    let b = s.as_bytes();
    proof {
        assert(b@ == vstd::utf8::encode_utf8(s@));
    }
    b
}

fn invalid_key_error() -> (e: MuxivaError)
    ensures
        e.spec_code() == "MUXIVA-FRM-VALUE-KEY"@,
        e.spec_category() == ErrorCategory::Validation,
{
    proof {
        reveal_strlit("MUXIVA-FRM-VALUE-KEY");
        assert("MUXIVA-FRM-VALUE-KEY"@.subrange(0, 7) =~= code_prefix());
    }
    MuxivaError::new(
        ErrorCategory::Validation,
        "MUXIVA-FRM-VALUE-KEY",
        "value map key must be non-empty, at most 255 bytes, and contain no ASCII controls",
    )
}

/// Validates one value-map key.
pub fn validate_key(key: &str) -> (r: Result<(), MuxivaError>)
    ensures
        r is Ok <==> valid_key_bytes(vstd::utf8::encode_utf8(key@)),
        r matches Err(e) ==> e.spec_code() == "MUXIVA-FRM-VALUE-KEY"@,
{
    let b = key.as_bytes();
    proof {
        assert(b@ == vstd::utf8::encode_utf8(key@));
    }
    if b.len() == 0 || b.len() > 255 {
        return Err(invalid_key_error());
    }
    let mut i: usize = 0;
    while i < b.len()
        invariant
            b@ == vstd::utf8::encode_utf8(key@),
            0 < b@.len() <= 255,
            0 <= i <= b@.len(),
            forall|k: int| 0 <= k < i ==> !(#[trigger] b@[k] <= 0x1f || b@[k] == 0x7f),
        decreases b@.len() - i,
    {
        if b[i] <= 0x1f || b[i] == 0x7f {
            return Err(invalid_key_error());
        }
        i = i + 1;
    }
    Ok(())
}

/// Finds where a key belongs in sorted entries: the index of the first entry
/// that does not sort before it, and whether that entry has the same key.
fn find_position(entries: &Vec<(String, Value)>, kb: &[u8]) -> (r: (usize, bool))
    requires
        strictly_sorted(entries@),
    ensures
        0 <= r.0 <= entries@.len(),
        r.1 ==> r.0 < entries@.len() && key_bytes(entries@[r.0 as int].0) == kb@,
        !r.1 ==> forall|q: int| r.0 <= q < entries@.len() ==> lex_lt(kb@, key_bytes(#[trigger] entries@[q].0)),
        forall|q: int| 0 <= q < r.0 ==> lex_lt(key_bytes(#[trigger] entries@[q].0), kb@),
{
    reveal(strictly_sorted);
    reveal(all_keys_valid);
    reveal(distinct_keys);
    reveal(same_entries);
    let mut pos: usize = 0;
    let mut found_equal = false;
    let mut stop = false;
    while pos < entries.len() && !stop
        invariant
            0 <= pos <= entries@.len(),
            found_equal ==> stop,
            stop ==> pos < entries@.len(),
            found_equal ==> key_bytes(entries@[pos as int].0) == kb@,
            stop && !found_equal ==> lex_lt(kb@, key_bytes(entries@[pos as int].0)),
            forall|q: int| 0 <= q < pos ==> lex_lt(key_bytes(#[trigger] entries@[q].0), kb@),
        decreases entries@.len() - pos + (if stop { 0int } else { 1int }),
    {
        let order = compare_bytes(key_slice(&entries[pos].0), kb);
        match order {
            KeyOrder::Less => {
                pos = pos + 1;
            },
            KeyOrder::Equal => {
                found_equal = true;
                stop = true;
            },
            KeyOrder::Greater => {
                stop = true;
            },
        }
    }
    if !found_equal {
        proof {
            lemma_later_entries_after(entries@, kb@, pos as int);
        }
    }
    (pos, found_equal)
}

/// A deterministic map of validated string keys to values, iterated in
/// byte order of the keys.
#[derive(Debug, PartialEq, Eq)]
pub struct ValueMap {
    entries: Vec<(String, Value)>,
}

impl ValueMap {
    /// The entries in key order.
    pub closed spec fn spec_entries(&self) -> Seq<(String, Value)> {
        self.entries@
    }

    #[verifier::type_invariant]
    closed spec fn inv(self) -> bool {
        strictly_sorted(self.entries@) && all_keys_valid(self.entries@)
    }

    /// Keys are valid and strictly increasing, hence distinct.
    pub fn check_well_formed(&self)
        ensures
            self.well_formed(),
            forall|i: int, j: int| 0 <= i < self.spec_entries().len() && 0 <= j < self.spec_entries().len() && i != j
                ==> key_bytes(#[trigger] self.spec_entries()[i].0) != key_bytes(#[trigger] self.spec_entries()[j].0),
    {
        proof {
            use_type_invariant(self);
            reveal(strictly_sorted);
            assert forall|i: int, j: int| 0 <= i < self.spec_entries().len() && 0 <= j < self.spec_entries().len() && i != j
                implies key_bytes(#[trigger] self.spec_entries()[i].0) != key_bytes(#[trigger] self.spec_entries()[j].0) by {
                if i < j {
                    lemma_lex_irreflexive(key_bytes(self.spec_entries()[i].0));
                } else {
                    lemma_lex_irreflexive(key_bytes(self.spec_entries()[j].0));
                }
            }
        }
    }

    /// Every map has valid, distinct keys in strictly increasing byte order.
    pub open spec fn well_formed(&self) -> bool {
        &&& strictly_sorted(self.spec_entries())
        &&& all_keys_valid(self.spec_entries())
    }

    /// Creates an empty value map.
    pub fn empty() -> (r: Self)
        ensures
            r.spec_entries() == Seq::<(String, Value)>::empty(),
            r.well_formed(),
    {
        proof {
            reveal(strictly_sorted);
            reveal(all_keys_valid);
        }
        ValueMap { entries: Vec::new() }
    }

    /// Creates a map after validating every key and rejecting duplicates.
    #[verifier::rlimit(60)]
    pub fn try_from_iter(values: Vec<(String, Value)>) -> (r: Result<Self, MuxivaError>)
        ensures
            r is Ok <==> all_keys_valid(values@) && distinct_keys(values@),
            r matches Ok(m) ==> m.well_formed() && same_entries(m.spec_entries(), values@),
            r matches Err(e) ==> e.spec_code() == "MUXIVA-FRM-VALUE-KEY"@,
    {
        let ghost original = values@;
        let count = values.len();
        let mut input = values;
        let mut entries: Vec<(String, Value)> = Vec::new();
        let mut done: usize = 0;
        proof {
            reveal(strictly_sorted);
            reveal(all_keys_valid);
            reveal(distinct_keys);
            reveal(same_entries);
            assert(original.take(0) =~= Seq::<(String, Value)>::empty());
        }
        while input.len() > 0
            invariant
                original == values@,
                original.len() == count,
                done + input@.len() == original.len(),
                input@ == original.skip(done as int),
                strictly_sorted(entries@),
                all_keys_valid(entries@),
                all_keys_valid(original.take(done as int)),
                distinct_keys(original.take(done as int)),
                same_entries(entries@, original.take(done as int)),
            decreases input@.len(),
        {
            let ghost before = entries@;
            let (key, value) = input.remove(0);
            proof {
                assert(original[done as int] == (key, value));
                assert(input@ =~= original.skip(done + 1));
            }
            let key_str = key.as_str();
            proof {
                assert(key_str@ == key@);
            }
            if validate_key(key_str).is_err() {
                proof {
                    reveal(all_keys_valid);
                    assert(key_bytes(original[done as int].0) == vstd::utf8::encode_utf8(key@));
                    assert(!valid_key_bytes(key_bytes(original[done as int].0)));
                }
                return Err(invalid_key_error());
            }
            let kb = key_slice(&key);
            let (pos, found_equal) = find_position(&entries, kb);
            if found_equal {
                proof {
                    lemma_duplicate_found(original, before, done as int, pos as int);
                }
                return Err(invalid_key_error());
            }
            entries.insert(pos, (key, value));
            proof {
                lemma_insert_keeps_invariant(original, before, entries@, done as int, pos as int);
            }
            done = done + 1;
        }
        proof {
            assert(original.take(done as int) =~= original);
        }
        Ok(ValueMap { entries })
    }

    /// Returns the value associated with `key`.
    pub fn get(&self, key: &str) -> (r: Option<&Value>)
        ensures
            match r {
                Some(v) => exists|p: int| 0 <= p < self.spec_entries().len() && key_bytes(
                    #[trigger] self.spec_entries()[p].0,
                ) == vstd::utf8::encode_utf8(key@) && self.spec_entries()[p].1 == *v,
                None => forall|p: int| 0 <= p < self.spec_entries().len() ==> key_bytes(
                    #[trigger] self.spec_entries()[p].0,
                ) != vstd::utf8::encode_utf8(key@),
            },
    {
        let kb = key.as_bytes();
        let mut i: usize = 0;
        while i < self.entries.len()
            invariant
                kb@ == vstd::utf8::encode_utf8(key@),
                0 <= i <= self.entries@.len(),
                forall|p: int| 0 <= p < i ==> key_bytes(#[trigger] self.entries@[p].0) != kb@,
            decreases self.entries@.len() - i,
        {
            if compare_bytes(key_slice(&self.entries[i].0), kb) == KeyOrder::Equal {
                proof {
                    assert(self.spec_entries() == self.entries@);
                    assert(key_bytes(self.spec_entries()[i as int].0) == vstd::utf8::encode_utf8(key@));
                }
                return Some(&self.entries[i].1);
            }
            i = i + 1;
        }
        None
    }

    /// The entries in deterministic key order.
    pub fn iter(&self) -> (r: &[(String, Value)])
        ensures
            r@ == self.spec_entries(),
    {
        self.entries.as_slice()
    }

    /// Returns the number of entries.
    pub fn len(&self) -> (r: usize)
        ensures
            r == self.spec_entries().len(),
    {
        self.entries.len()
    }

    /// Returns whether there are no entries.
    pub fn is_empty(&self) -> (r: bool)
        ensures
            r == (self.spec_entries().len() == 0),
    {
        self.entries.len() == 0
    }
}

/// Immutable, deterministic metadata for a frame.
#[derive(Debug, PartialEq, Eq)]
pub struct Metadata(ValueMap);

impl Metadata {
    /// The entries in key order.
    pub closed spec fn spec_entries(&self) -> Seq<(String, Value)> {
        self.0.spec_entries()
    }

    /// Creates empty metadata.
    pub fn empty() -> (r: Self)
        ensures
            r.spec_entries() == Seq::<(String, Value)>::empty(),
    {
        Metadata(ValueMap::empty())
    }

    /// Creates metadata after validating every key and rejecting duplicates.
    pub fn try_from_iter(values: Vec<(String, Value)>) -> (r: Result<Self, MuxivaError>)
        ensures
            r is Ok <==> all_keys_valid(values@) && distinct_keys(values@),
            r matches Ok(m) ==> strictly_sorted(m.spec_entries()) && all_keys_valid(m.spec_entries())
                && same_entries(m.spec_entries(), values@),
            r matches Err(e) ==> e.spec_code() == "MUXIVA-FRM-VALUE-KEY"@,
    {
        match ValueMap::try_from_iter(values) {
            Ok(m) => Ok(Metadata(m)),
            Err(e) => Err(e),
        }
    }

    /// Returns the value associated with `key`.
    pub fn get(&self, key: &str) -> (r: Option<&Value>)
        ensures
            match r {
                Some(v) => exists|p: int| 0 <= p < self.spec_entries().len() && key_bytes(
                    #[trigger] self.spec_entries()[p].0,
                ) == vstd::utf8::encode_utf8(key@) && self.spec_entries()[p].1 == *v,
                None => forall|p: int| 0 <= p < self.spec_entries().len() ==> key_bytes(
                    #[trigger] self.spec_entries()[p].0,
                ) != vstd::utf8::encode_utf8(key@),
            },
    {
        let r = self.0.get(key);
        proof {
            assert(self.spec_entries() == self.0.spec_entries());
        }
        r
    }

    /// The entries in deterministic key order.
    pub fn iter(&self) -> (r: &[(String, Value)])
        ensures
            r@ == self.spec_entries(),
    {
        self.0.iter()
    }

    /// Returns the number of entries.
    pub fn len(&self) -> (r: usize)
        ensures
            r == self.spec_entries().len(),
    {
        self.0.len()
    }

    /// Returns whether there are no entries.
    pub fn is_empty(&self) -> (r: bool)
        ensures
            r == (self.spec_entries().len() == 0),
    {
        self.0.is_empty()
    }
}


proof fn lemma_duplicate_found(original: Seq<(String, Value)>, before: Seq<(String, Value)>, done: int, pos: int)
    requires
        0 <= done < original.len(),
        0 <= pos < before.len(),
        same_entries(before, original.take(done)),
        key_bytes(before[pos].0) == key_bytes(original[done].0),
    ensures
        !distinct_keys(original),
{
    reveal(strictly_sorted);
    reveal(all_keys_valid);
    reveal(distinct_keys);
    reveal(same_entries);
    let j = choose|j: int| 0 <= j < done && #[trigger] before[pos] == original.take(done)[j];
    assert(original.take(done)[j] == original[j]);
    assert(key_bytes(original[j].0) == key_bytes(original[done].0));
}

proof fn lemma_later_entries_after(before: Seq<(String, Value)>, kb: Seq<u8>, pos: int)
    requires
        strictly_sorted(before),
        0 <= pos <= before.len(),
        pos < before.len() ==> lex_lt(kb, key_bytes(before[pos].0)),
    ensures
        forall|q: int| pos <= q < before.len() ==> lex_lt(kb, key_bytes(#[trigger] before[q].0)),
{
    reveal(strictly_sorted);
    reveal(all_keys_valid);
    reveal(distinct_keys);
    reveal(same_entries);
    assert forall|q: int| pos <= q < before.len() implies lex_lt(kb, key_bytes(#[trigger] before[q].0)) by {
        if q > pos {
            lemma_lex_transitive(kb, key_bytes(before[pos].0), key_bytes(before[q].0));
        }
    }
}

/// The entries after inserting `original[done]` at index `k` of `before`.
proof fn lemma_insert_index(before: Seq<(String, Value)>, x: (String, Value), e: Seq<(String, Value)>, k: int)
    requires
        0 <= k <= before.len(),
        e == before.insert(k, x),
    ensures
        e.len() == before.len() + 1,
        forall|i: int| 0 <= i < k ==> #[trigger] e[i] == before[i],
        e[k] == x,
        forall|i: int| k < i < e.len() ==> #[trigger] e[i] == before[i - 1],
{
}

proof fn lemma_insert_sorted(before: Seq<(String, Value)>, x: (String, Value), e: Seq<(String, Value)>, k: int)
    requires
        0 <= k <= before.len(),
        e == before.insert(k, x),
        strictly_sorted(before),
        forall|q: int| 0 <= q < k ==> lex_lt(key_bytes(#[trigger] before[q].0), key_bytes(x.0)),
        forall|q: int| k <= q < before.len() ==> lex_lt(key_bytes(x.0), key_bytes(#[trigger] before[q].0)),
    ensures
        strictly_sorted(e),
{
    reveal(strictly_sorted);
    reveal(all_keys_valid);
    reveal(distinct_keys);
    reveal(same_entries);
    lemma_insert_index(before, x, e, k);
    let kb = key_bytes(x.0);
    assert forall|i: int, j: int| 0 <= i < j < e.len() implies lex_lt(key_bytes(#[trigger] e[i].0), key_bytes(#[trigger] e[j].0)) by {
        if i < k && j == k {
            assert(e[i] == before[i]);
        } else if i < k && j > k {
            assert(e[i] == before[i]);
            assert(e[j] == before[j - 1]);
            lemma_lex_transitive(key_bytes(before[i].0), kb, key_bytes(before[j - 1].0));
        } else if i == k && j > k {
            assert(e[j] == before[j - 1]);
        } else if i > k {
            assert(e[i] == before[i - 1]);
            assert(e[j] == before[j - 1]);
        } else {
            assert(e[i] == before[i]);
            assert(e[j] == before[j]);
        }
    }
}

proof fn lemma_insert_valid(before: Seq<(String, Value)>, x: (String, Value), e: Seq<(String, Value)>, k: int)
    requires
        0 <= k <= before.len(),
        e == before.insert(k, x),
        all_keys_valid(before),
        valid_key_bytes(key_bytes(x.0)),
    ensures
        all_keys_valid(e),
{
    reveal(strictly_sorted);
    reveal(all_keys_valid);
    reveal(distinct_keys);
    reveal(same_entries);
    lemma_insert_index(before, x, e, k);
    assert forall|i: int| 0 <= i < e.len() implies valid_key_bytes(key_bytes(#[trigger] e[i].0)) by {
        if i < k {
            assert(e[i] == before[i]);
        } else if i > k {
            assert(e[i] == before[i - 1]);
        }
    }
}

proof fn lemma_push_valid_distinct(
    prev: Seq<(String, Value)>,
    before: Seq<(String, Value)>,
    x: (String, Value),
    k: int,
)
    requires
        0 <= k <= before.len(),
        all_keys_valid(prev),
        distinct_keys(prev),
        same_entries(before, prev),
        valid_key_bytes(key_bytes(x.0)),
        forall|q: int| 0 <= q < k ==> lex_lt(key_bytes(#[trigger] before[q].0), key_bytes(x.0)),
        forall|q: int| k <= q < before.len() ==> lex_lt(key_bytes(x.0), key_bytes(#[trigger] before[q].0)),
    ensures
        all_keys_valid(prev.push(x)),
        distinct_keys(prev.push(x)),
{
    reveal(strictly_sorted);
    reveal(all_keys_valid);
    reveal(distinct_keys);
    reveal(same_entries);
    let taken = prev.push(x);
    let kb = key_bytes(x.0);
    assert forall|i: int| 0 <= i < taken.len() implies valid_key_bytes(key_bytes(#[trigger] taken[i].0)) by {
        if i < prev.len() {
            assert(taken[i] == prev[i]);
        }
    }
    assert forall|a: int, b: int| 0 <= a < b < taken.len() implies key_bytes(#[trigger] taken[a].0) != key_bytes(#[trigger] taken[b].0) by {
        assert(taken[a] == prev[a]);
        if b == prev.len() {
            let p = choose|p: int| 0 <= p < before.len() && before[p] == #[trigger] prev[a];
            lemma_lex_irreflexive(kb);
            if p < k {
                assert(lex_lt(key_bytes(before[p].0), kb));
            } else {
                assert(lex_lt(kb, key_bytes(before[p].0)));
            }
        } else {
            assert(taken[b] == prev[b]);
        }
    }
}

proof fn lemma_insert_same_entries(
    prev: Seq<(String, Value)>,
    before: Seq<(String, Value)>,
    x: (String, Value),
    e: Seq<(String, Value)>,
    k: int,
)
    requires
        0 <= k <= before.len(),
        e == before.insert(k, x),
        same_entries(before, prev),
    ensures
        same_entries(e, prev.push(x)),
{
    reveal(strictly_sorted);
    reveal(all_keys_valid);
    reveal(distinct_keys);
    reveal(same_entries);
    lemma_insert_index(before, x, e, k);
    let taken = prev.push(x);
    let done = prev.len() as int;
    assert forall|j: int| 0 <= j < taken.len() implies exists|p: int| 0 <= p < e.len() && e[p] == #[trigger] taken[j] by {
        if j == done {
            assert(e[k] == taken[j]);
        } else {
            assert(taken[j] == prev[j]);
            let p = choose|p: int| 0 <= p < before.len() && before[p] == #[trigger] prev[j];
            if p < k {
                assert(e[p] == before[p]);
            } else {
                assert(e[p + 1] == before[p]);
            }
        }
    }
    assert forall|p: int| 0 <= p < e.len() implies exists|j: int| 0 <= j < taken.len() && #[trigger] e[p] == taken[j] by {
        if p == k {
            assert(e[p] == taken[done]);
        } else {
            let bp = if p < k { p } else { p - 1 };
            assert(e[p] == before[bp]);
            let j = choose|j: int| 0 <= j < done && #[trigger] before[bp] == prev[j];
            assert(taken[j] == prev[j]);
        }
    }
}

proof fn lemma_insert_keeps_invariant(
    original: Seq<(String, Value)>,
    before: Seq<(String, Value)>,
    e: Seq<(String, Value)>,
    done: int,
    k: int,
)
    requires
        0 <= done < original.len(),
        0 <= k <= before.len(),
        e == before.insert(k, original[done]),
        strictly_sorted(before),
        all_keys_valid(before),
        all_keys_valid(original.take(done)),
        distinct_keys(original.take(done)),
        same_entries(before, original.take(done)),
        valid_key_bytes(key_bytes(original[done].0)),
        forall|q: int| 0 <= q < k ==> lex_lt(key_bytes(#[trigger] before[q].0), key_bytes(original[done].0)),
        forall|q: int| k <= q < before.len() ==> lex_lt(key_bytes(original[done].0), key_bytes(#[trigger] before[q].0)),
    ensures
        strictly_sorted(e),
        all_keys_valid(e),
        all_keys_valid(original.take(done + 1)),
        distinct_keys(original.take(done + 1)),
        same_entries(e, original.take(done + 1)),
{
    let x = original[done];
    assert(original.take(done + 1) =~= original.take(done).push(x));
    lemma_insert_sorted(before, x, e, k);
    lemma_insert_valid(before, x, e, k);
    lemma_push_valid_distinct(original.take(done), before, x, k);
    lemma_insert_same_entries(original.take(done), before, x, e, k);
}

} // verus!
