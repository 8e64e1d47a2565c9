//! A set of strings kept in byte order of their UTF-8 encoding.
use vstd::prelude::*;

use crate::bytes_order::{compare_bytes, lemma_lex_irreflexive, lemma_lex_total, lemma_lex_transitive, lex_lt, KeyOrder};

verus! {

/// The UTF-8 bytes of a string.
pub open spec fn utf8(s: Seq<char>) -> Seq<u8> {
    vstd::utf8::encode_utf8(s)
}

/// Strings strictly increasing in byte order.
pub open spec fn sorted_strings(s: Seq<Seq<char>>) -> bool {
    forall|i: int, j: int| 0 <= i < j < s.len() ==> lex_lt(utf8(#[trigger] s[i]), utf8(#[trigger] s[j]))
}

/// The UTF-8 encoding determines the string.
pub proof fn lemma_utf8_injective(a: Seq<char>, b: Seq<char>)
    requires
        utf8(a) == utf8(b),
    ensures
        a == b,
{
    vstd::utf8::encode_utf8_decode_utf8(a);
    vstd::utf8::encode_utf8_decode_utf8(b);
}

/// A set of strings, iterated in byte order.
#[derive(Debug)]
pub struct StringSet {
    items: Vec<String>,
}

impl View for StringSet {
    type V = Seq<Seq<char>>;

    closed spec fn view(&self) -> Seq<Seq<char>> {
        self.items@.map_values(|s: String| s@)
    }
}

impl StringSet {
    #[verifier::type_invariant]
    closed spec fn inv(self) -> bool {
        sorted_strings(self@)
    }

    /// Creates an empty set.
    pub fn new() -> (r: Self)
        ensures
            r@ == Seq::<Seq<char>>::empty(),
    {
        let r = StringSet { items: Vec::new() };
        proof {
            assert(r@ =~= Seq::<Seq<char>>::empty());
        }
        r
    }

    /// Whether `item` belongs to the set.
    pub fn contains(&self, item: &str) -> (r: bool)
        ensures
            r == self@.contains(item@),
    {
        let (pos, found) = self.locate(item);
        proof {
            if !found && self@.contains(item@) {
                let q = choose|q: int| 0 <= q < self@.len() && self@[q] == item@;
                lemma_lex_irreflexive(utf8(item@));
                if q < pos {
                    assert(lex_lt(utf8(self@[q]), utf8(item@)));
                } else {
                    assert(lex_lt(utf8(item@), utf8(self@[q])));
                }
            }
        }
        found
    }

    /// Where `item` is or would go: the index of the first item that does not
    /// sort before it, and whether that item is `item` itself.
    pub fn locate(&self, item: &str) -> (r: (usize, bool))
        ensures
            sorted_strings(self@),
            0 <= r.0 <= self@.len(),
            r.1 ==> r.0 < self@.len() && self@[r.0 as int] == item@,
            !r.1 ==> forall|q: int| r.0 <= q < self@.len() ==> lex_lt(utf8(item@), utf8(#[trigger] self@[q])),
            forall|q: int| 0 <= q < r.0 ==> lex_lt(utf8(#[trigger] self@[q]), utf8(item@)),
    {
        proof {
            use_type_invariant(self);
        }
        let kb = item.as_bytes();
        let mut pos: usize = 0;
        let mut found = false;
        let mut stop = false;
        while pos < self.items.len() && !stop
            invariant
                kb@ == utf8(item@),
                sorted_strings(self@),
                self@.len() == self.items@.len(),
                forall|q: int| 0 <= q < self@.len() ==> #[trigger] self@[q] == self.items@[q]@,
                0 <= pos <= self@.len(),
                found ==> stop,
                stop ==> pos < self@.len(),
                found ==> self@[pos as int] == item@,
                stop && !found ==> lex_lt(kb@, utf8(self@[pos as int])),
                forall|q: int| 0 <= q < pos ==> lex_lt(utf8(#[trigger] self@[q]), kb@),
            decreases self@.len() - pos + (if stop { 0int } else { 1int }),
        {
            let s = self.items[pos].as_str();
            let b = s.as_bytes();
            proof {
                assert(self@[pos as int] == s@);
            }
            match compare_bytes(b, kb) {
                KeyOrder::Less => {
                    pos = pos + 1;
                },
                KeyOrder::Equal => {
                    proof {
                        lemma_utf8_injective(s@, item@);
                    }
                    found = true;
                    stop = true;
                },
                KeyOrder::Greater => {
                    stop = true;
                },
            }
        }
        if !found {
            assert forall|q: int| pos <= q < self@.len() implies lex_lt(utf8(item@), utf8(#[trigger] self@[q])) by {
                if q > pos {
                    lemma_lex_transitive(utf8(item@), utf8(self@[pos as int]), utf8(self@[q]));
                }
            }
        }
        (pos, found)
    }

    /// The index of `item`, if it belongs to the set.
    pub fn find(&self, item: &str) -> (r: Option<usize>)
        ensures
            sorted_strings(self@),
            match r {
                Some(i) => i < self@.len() && self@[i as int] == item@ && forall|j: int|
                    0 <= j < self@.len() && j != i ==> #[trigger] self@[j] != item@,
                None => !self@.contains(item@),
            },
    {
        proof {
            use_type_invariant(self);
        }
        let (pos, found) = self.locate(item);
        proof {
            lemma_lex_irreflexive(utf8(item@));
            if !found && self@.contains(item@) {
                let q = choose|q: int| 0 <= q < self@.len() && self@[q] == item@;
                if q < pos {
                    assert(lex_lt(utf8(self@[q]), utf8(item@)));
                } else {
                    assert(lex_lt(utf8(item@), utf8(self@[q])));
                }
            }
            if found {
                assert forall|j: int| 0 <= j < self@.len() && j != pos implies #[trigger] self@[j] != item@ by {
                    if j < pos {
                        assert(lex_lt(utf8(self@[j]), utf8(self@[pos as int])));
                    } else {
                        assert(lex_lt(utf8(self@[pos as int]), utf8(self@[j])));
                    }
                }
            }
        }
        if found {
            Some(pos)
        } else {
            None
        }
    }

    /// Inserts `item`; returns whether it was absent.
    pub fn insert(&mut self, item: String) -> (r: bool)
        ensures
            r == !old(self)@.contains(item@),
            final(self)@.to_set() == old(self)@.to_set().insert(item@),
            r ==> final(self)@.len() == old(self)@.len() + 1,
            !r ==> final(self)@ == old(self)@,
    {
        proof {
            use_type_invariant(&*self);
        }
        let (pos, found) = self.locate(item.as_str());
        if found {
            return false;
        }
        let ghost before = self@;
        let ghost x = item@;
        proof {
            if before.contains(x) {
                let q = choose|q: int| 0 <= q < before.len() && before[q] == x;
                lemma_lex_irreflexive(utf8(x));
                if q < pos {
                    assert(lex_lt(utf8(before[q]), utf8(x)));
                } else {
                    assert(lex_lt(utf8(x), utf8(before[q])));
                }
            }
        }
        let mut items: Vec<String> = Vec::new();
        std::mem::swap(&mut items, &mut self.items);
        items.insert(pos, item);
        proof {
            let after = items@.map_values(|s: String| s@);
            assert(after =~= before.insert(pos as int, x));
            assert forall|i: int, j: int| 0 <= i < j < after.len() implies lex_lt(utf8(#[trigger] after[i]), utf8(#[trigger] after[j])) by {
                let k = pos as int;
                if i < k && j > k {
                    lemma_lex_transitive(utf8(before[i]), utf8(x), utf8(before[j - 1]));
                }
            }
            assert(after.to_set() =~= before.to_set().insert(x)) by {
                assert forall|s: Seq<char>| after.to_set().contains(s) <==> before.to_set().insert(x).contains(s) by {
                    if after.contains(s) {
                        let i = choose|i: int| 0 <= i < after.len() && after[i] == s;
                        if i < pos {
                            assert(before[i] == s);
                        } else if i > pos {
                            assert(before[i - 1] == s);
                        }
                    }
                    if before.contains(s) {
                        let i = choose|i: int| 0 <= i < before.len() && before[i] == s;
                        if i < pos {
                            assert(after[i] == s);
                        } else {
                            assert(after[i + 1] == s);
                        }
                    }
                    if s == x {
                        assert(after[pos as int] == s);
                    }
                }
            }
        }
        self.items = items;
        true
    }

    /// Inserts `item` at the slot that `locate` reported for it.
    pub fn insert_at(&mut self, pos: usize, item: String)
        requires
            pos <= old(self)@.len(),
            forall|q: int| 0 <= q < pos ==> lex_lt(utf8(#[trigger] old(self)@[q]), utf8(item@)),
            forall|q: int| pos <= q < old(self)@.len() ==> lex_lt(utf8(item@), utf8(#[trigger] old(self)@[q])),
        ensures
            final(self)@ == old(self)@.insert(pos as int, item@),
    {
        proof {
            use_type_invariant(&*self);
        }
        let ghost before = self@;
        let ghost x = item@;
        let mut items: Vec<String> = Vec::new();
        std::mem::swap(&mut items, &mut self.items);
        items.insert(pos, item);
        proof {
            let after = items@.map_values(|s: String| s@);
            assert(after =~= before.insert(pos as int, x));
            assert forall|i: int, j: int| 0 <= i < j < after.len() implies lex_lt(utf8(#[trigger] after[i]), utf8(#[trigger] after[j])) by {
                let k = pos as int;
                if i < k && j > k {
                    lemma_lex_transitive(utf8(before[i]), utf8(x), utf8(before[j - 1]));
                }
            }
        }
        self.items = items;
    }

    /// Removes `item`; returns whether it was present.
    pub fn remove(&mut self, item: &str) -> (r: bool)
        ensures
            r == old(self)@.contains(item@),
            final(self)@.to_set() == old(self)@.to_set().remove(item@),
            r ==> final(self)@.len() + 1 == old(self)@.len(),
            !r ==> final(self)@ == old(self)@,
    {
        proof {
            use_type_invariant(&*self);
        }
        let ghost before = self@;
        let (pos, found) = self.locate(item);
        if !found {
            proof {
                if before.contains(item@) {
                    let q = choose|q: int| 0 <= q < before.len() && before[q] == item@;
                    lemma_lex_irreflexive(utf8(item@));
                    if q < pos {
                        assert(lex_lt(utf8(before[q]), utf8(item@)));
                    } else {
                        assert(lex_lt(utf8(item@), utf8(before[q])));
                    }
                }
            }
            return false;
        }
        let mut items: Vec<String> = Vec::new();
        std::mem::swap(&mut items, &mut self.items);
        items.remove(pos);
        proof {
            let k = pos as int;
            let after = items@.map_values(|s: String| s@);
            assert(after =~= before.remove(k));
            assert forall|s: Seq<char>| after.to_set().contains(s) <==> before.to_set().remove(item@).contains(s) by {
                if after.contains(s) {
                    let i = choose|i: int| 0 <= i < after.len() && after[i] == s;
                    if i < k {
                        assert(before[i] == s);
                        lemma_lex_irreflexive(utf8(s));
                        assert(lex_lt(utf8(before[i]), utf8(before[k])));
                    } else {
                        assert(before[i + 1] == s);
                        lemma_lex_irreflexive(utf8(s));
                        assert(lex_lt(utf8(before[k]), utf8(before[i + 1])));
                    }
                }
                if before.contains(s) && s != item@ {
                    let i = choose|i: int| 0 <= i < before.len() && before[i] == s;
                    if i < k {
                        assert(after[i] == s);
                    } else {
                        assert(i != k);
                        assert(after[i - 1] == s);
                    }
                }
            }
            assert(after.to_set() =~= before.to_set().remove(item@));
        }
        self.items = items;
        true
    }

    /// Removes the item that sorts first.
    pub fn remove_first(&mut self)
        requires
            old(self)@.len() > 0,
        ensures
            final(self)@ == old(self)@.drop_first(),
    {
        proof {
            use_type_invariant(&*self);
        }
        let ghost before = self@;
        let mut items: Vec<String> = Vec::new();
        std::mem::swap(&mut items, &mut self.items);
        items.remove(0);
        proof {
            assert(items@.map_values(|s: String| s@) =~= before.drop_first());
        }
        self.items = items;
    }

    /// The items in byte order.
    pub fn items(&self) -> (r: &[String])
        ensures
            r@.map_values(|s: String| s@) == self@,
    {
        self.items.as_slice()
    }

    /// An independent set with the same items.
    pub fn duplicate(&self) -> (r: Self)
        ensures
            r@ == self@,
    {
        proof {
            use_type_invariant(self);
        }
        let mut items: Vec<String> = Vec::new();
        let mut i: usize = 0;
        while i < self.items.len()
            invariant
                0 <= i <= self.items@.len(),
                items@.len() == i,
                forall|q: int| 0 <= q < i ==> #[trigger] items@[q]@ == self.items@[q]@,
            decreases self.items@.len() - i,
        {
            let item = self.items[i].clone();
            items.push(item);
            i = i + 1;
        }
        proof {
            assert(items@.map_values(|s: String| s@) =~= self@);
        }
        StringSet { items }
    }

    /// The number of items.
    pub fn len(&self) -> (r: usize)
        ensures
            r == self@.len(),
    {
        self.items.len()
    }
}

} // verus!
