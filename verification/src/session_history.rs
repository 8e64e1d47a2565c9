//! A bounded history of recent runs, keyed by run identity in byte order:
//! starting a run past the bound forgets the run whose identity sorts first.
use vstd::prelude::*;

use crate::bytes_order::{lemma_lex_irreflexive, lemma_lex_total, lex_lt};
use crate::string_set::{sorted_strings, utf8, StringSet};

verus! {

/// The identities of a history's entries, in order.
pub open spec fn run_ids<S>(v: Seq<(Seq<char>, S)>) -> Seq<Seq<char>> {
    v.map_values(|e: (Seq<char>, S)| e.0)
}

/// The entries after recording `s` under `k`, as a map sorted by key
/// records it: an entry with the same key is replaced in place, otherwise
/// the entry goes before the first key that sorts after `k`.
pub open spec fn insert_sorted<S>(v: Seq<(Seq<char>, S)>, k: Seq<char>, s: S) -> Seq<(Seq<char>, S)>
    decreases v.len(),
{
    if v.len() == 0 {
        seq![(k, s)]
    } else if v[0].0 == k {
        v.update(0, (k, s))
    } else if lex_lt(utf8(k), utf8(v[0].0)) {
        seq![(k, s)] + v
    } else {
        seq![v[0]] + insert_sorted(v.drop_first(), k, s)
    }
}

/// The last `capacity` entries, or all of them when there are fewer.
pub open spec fn retained<S>(v: Seq<(Seq<char>, S)>, capacity: nat) -> Seq<(Seq<char>, S)> {
    if v.len() > capacity {
        v.subrange(v.len() - capacity, v.len() as int)
    } else {
        v
    }
}

/// The session recorded under `k`, if any.
pub open spec fn lookup<S>(v: Seq<(Seq<char>, S)>, k: Seq<char>) -> Option<S> {
    if exists|i: int| 0 <= i < v.len() && #[trigger] v[i].0 == k {
        Some(v[choose|i: int| 0 <= i < v.len() && #[trigger] v[i].0 == k].1)
    } else {
        None
    }
}

/// The session a status request shows: the requested run's; without a
/// request, the active run's when it is recorded, else the latest by key.
pub open spec fn selected<S>(v: Seq<(Seq<char>, S)>, requested: Option<Seq<char>>, active: Option<Seq<char>>) -> Option<S> {
    match requested {
        Some(r) => lookup(v, r),
        None => {
            if active is Some && lookup(v, active->0) is Some {
                lookup(v, active->0)
            } else if v.len() > 0 {
                Some(v.last().1)
            } else {
                None
            }
        },
    }
}

/// Recent sessions by run identity, at most `capacity` of them.
pub struct SessionHistory<S> {
    keys: StringSet,
    sessions: Vec<S>,
    capacity: usize,
}

impl<S> View for SessionHistory<S> {
    type V = Seq<(Seq<char>, S)>;

    closed spec fn view(&self) -> Seq<(Seq<char>, S)> {
        Seq::new(self.sessions@.len(), |i: int| (self.keys@[i], self.sessions@[i]))
    }
}

proof fn lemma_insert_sorted_found<S>(v: Seq<(Seq<char>, S)>, k: Seq<char>, s: S, pos: int)
    requires
        sorted_strings(run_ids(v)),
        0 <= pos < v.len(),
        v[pos].0 == k,
    ensures
        insert_sorted(v, k, s) == v.update(pos, (k, s)),
    decreases v.len(),
{
    if pos > 0 {
        assert(run_ids(v)[0] == v[0].0 && run_ids(v)[pos] == v[pos].0);
        assert(lex_lt(utf8(v[0].0), utf8(k)));
        lemma_lex_irreflexive(utf8(k));
        lemma_lex_total(utf8(v[0].0), utf8(k));
        let rest = v.drop_first();
        assert(run_ids(rest) =~= run_ids(v).drop_first());
        lemma_insert_sorted_found(rest, k, s, pos - 1);
        assert(seq![v[0]] + rest.update(pos - 1, (k, s)) =~= v.update(pos, (k, s)));
    }
}

proof fn lemma_insert_sorted_new<S>(v: Seq<(Seq<char>, S)>, k: Seq<char>, s: S, pos: int)
    requires
        0 <= pos <= v.len(),
        forall|q: int| 0 <= q < pos ==> lex_lt(utf8(#[trigger] v[q].0), utf8(k)),
        forall|q: int| pos <= q < v.len() ==> lex_lt(utf8(k), utf8(#[trigger] v[q].0)),
    ensures
        insert_sorted(v, k, s) == v.insert(pos, (k, s)),
    decreases v.len(),
{
    if v.len() == 0 {
        assert(seq![(k, s)] =~= v.insert(pos, (k, s)));
    } else if pos == 0 {
        assert(lex_lt(utf8(k), utf8(v[0].0)));
        lemma_lex_irreflexive(utf8(k));
        assert(v[0].0 != k);
        assert(seq![(k, s)] + v =~= v.insert(0, (k, s)));
    } else {
        assert(lex_lt(utf8(v[0].0), utf8(k)));
        lemma_lex_irreflexive(utf8(k));
        lemma_lex_total(utf8(v[0].0), utf8(k));
        let rest = v.drop_first();
        assert forall|q: int| 0 <= q < pos - 1 implies lex_lt(utf8(#[trigger] rest[q].0), utf8(k)) by {
            assert(rest[q] == v[q + 1]);
        }
        assert forall|q: int| pos - 1 <= q < rest.len() implies lex_lt(utf8(k), utf8(#[trigger] rest[q].0)) by {
            assert(rest[q] == v[q + 1]);
        }
        lemma_insert_sorted_new(rest, k, s, pos - 1);
        assert(seq![v[0]] + rest.insert(pos - 1, (k, s)) =~= v.insert(pos, (k, s)));
    }
}

proof fn lemma_lookup_at<S>(v: Seq<(Seq<char>, S)>, k: Seq<char>, i: int)
    requires
        0 <= i < v.len(),
        v[i].0 == k,
        forall|j: int| 0 <= j < v.len() && j != i ==> #[trigger] v[j].0 != k,
    ensures
        lookup(v, k) == Some(v[i].1),
{
    assert(v[i].0 == k);
}

impl<S> SessionHistory<S> {
    /// The entries agree with the key set, and stay within the bound.
    pub closed spec fn wf(&self) -> bool {
        &&& self.keys@.len() == self.sessions@.len()
        &&& self.sessions@.len() <= self.capacity
        &&& self.capacity > 0
    }

    /// The most entries the history keeps.
    pub closed spec fn spec_capacity(&self) -> nat {
        self.capacity as nat
    }

    /// An empty history that keeps at most `capacity` runs.
    pub fn new(capacity: usize) -> (r: Self)
        requires
            capacity > 0,
        ensures
            r.wf(),
            r@ == Seq::<(Seq<char>, S)>::empty(),
            r.spec_capacity() == capacity,
    {
        let r = SessionHistory { keys: StringSet::new(), sessions: Vec::new(), capacity };
        proof {
            assert(r@ =~= Seq::<(Seq<char>, S)>::empty());
        }
        r
    }

    proof fn lemma_keys(&self)
        requires
            self.wf(),
            sorted_strings(self.keys@),
        ensures
            run_ids(self@) == self.keys@,
            sorted_strings(run_ids(self@)),
    {
        assert(run_ids(self@) =~= self.keys@);
    }

    /// Records `session` under `run_id` (see `insert_sorted`), then forgets
    /// the runs that sort first while more than the bound are kept.
    pub fn insert(&mut self, run_id: String, session: S)
        requires
            old(self).wf(),
        ensures
            final(self).wf(),
            final(self).spec_capacity() == old(self).spec_capacity(),
            final(self)@ == retained(insert_sorted(old(self)@, run_id@, session), old(self).spec_capacity()),
    {
        let (pos, found) = self.keys.locate(run_id.as_str());
        proof {
            self.lemma_keys();
        }
        let ghost before = self@;
        let ghost k = run_id@;
        if found {
            proof {
                lemma_insert_sorted_found(before, k, session, pos as int);
            }
            self.sessions.set(pos, session);
            proof {
                assert(self@ =~= before.update(pos as int, (k, session)));
            }
        } else {
            proof {
                assert forall|q: int| 0 <= q < pos implies lex_lt(utf8(#[trigger] before[q].0), utf8(k)) by {
                    assert(before[q].0 == self.keys@[q]);
                }
                assert forall|q: int| pos <= q < before.len() implies lex_lt(utf8(k), utf8(#[trigger] before[q].0)) by {
                    assert(before[q].0 == self.keys@[q]);
                }
                lemma_insert_sorted_new(before, k, session, pos as int);
            }
            self.keys.insert_at(pos, run_id);
            self.sessions.insert(pos, session);
            proof {
                assert(self@ =~= before.insert(pos as int, (k, session)));
            }
        }
        let ghost placed = self@;
        if self.sessions.len() > self.capacity {
            self.keys.remove_first();
            self.sessions.remove(0);
            proof {
                assert(self@ =~= placed.subrange(placed.len() - self.capacity, placed.len() as int));
            }
        }
    }

    /// The index of the run `run_id`, if it is recorded.
    pub fn position(&self, run_id: &str) -> (r: Option<usize>)
        requires
            self.wf(),
        ensures
            match r {
                Some(i) => i < self@.len() && self@[i as int].0 == run_id@ && lookup(self@, run_id@) == Some(
                    self@[i as int].1,
                ),
                None => lookup(self@, run_id@) is None,
            },
    {
        let found = self.keys.find(run_id);
        proof {
            self.lemma_keys();
            match found {
                Some(i) => {
                    assert forall|j: int| 0 <= j < self@.len() && j != i implies #[trigger] self@[j].0 != run_id@ by {
                        assert(self@[j].0 == self.keys@[j]);
                    }
                    lemma_lookup_at(self@, run_id@, i as int);
                },
                None => {
                    if exists|i: int| 0 <= i < self@.len() && #[trigger] self@[i].0 == run_id@ {
                        let i = choose|i: int| 0 <= i < self@.len() && #[trigger] self@[i].0 == run_id@;
                        assert(self.keys@[i] == run_id@);
                    }
                },
            }
        }
        found
    }

    /// The session of the run `run_id`, if it is recorded.
    pub fn get(&self, run_id: &str) -> (r: Option<&S>)
        requires
            self.wf(),
        ensures
            match lookup(self@, run_id@) {
                Some(s) => r matches Some(x) && *x == s,
                None => r is None,
            },
    {
        match self.position(run_id) {
            Some(i) => Some(&self.sessions[i]),
            None => None,
        }
    }

    /// The session at index `i`, to change in place.
    pub fn session_mut(&mut self, i: usize) -> (r: &mut S)
        requires
            old(self).wf(),
            i < old(self)@.len(),
        ensures
            *r == old(self)@[i as int].1,
            final(self).wf(),
            final(self).spec_capacity() == old(self).spec_capacity(),
            final(self)@ == old(self)@.update(i as int, (old(self)@[i as int].0, *final(r))),
    {
        &mut self.sessions[i]
    }

    /// The session a status request shows (see `selected`).
    pub fn select(&self, requested: Option<&str>, active: Option<&str>) -> (r: Option<&S>)
        requires
            self.wf(),
        ensures
            match selected(
                self@,
                match requested {
                    Some(q) => Some(q@),
                    None => None,
                },
                match active {
                    Some(a) => Some(a@),
                    None => None,
                },
            ) {
                Some(s) => r matches Some(x) && *x == s,
                None => r is None,
            },
    {
        match requested {
            Some(q) => self.get(q),
            None => {
                match active {
                    Some(a) => {
                        let current = self.get(a);
                        if current.is_some() {
                            return current;
                        }
                    },
                    None => {},
                }
                let n = self.sessions.len();
                if n > 0 {
                    Some(&self.sessions[n - 1])
                } else {
                    None
                }
            },
        }
    }

    /// The number of recorded runs.
    pub fn len(&self) -> (r: usize)
        requires
            self.wf(),
        ensures
            r == self@.len(),
    {
        self.sessions.len()
    }
}

/// The number of leading entries whose key sorts before `k`, among the
/// first `n`.
pub open spec fn count_before<S>(v: Seq<(Seq<char>, S)>, k: Seq<char>, n: int) -> int
    decreases n,
{
    if n <= 0 {
        0
    } else if count_before(v, k, n - 1) == n - 1 && lex_lt(utf8(v[n - 1].0), utf8(k)) {
        n
    } else {
        count_before(v, k, n - 1)
    }
}

proof fn lemma_count_before<S>(v: Seq<(Seq<char>, S)>, k: Seq<char>, n: int)
    requires
        0 <= n <= v.len(),
        sorted_strings(run_ids(v)),
        forall|q: int| 0 <= q < v.len() ==> #[trigger] v[q].0 != k,
    ensures
        0 <= count_before(v, k, n) <= n,
        forall|q: int| 0 <= q < count_before(v, k, n) ==> lex_lt(utf8(#[trigger] v[q].0), utf8(k)),
        forall|q: int| count_before(v, k, n) <= q < n ==> lex_lt(utf8(k), utf8(#[trigger] v[q].0)),
    decreases n,
{
    if n > 0 {
        lemma_count_before(v, k, n - 1);
        let c = count_before(v, k, n - 1);
        lemma_lex_total(utf8(v[n - 1].0), utf8(k));
        if v[n - 1].0 != k {
            if utf8(v[n - 1].0) == utf8(k) {
                crate::string_set::lemma_utf8_injective(v[n - 1].0, k);
            }
        }
        if c < n - 1 {
            assert(lex_lt(utf8(k), utf8(v[c].0)));
            assert(run_ids(v)[c] == v[c].0 && run_ids(v)[n - 1] == v[n - 1].0);
            assert(lex_lt(utf8(v[c].0), utf8(v[n - 1].0)));
            crate::bytes_order::lemma_lex_transitive(utf8(k), utf8(v[c].0), utf8(v[n - 1].0));
        }
    }
}

/// A run that starts is found in the history afterwards, with the session
/// it started with, unless the history was full and every kept run sorts
/// after it: then it is the one forgotten.
pub proof fn law_started_run_is_kept<S>(v: Seq<(Seq<char>, S)>, capacity: nat, k: Seq<char>, s: S)
    requires
        sorted_strings(run_ids(v)),
        0 < capacity,
        v.len() <= capacity,
        v.len() < capacity || exists|q: int| 0 <= q < v.len() && lex_lt(utf8(#[trigger] v[q].0), utf8(k)) || exists|q: int|
            0 <= q < v.len() && #[trigger] v[q].0 == k,
    ensures
        lookup(retained(insert_sorted(v, k, s), capacity), k) == Some(s),
        retained(insert_sorted(v, k, s), capacity).len() <= capacity,
{
    if exists|q: int| 0 <= q < v.len() && #[trigger] v[q].0 == k {
        let i = choose|q: int| 0 <= q < v.len() && #[trigger] v[q].0 == k;
        lemma_insert_sorted_found(v, k, s, i);
        let w = v.update(i, (k, s));
        assert forall|j: int| 0 <= j < w.len() && j != i implies #[trigger] w[j].0 != k by {
            assert(run_ids(v)[j] == v[j].0 && run_ids(v)[i] == v[i].0);
            if j < i {
                assert(lex_lt(utf8(v[j].0), utf8(v[i].0)));
            } else {
                assert(lex_lt(utf8(v[i].0), utf8(v[j].0)));
            }
            lemma_lex_irreflexive(utf8(k));
        }
        lemma_lookup_at(w, k, i);
    } else {
        lemma_count_before(v, k, v.len() as int);
        let pos = count_before(v, k, v.len() as int);
        lemma_insert_sorted_new(v, k, s, pos);
        let w = v.insert(pos, (k, s));
        if v.len() < capacity {
            assert forall|j: int| 0 <= j < w.len() && j != pos implies #[trigger] w[j].0 != k by {
                if j < pos {
                    assert(w[j] == v[j]);
                } else {
                    assert(w[j] == v[j - 1]);
                }
            }
            lemma_lookup_at(w, k, pos);
        } else {
            if pos == 0 {
                let q = choose|q: int| 0 <= q < v.len() && lex_lt(utf8(#[trigger] v[q].0), utf8(k));
                lemma_lex_total(utf8(v[q].0), utf8(k));
                assert(lex_lt(utf8(k), utf8(v[q].0)));
            }
            let r = w.subrange(1, w.len() as int);
            assert(retained(w, capacity) == r);
            assert forall|j: int| 0 <= j < r.len() && j != pos - 1 implies #[trigger] r[j].0 != k by {
                if j + 1 < pos {
                    assert(r[j] == v[j + 1]);
                } else {
                    assert(r[j] == v[j]);
                }
            }
            lemma_lookup_at(r, k, pos - 1);
        }
    }
}

} // verus!
