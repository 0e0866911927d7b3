//! Maps and sets keyed by text, kept in key order.
use vstd::prelude::*;

use crate::text::{
    lemma_text_lt_irreflexive, lemma_text_lt_total, lemma_text_lt_transitive, less, same, text_lt,
    texts,
};

verus! {

/// Whether `keys` is strictly ascending.
pub open spec fn ascending(keys: Seq<Seq<char>>) -> bool {
    forall|i: int, j: int| 0 <= i < j < keys.len() ==> text_lt(#[trigger] keys[i], #[trigger] keys[j])
}

/// An ascending list holds nothing twice.
pub proof fn lemma_ascending_distinct(keys: Seq<Seq<char>>)
    requires
        ascending(keys),
    ensures
        keys.no_duplicates(),
{
    assert forall|i: int, j: int| 0 <= i < j < keys.len() implies keys[i] != keys[j] by {
        lemma_text_lt_irreflexive(keys[i]);
    }
}

/// Everything before position `at` is below `key`, everything from it on above.
pub open spec fn splits(keys: Seq<Seq<char>>, key: Seq<char>, at: int) -> bool {
    &&& 0 <= at <= keys.len()
    &&& forall|i: int| 0 <= i < at ==> text_lt(#[trigger] keys[i], key)
    &&& forall|i: int| at <= i < keys.len() ==> text_lt(key, #[trigger] keys[i])
}

/// Where `key` splits an ascending list, it is absent and can be inserted.
pub proof fn lemma_splits_insert(keys: Seq<Seq<char>>, key: Seq<char>, at: int)
    requires
        ascending(keys),
        splits(keys, key, at),
    ensures
        !keys.contains(key),
        ascending(keys.insert(at, key)),
{
    lemma_text_lt_irreflexive(key);
    let out = keys.insert(at, key);
    assert forall|i: int, j: int| 0 <= i < j < out.len() implies text_lt(
        #[trigger] out[i],
        #[trigger] out[j],
    ) by {
        let p = if i < at {
            i
        } else {
            i - 1
        };
        let q = if j < at {
            j
        } else {
            j - 1
        };
        if i == at {
            assert(out[j] == keys[q]);
        } else if j == at {
            assert(out[i] == keys[p]);
        } else {
            assert(out[i] == keys[p] && out[j] == keys[q]);
        }
    }
}

/// A map from text to `V`, ordered by key.
#[derive(Debug)]
pub struct KeyMap<V> {
    entries: Vec<(String, V)>,
}

impl<V> KeyMap<V> {
    /// The keys, ascending.
    pub closed spec fn key_seq(self) -> Seq<Seq<char>> {
        Seq::new(self.entries@.len(), |i: int| self.entries@[i].0@)
    }

    /// The value stored beside the `i`th key.
    pub closed spec fn value_seq(self) -> Seq<V> {
        Seq::new(self.entries@.len(), |i: int| self.entries@[i].1)
    }

    #[verifier::type_invariant]
    spec fn ordered(self) -> bool {
        ascending(self.key_seq())
    }
}

impl<V> View for KeyMap<V> {
    type V = Map<Seq<char>, V>;

    closed spec fn view(&self) -> Map<Seq<char>, V> {
        Map::new(
            |k: Seq<char>| self.key_seq().contains(k),
            |k: Seq<char>| self.value_seq()[self.key_seq().index_of(k)],
        )
    }
}

impl<V> KeyMap<V> {
    proof fn lemma_at(self, i: int)
        requires
            self.ordered(),
            0 <= i < self.key_seq().len(),
        ensures
            self@.dom().contains(self.key_seq()[i]),
            self@[self.key_seq()[i]] == self.value_seq()[i],
    {
        lemma_ascending_distinct(self.key_seq());
        let k = self.key_seq()[i];
        assert(self.key_seq().contains(k));
        let j = self.key_seq().index_of(k);
        assert(self.key_seq()[j] == k && 0 <= j < self.key_seq().len());
        assert(i == j);
    }

    pub fn new() -> (m: Self)
        ensures
            m@ == Map::<Seq<char>, V>::empty(),
    {
        let m = KeyMap { entries: Vec::new() };
        assert(m@.dom() =~= Set::<Seq<char>>::empty());
        assert(m@ =~= Map::<Seq<char>, V>::empty());
        m
    }

    pub fn len(&self) -> (n: usize)
        ensures
            n == self@.dom().len(),
            self@.dom().finite(),
            n == self.key_seq().len(),
            n == self.value_seq().len(),
    {
        proof {
            use_type_invariant(self);
            lemma_ascending_distinct(self.key_seq());
            self.key_seq().unique_seq_to_set();
            vstd::seq_lib::seq_to_set_is_finite(self.key_seq());
            assert(self@.dom() =~= self.key_seq().to_set());
        }
        self.entries.len()
    }

    pub fn is_empty(&self) -> (r: bool)
        ensures
            r == (self@ == Map::<Seq<char>, V>::empty()),
    {
        let r = self.entries.len() == 0;
        proof {
            if r {
                assert(self@.dom() =~= Set::<Seq<char>>::empty());
                assert(self@ =~= Map::<Seq<char>, V>::empty());
            } else {
                assert(self.key_seq().contains(self.key_seq()[0]));
                assert(self@.dom().contains(self.key_seq()[0]));
            }
        }
        r
    }

    /// Where `key` stands, or where it would have to be inserted.
    fn position(&self, key: &str) -> (r: (bool, usize))
        ensures
            r.0 ==> r.1 < self.key_seq().len() && self.key_seq()[r.1 as int] == key@,
            !r.0 ==> splits(self.key_seq(), key@, r.1 as int),
    {
        proof {
            use_type_invariant(self);
        }
        let ghost keys = self.key_seq();
        let mut lo: usize = 0;
        let mut hi: usize = self.entries.len();
        while lo < hi
            invariant
                keys == self.key_seq(),
                ascending(keys),
                lo <= hi <= keys.len(),
                keys.len() == self.entries.len(),
                forall|i: int| 0 <= i < lo ==> text_lt(#[trigger] keys[i], key@),
                forall|i: int| hi <= i < keys.len() ==> text_lt(key@, #[trigger] keys[i]),
            decreases hi - lo,
        {
            let mid: usize = lo + (hi - lo) / 2;
            let probe = self.entries[mid].0.as_str();
            assert(probe@ == keys[mid as int]);
            if less(probe, key) {
                proof {
                    assert forall|i: int| 0 <= i < mid + 1 implies text_lt(
                        #[trigger] keys[i],
                        key@,
                    ) by {
                        if i < mid {
                            lemma_text_lt_transitive(keys[i], keys[mid as int], key@);
                        }
                    }
                }
                lo = mid + 1;
            } else if same(probe, key) {
                return (true, mid);
            } else {
                proof {
                    lemma_text_lt_total(keys[mid as int], key@);
                    assert forall|i: int| mid <= i < keys.len() implies text_lt(
                        key@,
                        #[trigger] keys[i],
                    ) by {
                        if i > mid {
                            lemma_text_lt_transitive(key@, keys[mid as int], keys[i]);
                        }
                    }
                }
                hi = mid;
            }
        }
        (false, lo)
    }

    pub fn contains_key(&self, key: &str) -> (r: bool)
        ensures
            r == self@.dom().contains(key@),
    {
        let (found, at) = self.position(key);
        proof {
            use_type_invariant(self);
            if found {
                self.lemma_at(at as int);
            } else {
                lemma_splits_insert(self.key_seq(), key@, at as int);
            }
        }
        found
    }

    pub fn get(&self, key: &str) -> (r: Option<&V>)
        ensures
            r == (if self@.dom().contains(key@) {
                Some(&self@[key@])
            } else {
                None
            }),
    {
        let (found, at) = self.position(key);
        proof {
            use_type_invariant(self);
            if found {
                self.lemma_at(at as int);
            } else {
                lemma_splits_insert(self.key_seq(), key@, at as int);
            }
        }
        if found {
            Some(&self.entries[at].1)
        } else {
            None
        }
    }

    /// The `i`th key in ascending order.
    pub fn key_at(&self, i: usize) -> (r: &String)
        requires
            i < self.key_seq().len(),
        ensures
            r@ == self.key_seq()[i as int],
            self@.dom().contains(r@),
            self@[r@] == self.value_seq()[i as int],
    {
        proof {
            use_type_invariant(self);
            self.lemma_at(i as int);
        }
        &self.entries[i].0
    }

    /// The value of the `i`th key in ascending order.
    pub fn value_at(&self, i: usize) -> (r: &V)
        requires
            i < self.key_seq().len(),
        ensures
            *r == self.value_seq()[i as int],
            self@.dom().contains(self.key_seq()[i as int]),
            *r == self@[self.key_seq()[i as int]],
    {
        proof {
            use_type_invariant(self);
            self.lemma_at(i as int);
        }
        &self.entries[i].1
    }

    /// How many positions there are. Every key stands at one of them, its value beside
    /// it.
    pub fn positions(&self) -> (n: usize)
        ensures
            n == self.key_seq().len(),
            n == self.value_seq().len(),
            n == self@.dom().len(),
            self@.dom().finite(),
            self.key_seq().no_duplicates(),
            forall|k: Seq<char>| #[trigger]
                self@.dom().contains(k) <==> self.key_seq().contains(k),
            forall|i: int|
                0 <= i < self.key_seq().len() ==> self@[#[trigger] self.key_seq()[i]]
                    == self.value_seq()[i],
    {
        proof {
            use_type_invariant(self);
            lemma_ascending_distinct(self.key_seq());
            assert forall|i: int| 0 <= i < self.key_seq().len() implies self@[
                #[trigger] self.key_seq()[i]
            ] == self.value_seq()[i] by {
                self.lemma_at(i);
            }
        }
        self.len()
    }

    /// Every key, ascending.
    pub fn keys(&self) -> (v: Vec<String>)
        ensures
            texts(v@) == self.key_seq(),
            self.value_seq().len() == self.key_seq().len(),
            forall|i: int|
                0 <= i < self.key_seq().len() ==> self@[#[trigger] self.key_seq()[i]]
                    == self.value_seq()[i],
            ascending(texts(v@)),
            forall|k: Seq<char>| self@.dom().contains(k) <==> texts(v@).contains(k),
    {
        let mut v: Vec<String> = Vec::new();
        let mut i: usize = 0;
        while i < self.entries.len()
            invariant
                i <= self.entries.len(),
                texts(v@) == self.key_seq().take(i as int),
            decreases self.entries.len() - i,
        {
            let ghost v0 = v@;
            v.push(self.entries[i].0.clone());
            i += 1;
            assert(texts(v@) =~= texts(v0).push(self.key_seq()[i as int - 1]));
            assert(self.key_seq().take(i as int) =~= self.key_seq().take(i as int - 1).push(
                self.key_seq()[i as int - 1],
            ));
        }
        proof {
            use_type_invariant(self);
            assert(self.key_seq().take(i as int) =~= self.key_seq());
            assert forall|i: int| 0 <= i < self.key_seq().len() implies self@[
                #[trigger] self.key_seq()[i]
            ] == self.value_seq()[i] by {
                self.lemma_at(i);
            }
        }
        v
    }

    pub fn insert(&mut self, key: String, value: V)
        ensures
            final(self)@ == old(self)@.insert(key@, value),
    {
        let (found, at) = self.position(key.as_str());
        proof {
            use_type_invariant(&*self);
        }
        let ghost before = *self;
        let mut entries: Vec<(String, V)> = Vec::new();
        std::mem::swap(&mut entries, &mut self.entries);
        let ghost k = key@;
        if found {
            entries.set(at, (key, value));
        } else {
            entries.insert(at, (key, value));
        }
        proof {
            let after = KeyMap { entries };
            if found {
                before.lemma_at(at as int);
                assert(after.key_seq() =~= before.key_seq());
                assert(after.value_seq() =~= before.value_seq().update(at as int, value));
            } else {
                lemma_splits_insert(before.key_seq(), k, at as int);
                assert(after.key_seq() =~= before.key_seq().insert(at as int, k));
                assert(after.value_seq() =~= before.value_seq().insert(at as int, value));
            }
            Self::lemma_inserted(before, after, k, value, at as int, found);
        }
        self.entries = entries;
    }

    proof fn lemma_inserted(before: Self, after: Self, k: Seq<char>, value: V, at: int, found: bool)
        requires
            before.ordered(),
            after.ordered(),
            found ==> 0 <= at < before.key_seq().len() && before.key_seq()[at] == k
                && after.key_seq() == before.key_seq() && after.value_seq()
                == before.value_seq().update(at, value),
            !found ==> 0 <= at <= before.key_seq().len() && after.key_seq()
                == before.key_seq().insert(at, k) && after.value_seq() == before.value_seq().insert(
                at,
                value,
            ),
        ensures
            after@ == before@.insert(k, value),
    {
        let m = before@.insert(k, value);
        assert forall|x: Seq<char>| after@.dom().contains(x) <==> m.dom().contains(x) by {
            if after.key_seq().contains(x) {
                let i = after.key_seq().index_of(x);
                if x != k {
                    let p = if found || i < at {
                        i
                    } else {
                        i - 1
                    };
                    assert(before.key_seq()[p] == x);
                    assert(before.key_seq().contains(x));
                }
            }
            if before.key_seq().contains(x) {
                let i = before.key_seq().index_of(x);
                let p = if found || i < at {
                    i
                } else {
                    i + 1
                };
                assert(after.key_seq()[p] == x);
                assert(after.key_seq().contains(x));
            }
            assert(after.key_seq()[at] == k);
            assert(after.key_seq().contains(k));
        }
        assert forall|x: Seq<char>| after@.dom().contains(x) implies after@[x] == m[x] by {
            let i = after.key_seq().index_of(x);
            assert(after.key_seq()[i] == x);
            after.lemma_at(i);
            if x == k {
                lemma_ascending_distinct(after.key_seq());
                assert(after.key_seq()[at] == k);
                assert(i == at);
            } else {
                let p = if found || i < at {
                    i
                } else {
                    i - 1
                };
                before.lemma_at(p);
            }
        }
        assert(after@ =~= m);
    }

    /// Puts `value` in the place of what `key` maps to, and hands that out.
    /// Nothing happens where the key is absent.
    pub fn replace(&mut self, key: &str, value: V) -> (r: Option<V>)
        ensures
            old(self)@.dom().contains(key@) ==> {
                &&& r == Some(old(self)@[key@])
                &&& final(self)@ == old(self)@.insert(key@, value)
            },
            !old(self)@.dom().contains(key@) ==> r is None && final(self)@ == old(self)@,
    {
        let (found, at) = self.position(key);
        proof {
            use_type_invariant(&*self);
        }
        let ghost before = *self;
        if found {
            let mut entries: Vec<(String, V)> = Vec::new();
            std::mem::swap(&mut entries, &mut self.entries);
            let mut held = value;
            std::mem::swap(&mut held, &mut entries[at].1);
            proof {
                let after = KeyMap { entries };
                assert(after.key_seq() =~= before.key_seq());
                assert(after.value_seq() =~= before.value_seq().update(at as int, value));
                before.lemma_at(at as int);
                Self::lemma_inserted(before, after, key@, value, at as int, true);
            }
            self.entries = entries;
            Some(held)
        } else {
            proof {
                lemma_splits_insert(before.key_seq(), key@, at as int);
            }
            None
        }
    }

    pub fn remove(&mut self, key: &str) -> (r: bool)
        ensures
            final(self)@ == old(self)@.remove(key@),
            r == old(self)@.dom().contains(key@),
    {
        let (found, at) = self.position(key);
        proof {
            use_type_invariant(&*self);
        }
        let ghost before = *self;
        if found {
            let mut entries: Vec<(String, V)> = Vec::new();
            std::mem::swap(&mut entries, &mut self.entries);
            let _ = entries.remove(at);
            proof {
                let after = KeyMap { entries };
                assert(after.key_seq() =~= before.key_seq().remove(at as int));
                assert(after.value_seq() =~= before.value_seq().remove(at as int));
                before.lemma_at(at as int);
                Self::lemma_removed(before, after, key@, at as int);
            }
            self.entries = entries;
        } else {
            proof {
                lemma_splits_insert(before.key_seq(), key@, at as int);
                assert(before@.remove(key@) =~= before@);
            }
        }
        found
    }

    proof fn lemma_removed(before: Self, after: Self, k: Seq<char>, at: int)
        requires
            before.ordered(),
            0 <= at < before.key_seq().len(),
            before.key_seq()[at] == k,
            after.key_seq() == before.key_seq().remove(at),
            after.value_seq() == before.value_seq().remove(at),
        ensures
            after.ordered(),
            after@ == before@.remove(k),
    {
        lemma_ascending_distinct(before.key_seq());
        assert forall|i: int, j: int| 0 <= i < j < after.key_seq().len() implies text_lt(
            #[trigger] after.key_seq()[i],
            #[trigger] after.key_seq()[j],
        ) by {
            let p = if i < at {
                i
            } else {
                i + 1
            };
            let q = if j < at {
                j
            } else {
                j + 1
            };
            assert(text_lt(before.key_seq()[p], before.key_seq()[q]));
        }
        let m = before@.remove(k);
        assert forall|x: Seq<char>| after@.dom().contains(x) <==> m.dom().contains(x) by {
            if after.key_seq().contains(x) {
                let i = after.key_seq().index_of(x);
                let p = if i < at {
                    i
                } else {
                    i + 1
                };
                assert(before.key_seq()[p] == x);
                assert(before.key_seq().contains(x));
                assert(x != k);
            }
            if before.key_seq().contains(x) && x != k {
                let i = before.key_seq().index_of(x);
                let p = if i < at {
                    i
                } else {
                    i - 1
                };
                assert(after.key_seq()[p] == x);
                assert(after.key_seq().contains(x));
            }
        }
        assert forall|x: Seq<char>| after@.dom().contains(x) implies after@[x] == m[x] by {
            let i = after.key_seq().index_of(x);
            assert(after.key_seq()[i] == x);
            after.lemma_at(i);
            let p = if i < at {
                i
            } else {
                i + 1
            };
            before.lemma_at(p);
        }
        assert(after@ =~= m);
    }

    pub fn clear(&mut self)
        ensures
            final(self)@ == Map::<Seq<char>, V>::empty(),
    {
        *self = KeyMap::new();
    }
}

/// A set of texts.
#[derive(Debug)]
pub struct KeySet {
    members: KeyMap<()>,
}

impl View for KeySet {
    type V = Set<Seq<char>>;

    closed spec fn view(&self) -> Set<Seq<char>> {
        self.members@.dom()
    }
}

impl KeySet {
    pub fn new() -> (s: Self)
        ensures
            s@ == Set::<Seq<char>>::empty(),
    {
        let s = KeySet { members: KeyMap::new() };
        assert(s@ =~= Set::<Seq<char>>::empty());
        s
    }

    pub fn len(&self) -> (n: usize)
        ensures
            n == self@.len(),
            self@.finite(),
    {
        self.members.len()
    }

    pub fn is_empty(&self) -> (r: bool)
        ensures
            r == (self@ == Set::<Seq<char>>::empty()),
    {
        let r = self.members.is_empty();
        proof {
            if self@ == Set::<Seq<char>>::empty() {
                assert(self.members@ =~= Map::<Seq<char>, ()>::empty());
            } else {
                assert(!(self@ =~= Set::<Seq<char>>::empty()));
            }
        }
        r
    }

    /// Every member, ascending.
    pub fn keys(&self) -> (v: Vec<String>)
        ensures
            ascending(texts(v@)),
            forall|k: Seq<char>| self@.contains(k) <==> texts(v@).contains(k),
    {
        self.members.keys()
    }

    pub fn contains(&self, key: &str) -> (r: bool)
        ensures
            r == self@.contains(key@),
    {
        self.members.contains_key(key)
    }

    pub fn insert(&mut self, key: String)
        ensures
            final(self)@ == old(self)@.insert(key@),
    {
        self.members.insert(key, ());
        assert(self@ =~= old(self)@.insert(key@));
    }

    pub fn remove(&mut self, key: &str) -> (r: bool)
        ensures
            final(self)@ == old(self)@.remove(key@),
            r == old(self)@.contains(key@),
    {
        let r = self.members.remove(key);
        assert(self@ =~= old(self)@.remove(key@));
        r
    }

    pub fn clear(&mut self)
        ensures
            final(self)@ == Set::<Seq<char>>::empty(),
    {
        self.members.clear();
        assert(self@ =~= Set::<Seq<char>>::empty());
    }
}

/// The members of a set, in ascending order.
pub open spec fn ordered(s: Set<Seq<char>>) -> Seq<Seq<char>> {
    choose|v: Seq<Seq<char>>|
        ascending(v) && forall|k: Seq<char>| s.contains(k) <==> #[trigger] v.contains(k)
}

/// There is one ascending list of a set.
pub proof fn lemma_ordered(v: Seq<Seq<char>>, s: Set<Seq<char>>)
    requires
        ascending(v),
        forall|k: Seq<char>| s.contains(k) <==> #[trigger] v.contains(k),
    ensures
        ordered(s) == v,
{
    let o = ordered(s);
    assert(ascending(o) && forall|k: Seq<char>| s.contains(k) <==> #[trigger] o.contains(k));
    assert forall|k: Seq<char>| o.contains(k) <==> v.contains(k) by {
        assert(s.contains(k) <==> o.contains(k));
        assert(s.contains(k) <==> v.contains(k));
    }
    crate::tree_laws::lemma_ascending_unique(o, v);
}

} // verus!
