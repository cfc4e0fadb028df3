//! A table keyed by type name, in the order of first insertion.
use vstd::prelude::*;

verus! {

/// A map from names to values: a later insert under a name replaces the value.
pub struct TypeTable<V> {
    entries: Vec<(String, V)>,
}

impl<V: DeepView> View for TypeTable<V> {
    type V = Map<Seq<char>, V::V>;

    closed spec fn view(&self) -> Map<Seq<char>, V::V> {
        Map::new(
            |k: Seq<char>| exists|i: int| 0 <= i < self.entries@.len() && self.entries@[i].0@ == k,
            |k: Seq<char>|
                self.entries@[choose|i: int|
                    0 <= i < self.entries@.len() && self.entries@[i].0@ == k].1.deep_view(),
        )
    }
}

impl<V> TypeTable<V> {
    /// No name is listed twice.
    #[verifier::type_invariant]
    spec fn keys_distinct(self) -> bool {
        forall|i: int, j: int|
            0 <= i < self.entries@.len() && 0 <= j < self.entries@.len() && i != j
                ==> self.entries@[i].0@ != self.entries@[j].0@
    }
}

impl<V: DeepView> TypeTable<V> {
    pub fn new() -> (t: Self)
        ensures
            t@ == Map::<Seq<char>, V::V>::empty(),
    {
        let t = TypeTable { entries: Vec::new() };
        assert(t@ =~= Map::<Seq<char>, V::V>::empty());
        t
    }

    fn find(&self, key: &String) -> (r: Option<usize>)
        ensures
            match r {
                Some(i) => i < self.entries@.len() && self.entries@[i as int].0@ == key@,
                None => forall|j: int|
                    0 <= j < self.entries@.len() ==> self.entries@[j].0@ != key@,
            },
    {
        let mut i: usize = 0;
        while i < self.entries.len()
            invariant
                i <= self.entries@.len(),
                forall|j: int| 0 <= j < i ==> self.entries@[j].0@ != key@,
            decreases self.entries@.len() - i,
        {
            if self.entries[i].0 == *key {
                return Some(i);
            }
            i = i + 1;
        }
        None
    }

    /// The value under `key`, if any.
    pub fn get(&self, key: &String) -> (r: Option<&V>)
        ensures
            match r {
                Some(v) => self@.dom().contains(key@) && self@[key@] == v.deep_view(),
                None => !self@.dom().contains(key@),
            },
    {
        proof {
            use_type_invariant(self);
        }
        match self.find(key) {
            Some(i) => {
                proof {
                    assert(self@.dom().contains(key@));
                    let c = choose|c: int| 0 <= c < self.entries@.len() && self.entries@[c].0@ == key@;
                    assert(c == i);
                }
                Some(&self.entries[i].1)
            },
            None => None,
        }
    }

    /// Sets the value under `key`.
    pub fn insert(&mut self, key: String, value: V)
        ensures
            final(self)@ == old(self)@.insert(key@, value.deep_view()),
    {
        proof {
            use_type_invariant(&*self);
        }
        let ghost before = self.entries@;
        let ghost kv = key@;
        let ghost vv = value.deep_view();
        let found = self.find(&key);
        let mut entries: Vec<(String, V)> = Vec::new();
        std::mem::swap(&mut entries, &mut self.entries);
        match found {
            Some(i) => {
                entries.set(i, (key, value));
            },
            None => {
                entries.push((key, value));
            },
        }
        proof {
            assert forall|i: int, j: int|
                0 <= i < entries@.len() && 0 <= j < entries@.len() && i != j
                    implies entries@[i].0@ != entries@[j].0@ by {
                if i < before.len() && j < before.len() {
                    if found is Some {
                        let f = found->0 as int;
                        if i != f && j != f {
                            assert(before[i].0@ != before[j].0@);
                        }
                    } else {
                        assert(before[i].0@ != before[j].0@);
                    }
                }
            }
        }
        self.entries = entries;
        proof {
            use_type_invariant(&*self);
            let old_map = Map::new(
                |k: Seq<char>| exists|j: int| 0 <= j < before.len() && before[j].0@ == k,
                |k: Seq<char>|
                    before[choose|j: int| 0 <= j < before.len() && before[j].0@ == k].1.deep_view(),
            );
            assert forall|k: Seq<char>| #![auto]
                self@.dom().contains(k) <==> old_map.insert(kv, vv).dom().contains(k) by {
                if old_map.dom().contains(k) && k != kv {
                    let j = choose|j: int| 0 <= j < before.len() && before[j].0@ == k;
                    assert(self.entries@[j].0@ == k);
                }
                if self@.dom().contains(k) && k != kv {
                    let j = choose|j: int| 0 <= j < self.entries@.len() && self.entries@[j].0@ == k;
                    assert(j < before.len());
                    assert(before[j].0@ == k);
                }
                if k == kv {
                    match found {
                        Some(i) => {
                            assert(self.entries@[i as int].0@ == kv);
                        },
                        None => {
                            assert(self.entries@[before.len() as int].0@ == kv);
                        },
                    }
                }
            }
            assert forall|k: Seq<char>| #![auto]
                self@.dom().contains(k) implies self@[k] == old_map.insert(kv, vv)[k] by {
                let j = choose|j: int| 0 <= j < self.entries@.len() && self.entries@[j].0@ == k;
                if k == kv {
                    assert(self.entries@[j].1.deep_view() == vv);
                } else {
                    let j0 = choose|j0: int| 0 <= j0 < before.len() && before[j0].0@ == k;
                    assert(self.entries@[j0].0@ == k);
                    assert(j0 == j);
                }
            }
            assert(self@ =~= old_map.insert(kv, vv));
        }
    }
}

} // verus!
