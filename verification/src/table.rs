//! Values by name, kept in the order in which their names were first met.

use crate::text::string_views;
use vstd::prelude::*;

verus! {

/// Where `key` stands among `keys`, if it does.
pub open spec fn key_index(keys: Seq<Seq<char>>, key: Seq<char>) -> Option<int> {
    if keys.contains(key) {
        Some(keys.index_of(key))
    } else {
        None
    }
}

/// In a list without repetition, a key stands where it is found.
pub proof fn lemma_key_index(keys: Seq<Seq<char>>, key: Seq<char>, i: int)
    requires
        keys.no_duplicates(),
        0 <= i < keys.len(),
        keys[i] == key,
    ensures
        key_index(keys, key) == Some(i),
{
    assert(keys.contains(key));
    let j = keys.index_of(key);
    assert(keys[j] == key);
    if j != i {
        assert(keys[j] == keys[i]);
    }
}

/// A key that is found stands within the list, at the place given.
pub proof fn lemma_key_index_bounds(keys: Seq<Seq<char>>, key: Seq<char>)
    ensures
        key_index(keys, key) is Some ==> 0 <= key_index(keys, key)->0 < keys.len() && keys[key_index(
            keys,
            key,
        )->0] == key,
{
    if keys.contains(key) {
        let j = keys.index_of(key);
        assert(keys[j] == key);
    }
}

/// Values by name. No name is kept twice.
#[derive(Debug)]
pub struct Table<V> {
    keys: Vec<String>,
    values: Vec<V>,
}

impl<V> Table<V> {
    /// The names, in the order in which they were first met.
    pub closed spec fn spec_keys(&self) -> Seq<Seq<char>> {
        string_views(self.keys@)
    }

    /// The values, each at the place of its name.
    pub closed spec fn spec_values(&self) -> Seq<V> {
        self.values@
    }

    pub closed spec fn wf(&self) -> bool {
        &&& self.keys@.len() == self.values@.len()
        &&& string_views(self.keys@).no_duplicates()
    }

    /// The value that goes by the name `key`.
    pub open spec fn spec_get(&self, key: Seq<char>) -> Option<V> {
        match key_index(self.spec_keys(), key) {
            Some(i) => Some(self.spec_values()[i]),
            None => None,
        }
    }

    /// What a well-formed table is: as many values as names, and no name
    /// twice.
    pub proof fn lemma_wf(&self)
        requires
            self.wf(),
        ensures
            self.spec_keys().len() == self.spec_values().len(),
            self.spec_keys().no_duplicates(),
    {
    }

    pub fn new() -> (r: Self)
        ensures
            r.wf(),
            r.spec_keys() == Seq::<Seq<char>>::empty(),
            r.spec_values() == Seq::<V>::empty(),
    {
        let r = Table { keys: Vec::new(), values: Vec::new() };
        assert(r.spec_keys() =~= Seq::<Seq<char>>::empty());
        r
    }

    pub fn len(&self) -> (n: usize)
        requires
            self.wf(),
        ensures
            n == self.spec_keys().len(),
            n == self.spec_values().len(),
    {
        self.keys.len()
    }

    /// Where `key` stands, if it does.
    pub fn position(&self, key: &str) -> (r: Option<usize>)
        requires
            self.wf(),
        ensures
            r is Some <==> key_index(self.spec_keys(), key@) is Some,
            r is Some ==> r->0 == key_index(self.spec_keys(), key@)->0 && r->0
                < self.spec_keys().len() && self.spec_keys()[r->0 as int] == key@,
    {
        let wanted = key.to_owned();
        let mut i: usize = 0;
        while i < self.keys.len()
            invariant
                i <= self.keys@.len(),
                wanted@ == key@,
                self.wf(),
                forall|k: int| 0 <= k < i ==> (#[trigger] self.keys@[k])@ != key@,
            decreases self.keys@.len() - i,
        {
            if self.keys[i] == wanted {
                proof {
                    assert(self.spec_keys()[i as int] == key@);
                    lemma_key_index(self.spec_keys(), key@, i as int);
                }
                return Some(i);
            }
            i += 1;
        }
        assert forall|k: int| 0 <= k < self.spec_keys().len() implies self.spec_keys()[k]
            != key@ by {
            assert(self.spec_keys()[k] == self.keys@[k]@);
        }
        None
    }

    /// The value that goes by the name `key`.
    pub fn get(&self, key: &str) -> (r: Option<&V>)
        requires
            self.wf(),
        ensures
            r is Some <==> self.spec_get(key@) is Some,
            r is Some ==> *r->0 == self.spec_get(key@)->0,
    {
        match self.position(key) {
            Some(i) => Some(&self.values[i]),
            None => None,
        }
    }

    /// The name at the place `i`.
    pub fn key_at(&self, i: usize) -> (k: &String)
        requires
            self.wf(),
            i < self.spec_keys().len(),
        ensures
            k@ == self.spec_keys()[i as int],
    {
        &self.keys[i]
    }

    /// The value at the place `i`.
    pub fn value_at(&self, i: usize) -> (v: &V)
        requires
            self.wf(),
            i < self.spec_values().len(),
        ensures
            *v == self.spec_values()[i as int],
    {
        &self.values[i]
    }

    /// Lets `value` go by the name `key`: in the place of the value that
    /// went by it, or behind all others.
    pub fn put(&mut self, key: String, value: V)
        requires
            old(self).wf(),
        ensures
            final(self).wf(),
            match key_index(old(self).spec_keys(), key@) {
                Some(i) => final(self).spec_keys() == old(self).spec_keys() && final(self).spec_values() == old(self).spec_values().update(i, value),
                None => final(self).spec_keys() == old(self).spec_keys().push(key@) && final(self).spec_values() == old(self).spec_values().push(value),
            },
            final(self).spec_get(key@) == Some(value),
            forall|other: Seq<char>|
                other != key@ ==> final(self).spec_get(other) == old(self).spec_get(other),
    {
        let ghost keys = self.spec_keys();
        let ghost values = self.spec_values();
        match self.position(key.as_str()) {
            Some(i) => {
                self.values[i] = value;
                proof {
                    assert forall|other: Seq<char>| other != key@ implies self.spec_get(other)
                        == old(self).spec_get(other) by {
                        lemma_key_index_bounds(keys, other);
                    }
                }
            },
            None => {
                self.keys.push(key);
                self.values.push(value);
                proof {
                    let after = self.spec_keys();
                    assert(after =~= keys.push(key@));
                    lemma_key_index(after, key@, keys.len() as int);
                    assert forall|other: Seq<char>| other != key@ implies self.spec_get(other)
                        == old(self).spec_get(other) by {
                        lemma_key_index_bounds(keys, other);
                        lemma_key_index_bounds(after, other);
                        if key_index(keys, other) is Some {
                            lemma_key_index(after, other, key_index(keys, other)->0);
                        } else if key_index(after, other) is Some {
                            let m = key_index(after, other)->0;
                            assert(keys[m] == other);
                            assert(keys.contains(other));
                        }
                    }
                }
            },
        }
    }

    /// Forgets the name `key` and gives back the value that went by it.
    pub fn remove(&mut self, key: &str) -> (r: Option<V>)
        requires
            old(self).wf(),
        ensures
            final(self).wf(),
            r == old(self).spec_get(key@),
            match key_index(old(self).spec_keys(), key@) {
                Some(i) => final(self).spec_keys() == old(self).spec_keys().remove(i) && final(self).spec_values() == old(self).spec_values().remove(i),
                None => final(self).spec_keys() == old(self).spec_keys() && final(self).spec_values() == old(self).spec_values(),
            },
            final(self).spec_get(key@) is None,
            forall|other: Seq<char>|
                other != key@ ==> final(self).spec_get(other) == old(self).spec_get(other),
    {
        let ghost keys = self.spec_keys();
        let ghost values = self.spec_values();
        match self.position(key) {
            Some(i) => {
                self.keys.remove(i);
                let v = self.values.remove(i);
                proof {
                    let after = self.spec_keys();
                    assert(after =~= keys.remove(i as int));
                    assert(after.no_duplicates()) by {
                        assert forall|a: int, b: int|
                            0 <= a < after.len() && 0 <= b < after.len() && a != b implies after[a]
                            != after[b] by {
                            let a2 = if a < i { a } else { a + 1 };
                            let b2 = if b < i { b } else { b + 1 };
                            assert(after[a] == keys[a2] && after[b] == keys[b2]);
                        }
                    }
                    assert(!after.contains(key@)) by {
                        if after.contains(key@) {
                            let m = after.index_of(key@);
                            assert(after[m] == key@);
                            let m2 = if m < i { m } else { m + 1 };
                            assert(keys[m2] == key@);
                            assert(keys[m2] == keys[i as int]);
                        }
                    }
                    assert forall|other: Seq<char>| other != key@ implies self.spec_get(other)
                        == old(self).spec_get(other) by {
                        lemma_key_index_bounds(keys, other);
                        lemma_key_index_bounds(after, other);
                        if key_index(keys, other) is Some {
                            let j = key_index(keys, other)->0;
                            let j2 = if j < i { j } else { j - 1 };
                            assert(after[j2] == other);
                            lemma_key_index(after, other, j2);
                        } else if key_index(after, other) is Some {
                            let m = key_index(after, other)->0;
                            let m2 = if m < i { m } else { m + 1 };
                            assert(keys[m2] == other);
                            assert(keys.contains(other));
                        }
                    }
                }
                Some(v)
            },
            None => None,
        }
    }

    /// Forgets everything.
    pub fn clear(&mut self)
        ensures
            final(self).wf(),
            final(self).spec_keys() == Seq::<Seq<char>>::empty(),
            final(self).spec_values() == Seq::<V>::empty(),
    {
        self.keys.clear();
        self.values.clear();
        assert(self.spec_keys() =~= Seq::<Seq<char>>::empty());
    }
}

} // verus!
