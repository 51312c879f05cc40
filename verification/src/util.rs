//! Small tools.

use vstd::prelude::*;

verus! {

/// `n + 1`, held at the largest value there is.
pub open spec fn one_more(n: usize) -> usize {
    if n < usize::MAX {
        (n + 1) as usize
    } else {
        n
    }
}

/// Where `key` stands among the first `n` entries of a tally.
pub open spec fn tally_index(tally: Seq<(Seq<char>, usize)>, key: Seq<char>, n: int) -> Option<int>
    decreases n,
{
    if n <= 0 || n > tally.len() {
        None
    } else if tally[n - 1].0 == key {
        Some(n - 1)
    } else {
        tally_index(tally, key, n - 1)
    }
}

/// The tally after `key` was counted once more: its count grows by one,
/// or it comes behind all other keys with the count 1.
pub open spec fn counted(tally: Seq<(Seq<char>, usize)>, key: Seq<char>) -> Seq<
    (Seq<char>, usize),
> {
    match tally_index(tally, key, tally.len() as int) {
        Some(i) => tally.update(i, (key, one_more(tally[i].1))),
        None => tally.push((key, 1usize)),
    }
}

/// Among keys without repetition, a key is found where it stands.
pub proof fn lemma_tally_index(tally: Seq<(Seq<char>, usize)>, key: Seq<char>, n: int)
    requires
        0 <= n <= tally.len(),
        forall|i: int, j: int|
            0 <= i < j < tally.len() ==> (#[trigger] tally[i]).0 != (#[trigger] tally[j]).0,
    ensures
        match tally_index(tally, key, n) {
            Some(i) => 0 <= i < n && tally[i].0 == key,
            None => forall|i: int| 0 <= i < n ==> (#[trigger] tally[i]).0 != key,
        },
        forall|i: int|
            0 <= i < n && (#[trigger] tally[i]).0 == key ==> tally_index(tally, key, n) == Some(i),
    decreases n,
{
    if n > 0 {
        lemma_tally_index(tally, key, n - 1);
    }
}

/// Counts how often each key was seen. Keys are kept in the order in which
/// they were first seen.
#[derive(Debug)]
pub struct Counter {
    keys: Vec<String>,
    counts: Vec<usize>,
}

impl Counter {
    /// The keys seen so far, in the order in which they were first seen.
    pub closed spec fn spec_keys(&self) -> Seq<Seq<char>> {
        crate::text::string_views(self.keys@)
    }

    /// How often the key with index `i` was seen.
    pub closed spec fn spec_count_at(&self, i: int) -> usize {
        self.counts@[i]
    }

    /// No key is kept twice, and every key has its count.
    pub closed spec fn wf(&self) -> bool {
        &&& self.keys@.len() == self.counts@.len()
        &&& crate::text::string_views(self.keys@).no_duplicates()
    }

    /// The keys with their counts, in the order in which the keys were
    /// first seen.
    pub open spec fn spec_tally(&self) -> Seq<(Seq<char>, usize)> {
        Seq::new(self.spec_keys().len(), |i: int| (self.spec_keys()[i], self.spec_count_at(i)))
    }

    /// How often `key` was seen; 0 for a key that never was.
    pub open spec fn spec_count(&self, key: Seq<char>) -> usize {
        if self.spec_keys().contains(key) {
            self.spec_count_at(self.spec_keys().index_of(key))
        } else {
            0
        }
    }

    pub fn new() -> (r: Self)
        ensures
            r.wf(),
            r.spec_keys() == Seq::<Seq<char>>::empty(),
            r.spec_tally() == Seq::<(Seq<char>, usize)>::empty(),
    {
        let r = Counter { keys: Vec::new(), counts: Vec::new() };
        assert(r.spec_keys() =~= Seq::<Seq<char>>::empty());
        assert(r.spec_tally() =~= Seq::<(Seq<char>, usize)>::empty());
        r
    }

    fn position(&self, key: &str) -> (r: Option<usize>)
        requires
            self.wf(),
        ensures
            r is Some <==> self.spec_keys().contains(key@),
            r is Some ==> r->0 < self.spec_keys().len() && self.spec_keys()[r->0 as int] == key@
                && self.spec_keys().index_of(key@) == r->0,
    {
        let wanted = key.to_owned();
        let mut i: usize = 0;
        while i < self.keys.len()
            invariant
                i <= self.keys@.len(),
                wanted@ == key@,
                self.wf(),
                forall|k: int| 0 <= k < i ==> (#[trigger] self.keys@[k])@ != key@,
            decreases self.keys@.len() - i,
        {
            if self.keys[i] == wanted {
                let ghost views = self.spec_keys();
                assert(views[i as int] == key@);
                assert(views.contains(key@));
                assert(views.index_of(key@) == i) by {
                    let j = views.index_of(key@);
                    assert(views[j] == key@);
                    if j != i {
                        assert(views[j] == views[i as int]);
                    }
                }
                return Some(i);
            }
            i += 1;
        }
        assert forall|k: int| 0 <= k < self.spec_keys().len() implies self.spec_keys()[k]
            != key@ by {
            assert(self.spec_keys()[k] == self.keys@[k]@);
        }
        None
    }

    /// Counts `key` once more. A count stays at the largest value there is
    /// once it has reached it.
    pub fn inc(&mut self, key: &str)
        requires
            old(self).wf(),
        ensures
            final(self).wf(),
            final(self).spec_count(key@) == one_more(old(self).spec_count(key@)),
            forall|other: Seq<char>|
                other != key@ ==> final(self).spec_count(other) == old(self).spec_count(other),
            final(self).spec_keys() == if old(self).spec_keys().contains(key@) {
                old(self).spec_keys()
            } else {
                old(self).spec_keys().push(key@)
            },
            final(self).spec_tally() == counted(old(self).spec_tally(), key@),
    {
        let ghost before = self.spec_keys();
        let ghost tally = self.spec_tally();
        proof {
            lemma_tally_index(tally, key@, tally.len() as int);
        }
        match self.position(key) {
            Some(i) => {
                let n: usize = self.counts[i];
                self.counts[i] = if n < usize::MAX { n + 1 } else { n };
                assert(tally[i as int].0 == key@);
                assert(self.spec_tally() =~= counted(tally, key@));
                assert forall|other: Seq<char>| other != key@ implies self.spec_count(other) == old(
                    self,
                ).spec_count(other) by {
                    if before.contains(other) {
                        let j = before.index_of(other);
                        assert(before[j] == other);
                    }
                }
            },
            None => {
                self.keys.push(key.to_owned());
                self.counts.push(1);
                let ghost after = self.spec_keys();
                assert(after =~= before.push(key@));
                assert(self.spec_tally() =~= counted(tally, key@));
                assert(after.no_duplicates());
                assert(after.contains(key@)) by {
                    assert(after[after.len() - 1] == key@);
                }
                assert(after.index_of(key@) == after.len() - 1) by {
                    let j = after.index_of(key@);
                    assert(after[j] == key@);
                    if j != after.len() - 1 {
                        assert(before[j] == key@);
                    }
                }
                assert forall|other: Seq<char>| other != key@ implies self.spec_count(other) == old(
                    self,
                ).spec_count(other) by {
                    if before.contains(other) {
                        let j = before.index_of(other);
                        assert(before[j] == other);
                        assert(after[j] == other);
                        assert(after.contains(other));
                        let k = after.index_of(other);
                        assert(after[k] == other);
                        if k != j {
                            assert(after[k] == after[j]);
                        }
                    } else {
                        if after.contains(other) {
                            let k = after.index_of(other);
                            assert(after[k] == other);
                            assert(before[k] == other);
                        }
                    }
                }
            },
        }
    }

    /// How often `key` was seen, if ever.
    pub fn get(&self, key: &str) -> (r: Option<usize>)
        requires
            self.wf(),
        ensures
            r is Some <==> self.spec_keys().contains(key@),
            r is Some ==> r->0 == self.spec_count(key@),
    {
        match self.position(key) {
            Some(i) => Some(self.counts[i]),
            None => None,
        }
    }

    /// The keys seen so far, in the order in which they were first seen.
    pub fn keys(&self) -> (r: Vec<String>)
        ensures
            crate::text::string_views(r@) == self.spec_keys(),
    {
        crate::text::clone_texts(&self.keys)
    }

    pub fn len(&self) -> (n: usize)
        ensures
            n == self.spec_keys().len(),
    {
        self.keys.len()
    }

    /// The key at the place `i`.
    pub fn key_at(&self, i: usize) -> (k: &String)
        requires
            i < self.spec_keys().len(),
        ensures
            k@ == self.spec_keys()[i as int],
    {
        &self.keys[i]
    }

    /// How often the key at the place `i` was seen.
    pub fn count_at(&self, i: usize) -> (n: usize)
        requires
            self.wf(),
            i < self.spec_keys().len(),
        ensures
            n == self.spec_count_at(i as int),
    {
        self.counts[i]
    }
}

} // verus!
