//! What has changed for a viewer since it was last told.
//!
//! A viewer is told of every thing that is new or not as it was when the
//! viewer was last told of it, and of every thing that is gone. What the
//! viewer was told is retained for the next time.

use crate::fixed::types::{Airport, AirportView, FIR, FIRView};
use crate::moving::pilot::{Pilot, PilotView};
use crate::text::views;
use vstd::prelude::*;

verus! {

/// Things that go by a name and can be held against each other.
pub trait Keyed: View + Sized {
    /// The name that a thing goes by.
    spec fn spec_key(v: Self::V) -> Seq<char>;

    /// Whether a viewer who knows the one need not be told of the other.
    spec fn alike(a: Self::V, b: Self::V) -> bool;

    fn has_key(&self, key: &Self) -> (b: bool)
        ensures
            b == (Self::spec_key(self@) == Self::spec_key(key@)),
    ;

    fn same(&self, other: &Self) -> (b: bool)
        ensures
            b == Self::alike(self@, other@),
    ;

    fn copy(&self) -> (r: Self)
        ensures
            r@ == self@,
    ;
}

impl Keyed for Pilot {
    open spec fn spec_key(v: PilotView) -> Seq<char> {
        v.callsign
    }

    open spec fn alike(a: PilotView, b: PilotView) -> bool {
        a == b
    }

    fn has_key(&self, key: &Self) -> (b: bool) {
        self.callsign == key.callsign
    }

    fn same(&self, other: &Self) -> (b: bool) {
        Pilot::same(self, other)
    }

    fn copy(&self) -> (r: Self) {
        self.clone()
    }
}

impl Keyed for Airport {
    open spec fn spec_key(v: AirportView) -> Seq<char> {
        v.compound_id()
    }

    open spec fn alike(a: AirportView, b: AirportView) -> bool {
        a.alike(b)
    }

    fn has_key(&self, key: &Self) -> (b: bool) {
        let a = self.compound_id();
        let b = key.compound_id();
        a == b
    }

    fn same(&self, other: &Self) -> (b: bool) {
        Airport::same(self, other)
    }

    fn copy(&self) -> (r: Self) {
        self.clone()
    }
}

impl Keyed for FIR {
    open spec fn spec_key(v: FIRView) -> Seq<char> {
        v.icao
    }

    open spec fn alike(a: FIRView, b: FIRView) -> bool {
        a.alike(b)
    }

    fn has_key(&self, key: &Self) -> (b: bool) {
        self.icao == key.icao
    }

    fn same(&self, other: &Self) -> (b: bool) {
        FIR::same(self, other)
    }

    fn copy(&self) -> (r: Self) {
        self.clone()
    }
}

/// The index of the last of the first `n` things with the name `key`.
pub open spec fn place_of<T: Keyed>(list: Seq<T::V>, key: Seq<char>, n: int) -> Option<int>
    decreases n,
{
    if n <= 0 || n > list.len() {
        None
    } else if T::spec_key(list[n - 1]) == key {
        Some(n - 1)
    } else {
        place_of::<T>(list, key, n - 1)
    }
}

/// Whether `v` is news to a viewer who was told `known`: it is new, or not
/// alike what the viewer knows by its name.
pub open spec fn is_news<T: Keyed>(known: Seq<T::V>, v: T::V) -> bool {
    match place_of::<T>(known, T::spec_key(v), known.len() as int) {
        Some(i) => !T::alike(known[i], v),
        None => true,
    }
}

/// What the viewer knows after it was told `v`.
pub open spec fn told<T: Keyed>(known: Seq<T::V>, v: T::V) -> Seq<T::V> {
    match place_of::<T>(known, T::spec_key(v), known.len() as int) {
        Some(i) => known.update(i, v),
        None => known.push(v),
    }
}

/// What the viewer knows after the first `n` of `items` were held against
/// what it knew: it was told of each that was news when its turn came.
pub open spec fn known_after<T: Keyed>(known: Seq<T::V>, items: Seq<T::V>, n: int) -> Seq<T::V>
    decreases n,
{
    if n <= 0 || n > items.len() {
        known
    } else {
        let before = known_after::<T>(known, items, n - 1);
        if is_news::<T>(before, items[n - 1]) {
            told::<T>(before, items[n - 1])
        } else {
            before
        }
    }
}

/// Those of the first `n` of `items` that the viewer is told of, in their
/// order.
pub open spec fn news<T: Keyed>(known: Seq<T::V>, items: Seq<T::V>, n: int) -> Seq<T::V>
    decreases n,
{
    if n <= 0 || n > items.len() {
        Seq::empty()
    } else if is_news::<T>(known_after::<T>(known, items, n - 1), items[n - 1]) {
        news::<T>(known, items, n - 1).push(items[n - 1])
    } else {
        news::<T>(known, items, n - 1)
    }
}

/// Those of the first `n` things known whose name is among `items`.
pub open spec fn still_there<T: Keyed>(known: Seq<T::V>, items: Seq<T::V>, n: int) -> Seq<T::V>
    decreases n,
{
    if n <= 0 || n > known.len() {
        Seq::empty()
    } else if place_of::<T>(items, T::spec_key(known[n - 1]), items.len() as int) is Some {
        still_there::<T>(known, items, n - 1).push(known[n - 1])
    } else {
        still_there::<T>(known, items, n - 1)
    }
}

/// Those of the first `n` things known whose name is not among `items`.
pub open spec fn gone<T: Keyed>(known: Seq<T::V>, items: Seq<T::V>, n: int) -> Seq<T::V>
    decreases n,
{
    if n <= 0 || n > known.len() {
        Seq::empty()
    } else if place_of::<T>(items, T::spec_key(known[n - 1]), items.len() as int) is None {
        gone::<T>(known, items, n - 1).push(known[n - 1])
    } else {
        gone::<T>(known, items, n - 1)
    }
}

/// Where nothing is in sight, a viewer is told of nothing new, all that it
/// knew is gone, and it knows nothing afterwards. A viewer that knew nothing
/// is then told nothing at all.
pub proof fn lemma_nothing_in_sight<T: Keyed>(known: Seq<T::V>, n: int)
    requires
        0 <= n <= known.len(),
    ensures
        news::<T>(known, Seq::empty(), 0) == Seq::<T::V>::empty(),
        known_after::<T>(known, Seq::empty(), 0) == known,
        gone::<T>(known, Seq::empty(), n) == known.subrange(0, n),
        still_there::<T>(known, Seq::empty(), n) == Seq::<T::V>::empty(),
        known.len() == 0 ==> gone::<T>(known, Seq::empty(), n) == Seq::<T::V>::empty(),
    decreases n,
{
    if n > 0 {
        lemma_nothing_in_sight::<T>(known, n - 1);
        assert(place_of::<T>(Seq::empty(), T::spec_key(known[n - 1]), 0) is None);
        assert(known.subrange(0, n - 1).push(known[n - 1]) =~= known.subrange(0, n));
    } else {
        assert(known.subrange(0, 0) =~= Seq::<T::V>::empty());
    }
}

/// Whether no two of the things go by one name.
pub open spec fn distinct<T: Keyed>(items: Seq<T::V>) -> bool {
    forall|i: int, j: int|
        0 <= i < j < items.len() ==> T::spec_key(#[trigger] items[i]) != T::spec_key(
            #[trigger] items[j],
        )
}

/// A thing that is found goes by the name asked for, and nothing behind it
/// does; where nothing is found, nothing goes by the name.
pub proof fn lemma_place_of<T: Keyed>(list: Seq<T::V>, key: Seq<char>, n: int)
    requires
        0 <= n <= list.len(),
    ensures
        match place_of::<T>(list, key, n) {
            Some(i) => 0 <= i < n && T::spec_key(list[i]) == key && forall|j: int|
                i < j < n ==> T::spec_key(#[trigger] list[j]) != key,
            None => forall|j: int| 0 <= j < n ==> T::spec_key(#[trigger] list[j]) != key,
        },
    decreases n,
{
    if n > 0 && T::spec_key(list[n - 1]) != key {
        lemma_place_of::<T>(list, key, n - 1);
    }
}

/// Where a thing is found depends on the names alone.
pub proof fn lemma_place_of_names<T: Keyed>(a: Seq<T::V>, b: Seq<T::V>, key: Seq<char>, n: int)
    requires
        0 <= n <= a.len(),
        n <= b.len(),
        forall|j: int| 0 <= j < n ==> T::spec_key(#[trigger] a[j]) == T::spec_key(b[j]),
    ensures
        place_of::<T>(a, key, n) == place_of::<T>(b, key, n),
    decreases n,
{
    if n > 0 {
        assert(T::spec_key(a[n - 1]) == T::spec_key(b[n - 1]));
        if T::spec_key(a[n - 1]) != key {
            lemma_place_of_names::<T>(a, b, key, n - 1);
        }
    }
}

/// Once a viewer has been held against things of different names, none of
/// them is news to it.
pub proof fn lemma_known_after<T: Keyed>(known: Seq<T::V>, items: Seq<T::V>, n: int)
    requires
        0 <= n <= items.len(),
        distinct::<T>(items),
        forall|v: T::V| #[trigger] T::alike(v, v),
    ensures
        forall|i: int|
            0 <= i < n ==> !is_news::<T>(known_after::<T>(known, items, n), #[trigger] items[i]),
    decreases n,
{
    if n > 0 {
        lemma_known_after::<T>(known, items, n - 1);
        let before = known_after::<T>(known, items, n - 1);
        let after = known_after::<T>(known, items, n);
        let v = items[n - 1];
        let len = before.len() as int;
        lemma_place_of::<T>(before, T::spec_key(v), len);
        if is_news::<T>(before, v) {
            assert(T::alike(v, v));
            match place_of::<T>(before, T::spec_key(v), len) {
                Some(q) => {
                    assert(after == before.update(q, v));
                    assert forall|i: int| 0 <= i < n implies !is_news::<T>(
                        after,
                        #[trigger] items[i],
                    ) by {
                        let w = items[i];
                        lemma_place_of_names::<T>(after, before, T::spec_key(w), len);
                        lemma_place_of::<T>(before, T::spec_key(w), len);
                        if i < n - 1 {
                            assert(T::spec_key(items[i]) != T::spec_key(items[n - 1]));
                            assert(!is_news::<T>(before, items[i]));
                        }
                    }
                },
                None => {
                    assert(after == before.push(v));
                    assert forall|i: int| 0 <= i < n implies !is_news::<T>(
                        after,
                        #[trigger] items[i],
                    ) by {
                        let w = items[i];
                        lemma_place_of_names::<T>(after, before, T::spec_key(w), len);
                        lemma_place_of::<T>(before, T::spec_key(w), len);
                        if i < n - 1 {
                            assert(T::spec_key(items[i]) != T::spec_key(items[n - 1]));
                            assert(!is_news::<T>(before, items[i]));
                            assert(place_of::<T>(after, T::spec_key(w), len + 1) == place_of::<T>(
                                after,
                                T::spec_key(w),
                                len,
                            ));
                        }
                    }
                },
            }
        } else {
            assert forall|i: int| 0 <= i < n implies !is_news::<T>(after, #[trigger] items[i]) by {
                if i < n - 1 {
                    assert(!is_news::<T>(before, items[i]));
                }
            }
        }
    }
}

/// What is still there of what a viewer knows: of a name that is in sight,
/// the thing that the viewer knew by it; of any other name, nothing. All
/// that is still there goes by a name that is in sight.
pub proof fn lemma_still_there<T: Keyed>(known: Seq<T::V>, items: Seq<T::V>, key: Seq<char>, n: int)
    requires
        0 <= n <= known.len(),
    ensures
        still_there::<T>(known, items, n).len() <= n,
        forall|j: int|
            0 <= j < still_there::<T>(known, items, n).len() ==> place_of::<T>(
                items,
                T::spec_key(#[trigger] still_there::<T>(known, items, n)[j]),
                items.len() as int,
            ) is Some,
        place_of::<T>(items, key, items.len() as int) is Some ==> match place_of::<T>(
            known,
            key,
            n,
        ) {
            Some(p) => {
                let kept = still_there::<T>(known, items, n);
                place_of::<T>(kept, key, kept.len() as int) is Some && kept[place_of::<T>(
                    kept,
                    key,
                    kept.len() as int,
                )->0] == known[p]
            },
            None => {
                let kept = still_there::<T>(known, items, n);
                place_of::<T>(kept, key, kept.len() as int) is None
            },
        },
    decreases n,
{
    if n > 0 {
        lemma_still_there::<T>(known, items, key, n - 1);
        let before = still_there::<T>(known, items, n - 1);
        let kept = still_there::<T>(known, items, n);
        let last = known[n - 1];
        let len = before.len() as int;
        lemma_place_of::<T>(before, key, len);
        lemma_place_of::<T>(known, key, n - 1);
        if place_of::<T>(items, T::spec_key(last), items.len() as int) is Some {
            assert(kept == before.push(last));
            lemma_place_of_names::<T>(kept, before, key, len);
            if T::spec_key(last) == key {
                assert(place_of::<T>(kept, key, len + 1) == Some(len));
            } else {
                assert(place_of::<T>(kept, key, len + 1) == place_of::<T>(kept, key, len));
                assert(place_of::<T>(known, key, n) == place_of::<T>(known, key, n - 1));
            }
        } else {
            assert(kept == before);
            if place_of::<T>(items, key, items.len() as int) is Some {
                assert(T::spec_key(last) != key);
                assert(place_of::<T>(known, key, n) == place_of::<T>(known, key, n - 1));
            }
        }
    }
}

/// Of what goes by names that are in sight, nothing is gone and all is
/// still there.
pub proof fn lemma_all_in_sight<T: Keyed>(known: Seq<T::V>, items: Seq<T::V>, n: int)
    requires
        0 <= n <= known.len(),
        forall|j: int|
            0 <= j < known.len() ==> place_of::<T>(
                items,
                T::spec_key(#[trigger] known[j]),
                items.len() as int,
            ) is Some,
    ensures
        gone::<T>(known, items, n) == Seq::<T::V>::empty(),
        still_there::<T>(known, items, n) == known.subrange(0, n),
    decreases n,
{
    if n > 0 {
        lemma_all_in_sight::<T>(known, items, n - 1);
        assert(place_of::<T>(items, T::spec_key(known[n - 1]), items.len() as int) is Some);
        assert(known.subrange(0, n - 1).push(known[n - 1]) =~= known.subrange(0, n));
    } else {
        assert(known.subrange(0, 0) =~= Seq::<T::V>::empty());
    }
}

/// A viewer to which none of the first `n` things is news is told of none
/// of them, and knows afterwards what it knew.
pub proof fn lemma_no_news<T: Keyed>(known: Seq<T::V>, items: Seq<T::V>, n: int)
    requires
        0 <= n <= items.len(),
        forall|i: int| 0 <= i < n ==> !is_news::<T>(known, #[trigger] items[i]),
    ensures
        known_after::<T>(known, items, n) == known,
        news::<T>(known, items, n) == Seq::<T::V>::empty(),
    decreases n,
{
    if n > 0 {
        lemma_no_news::<T>(known, items, n - 1);
        assert(!is_news::<T>(known, items[n - 1]));
    }
}

/// A viewer that looks twice at the same things is told nothing the second
/// time: nothing is news to it, nothing is gone, and it knows afterwards
/// what it knew. This holds where no two of the things go by one name and
/// every thing is alike itself.
pub proof fn lemma_second_look<T: Keyed>(known: Seq<T::V>, items: Seq<T::V>)
    requires
        distinct::<T>(items),
        forall|v: T::V| #[trigger] T::alike(v, v),
    ensures
        ({
            let first = known_after::<T>(known, items, items.len() as int);
            let kept = still_there::<T>(first, items, first.len() as int);
            &&& news::<T>(kept, items, items.len() as int) == Seq::<T::V>::empty()
            &&& known_after::<T>(kept, items, items.len() as int) == kept
            &&& gone::<T>(kept, items, kept.len() as int) == Seq::<T::V>::empty()
            &&& still_there::<T>(kept, items, kept.len() as int) == kept
        }),
{
    let first = known_after::<T>(known, items, items.len() as int);
    let kept = still_there::<T>(first, items, first.len() as int);
    lemma_known_after::<T>(known, items, items.len() as int);
    assert forall|i: int| 0 <= i < items.len() implies !is_news::<T>(kept, #[trigger] items[i]) by {
        let key = T::spec_key(items[i]);
        lemma_place_of::<T>(items, key, items.len() as int);
        lemma_still_there::<T>(first, items, key, first.len() as int);
        assert(!is_news::<T>(first, items[i]));
    }
    lemma_no_news::<T>(kept, items, items.len() as int);
    lemma_still_there::<T>(first, items, Seq::empty(), first.len() as int);
    lemma_all_in_sight::<T>(kept, items, kept.len() as int);
    assert(kept.subrange(0, kept.len() as int) =~= kept);
}

/// Those of the first `n` things that differ from what a viewer knows: the
/// viewer does not know their name, or knows another thing by it.
pub open spec fn differing<T: Keyed>(known: Seq<T::V>, items: Seq<T::V>, n: int) -> Seq<T::V>
    decreases n,
{
    if n <= 0 || n > items.len() {
        Seq::empty()
    } else if is_news::<T>(known, items[n - 1]) {
        differing::<T>(known, items, n - 1).push(items[n - 1])
    } else {
        differing::<T>(known, items, n - 1)
    }
}

/// Things behind the place `m` that go by other names do not count when a
/// name is looked for.
pub proof fn lemma_place_of_tail<T: Keyed>(list: Seq<T::V>, key: Seq<char>, m: int, n: int)
    requires
        0 <= m <= n <= list.len(),
        forall|j: int| m <= j < n ==> T::spec_key(#[trigger] list[j]) != key,
    ensures
        place_of::<T>(list, key, n) == place_of::<T>(list, key, m),
    decreases n - m,
{
    if m < n {
        assert(T::spec_key(list[n - 1]) != key);
        lemma_place_of_tail::<T>(list, key, m, n - 1);
    }
}

/// What a viewer knows after it was held against things: all that it knew
/// stands where it stood, under its name, and is as it was unless a thing
/// of its name was among those; what has come behind goes by the names of
/// those things.
pub proof fn lemma_known_structure<T: Keyed>(known: Seq<T::V>, items: Seq<T::V>, n: int)
    requires
        0 <= n <= items.len(),
    ensures
        known_after::<T>(known, items, n).len() >= known.len(),
        forall|j: int|
            0 <= j < known.len() ==> T::spec_key(#[trigger] known_after::<T>(known, items, n)[j])
                == T::spec_key(known[j]),
        forall|j: int|
            0 <= j < known.len() && place_of::<T>(items, T::spec_key(known[j]), n) is None
                ==> #[trigger] known_after::<T>(known, items, n)[j] == known[j],
        forall|j: int|
            known.len() <= j < known_after::<T>(known, items, n).len() ==> place_of::<T>(
                items,
                T::spec_key(#[trigger] known_after::<T>(known, items, n)[j]),
                n,
            ) is Some,
    decreases n,
{
    if n > 0 {
        lemma_known_structure::<T>(known, items, n - 1);
        let before = known_after::<T>(known, items, n - 1);
        let after = known_after::<T>(known, items, n);
        let v = items[n - 1];
        lemma_place_of::<T>(before, T::spec_key(v), before.len() as int);
        assert forall|j: int| 0 <= j < known.len() implies T::spec_key(#[trigger] after[j])
            == T::spec_key(known[j]) by {
            assert(T::spec_key(before[j]) == T::spec_key(known[j]));
        }
        assert forall|j: int|
            0 <= j < known.len() && place_of::<T>(
                items,
                T::spec_key(known[j]),
                n,
            ) is None implies #[trigger] after[j] == known[j] by {
            assert(T::spec_key(before[j]) == T::spec_key(known[j]));
            assert(place_of::<T>(items, T::spec_key(known[j]), n - 1) is None);
            assert(before[j] == known[j]);
        }
        assert forall|j: int| known.len() <= j < after.len() implies place_of::<T>(
            items,
            T::spec_key(#[trigger] after[j]),
            n,
        ) is Some by {
            if j < before.len() && after[j] == before[j] {
                assert(place_of::<T>(items, T::spec_key(before[j]), n - 1) is Some);
            } else {
                assert(after[j] == v);
            }
        }
    }
}

/// Whether a thing is news to a viewer does not depend on the things of
/// other names that the viewer was held against before.
pub proof fn lemma_is_news_untouched<T: Keyed>(known: Seq<T::V>, items: Seq<T::V>, n: int)
    requires
        0 < n <= items.len(),
        distinct::<T>(items),
    ensures
        is_news::<T>(known_after::<T>(known, items, n - 1), items[n - 1]) == is_news::<T>(
            known,
            items[n - 1],
        ),
{
    let before = known_after::<T>(known, items, n - 1);
    let v = items[n - 1];
    let key = T::spec_key(v);
    lemma_known_structure::<T>(known, items, n - 1);
    lemma_place_of::<T>(items, key, n - 1);
    assert(place_of::<T>(items, key, n - 1) is None) by {
        if place_of::<T>(items, key, n - 1) is Some {
            let i = place_of::<T>(items, key, n - 1)->0;
            assert(T::spec_key(items[i]) == T::spec_key(items[n - 1]));
        }
    }
    assert forall|j: int| known.len() <= j < before.len() implies T::spec_key(
        #[trigger] before[j],
    ) != key by {
        assert(place_of::<T>(items, T::spec_key(before[j]), n - 1) is Some);
    }
    lemma_place_of_tail::<T>(before, key, known.len() as int, before.len() as int);
    lemma_place_of_names::<T>(before, known, key, known.len() as int);
    lemma_place_of::<T>(known, key, known.len() as int);
    match place_of::<T>(known, key, known.len() as int) {
        Some(p) => {
            assert(place_of::<T>(items, T::spec_key(known[p]), n - 1) is None);
            assert(before[p] == known[p]);
        },
        None => {},
    }
}

/// A viewer that is held against things of different names is told of
/// those that differ from what it knew, in their order.
pub proof fn lemma_told_of_what_differs<T: Keyed>(known: Seq<T::V>, items: Seq<T::V>, n: int)
    requires
        0 <= n <= items.len(),
        distinct::<T>(items),
    ensures
        news::<T>(known, items, n) == differing::<T>(known, items, n),
    decreases n,
{
    if n > 0 {
        lemma_told_of_what_differs::<T>(known, items, n - 1);
        lemma_is_news_untouched::<T>(known, items, n);
    }
}

/// What is gone for a viewer that was held against things is what it knew
/// before by names that are not among those of the things: up to the place
/// `m`, the same is gone of what it knows afterwards as of what it knew.
pub proof fn lemma_gone_of_known<T: Keyed>(known: Seq<T::V>, items: Seq<T::V>, m: int)
    requires
        0 <= m <= known_after::<T>(known, items, items.len() as int).len(),
    ensures
        gone::<T>(known_after::<T>(known, items, items.len() as int), items, m) == gone::<T>(
            known,
            items,
            if m <= known.len() {
                m
            } else {
                known.len() as int
            },
        ),
    decreases m,
{
    let after = known_after::<T>(known, items, items.len() as int);
    lemma_known_structure::<T>(known, items, items.len() as int);
    if m > 0 {
        lemma_gone_of_known::<T>(known, items, m - 1);
        if m <= known.len() {
            assert(T::spec_key(after[m - 1]) == T::spec_key(known[m - 1]));
            if place_of::<T>(items, T::spec_key(known[m - 1]), items.len() as int) is None {
                assert(after[m - 1] == known[m - 1]);
            }
        } else {
            assert(place_of::<T>(items, T::spec_key(after[m - 1]), items.len() as int) is Some);
        }
    }
}

/// What has changed for a viewer that is held against pilots, each with a
/// callsign of its own. The viewer is told of the pilots that it does not
/// know as they are. Gone are the pilots that it knew whose callsign is not
/// among those of the pilots. Afterwards it knows each of the pilots, as it
/// is, by its callsign, and no pilot by any other callsign.
pub proof fn lemma_delta_of_pilots(known: Seq<PilotView>, pilots: Seq<PilotView>)
    requires
        distinct::<Pilot>(pilots),
    ensures
        ({
            let n = pilots.len() as int;
            let after = known_after::<Pilot>(known, pilots, n);
            let kept = still_there::<Pilot>(after, pilots, after.len() as int);
            &&& news::<Pilot>(known, pilots, n) == differing::<Pilot>(known, pilots, n)
            &&& gone::<Pilot>(after, pilots, after.len() as int) == gone::<Pilot>(
                known,
                pilots,
                known.len() as int,
            )
            &&& forall|i: int|
                0 <= i < n ==> place_of::<Pilot>(
                    kept,
                    (#[trigger] pilots[i]).callsign,
                    kept.len() as int,
                ) is Some && kept[place_of::<Pilot>(kept, pilots[i].callsign, kept.len() as int)->0]
                    == pilots[i]
            &&& forall|j: int|
                0 <= j < kept.len() ==> place_of::<Pilot>(pilots, (#[trigger] kept[j]).callsign, n) is Some
        }),
{
    let n = pilots.len() as int;
    let after = known_after::<Pilot>(known, pilots, n);
    let kept = still_there::<Pilot>(after, pilots, after.len() as int);
    lemma_told_of_what_differs::<Pilot>(known, pilots, n);
    lemma_gone_of_known::<Pilot>(known, pilots, after.len() as int);
    lemma_known_structure::<Pilot>(known, pilots, n);
    lemma_known_after::<Pilot>(known, pilots, n);
    assert forall|i: int| 0 <= i < n implies place_of::<Pilot>(
        kept,
        (#[trigger] pilots[i]).callsign,
        kept.len() as int,
    ) is Some && kept[place_of::<Pilot>(kept, pilots[i].callsign, kept.len() as int)->0]
        == pilots[i] by {
        let key = pilots[i].callsign;
        lemma_place_of::<Pilot>(pilots, key, n);
        lemma_still_there::<Pilot>(after, pilots, key, after.len() as int);
        lemma_place_of::<Pilot>(after, key, after.len() as int);
        assert(!is_news::<Pilot>(after, pilots[i]));
    }
    lemma_still_there::<Pilot>(after, pilots, Seq::empty(), after.len() as int);
}

/// A viewer that looks twice at the same pilots, each with a callsign of its
/// own, is told nothing the second time.
pub proof fn lemma_second_look_at_pilots(known: Seq<PilotView>, pilots: Seq<PilotView>)
    requires
        distinct::<Pilot>(pilots),
    ensures
        ({
            let first = known_after::<Pilot>(known, pilots, pilots.len() as int);
            let kept = still_there::<Pilot>(first, pilots, first.len() as int);
            &&& news::<Pilot>(kept, pilots, pilots.len() as int) == Seq::<PilotView>::empty()
            &&& known_after::<Pilot>(kept, pilots, pilots.len() as int) == kept
            &&& gone::<Pilot>(kept, pilots, kept.len() as int) == Seq::<PilotView>::empty()
            &&& still_there::<Pilot>(kept, pilots, kept.len() as int) == kept
        }),
{
    lemma_second_look::<Pilot>(known, pilots);
}

/// Where the thing with the name of `item` stands in `list`.
pub fn find<T: Keyed>(list: &Vec<T>, item: &T) -> (r: Option<usize>)
    ensures
        r is Some <==> place_of::<T>(views(list@), T::spec_key(item@), list@.len() as int) is Some,
        r is Some ==> r->0 < list@.len() && r->0 == place_of::<T>(
            views(list@),
            T::spec_key(item@),
            list@.len() as int,
        )->0,
{
    let mut n: usize = list.len();
    while n > 0
        invariant
            n <= list@.len(),
            place_of::<T>(views(list@), T::spec_key(item@), list@.len() as int) == place_of::<T>(
                views(list@),
                T::spec_key(item@),
                n as int,
            ),
        decreases n,
    {
        assert(views(list@)[n - 1] == list@[n - 1]@);
        if list[n - 1].has_key(item) {
            return Some(n - 1);
        }
        n -= 1;
    }
    None
}

/// Holds `items` against what the viewer knows, `prev`. What comes back is
/// what the viewer is to be told of, and what it is to be told is gone;
/// `prev` is what the viewer knows from now on.
pub fn calc<T: Keyed>(items: &Vec<T>, prev: &mut Vec<T>) -> (r: (Vec<T>, Vec<T>))
    ensures
        views(r.0@) == news::<T>(views(old(prev)@), views(items@), items@.len() as int),
        views(r.1@) == gone::<T>(
            known_after::<T>(views(old(prev)@), views(items@), items@.len() as int),
            views(items@),
            known_after::<T>(views(old(prev)@), views(items@), items@.len() as int).len() as int,
        ),
        views(final(prev)@) == still_there::<T>(
            known_after::<T>(views(old(prev)@), views(items@), items@.len() as int),
            views(items@),
            known_after::<T>(views(old(prev)@), views(items@), items@.len() as int).len() as int,
        ),
{
    let ghost start = views(prev@);
    let ghost all = views(items@);
    let mut set: Vec<T> = Vec::new();
    let mut i: usize = 0;
    assert(views(set@) =~= Seq::<T::V>::empty());
    while i < items.len()
        invariant
            i <= items.len(),
            all == views(items@),
            views(prev@) == known_after::<T>(start, all, i as int),
            views(set@) == news::<T>(start, all, i as int),
        decreases items.len() - i,
    {
        let ghost known = views(prev@);
        let ghost told_so_far = views(set@);
        assert(all[i as int] == items@[i as int]@);
        let item = &items[i];
        match find(prev, item) {
            Some(k) => {
                assert(known[k as int] == prev@[k as int]@);
                if !prev[k].same(item) {
                    set.push(item.copy());
                    prev[k] = item.copy();
                    assert(views(set@) =~= told_so_far.push(item@));
                    assert(views(prev@) =~= known.update(k as int, item@));
                }
            },
            None => {
                set.push(item.copy());
                prev.push(item.copy());
                assert(views(set@) =~= told_so_far.push(item@));
                assert(views(prev@) =~= known.push(item@));
            },
        }
        i += 1;
    }
    let ghost known = views(prev@);
    let mut kept: Vec<T> = Vec::new();
    let mut delete: Vec<T> = Vec::new();
    let n: usize = prev.len();
    let mut j: usize = 0;
    assert(views(kept@) =~= Seq::<T::V>::empty());
    assert(views(delete@) =~= Seq::<T::V>::empty());
    while j < n
        invariant
            j <= n == prev@.len(),
            known == views(prev@),
            all == views(items@),
            views(kept@) == still_there::<T>(known, all, j as int),
            views(delete@) == gone::<T>(known, all, j as int),
        decreases n - j,
    {
        let ghost k0 = views(kept@);
        let ghost d0 = views(delete@);
        assert(known[j as int] == prev@[j as int]@);
        match find(items, &prev[j]) {
            Some(_) => {
                kept.push(prev[j].copy());
                assert(views(kept@) =~= k0.push(known[j as int]));
            },
            None => {
                delete.push(prev[j].copy());
                assert(views(delete@) =~= d0.push(known[j as int]));
            },
        }
        j += 1;
    }
    *prev = kept;
    (set, delete)
}

/// What a viewer is to be told about pilots, and which pilots are gone.
pub fn calc_pilots(pilots: &Vec<Pilot>, prev: &mut Vec<Pilot>) -> (r: (Vec<Pilot>, Vec<Pilot>))
    ensures
        views(r.0@) == news::<Pilot>(views(old(prev)@), views(pilots@), pilots@.len() as int),
        views(r.1@) == gone::<Pilot>(
            known_after::<Pilot>(views(old(prev)@), views(pilots@), pilots@.len() as int),
            views(pilots@),
            known_after::<Pilot>(views(old(prev)@), views(pilots@), pilots@.len() as int).len() as int,
        ),
        views(final(prev)@) == still_there::<Pilot>(
            known_after::<Pilot>(views(old(prev)@), views(pilots@), pilots@.len() as int),
            views(pilots@),
            known_after::<Pilot>(views(old(prev)@), views(pilots@), pilots@.len() as int).len() as int,
        ),
{
    calc(pilots, prev)
}

/// What a viewer is to be told about airports, and which airports are
/// gone.
pub fn calc_airports(airports: &Vec<Airport>, prev: &mut Vec<Airport>) -> (r: (
    Vec<Airport>,
    Vec<Airport>,
))
    ensures
        views(r.0@) == news::<Airport>(views(old(prev)@), views(airports@), airports@.len() as int),
        views(r.1@) == gone::<Airport>(
            known_after::<Airport>(views(old(prev)@), views(airports@), airports@.len() as int),
            views(airports@),
            known_after::<Airport>(
                views(old(prev)@),
                views(airports@),
                airports@.len() as int,
            ).len() as int,
        ),
        views(final(prev)@) == still_there::<Airport>(
            known_after::<Airport>(views(old(prev)@), views(airports@), airports@.len() as int),
            views(airports@),
            known_after::<Airport>(
                views(old(prev)@),
                views(airports@),
                airports@.len() as int,
            ).len() as int,
        ),
{
    calc(airports, prev)
}

/// What a viewer is to be told about regions, and which regions are gone.
pub fn calc_firs(firs: &Vec<FIR>, prev: &mut Vec<FIR>) -> (r: (Vec<FIR>, Vec<FIR>))
    ensures
        views(r.0@) == news::<FIR>(views(old(prev)@), views(firs@), firs@.len() as int),
        views(r.1@) == gone::<FIR>(
            known_after::<FIR>(views(old(prev)@), views(firs@), firs@.len() as int),
            views(firs@),
            known_after::<FIR>(views(old(prev)@), views(firs@), firs@.len() as int).len() as int,
        ),
        views(final(prev)@) == still_there::<FIR>(
            known_after::<FIR>(views(old(prev)@), views(firs@), firs@.len() as int),
            views(firs@),
            known_after::<FIR>(views(old(prev)@), views(firs@), firs@.len() as int).len() as int,
        ),
{
    calc(firs, prev)
}

} // verus!
