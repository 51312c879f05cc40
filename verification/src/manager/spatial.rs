//! A spatial index over boxes with names, kept in an R-tree of the `rstar`
//! crate.

use crate::types::{Envelope, Point};
use vstd::multiset::Multiset;
use vstd::prelude::*;

verus! {

/// The largest distance from zero that a coordinate of an indexed box may
/// have: more than a full turn, and small enough for the tree to multiply
/// extents without leaving 64 bits.
pub const COORDINATE_LIMIT: i64 = 400_000_000;

/// What the tree holds: a box and a number that tells the boxes apart.
#[derive(Debug, Clone, Copy, PartialEq, Eq, Structural)]
pub struct Entry {
    pub envelope: Envelope,
    pub key: u64,
}

impl Entry {
    /// Whether the box is one of ordered corners within the limits.
    pub open spec fn in_bounds(self) -> bool {
        self.envelope.in_bounds()
    }
}

impl Envelope {
    /// Whether the lower corner is not above or right of the upper one.
    pub open spec fn ordered(self) -> bool {
        self.lower.lat <= self.upper.lat && self.lower.lng <= self.upper.lng
    }

    /// The part of the box within the limits of the index.
    pub open spec fn limited(self) -> Envelope {
        Envelope {
            lower: Point {
                lat: if self.lower.lat < -COORDINATE_LIMIT {
                    (-COORDINATE_LIMIT) as i64
                } else {
                    self.lower.lat
                },
                lng: if self.lower.lng < -COORDINATE_LIMIT {
                    (-COORDINATE_LIMIT) as i64
                } else {
                    self.lower.lng
                },
            },
            upper: Point {
                lat: if self.upper.lat > COORDINATE_LIMIT {
                    COORDINATE_LIMIT
                } else {
                    self.upper.lat
                },
                lng: if self.upper.lng > COORDINATE_LIMIT {
                    COORDINATE_LIMIT
                } else {
                    self.upper.lng
                },
            },
        }
    }

    fn limit(&self) -> (r: Envelope)
        ensures
            r == self.limited(),
    {
        Envelope {
            lower: Point {
                lat: if self.lower.lat < -COORDINATE_LIMIT {
                    -COORDINATE_LIMIT
                } else {
                    self.lower.lat
                },
                lng: if self.lower.lng < -COORDINATE_LIMIT {
                    -COORDINATE_LIMIT
                } else {
                    self.lower.lng
                },
            },
            upper: Point {
                lat: if self.upper.lat > COORDINATE_LIMIT {
                    COORDINATE_LIMIT
                } else {
                    self.upper.lat
                },
                lng: if self.upper.lng > COORDINATE_LIMIT {
                    COORDINATE_LIMIT
                } else {
                    self.upper.lng
                },
            },
        }
    }

    /// Whether the corners are in order and within the limits of the index.
    pub open spec fn in_bounds(self) -> bool {
        &&& -COORDINATE_LIMIT <= self.lower.lat <= self.upper.lat <= COORDINATE_LIMIT
        &&& -COORDINATE_LIMIT <= self.lower.lng <= self.upper.lng <= COORDINATE_LIMIT
    }

    pub fn is_in_bounds(&self) -> (b: bool)
        ensures
            b == self.in_bounds(),
    {
        -COORDINATE_LIMIT <= self.lower.lat && self.lower.lat <= self.upper.lat && self.upper.lat
            <= COORDINATE_LIMIT && -COORDINATE_LIMIT <= self.lower.lng && self.lower.lng
            <= self.upper.lng && self.upper.lng <= COORDINATE_LIMIT
    }
}

/// What it is for the box of an entry to lie within `query`.
pub open spec fn lies_within(query: Envelope) -> spec_fn(Entry) -> bool {
    |e: Entry| query.spec_contains_envelope(e.envelope)
}

/// What it is for the box of an entry to share a point with `query`.
pub open spec fn meets(query: Envelope) -> spec_fn(Entry) -> bool {
    |e: Entry| query.spec_intersects(e.envelope)
}

/// An R-tree of the `rstar` crate over rectangles with whole coordinates,
/// each with a number.
#[verifier::external_body]
#[derive(Debug)]
pub struct Tree {
    inner: rstar::RTree<rstar::primitives::GeomWithData<rstar::primitives::Rectangle<[i64; 2]>, u64>>,
}

/// The entries that the tree holds.
pub uninterp spec fn tree_entries(tree: Tree) -> Multiset<Entry>;

/// `rstar::RTree::new`: a tree that holds nothing.
#[verifier::external_body]
pub(crate) fn tree_new() -> (tree: Tree)
    ensures
        tree_entries(tree) == Multiset::<Entry>::empty(),
{
    Tree { inner: rstar::RTree::new() }
}

/// `rstar::RTree::insert`: the tree holds the entry once more than before.
/// The coordinates must lie within the limits, so that the sums and products
/// of extents which the tree computes stay within 64 bits.
#[verifier::external_body]
pub(crate) fn tree_insert(tree: &mut Tree, entry: Entry)
    requires
        entry.in_bounds(),
    ensures
        tree_entries(*final(tree)) == tree_entries(*old(tree)).insert(entry),
{
    tree.inner.insert(
        rstar::primitives::GeomWithData::new(
            rstar::primitives::Rectangle::from_corners(
                [entry.envelope.lower.lng, entry.envelope.lower.lat],
                [entry.envelope.upper.lng, entry.envelope.upper.lat],
            ),
            entry.key,
        ),
    );
}

/// `rstar::RTree::remove`: where the tree holds an entry equal to the given
/// one, it holds it once less than before and the answer is yes; else
/// nothing changes.
#[verifier::external_body]
fn tree_remove(tree: &mut Tree, entry: Entry) -> (removed: bool)
    requires
        entry.in_bounds(),
    ensures
        removed == (tree_entries(*old(tree)).count(entry) > 0),
        tree_entries(*final(tree)) == tree_entries(*old(tree)).remove(entry),
{
    tree.inner.remove(
        &rstar::primitives::GeomWithData::new(
            rstar::primitives::Rectangle::from_corners(
                [entry.envelope.lower.lng, entry.envelope.lower.lat],
                [entry.envelope.upper.lng, entry.envelope.upper.lat],
            ),
            entry.key,
        ),
    ).is_some()
}

/// `rstar::RTree::locate_in_envelope`: the entries whose box lies within the
/// given box, borders included, each as often as the tree holds it, in no
/// order that could be told.
#[verifier::external_body]
fn tree_locate_in(tree: &Tree, query: Envelope) -> (found: Vec<Entry>)
    requires
        query.in_bounds(),
    ensures
        found@.to_multiset() == tree_entries(*tree).filter(lies_within(query)),
{
    tree.inner.locate_in_envelope(
        &rstar::AABB::from_corners(
            [query.lower.lng, query.lower.lat],
            [query.upper.lng, query.upper.lat],
        ),
    ).map(|g| entry_of(g.geom().lower(), g.geom().upper(), g.data)).collect()
}

/// `rstar::RTree::locate_in_envelope_intersecting`: the entries whose box
/// shares a point with the given box, each as often as the tree holds it,
/// in no order that could be told.
#[verifier::external_body]
pub(crate) fn tree_locate_intersecting(tree: &Tree, query: Envelope) -> (found: Vec<Entry>)
    requires
        query.in_bounds(),
    ensures
        found@.to_multiset() == tree_entries(*tree).filter(meets(query)),
{
    tree.inner.locate_in_envelope_intersecting(
        &rstar::AABB::from_corners(
            [query.lower.lng, query.lower.lat],
            [query.upper.lng, query.upper.lat],
        ),
    ).map(|g| entry_of(g.geom().lower(), g.geom().upper(), g.data)).collect()
}

/// The entry with the corners `lower` and `upper`, each a longitude and a
/// latitude, and the number `key`.
pub fn entry_of(lower: [i64; 2], upper: [i64; 2], key: u64) -> (e: Entry)
    ensures
        e.key == key,
        e.envelope.lower == (Point { lat: lower[1], lng: lower[0] }),
        e.envelope.upper == (Point { lat: upper[1], lng: upper[0] }),
{
    Entry {
        envelope: Envelope {
            lower: Point { lat: lower[1], lng: lower[0] },
            upper: Point { lat: upper[1], lng: upper[0] },
        },
        key,
    }
}


/// The entries of the first `n` places: for each place that holds a box,
/// that box with the number of the place.
pub open spec fn held(boxes: Seq<Option<Envelope>>, n: int) -> Multiset<Entry>
    decreases n,
{
    if n <= 0 || n > boxes.len() {
        Multiset::empty()
    } else {
        match boxes[n - 1] {
            Some(e) => held(boxes, n - 1).insert(Entry { envelope: e, key: (n - 1) as u64 }),
            None => held(boxes, n - 1),
        }
    }
}

/// An entry is held once if its place holds its box, else not at all.
pub proof fn lemma_held_count(boxes: Seq<Option<Envelope>>, n: int, entry: Entry)
    requires
        0 <= n <= boxes.len() <= u64::MAX,
    ensures
        held(boxes, n).count(entry) == if entry.key < n && boxes[entry.key as int] == Some(
            entry.envelope,
        ) {
            1nat
        } else {
            0nat
        },
    decreases n,
{
    broadcast use vstd::multiset::group_multiset_axioms;

    if n > 0 {
        lemma_held_count(boxes, n - 1, entry);
    }
}

/// Boxes with names, to be found by where they lie.
pub struct SpatialIndex {
    tree: Tree,
    names: Vec<String>,
    boxes: Vec<Option<Envelope>>,
}

impl SpatialIndex {
    /// The names of the places, each once. The name of a place without a
    /// box waits to be given up.
    pub closed spec fn spec_names(&self) -> Seq<Seq<char>> {
        crate::text::string_views(self.names@)
    }

    /// How many places the index keeps.
    pub closed spec fn spec_places(&self) -> nat {
        self.boxes@.len()
    }

    /// Whether every place holds a box.
    pub closed spec fn is_full(&self) -> bool {
        forall|k: int| 0 <= k < self.boxes@.len() ==> self.boxes@[k] is Some
    }

    pub closed spec fn wf(&self) -> bool {
        &&& self.names@.len() == self.boxes@.len() <= u64::MAX
        &&& self.spec_names().no_duplicates()
        &&& tree_entries(self.tree) == held(self.boxes@, self.boxes@.len() as int)
        &&& forall|k: int|
            0 <= k < self.boxes@.len() && (#[trigger] self.boxes@[k]) is Some
                ==> self.boxes@[k]->0.in_bounds()
    }

    /// The box that goes by the name `id`, if there is one.
    pub closed spec fn spec_box(&self, id: Seq<char>) -> Option<Envelope> {
        if self.spec_names().contains(id) {
            self.boxes@[self.spec_names().index_of(id)]
        } else {
            None
        }
    }

    pub fn new() -> (r: Self)
        ensures
            r.wf(),
            forall|id: Seq<char>| r.spec_box(id) is None,
            r.spec_places() == 0,
    {
        let r = SpatialIndex { tree: tree_new(), names: Vec::new(), boxes: Vec::new() };
        assert(r.spec_names() =~= Seq::<Seq<char>>::empty());
        r
    }

    fn position(&self, id: &str) -> (r: Option<usize>)
        requires
            self.wf(),
        ensures
            r is Some <==> self.spec_names().contains(id@),
            r is Some ==> r->0 < self.spec_names().len() && self.spec_names()[r->0 as int] == id@
                && self.spec_names().index_of(id@) == r->0,
    {
        let wanted = id.to_owned();
        let mut i: usize = 0;
        while i < self.names.len()
            invariant
                i <= self.names@.len(),
                wanted@ == id@,
                self.wf(),
                forall|k: int| 0 <= k < i ==> (#[trigger] self.names@[k])@ != id@,
            decreases self.names@.len() - i,
        {
            if self.names[i] == wanted {
                let ghost views = self.spec_names();
                assert(views[i as int] == id@);
                assert(views.contains(id@));
                assert(views.index_of(id@) == i) by {
                    let j = views.index_of(id@);
                    assert(views[j] == id@);
                    if j != i {
                        assert(views[j] == views[i as int]);
                    }
                }
                return Some(i);
            }
            i += 1;
        }
        assert forall|k: int| 0 <= k < self.spec_names().len() implies self.spec_names()[k]
            != id@ by {
            assert(self.spec_names()[k] == self.names@[k]@);
        }
        None
    }

    /// A place whose box was taken out, if there is one: the next name that
    /// comes takes it.
    fn free_place(&self) -> (r: Option<usize>)
        ensures
            r is Some ==> r->0 < self.boxes@.len() && self.boxes@[r->0 as int] is None,
            r is None ==> forall|k: int| 0 <= k < self.boxes@.len() ==> self.boxes@[k] is Some,
    {
        let mut k: usize = 0;
        while k < self.boxes.len()
            invariant
                k <= self.boxes@.len(),
                forall|j: int| 0 <= j < k ==> self.boxes@[j] is Some,
            decreases self.boxes@.len() - k,
        {
            if self.boxes[k].is_none() {
                return Some(k);
            }
            k += 1;
        }
        None
    }

    /// Gives the place `k`, whose box was taken out, to the name `id` with
    /// the box `envelope`. The name that had the place is given up: it had
    /// no box any more.
    fn take_place(&mut self, k: usize, id: &str, envelope: Envelope)
        requires
            old(self).wf(),
            envelope.in_bounds(),
            k < old(self).boxes@.len(),
            old(self).boxes@[k as int] is None,
            !old(self).spec_names().contains(id@),
        ensures
            final(self).wf(),
            final(self).boxes@.len() == old(self).boxes@.len(),
            final(self).spec_box(id@) == Some(envelope),
            forall|other: Seq<char>|
                other != id@ ==> final(self).spec_box(other) == old(self).spec_box(other),
    {
        broadcast use vstd::multiset::group_multiset_axioms;

        let ghost names = self.spec_names();
        let ghost boxes = self.boxes@;
        let ghost n = boxes.len() as int;
        let entry = Entry { envelope, key: k as u64 };
        tree_insert(&mut self.tree, entry);
        self.names[k] = id.to_owned();
        self.boxes[k] = Some(envelope);
        proof {
            let after = self.boxes@;
            let after_names = self.spec_names();
            assert(after_names =~= names.update(k as int, id@));
            assert forall|e: Entry| tree_entries(self.tree).count(e) == held(after, n).count(
                e,
            ) by {
                lemma_held_count(boxes, n, e);
                lemma_held_count(after, n, e);
            }
            assert(tree_entries(self.tree) =~= held(after, n));
            assert forall|i: int, j: int|
                0 <= i < after_names.len() && 0 <= j < after_names.len() && i != j implies after_names[i]
                != after_names[j] by {
                if i != k && j != k {
                    assert(names[i] != names[j]);
                } else if i == k {
                    assert(names[j] != id@);
                } else {
                    assert(names[i] != id@);
                }
            }
            assert(after_names[k as int] == id@);
            assert(after_names.contains(id@));
            assert(after_names.index_of(id@) == k) by {
                let j = after_names.index_of(id@);
                assert(after_names[j] == id@);
            }
            assert forall|other: Seq<char>| other != id@ implies self.spec_box(other) == old(self).spec_box(other) by {
                if names.contains(other) {
                    let j = names.index_of(other);
                    assert(names[j] == other);
                    if j == k {
                        if after_names.contains(other) {
                            let m = after_names.index_of(other);
                            assert(after_names[m] == other);
                            assert(names[m] == other);
                        }
                    } else {
                        assert(after_names[j] == other);
                        let m = after_names.index_of(other);
                        assert(after_names[m] == other);
                    }
                } else if after_names.contains(other) {
                    let m = after_names.index_of(other);
                    assert(after_names[m] == other);
                    assert(names[m] == other);
                }
            }
        }
    }

    /// Gives the name `id` the box `envelope`, in place of the box that it
    /// had, if any. A name that comes new takes the place of a name whose
    /// box was taken out, if there is one, so that the index keeps no more
    /// places than it held boxes at one time.
    pub fn insert(&mut self, id: &str, envelope: Envelope)
        requires
            old(self).wf(),
            envelope.in_bounds(),
        ensures
            final(self).wf(),
            final(self).spec_box(id@) == Some(envelope),
            forall|other: Seq<char>|
                other != id@ ==> final(self).spec_box(other) == old(self).spec_box(other),
            old(self).spec_places() <= final(self).spec_places() <= old(self).spec_places() + 1,
            !old(self).is_full() ==> final(self).spec_places() == old(self).spec_places(),
    {
        broadcast use vstd::multiset::group_multiset_axioms;

        let ghost names = self.spec_names();
        let ghost boxes = self.boxes@;
        let ghost n = boxes.len() as int;
        match self.position(id) {
            Some(k) => {
                match self.boxes[k] {
                    Some(previous) => {
                        let gone = Entry { envelope: previous, key: k as u64 };
                        proof {
                            lemma_held_count(boxes, n, gone);
                        }
                        tree_remove(&mut self.tree, gone);
                    },
                    None => {},
                }
                let entry = Entry { envelope, key: k as u64 };
                tree_insert(&mut self.tree, entry);
                self.boxes[k] = Some(envelope);
                proof {
                    let after = self.boxes@;
                    assert forall|e: Entry| tree_entries(self.tree).count(e) == held(
                        after,
                        n,
                    ).count(e) by {
                        lemma_held_count(boxes, n, e);
                        lemma_held_count(after, n, e);
                    }
                    assert(tree_entries(self.tree) =~= held(after, n));
                    assert(self.spec_names() == names);
                    assert forall|other: Seq<char>| other != id@ implies self.spec_box(other)
                        == old(self).spec_box(other) by {
                        if names.contains(other) {
                            let j = names.index_of(other);
                            assert(names[j] == other);
                        }
                    }
                }
            },
            None => {
                match self.free_place() {
                    Some(k) => {
                        self.take_place(k, id, envelope);
                        return ;
                    },
                    None => {},
                }
                let k: usize = self.names.len();
                let entry = Entry { envelope, key: k as u64 };
                self.names.push(id.to_owned());
                self.boxes.push(Some(envelope));
                let grown: usize = self.boxes.len();
                tree_insert(&mut self.tree, entry);
                proof {
                    let after = self.boxes@;
                    let after_names = self.spec_names();
                    assert(after_names =~= names.push(id@));
                    assert(after =~= boxes.push(Some(envelope)));
                    assert forall|e: Entry| tree_entries(self.tree).count(e) == held(
                        after,
                        n + 1,
                    ).count(e) by {
                        lemma_held_count(boxes, n, e);
                        lemma_held_count(after, n + 1, e);
                    }
                    assert(tree_entries(self.tree) =~= held(after, n + 1));
                    assert(after_names[n] == id@);
                    assert(after_names.contains(id@));
                    assert(after_names.index_of(id@) == n) by {
                        let j = after_names.index_of(id@);
                        assert(after_names[j] == id@);
                        if j != n {
                            assert(names[j] == id@);
                        }
                    }
                    assert forall|other: Seq<char>| other != id@ implies self.spec_box(other)
                        == old(self).spec_box(other) by {
                        if names.contains(other) {
                            let j = names.index_of(other);
                            assert(names[j] == other);
                            assert(after_names[j] == other);
                            let m = after_names.index_of(other);
                            assert(after_names[m] == other);
                            if m != j {
                                assert(after_names[m] == after_names[j]);
                            }
                        } else if after_names.contains(other) {
                            let m = after_names.index_of(other);
                            assert(after_names[m] == other);
                            assert(names[m] == other);
                        }
                    }
                }
            },
        }
    }

    /// Takes the box of the name `id` out of the index, and tells whether
    /// there was one.
    pub fn remove(&mut self, id: &str) -> (removed: bool)
        requires
            old(self).wf(),
        ensures
            final(self).wf(),
            removed == old(self).spec_box(id@) is Some,
            final(self).spec_box(id@) is None,
            forall|other: Seq<char>|
                other != id@ ==> final(self).spec_box(other) == old(self).spec_box(other),
            final(self).spec_places() == old(self).spec_places(),
    {
        broadcast use vstd::multiset::group_multiset_axioms;

        let ghost names = self.spec_names();
        let ghost boxes = self.boxes@;
        let ghost n = boxes.len() as int;
        match self.position(id) {
            Some(k) => {
                match self.boxes[k] {
                    Some(previous) => {
                        let gone = Entry { envelope: previous, key: k as u64 };
                        proof {
                            lemma_held_count(boxes, n, gone);
                        }
                        tree_remove(&mut self.tree, gone);
                        self.boxes[k] = None;
                        proof {
                            let after = self.boxes@;
                            assert forall|e: Entry| tree_entries(self.tree).count(e) == held(
                                after,
                                n,
                            ).count(e) by {
                                lemma_held_count(boxes, n, e);
                                lemma_held_count(after, n, e);
                            }
                            assert(tree_entries(self.tree) =~= held(after, n));
                            assert(self.spec_names() == names);
                            assert forall|other: Seq<char>| other != id@ implies self.spec_box(
                                other,
                            ) == old(self).spec_box(other) by {
                                if names.contains(other) {
                                    let j = names.index_of(other);
                                    assert(names[j] == other);
                                }
                            }
                        }
                        true
                    },
                    None => false,
                }
            },
            None => false,
        }
    }

    fn names_of(&self, found: &Vec<Entry>) -> (ids: Vec<String>)
        requires
            self.wf(),
            forall|i: int|
                0 <= i < found@.len() ==> (#[trigger] found@[i]).key < self.boxes@.len()
                    && self.boxes@[found@[i].key as int] == Some(found@[i].envelope),
        ensures
            ids@.len() == found@.len(),
            forall|i: int|
                0 <= i < found@.len() ==> (#[trigger] ids@[i])@ == self.spec_names()[found@[i].key as int],
    {
        let mut ids: Vec<String> = Vec::new();
        let mut i: usize = 0;
        let n: usize = self.boxes.len();
        while i < found.len()
            invariant
                i <= found.len(),
                self.wf(),
                n == self.boxes@.len(),
                ids@.len() == i,
                forall|k: int|
                    0 <= k < found@.len() ==> (#[trigger] found@[k]).key < self.boxes@.len(),
                forall|k: int|
                    0 <= k < i ==> (#[trigger] ids@[k])@ == self.spec_names()[found@[k].key as int],
            decreases found.len() - i,
        {
            assert(found@[i as int].key < self.boxes@.len());
            let key: usize = found[i].key as usize;
            assert(self.spec_names()[key as int] == self.names@[key as int]@);
            ids.push(self.names[key].clone());
            i += 1;
        }
        ids
    }

    /// What a query has found, given what the tree has handed out for it:
    /// the names of the boxes that `wanted` holds of, each once.
    proof fn lemma_found(
        &self,
        found: Seq<Entry>,
        wanted: spec_fn(Entry) -> bool,
        ids: Seq<Seq<char>>,
    )
        requires
            self.wf(),
            found.to_multiset() == tree_entries(self.tree).filter(wanted),
            ids.len() == found.len(),
            forall|i: int|
                0 <= i < found.len() ==> #[trigger] ids[i] == self.spec_names()[found[i].key as int],
        ensures
            ids.no_duplicates(),
            forall|id: Seq<char>|
                ids.contains(id) <==> (self.spec_box(id) is Some && wanted(
                    Entry {
                        envelope: self.spec_box(id)->0,
                        key: self.spec_names().index_of(id) as u64,
                    },
                )),
    {
        broadcast use vstd::multiset::group_multiset_axioms;
        broadcast use vstd::seq_lib::group_to_multiset_ensures;

        let names = self.spec_names();
        let boxes = self.boxes@;
        let n = boxes.len() as int;
        assert forall|x: Entry| found.to_multiset().contains(x) implies found.to_multiset().count(
            x,
        ) == 1 by {
            vstd::multiset::axiom_filter_count(tree_entries(self.tree), wanted, x);
            lemma_held_count(boxes, n, x);
        }
        found.lemma_multiset_has_no_duplicates_conv();
        assert forall|i: int| 0 <= i < found.len() implies (#[trigger] found[i]).key < n
            && boxes[found[i].key as int] == Some(found[i].envelope) && wanted(found[i]) by {
            assert(found.contains(found[i]));
            found.to_multiset_ensures();
            assert(found.to_multiset().count(found[i]) > 0);
            vstd::multiset::axiom_filter_count(tree_entries(self.tree), wanted, found[i]);
            lemma_held_count(boxes, n, found[i]);
        }
        assert forall|i: int, j: int| 0 <= i < ids.len() && 0 <= j < ids.len() && i != j implies ids[i]
            != ids[j] by {
            if ids[i] == ids[j] {
                assert(names[found[i].key as int] == names[found[j].key as int]);
                assert(found[i].key == found[j].key);
                assert(found[i] == found[j]);
            }
        }
        assert forall|id: Seq<char>|
            ids.contains(id) <==> (self.spec_box(id) is Some && wanted(
                Entry { envelope: self.spec_box(id)->0, key: names.index_of(id) as u64 },
            )) by {
            if ids.contains(id) {
                let i = choose|i: int| 0 <= i < ids.len() && ids[i] == id;
                let k = found[i].key as int;
                assert(names[k] == id);
                assert(names.contains(id));
                let m = names.index_of(id);
                assert(names[m] == id);
                if m != k {
                    assert(names[m] == names[k]);
                }
                assert(found[i] == Entry { envelope: boxes[k]->0, key: k as u64 });
            }
            if self.spec_box(id) is Some && wanted(
                Entry { envelope: self.spec_box(id)->0, key: names.index_of(id) as u64 },
            ) {
                let m = names.index_of(id);
                assert(names[m] == id);
                let e = Entry { envelope: boxes[m]->0, key: m as u64 };
                lemma_held_count(boxes, n, e);
                vstd::multiset::axiom_filter_count(tree_entries(self.tree), wanted, e);
                assert(found.to_multiset().count(e) > 0);
                found.to_multiset_ensures();
                assert(found.contains(e));
                let i = choose|i: int| 0 <= i < found.len() && found[i] == e;
                assert(ids[i] == names[m]);
                assert(ids.contains(id));
            }
        }
    }

    /// The names of the boxes that lie within `query`, borders included,
    /// each once, in no order that could be told.
    fn locate_bounded(&self, query: Envelope) -> (ids: Vec<String>)
        requires
            self.wf(),
            query.in_bounds(),
        ensures
            crate::text::string_views(ids@).no_duplicates(),
            forall|id: Seq<char>|
                crate::text::string_views(ids@).contains(id) <==> (self.spec_box(id) is Some
                    && query.spec_contains_envelope(self.spec_box(id)->0)),
    {
        broadcast use vstd::multiset::group_multiset_axioms;
        broadcast use vstd::seq_lib::group_to_multiset_ensures;

        let found = tree_locate_in(&self.tree, query);
        let ghost wanted = lies_within(query);
        proof {
            assert forall|i: int| 0 <= i < found@.len() implies (#[trigger] found@[i]).key
                < self.boxes@.len() && self.boxes@[found@[i].key as int] == Some(
                found@[i].envelope,
            ) by {
                assert(found@.contains(found@[i]));
                found@.to_multiset_ensures();
                assert(found@.to_multiset().count(found@[i]) > 0);
                vstd::multiset::axiom_filter_count(tree_entries(self.tree), wanted, found@[i]);
                lemma_held_count(self.boxes@, self.boxes@.len() as int, found@[i]);
            }
        }
        let ids = self.names_of(&found);
        proof {
            let views = crate::text::string_views(ids@);
            assert forall|i: int| 0 <= i < found@.len() implies #[trigger] views[i]
                == self.spec_names()[found@[i].key as int] by {
                assert(views[i] == ids@[i]@);
            }
            self.lemma_found(found@, wanted, views);
        }
        ids
    }

    /// The names of the boxes that share a point with `query`, each once,
    /// in no order that could be told.
    fn locate_intersecting_bounded(&self, query: Envelope) -> (ids: Vec<String>)
        requires
            self.wf(),
            query.in_bounds(),
        ensures
            crate::text::string_views(ids@).no_duplicates(),
            forall|id: Seq<char>|
                crate::text::string_views(ids@).contains(id) <==> (self.spec_box(id) is Some
                    && query.spec_intersects(self.spec_box(id)->0)),
    {
        broadcast use vstd::multiset::group_multiset_axioms;
        broadcast use vstd::seq_lib::group_to_multiset_ensures;

        let found = tree_locate_intersecting(&self.tree, query);
        let ghost wanted = meets(query);
        proof {
            assert forall|i: int| 0 <= i < found@.len() implies (#[trigger] found@[i]).key
                < self.boxes@.len() && self.boxes@[found@[i].key as int] == Some(
                found@[i].envelope,
            ) by {
                assert(found@.contains(found@[i]));
                found@.to_multiset_ensures();
                assert(found@.to_multiset().count(found@[i]) > 0);
                vstd::multiset::axiom_filter_count(tree_entries(self.tree), wanted, found@[i]);
                lemma_held_count(self.boxes@, self.boxes@.len() as int, found@[i]);
            }
        }
        let ids = self.names_of(&found);
        proof {
            let views = crate::text::string_views(ids@);
            assert forall|i: int| 0 <= i < found@.len() implies #[trigger] views[i]
                == self.spec_names()[found@[i].key as int] by {
                assert(views[i] == ids@[i]@);
            }
            self.lemma_found(found@, wanted, views);
        }
        ids
    }
}


impl SpatialIndex {
    /// Every box of the index has its corners in order and within the
    /// limits.
    pub proof fn lemma_boxes_in_bounds(&self, id: Seq<char>)
        requires
            self.wf(),
        ensures
            self.spec_box(id) is Some ==> self.spec_box(id)->0.in_bounds(),
    {
        if self.spec_names().contains(id) {
            let k = self.spec_names().index_of(id);
            assert(self.spec_names()[k] == id);
        }
    }

    /// The names of the boxes that lie within `query`, borders included,
    /// each once, in no order that could be told.
    pub fn locate_in_envelope(&self, query: Envelope) -> (ids: Vec<String>)
        requires
            self.wf(),
            query.ordered(),
        ensures
            crate::text::string_views(ids@).no_duplicates(),
            forall|id: Seq<char>|
                crate::text::string_views(ids@).contains(id) <==> (self.spec_box(id) is Some
                    && query.spec_contains_envelope(self.spec_box(id)->0)),
    {
        let q = query.limit();
        if !q.is_in_bounds() {
            let ids: Vec<String> = Vec::new();
            proof {
                assert(crate::text::string_views(ids@) =~= Seq::<Seq<char>>::empty());
                assert forall|id: Seq<char>|
                    !(self.spec_box(id) is Some && query.spec_contains_envelope(
                        self.spec_box(id)->0,
                    )) by {
                    self.lemma_boxes_in_bounds(id);
                }
            }
            return ids;
        }
        let ids = self.locate_bounded(q);
        proof {
            assert forall|id: Seq<char>|
                (self.spec_box(id) is Some && q.spec_contains_envelope(self.spec_box(id)->0)) <==> (
                self.spec_box(id) is Some && query.spec_contains_envelope(
                    self.spec_box(id)->0,
                )) by {
                self.lemma_boxes_in_bounds(id);
            }
        }
        ids
    }

    /// The names of the boxes that share a point with `query`, each once,
    /// in no order that could be told.
    pub fn locate_in_envelope_intersecting(&self, query: Envelope) -> (ids: Vec<String>)
        requires
            self.wf(),
            query.ordered(),
        ensures
            crate::text::string_views(ids@).no_duplicates(),
            forall|id: Seq<char>|
                crate::text::string_views(ids@).contains(id) <==> (self.spec_box(id) is Some
                    && query.spec_intersects(self.spec_box(id)->0)),
    {
        let q = query.limit();
        if !q.is_in_bounds() {
            let ids: Vec<String> = Vec::new();
            proof {
                assert(crate::text::string_views(ids@) =~= Seq::<Seq<char>>::empty());
                assert forall|id: Seq<char>|
                    !(self.spec_box(id) is Some && query.spec_intersects(
                        self.spec_box(id)->0,
                    )) by {
                    self.lemma_boxes_in_bounds(id);
                }
            }
            return ids;
        }
        let ids = self.locate_intersecting_bounded(q);
        proof {
            assert forall|id: Seq<char>|
                (self.spec_box(id) is Some && q.spec_intersects(self.spec_box(id)->0)) <==> (
                self.spec_box(id) is Some && query.spec_intersects(self.spec_box(id)->0)) by {
                self.lemma_boxes_in_bounds(id);
            }
        }
        ids
    }
}

} // verus!
