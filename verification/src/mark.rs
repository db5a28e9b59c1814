//! Dired-style row marks: a set of item ids, and the set operations the
//! mark keys perform on it.

use vstd::prelude::*;
use vstd::string::*;
use crate::docker::Item;
use crate::text::{views_of, lemma_views_push};

verus! {

/// A set of marked item ids.
#[derive(Debug)]
pub struct MarkSet {
    ids: Vec<String>,
}

/// A batch target: the id acted on and the label reported for it.
#[derive(Clone, Debug, PartialEq, Eq)]
pub struct Target {
    pub id: String,
    pub label: String,
}

impl View for Target {
    type V = (Seq<char>, Seq<char>);

    open spec fn view(&self) -> (Seq<char>, Seq<char>) {
        (self.id@, self.label@)
    }
}

impl View for MarkSet {
    type V = Set<Seq<char>>;

    open spec fn view(&self) -> Set<Seq<char>> {
        self.id_views().to_set()
    }
}

impl MarkSet {
    /// The ids, in storage order.
    pub closed spec fn id_views(&self) -> Seq<Seq<char>> {
        views_of(self.ids@)
    }

    /// No id is stored twice.
    pub closed spec fn wf(&self) -> bool {
        self.id_views().no_duplicates()
    }

    /// The empty set.
    pub fn new() -> (s: MarkSet)
        ensures
            s.wf(),
            s@ == Set::<Seq<char>>::empty(),
    {
        let s = MarkSet { ids: Vec::new() };
        assert(s.id_views() =~= Seq::<Seq<char>>::empty());
        s
    }

    /// Position of `id` among the stored ids.
    fn position(&self, id: &str) -> (r: Option<usize>)
        ensures
            r matches Some(i) ==> i < self.ids@.len() && self.id_views()[i as int] == id@,
            r is None ==> !self.id_views().contains(id@),
    {
        let key = String::from_str(id);
        let mut i: usize = 0;
        while i < self.ids.len()
            invariant
                i <= self.ids@.len(),
                key@ == id@,
                forall|j: int| 0 <= j < i ==> self.id_views()[j] != id@,
            decreases self.ids.len() - i,
        {
            if self.ids[i] == key {
                return Some(i);
            }
            i += 1;
        }
        None
    }

    /// Whether `id` is marked.
    pub fn contains(&self, id: &str) -> (b: bool)
        ensures
            b == self@.contains(id@),
    {
        match self.position(id) {
            Some(i) => {
                assert(self.id_views().contains(id@));
                true
            },
            None => false,
        }
    }

    /// Number of marked ids.
    pub fn len(&self) -> (n: usize)
        requires
            self.wf(),
        ensures
            n == self@.len(),
    {
        proof {
            self.id_views().unique_seq_to_set();
        }
        self.ids.len()
    }

    /// Whether nothing is marked.
    pub fn is_empty(&self) -> (b: bool)
        ensures
            b == (self@ == Set::<Seq<char>>::empty()),
    {
        if self.ids.len() == 0 {
            assert(self.id_views() =~= Seq::<Seq<char>>::empty());
            assert(self@ =~= Set::<Seq<char>>::empty());
            true
        } else {
            assert(self@.contains(self.id_views()[0]));
            assert(!Set::<Seq<char>>::empty().contains(self.id_views()[0]));
            false
        }
    }

    /// Marks `id`; true when it was not marked before.
    pub fn insert(&mut self, id: String) -> (added: bool)
        requires
            old(self).wf(),
        ensures
            final(self).wf(),
            final(self)@ == old(self)@.insert(id@),
            added == !old(self)@.contains(id@),
    {
        if self.contains(id.as_str()) {
            assert(self@.insert(id@) =~= self@);
            false
        } else {
            let ghost before = self.ids@;
            self.ids.push(id);
            proof {
                lemma_views_push(before, self.ids@.last());
                assert(self.ids@ == before.push(self.ids@.last()));
                assert(self.id_views() == views_of(before).push(id@));
                assert(self@ =~= old(self)@.insert(id@));
            }
            true
        }
    }

    /// Unmarks `id`; true when it was marked.
    pub fn remove(&mut self, id: &str) -> (was: bool)
        requires
            old(self).wf(),
        ensures
            final(self).wf(),
            final(self)@ == old(self)@.remove(id@),
            was == old(self)@.contains(id@),
    {
        match self.position(id) {
            None => {
                assert(self@.remove(id@) =~= self@);
                false
            },
            Some(i) => {
                let ghost before = self.id_views();
                self.ids.remove(i);
                proof {
                    assert(self.id_views() =~= before.remove(i as int));
                    assert forall|x: Seq<char>| #[trigger] self@.contains(x) == old(self)@.remove(
                        id@,
                    ).contains(x) by {
                        if self@.contains(x) {
                            let k = choose|k: int| 0 <= k < self.id_views().len() && self.id_views()[k] == x;
                            if k < i {
                                assert(before[k] == x);
                            } else {
                                assert(before[k + 1] == x);
                            }
                        }
                        if old(self)@.remove(id@).contains(x) {
                            let k = choose|k: int| 0 <= k < before.len() && before[k] == x;
                            assert(k != i);
                            if k < i {
                                assert(self.id_views()[k] == x);
                            } else {
                                assert(self.id_views()[k - 1] == x);
                            }
                        }
                    }
                    assert(self@ =~= old(self)@.remove(id@));
                }
                true
            },
        }
    }

    /// Unmarks everything.
    pub fn clear(&mut self)
        ensures
            final(self).wf(),
            final(self)@ == Set::<Seq<char>>::empty(),
    {
        self.ids = Vec::new();
        assert(self.id_views() =~= Seq::<Seq<char>>::empty());
    }

    /// The set holding exactly `ids`.
    pub fn from_ids(ids: Vec<String>) -> (s: MarkSet)
        ensures
            s.wf(),
            s@ == views_of(ids@).to_set(),
    {
        let mut s = MarkSet::new();
        mark_ids(&mut s, ids);
        assert(s@ =~= views_of(ids@).to_set());
        s
    }

    /// The marked ids, in storage order.
    pub fn to_vec(&self) -> (v: Vec<String>)
        ensures
            views_of(v@).to_set() == self@,
            views_of(v@) == self.id_views(),
    {
        let mut v: Vec<String> = Vec::new();
        let mut i: usize = 0;
        while i < self.ids.len()
            invariant
                i <= self.ids@.len(),
                views_of(v@) == self.id_views().take(i as int),
            decreases self.ids.len() - i,
        {
            let ghost before = v@;
            v.push(self.ids[i].clone());
            proof {
                lemma_views_push(before, v@.last());
                assert(v@ == before.push(v@.last()));
                assert(self.id_views().take(i + 1) =~= self.id_views().take(i as int).push(
                    self.id_views()[i as int],
                ));
            }
            i += 1;
        }
        assert(self.id_views().take(self.ids@.len() as int) =~= self.id_views());
        v
    }
}

impl MarkSet {
    /// Whether every id marked here is marked in `other`.
    pub fn subset_of(&self, other: &MarkSet) -> (b: bool)
        ensures
            b == self@.subset_of(other@),
    {
        let mut i: usize = 0;
        while i < self.ids.len()
            invariant
                i <= self.ids@.len(),
                forall|j: int| 0 <= j < i ==> other@.contains(#[trigger] self.id_views()[j]),
            decreases self.ids.len() - i,
        {
            if !other.contains(self.ids[i].as_str()) {
                assert(self@.contains(self.id_views()[i as int]));
                return false;
            }
            i += 1;
        }
        assert forall|x: Seq<char>| self@.contains(x) implies other@.contains(x) by {
            let k = choose|k: int| 0 <= k < self.id_views().len() && self.id_views()[k] == x;
        }
        true
    }
}

impl PartialEq for MarkSet {
    /// Same marks, whatever their order.
    fn eq(&self, other: &MarkSet) -> (r: bool) {
        let a = self.subset_of(other);
        let b = other.subset_of(self);
        proof {
            if a && b {
                assert(self@ =~= other@);
            }
        }
        a && b
    }
}

impl vstd::std_specs::cmp::PartialEqSpecImpl for MarkSet {
    open spec fn obeys_eq_spec() -> bool {
        true
    }

    open spec fn eq_spec(&self, other: &MarkSet) -> bool {
        self@ == other@
    }
}

/// `s` with `x` flipped in or out.
pub open spec fn toggled(s: Set<Seq<char>>, x: Seq<char>) -> Set<Seq<char>> {
    if s.contains(x) {
        s.remove(x)
    } else {
        s.insert(x)
    }
}

/// Number of times `x` occurs in `ids`.
pub open spec fn count_in(ids: Seq<Seq<char>>, x: Seq<char>) -> nat
    decreases ids.len(),
{
    if ids.len() == 0 {
        0
    } else {
        count_in(ids.drop_last(), x) + if ids.last() == x {
            1nat
        } else {
            0nat
        }
    }
}

/// `s` after toggling each of `ids` in turn: an id ends up marked when it was
/// marked and is toggled an even number of times, or was unmarked and is
/// toggled an odd number of times.
pub open spec fn flipped_by(s: Set<Seq<char>>, ids: Seq<Seq<char>>) -> Set<Seq<char>> {
    Set::new(|x: Seq<char>| s.contains(x) != (count_in(ids, x) % 2 == 1))
}

/// Toggle the mark on `id`.
pub fn toggle_mark(marked: &mut MarkSet, id: &str)
    requires
        old(marked).wf(),
    ensures
        final(marked).wf(),
        final(marked)@ == toggled(old(marked)@, id@),
{
    if !marked.remove(id) {
        marked.insert(String::from_str(id));
    }
}

/// Mark every id in `ids`.
pub fn mark_ids(marked: &mut MarkSet, ids: Vec<String>)
    requires
        old(marked).wf(),
    ensures
        final(marked).wf(),
        final(marked)@ == old(marked)@ + views_of(ids@).to_set(),
{
    let mut i: usize = 0;
    while i < ids.len()
        invariant
            i <= ids@.len(),
            marked.wf(),
            marked@ == old(marked)@ + views_of(ids@.take(i as int)).to_set(),
        decreases ids.len() - i,
    {
        marked.insert(ids[i].clone());
        proof {
            assert(ids@.take(i + 1) == ids@.take(i as int).push(ids@[i as int]));
            lemma_views_push(ids@.take(i as int), ids@[i as int]);
            assert(marked@ =~= old(marked)@ + views_of(ids@.take(i + 1)).to_set());
        }
        i += 1;
    }
    assert(ids@.take(ids.len() as int) == ids@);
}

/// Toggle the mark on every id in `ids`, in order.
pub fn invert_marks(marked: &mut MarkSet, ids: Vec<String>)
    requires
        old(marked).wf(),
    ensures
        final(marked).wf(),
        final(marked)@ == flipped_by(old(marked)@, views_of(ids@)),
{
    let mut i: usize = 0;
    assert(flipped_by(old(marked)@, views_of(ids@.take(0))) =~= old(marked)@);
    while i < ids.len()
        invariant
            i <= ids@.len(),
            marked.wf(),
            marked@ == flipped_by(old(marked)@, views_of(ids@.take(i as int))),
        decreases ids.len() - i,
    {
        toggle_mark(marked, ids[i].as_str());
        proof {
            let pre = views_of(ids@.take(i as int));
            assert(ids@.take(i + 1) == ids@.take(i as int).push(ids@[i as int]));
            lemma_views_push(ids@.take(i as int), ids@[i as int]);
            let post = views_of(ids@.take(i + 1));
            assert(post == pre.push(ids@[i as int]@));
            assert(post.drop_last() == pre);
            assert(marked@ =~= flipped_by(old(marked)@, post));
        }
        i += 1;
    }
    assert(ids@.take(ids.len() as int) == ids@);
}

/// Whether some non-header item has id `x`.
pub open spec fn live_id(items: Seq<Item>, x: Seq<char>) -> bool {
    exists|i: int| 0 <= i < items.len() && !items[i].header && items[i].id@ == x
}

/// Whether some non-header item has id `id`.
fn has_live_id(items: &[Item], id: &String) -> (b: bool)
    ensures
        b == live_id(items@, id@),
{
    let mut i: usize = 0;
    while i < items.len()
        invariant
            i <= items@.len(),
            forall|j: int| 0 <= j < i ==> !(!items@[j].header && items@[j].id@ == id@),
        decreases items.len() - i,
    {
        if !items[i].header && items[i].id == *id {
            return true;
        }
        i += 1;
    }
    false
}

/// Keep only the marks whose id is still a non-header item.
pub fn retain_existing(marked: &mut MarkSet, items: &[Item])
    requires
        old(marked).wf(),
    ensures
        final(marked).wf(),
        final(marked)@ == old(marked)@.filter(|x: Seq<char>| live_id(items@, x)),
{
    let ids = marked.to_vec();
    let mut kept = MarkSet::new();
    let mut i: usize = 0;
    while i < ids.len()
        invariant
            i <= ids@.len(),
            kept.wf(),
            views_of(ids@).to_set() == old(marked)@,
            kept@ == views_of(ids@.take(i as int)).to_set().filter(
                |x: Seq<char>| live_id(items@, x),
            ),
        decreases ids.len() - i,
    {
        let ghost before = kept@;
        if has_live_id(items, &ids[i]) {
            kept.insert(ids[i].clone());
        }
        proof {
            assert(ids@.take(i + 1) == ids@.take(i as int).push(ids@[i as int]));
            lemma_views_push(ids@.take(i as int), ids@[i as int]);
            assert(kept@ =~= views_of(ids@.take(i + 1)).to_set().filter(
                |x: Seq<char>| live_id(items@, x),
            ));
        }
        i += 1;
    }
    assert(ids@.take(ids.len() as int) == ids@);
    *marked = kept;
}

/// Ids of the non-header items at `indices`, skipping indices out of range.
pub open spec fn ids_at_spec(items: Seq<Item>, indices: Seq<usize>) -> Seq<Seq<char>>
    decreases indices.len(),
{
    if indices.len() == 0 {
        Seq::empty()
    } else {
        let rest = ids_at_spec(items, indices.drop_last());
        let i = indices.last() as int;
        if i < items.len() && !items[i].header {
            rest.push(items[i].id@)
        } else {
            rest
        }
    }
}

/// Ids of non-header items in `items` at the given indices (visible rows).
pub fn ids_at(items: &[Item], indices: &[usize]) -> (out: Vec<String>)
    ensures
        views_of(out@) == ids_at_spec(items@, indices@),
{
    let mut out: Vec<String> = Vec::new();
    let mut k: usize = 0;
    while k < indices.len()
        invariant
            k <= indices@.len(),
            views_of(out@) == ids_at_spec(items@, indices@.take(k as int)),
        decreases indices.len() - k,
    {
        let i = indices[k];
        proof {
            assert(indices@.take(k + 1).drop_last() == indices@.take(k as int));
        }
        if i < items.len() && !items[i].header {
            let ghost before = out@;
            out.push(items[i].id.clone());
            proof {
                lemma_views_push(before, out@.last());
                assert(out@ == before.push(out@.last()));
            }
        }
        k += 1;
    }
    assert(indices@.take(indices.len() as int) == indices@);
    out
}

/// Batch targets: the non-header items whose id is marked, in item order.
pub open spec fn targets_spec(marked: Set<Seq<char>>, items: Seq<Item>) -> Seq<(Seq<char>, Seq<char>)>
    decreases items.len(),
{
    if items.len() == 0 {
        Seq::empty()
    } else {
        let rest = targets_spec(marked, items.drop_last());
        let it = items.last();
        if !it.header && marked.contains(it.id@) {
            rest.push((it.id@, it.name@))
        } else {
            rest
        }
    }
}

/// Resolve batch targets: marked ∩ current non-header items (stable order =
/// items order).
pub fn resolve_targets(marked: &MarkSet, items: &[Item]) -> (out: Vec<Target>)
    ensures
        out@.map_values(|t: Target| t@) == targets_spec(marked@, items@),
{
    let mut out: Vec<Target> = Vec::new();
    let mut k: usize = 0;
    while k < items.len()
        invariant
            k <= items@.len(),
            out@.map_values(|t: Target| t@) == targets_spec(marked@, items@.take(k as int)),
        decreases items.len() - k,
    {
        proof {
            assert(items@.take(k + 1).drop_last() == items@.take(k as int));
        }
        if !items[k].header && marked.contains(items[k].id.as_str()) {
            let ghost before = out@;
            out.push(Target { id: items[k].id.clone(), label: items[k].name.clone() });
            proof {
                assert(out@ == before.push(out@.last()));
                assert(out@.map_values(|t: Target| t@) =~= before.map_values(|t: Target| t@).push(
                    out@.last()@,
                ));
            }
        }
        k += 1;
    }
    assert(items@.take(items.len() as int) == items@);
    out
}


/// An id listed for the rows `indices` (or occurring there) is the id of
/// one of those rows that is not a group heading.
pub(crate) proof fn lemma_ids_at_rows(items: Seq<Item>, indices: Seq<usize>, x: Seq<char>)
    requires
        ids_at_spec(items, indices).contains(x) || count_in(ids_at_spec(items, indices), x) > 0,
    ensures
        exists|k: int|
            0 <= k < indices.len() && indices[k] < items.len() && !items[indices[k] as int].header
                && #[trigger] items[indices[k] as int].id@ == x,
    decreases indices.len(),
{
    let ids = ids_at_spec(items, indices);
    let rest = ids_at_spec(items, indices.drop_last());
    let i = indices.last() as int;
    let here = i < items.len() && !items[i].header && items[i].id@ == x;
    if !here {
        if ids.contains(x) {
            let w = choose|w: int| 0 <= w < ids.len() && ids[w] == x;
            if i < items.len() && !items[i].header {
                assert(ids == rest.push(items[i].id@));
                if w < rest.len() {
                    assert(rest[w] == x);
                }
            } else {
                assert(ids == rest);
            }
            assert(rest.contains(x));
        } else {
            if i < items.len() && !items[i].header {
                assert(ids == rest.push(items[i].id@));
                assert(ids.drop_last() == rest);
            } else {
                assert(ids == rest);
            }
            assert(count_in(rest, x) > 0);
        }
        lemma_ids_at_rows(items, indices.drop_last(), x);
        let k = choose|k: int|
            0 <= k < indices.drop_last().len() && indices.drop_last()[k] < items.len()
                && !items[indices.drop_last()[k] as int].header && items[indices.drop_last()[k] as int].id@ == x;
        assert(indices[k] == indices.drop_last()[k]);
    } else {
        assert(indices[indices.len() - 1] == indices.last());
    }
}

/// Toggling the same row's mark twice leaves the marks as they were.
pub proof fn toggle_twice_restores(s: Set<Seq<char>>, x: Seq<char>)
    ensures
        toggled(toggled(s, x), x) == s,
{
    assert(toggled(toggled(s, x), x) =~= s);
}

/// Inverting the marks of the same rows twice leaves the marks as they were.
pub proof fn invert_twice_restores(s: Set<Seq<char>>, ids: Seq<Seq<char>>)
    ensures
        flipped_by(flipped_by(s, ids), ids) == s,
{
    assert(flipped_by(flipped_by(s, ids), ids) =~= s);
}

proof fn lemma_count_distinct(ids: Seq<Seq<char>>, x: Seq<char>)
    requires
        ids.no_duplicates(),
    ensures
        count_in(ids, x) == if ids.contains(x) {
            1nat
        } else {
            0nat
        },
    decreases ids.len(),
{
    if ids.len() > 0 {
        let p = ids.drop_last();
        assert(p.no_duplicates());
        lemma_count_distinct(p, x);
        if ids.last() == x {
            if p.contains(x) {
                let k = choose|k: int| 0 <= k < p.len() && p[k] == x;
                assert(ids[k] == ids[ids.len() - 1]);
            }
            assert(ids.contains(x)) by {
                assert(ids[ids.len() - 1] == x);
            }
        } else {
            if ids.contains(x) {
                let k = choose|k: int| 0 <= k < ids.len() && ids[k] == x;
                assert(k < ids.len() - 1);
                assert(p[k] == x);
            }
            if p.contains(x) {
                let k = choose|k: int| 0 <= k < p.len() && p[k] == x;
                assert(ids[k] == x);
            }
        }
    }
}

/// Inverting the marks of distinct rows marks exactly the rows that were
/// unmarked and unmarks those that were marked; other marks stay.
pub proof fn invert_is_symmetric_difference(s: Set<Seq<char>>, ids: Seq<Seq<char>>)
    requires
        ids.no_duplicates(),
    ensures
        flipped_by(s, ids) == s.difference(ids.to_set()).union(ids.to_set().difference(s)),
{
    assert forall|x: Seq<char>| #[trigger] flipped_by(s, ids).contains(x) == s.difference(ids.to_set()).union(
        ids.to_set().difference(s),
    ).contains(x) by {
        lemma_count_distinct(ids, x);
    }
    assert(flipped_by(s, ids) =~= s.difference(ids.to_set()).union(ids.to_set().difference(s)));
}

/// Every batch target is marked and is a current non-header row, and each
/// marked current row is a target.
pub proof fn targets_are_marked_rows(marked: Set<Seq<char>>, items: Seq<Item>)
    ensures
        forall|k: int|
            0 <= k < targets_spec(marked, items).len() ==> marked.contains(
                #[trigger] targets_spec(marked, items)[k].0,
            ) && live_id(items, targets_spec(marked, items)[k].0),
        forall|i: int|
            0 <= i < items.len() && !items[i].header && marked.contains(#[trigger] items[i].id@) ==> exists|k: int|
                0 <= k < targets_spec(marked, items).len() && targets_spec(marked, items)[k].0 == items[i].id@,
    decreases items.len(),
{
    if items.len() > 0 {
        let p = items.drop_last();
        targets_are_marked_rows(marked, p);
        let t = targets_spec(marked, items);
        let tp = targets_spec(marked, p);
        assert forall|k: int| 0 <= k < t.len() implies marked.contains(#[trigger] t[k].0) && live_id(items, t[k].0) by {
            if k < tp.len() {
                assert(t[k] == tp[k]);
                let i = choose|i: int| 0 <= i < p.len() && !p[i].header && p[i].id@ == tp[k].0;
                assert(items[i] == p[i]);
            } else {
                assert(items[items.len() - 1] == items.last());
            }
        }
        assert forall|i: int|
            0 <= i < items.len() && !items[i].header && marked.contains(#[trigger] items[i].id@) implies exists|k: int|
                0 <= k < t.len() && t[k].0 == items[i].id@ by {
            if i < p.len() {
                assert(items[i] == p[i]);
                assert(marked.contains(p[i].id@));
                let k = choose|k: int| 0 <= k < tp.len() && tp[k].0 == p[i].id@;
                assert(t[k] == tp[k]);
            } else {
                assert(items[i] == items.last());
                assert(t[t.len() - 1].0 == items[i].id@);
            }
        }
    }
}

} // verus!
