//! The laws of the mark and sweep cycle.

use super::handle::Traceable;
use super::heap::{Event, Heap};
use super::reach::lemma_filter_agree;
use vstd::prelude::*;

verus! {

impl<T: Traceable> Heap<T> {
    /// Marking is idempotent: to mark a slot once more changes nothing.
    pub proof fn lemma_mark_idempotent(self, root: int)
        ensures
            self.mark(root).mark(root) == self.mark(root),
    {
        let after = self.mark(root);
        if self.unmarked(root) {
            self.lemma_path_single(root);
            assert(after.slots[root].marked);
        }
        after.lemma_mark_nothing(root);
    }

    /// Heaps with the same payloads have the same slots within reach of
    /// given roots.
    pub proof fn lemma_same_reachable(self, other: Heap<T>, roots: Seq<int>)
        requires
            self.same_payloads(other),
        ensures
            forall|i: int| self.reachable(roots, i) == other.reachable(roots, i),
    {
        assert forall|i: int| self.reachable(roots, i) == other.reachable(roots, i) by {
            if self.reachable(roots, i) {
                let k = choose|k: int| 0 <= k < roots.len() && #[trigger] self.reaches(roots[k], i);
                let p = choose|p: Seq<int>| #[trigger]
                    self.path(p) && p.first() == roots[k] && p.last() == i;
                assert forall|j: int| 0 <= j < other.slots.len() implies (
                #[trigger] other.slots[j]).value == self.slots[j].value by {
                    assert(self.slots[j].value == other.slots[j].value);
                }
                other.lemma_same_paths(self, p);
                assert(other.reaches(roots[k], i));
            }
            if other.reachable(roots, i) {
                let k = choose|k: int| 0 <= k < roots.len() && #[trigger] other.reaches(roots[k], i);
                let p = choose|p: Seq<int>| #[trigger]
                    other.path(p) && p.first() == roots[k] && p.last() == i;
                self.lemma_same_paths(other, p);
                assert(self.reaches(roots[k], i));
            }
        }
    }

    /// Where the marked slots are those within reach of `roots`, marking
    /// `root` too marks every slot on a path from `root`.
    pub proof fn lemma_marked_along(self, roots: Seq<int>, root: int, p: Seq<int>, k: int)
        requires
            forall|i: int| #[trigger] self.marked(i) <==> self.reachable(roots, i),
            self.path(p),
            p.first() == root,
            0 <= k < p.len(),
        ensures
            self.mark(root).marked(p[k]),
        decreases k,
    {
        let after = self.mark(root);
        let b = p[k];
        assert(self.holds(b));
        if k == 0 {
            if !self.marked(b) {
                self.lemma_path_single(b);
            }
        } else {
            self.lemma_marked_along(roots, root, p, k - 1);
            let a = p[k - 1];
            assert(self.edge(a, b));
            assert(self.holds(a));
            if self.marked(a) {
                assert(self.reachable(roots, a));
                let j = choose|j: int| 0 <= j < roots.len() && #[trigger] self.reaches(roots[j], a);
                let q = choose|q: Seq<int>| #[trigger]
                    self.path(q) && q.first() == roots[j] && q.last() == a;
                self.lemma_path_push(q, b);
                assert(self.reaches(roots[j], b));
                assert(self.reachable(roots, b));
                assert(self.marked(b));
            } else if !self.marked(b) {
                assert(after.marked(a));
                let q = choose|q: Seq<int>| #[trigger]
                    self.unmarked_path(q) && q.first() == root && q.last() == a;
                self.lemma_path_push(q, b);
                assert(self.unmarked_path(q.push(b)));
                assert(self.reaches_unmarked(root, b));
            }
        }
    }

    /// Where the marked slots are those within reach of `roots`, marking
    /// `root` makes them those within reach of `roots` and `root`.
    pub proof fn lemma_mark_reaches(self, roots: Seq<int>, root: int)
        requires
            forall|i: int| #[trigger] self.marked(i) <==> self.reachable(roots, i),
        ensures
            forall|i: int| #[trigger]
                self.mark(root).marked(i) <==> self.reachable(roots.push(root), i),
    {
        let after = self.mark(root);
        let more = roots.push(root);
        assert forall|i: int| #[trigger] after.marked(i) implies self.reachable(more, i) by {
            if self.marked(i) {
                assert(self.reachable(roots, i));
                let k = choose|k: int| 0 <= k < roots.len() && #[trigger] self.reaches(roots[k], i);
                assert(more[k] == roots[k]);
            } else {
                let p = choose|p: Seq<int>| #[trigger]
                    self.unmarked_path(p) && p.first() == root && p.last() == i;
                assert(self.path(p));
                assert(self.reaches(more[more.len() - 1], i));
            }
        }
        assert forall|i: int| self.reachable(more, i) implies #[trigger] after.marked(i) by {
            let k = choose|k: int| 0 <= k < more.len() && #[trigger] self.reaches(more[k], i);
            if k < roots.len() {
                assert(roots[k] == more[k]);
                assert(self.reachable(roots, i));
                assert(self.marked(i));
            } else {
                let p = choose|p: Seq<int>| #[trigger]
                    self.path(p) && p.first() == root && p.last() == i;
                self.lemma_marked_along(roots, root, p, p.len() - 1);
            }
        }
    }

    /// From a clean heap, marking roots marks exactly the slots that a path
    /// from one of the roots leads to.
    pub proof fn lemma_mark_all_reachable(self, roots: Seq<int>)
        requires
            self.wf(),
            self.clean(),
        ensures
            self.mark_all(roots).wf(),
            self.same_payloads(self.mark_all(roots)),
            forall|i: int| #[trigger] self.mark_all(roots).marked(i) <==> self.reachable(roots, i),
        decreases roots.len(),
    {
        if roots.len() == 0 {
            assert forall|i: int| #[trigger] self.mark_all(roots).marked(i) <==> self.reachable(
                roots,
                i,
            ) by {
                assert(!self.marked(i));
            }
        } else {
            let front = roots.drop_last();
            let root = roots.last();
            let mid = self.mark_all(front);
            self.lemma_mark_all_reachable(front);
            mid.lemma_mark_keeps(root);
            self.lemma_same_reachable(mid, front);
            self.lemma_same_reachable(mid, roots);
            mid.lemma_mark_reaches(front, root);
            assert(front.push(root) =~= roots);
            assert forall|i: int| 0 <= i < self.slots.len() implies (#[trigger] self.slots[i]).value
                == mid.mark(root).slots[i].value by {
                assert(self.slots[i].value == mid.slots[i].value);
            }
        }
    }

    /// A cycle that begins clean retains exactly what its roots reach: once
    /// `roots` are marked and the heap is swept, the live slots are those
    /// live slots that a path from a root led to, in their order; each of
    /// them has its payload, and no other slot has one.
    pub proof fn lemma_sweep_retains_reachable(self, roots: Seq<int>)
        requires
            self.wf(),
            self.clean(),
        ensures
            self.mark_all(roots).sweep().wf(),
            self.mark_all(roots).sweep().clean(),
            self.mark_all(roots).sweep().live == self.live.filter(
                |i: int| self.reachable(roots, i),
            ),
            self.mark_all(roots).sweep().slots.len() == self.slots.len(),
            forall|i: int|
                0 <= i < self.slots.len() ==> (#[trigger] self.mark_all(roots).sweep().slots[i]).value
                    == if self.reachable(roots, i) {
                    self.slots[i].value
                } else {
                    None
                },
    {
        let mid = self.mark_all(roots);
        self.lemma_mark_all_reachable(roots);
        mid.lemma_sweep_keeps();
        assert forall|k: int| 0 <= k < self.live.len() implies mid.marked(#[trigger] self.live[k])
            == self.reachable(roots, self.live[k]) by {}
        lemma_filter_agree(
            self.live,
            |i: int| mid.marked(i),
            |i: int| self.reachable(roots, i),
        );
        assert forall|i: int| 0 <= i < self.slots.len() implies (#[trigger] mid.sweep().slots[i]).value
            == if self.reachable(roots, i) {
            self.slots[i].value
        } else {
            None
        } by {
            assert(mid.marked(i) <==> self.reachable(roots, i));
            assert(self.slots[i].value == mid.slots[i].value);
        }
    }

    /// In a grounded heap a path from a slot of the heap stays in the heap
    /// as it was before a value was allocated: the new slot is on no such
    /// path.
    pub proof fn lemma_path_before_allocation(self, value: T, p: Seq<int>, k: int)
        requires
            self.grounded(),
            self.allocate(value).path(p),
            0 <= p.first() < self.slots.len(),
            0 <= k < p.len(),
        ensures
            0 <= p[k] < self.slots.len(),
            self.path(p.subrange(0, k + 1)),
        decreases k,
    {
        let after = self.allocate(value);
        let q = p.subrange(0, k + 1);
        if k == 0 {
            assert(after.holds(p[0]));
            assert(after.slots[p[0]] == self.slots[p[0]]);
            assert(self.holds(q[0]));
        } else {
            self.lemma_path_before_allocation(value, p, k - 1);
            let a = p[k - 1];
            let b = p[k];
            assert(after.edge(a, b));
            assert(after.slots[a] == self.slots[a]);
            assert(after.children(a) == self.children(a));
            assert(self.edge(a, b));
            assert(after.holds(b));
            assert(after.slots[b] == self.slots[b]);
            let shorter = p.subrange(0, k);
            assert(shorter.last() == a);
            self.lemma_path_push(shorter, b);
            assert(shorter.push(b) =~= q);
        }
    }

    /// A path of a heap is a path of the heap after an allocation.
    pub proof fn lemma_path_after_allocation(self, value: T, p: Seq<int>)
        requires
            self.path(p),
        ensures
            self.allocate(value).path(p),
    {
        let after = self.allocate(value);
        assert forall|k: int| 0 <= k < p.len() implies after.holds(#[trigger] p[k]) by {
            assert(self.holds(p[k]));
            assert(after.slots[p[k]] == self.slots[p[k]]);
        }
        assert forall|k: int| 0 <= k < p.len() - 1 implies after.edge(#[trigger] p[k], p[k + 1]) by {
            assert(self.holds(p[k]));
            assert(self.edge(p[k], p[k + 1]));
            assert(after.slots[p[k]] == self.slots[p[k]]);
            assert(after.children(p[k]) == self.children(p[k]));
        }
    }

    /// Allocating a value that holds handles of the heap keeps the heap
    /// grounded, and keeps the marked slots those within reach of the roots.
    pub proof fn lemma_allocate_reaches(self, roots: Seq<int>, value: T)
        requires
            self.wf(),
            self.grounded(),
            forall|k: int| 0 <= k < roots.len() ==> 0 <= #[trigger] roots[k] < self.slots.len(),
            forall|k: int|
                0 <= k < value.held().len() ==> (#[trigger] value.held()[k]).slot()
                    < self.slots.len(),
            forall|i: int| #[trigger] self.marked(i) <==> self.reachable(roots, i),
        ensures
            self.allocate(value).grounded(),
            forall|i: int| #[trigger]
                self.allocate(value).marked(i) <==> self.allocate(value).reachable(roots, i),
    {
        let after = self.allocate(value);
        let n = self.slots.len() as int;
        assert forall|i: int, c: int| #[trigger] after.edge(i, c) implies 0 <= c
            < after.slots.len() by {
            let held = after.children(i);
            let k = choose|k: int| 0 <= k < held.len() && held[k] == c;
            if i < n {
                assert(after.slots[i] == self.slots[i]);
                assert(after.children(i) == self.children(i));
                assert(self.edge(i, c));
            } else {
                assert(after.holds(i));
                assert(held[k] == value.held()[k].slot());
                value.held()[k].lemma_slot_bounds();
            }
        }
        assert forall|i: int| #[trigger] after.marked(i) implies after.reachable(roots, i) by {
            assert(self.marked(i));
            assert(self.reachable(roots, i));
            let k = choose|k: int| 0 <= k < roots.len() && #[trigger] self.reaches(roots[k], i);
            let p = choose|p: Seq<int>| #[trigger]
                self.path(p) && p.first() == roots[k] && p.last() == i;
            self.lemma_path_after_allocation(value, p);
            assert(after.reaches(roots[k], i));
        }
        assert forall|i: int| after.reachable(roots, i) implies #[trigger] after.marked(i) by {
            let k = choose|k: int| 0 <= k < roots.len() && #[trigger] after.reaches(roots[k], i);
            let p = choose|p: Seq<int>| #[trigger]
                after.path(p) && p.first() == roots[k] && p.last() == i;
            self.lemma_path_before_allocation(value, p, p.len() - 1);
            assert(p.subrange(0, p.len() as int) =~= p);
            assert(self.reaches(roots[k], i));
            assert(self.reachable(roots, i));
            assert(self.marked(i));
            assert(after.slots[i] == self.slots[i]);
        }
    }

    /// After events that deal in handles of the heap, from a clean and
    /// grounded heap, the marked slots are those within reach of the marked
    /// roots.
    pub proof fn lemma_events_mark_reachable(self, events: Seq<Event<T>>)
        requires
            self.wf(),
            self.clean(),
            self.grounded(),
            self.admits(events),
        ensures
            self.after(events).wf(),
            self.after(events).grounded(),
            forall|k: int|
                0 <= k < Self::roots_of(events).len() ==> 0 <= #[trigger] Self::roots_of(events)[k]
                    < self.after(events).slots.len(),
            forall|i: int| #[trigger]
                self.after(events).marked(i) <==> self.after(events).reachable(
                    Self::roots_of(events),
                    i,
                ),
        decreases events.len(),
    {
        let end = self.after(events);
        let roots = Self::roots_of(events);
        if events.len() == 0 {
            assert forall|i: int| #[trigger] end.marked(i) <==> end.reachable(roots, i) by {
                assert(!self.marked(i));
            }
        } else {
            let earlier = events.drop_last();
            let before = self.after(earlier);
            let front = Self::roots_of(earlier);
            self.lemma_events_mark_reachable(earlier);
            match events.last() {
                Event::Allocate(value) => {
                    before.lemma_allocate_keeps(value);
                    before.lemma_allocate_reaches(front, value);
                },
                Event::Mark(root) => {
                    before.lemma_mark_keeps(root);
                    before.lemma_mark_reaches(front, root);
                    before.lemma_same_reachable(end, roots);
                    assert forall|i: int, c: int| #[trigger] end.edge(i, c) implies 0 <= c
                        < end.slots.len() by {
                        if end.holds(i) {
                            assert(before.slots[i].value == end.slots[i].value);
                            assert(end.children(i) == before.children(i));
                            assert(before.edge(i, c));
                        }
                    }
                    assert forall|k: int| 0 <= k < roots.len() implies 0 <= #[trigger] roots[k]
                        < end.slots.len() by {
                        if k < front.len() {
                            assert(roots[k] == front[k]);
                        }
                    }
                },
            }
        }
    }

    /// A cycle retains exactly what its roots reach, whatever the order in
    /// which values were allocated and roots marked since the heap was
    /// clean, as long as every handle is one of this heap: after the sweep
    /// the live slots are those live slots that a path from a marked root
    /// leads to, in their order; each of them has its payload, and no other
    /// slot has one.
    pub proof fn lemma_cycle_retains_reachable(self, events: Seq<Event<T>>)
        requires
            self.wf(),
            self.clean(),
            self.grounded(),
            self.admits(events),
        ensures
            self.after(events).sweep().wf(),
            self.after(events).sweep().clean(),
            self.after(events).sweep().live == self.after(events).live.filter(
                |i: int| self.after(events).reachable(Self::roots_of(events), i),
            ),
            forall|i: int|
                0 <= i < self.after(events).slots.len() ==> (
                #[trigger] self.after(events).sweep().slots[i]).value == if self.after(
                    events,
                ).reachable(Self::roots_of(events), i) {
                    self.after(events).slots[i].value
                } else {
                    None
                },
    {
        let end = self.after(events);
        let roots = Self::roots_of(events);
        self.lemma_events_mark_reachable(events);
        end.lemma_sweep_keeps();
        assert forall|k: int| 0 <= k < end.live.len() implies end.marked(#[trigger] end.live[k])
            == end.reachable(roots, end.live[k]) by {}
        lemma_filter_agree(end.live, |i: int| end.marked(i), |i: int| end.reachable(roots, i));
        assert forall|i: int| 0 <= i < end.slots.len() implies (#[trigger] end.sweep().slots[i]).value
            == if end.reachable(roots, i) {
            end.slots[i].value
        } else {
            None
        } by {
            assert(end.marked(i) <==> end.reachable(roots, i));
        }
    }

    /// A handle into a slot that a sweep has released finds no payload, and
    /// to mark it changes nothing; the heap stays well formed all the while.
    pub proof fn lemma_released_slot(self, i: int)
        requires
            self.wf(),
            !self.marked(i),
        ensures
            self.sweep().wf(),
            !self.sweep().holds(i),
            self.sweep().mark(i) == self.sweep(),
            self.sweep().mark(i).wf(),
    {
        self.lemma_sweep_keeps();
        self.sweep().lemma_mark_nothing(i);
    }
}

} // verus!
