//! The heap as a mathematical object: slots, the marks of the current
//! cycle, and the list of live slots; with what allocating, marking and
//! sweeping do to it.

use super::handle::{GcRef, Traceable};
use vstd::prelude::*;

verus! {

/// One slot: its payload, if it still has one, and whether the current
/// cycle has marked it.
#[verifier::ext_equal]
pub struct Slot<T> {
    pub value: Option<T>,
    pub marked: bool,
}

/// What happens to a heap between two sweeps.
pub enum Event<T> {
    /// A value is allocated.
    Allocate(T),
    /// The slot of this number is marked.
    Mark(int),
}

/// A heap: every slot ever allocated, by number, and the numbers of the
/// slots that still hold a payload, in the order of their allocation.
#[verifier::ext_equal]
pub struct Heap<T> {
    pub slots: Seq<Slot<T>>,
    pub live: Seq<int>,
}

impl<T: Traceable> Heap<T> {
    /// The heap with no slot.
    pub open spec fn empty() -> Heap<T> {
        Heap { slots: Seq::empty(), live: Seq::empty() }
    }

    /// Slot `i` exists and holds a payload.
    pub open spec fn holds(self, i: int) -> bool {
        0 <= i < self.slots.len() && self.slots[i].value is Some
    }

    /// Slot `i` exists and is marked.
    pub open spec fn marked(self, i: int) -> bool {
        0 <= i < self.slots.len() && self.slots[i].marked
    }

    /// Slot `i` holds a payload that the current cycle has not marked.
    pub open spec fn unmarked(self, i: int) -> bool {
        self.holds(i) && !self.slots[i].marked
    }

    /// The live list holds, in the order of their allocation, exactly the
    /// slots that hold a payload; and only such a slot is marked.
    pub open spec fn wf(self) -> bool {
        &&& forall|i: int| #[trigger] self.marked(i) ==> self.holds(i)
        &&& forall|k: int| 0 <= k < self.live.len() ==> #[trigger] self.holds(self.live[k])
        &&& forall|j: int, k: int| 0 <= j < k < self.live.len() ==> self.live[j] < self.live[k]
        &&& forall|i: int| #[trigger] self.holds(i) ==> self.live.contains(i)
    }

    /// No slot is marked: the state in which a cycle begins.
    pub open spec fn clean(self) -> bool {
        forall|i: int| !#[trigger] self.marked(i)
    }

    /// The numbers of the slots that the payload of slot `i` holds handles
    /// to, in the order in which it hands them out.
    pub open spec fn children(self, i: int) -> Seq<int> {
        if self.holds(i) {
            self.slots[i].value->Some_0.held().map_values(|r: GcRef<T>| r.slot())
        } else {
            Seq::empty()
        }
    }

    /// The payload of slot `a` holds a handle to slot `b`.
    pub open spec fn edge(self, a: int, b: int) -> bool {
        self.children(a).contains(b)
    }

    /// `p` is a chain of slots that hold payloads, each holding a handle to
    /// the next.
    pub open spec fn path(self, p: Seq<int>) -> bool {
        &&& p.len() > 0
        &&& forall|k: int| 0 <= k < p.len() ==> self.holds(#[trigger] p[k])
        &&& forall|k: int| 0 <= k < p.len() - 1 ==> self.edge(#[trigger] p[k], p[k + 1])
    }

    /// `p` is a path over slots that are not marked.
    pub open spec fn unmarked_path(self, p: Seq<int>) -> bool {
        &&& self.path(p)
        &&& forall|k: int| 0 <= k < p.len() ==> !self.marked(#[trigger] p[k])
    }

    /// A path leads from slot `from` to slot `to`.
    pub open spec fn reaches(self, from: int, to: int) -> bool {
        exists|p: Seq<int>| #[trigger] self.path(p) && p.first() == from && p.last() == to
    }

    /// A path over unmarked slots leads from slot `from` to slot `to`.
    pub open spec fn reaches_unmarked(self, from: int, to: int) -> bool {
        exists|p: Seq<int>| #[trigger]
            self.unmarked_path(p) && p.first() == from && p.last() == to
    }

    /// A path leads from one of `roots` to slot `to`.
    pub open spec fn reachable(self, roots: Seq<int>, to: int) -> bool {
        exists|k: int| 0 <= k < roots.len() && #[trigger] self.reaches(roots[k], to)
    }

    /// The heap after `value` is allocated: one more slot, unmarked and live.
    pub open spec fn allocate(self, value: T) -> Heap<T> {
        Heap {
            slots: self.slots.push(Slot { value: Some(value), marked: false }),
            live: self.live.push(self.slots.len() as int),
        }
    }

    /// The heap after slot `root` is marked: every slot that an unmarked path
    /// from `root` leads to is marked, and nothing else changes.
    pub open spec fn mark(self, root: int) -> Heap<T> {
        Heap {
            slots: Seq::new(
                self.slots.len(),
                |i: int|
                    Slot {
                        value: self.slots[i].value,
                        marked: self.slots[i].marked || self.reaches_unmarked(root, i),
                    },
            ),
            live: self.live,
        }
    }

    /// The heap after each of `roots` is marked, in order.
    pub open spec fn mark_all(self, roots: Seq<int>) -> Heap<T>
        decreases roots.len(),
    {
        if roots.len() == 0 {
            self
        } else {
            self.mark_all(roots.drop_last()).mark(roots.last())
        }
    }

    /// The heap after a sweep: a marked slot keeps its payload and its place
    /// among the live, every other slot has no payload and is not live, and
    /// no slot is marked.
    pub open spec fn sweep(self) -> Heap<T> {
        Heap {
            slots: Seq::new(
                self.slots.len(),
                |i: int|
                    Slot {
                        value: if self.slots[i].marked {
                            self.slots[i].value
                        } else {
                            None
                        },
                        marked: false,
                    },
            ),
            live: self.live.filter(|i: int| self.marked(i)),
        }
    }

    /// Every handle that a payload holds refers to a slot of this heap.
    pub open spec fn grounded(self) -> bool {
        forall|i: int, c: int| #[trigger] self.edge(i, c) ==> 0 <= c < self.slots.len()
    }

    /// The heap after `events`, in order.
    pub open spec fn after(self, events: Seq<Event<T>>) -> Heap<T>
        decreases events.len(),
    {
        if events.len() == 0 {
            self
        } else {
            let before = self.after(events.drop_last());
            match events.last() {
                Event::Allocate(value) => before.allocate(value),
                Event::Mark(root) => before.mark(root),
            }
        }
    }

    /// The slots that `events` mark, in order.
    pub open spec fn roots_of(events: Seq<Event<T>>) -> Seq<int>
        decreases events.len(),
    {
        if events.len() == 0 {
            Seq::empty()
        } else {
            let before = Self::roots_of(events.drop_last());
            match events.last() {
                Event::Allocate(_) => before,
                Event::Mark(root) => before.push(root),
            }
        }
    }

    /// Each of `events` deals in handles of this heap: a value that is
    /// allocated holds handles to slots that exist by then, and so does a
    /// handle that is marked.
    pub open spec fn admits(self, events: Seq<Event<T>>) -> bool
        decreases events.len(),
    {
        if events.len() == 0 {
            true
        } else {
            let before = self.after(events.drop_last());
            &&& self.admits(events.drop_last())
            &&& match events.last() {
                Event::Allocate(value) => forall|k: int|
                    0 <= k < value.held().len() ==> (#[trigger] value.held()[k]).slot()
                        < before.slots.len(),
                Event::Mark(root) => 0 <= root < before.slots.len(),
            }
        }
    }

    /// `self` and `other` have the same payloads in the same slots, and the
    /// same live list: they differ in their marks at most.
    pub open spec fn same_payloads(self, other: Heap<T>) -> bool {
        &&& self.slots.len() == other.slots.len()
        &&& self.live == other.live
        &&& forall|i: int|
            0 <= i < self.slots.len() ==> (#[trigger] self.slots[i]).value == other.slots[i].value
    }

    /// Every mark of `self` is a mark of `other`.
    pub open spec fn marks_within(self, other: Heap<T>) -> bool {
        forall|i: int| #[trigger] self.marked(i) ==> other.marked(i)
    }

    /// The number of unmarked slots among the first `n`.
    pub open spec fn count_unmarked(self, n: nat) -> nat
        decreases n,
    {
        if n == 0 {
            0
        } else {
            self.count_unmarked((n - 1) as nat) + if self.unmarked(n - 1) {
                1nat
            } else {
                0nat
            }
        }
    }

    /// The number of slots that hold a payload and are not marked.
    pub open spec fn unmarked_slots(self) -> nat {
        self.count_unmarked(self.slots.len())
    }
}

} // verus!
