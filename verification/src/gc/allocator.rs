//! The allocator: an arena of slots that are never removed, only hollowed,
//! with the mark and sweep cycle over them.

use super::handle::{lemma_flags, GcFlag, GcRef, Traceable};
use super::heap::{Heap, Slot};
use super::reach::lemma_filter_push;
use vstd::prelude::*;

verus! {

/// A tracked slot: the payload while it is alive, and the flag of the last
/// cycle that marked it.
pub struct GcValue<T: Traceable> {
    value: Option<T>,
    flag: GcFlag,
}

impl<T: Traceable> GcValue<T> {
    /// Releases the payload unless the slot carries `flag`; says whether it
    /// did. The slot itself stays.
    fn dealloc(&mut self, flag: GcFlag) -> (deleted: bool)
        ensures
            deleted == (old(self).flag != flag),
            final(self).flag == old(self).flag,
            final(self).value == if deleted {
                None
            } else {
                old(self).value
            },
    {
        if self.flag != flag {
            self.value = None;
            true
        } else {
            false
        }
    }
}

/// What an allocator offers: allocation, root marking, and sweeping.
pub trait GcAllocator<T: Traceable>: Sized {
    /// The allocator is consistent.
    spec fn wf(&self) -> bool;

    /// The heap that the allocator holds.
    spec fn heap(&self) -> Heap<T>;

    /// The heap of a consistent allocator is well formed.
    proof fn lemma_heap_wf(&self)
        requires
            self.wf(),
        ensures
            self.heap().wf(),
    ;

    /// Stores `value` in a new slot, unmarked and live, and hands out a
    /// handle to it. No other slot changes.
    fn allocate(&mut self, value: T) -> (handle: GcRef<T>)
        requires
            old(self).wf(),
        ensures
            final(self).wf(),
            final(self).heap() == old(self).heap().allocate(value),
            handle.slot() == old(self).heap().slots.len(),
    ;

    /// Marks the slot of `gc_ref` and every slot that an unmarked path from
    /// it leads to. On a slot that is marked, or holds no payload, or is not
    /// of this allocator, nothing changes.
    fn mark(&mut self, gc_ref: GcRef<T>)
        requires
            old(self).wf(),
        ensures
            final(self).wf(),
            final(self).heap() == old(self).heap().mark(gc_ref.slot()),
    ;

    /// Releases the payload of every slot that is not marked, keeps the
    /// marked slots live in their order, and begins the next cycle with no
    /// slot marked.
    fn sweep(&mut self)
        requires
            old(self).wf(),
        ensures
            final(self).wf(),
            final(self).heap() == old(self).heap().sweep(),
    ;
}

/// An allocator over one vector of slots. A handle is the number of its
/// slot; a slot is never removed, so every handle stays safe to look at.
pub struct SimpleGcAllocator<T: Traceable> {
    flag: GcFlag,
    slots: Vec<GcValue<T>>,
    values: Vec<usize>,
}

impl<T: Traceable> View for SimpleGcAllocator<T> {
    type V = Heap<T>;

    /// The heap that the allocator holds. A slot counts as marked if it has
    /// a payload and carries the flag of the current cycle.
    closed spec fn view(&self) -> Heap<T> {
        Heap {
            slots: Seq::new(
                self.slots@.len(),
                |i: int|
                    Slot {
                        value: self.slots@[i].value,
                        marked: self.slots@[i].value is Some && self.slots@[i].flag == self.flag,
                    },
            ),
            live: self.values@.map_values(|i: usize| i as int),
        }
    }
}

impl<T: Traceable> Default for SimpleGcAllocator<T> {
    /// An allocator with no slot, in its first cycle.
    fn default() -> (gc: SimpleGcAllocator<T>)
        ensures
            gc.wf(),
            gc@ == Heap::<T>::empty(),
    {
        let gc = SimpleGcAllocator { flag: GcFlag::first(), slots: Vec::new(), values: Vec::new() };
        proof {
            lemma_flags(gc.flag);
        }
        assert(gc@.slots =~= Heap::<T>::empty().slots);
        assert(gc@.live =~= Heap::<T>::empty().live);
        gc
    }
}

impl<T: Traceable> GcAllocator<T> for SimpleGcAllocator<T> {
    closed spec fn wf(&self) -> bool {
        self.flag.is_cycle() && self@.wf()
    }

    open spec fn heap(&self) -> Heap<T> {
        self@
    }

    proof fn lemma_heap_wf(&self) {
    }

    fn allocate(&mut self, value: T) -> (handle: GcRef<T>) {
        let index = self.slots.len();
        proof {
            self@.lemma_allocate_keeps(value);
            lemma_flags(self.flag);
        }
        self.slots.push(GcValue { value: Some(value), flag: GcFlag::default() });
        self.values.push(index);
        assert(self@.slots =~= old(self)@.allocate(value).slots);
        assert(self@.live =~= old(self)@.allocate(value).live);
        GcRef::new(index)
    }

    fn mark(&mut self, gc_ref: GcRef<T>) {
        gc_ref.trace_ref(self);
    }

    fn sweep(&mut self) {
        let ghost before = self@;
        let ghost pred = |i: int| before.marked(i);
        let flag = self.flag;
        let mut kept: Vec<usize> = Vec::new();
        let mut k: usize = 0;
        assert(before.live.subrange(0, 0) =~= Seq::<int>::empty());
        proof {
            reveal(Seq::filter);
        }
        while k < self.values.len()
            invariant
                before == old(self)@,
                before.wf(),
                pred == (|i: int| before.marked(i)),
                self.flag == flag,
                flag == old(self).flag,
                self.values@ == old(self).values@,
                self.slots@.len() == old(self).slots@.len(),
                0 <= k <= self.values@.len(),
                forall|j: int|
                    0 <= j < self.slots@.len() ==> (#[trigger] self.slots@[j]).flag == old(
                        self,
                    ).slots@[j].flag,
                forall|m: int|
                    0 <= m < k ==> (#[trigger] self.slots@[self.values@[m] as int]).value == if before.marked(
                        self.values@[m] as int,
                    ) {
                        old(self).slots@[self.values@[m] as int].value
                    } else {
                        None
                    },
                forall|m: int|
                    k <= m < self.values@.len() ==> (#[trigger] self.slots@[self.values@[m] as int]).value
                        == old(self).slots@[self.values@[m] as int].value,
                forall|j: int|
                    0 <= j < self.slots@.len() && !before.holds(j) ==> (
                    #[trigger] self.slots@[j]).value == old(self).slots@[j].value,
                kept@.map_values(|i: usize| i as int) == before.live.subrange(0, k as int).filter(
                    pred,
                ),
            decreases self.values@.len() - k,
        {
            let i = self.values[k];
            let ghost earlier = self.slots@;
            assert(before.live[k as int] == i);
            assert(before.holds(before.live[k as int]));
            assert forall|m: int| 0 <= m < self.values@.len() && m != k implies self.values@[m]
                != i by {
                assert(before.live[m] == self.values@[m]);
                if m < k {
                    assert(before.live[m] < before.live[k as int]);
                } else {
                    assert(before.live[k as int] < before.live[m]);
                }
            }
            let deleted = self.slots[i].dealloc(flag);
            assert(deleted == !before.marked(i as int));
            proof {
                assert forall|m: int| 0 <= m < self.values@.len() && m != k implies (
                #[trigger] self.slots@[self.values@[m] as int]) == earlier[self.values@[m] as int] by {
                    assert(before.holds(before.live[m]));
                    assert(self.values@[m] != i);
                }
                lemma_filter_push(before.live.subrange(0, k as int), i as int, pred);
                assert(before.live.subrange(0, k as int).push(i as int) =~= before.live.subrange(
                    0,
                    k + 1,
                ));
            }
            if !deleted {
                let ghost shorter = kept@.map_values(|i: usize| i as int);
                kept.push(i);
                assert(kept@.map_values(|i: usize| i as int) =~= shorter.push(i as int));
            }
            k += 1;
        }
        self.values = kept;
        self.flag = flag.flip();
        proof {
            lemma_flags(flag);
            before.lemma_sweep_keeps();
            assert(before.live.subrange(0, before.live.len() as int) =~= before.live);
            assert forall|j: int| 0 <= j < self@.slots.len() implies self@.slots[j]
                == before.sweep().slots[j] by {
                if before.holds(j) {
                    let m = choose|m: int| 0 <= m < before.live.len() && before.live[m] == j;
                    assert(self.slots@[old(self).values@[m] as int].flag == old(
                        self,
                    ).slots@[j].flag);
                } else {
                    assert(self.slots@[j].value == old(self).slots@[j].value);
                }
            }
            assert(self@.slots =~= before.sweep().slots);
        }
    }
}

impl<T: Traceable> SimpleGcAllocator<T> {
    /// The payload of the slot of `gc_ref`, if it still has one. A handle
    /// into a slot that was released, or into no slot of this allocator,
    /// finds none.
    pub fn get(&self, gc_ref: &GcRef<T>) -> (payload: Option<&T>)
        ensures
            payload == if self@.holds(gc_ref.slot()) {
                Some(&self@.slots[gc_ref.slot()].value->Some_0)
            } else {
                None
            },
    {
        let i = gc_ref.index();
        if i < self.slots.len() {
            self.slots[i].value.as_ref()
        } else {
            None
        }
    }

    /// Handles to the live slots, in the order of their allocation.
    pub fn values(&self) -> (handles: Vec<GcRef<T>>)
        ensures
            handles@.map_values(|r: GcRef<T>| r.slot()) == self@.live,
    {
        let mut handles: Vec<GcRef<T>> = Vec::new();
        let mut k: usize = 0;
        while k < self.values.len()
            invariant
                0 <= k <= self.values@.len(),
                handles@.map_values(|r: GcRef<T>| r.slot()) == self@.live.subrange(0, k as int),
            decreases self.values@.len() - k,
        {
            let ghost shorter = handles@.map_values(|r: GcRef<T>| r.slot());
            handles.push(GcRef::new(self.values[k]));
            k += 1;
            assert(handles@.map_values(|r: GcRef<T>| r.slot()) =~= shorter.push(
                self.values@[k - 1] as int,
            ));
            assert(self@.live.subrange(0, k as int) =~= shorter.push(self.values@[k - 1] as int));
        }
        assert(self@.live.subrange(0, k as int) =~= self@.live);
        handles
    }
}

impl<T: Traceable> GcRef<T> {
    /// Marks the slot of this handle in `heap`, then traces its payload:
    /// every handle that the payload holds is marked in turn. A slot that
    /// carries the flag of the current cycle is left alone, which ends the
    /// recursion on values that reach each other.
    pub fn trace_ref(&self, heap: &mut SimpleGcAllocator<T>)
        requires
            old(heap).wf(),
        ensures
            final(heap).wf(),
            final(heap)@ == old(heap)@.mark(self.slot()),
        decreases old(heap)@.unmarked_slots(),
    {
        let ghost before = heap@;
        let i = self.index();
        if i >= heap.slots.len() {
            proof {
                before.lemma_mark_nothing(i as int);
            }
            return ;
        }
        let flag = heap.flag;
        if heap.slots[i].flag == flag {
            proof {
                before.lemma_mark_nothing(i as int);
            }
            return ;
        }
        heap.slots[i].flag = flag;
        let handles = match &heap.slots[i].value {
            Some(value) => value.trace(),
            None => {
                proof {
                    before.lemma_mark_nothing(i as int);
                    assert(heap@.slots =~= before.slots);
                }
                return ;
            },
        };
        proof {
            assert(heap@.live == before.live);
            before.lemma_tracing_begins(heap@, i as int);
            assert(handles@.map_values(|r: GcRef<T>| r.slot()) == before.children(i as int));
            assert(heap@.wf()) by {
                assert forall|j: int| #[trigger] heap@.holds(j) implies heap@.live.contains(j) by {
                    assert(before.holds(j));
                }
                assert forall|m: int| 0 <= m < heap@.live.len() implies #[trigger] heap@.holds(
                    heap@.live[m],
                ) by {
                    assert(before.holds(before.live[m]));
                }
            }
        }
        let mut k: usize = 0;
        while k < handles.len()
            invariant
                0 <= k <= handles@.len(),
                before.wf(),
                before == old(heap)@,
                heap.wf(),
                before.tracing(heap@, i as int, k as int),
                handles@.map_values(|r: GcRef<T>| r.slot()) == before.children(i as int),
            decreases handles@.len() - k,
        {
            proof {
                before.lemma_tracing_goes_on(heap@, i as int, k as int);
                before.lemma_count_unmarked(heap@, before.slots.len());
                assert(before.children(i as int)[k as int] == handles@[k as int].slot());
            }
            handles[k].trace_ref(heap);
            k += 1;
        }
        proof {
            before.lemma_tracing_ends(heap@, i as int);
        }
    }

    /// The payload of this handle's slot in `heap`. The slot must still hold
    /// one: to ask for the payload of a collected slot is a fault of the
    /// caller, who did not mark a root.
    pub fn deref<'a>(&self, heap: &'a SimpleGcAllocator<T>) -> (payload: &'a T)
        requires
            heap@.holds(self.slot()),
        ensures
            *payload == heap@.slots[self.slot()].value->Some_0,
    {
        match heap.get(self) {
            Some(payload) => payload,
            None => vstd::pervasive::unreached(),
        }
    }
}

} // verus!
