//! Epoch flags, handles, and the capability of being traced.

use std::marker::PhantomData;
use vstd::prelude::*;
use vstd::std_specs::cmp::PartialEqSpecImpl;

verus! {

/// An epoch marker. The allocator's current flag alternates between two
/// cycle values; a slot is created with a third, which is neither.
#[derive(Clone, Copy, Debug, PartialEq, Eq, Structural)]
pub struct GcFlag(u8);

impl GcFlag {
    /// The flag that a new slot starts with: that of no cycle.
    pub closed spec fn unused() -> GcFlag {
        GcFlag(0)
    }

    /// The flag of the first cycle.
    pub closed spec fn initial() -> GcFlag {
        GcFlag(1)
    }

    /// Whether this is one of the two values that a cycle can have.
    pub closed spec fn is_cycle(self) -> bool {
        self.0 == 1 || self.0 == 2
    }

    /// The flag of the cycle that follows the cycle of this flag.
    pub closed spec fn next(self) -> GcFlag {
        if self.0 == 1 {
            GcFlag(2)
        } else {
            GcFlag(1)
        }
    }

    /// The flag of the first cycle.
    pub(crate) fn first() -> (flag: GcFlag)
        ensures
            flag == GcFlag::initial(),
    {
        GcFlag(1)
    }

    /// The flag of the cycle after this one.
    pub(crate) fn flip(self) -> (flag: GcFlag)
        ensures
            flag == self.next(),
    {
        GcFlag(
            match self.0 {
                1 => 2,
                _ => 1,
            },
        )
    }
}

impl Default for GcFlag {
    /// The flag that a new slot starts with.
    fn default() -> (flag: GcFlag)
        ensures
            flag == GcFlag::unused(),
    {
        GcFlag(0)
    }
}

/// The two cycle flags take turns, and neither is the flag of a new slot.
pub proof fn lemma_flags(flag: GcFlag)
    ensures
        !GcFlag::unused().is_cycle(),
        GcFlag::initial().is_cycle(),
        flag.next().is_cycle(),
        flag.next() != flag,
        flag.is_cycle() ==> flag.next().next() == flag,
{
}

/// A copyable handle to a slot of an allocator. It does not own the slot,
/// and may outlive the slot's payload.
pub struct GcRef<T: Traceable> {
    index: usize,
    phantom: PhantomData<T>,
}

/// A value that can say which handles it holds.
pub trait Traceable: Sized {
    /// The handles that this value holds, in the order in which it hands
    /// them out. Unless a type says otherwise, its values hold none.
    open spec fn held(&self) -> Seq<GcRef<Self>> {
        Seq::empty()
    }

    /// Hands out every handle that this value holds.
    fn trace(&self) -> (handles: Vec<GcRef<Self>>)
        ensures
            handles@ == self.held(),
    ;
}

impl<T: Traceable> GcRef<T> {
    /// The number of the slot that this handle refers to.
    pub closed spec fn slot(self) -> int {
        self.index as int
    }

    /// A slot number is that of a place in a vector.
    pub proof fn lemma_slot_bounds(self)
        ensures
            0 <= self.slot() <= usize::MAX,
    {
    }

    /// The handle to the slot of number `index`.
    pub(crate) fn new(index: usize) -> (handle: GcRef<T>)
        ensures
            handle.slot() == index,
    {
        GcRef { index, phantom: PhantomData }
    }

    /// The number of the slot that this handle refers to.
    pub fn index(&self) -> (index: usize)
        ensures
            index == self.slot(),
    {
        self.index
    }
}

impl<T: Traceable> Clone for GcRef<T> {
    fn clone(&self) -> (handle: GcRef<T>)
        ensures
            handle == *self,
    {
        GcRef { index: self.index, phantom: PhantomData }
    }
}

impl<T: Traceable> Copy for GcRef<T> {

}

impl<T: Traceable> PartialEq for GcRef<T> {
    fn eq(&self, other: &GcRef<T>) -> (equal: bool) {
        self.index == other.index
    }
}

impl<T: Traceable> PartialEqSpecImpl for GcRef<T> {
    open spec fn obeys_eq_spec() -> bool {
        true
    }

    open spec fn eq_spec(&self, other: &GcRef<T>) -> bool {
        self.slot() == other.slot()
    }
}

} // verus!
