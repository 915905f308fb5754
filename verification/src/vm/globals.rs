//! The global names of a machine: a list of bindings that is read as a map
//! from names to values.

use super::value::{Value, ValueView};
use vstd::prelude::*;

verus! {

/// One name with the value bound to it.
pub struct Binding {
    pub name: String,
    pub value: Value,
}

/// The map that a list of bindings stands for. Where a name occurs more than
/// once, its first binding counts.
pub open spec fn bound(entries: Seq<Binding>) -> Map<Seq<char>, ValueView>
    decreases entries.len(),
{
    if entries.len() == 0 {
        Map::empty()
    } else {
        bound(entries.drop_first()).insert(entries[0].name@, entries[0].value@)
    }
}

/// A name that no binding holds is not in the map.
pub proof fn lemma_bound_absent(entries: Seq<Binding>, name: Seq<char>)
    requires
        forall|j: int| 0 <= j < entries.len() ==> entries[j].name@ != name,
    ensures
        !bound(entries).dom().contains(name),
    decreases entries.len(),
{
    if entries.len() > 0 {
        lemma_bound_absent(entries.drop_first(), name);
    }
}

/// The first binding of a name gives the name's value.
pub proof fn lemma_bound_first(entries: Seq<Binding>, i: int)
    requires
        0 <= i < entries.len(),
        forall|j: int| 0 <= j < i ==> entries[j].name@ != entries[i].name@,
    ensures
        bound(entries).dom().contains(entries[i].name@),
        bound(entries)[entries[i].name@] == entries[i].value@,
    decreases entries.len(),
{
    if i > 0 {
        lemma_bound_first(entries.drop_first(), i - 1);
    }
}

/// Replacing the value of a name's first binding rebinds the name.
pub proof fn lemma_bound_update(entries: Seq<Binding>, i: int, b: Binding)
    requires
        0 <= i < entries.len(),
        forall|j: int| 0 <= j < i ==> entries[j].name@ != entries[i].name@,
        b.name@ == entries[i].name@,
    ensures
        bound(entries.update(i, b)) == bound(entries).insert(b.name@, b.value@),
    decreases entries.len(),
{
    let after = entries.update(i, b);
    if i == 0 {
        assert(after.drop_first() == entries.drop_first());
        assert(bound(after) == bound(entries).insert(b.name@, b.value@));
    } else {
        lemma_bound_update(entries.drop_first(), i - 1, b);
        assert(after.drop_first() == entries.drop_first().update(i - 1, b));
        assert(bound(after) == bound(entries).insert(b.name@, b.value@));
    }
}

/// Appending a binding of a name that no binding holds binds the name.
pub proof fn lemma_bound_push(entries: Seq<Binding>, b: Binding)
    requires
        forall|j: int| 0 <= j < entries.len() ==> entries[j].name@ != b.name@,
    ensures
        bound(entries.push(b)) == bound(entries).insert(b.name@, b.value@),
    decreases entries.len(),
{
    let after = entries.push(b);
    if entries.len() == 0 {
        assert(after.drop_first() == entries);
    } else {
        lemma_bound_push(entries.drop_first(), b);
        assert(after.drop_first() == entries.drop_first().push(b));
        assert(bound(after) == bound(entries).insert(b.name@, b.value@));
    }
}

/// The global names of a machine.
pub struct Globals {
    entries: Vec<Binding>,
}

impl View for Globals {
    type V = Map<Seq<char>, ValueView>;

    closed spec fn view(&self) -> Map<Seq<char>, ValueView> {
        bound(self.entries@)
    }
}

impl Globals {
    /// No name is bound.
    pub fn new() -> (g: Globals)
        ensures
            g@ == Map::<Seq<char>, ValueView>::empty(),
    {
        Globals { entries: Vec::new() }
    }

    /// Index of the first binding of `name`, or the number of bindings where
    /// there is none.
    fn find(&self, name: &String) -> (i: usize)
        ensures
            i <= self.entries@.len(),
            forall|j: int| 0 <= j < i ==> self.entries@[j].name@ != name@,
            i < self.entries@.len() ==> self.entries@[i as int].name@ == name@,
    {
        let mut i: usize = 0;
        while i < self.entries.len()
            invariant
                i <= self.entries@.len(),
                forall|j: int| 0 <= j < i ==> self.entries@[j].name@ != name@,
            decreases self.entries@.len() - i,
        {
            if self.entries[i].name == *name {
                return i;
            }
            i += 1;
        }
        i
    }

    /// The value bound to `name`, if any.
    pub fn get(&self, name: &String) -> (r: Option<Value>)
        ensures
            match r {
                Some(v) => self@.dom().contains(name@) && self@[name@] == v@,
                None => !self@.dom().contains(name@),
            },
    {
        let i = self.find(name);
        if i < self.entries.len() {
            proof {
                lemma_bound_first(self.entries@, i as int);
            }
            Some(self.entries[i].value.clone())
        } else {
            proof {
                lemma_bound_absent(self.entries@, name@);
            }
            None
        }
    }

    /// Binds `name` to `value`, in place of what it was bound to.
    pub fn set(&mut self, name: String, value: Value)
        ensures
            final(self)@ == old(self)@.insert(name@, value@),
    {
        let i = self.find(&name);
        let binding = Binding { name, value };
        if i < self.entries.len() {
            proof {
                lemma_bound_update(self.entries@, i as int, binding);
            }
            self.entries[i] = binding;
        } else {
            proof {
                lemma_bound_push(self.entries@, binding);
            }
            self.entries.push(binding);
        }
    }
}

} // verus!
