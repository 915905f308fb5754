use lpc_vm::gc::{GcAllocator, GcFlag, GcRef, SimpleGcAllocator, Traceable};
use std::cell::Cell;
use std::rc::Rc;

enum Value {
    Integer(i32),
    Array(Vec<GcRef<Value>>),
}

impl Traceable for Value {
    fn trace(&self) -> Vec<GcRef<Value>> {
        match self {
            Value::Integer(_) => Vec::new(),
            Value::Array(v) => v.clone(),
        }
    }
}

/// A payload that counts how often it is traced.
struct Counted {
    visits: Rc<Cell<u32>>,
    held: Vec<GcRef<Counted>>,
}

impl Traceable for Counted {
    fn trace(&self) -> Vec<GcRef<Counted>> {
        self.visits.set(self.visits.get() + 1);
        self.held.clone()
    }
}

fn indices<T: Traceable>(handles: &[GcRef<T>]) -> Vec<usize> {
    handles.iter().map(|v| v.index()).collect()
}

#[test]
fn test_gc() {
    let mut gc: SimpleGcAllocator<Value> = Default::default();
    let int1 = gc.allocate(Value::Integer(1));
    let int2 = gc.allocate(Value::Integer(2));
    let int3 = gc.allocate(Value::Integer(3));
    let _int4 = gc.allocate(Value::Integer(4));
    let arr1 = gc.allocate(Value::Array(vec![int1.clone()]));
    let _arr2 = gc.allocate(Value::Array(vec![int1.clone(), int2.clone()]));

    // Mark & sweep
    gc.mark(arr1.clone());
    gc.mark(int3.clone());
    gc.sweep();

    assert_eq!(gc.values().len(), 3);
    assert_eq!(
        gc.values().iter().map(|v| v.index()).collect::<Vec<_>>(),
        vec![int1, int3, arr1].iter().map(|v| v.index()).collect::<Vec<_>>(),
    );
}

#[test]
fn a_new_allocator_has_no_live_slot() {
    let gc: SimpleGcAllocator<Value> = Default::default();
    assert!(gc.values().is_empty());
}

#[test]
fn allocation_numbers_slots_in_order_and_keeps_the_others() {
    let mut gc: SimpleGcAllocator<Value> = Default::default();
    let a = gc.allocate(Value::Integer(10));
    let b = gc.allocate(Value::Integer(20));
    let c = gc.allocate(Value::Array(vec![a, b]));
    assert_eq!(a.index(), 0);
    assert_eq!(b.index(), 1);
    assert_eq!(c.index(), 2);
    assert_eq!(indices(&gc.values()), vec![0, 1, 2]);
    assert!(matches!(gc.get(&a), Some(Value::Integer(10))));
    assert!(matches!(gc.get(&b), Some(Value::Integer(20))));
    match gc.get(&c) {
        Some(Value::Array(held)) => assert_eq!(indices(held), vec![0, 1]),
        _ => panic!("the container lost its payload"),
    }
}

#[test]
fn deref_gives_the_payload_of_a_live_slot() {
    let mut gc: SimpleGcAllocator<Value> = Default::default();
    let a = gc.allocate(Value::Integer(7));
    assert!(matches!(a.deref(&gc), Value::Integer(7)));
    gc.mark(a);
    gc.sweep();
    assert!(matches!(a.deref(&gc), Value::Integer(7)));
}

#[test]
fn handles_compare_by_slot() {
    let mut gc: SimpleGcAllocator<Value> = Default::default();
    let a = gc.allocate(Value::Integer(1));
    let b = gc.allocate(Value::Integer(1));
    let again = a.clone();
    assert!(a == again);
    assert!(a != b);
}

#[test]
fn sweep_keeps_a_container_its_two_members_and_a_marked_leaf() {
    let mut gc: SimpleGcAllocator<Value> = Default::default();
    let first = gc.allocate(Value::Integer(1));
    let second = gc.allocate(Value::Integer(2));
    let lonely = gc.allocate(Value::Integer(3));
    let unmarked = gc.allocate(Value::Integer(4));
    let container = gc.allocate(Value::Array(vec![first, second]));

    gc.mark(container);
    gc.mark(lonely);
    gc.sweep();

    assert_eq!(
        indices(&gc.values()),
        indices(&[first, second, lonely, container]),
    );
    assert!(gc.get(&unmarked).is_none());
    assert!(matches!(gc.get(&first), Some(Value::Integer(1))));
    assert!(matches!(gc.get(&second), Some(Value::Integer(2))));
    assert!(matches!(gc.get(&lonely), Some(Value::Integer(3))));
    assert!(matches!(gc.get(&container), Some(Value::Array(_))));
}

#[test]
fn sweep_follows_handles_through_nested_containers() {
    let mut gc: SimpleGcAllocator<Value> = Default::default();
    let leaf = gc.allocate(Value::Integer(1));
    let other = gc.allocate(Value::Integer(2));
    let inner = gc.allocate(Value::Array(vec![leaf]));
    let outer = gc.allocate(Value::Array(vec![inner]));

    gc.mark(outer);
    gc.sweep();

    assert_eq!(indices(&gc.values()), indices(&[leaf, inner, outer]));
    assert!(gc.get(&other).is_none());
}

#[test]
fn sweep_without_marks_releases_everything() {
    let mut gc: SimpleGcAllocator<Value> = Default::default();
    let a = gc.allocate(Value::Integer(1));
    let b = gc.allocate(Value::Array(vec![a]));
    gc.sweep();
    assert!(gc.values().is_empty());
    assert!(gc.get(&a).is_none());
    assert!(gc.get(&b).is_none());
}

#[test]
fn marking_twice_traces_once() {
    let visits = Rc::new(Cell::new(0));
    let mut gc: SimpleGcAllocator<Counted> = Default::default();
    let leaf = gc.allocate(Counted { visits: Rc::new(Cell::new(0)), held: Vec::new() });
    let root = gc.allocate(Counted { visits: visits.clone(), held: vec![leaf, leaf] });

    gc.mark(root);
    assert_eq!(visits.get(), 1);
    gc.mark(root);
    assert_eq!(visits.get(), 1);
    match gc.get(&leaf) {
        Some(counted) => assert_eq!(counted.visits.get(), 1),
        None => panic!("the leaf lost its payload"),
    }

    gc.sweep();
    assert_eq!(indices(&gc.values()), indices(&[leaf, root]));
}

#[test]
fn marking_ends_on_values_that_reach_each_other() {
    // Handles with the numbers of slots that do not exist yet, from another
    // allocator of the same payload type.
    let mut other: SimpleGcAllocator<Counted> = Default::default();
    let zero = other.allocate(Counted { visits: Rc::new(Cell::new(0)), held: Vec::new() });
    let one = other.allocate(Counted { visits: Rc::new(Cell::new(0)), held: Vec::new() });

    let first_visits = Rc::new(Cell::new(0));
    let second_visits = Rc::new(Cell::new(0));
    let mut gc: SimpleGcAllocator<Counted> = Default::default();
    let first = gc.allocate(Counted { visits: first_visits.clone(), held: vec![one] });
    let second = gc.allocate(Counted { visits: second_visits.clone(), held: vec![zero, one] });
    assert_eq!(first.index(), zero.index());
    assert_eq!(second.index(), one.index());

    gc.mark(first);
    assert_eq!(first_visits.get(), 1);
    assert_eq!(second_visits.get(), 1);

    gc.sweep();
    assert_eq!(indices(&gc.values()), vec![0, 1]);
}

#[test]
fn a_handle_into_a_released_slot_finds_nothing() {
    let mut gc: SimpleGcAllocator<Value> = Default::default();
    let kept = gc.allocate(Value::Integer(1));
    let stale = gc.allocate(Value::Integer(2));
    gc.mark(kept);
    gc.sweep();

    assert!(gc.get(&stale).is_none());
    assert!(matches!(gc.get(&kept), Some(Value::Integer(1))));

    // The allocator goes on working, with the stale handle and without it.
    gc.mark(stale);
    let fresh = gc.allocate(Value::Array(vec![stale, kept]));
    assert_eq!(fresh.index(), 2);
    gc.mark(fresh);
    gc.sweep();
    assert_eq!(indices(&gc.values()), indices(&[kept, fresh]));
    assert!(gc.get(&stale).is_none());

    gc.sweep();
    assert!(gc.values().is_empty());
    assert!(gc.get(&kept).is_none());
    assert!(gc.get(&fresh).is_none());
    let again = gc.allocate(Value::Integer(3));
    assert_eq!(again.index(), 3);
    assert_eq!(indices(&gc.values()), vec![3]);
}

#[test]
fn a_handle_of_another_allocator_finds_nothing_where_no_slot_is() {
    let mut other: SimpleGcAllocator<Value> = Default::default();
    other.allocate(Value::Integer(0));
    let foreign = other.allocate(Value::Integer(1));

    let mut gc: SimpleGcAllocator<Value> = Default::default();
    let own = gc.allocate(Value::Integer(5));
    assert!(gc.get(&foreign).is_none());
    gc.mark(foreign);
    gc.sweep();
    assert!(gc.values().is_empty());
    assert!(gc.get(&own).is_none());
}

#[test]
fn a_mark_lasts_for_one_cycle() {
    let mut gc: SimpleGcAllocator<Value> = Default::default();
    let a = gc.allocate(Value::Integer(1));
    let b = gc.allocate(Value::Integer(2));

    gc.mark(a);
    gc.mark(b);
    gc.sweep();
    assert_eq!(indices(&gc.values()), vec![0, 1]);

    // Marked in the first cycle only: released by the second sweep.
    gc.mark(b);
    gc.sweep();
    assert_eq!(indices(&gc.values()), vec![1]);

    // The flag of the third cycle is that of the first again.
    gc.sweep();
    assert!(gc.values().is_empty());
}

#[test]
fn a_slot_allocated_after_marking_is_released_unless_marked() {
    let mut gc: SimpleGcAllocator<Value> = Default::default();
    let root = gc.allocate(Value::Integer(1));
    gc.mark(root);
    let late = gc.allocate(Value::Integer(2));
    let late_marked = gc.allocate(Value::Array(vec![root]));
    gc.mark(late_marked);
    gc.sweep();
    assert_eq!(indices(&gc.values()), indices(&[root, late_marked]));
    assert!(gc.get(&late).is_none());
}

#[test]
fn the_flag_of_a_new_slot_is_always_the_same() {
    assert_eq!(GcFlag::default(), GcFlag::default());
}
