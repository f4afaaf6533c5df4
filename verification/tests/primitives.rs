use concurrent_prims::array::{ConcurrentArray, IndexError};
use concurrent_prims::log::{ActivityLog, LOG_CAPACITY};
use concurrent_prims::snapshot::{snapshot_array, snapshot_array_during, snapshot_stack, ArrayEvent};
use concurrent_prims::stack::ConcurrentStack;
use concurrent_prims::transforms::click_cell;

#[test]
fn stack_pushes_then_pops_in_reverse_order() {
    let mut stack: ConcurrentStack<i32> = ConcurrentStack::new();
    stack.push(1);
    stack.push(2);
    stack.push(3);
    assert_eq!(stack.pop(), Some(3));
    assert_eq!(stack.pop(), Some(2));
    assert_eq!(stack.pop(), Some(1));
    assert_eq!(stack.pop(), None);
}

#[test]
fn stack_len_is_derived_from_the_chain() {
    let mut stack: ConcurrentStack<i32> = ConcurrentStack::new();
    assert_eq!(stack.len(), 0);
    stack.push(10);
    stack.push(20);
    assert_eq!(stack.len(), 2);
    stack.pop();
    assert_eq!(stack.len(), 1);
}

#[test]
fn stack_contents_are_read_top_first() {
    let mut stack: ConcurrentStack<i32> = ConcurrentStack::new();
    stack.push(7);
    stack.push(8);
    let contents = stack.contents();
    assert_eq!(contents, vec![8, 7]);
    assert_eq!(stack.len(), 2);
}

#[test]
fn array_pushes_appends_and_pop_removes_last() {
    let mut array: ConcurrentArray<i32> = ConcurrentArray::new();
    assert_eq!(array.len(), 0);
    array.push(4);
    array.push(5);
    assert_eq!(array.len(), 2);
    assert_eq!(array.pop(), Some(5));
    assert_eq!(array.pop(), Some(4));
    assert_eq!(array.pop(), None);
}

#[test]
fn array_read_element_guards_the_bounds() {
    let mut array: ConcurrentArray<i32> = ConcurrentArray::new();
    array.push(11);
    array.push(22);
    assert_eq!(array.read_element(0), Ok(11));
    assert_eq!(array.read_element(1), Ok(22));
    assert_eq!(array.read_element(2), Err(IndexError::OutOfBounds));
}

#[test]
fn inspect_element_applies_the_mutator_atomically() {
    let mut array: ConcurrentArray<i32> = ConcurrentArray::new();
    array.push(6);
    array.push(9);
    let outcome = array.inspect_element(1, |v| v * 2);
    assert_eq!(outcome, Ok(()));
    assert_eq!(array.read_element(0), Ok(6));
    assert_eq!(array.read_element(1), Ok(18));
}

#[test]
fn inspect_element_rejects_an_out_of_bounds_index() {
    let mut array: ConcurrentArray<i32> = ConcurrentArray::new();
    array.push(1);
    array.push(2);
    let len = array.len();
    let outcome = array.inspect_element(len, |v| v + 1000);
    assert_eq!(outcome, Err(IndexError::OutOfBounds));
    assert_eq!(array.read_element(0), Ok(1));
    assert_eq!(array.read_element(1), Ok(2));

    let mut empty: ConcurrentArray<i32> = ConcurrentArray::new();
    assert_eq!(empty.inspect_element(0, |v| v + 1), Err(IndexError::OutOfBounds));
    assert_eq!(empty.len(), 0);
}

#[test]
fn click_cell_wraps_and_guards_bounds() {
    let mut array: ConcurrentArray<i32> = ConcurrentArray::new();
    array.push(999);
    array.push(-5);
    assert_eq!(click_cell(&mut array, 0), Ok(()));
    assert_eq!(array.read_element(0), Ok(0));
    assert_eq!(click_cell(&mut array, 1), Ok(()));
    assert_eq!(array.read_element(1), Ok(996));
    assert_eq!(click_cell(&mut array, 2), Err(IndexError::OutOfBounds));
}

#[test]
fn snapshot_of_a_quiet_array_is_exact() {
    let mut array: ConcurrentArray<i32> = ConcurrentArray::new();
    array.push(10);
    array.push(20);
    array.push(30);
    let snap = snapshot_array(&array);
    assert_eq!(snap.length(), 3);
    assert_eq!(snap.get(0), Some(&10));
    assert_eq!(snap.get(1), Some(&20));
    assert_eq!(snap.get(2), Some(&30));
    assert_eq!(snap.get(3), None);
}

#[test]
fn snapshot_of_a_quiet_stack_is_exact() {
    let mut stack: ConcurrentStack<i32> = ConcurrentStack::new();
    stack.push(1);
    stack.push(2);
    let snap = snapshot_stack(&stack);
    assert_eq!(snap.length(), 2);
    assert_eq!(snap.get(0), Some(&2));
    assert_eq!(snap.get(1), Some(&1));
}

#[test]
fn snapshot_under_shrinking_stops_early_and_stays_bounded() {
    let mut array: ConcurrentArray<i32> = ConcurrentArray::new();
    array.push(10);
    array.push(20);
    array.push(30);
    let events = vec![ArrayEvent::Pop, ArrayEvent::Pop, ArrayEvent::Pop];
    let (snap, fired) = snapshot_array_during(&mut array, &events);
    // One pop fires before each read: the first read still sees index 0,
    // the second finds index 1 already gone.
    assert_eq!(snap.length(), 1);
    assert_eq!(snap.get(0), Some(&10));
    assert_eq!(fired, 2);
    assert_eq!(array.len(), 1);
}

#[test]
fn snapshot_under_mutation_mixes_adjacent_states() {
    let mut array: ConcurrentArray<i32> = ConcurrentArray::new();
    array.push(10);
    array.push(20);
    array.push(30);
    let events = vec![ArrayEvent::Mutate(2, 99), ArrayEvent::Mutate(0, 55)];
    let (snap, fired) = snapshot_array_during(&mut array, &events);
    assert_eq!(fired, 2);
    assert_eq!(snap.length(), 3);
    // Index 0 was read before its overwrite, index 2 after its own.
    assert_eq!(snap.get(0), Some(&10));
    assert_eq!(snap.get(1), Some(&20));
    assert_eq!(snap.get(2), Some(&99));
    assert_eq!(array.read_element(0), Ok(55));
}

#[test]
fn snapshot_under_growth_keeps_the_opening_length() {
    let mut array: ConcurrentArray<i32> = ConcurrentArray::new();
    array.push(1);
    array.push(2);
    let events = vec![ArrayEvent::Push(77), ArrayEvent::Push(88)];
    let (snap, fired) = snapshot_array_during(&mut array, &events);
    assert_eq!(fired, 2);
    assert_eq!(snap.length(), 2);
    assert_eq!(snap.get(0), Some(&1));
    assert_eq!(snap.get(1), Some(&2));
    assert_eq!(array.len(), 4);
}

#[test]
fn activity_log_evicts_the_oldest_beyond_capacity() {
    let mut log = ActivityLog::new();
    assert_eq!(log.len(), 0);
    for i in 0..(LOG_CAPACITY + 2) {
        log.append(format!("entry {}", i));
    }
    assert_eq!(log.len(), LOG_CAPACITY);
    let entries = log.entries();
    assert_eq!(entries[0], "entry 2");
    assert_eq!(entries[LOG_CAPACITY - 1], format!("entry {}", LOG_CAPACITY + 1));
}
