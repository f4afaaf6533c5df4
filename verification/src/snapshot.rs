//! The snapshot protocol: the single-threaded display reads a primitive's
//! current contents into an immutable copy, without taking a lock that
//! spans the whole read. The copy is therefore allowed to mix values from
//! temporally adjacent states when workers mutate the primitive between
//! single-element reads; `snapshot_array_during` models exactly that read
//! window, one interfering atomic operation between consecutive reads.

use vstd::prelude::*;

use crate::array::ConcurrentArray;
use crate::stack::ConcurrentStack;

verus! {

/// An immutable ordered copy of a primitive's contents at the instant each
/// element was read. Owned solely by the display until replaced.
pub struct Snapshot<T> {
    items: Vec<T>,
}

impl<T> Snapshot<T> {
    /// The captured contents, in the order they were read.
    pub closed spec fn view(&self) -> Seq<T> {
        self.items@
    }

    /// The number of captured elements.
    pub fn length(&self) -> (r: usize)
        ensures
            r == self@.len(),
    {
        self.items.len()
    }

    /// The captured element at `index`, if the snapshot reaches that far.
    pub fn get(&self, index: usize) -> (r: Option<&T>)
        ensures
            index < self@.len() ==> r == Some(&self@[index as int]),
            index >= self@.len() ==> r is None,
    {
        if index < self.items.len() {
            Some(&self.items[index])
        } else {
            None
        }
    }
}

/// Copies the array's contents by reading `len()` once and then each index
/// in order. With no worker scheduled inside the read window the copy is
/// exact.
pub fn snapshot_array<T: Copy>(source: &ConcurrentArray<T>) -> (r: Snapshot<T>)
    ensures
        r@ == source@,
{
    let len = source.len();
    let mut items: Vec<T> = Vec::new();
    let mut k: usize = 0;
    while k < len
        invariant
            k <= len,
            len == source@.len(),
            items@ == source@.take(k as int),
        decreases len - k,
    {
        match source.read_element(k) {
            Ok(v) => {
                items.push(v);
                proof {
                    assert(items@ =~= source@.take(k + 1));
                }
            },
            Err(_) => {
                proof {
                    assert(false);
                }
            },
        }
        k = k + 1;
    }
    proof {
        assert(source@.take(len as int) =~= source@);
    }
    Snapshot { items }
}

/// Copies the stack's contents, top first. With no worker scheduled inside
/// the read window the copy is exact.
pub fn snapshot_stack<T: Copy>(source: &ConcurrentStack<T>) -> (r: Snapshot<T>)
    ensures
        r@ == source@,
{
    Snapshot { items: source.contents() }
}

/// One atomic operation a racing worker may perform on the array between
/// two single-element reads of the snapshot loop.
pub enum ArrayEvent {
    /// A producer appends a value at the end.
    Push(i32),
    /// A consumer removes the last element, a no-op on an empty array.
    Pop,
    /// A transformer or user action overwrites the slot at the index, a
    /// no-op when the index is out of bounds.
    Mutate(usize, i32),
}

/// The contents after one interfering operation.
pub open spec fn apply_event(s: Seq<i32>, e: ArrayEvent) -> Seq<i32> {
    match e {
        ArrayEvent::Push(v) => s.push(v),
        ArrayEvent::Pop => if s.len() == 0 {
            s
        } else {
            s.drop_last()
        },
        ArrayEvent::Mutate(i, v) => if i < s.len() {
            s.update(i as int, v)
        } else {
            s
        },
    }
}

/// The contents after a sequence of interfering operations, in order.
pub open spec fn run_events(s: Seq<i32>, es: Seq<ArrayEvent>) -> Seq<i32>
    decreases es.len(),
{
    if es.len() == 0 {
        s
    } else {
        run_events(apply_event(s, es[0]), es.drop_first())
    }
}

/// The contents observed after the first `t` interfering operations of the
/// read window have fired.
pub open spec fn state_during(s: Seq<i32>, es: Seq<ArrayEvent>, t: int) -> Seq<i32> {
    run_events(s, es.take(t))
}

/// How many interfering operations have fired by the time the element at
/// `k` is read: one per earlier read, until the window's supply runs out.
pub open spec fn read_instant(events_len: int, k: int) -> int {
    if k + 1 <= events_len {
        k + 1
    } else {
        events_len
    }
}

/// Whether `v` is exactly the value index `j` held at the instant the
/// snapshot loop read it, and the index existed at that instant.
pub open spec fn read_ok(start: Seq<i32>, events: Seq<ArrayEvent>, j: int, v: i32) -> bool {
    &&& j < state_during(start, events, read_instant(events.len() as int, j)).len()
    &&& v == state_during(start, events, read_instant(events.len() as int, j))[j]
}

/// Every captured element equals the value its index held at the instant
/// it was read, and that index existed at that instant.
pub open spec fn reads_consistent(start: Seq<i32>, events: Seq<ArrayEvent>, snap: Seq<i32>) -> bool {
    forall|j: int| 0 <= j < snap.len() ==> #[trigger] read_ok(start, events, j, snap[j])
}

proof fn lemma_run_events_snoc(s: Seq<i32>, es: Seq<ArrayEvent>, e: ArrayEvent)
    ensures
        run_events(s, es.push(e)) == apply_event(run_events(s, es), e),
    decreases es.len(),
{
    let snoc = es.push(e);
    assert(snoc[0] == if es.len() == 0 {
        e
    } else {
        es[0]
    });
    if es.len() == 0 {
        assert(snoc.drop_first() =~= Seq::<ArrayEvent>::empty());
        assert(run_events(s, snoc) == run_events(apply_event(s, e), snoc.drop_first()));
        assert(run_events(apply_event(s, e), snoc.drop_first()) == apply_event(s, e));
        assert(run_events(s, es) == s);
    } else {
        assert(snoc.drop_first() =~= es.drop_first().push(e));
        lemma_run_events_snoc(apply_event(s, es[0]), es.drop_first(), e);
        assert(run_events(s, snoc) == run_events(apply_event(s, es[0]), snoc.drop_first()));
        assert(run_events(s, es) == run_events(apply_event(s, es[0]), es.drop_first()));
    }
}

proof fn lemma_reads_consistent_push(
    start: Seq<i32>,
    events: Seq<ArrayEvent>,
    snap: Seq<i32>,
    v: i32,
)
    requires
        reads_consistent(start, events, snap),
        snap.len() < state_during(
            start,
            events,
            read_instant(events.len() as int, snap.len() as int),
        ).len(),
        v == state_during(start, events, read_instant(events.len() as int, snap.len() as int))[
            snap.len() as int
        ],
    ensures
        reads_consistent(start, events, snap.push(v)),
{
    let grown = snap.push(v);
    assert forall|j: int| 0 <= j < grown.len() implies #[trigger] read_ok(
        start,
        events,
        j,
        grown[j],
    ) by {
        if j < snap.len() {
            assert(grown[j] == snap[j]);
            assert(read_ok(start, events, j, snap[j]));
        } else {
            assert(j == snap.len());
            assert(grown[j] == v);
            assert(read_ok(start, events, j, v));
        }
    }
}

fn apply_array_event(target: &mut ConcurrentArray<i32>, e: &ArrayEvent)
    ensures
        final(target)@ == apply_event(old(target)@, *e),
{
    match e {
        ArrayEvent::Push(v) => {
            target.push(*v);
        },
        ArrayEvent::Pop => {
            let _ = target.pop();
        },
        ArrayEvent::Mutate(i, v) => {
            let value = *v;
            let overwrite = |_current: i32| -> (r: i32)
                ensures
                    r == value,
                { value };
            let ghost pre = target@;
            let ghost index = *i;
            let _ = target.inspect_element(*i, overwrite);
            proof {
                if index < pre.len() {
                    let w = choose|w: i32|
                        call_ensures(overwrite, (pre[index as int],), w) && target@ == pre.update(
                            index as int,
                            w,
                        );
                    assert(w == value);
                }
            }
        },
    }
}

/// Reads `len()` once, then reads indices `0..len` in order, while between
/// consecutive reads one interfering operation fires (taken in order from
/// `events`, as many as the window is long). The read stops early exactly
/// when the next index has vanished under a concurrent shrink; otherwise it
/// covers the whole opening length. Returns the snapshot and the number of
/// interfering operations that fired inside the window, which the read's
/// progress determines.
pub fn snapshot_array_during(target: &mut ConcurrentArray<i32>, events: &Vec<ArrayEvent>) -> (r: (
    Snapshot<i32>,
    usize,
))
    ensures
        r.1 <= events@.len(),
        r.0@.len() <= old(target)@.len(),
        final(target)@ == state_during(old(target)@, events@, r.1 as int),
        reads_consistent(old(target)@, events@, r.0@),
        r.0@.len() == old(target)@.len() || r.0@.len() >= state_during(
            old(target)@,
            events@,
            r.1 as int,
        ).len(),
        r.0@.len() < old(target)@.len() ==> r.1 as int == read_instant(
            events@.len() as int,
            r.0@.len() as int,
        ),
        r.0@.len() == old(target)@.len() ==> r.1 as int == (if old(target)@.len()
            <= events@.len() {
            old(target)@.len() as int
        } else {
            events@.len() as int
        }),
{
    let ghost start = target@;
    let len0 = target.len();
    let mut items: Vec<i32> = Vec::new();
    let mut applied: usize = 0;
    let mut k: usize = 0;
    while k < len0
        invariant_except_break
            k <= len0,
            len0 == start.len(),
            items@.len() == k,
            applied == if k <= events@.len() {
                k as int
            } else {
                events@.len() as int
            },
            target@ == state_during(start, events@, applied as int),
            reads_consistent(start, events@, items@),
        ensures
            applied <= events@.len(),
            items@.len() <= len0,
            target@ == state_during(start, events@, applied as int),
            reads_consistent(start, events@, items@),
            items@.len() == len0 || items@.len() >= target@.len(),
            items@.len() < len0 ==> applied as int == read_instant(
                events@.len() as int,
                items@.len() as int,
            ),
            items@.len() == len0 ==> applied as int == (if len0 <= events@.len() {
                len0 as int
            } else {
                events@.len() as int
            }),
        decreases len0 - k,
    {
        if k < events.len() {
            apply_array_event(target, &events[k]);
            proof {
                assert(events@.take(applied + 1) =~= events@.take(applied as int).push(
                    events@[applied as int],
                ));
                lemma_run_events_snoc(start, events@.take(applied as int), events@[k as int]);
            }
            applied = applied + 1;
        }
        proof {
            assert(applied as int == read_instant(events@.len() as int, k as int));
        }
        match target.read_element(k) {
            Ok(v) => {
                let ghost previous = items@;
                items.push(v);
                proof {
                    lemma_reads_consistent_push(start, events@, previous, v);
                    assert(items@ == previous.push(v));
                }
            },
            Err(_) => {
                proof {
                    assert(items@.len() == k >= target@.len());
                }
                break ;
            },
        }
        k = k + 1;
    }
    proof {
        assert(start == old(target)@);
    }
    (Snapshot { items }, applied)
}

/// Whether index `k` held the value `v` at some state inside the read
/// window that `start` and `events` describe.
pub open spec fn held_during(start: Seq<i32>, events: Seq<ArrayEvent>, k: int, v: i32) -> bool {
    exists|t: int|
        0 <= t <= events.len() && k < state_during(start, events, t).len() && v == #[trigger] state_during(
            start,
            events,
            t,
        )[k]
}

/// Snapshot well-formedness: a snapshot taken while workers mutate the
/// array is no longer than the length observed when the read window opened,
/// and every captured element equals a value its index actually held at
/// some state inside the window.
pub proof fn lemma_snapshot_well_formed(
    start: Seq<i32>,
    events: Seq<ArrayEvent>,
    snap: Seq<i32>,
)
    requires
        reads_consistent(start, events, snap),
    ensures
        forall|k: int| 0 <= k < snap.len() ==> #[trigger] held_during(start, events, k, snap[k]),
{
    assert forall|k: int| 0 <= k < snap.len() implies #[trigger] held_during(
        start,
        events,
        k,
        snap[k],
    ) by {
        let t = read_instant(events.len() as int, k);
        assert(read_ok(start, events, k, snap[k]));
        assert(0 <= t <= events.len() && k < state_during(start, events, t).len() && snap[k]
            == state_during(start, events, t)[k]);
    }
}

} // verus!
