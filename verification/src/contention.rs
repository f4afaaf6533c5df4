//! What contention can and cannot do: racing pops deliver each value to at
//! most one winner, racing read-modify-writes on one index lose no update,
//! and operations on distinct indices neither disturb one another nor
//! invalidate one another's index. Operations are atomic steps, so a race
//! of `n` calls is some interleaving of `n` single steps; these runners
//! take the steps in schedule order and pin down the outcome every
//! interleaving shares.

use vstd::prelude::*;

use crate::array::{ConcurrentArray, IndexError};
use crate::stack::ConcurrentStack;

verus! {

/// Any number of pop calls racing against the stack: the first `K` (the
/// stack's length, if that many were attempted) each win one value, in
/// top-first order, every later call reports empty, and no value is ever
/// delivered twice.
pub fn racing_stack_pops<T: Copy>(target: &mut ConcurrentStack<T>, attempts: usize) -> (r: Vec<
    Option<T>,
>)
    ensures
        r@.len() == attempts as int,
        forall|j: int|
            0 <= j < attempts ==> #[trigger] r@[j] == if j < old(target)@.len() {
                Some(old(target)@[j])
            } else {
                None::<T>
            },
        final(target)@ == if attempts <= old(target)@.len() {
            old(target)@.skip(attempts as int)
        } else {
            Seq::<T>::empty()
        },
{
    let ghost initial = target@;
    proof {
        assert(initial.skip(0) =~= initial);
    }
    let mut results: Vec<Option<T>> = Vec::new();
    let mut a: usize = 0;
    while a < attempts
        invariant
            a <= attempts,
            results@.len() == a,
            forall|j: int|
                0 <= j < a ==> #[trigger] results@[j] == if j < initial.len() {
                    Some(initial[j])
                } else {
                    None::<T>
                },
            target@ == if a <= initial.len() {
                initial.skip(a as int)
            } else {
                Seq::<T>::empty()
            },
        decreases attempts - a,
    {
        let won = target.pop();
        proof {
            if a < initial.len() {
                assert(initial.skip(a as int)[0] == initial[a as int]);
                assert(initial.skip(a as int).drop_first() =~= initial.skip(a + 1));
            } else {
                assert(target@.len() == 0);
                if a + 1 <= initial.len() {
                    assert(initial.skip(a + 1) =~= Seq::<T>::empty());
                }
            }
        }
        results.push(won);
        a = a + 1;
    }
    results
}

/// The same race against the array: pops remove from the end, so the
/// winners receive the values newest-first, each exactly once, and every
/// attempt past the original length reports empty.
pub fn racing_array_pops<T: Copy>(target: &mut ConcurrentArray<T>, attempts: usize) -> (r: Vec<
    Option<T>,
>)
    ensures
        r@.len() == attempts as int,
        forall|j: int|
            0 <= j < attempts ==> #[trigger] r@[j] == if j < old(target)@.len() {
                Some(old(target)@[old(target)@.len() - 1 - j])
            } else {
                None::<T>
            },
        final(target)@ == if attempts <= old(target)@.len() {
            old(target)@.take(old(target)@.len() - attempts)
        } else {
            Seq::<T>::empty()
        },
{
    let ghost initial = target@;
    proof {
        assert(initial.take(initial.len() as int) =~= initial);
    }
    let mut results: Vec<Option<T>> = Vec::new();
    let mut a: usize = 0;
    while a < attempts
        invariant
            a <= attempts,
            results@.len() == a,
            forall|j: int|
                0 <= j < a ==> #[trigger] results@[j] == if j < initial.len() {
                    Some(initial[initial.len() - 1 - j])
                } else {
                    None::<T>
                },
            target@ == if a <= initial.len() {
                initial.take(initial.len() - a as int)
            } else {
                Seq::<T>::empty()
            },
        decreases attempts - a,
    {
        let won = target.pop();
        proof {
            if a < initial.len() {
                let remaining = initial.take(initial.len() - a as int);
                assert(remaining.last() == initial[initial.len() - 1 - a as int]);
                assert(remaining.drop_last() =~= initial.take(initial.len() - (a + 1)));
            } else {
                assert(target@.len() == 0);
                if a + 1 <= initial.len() {
                    assert(initial.take(initial.len() - (a + 1)) =~= Seq::<T>::empty());
                }
            }
        }
        results.push(won);
        a = a + 1;
    }
    results
}

/// Per-index atomicity: `workers` racing read-modify-write increments on
/// one index, in whatever order the scheduler interleaves them, leave the
/// slot grown by exactly `workers` — no update is lost.
pub fn racing_increments(target: &mut ConcurrentArray<i32>, index: usize, workers: usize)
    requires
        index < old(target)@.len(),
        old(target)@[index as int] + workers <= i32::MAX,
    ensures
        final(target)@ == old(target)@.update(
            index as int,
            (old(target)@[index as int] + workers) as i32,
        ),
{
    let ghost initial = target@;
    proof {
        assert(initial.update(index as int, initial[index as int]) =~= initial);
    }
    let mut done: usize = 0;
    while done < workers
        invariant
            done <= workers,
            index < initial.len(),
            initial[index as int] + workers <= i32::MAX,
            target@ == initial.update(index as int, (initial[index as int] + done) as i32),
        decreases workers - done,
    {
        let increment = |v: i32| -> (r: i32)
            requires
                v < i32::MAX,
            ensures
                r == v + 1,
            { v + 1 };
        let ghost before = target@;
        let _ = target.inspect_element(index, increment);
        proof {
            let w = choose|w: i32|
                call_ensures(increment, (before[index as int],), w) && target@ == before.update(
                    index as int,
                    w,
                );
            assert(w == before[index as int] + 1);
            assert(target@ =~= initial.update(
                index as int,
                (initial[index as int] + done + 1) as i32,
            ));
        }
        done = done + 1;
    }
}

/// Cross-index independence, on the model: read-modify-writes on two
/// distinct indices commute, and neither removes the other's index, so
/// neither racer can make the other fail.
pub proof fn lemma_cross_index_independence(s: Seq<i32>, i: int, j: int, u: i32, v: i32)
    requires
        0 <= i < s.len(),
        0 <= j < s.len(),
        i != j,
    ensures
        s.update(i, u).update(j, v) == s.update(j, v).update(i, u),
        s.update(i, u).len() == s.len(),
{
    assert(s.update(i, u).update(j, v) =~= s.update(j, v).update(i, u));
}

/// Whether the slot at `index` carries a result of the racer's own mutator
/// applied to the value the slot held before the race began.
pub open spec fn racer_done<F: Fn(usize, i32) -> i32>(mutate: F, before: Seq<i32>, after: Seq<i32>, index: usize) -> bool {
    exists|v: i32|
        #[trigger] call_ensures(mutate, (index, before[index as int]), v) && after[index as int]
            == v
}

/// Any number of racing `inspect_element` calls on pairwise-distinct
/// in-bounds indices, one atomic read-modify-write per scheduler turn, the
/// racer at `indices[a]` applying `mutate` to its own index and slot. None
/// raises an error, the length never changes, every untouched slot keeps
/// its value, and each racer's slot carries a result of its own mutator
/// applied to the value the slot held before the whole race — no racer
/// ever observes or disturbs another.
pub fn racing_distinct_inspects<F: Fn(usize, i32) -> i32 + Copy>(
    target: &mut ConcurrentArray<i32>,
    indices: &Vec<usize>,
    mutate: F,
) -> (r: Vec<Result<(), IndexError>>)
    requires
        forall|a: int, b: int|
            0 <= a < b < indices@.len() ==> indices@[a] != indices@[b],
        forall|a: int| 0 <= a < indices@.len() ==> #[trigger] indices@[a] < old(target)@.len(),
        forall|a: int|
            0 <= a < indices@.len() ==> call_requires(
                mutate,
                (indices@[a], old(target)@[#[trigger] indices@[a] as int]),
            ),
    ensures
        r@.len() == indices@.len(),
        forall|a: int| 0 <= a < indices@.len() ==> #[trigger] r@[a] == Ok::<(), IndexError>(()),
        final(target)@.len() == old(target)@.len(),
        forall|j: int|
            0 <= j < old(target)@.len() && !indices@.contains(j as usize)
                ==> #[trigger] final(target)@[j] == old(target)@[j],
        forall|a: int|
            0 <= a < indices@.len() ==> racer_done(
                mutate,
                old(target)@,
                final(target)@,
                #[trigger] indices@[a],
            ),
{
    let ghost initial = target@;
    let mut results: Vec<Result<(), IndexError>> = Vec::new();
    let mut k: usize = 0;
    while k < indices.len()
        invariant
            k <= indices@.len(),
            results@.len() == k,
            forall|a: int, b: int|
                0 <= a < b < indices@.len() ==> indices@[a] != indices@[b],
            forall|a: int| 0 <= a < indices@.len() ==> #[trigger] indices@[a] < initial.len(),
            forall|a: int|
                0 <= a < indices@.len() ==> call_requires(
                    mutate,
                    (indices@[a], initial[#[trigger] indices@[a] as int]),
                ),
            target@.len() == initial.len(),
            forall|a: int| 0 <= a < k ==> #[trigger] results@[a] == Ok::<(), IndexError>(()),
            forall|j: int|
                0 <= j < initial.len() && !indices@.take(k as int).contains(j as usize)
                    ==> #[trigger] target@[j] == initial[j],
            forall|a: int|
                0 <= a < k ==> racer_done(mutate, initial, target@, #[trigger] indices@[a]),
        decreases indices@.len() - k,
    {
        let index = indices[k];
        proof {
            assert(!indices@.take(k as int).contains(index)) by {
                if indices@.take(k as int).contains(index) {
                    let a = choose|a: int|
                        0 <= a < k && indices@.take(k as int)[a] == index;
                    assert(indices@[a] == indices@[k as int]);
                }
            }
            assert(target@[index as int] == initial[index as int]);
        }
        let here = index;
        let racer = |slot: i32| -> (out: i32)
            requires
                call_requires(mutate, (here, slot)),
            ensures
                call_ensures(mutate, (here, slot), out),
            { mutate(here, slot) };
        let ghost before = target@;
        let outcome = target.inspect_element(index, racer);
        results.push(outcome);
        proof {
            let v = choose|v: i32|
                call_ensures(racer, (before[index as int],), v) && target@ == before.update(
                    index as int,
                    v,
                );
            assert(call_ensures(mutate, (index, initial[index as int]), v));
            assert(indices@.take(k + 1) =~= indices@.take(k as int).push(index));
            assert forall|j: int|
                0 <= j < initial.len() && !indices@.take(k + 1).contains(j as usize)
                    implies #[trigger] target@[j] == initial[j] by {
                assert(!indices@.take(k as int).contains(j as usize)) by {
                    if indices@.take(k as int).contains(j as usize) {
                        let a = choose|a: int|
                            0 <= a < k && indices@.take(k as int)[a] == j as usize;
                        assert(indices@.take(k + 1)[a] == j as usize);
                        assert(indices@.take(k + 1).contains(j as usize));
                    }
                }
                assert(j != index) by {
                    assert(indices@.take(k + 1)[k as int] == index);
                }
            }
            assert forall|a: int|
                0 <= a < k + 1 implies racer_done(
                mutate,
                initial,
                target@,
                #[trigger] indices@[a],
            ) by {
                if a < k {
                    let v2 = choose|v2: i32|
                        #[trigger] call_ensures(
                            mutate,
                            (indices@[a], initial[indices@[a] as int]),
                            v2,
                        ) && before[indices@[a] as int] == v2;
                    assert(indices@[a] != index) by {
                        assert(indices@.take(k + 1)[a] == indices@[a]);
                        assert(indices@.take(k + 1)[k as int] == index);
                    }
                    assert(target@[indices@[a] as int] == v2);
                } else {
                    assert(call_ensures(mutate, (indices@[a], initial[indices@[a] as int]), v)
                        && target@[indices@[a] as int] == v);
                }
            }
        }
        k = k + 1;
    }
    proof {
        assert(indices@.take(indices@.len() as int) =~= indices@);
    }
    results
}

/// Two racing `inspect_element` calls on distinct in-bounds indices: both
/// succeed — neither raises an error or blocks the other — and each slot
/// carries its own mutator's result.
pub fn inspect_distinct_pair<F: Fn(i32) -> i32, G: Fn(i32) -> i32>(
    target: &mut ConcurrentArray<i32>,
    i: usize,
    j: usize,
    f: F,
    g: G,
) -> (r: (Result<(), IndexError>, Result<(), IndexError>))
    requires
        i != j,
        i < old(target)@.len(),
        j < old(target)@.len(),
        call_requires(f, (old(target)@[i as int],)),
        call_requires(g, (old(target)@[j as int],)),
    ensures
        r.0 == Ok::<(), IndexError>(()),
        r.1 == Ok::<(), IndexError>(()),
        final(target)@.len() == old(target)@.len(),
        exists|a: i32, b: i32|
            #[trigger] call_ensures(f, (old(target)@[i as int],), a) && #[trigger] call_ensures(
                g,
                (old(target)@[j as int],),
                b,
            ) && final(target)@ == old(target)@.update(i as int, a).update(j as int, b),
{
    let ghost initial = target@;
    let first = target.inspect_element(i, f);
    proof {
        let a = choose|a: i32|
            call_ensures(f, (initial[i as int],), a) && target@ == initial.update(i as int, a);
        assert(target@[j as int] == initial[j as int]);
    }
    let ghost middle = target@;
    let second = target.inspect_element(j, g);
    proof {
        let a = choose|a: i32|
            call_ensures(f, (initial[i as int],), a) && middle == initial.update(i as int, a);
        let b = choose|b: i32|
            call_ensures(g, (middle[j as int],), b) && target@ == middle.update(j as int, b);
        assert(call_ensures(f, (initial[i as int],), a) && call_ensures(
            g,
            (initial[j as int],),
            b,
        ) && target@ == initial.update(i as int, a).update(j as int, b));
    }
    (first, second)
}

} // verus!
