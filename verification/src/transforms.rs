//! The element transforms that workloads apply through `inspect_element`,
//! together with the small arithmetic helpers they need. Every transform is
//! total: a worker may meet any value in a slot, including one written by a
//! racing worker or a user action.

use vstd::prelude::*;

use crate::array::{ConcurrentArray, IndexError};

verus! {

/// Addition on `i32` that wraps around on overflow, for small deltas.
pub open spec fn wrap_add32(v: i32, d: int) -> i32 {
    if v + d > i32::MAX {
        (v + d - 0x1_0000_0000) as i32
    } else if v + d < i32::MIN {
        (v + d + 0x1_0000_0000) as i32
    } else {
        (v + d) as i32
    }
}

/// Adds a small delta to `v`, wrapping around on overflow.
pub fn add_wrapped(v: i32, d: i32) -> (r: i32)
    requires
        -1000 <= d <= 1000,
    ensures
        r == wrap_add32(v, d as int),
{
    let sum: i64 = v as i64 + d as i64;
    if sum > i32::MAX as i64 {
        (sum - 0x1_0000_0000) as i32
    } else if sum < i32::MIN as i64 {
        (sum + 0x1_0000_0000) as i32
    } else {
        sum as i32
    }
}

/// The Euclidean remainder of `x` modulo `m`: always in `[0, m)`.
pub fn euclid_mod(x: i64, m: i64) -> (r: i64)
    requires
        1 <= m <= 0x10000,
        -0x2_0000_0000_0000 <= x <= 0x2_0000_0000_0000,
    ensures
        r == x % m,
        0 <= r < m,
{
    if x >= 0 {
        ((x as u64) % (m as u64)) as i64
    } else {
        let neg = -x;
        let p = ((neg as u64) % (m as u64)) as i64;
        proof {
            let n = neg as int;
            let mi = m as int;
            let q = n / mi;
            vstd::arithmetic::div_mod::lemma_fundamental_div_mod(n, mi);
        }
        if p == 0 {
            proof {
                let n = neg as int;
                let mi = m as int;
                let q = n / mi;
                assert(x as int == (-q) * mi + 0) by (nonlinear_arith)
                    requires
                        n == mi * q,
                        x as int == -n,
                ;
                vstd::arithmetic::div_mod::lemma_fundamental_div_mod_converse(x as int, mi, -q, 0);
            }
            0
        } else {
            proof {
                let n = neg as int;
                let mi = m as int;
                let q = n / mi;
                let rr = n % mi;
                assert(x as int == (-q - 1) * mi + (mi - rr)) by (nonlinear_arith)
                    requires
                        n == mi * q + rr,
                        x as int == -n,
                ;
                vstd::arithmetic::div_mod::lemma_fundamental_div_mod_converse(
                    x as int,
                    mi,
                    -q - 1,
                    mi - rr,
                );
            }
            m - p
        }
    }
}

/// The value a matrix-transform worker writes over the one it read: the
/// worker's identity modulo 4 picks the rule, and the alternating rule also
/// looks at the iteration number.
#[verifier::opaque]
pub open spec fn transform_value(worker_id: usize, iteration: usize, index: usize, v: i32) -> i32 {
    if worker_id % 4 == 0 {
        wrap_add32(v, 1)
    } else if worker_id % 4 == 1 {
        ((v + 7) % 100) as i32
    } else if worker_id % 4 == 2 {
        if iteration % 2 == 0 {
            wrap_add32(v, 2)
        } else {
            wrap_add32(v, -1)
        }
    } else {
        ((v + index % 100) % 100) as i32
    }
}

/// Applies the matrix-transform rule selected by `worker_id` (and, for the
/// alternating rule, `iteration`) to one element value.
pub fn apply_transform(worker_id: usize, iteration: usize, index: usize, v: i32) -> (r: i32)
    ensures
        r == transform_value(worker_id, iteration, index, v),
{
    proof {
        reveal(transform_value);
    }
    let rule = worker_id % 4;
    if rule == 0 {
        add_wrapped(v, 1)
    } else if rule == 1 {
        euclid_mod(v as i64 + 7, 100) as i32
    } else if rule == 2 {
        if iteration % 2 == 0 {
            add_wrapped(v, 2)
        } else {
            add_wrapped(v, -1)
        }
    } else {
        let offset = (index % 100) as i64;
        euclid_mod(v as i64 + offset, 100) as i32
    }
}

/// The value a user click writes over the one it read.
pub open spec fn cell_click_value(v: i32) -> i32 {
    ((v + 1) % 1000) as i32
}

/// Applies the user-click rule to one element value.
pub fn apply_cell_click(v: i32) -> (r: i32)
    ensures
        r == cell_click_value(v),
{
    euclid_mod(v as i64 + 1, 1000) as i32
}

/// A user click on one cell while workers may be running: one atomic
/// read-modify-write on that index alone. A click on a cell that a
/// concurrent shrink already removed reports `OutOfBounds` and mutates
/// nothing.
pub fn click_cell(target: &mut ConcurrentArray<i32>, index: usize) -> (r: Result<(), IndexError>)
    ensures
        index < old(target)@.len() ==> r == Ok::<(), IndexError>(()) && final(target)@ == old(
            target,
        )@.update(index as int, cell_click_value(old(target)@[index as int])),
        index >= old(target)@.len() ==> r == Err::<(), IndexError>(IndexError::OutOfBounds)
            && final(target)@ == old(target)@,
{
    let ghost before = target@;
    let bump = |v: i32| -> (r: i32)
        ensures
            r == cell_click_value(v),
        { apply_cell_click(v) };
    let outcome = target.inspect_element(index, bump);
    proof {
        if index < before.len() {
            let w = choose|w: i32|
                call_ensures(bump, (before[index as int],), w) && target@ == before.update(
                    index as int,
                    w,
                );
            assert(w == cell_click_value(before[index as int]));
        }
    }
    outcome
}

/// The value the pipeline's transformer worker writes over the one it read.
pub open spec fn pipeline_transform_value(v: i32) -> i32 {
    ((3 * v + 7) % 500) as i32
}

/// Applies the pipeline-transformer rule to one element value.
pub fn apply_pipeline_transform(v: i32) -> (r: i32)
    ensures
        r == pipeline_transform_value(v),
{
    euclid_mod(3 * (v as i64) + 7, 500) as i32
}

} // verus!
