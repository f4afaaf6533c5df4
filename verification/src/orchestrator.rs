//! The worker orchestrator: turns a triggering action into a set of
//! bounded workers, each owning its section bounds and budget by value.
//! Sections partition the index range contiguously, without overlap and
//! without gaps, the last section absorbing any remainder of the integer
//! division. Workloads run workers as interleavings of atomic primitive
//! operations.

use vstd::prelude::*;

use crate::array::ConcurrentArray;
use crate::stack::ConcurrentStack;
use crate::transforms::{
    apply_pipeline_transform, apply_transform, pipeline_transform_value, transform_value,
};

verus! {

/// A contiguous, non-overlapping sub-range of array indices assigned to
/// one worker: the indices `start..end`.
#[derive(Clone, Copy, Debug, PartialEq, Eq, Structural)]
pub struct Section {
    pub start: usize,
    pub end: usize,
}

/// Whether the sections cover `0..len` exactly: contiguous, in order,
/// without overlap and without gaps.
pub open spec fn sections_tile(sections: Seq<Section>, len: int) -> bool {
    &&& sections.len() > 0
    &&& sections[0].start == 0
    &&& sections[sections.len() - 1].end == len
    &&& forall|k: int|
        0 <= k < sections.len() ==> #[trigger] sections[k].start <= sections[k].end
    &&& forall|k: int|
        0 <= k < sections.len() - 1 ==> #[trigger] sections[k].end == sections[k + 1].start
}

/// In a tiling, earlier sections lie entirely before later ones.
pub proof fn lemma_sections_ordered(sections: Seq<Section>, len: int)
    requires
        sections_tile(sections, len),
    ensures
        forall|a: int, b: int|
            0 <= a < b < sections.len() ==> #[trigger] sections[a].end <= #[trigger] sections[b].start,
{
    assert forall|a: int, b: int| 0 <= a < b < sections.len() implies #[trigger] sections[a].end
        <= #[trigger] sections[b].start by {
        lemma_sections_ordered_pair(sections, len, a, b);
    }
}

proof fn lemma_sections_ordered_pair(sections: Seq<Section>, len: int, a: int, b: int)
    requires
        sections_tile(sections, len),
        0 <= a < b < sections.len(),
    ensures
        sections[a].end <= sections[b].start,
    decreases b - a,
{
    if b == a + 1 {
        assert(sections[a].end == sections[a + 1].start);
    } else {
        lemma_sections_ordered_pair(sections, len, a, b - 1);
        assert(sections[b - 1].end == sections[b].start);
    }
}

/// Splits `0..len` into `workers` contiguous sections: every section but
/// the last has exactly `len / workers` indices, and the last runs to the
/// end, absorbing the remainder of the division.
pub fn partition_sections(len: usize, workers: usize) -> (r: Vec<Section>)
    requires
        1 <= workers,
    ensures
        r@.len() == workers,
        sections_tile(r@, len as int),
        forall|k: int|
            0 <= k < workers - 1 ==> #[trigger] r@[k].end - r@[k].start == len as int
                / workers as int,
{
    let section_size = len / workers;
    proof {
        vstd::arithmetic::div_mod::lemma_fundamental_div_mod(len as int, workers as int);
    }
    let mut sections: Vec<Section> = Vec::new();
    let mut cursor: usize = 0;
    let mut k: usize = 0;
    while k < workers
        invariant
            1 <= workers,
            k <= workers,
            section_size == len as int / workers as int,
            len as int == workers * (len as int / workers as int) + len as int % workers as int,
            0 <= len as int % workers as int,
            sections@.len() == k,
            k < workers ==> cursor as int == k * section_size,
            k == workers ==> cursor == len,
            cursor <= len,
            k > 0 ==> sections@[k - 1].end == cursor,
            k > 0 ==> sections@[0].start == 0,
            forall|j: int|
                0 <= j < k ==> #[trigger] sections@[j].start <= sections@[j].end,
            forall|j: int|
                0 <= j < k - 1 ==> #[trigger] sections@[j].end == sections@[j + 1].start,
            forall|j: int|
                0 <= j < k && j < workers - 1 ==> #[trigger] sections@[j].end - sections@[j].start
                    == section_size,
        decreases workers - k,
    {
        let start = cursor;
        let end = if k == workers - 1 {
            len
        } else {
            proof {
                assert((k + 1) * section_size <= workers * section_size) by (nonlinear_arith)
                    requires
                        k + 1 <= workers,
                        section_size >= 0,
                ;
                assert(k * section_size + section_size == (k + 1) * section_size)
                    by (nonlinear_arith);
            }
            cursor + section_size
        };
        proof {
            if k == workers - 1 {
                assert(k * section_size <= workers * section_size) by (nonlinear_arith)
                    requires
                        k <= workers,
                        section_size >= 0,
                ;
            }
        }
        sections.push(Section { start, end });
        proof {
            if k == 0 {
                assert(start == 0) by {
                    assert(cursor as int == k * section_size);
                }
                assert(sections@[0].start == 0);
            }
        }
        cursor = end;
        k = k + 1;
    }
    sections
}

/// Plans a sectioned workload: with a non-empty target the index range is
/// partitioned among the workers; with an empty target no workers are
/// spawned and the caller logs a no-op instead.
pub fn plan_sections(len: usize, workers: usize) -> (r: Option<Vec<Section>>)
    requires
        1 <= workers,
    ensures
        r is None <==> len == 0,
        r matches Some(sections) ==> sections@.len() == workers && sections_tile(
            sections@,
            len as int,
        ) && (forall|k: int|
            0 <= k < workers - 1 ==> #[trigger] sections@[k].end - sections@[k].start == len as int
                / workers as int),
{
    if len == 0 {
        None
    } else {
        Some(partition_sections(len, workers))
    }
}

/// The contents after one worker has applied its transform to every index
/// of `lo..hi` once, leaving all other indices untouched.
pub open spec fn transformed_range(
    s: Seq<i32>,
    worker_id: usize,
    iteration: usize,
    lo: int,
    hi: int,
) -> Seq<i32> {
    Seq::new(
        s.len(),
        |j: int|
            if lo <= j < hi {
                transform_value(worker_id, iteration, j as usize, s[j])
            } else {
                s[j]
            },
    )
}

/// One worker's pass over its section: applies the worker's transform to
/// each index of the section in order, each application one atomic
/// read-modify-write.
#[verifier::rlimit(50)]
pub fn transform_section_pass(
    target: &mut ConcurrentArray<i32>,
    worker_id: usize,
    iteration: usize,
    section: Section,
)
    requires
        section.start <= section.end <= old(target)@.len(),
    ensures
        final(target)@ == transformed_range(
            old(target)@,
            worker_id,
            iteration,
            section.start as int,
            section.end as int,
        ),
{
    let ghost initial = target@;
    let mut idx: usize = section.start;
    while idx < section.end
        invariant
            section.start <= idx <= section.end <= initial.len(),
            target@ == transformed_range(
                initial,
                worker_id,
                iteration,
                section.start as int,
                idx as int,
            ),
        decreases section.end - idx,
    {
        let here = idx;
        let mutate = |v: i32| -> (r: i32)
            ensures
                r == transform_value(worker_id, iteration, here, v),
            { apply_transform(worker_id, iteration, here, v) };
        let ghost before = target@;
        let _ = target.inspect_element(here, mutate);
        proof {
            let w = choose|w: i32|
                call_ensures(mutate, (before[here as int],), w) && target@ == before.update(
                    here as int,
                    w,
                );
            assert(w == transform_value(worker_id, iteration, here, before[here as int]));
            assert(before[here as int] == initial[here as int]);
            assert(target@ =~= transformed_range(
                initial,
                worker_id,
                iteration,
                section.start as int,
                idx + 1,
            ));
        }
        idx = idx + 1;
    }
}

#[verifier::rlimit(80)]
proof fn lemma_matrix_step(
    sections: Seq<Section>,
    len: int,
    iteration: usize,
    initial: Seq<i32>,
    before: Seq<i32>,
    after: Seq<i32>,
    w: usize,
)
    requires
        sections_tile(sections, len),
        initial.len() == len,
        before.len() == len,
        w < sections.len(),
        forall|ww: int, j: int|
            0 <= ww < w && sections[ww].start <= j < sections[ww].end ==> before[j]
                == #[trigger] transform_value(ww as usize, iteration, j as usize, initial[j]),
        forall|j: int|
            sections[w as int].start <= j < len ==> #[trigger] before[j] == initial[j],
        after == transformed_range(
            before,
            w,
            iteration,
            sections[w as int].start as int,
            sections[w as int].end as int,
        ),
    ensures
        after.len() == len,
        forall|ww: int, j: int|
            0 <= ww < w + 1 && sections[ww].start <= j < sections[ww].end ==> after[j]
                == #[trigger] transform_value(ww as usize, iteration, j as usize, initial[j]),
        forall|j: int|
            w + 1 < sections.len() && sections[w + 1].start <= j < len ==> #[trigger] after[j]
                == initial[j],
{
    let lo = sections[w as int].start as int;
    let hi = sections[w as int].end as int;
    assert forall|j: int| 0 <= j < len implies #[trigger] after[j] == (if lo <= j < hi {
        transform_value(w, iteration, j as usize, before[j])
    } else {
        before[j]
    }) by {
        assert(after[j] == transformed_range(before, w, iteration, lo, hi)[j]);
    }
    assert forall|ww: int, j: int|
        0 <= ww < w + 1 && sections[ww].start <= j < sections[ww].end implies after[j]
        == #[trigger] transform_value(ww as usize, iteration, j as usize, initial[j]) by {
        if (w as int) < sections.len() - 1 {
            lemma_sections_ordered_pair(sections, len, w as int, sections.len() - 1);
        }
        assert(hi <= len);
        if ww < w {
            lemma_sections_ordered_pair(sections, len, ww, w as int);
            assert(0 <= j < len);
            assert(!(lo <= j < hi));
            assert(after[j] == before[j]);
        } else {
            assert(lo <= j < hi);
            assert(after[j] == transform_value(w, iteration, j as usize, before[j]));
            assert(before[j] == initial[j]);
        }
    }
    assert forall|j: int|
        w + 1 < sections.len() && sections[w + 1].start <= j < len implies #[trigger] after[j]
        == initial[j] by {
        assert(sections[w as int].end == sections[w + 1].start);
        assert(after[j] == before[j]);
        assert(before[j] == initial[j]);
    }
}

/// One full matrix-transform iteration: worker `w` covers section `w`, and
/// because the sections are disjoint the workers' interleaving does not
/// matter — every index of section `w` ends up transformed by worker `w`'s
/// rule exactly once, whatever order the scheduler picked.
pub fn run_matrix_iteration(
    target: &mut ConcurrentArray<i32>,
    sections: &Vec<Section>,
    iteration: usize,
)
    requires
        sections_tile(sections@, old(target)@.len() as int),
    ensures
        final(target)@.len() == old(target)@.len(),
        forall|w: int, j: int|
            0 <= w < sections@.len() && sections@[w].start <= j < sections@[w].end
                ==> final(target)@[j] == #[trigger] transform_value(
                w as usize,
                iteration,
                j as usize,
                old(target)@[j],
            ),
{
    let ghost initial = target@;
    let mut w: usize = 0;
    while w < sections.len()
        invariant
            w <= sections@.len(),
            sections_tile(sections@, initial.len() as int),
            target@.len() == initial.len(),
            forall|ww: int, j: int|
                0 <= ww < w && sections@[ww].start <= j < sections@[ww].end ==> target@[j]
                    == #[trigger] transform_value(ww as usize, iteration, j as usize, initial[j]),
            forall|j: int|
                w < sections@.len() && sections@[w as int].start <= j < initial.len()
                    ==> #[trigger] target@[j] == initial[j],
        decreases sections@.len() - w,
    {
        let section = sections[w];
        proof {
            if w < sections@.len() - 1 {
                lemma_sections_ordered_pair(sections@, initial.len() as int, w as int, sections@.len() - 1);
            }
            assert(section.end <= initial.len());
        }
        let ghost before = target@;
        transform_section_pass(target, w, iteration, section);
        proof {
            lemma_matrix_step(
                sections@,
                initial.len() as int,
                iteration,
                initial,
                before,
                target@,
                w,
            );
        }
        w = w + 1;
    }
}


/// The seed pattern: `count` slots, slot `j` holding `j * step`.
pub open spec fn seeded_pattern(count: int, step: int) -> Seq<i32> {
    Seq::new(count as nat, |j: int| (j * step) as i32)
}

/// The drain worker for the array: pops until empty, counting what it
/// removed.
pub fn drain_array<T>(target: &mut ConcurrentArray<T>) -> (r: usize)
    ensures
        r == old(target)@.len(),
        final(target)@.len() == 0,
{
    let ghost initial = target@;
    let bound = target.len();
    let mut count: usize = 0;
    loop
        invariant
            count + target@.len() == initial.len(),
            initial.len() == bound,
        ensures
            count == initial.len(),
            target@.len() == 0,
        decreases target@.len(),
    {
        match target.pop() {
            Some(_) => {
                count = count + 1;
            },
            None => {
                break ;
            },
        }
    }
    count
}

/// Clears the array and seeds it with the pattern `0, step, 2 * step, ...`
/// over `count` slots.
pub fn seed_pattern(target: &mut ConcurrentArray<i32>, count: usize, step: i32)
    requires
        0 <= step,
        count <= i32::MAX,
        count * step <= i32::MAX,
    ensures
        final(target)@ == seeded_pattern(count as int, step as int),
{
    let _ = drain_array(target);
    proof {
        assert(target@ =~= seeded_pattern(0, step as int));
    }
    let mut j: usize = 0;
    while j < count
        invariant
            j <= count,
            0 <= step,
            count <= i32::MAX,
            count * step <= i32::MAX,
            target@ == seeded_pattern(j as int, step as int),
        decreases count - j,
    {
        proof {
            assert(j * step <= count * step) by (nonlinear_arith)
                requires
                    j <= count,
                    step >= 0,
            ;
            assert(j * step >= 0) by (nonlinear_arith)
                requires
                    j >= 0,
                    step >= 0,
            ;
        }
        let value = (j as i32) * step;
        target.push(value);
        proof {
            assert(target@ =~= seeded_pattern(j + 1, step as int));
        }
        j = j + 1;
    }
}

/// One atomic step of the pipeline workload: a producer appends, the
/// transformer rewrites the midpoint of the current length, or the
/// consumer removes the last element; the two latter are no-ops on an
/// empty array.
#[derive(Clone, Copy, Debug, PartialEq, Eq, Structural)]
pub enum PipelineOp {
    /// A producer pushes the value.
    Produce(i32),
    /// The transformer mutates the element at `len / 2`.
    Transform,
    /// The consumer pops the last element.
    Consume,
}

/// The contents after one pipeline step.
pub open spec fn apply_pipeline_op(s: Seq<i32>, op: PipelineOp) -> Seq<i32> {
    match op {
        PipelineOp::Produce(v) => s.push(v),
        PipelineOp::Transform => if s.len() == 0 {
            s
        } else {
            s.update(s.len() as int / 2, pipeline_transform_value(s[s.len() as int / 2]))
        },
        PipelineOp::Consume => if s.len() == 0 {
            s
        } else {
            s.drop_last()
        },
    }
}

/// The contents after the whole schedule of pipeline steps, in order.
pub open spec fn run_pipeline_spec(s: Seq<i32>, ops: Seq<PipelineOp>) -> Seq<i32>
    decreases ops.len(),
{
    if ops.len() == 0 {
        s
    } else {
        run_pipeline_spec(apply_pipeline_op(s, ops[0]), ops.drop_first())
    }
}

/// How many pipeline steps of the schedule consume an element.
pub open spec fn consumed_count(s: Seq<i32>, ops: Seq<PipelineOp>) -> int
    decreases ops.len(),
{
    if ops.len() == 0 {
        0
    } else {
        (if ops[0] is Consume && s.len() > 0 {
            1int
        } else {
            0int
        }) + consumed_count(apply_pipeline_op(s, ops[0]), ops.drop_first())
    }
}

/// Runs producers, the transformer and the consumer against the same
/// array in the interleaving the scheduler picked, one atomic operation
/// per step, with no coordination beyond what the primitive guarantees.
/// Returns how many elements the consumer won.
pub fn run_pipeline(target: &mut ConcurrentArray<i32>, schedule: &Vec<PipelineOp>) -> (consumed:
    usize)
    ensures
        final(target)@ == run_pipeline_spec(old(target)@, schedule@),
        consumed == consumed_count(old(target)@, schedule@),
{
    let ghost initial = target@;
    proof {
        assert(schedule@.skip(0) =~= schedule@);
    }
    let mut consumed: usize = 0;
    let mut k: usize = 0;
    while k < schedule.len()
        invariant
            k <= schedule@.len(),
            consumed <= k,
            run_pipeline_spec(target@, schedule@.skip(k as int)) == run_pipeline_spec(
                initial,
                schedule@,
            ),
            consumed + consumed_count(target@, schedule@.skip(k as int)) == consumed_count(
                initial,
                schedule@,
            ),
        decreases schedule@.len() - k,
    {
        let ghost remaining = schedule@.skip(k as int);
        proof {
            assert(remaining[0] == schedule@[k as int]);
            assert(remaining.drop_first() =~= schedule@.skip(k + 1));
        }
        let ghost before = target@;
        match schedule[k] {
            PipelineOp::Produce(v) => {
                target.push(v);
            },
            PipelineOp::Transform => {
                let len = target.len();
                if len > 0 {
                    let mid = len / 2;
                    let rewrite = |v: i32| -> (r: i32)
                        ensures
                            r == pipeline_transform_value(v),
                        { apply_pipeline_transform(v) };
                    let _ = target.inspect_element(mid, rewrite);
                    proof {
                        let w = choose|w: i32|
                            call_ensures(rewrite, (before[mid as int],), w) && target@
                                == before.update(mid as int, w);
                        assert(w == pipeline_transform_value(before[mid as int]));
                    }
                }
            },
            PipelineOp::Consume => {
                let won = target.pop();
                if won.is_some() {
                    consumed = consumed + 1;
                }
            },
        }
        proof {
            assert(target@ == apply_pipeline_op(before, schedule@[k as int]));
        }
        k = k + 1;
    }
    proof {
        assert(schedule@.skip(schedule@.len() as int) =~= Seq::<PipelineOp>::empty());
    }
    consumed
}

/// The descending run of values a burst worker owns: pushing
/// `first, first + 1, ..., first + count - 1` in order leaves them on the
/// stack top-first as this sequence.
pub open spec fn descending_run(first: int, count: int) -> Seq<i32> {
    Seq::new(count as nat, |j: int| (first + count - 1 - j) as i32)
}

/// One burst worker: pushes its own ascending run of values, each push one
/// atomic step; its values end up on the stack in reverse push order,
/// above whatever was there before.
pub fn burst_push_run(target: &mut ConcurrentStack<i32>, first: i32, count: usize)
    requires
        count <= i32::MAX,
        first + count <= i32::MAX + 1,
    ensures
        final(target)@ == descending_run(first as int, count as int) + old(target)@,
{
    let ghost initial = target@;
    proof {
        assert(descending_run(first as int, 0) + initial =~= initial);
    }
    let mut j: usize = 0;
    while j < count
        invariant
            j <= count,
            count <= i32::MAX,
            first + count <= i32::MAX + 1,
            target@ == descending_run(first as int, j as int) + initial,
        decreases count - j,
    {
        let value = first + (j as i32);
        target.push(value);
        proof {
            assert(target@ =~= descending_run(first as int, j + 1) + initial);
        }
        j = j + 1;
    }
}

/// The drain worker: pops until empty, counting what it removed. Every
/// element is delivered exactly once, in top-first order.
pub fn drain_stack<T>(target: &mut ConcurrentStack<T>) -> (r: Vec<T>)
    ensures
        r@ == old(target)@,
        final(target)@.len() == 0,
{
    let mut drained: Vec<T> = Vec::new();
    loop
        invariant
            drained@ + target@ == old(target)@,
        decreases target@.len(),
    {
        match target.pop() {
            Some(v) => {
                drained.push(v);
                proof {
                    assert(drained@ + target@ =~= old(target)@);
                }
            },
            None => {
                proof {
                    assert(drained@ =~= drained@ + target@);
                }
                return drained;
            },
        }
    }
}

/// The value a burst worker pushes at its `step`-th turn: worker `w` owns
/// the contiguous range `start + w * per_worker + 1 ..= start + (w + 1) * per_worker`.
pub open spec fn burst_value(start: int, per_worker: int, worker: int, step: int) -> i32 {
    (start + worker * per_worker + step + 1) as i32
}

/// One scheduler turn of the burst workload: the named worker pushes its
/// next value if it has budget left; a turn given to a finished worker, or
/// to a worker id that was never spawned, does nothing.
pub open spec fn burst_step(
    stack: Seq<i32>,
    progress: Seq<int>,
    start: int,
    per_worker: int,
    worker: int,
) -> (Seq<i32>, Seq<int>) {
    if 0 <= worker < progress.len() && progress[worker] < per_worker {
        (
            seq![burst_value(start, per_worker, worker, progress[worker])] + stack,
            progress.update(worker, progress[worker] + 1),
        )
    } else {
        (stack, progress)
    }
}

/// The stack contents and the workers' progress after the whole schedule
/// of burst turns, in order.
pub open spec fn run_burst_spec(
    stack: Seq<i32>,
    progress: Seq<int>,
    schedule: Seq<usize>,
    start: int,
    per_worker: int,
) -> (Seq<i32>, Seq<int>)
    decreases schedule.len(),
{
    if schedule.len() == 0 {
        (stack, progress)
    } else {
        let next = burst_step(stack, progress, start, per_worker, schedule[0] as int);
        run_burst_spec(next.0, next.1, schedule.drop_first(), start, per_worker)
    }
}

/// The burst workload: `workers` workers each push their own disjoint
/// contiguous range of values, one atomic push per scheduler turn, in
/// whatever interleaving the schedule gives. The outcome is the fold of the
/// schedule over the turn rule — each worker's own values land in its own
/// order, wherever the turns of the others fall between them. Returns each
/// worker's final progress.
pub fn run_burst(
    target: &mut ConcurrentStack<i32>,
    start: i32,
    workers: usize,
    per_worker: usize,
    schedule: &Vec<usize>,
) -> (progress: Vec<usize>)
    requires
        0 <= start,
        workers * per_worker + start <= i32::MAX,
    ensures
        ({
            let outcome = run_burst_spec(
                old(target)@,
                Seq::new(workers as nat, |w: int| 0int),
                schedule@,
                start as int,
                per_worker as int,
            );
            final(target)@ == outcome.0 && progress@.map_values(|p: usize| p as int) == outcome.1
        }),
{
    let ghost initial = target@;
    let ghost zeroes = Seq::new(workers as nat, |w: int| 0int);
    let mut progress: Vec<usize> = Vec::new();
    let mut w: usize = 0;
    while w < workers
        invariant
            w <= workers,
            progress@.len() == w,
            forall|i: int| 0 <= i < w ==> #[trigger] progress@[i] == 0,
        decreases workers - w,
    {
        progress.push(0);
        w = w + 1;
    }
    proof {
        assert(progress@.map_values(|p: usize| p as int) =~= zeroes);
        assert(schedule@.skip(0) =~= schedule@);
    }
    let mut k: usize = 0;
    while k < schedule.len()
        invariant
            k <= schedule@.len(),
            progress@.len() == workers,
            0 <= start,
            workers * per_worker + start <= i32::MAX,
            forall|i: int| 0 <= i < workers ==> 0 <= #[trigger] progress@[i] <= per_worker,
            run_burst_spec(
                target@,
                progress@.map_values(|p: usize| p as int),
                schedule@.skip(k as int),
                start as int,
                per_worker as int,
            ) == run_burst_spec(initial, zeroes, schedule@, start as int, per_worker as int),
        decreases schedule@.len() - k,
    {
        let ghost remaining = schedule@.skip(k as int);
        let ghost pmap = progress@.map_values(|p: usize| p as int);
        proof {
            assert(remaining[0] == schedule@[k as int]);
            assert(remaining.drop_first() =~= schedule@.skip(k + 1));
        }
        let ghost before = target@;
        let turn = schedule[k];
        if turn < workers {
            let done = progress[turn];
            proof {
                assert(pmap[turn as int] == done);
            }
            if done < per_worker {
                proof {
                    assert(turn * per_worker + done + 1 <= workers * per_worker)
                        by (nonlinear_arith)
                        requires
                            0 <= turn < workers,
                            0 <= done < per_worker,
                    ;
                    assert(0 <= turn * per_worker) by (nonlinear_arith)
                        requires
                            0 <= turn,
                            0 <= per_worker,
                    ;
                }
                let offset = turn * per_worker + done + 1;
                let value = start + (offset as i32);
                target.push(value);
                progress[turn] = done + 1;
                proof {
                    assert(progress@.map_values(|p: usize| p as int) =~= pmap.update(
                        turn as int,
                        pmap[turn as int] + 1,
                    ));
                    assert(value == burst_value(
                        start as int,
                        per_worker as int,
                        turn as int,
                        pmap[turn as int],
                    ));
                    assert(target@ == seq![
                        burst_value(start as int, per_worker as int, turn as int, pmap[turn as int]),
                    ] + before);
                    assert((target@, progress@.map_values(|p: usize| p as int)) == burst_step(
                        before,
                        pmap,
                        start as int,
                        per_worker as int,
                        turn as int,
                    ));
                }
            } else {
                proof {
                    assert((target@, progress@.map_values(|p: usize| p as int)) == burst_step(
                        before,
                        pmap,
                        start as int,
                        per_worker as int,
                        turn as int,
                    ));
                }
            }
        } else {
            proof {
                assert((target@, progress@.map_values(|p: usize| p as int)) == burst_step(
                    before,
                    pmap,
                    start as int,
                    per_worker as int,
                    turn as int,
                ));
            }
        }
        k = k + 1;
    }
    proof {
        assert(schedule@.skip(schedule@.len() as int) =~= Seq::<usize>::empty());
    }
    progress
}

/// Stack order of removal: pushing any run of values one at a time and
/// then popping everything returns exactly the pushed values, newest
/// first — the exact reverse of push order.
pub fn pushes_then_pops<T: Copy>(target: &mut ConcurrentStack<T>, values: &Vec<T>) -> (r: Vec<T>)
    requires
        old(target)@.len() == 0,
    ensures
        r@ == values@.reverse(),
        final(target)@.len() == 0,
{
    proof {
        assert(values@.take(0).reverse() + old(target)@ =~= target@);
    }
    let ghost initial = target@;
    let mut i: usize = 0;
    while i < values.len()
        invariant
            i <= values@.len(),
            target@ == values@.take(i as int).reverse() + initial,
            initial.len() == 0,
        decreases values@.len() - i,
    {
        target.push(values[i]);
        proof {
            assert(target@ =~= values@.take(i + 1).reverse() + initial);
        }
        i = i + 1;
    }
    let drained = drain_stack(target);
    proof {
        assert(drained@ =~= values@.reverse());
        assert(values@.take(values@.len() as int) =~= values@);
    }
    drained
}

/// Burst then drain: the workers' pushes all land, and the single drain
/// worker afterwards removes exactly what was pushed, in reverse push
/// order (newest first), leaving the stack empty.
pub fn burst_then_drain(target: &mut ConcurrentStack<i32>, first: i32, count: usize) -> (r: Vec<
    i32,
>)
    requires
        old(target)@.len() == 0,
        count <= i32::MAX,
        first + count <= i32::MAX + 1,
    ensures
        r@ == descending_run(first as int, count as int),
        final(target)@.len() == 0,
        r@.len() == count,
{
    burst_push_run(target, first, count);
    let drained = drain_stack(target);
    proof {
        assert(drained@ =~= descending_run(first as int, count as int));
    }
    drained
}

} // verus!
