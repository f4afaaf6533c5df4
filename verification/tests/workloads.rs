use concurrent_prims::array::ConcurrentArray;
use concurrent_prims::contention::{
    inspect_distinct_pair, racing_array_pops, racing_distinct_inspects, racing_increments,
    racing_stack_pops,
};
use concurrent_prims::orchestrator::{
    burst_then_drain, drain_array, drain_stack, partition_sections, plan_sections,
    pushes_then_pops, run_burst, run_matrix_iteration, run_pipeline, seed_pattern, PipelineOp,
    Section,
};
use concurrent_prims::stack::ConcurrentStack;
use concurrent_prims::stats::compute_section_stats;
use concurrent_prims::transforms::{add_wrapped, apply_pipeline_transform, apply_transform};

#[test]
fn partition_gives_equal_sections_with_the_last_absorbing_the_rest() {
    let sections = partition_sections(10, 4);
    assert_eq!(sections.len(), 4);
    assert_eq!((sections[0].start, sections[0].end), (0, 2));
    assert_eq!((sections[1].start, sections[1].end), (2, 4));
    assert_eq!((sections[2].start, sections[2].end), (4, 6));
    assert_eq!((sections[3].start, sections[3].end), (6, 10));
}

#[test]
fn partition_with_more_workers_than_indices_leaves_all_to_the_last() {
    let sections = partition_sections(3, 4);
    assert_eq!(sections.len(), 4);
    assert_eq!((sections[0].start, sections[0].end), (0, 0));
    assert_eq!((sections[1].start, sections[1].end), (0, 0));
    assert_eq!((sections[2].start, sections[2].end), (0, 0));
    assert_eq!((sections[3].start, sections[3].end), (0, 3));
}

#[test]
fn planning_against_an_empty_target_is_a_no_op() {
    assert!(plan_sections(0, 4).is_none());
    let planned = plan_sections(5, 2);
    assert!(planned.is_some());
    assert_eq!(planned.unwrap().len(), 2);
}

#[test]
fn seed_then_single_worker_increment_pass() {
    let mut array: ConcurrentArray<i32> = ConcurrentArray::new();
    array.push(-17);
    seed_pattern(&mut array, 32, 5);
    assert_eq!(array.len(), 32);
    for i in 0..32usize {
        assert_eq!(array.read_element(i), Ok((i as i32) * 5));
    }
    let sections = partition_sections(array.len(), 1);
    run_matrix_iteration(&mut array, &sections, 0);
    for i in 0..32usize {
        assert_eq!(array.read_element(i), Ok((i as i32) * 5 + 1));
    }
}

#[test]
fn four_workers_transform_their_own_sections() {
    let mut array: ConcurrentArray<i32> = ConcurrentArray::new();
    seed_pattern(&mut array, 8, 10);
    let sections = partition_sections(array.len(), 4);
    run_matrix_iteration(&mut array, &sections, 0);
    // Worker 0 on 0..2 adds one; worker 1 on 2..4 maps v to (v + 7) % 100;
    // worker 2 on 4..6 adds two on an even iteration; worker 3 on 6..8 maps
    // v to (v + index % 100) % 100.
    assert_eq!(array.read_element(0), Ok(1));
    assert_eq!(array.read_element(1), Ok(11));
    assert_eq!(array.read_element(2), Ok(27));
    assert_eq!(array.read_element(3), Ok(37));
    assert_eq!(array.read_element(4), Ok(42));
    assert_eq!(array.read_element(5), Ok(52));
    assert_eq!(array.read_element(6), Ok(66));
    assert_eq!(array.read_element(7), Ok(77));
}

#[test]
fn burst_then_drain_hundred_values() {
    let mut stack: ConcurrentStack<i32> = ConcurrentStack::new();
    let drained = burst_then_drain(&mut stack, 1, 100);
    assert_eq!(drained.len(), 100);
    assert_eq!(drained[0], 100);
    assert_eq!(drained[99], 1);
    assert_eq!(stack.len(), 0);
}

#[test]
fn interleaved_burst_keeps_each_workers_own_order() {
    let mut stack: ConcurrentStack<i32> = ConcurrentStack::new();
    // Four workers, three values each, scheduled round-robin; worker w owns
    // the range w * 3 + 1 ..= w * 3 + 3.
    let schedule: Vec<usize> = vec![0, 1, 2, 3, 0, 1, 2, 3, 0, 1, 2, 3];
    let progress = run_burst(&mut stack, 0, 4, 3, &schedule);
    assert_eq!(progress, vec![3, 3, 3, 3]);
    let drained = drain_stack(&mut stack);
    assert_eq!(drained, vec![12, 9, 6, 3, 11, 8, 5, 2, 10, 7, 4, 1]);
}

#[test]
fn burst_turns_past_the_budget_or_the_worker_set_do_nothing() {
    let mut stack: ConcurrentStack<i32> = ConcurrentStack::new();
    // Worker 0 has budget for two pushes; its third turn and the turn for
    // the never-spawned worker 9 are no-ops.
    let schedule: Vec<usize> = vec![0, 0, 0, 9];
    let progress = run_burst(&mut stack, 10, 1, 2, &schedule);
    assert_eq!(progress, vec![2]);
    assert_eq!(drain_stack(&mut stack), vec![12, 11]);
}

#[test]
fn interleaved_burst_of_a_hundred_lands_every_value_once() {
    let mut stack: ConcurrentStack<i32> = ConcurrentStack::new();
    let mut schedule: Vec<usize> = Vec::new();
    for round in 0..25 {
        for w in 0..4 {
            // Stagger the order a little from round to round.
            schedule.push((w + round) % 4);
        }
    }
    run_burst(&mut stack, 0, 4, 25, &schedule);
    let mut drained = drain_stack(&mut stack);
    assert_eq!(drained.len(), 100);
    drained.sort();
    for (i, v) in drained.iter().enumerate() {
        assert_eq!(*v, i as i32 + 1);
    }
}

#[test]
fn pushes_then_pops_returns_the_exact_reverse() {
    let mut stack: ConcurrentStack<i32> = ConcurrentStack::new();
    let values = vec![5, -3, 7, 42];
    let drained = pushes_then_pops(&mut stack, &values);
    assert_eq!(drained, vec![42, 7, -3, 5]);
    assert_eq!(stack.len(), 0);
}

#[test]
fn racing_stack_pops_have_at_most_one_winner_per_value() {
    let mut stack: ConcurrentStack<i32> = ConcurrentStack::new();
    stack.push(1);
    stack.push(2);
    stack.push(3);
    let results = racing_stack_pops(&mut stack, 5);
    assert_eq!(results, vec![Some(3), Some(2), Some(1), None, None]);
    assert_eq!(results.iter().filter(|r| r.is_some()).count(), 3);
    assert_eq!(stack.len(), 0);
}

#[test]
fn racing_array_pops_have_at_most_one_winner_per_value() {
    let mut array: ConcurrentArray<i32> = ConcurrentArray::new();
    array.push(10);
    array.push(20);
    let results = racing_array_pops(&mut array, 4);
    assert_eq!(results, vec![Some(20), Some(10), None, None]);
    assert_eq!(array.len(), 0);
}

#[test]
fn racing_increments_lose_no_update() {
    let mut array: ConcurrentArray<i32> = ConcurrentArray::new();
    array.push(0);
    array.push(0);
    racing_increments(&mut array, 1, 25);
    assert_eq!(array.read_element(0), Ok(0));
    assert_eq!(array.read_element(1), Ok(25));
}

#[test]
fn distinct_indices_never_fail_each_other() {
    let mut array: ConcurrentArray<i32> = ConcurrentArray::new();
    array.push(1);
    array.push(2);
    array.push(3);
    let (first, second) = inspect_distinct_pair(&mut array, 0, 2, |v| v + 10, |v| v * 3);
    assert_eq!(first, Ok(()));
    assert_eq!(second, Ok(()));
    assert_eq!(array.read_element(0), Ok(11));
    assert_eq!(array.read_element(1), Ok(2));
    assert_eq!(array.read_element(2), Ok(9));
}

#[test]
fn a_crowd_of_racers_on_distinct_indices_all_succeed() {
    let mut array: ConcurrentArray<i32> = ConcurrentArray::new();
    seed_pattern(&mut array, 20, 100);
    // Eight racers, each on its own index, each applying a rule that
    // depends on its own index and slot alone.
    let indices: Vec<usize> = vec![17, 2, 11, 5, 0, 19, 8, 13];
    let outcomes = racing_distinct_inspects(&mut array, &indices, |i, v| v + i as i32);
    assert_eq!(outcomes.len(), 8);
    for outcome in &outcomes {
        assert_eq!(*outcome, Ok(()));
    }
    for i in 0..20usize {
        let expected = if indices.contains(&i) {
            (i as i32) * 100 + i as i32
        } else {
            (i as i32) * 100
        };
        assert_eq!(array.read_element(i), Ok(expected));
    }
}

#[test]
fn scattered_distinct_index_pairs_always_complete() {
    let mut array: ConcurrentArray<i32> = ConcurrentArray::new();
    for _ in 0..100 {
        array.push(0);
    }
    let mut seed: u64 = 42;
    for _ in 0..50 {
        seed = seed.wrapping_mul(6364136223846793005).wrapping_add(1442695040888963407);
        let i = (seed >> 33) as usize % 100;
        let j = (i + 1 + seed as usize % 99) % 100;
        assert_ne!(i, j);
        let (first, second) = inspect_distinct_pair(&mut array, i, j, |v| v + 1, |v| v + 1);
        assert_eq!(first, Ok(()));
        assert_eq!(second, Ok(()));
    }
    assert_eq!(array.len(), 100);
}

#[test]
fn transform_rules_match_their_formulas() {
    assert_eq!(apply_transform(0, 0, 0, 5), 6);
    assert_eq!(apply_transform(1, 0, 0, 250), 57);
    assert_eq!(apply_transform(1, 0, 0, -8), 99);
    assert_eq!(apply_transform(2, 0, 0, 5), 7);
    assert_eq!(apply_transform(2, 1, 0, 5), 4);
    assert_eq!(apply_transform(3, 0, 250, 5), 55);
    assert_eq!(apply_transform(4, 0, 0, 5), 6);
    assert_eq!(add_wrapped(i32::MAX, 1), i32::MIN);
    assert_eq!(add_wrapped(i32::MIN, -1), i32::MAX);
    assert_eq!(apply_pipeline_transform(2), 13);
    assert_eq!(apply_pipeline_transform(200), 107);
}

#[test]
fn pipeline_schedule_produces_transforms_and_consumes() {
    let mut array: ConcurrentArray<i32> = ConcurrentArray::new();
    let schedule = vec![
        PipelineOp::Produce(1),
        PipelineOp::Produce(2),
        PipelineOp::Transform,
        PipelineOp::Consume,
        PipelineOp::Consume,
        PipelineOp::Consume,
    ];
    let consumed = run_pipeline(&mut array, &schedule);
    // The transformer rewrote index 1 (the midpoint of length 2) from 2 to
    // (3 * 2 + 7) % 500; the consumer then won both elements, and its third
    // attempt found the array empty.
    assert_eq!(consumed, 2);
    assert_eq!(array.len(), 0);
}

#[test]
fn pipeline_transform_and_consume_skip_an_empty_array() {
    let mut array: ConcurrentArray<i32> = ConcurrentArray::new();
    let schedule = vec![PipelineOp::Transform, PipelineOp::Consume];
    let consumed = run_pipeline(&mut array, &schedule);
    assert_eq!(consumed, 0);
    assert_eq!(array.len(), 0);
}

#[test]
fn section_statistics_combine_into_the_global_ones() {
    let mut array: ConcurrentArray<i32> = ConcurrentArray::new();
    for v in [3, -1, 4, 1, 5] {
        array.push(v);
    }
    let left = compute_section_stats(&array, Section { start: 0, end: 2 });
    assert_eq!((left.sum, left.count, left.min, left.max), (2, 2, -1, 3));
    let right = compute_section_stats(&array, Section { start: 2, end: 5 });
    assert_eq!((right.sum, right.count, right.min, right.max), (10, 3, 1, 5));
    let global = compute_section_stats(&array, Section { start: 0, end: 5 });
    assert_eq!(global.sum, left.sum + right.sum);
    assert_eq!(global.count, left.count + right.count);
    assert_eq!(global.min, left.min.min(right.min));
    assert_eq!(global.max, left.max.max(right.max));
}

#[test]
fn partitioned_section_statistics_cover_the_whole_array() {
    let mut array: ConcurrentArray<i32> = ConcurrentArray::new();
    for v in [9, -2, 0, 7, 7, -11, 3] {
        array.push(v);
    }
    let sections = partition_sections(array.len(), 3);
    let mut sum: i64 = 0;
    let mut min = i32::MAX;
    let mut max = i32::MIN;
    for section in &sections {
        let stats = compute_section_stats(&array, *section);
        sum += stats.sum;
        min = min.min(stats.min);
        max = max.max(stats.max);
    }
    let global = compute_section_stats(&array, Section { start: 0, end: array.len() });
    assert_eq!(sum, global.sum);
    assert_eq!(min, global.min);
    assert_eq!(max, global.max);
    assert_eq!((global.sum, global.min, global.max), (13, -11, 9));
}

#[test]
fn empty_section_reports_the_neutral_sentinels() {
    let mut array: ConcurrentArray<i32> = ConcurrentArray::new();
    array.push(8);
    let empty = compute_section_stats(&array, Section { start: 1, end: 1 });
    assert_eq!((empty.sum, empty.count), (0, 0));
    assert_eq!(empty.min, i32::MAX);
    assert_eq!(empty.max, i32::MIN);
}

#[test]
fn drain_array_counts_every_removed_element() {
    let mut array: ConcurrentArray<i32> = ConcurrentArray::new();
    seed_pattern(&mut array, 4, 3);
    let removed = drain_array(&mut array);
    assert_eq!(removed, 4);
    assert_eq!(array.len(), 0);
    assert_eq!(drain_array(&mut array), 0);
}
