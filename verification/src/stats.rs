//! Sectioned statistics: workers compute sum, count, minimum and maximum
//! over disjoint sections of the array through single-element reads, and a
//! final aggregator recomputes the same statistics over the whole range.
//! The concatenation law says the two agree.

use vstd::prelude::*;

use crate::array::ConcurrentArray;
use crate::orchestrator::{sections_tile, Section};

verus! {

/// The statistics one worker reports for its section. An empty section
/// reports the neutral sentinels: minimum `i32::MAX`, maximum `i32::MIN`.
#[derive(Clone, Copy, Debug, PartialEq, Eq, Structural)]
pub struct SectionStats {
    pub sum: i64,
    pub count: usize,
    pub min: i32,
    pub max: i32,
}

/// The sum of a sequence of element values.
pub open spec fn seq_sum(s: Seq<i32>) -> int
    decreases s.len(),
{
    if s.len() == 0 {
        0
    } else {
        seq_sum(s.drop_last()) + s.last()
    }
}

/// The minimum of a sequence of element values, `i32::MAX` when empty.
pub open spec fn seq_min(s: Seq<i32>) -> int
    decreases s.len(),
{
    if s.len() == 0 {
        i32::MAX as int
    } else if s.last() < seq_min(s.drop_last()) {
        s.last() as int
    } else {
        seq_min(s.drop_last())
    }
}

/// The maximum of a sequence of element values, `i32::MIN` when empty.
pub open spec fn seq_max(s: Seq<i32>) -> int
    decreases s.len(),
{
    if s.len() == 0 {
        i32::MIN as int
    } else if s.last() > seq_max(s.drop_last()) {
        s.last() as int
    } else {
        seq_max(s.drop_last())
    }
}

/// Computes sum, count, minimum and maximum over one section of the array
/// via successive single-element reads, without mutating anything.
pub fn compute_section_stats(source: &ConcurrentArray<i32>, section: Section) -> (r: SectionStats)
    requires
        section.start <= section.end <= source@.len(),
        section.end - section.start < 0x1_0000_0000,
    ensures
        r.count == section.end - section.start,
        r.sum == seq_sum(source@.subrange(section.start as int, section.end as int)),
        r.min == seq_min(source@.subrange(section.start as int, section.end as int)),
        r.max == seq_max(source@.subrange(section.start as int, section.end as int)),
{
    let mut sum: i64 = 0;
    let mut count: usize = 0;
    let mut min: i32 = i32::MAX;
    let mut max: i32 = i32::MIN;
    let mut k: usize = section.start;
    while k < section.end
        invariant
            section.start <= k <= section.end <= source@.len(),
            section.end - section.start < 0x1_0000_0000,
            count == k - section.start,
            sum == seq_sum(source@.subrange(section.start as int, k as int)),
            min == seq_min(source@.subrange(section.start as int, k as int)),
            max == seq_max(source@.subrange(section.start as int, k as int)),
            -(count as int) * 0x8000_0000 <= sum <= (count as int) * 0x8000_0000,
        decreases section.end - k,
    {
        let v = match source.read_element(k) {
            Ok(v) => v,
            Err(_) => {
                proof {
                    assert(false);
                }
                0
            },
        };
        proof {
            assert(source@.subrange(section.start as int, k + 1).drop_last() =~= source@.subrange(
                section.start as int,
                k as int,
            ));
            assert(source@.subrange(section.start as int, k + 1).last() == source@[k as int]);
        }
        sum = sum + v as i64;
        count = count + 1;
        if v < min {
            min = v;
        }
        if v > max {
            max = v;
        }
        k = k + 1;
    }
    SectionStats { sum, count, min, max }
}

/// Concatenation law for the statistics: over adjacent ranges the sum adds
/// and the minimum and maximum combine, so per-section results determine
/// the whole-array result.
pub proof fn lemma_stats_concat(s: Seq<i32>, t: Seq<i32>)
    ensures
        seq_sum(s + t) == seq_sum(s) + seq_sum(t),
        seq_min(s + t) == if seq_min(s) <= seq_min(t) {
            seq_min(s)
        } else {
            seq_min(t)
        },
        seq_max(s + t) == if seq_max(s) >= seq_max(t) {
            seq_max(s)
        } else {
            seq_max(t)
        },
    decreases t.len(),
{
    if t.len() == 0 {
        assert(s + t =~= s);
    } else {
        lemma_stats_concat(s, t.drop_last());
        assert((s + t).drop_last() =~= s + t.drop_last());
        assert((s + t).last() == t.last());
    }
}

/// The aggregator's whole-range statistics equal the combination of the
/// statistics of two adjacent sections meeting at `mid`.
pub proof fn lemma_stats_split(s: Seq<i32>, lo: int, mid: int, hi: int)
    requires
        0 <= lo <= mid <= hi <= s.len(),
    ensures
        seq_sum(s.subrange(lo, hi)) == seq_sum(s.subrange(lo, mid)) + seq_sum(s.subrange(mid, hi)),
        seq_min(s.subrange(lo, hi)) == if seq_min(s.subrange(lo, mid)) <= seq_min(
            s.subrange(mid, hi),
        ) {
            seq_min(s.subrange(lo, mid))
        } else {
            seq_min(s.subrange(mid, hi))
        },
        seq_max(s.subrange(lo, hi)) == if seq_max(s.subrange(lo, mid)) >= seq_max(
            s.subrange(mid, hi),
        ) {
            seq_max(s.subrange(lo, mid))
        } else {
            seq_max(s.subrange(mid, hi))
        },
{
    assert(s.subrange(lo, hi) =~= s.subrange(lo, mid) + s.subrange(mid, hi));
    lemma_stats_concat(s.subrange(lo, mid), s.subrange(mid, hi));
}


/// The sum of the per-section sums, section by section.
pub open spec fn sections_sum(s: Seq<i32>, sections: Seq<Section>) -> int
    decreases sections.len(),
{
    if sections.len() == 0 {
        0
    } else {
        seq_sum(s.subrange(sections[0].start as int, sections[0].end as int)) + sections_sum(
            s,
            sections.drop_first(),
        )
    }
}

/// The minimum over the per-section minimums, `i32::MAX` with no sections.
pub open spec fn sections_min(s: Seq<i32>, sections: Seq<Section>) -> int
    decreases sections.len(),
{
    if sections.len() == 0 {
        i32::MAX as int
    } else if seq_min(s.subrange(sections[0].start as int, sections[0].end as int)) <= sections_min(
        s,
        sections.drop_first(),
    ) {
        seq_min(s.subrange(sections[0].start as int, sections[0].end as int))
    } else {
        sections_min(s, sections.drop_first())
    }
}

/// The maximum over the per-section maximums, `i32::MIN` with no sections.
pub open spec fn sections_max(s: Seq<i32>, sections: Seq<Section>) -> int
    decreases sections.len(),
{
    if sections.len() == 0 {
        i32::MIN as int
    } else if seq_max(s.subrange(sections[0].start as int, sections[0].end as int)) >= sections_max(
        s,
        sections.drop_first(),
    ) {
        seq_max(s.subrange(sections[0].start as int, sections[0].end as int))
    } else {
        sections_max(s, sections.drop_first())
    }
}

/// The minimum never exceeds its own sentinel and the maximum never falls
/// below its own: every element is a real `i32`.
pub proof fn lemma_stats_bounds(s: Seq<i32>)
    ensures
        seq_min(s) <= i32::MAX,
        seq_max(s) >= i32::MIN,
    decreases s.len(),
{
    if s.len() > 0 {
        lemma_stats_bounds(s.drop_last());
    }
}

proof fn lemma_sectioned_stats_from(s: Seq<i32>, sections: Seq<Section>, lo: int)
    requires
        sections.len() > 0,
        0 <= lo <= s.len(),
        sections[0].start == lo,
        sections[sections.len() - 1].end == s.len(),
        forall|k: int| 0 <= k < sections.len() ==> #[trigger] sections[k].start <= sections[k].end,
        forall|k: int|
            0 <= k < sections.len() - 1 ==> #[trigger] sections[k].end == sections[k + 1].start,
        forall|k: int| 0 <= k < sections.len() ==> #[trigger] sections[k].end <= s.len(),
    ensures
        sections_sum(s, sections) == seq_sum(s.subrange(lo, s.len() as int)),
        sections_min(s, sections) == seq_min(s.subrange(lo, s.len() as int)),
        sections_max(s, sections) == seq_max(s.subrange(lo, s.len() as int)),
    decreases sections.len(),
{
    let mid = sections[0].end as int;
    let head = s.subrange(lo, mid);
    let rest = sections.drop_first();
    lemma_stats_bounds(head);
    assert(sections_sum(s, sections) == seq_sum(head) + sections_sum(s, rest));
    if sections.len() == 1 {
        assert(mid == s.len());
        assert(rest.len() == 0);
        assert(sections_sum(s, rest) == 0);
        assert(sections_min(s, rest) == i32::MAX as int);
        assert(sections_max(s, rest) == i32::MIN as int);
    } else {
        assert(rest[0].start == sections[1].start == mid);
        assert(rest[rest.len() - 1].end == sections[sections.len() - 1].end);
        assert(forall|k: int|
            0 <= k < rest.len() ==> #[trigger] rest[k].start <= rest[k].end && rest[k].end
                <= s.len());
        assert(forall|k: int|
            0 <= k < rest.len() - 1 ==> #[trigger] rest[k].end == rest[k + 1].start);
        lemma_sectioned_stats_from(s, rest, mid);
        lemma_stats_split(s, lo, mid, s.len() as int);
        assert(seq_sum(s.subrange(lo, s.len() as int)) == seq_sum(head) + seq_sum(
            s.subrange(mid, s.len() as int),
        ));
    }
}

/// Sectioned statistics cover the whole array: over any tiling of the
/// index range, the per-section sums add up to the aggregator's global sum,
/// and the per-section minimums and maximums combine into the global ones.
pub proof fn lemma_sectioned_stats_cover(s: Seq<i32>, sections: Seq<Section>)
    requires
        sections_tile(sections, s.len() as int),
    ensures
        sections_sum(s, sections) == seq_sum(s),
        sections_min(s, sections) == seq_min(s),
        sections_max(s, sections) == seq_max(s),
{
    assert forall|k: int| 0 <= k < sections.len() implies #[trigger] sections[k].end
        <= s.len() by {
        if k < sections.len() - 1 {
            crate::orchestrator::lemma_sections_ordered(sections, s.len() as int);
            assert(sections[k].end <= sections[sections.len() - 1].start);
        }
    }
    lemma_sectioned_stats_from(s, sections, 0);
    assert(s.subrange(0, s.len() as int) =~= s);
}

} // verus!
