use vstd::prelude::*;

use crate::errors::DownloadError;

verus! {

/// Where the range that begins at `cursor` ends: `step` bytes further,
/// capped at `end`.
pub open spec fn range_cut(cursor: u64, end: u64, step: u64) -> u64 {
    if end - cursor <= step {
        end
    } else {
        (cursor + step) as u64
    }
}

/// The download plan for `[start, end)` with chunk size `step`: an
/// ordered sequence of half-open byte ranges, each of at most `step`
/// bytes, that together cover the interval exactly once. Empty when
/// `end <= start`.
pub open spec fn plan_seq(start: u64, end: u64, step: u64) -> Seq<(u64, u64)>
    decreases end - start,
{
    if step == 0 || start >= end {
        Seq::empty()
    } else {
        seq![(start, range_cut(start, end, step))] + plan_seq(range_cut(start, end, step), end, step)
    }
}

/// Walks the download plan for `[start, end)` in pieces of at most
/// `step` bytes. Emitting a range advances the cursor to that range's
/// end, so each emitted range is a pure function of the previous
/// cursor position.
#[derive(Debug)]
pub struct PartialRangeIterator {
    start: u64,
    end: u64,
    step: u64,
}

impl PartialRangeIterator {
    /// A usable iterator carries a positive step.
    pub closed spec fn wf(self) -> bool {
        self.step > 0
    }

    /// The ranges this iterator has yet to emit.
    pub closed spec fn remaining(self) -> Seq<(u64, u64)> {
        plan_seq(self.start, self.end, self.step)
    }

    /// Builds the plan cursor for `[start, end)` with chunk size
    /// `buffer_size`. A zero chunk size is a configuration error and
    /// the operation never starts.
    pub fn new(start: u64, end: u64, buffer_size: u64) -> (r: Result<Self, DownloadError>)
        ensures
            buffer_size > 0 ==> (r matches Ok(it) && it.wf() && it.remaining()
                == plan_seq(start, end, buffer_size)),
            buffer_size == 0 ==> r == Err::<Self, DownloadError>(DownloadError::Configuration),
    {
        if buffer_size == 0 {
            Err(DownloadError::Configuration)
        } else {
            Ok(PartialRangeIterator { start, end, step: buffer_size })
        }
    }

    /// Emits the next range of the plan, or `None` once the cursor has
    /// reached the end. Exhaustion is the normal end of the sequence,
    /// not a failure.
    pub fn next(&mut self) -> (r: Option<(u64, u64)>)
        requires
            old(self).wf(),
        ensures
            final(self).wf(),
            old(self).remaining().len() == 0 ==> r is None && *final(self) == *old(self),
            old(self).remaining().len() > 0 ==> r == Some(old(self).remaining()[0])
                && final(self).remaining() == old(self).remaining().drop_first(),
    {
        if self.start >= self.end {
            return None;
        }
        let cut = if self.end - self.start <= self.step {
            self.end
        } else {
            self.start + self.step
        };
        let range = (self.start, cut);
        proof {
            assert(old(self).remaining() =~= seq![range]
                + plan_seq(range_cut(old(self).start, old(self).end, old(self).step),
                    old(self).end, old(self).step));
            assert(old(self).remaining().drop_first() =~= plan_seq(
                range_cut(old(self).start, old(self).end, old(self).step),
                old(self).end, old(self).step));
        }
        self.start = cut;
        Some(range)
    }
}

/// The number of bytes a sequence of ranges will deliver: the sum of
/// the lengths of its ranges.
pub open spec fn planned_total(ranges: Seq<(u64, u64)>) -> int
    decreases ranges.len(),
{
    if ranges.len() == 0 {
        0
    } else {
        ranges[0].1 - ranges[0].0 + planned_total(ranges.drop_first())
    }
}

proof fn lemma_plan_shape(start: u64, end: u64, step: u64)
    requires
        step > 0,
    ensures
        start >= end ==> plan_seq(start, end, step).len() == 0,
        start < end ==> plan_seq(start, end, step).len() == ((end - start) + (step - 1)) / (
        step as int),
        start < end ==> plan_seq(start, end, step).len() >= 1,
        start < end ==> plan_seq(start, end, step)[0].0 == start,
        start < end ==> plan_seq(start, end, step).last().1 == end,
        forall|i: int|
            0 <= i < plan_seq(start, end, step).len() ==> start <= (#[trigger] plan_seq(
                start,
                end,
                step,
            )[i]).0 < plan_seq(start, end, step)[i].1 <= end,
        forall|i: int|
            0 <= i < plan_seq(start, end, step).len() - 1 ==> (#[trigger] plan_seq(
                start,
                end,
                step,
            )[i]).1 == plan_seq(start, end, step)[i + 1].0,
        forall|i: int|
            0 <= i < plan_seq(start, end, step).len() - 1 ==> (#[trigger] plan_seq(
                start,
                end,
                step,
            )[i]).1 - plan_seq(start, end, step)[i].0 == step,
        start < end ==> plan_seq(start, end, step).last().1 - plan_seq(start, end, step).last().0
            == (if (end - start) % (step as int) == 0 {
            step as int
        } else {
            (end - start) % (step as int)
        }),
        planned_total(plan_seq(start, end, step)) == (if start < end {
            end - start
        } else {
            0
        }),
    decreases end - start,
{
    if start >= end {
        assert(plan_seq(start, end, step) =~= Seq::<(u64, u64)>::empty());
    } else {
        let cut = range_cut(start, end, step);
        let head = (start, cut);
        let tail = plan_seq(cut, end, step);
        let p = plan_seq(start, end, step);
        assert(p == seq![head] + tail);
        lemma_plan_shape(cut, end, step);
        assert(p[0] == head);
        assert(forall|i: int| 1 <= i < p.len() ==> p[i] == tail[i - 1]);
        assert(p.drop_first() =~= tail);
        let d = end - start;
        let st = step as int;
        if d <= st {
            assert(cut == end);
            assert(tail =~= Seq::<(u64, u64)>::empty());
            assert(p.len() == 1);
            assert((d + (st - 1)) / st == 1) by {
                vstd::arithmetic::div_mod::lemma_div_plus_one(d - 1, st);
                vstd::arithmetic::div_mod::lemma_basic_div_specific_divisor(st);
                assert((d - 1) / st == 0);
            }
            if d % st == 0 {
                assert(d == st) by {
                    if d < st {
                        vstd::arithmetic::div_mod::lemma_small_mod(d as nat, st as nat);
                    }
                }
            } else {
                assert(d % st == d) by {
                    if d == st {
                        vstd::arithmetic::div_mod::lemma_mod_self_0(st);
                    } else {
                        vstd::arithmetic::div_mod::lemma_small_mod(d as nat, st as nat);
                    }
                }
            }
        } else {
            assert(cut == start + step);
            assert(cut < end);
            let dt = end - cut;
            assert(dt == d - st);
            assert(tail.len() >= 1);
            assert(p.len() == 1 + (dt + (st - 1)) / st);
            assert((dt + (st - 1)) / st + 1 == (d + (st - 1)) / st) by {
                vstd::arithmetic::div_mod::lemma_div_plus_one(dt + st - 1, st);
            }
            assert(p.last() == tail.last());
            assert(dt % st == d % st) by {
                vstd::arithmetic::div_mod::lemma_mod_sub_multiples_vanish(d, st);
            }
        }
    }
}

/// Law: for `end > start` and `step > 0`, the planner's ranges,
/// concatenated in order, cover `[start, end)` exactly — the first
/// range starts at `start`, each later range starts where its
/// predecessor stopped, the last range stops at `end`, every range is
/// non-empty and stays inside the interval — their lengths sum to
/// `end - start`, and their count is `ceil((end - start) / step)`,
/// written below as `((end - start) + (step - 1)) / step`.
pub proof fn lemma_plan_covers_interval(start: u64, end: u64, step: u64)
    requires
        step > 0,
        start < end,
    ensures
        plan_seq(start, end, step).len() == ((end - start) + (step - 1)) / (step as int),
        plan_seq(start, end, step)[0].0 == start,
        plan_seq(start, end, step).last().1 == end,
        forall|i: int|
            0 <= i < plan_seq(start, end, step).len() ==> start <= (#[trigger] plan_seq(
                start,
                end,
                step,
            )[i]).0 < plan_seq(start, end, step)[i].1 <= end,
        forall|i: int|
            0 <= i < plan_seq(start, end, step).len() - 1 ==> (#[trigger] plan_seq(
                start,
                end,
                step,
            )[i]).1 == plan_seq(start, end, step)[i + 1].0,
        planned_total(plan_seq(start, end, step)) == end - start,
{
    lemma_plan_shape(start, end, step);
}

proof fn lemma_plan_pair_ordered(start: u64, end: u64, step: u64, i: int, j: int)
    requires
        step > 0,
        0 <= i < j < plan_seq(start, end, step).len(),
    ensures
        plan_seq(start, end, step)[i].1 <= plan_seq(start, end, step)[j].0,
    decreases j - i,
{
    lemma_plan_shape(start, end, step);
    if j > i + 1 {
        lemma_plan_pair_ordered(start, end, step, i, j - 1);
    }
}

/// Law: within one plan the ranges never overlap — a range that
/// comes earlier ends no later than any later one begins.
pub proof fn lemma_plan_no_overlap(start: u64, end: u64, step: u64)
    requires
        step > 0,
    ensures
        forall|i: int, j: int|
            0 <= i < j < plan_seq(start, end, step).len() ==> (#[trigger] plan_seq(
                start,
                end,
                step,
            )[i]).1 <= (#[trigger] plan_seq(start, end, step)[j]).0,
{
    assert forall|i: int, j: int|
        0 <= i < j < plan_seq(start, end, step).len() implies (plan_seq(start, end, step)[i]).1
        <= (plan_seq(start, end, step)[j]).0 by {
        lemma_plan_pair_ordered(start, end, step, i, j);
    }
}

/// Law: within one plan no byte of the interval is missed — every
/// offset in `[start, end)` falls inside some planned range.
pub proof fn lemma_plan_no_gap(start: u64, end: u64, step: u64, offset: u64)
    requires
        step > 0,
        start <= offset < end,
    ensures
        exists|i: int|
            0 <= i < plan_seq(start, end, step).len() && (#[trigger] plan_seq(
                start,
                end,
                step,
            )[i]).0 <= offset < plan_seq(start, end, step)[i].1,
    decreases end - start,
{
    let p = plan_seq(start, end, step);
    let cut = range_cut(start, end, step);
    let tail = plan_seq(cut, end, step);
    assert(p == seq![(start, cut)] + tail);
    if offset < cut {
        assert(p[0].0 <= offset < p[0].1);
    } else {
        lemma_plan_no_gap(cut, end, step, offset);
        let i0 = choose|i: int|
            0 <= i < plan_seq(cut, end, step).len() && (#[trigger] plan_seq(cut, end, step)[i]).0
                <= offset < plan_seq(cut, end, step)[i].1;
        assert(p[i0 + 1] == tail[i0]);
        assert(p[i0 + 1].0 <= offset < p[i0 + 1].1);
    }
}

/// Law: for `end <= start` the planner emits no ranges at all.
pub proof fn lemma_plan_empty(start: u64, end: u64, step: u64)
    requires
        end <= start,
    ensures
        plan_seq(start, end, step) == Seq::<(u64, u64)>::empty(),
{
    assert(plan_seq(start, end, step) =~= Seq::<(u64, u64)>::empty());
}

/// Law: the plan is a pure function of its inputs — rebuilding it
/// from the same `start`, `end` and `step` yields the very same
/// sequence of ranges.
pub proof fn lemma_plan_reproducible(
    start1: u64,
    end1: u64,
    step1: u64,
    start2: u64,
    end2: u64,
    step2: u64,
)
    requires
        start1 == start2,
        end1 == end2,
        step1 == step2,
    ensures
        plan_seq(start1, end1, step1) == plan_seq(start2, end2, step2),
{
}

/// Law: a step that reaches across the whole interval produces
/// exactly one range, and it spans the interval.
pub proof fn lemma_plan_single_range(start: u64, end: u64, step: u64)
    requires
        step > 0,
        start < end,
        step >= end - start,
    ensures
        plan_seq(start, end, step) == seq![(start, end)],
{
    assert(range_cut(start, end, step) == end);
    assert(plan_seq(end, end, step) =~= Seq::<(u64, u64)>::empty());
    assert(plan_seq(start, end, step) =~= seq![(start, end)]);
}

/// Law: every range before the last spans exactly `step` bytes; the
/// last spans `step` bytes when `step` divides `end - start`, and
/// exactly the shorter remainder `(end - start) % step` otherwise.
pub proof fn lemma_plan_range_sizes(start: u64, end: u64, step: u64)
    requires
        step > 0,
        start < end,
    ensures
        forall|i: int|
            0 <= i < plan_seq(start, end, step).len() - 1 ==> (#[trigger] plan_seq(
                start,
                end,
                step,
            )[i]).1 - plan_seq(start, end, step)[i].0 == step,
        (end - start) % (step as int) == 0 ==> plan_seq(start, end, step).last().1 - plan_seq(
            start,
            end,
            step,
        ).last().0 == step,
        (end - start) % (step as int) != 0 ==> plan_seq(start, end, step).last().1 - plan_seq(
            start,
            end,
            step,
        ).last().0 == (end - start) % (step as int),
        (end - start) % (step as int) != 0 ==> plan_seq(start, end, step).last().1 - plan_seq(
            start,
            end,
            step,
        ).last().0 < step,
{
    lemma_plan_shape(start, end, step);
    vstd::arithmetic::div_mod::lemma_mod_division_less_than_divisor(
        end - start,
        step as int,
    );
}

/// Materialises the whole plan: the ordered ranges that cover
/// `[start, end)` in pieces of at most `step` bytes. Rebuilding the
/// plan from the same inputs yields the same ranges.
pub fn plan_ranges(start: u64, end: u64, step: u64) -> (r: Result<Vec<(u64, u64)>, DownloadError>)
    ensures
        step > 0 ==> (r matches Ok(v) && v@ == plan_seq(start, end, step)),
        step == 0 ==> r == Err::<Vec<(u64, u64)>, DownloadError>(DownloadError::Configuration),
{
    let mut it = match PartialRangeIterator::new(start, end, step) {
        Ok(it) => it,
        Err(e) => {
            return Err(e);
        },
    };
    let mut out: Vec<(u64, u64)> = Vec::new();
    loop
        invariant
            step > 0,
            it.wf(),
            out@ + it.remaining() == plan_seq(start, end, step),
        ensures
            out@ == plan_seq(start, end, step),
        decreases it.remaining().len(),
    {
        let ghost prev_out = out@;
        let ghost prev_remaining = it.remaining();
        match it.next() {
            None => {
                proof {
                    assert(prev_out + prev_remaining =~= prev_out);
                }
                break;
            },
            Some(range) => {
                out.push(range);
                proof {
                    assert(prev_out.push(range) + it.remaining() =~= prev_out + prev_remaining);
                }
            },
        }
    }
    Ok(out)
}

} // verus!
