//! Distribution schedules: slots of linear emission and what they emit over
//! a window of time.
use vstd::prelude::*;

use crate::error::ContractError;
use crate::math::{lemma_ratio_at_most, multiply_ratio, ratio_floor};

verus! {

/// A slot `(start_time, end_time, amount)`: `amount` is emitted linearly over
/// `[start_time, end_time)`.
pub type Slot = (u64, u64, u128);

/// Whether `slot` takes part in an accrual from `last` to `now`: it has
/// started by `now` and has not ended before `last`.
pub open spec fn slot_overlaps(slot: Slot, last: u64, now: u64) -> bool {
    slot.0 <= now && slot.1 >= last
}

/// What `slot` emits between `last` and `now`: the overlap of the two windows
/// times the slot's exact per-second rate, floored once. `None` where the
/// overlap cannot be measured: the clipped window runs backwards, or the slot
/// has no positive length.
pub open spec fn slot_accrual(slot: Slot, last: u64, now: u64) -> Option<nat> {
    if !slot_overlaps(slot, last, now) {
        Some(0)
    } else {
        let hi: int = if slot.1 < now { slot.1 as int } else { now as int };
        let lo: int = if slot.0 > last { slot.0 as int } else { last as int };
        if hi < lo || slot.1 <= slot.0 {
            None
        } else {
            Some(ratio_floor(hi - lo, slot.2 as int, slot.1 - slot.0) as nat)
        }
    }
}

/// What a whole schedule emits between `last` and `now`: the sum of its
/// slots' accruals, or `None` where one of them is `None`.
pub open spec fn schedule_accrual(schedule: Seq<Slot>, last: u64, now: u64) -> Option<nat>
    decreases schedule.len(),
{
    if schedule.len() == 0 {
        Some(0)
    } else {
        match (
            schedule_accrual(schedule.drop_last(), last, now),
            slot_accrual(schedule.last(), last, now),
        ) {
            (Some(a), Some(b)) => Some(a + b),
            _ => None,
        }
    }
}

/// A slot never emits more than its amount over any window.
pub proof fn lemma_slot_accrual_bounded(slot: Slot, last: u64, now: u64)
    ensures
        slot_accrual(slot, last, now) matches Some(v) ==> v <= slot.2,
{
    if slot_overlaps(slot, last, now) {
        let hi: int = if slot.1 < now { slot.1 as int } else { now as int };
        let lo: int = if slot.0 > last { slot.0 as int } else { last as int };
        if !(hi < lo || slot.1 <= slot.0) {
            lemma_ratio_at_most(slot.2 as int, hi - lo, slot.1 - slot.0);
            assert(ratio_floor(hi - lo, slot.2 as int, slot.1 - slot.0) == ratio_floor(
                slot.2 as int,
                hi - lo,
                slot.1 - slot.0,
            )) by (nonlinear_arith);
        }
    }
}

/// Where a schedule's accrual is defined, so is that of each of its
/// prefixes, and it is no larger.
pub proof fn lemma_schedule_accrual_prefix(schedule: Seq<Slot>, i: int, last: u64, now: u64)
    requires
        0 <= i <= schedule.len(),
        schedule_accrual(schedule, last, now) is Some,
    ensures
        schedule_accrual(schedule.take(i), last, now) is Some,
        schedule_accrual(schedule.take(i), last, now)->0 <= schedule_accrual(
            schedule,
            last,
            now,
        )->0,
    decreases schedule.len(),
{
    if i == schedule.len() {
        assert(schedule.take(i) =~= schedule);
    } else {
        let rest = schedule.drop_last();
        assert(rest.take(i) =~= schedule.take(i));
        lemma_schedule_accrual_prefix(rest, i, last, now);
    }
}

/// What one slot emits between `last` and `now`, or `None` where
/// `slot_accrual` is.
fn slot_reward(slot: Slot, last: u64, now: u64) -> (r: Option<u128>)
    ensures
        match slot_accrual(slot, last, now) {
            Some(v) => r == Some(v as u128) && v <= u128::MAX,
            None => r is None,
        },
{
    proof {
        lemma_slot_accrual_bounded(slot, last, now);
    }
    if slot.0 > now || slot.1 < last {
        return Some(0);
    }
    let hi: u64 = if slot.1 < now { slot.1 } else { now };
    let lo: u64 = if slot.0 > last { slot.0 } else { last };
    if hi < lo || slot.1 <= slot.0 {
        return None;
    }
    let passed: u64 = hi - lo;
    let length: u64 = slot.1 - slot.0;
    multiply_ratio(passed as u128, slot.2, length as u128)
}

/// What `schedule` emits between `last` and `now`: `None` where its accrual
/// is undefined or does not fit in `u128`.
pub fn scheduled_reward(schedule: &Vec<Slot>, last: u64, now: u64) -> (r: Option<u128>)
    ensures
        match schedule_accrual(schedule@, last, now) {
            Some(v) => if v <= u128::MAX {
                r == Some(v as u128)
            } else {
                r is None
            },
            None => r is None,
        },
{
    let mut acc: u128 = 0;
    let mut i: usize = 0;
    while i < schedule.len()
        invariant
            i <= schedule.len(),
            schedule_accrual(schedule@.take(i as int), last, now) == Some(acc as nat),
        decreases schedule.len() - i,
    {
        let ghost prefix = schedule@.take(i as int);
        assert(schedule@.take(i + 1).drop_last() =~= prefix);
        match slot_reward(schedule[i], last, now) {
            None => {
                proof {
                    assert(schedule_accrual(schedule@.take(i + 1), last, now) is None);
                    if schedule_accrual(schedule@, last, now) is Some {
                        lemma_schedule_accrual_prefix(schedule@, i + 1, last, now);
                    }
                }
                return None;
            },
            Some(v) => {
                if acc > u128::MAX - v {
                    proof {
                        if schedule_accrual(schedule@, last, now) is Some {
                            lemma_schedule_accrual_prefix(schedule@, i + 1, last, now);
                        }
                    }
                    return None;
                }
                acc = acc + v;
            },
        }
        i = i + 1;
    }
    assert(schedule@.take(i as int) =~= schedule@);
    Some(acc)
}

/// How many times `x` occurs in `schedule`.
pub open spec fn count(schedule: Seq<Slot>, x: Slot) -> nat
    decreases schedule.len(),
{
    if schedule.len() == 0 {
        0
    } else {
        count(schedule.drop_last(), x) + if schedule.last() == x {
            1nat
        } else {
            0nat
        }
    }
}

/// Whether replacing schedule `old` by `new`, with the index advanced to
/// `last`, is allowed. A slot has started where its start is at most `last`.
/// The new schedule may not be shorter; each started slot must occur in it
/// at least as often as in the old one; and no started slot may occur in it
/// more often than in the old one.
pub open spec fn schedule_update_check(old: Seq<Slot>, new: Seq<Slot>, last: u64) -> Result<
    (),
    ContractError,
> {
    if new.len() < old.len() {
        Err(ContractError::ScheduleTooShort)
    } else if exists|i: int|
        0 <= i < old.len() && (#[trigger] old[i]).0 <= last && count(old, old[i]) > count(
            new,
            old[i],
        ) {
        Err(ContractError::RemovesStartedDistribution)
    } else if exists|i: int|
        0 <= i < new.len() && (#[trigger] new[i]).0 <= last && count(new, new[i]) > count(
            old,
            new[i],
        ) {
        Err(ContractError::AddsStartedDistribution)
    } else {
        Ok(())
    }
}

/// A count never exceeds the length.
proof fn lemma_count_bounded(schedule: Seq<Slot>, x: Slot)
    ensures
        count(schedule, x) <= schedule.len(),
    decreases schedule.len(),
{
    if schedule.len() > 0 {
        lemma_count_bounded(schedule.drop_last(), x);
    }
}

/// How many times `x` occurs in `schedule`.
pub(crate) fn count_slot(schedule: &Vec<Slot>, x: Slot) -> (r: usize)
    ensures
        r == count(schedule@, x),
{
    let mut c: usize = 0;
    let mut i: usize = 0;
    while i < schedule.len()
        invariant
            i <= schedule@.len(),
            c == count(schedule@.take(i as int), x),
        decreases schedule.len() - i,
    {
        assert(schedule@.take(i + 1).drop_last() =~= schedule@.take(i as int));
        proof {
            lemma_count_bounded(schedule@.take(i as int), x);
        }
        let y = schedule[i];
        if y.0 == x.0 && y.1 == x.1 && y.2 == x.2 {
            c = c + 1;
        }
        i = i + 1;
    }
    assert(schedule@.take(i as int) =~= schedule@);
    c
}

/// The sum of the amounts of a schedule's slots.
pub open spec fn total_amount(schedule: Seq<Slot>) -> int
    decreases schedule.len(),
{
    if schedule.len() == 0 {
        0
    } else {
        total_amount(schedule.drop_last()) + schedule.last().2
    }
}

/// A slot that has started by `now`, cut at `now`: one that has ended before
/// `now` stays whole; one still running ends at `now` with the part of its
/// amount emitted so far (the elapsed time times its exact rate, floored).
pub open spec fn truncate_slot(slot: Slot, now: u64) -> Slot {
    if slot.1 < now {
        slot
    } else {
        (slot.0, now, ratio_floor(now - slot.0, slot.2 as int, slot.1 - slot.0) as u128)
    }
}

/// The slots of `schedule` that started before `now`, in order, each cut at
/// `now`; the slots that have not started are dropped.
pub open spec fn started_part(schedule: Seq<Slot>, now: u64) -> Seq<Slot>
    decreases schedule.len(),
{
    if schedule.len() == 0 {
        Seq::empty()
    } else {
        let rest = started_part(schedule.drop_last(), now);
        if schedule.last().0 < now {
            rest.push(truncate_slot(schedule.last(), now))
        } else {
            rest
        }
    }
}

/// Cutting the schedule at any time never raises its total.
pub proof fn lemma_started_part_bounded(schedule: Seq<Slot>, now: u64)
    ensures
        0 <= total_amount(started_part(schedule, now)) <= total_amount(schedule),
        total_amount(schedule) >= 0,
    decreases schedule.len(),
{
    if schedule.len() > 0 {
        let rest = started_part(schedule.drop_last(), now);
        lemma_started_part_bounded(schedule.drop_last(), now);
        let slot = schedule.last();
        if slot.0 < now {
            let t = truncate_slot(slot, now);
            assert(rest.push(t).drop_last() =~= rest);
            if slot.1 >= now {
                lemma_ratio_at_most(slot.2 as int, now - slot.0, slot.1 - slot.0);
                assert(ratio_floor(now - slot.0, slot.2 as int, slot.1 - slot.0) == ratio_floor(
                    slot.2 as int,
                    now - slot.0,
                    slot.1 - slot.0,
                )) by (nonlinear_arith);
            }
        }
    }
}

/// The sum of the schedule's amounts, `None` where it exceeds `u128::MAX`.
pub fn total_distribution(schedule: &Vec<Slot>) -> (r: Option<u128>)
    ensures
        total_amount(schedule@) <= u128::MAX ==> r == Some(total_amount(schedule@) as u128),
        total_amount(schedule@) > u128::MAX ==> r is None,
{
    let mut acc: u128 = 0;
    let mut i: usize = 0;
    while i < schedule.len()
        invariant
            i <= schedule@.len(),
            acc == total_amount(schedule@.take(i as int)),
        decreases schedule.len() - i,
    {
        assert(schedule@.take(i + 1).drop_last() =~= schedule@.take(i as int));
        if acc > u128::MAX - schedule[i].2 {
            proof {
                lemma_total_prefix(schedule@, i + 1);
            }
            return None;
        }
        acc = acc + schedule[i].2;
        i = i + 1;
    }
    assert(schedule@.take(i as int) =~= schedule@);
    Some(acc)
}

/// A prefix of a schedule has no larger total.
proof fn lemma_total_prefix(schedule: Seq<Slot>, i: int)
    requires
        0 <= i <= schedule.len(),
    ensures
        total_amount(schedule.take(i)) <= total_amount(schedule),
    decreases schedule.len(),
{
    if i < schedule.len() {
        assert(schedule.drop_last().take(i) =~= schedule.take(i));
        lemma_total_prefix(schedule.drop_last(), i);
    } else {
        assert(schedule.take(i) =~= schedule);
    }
}

/// Cuts `schedule` at `now` and sums what the cut schedule distributes.
pub fn split_schedule(schedule: &Vec<Slot>, now: u64) -> (r: (Vec<Slot>, u128))
    requires
        total_amount(schedule@) <= u128::MAX,
    ensures
        r.0@ == started_part(schedule@, now),
        r.1 == total_amount(started_part(schedule@, now)),
{
    let mut kept: Vec<Slot> = Vec::new();
    let mut distributed: u128 = 0;
    let mut i: usize = 0;
    while i < schedule.len()
        invariant
            i <= schedule@.len(),
            total_amount(schedule@) <= u128::MAX,
            kept@ == started_part(schedule@.take(i as int), now),
            distributed == total_amount(kept@),
        decreases schedule.len() - i,
    {
        let ghost prefix = schedule@.take(i + 1);
        assert(prefix.drop_last() =~= schedule@.take(i as int));
        proof {
            lemma_started_part_bounded(prefix, now);
            lemma_total_prefix(schedule@, i + 1);
        }
        let slot = schedule[i];
        if slot.0 < now {
            let cut: Slot = if slot.1 < now {
                slot
            } else {
                let part = multiply_ratio((now - slot.0) as u128, slot.2, (slot.1 - slot.0) as u128);
                proof {
                    lemma_ratio_at_most(slot.2 as int, now - slot.0, slot.1 - slot.0);
                    assert(ratio_floor(now - slot.0, slot.2 as int, slot.1 - slot.0)
                        == ratio_floor(slot.2 as int, now - slot.0, slot.1 - slot.0))
                        by (nonlinear_arith);
                }
                (slot.0, now, part.unwrap())
            };
            let ghost before = kept@;
            kept.push(cut);
            assert(kept@.drop_last() =~= before);
            distributed = distributed + cut.2;
        }
        i = i + 1;
    }
    assert(schedule@.take(i as int) =~= schedule@);
    (kept, distributed)
}

/// A copy of a schedule.
pub(crate) fn copy_schedule(schedule: &Vec<Slot>) -> (r: Vec<Slot>)
    ensures
        r@ == schedule@,
{
    let mut r: Vec<Slot> = Vec::new();
    let mut i: usize = 0;
    while i < schedule.len()
        invariant
            i <= schedule@.len(),
            r@ == schedule@.take(i as int),
        decreases schedule.len() - i,
    {
        r.push(schedule[i]);
        i = i + 1;
        assert(r@ =~= schedule@.take(i as int));
    }
    assert(schedule@.take(i as int) =~= schedule@);
    r
}

} // verus!
