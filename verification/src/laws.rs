//! What holds of the scheduler over whole runs: nothing is lost, nothing
//! is released twice, and every event that waits leaves in the end.

use vstd::prelude::*;
use vstd::arithmetic::div_mod::{lemma_fundamental_div_mod, lemma_mod_pos_bound};
use crate::clock::{
    carry_at, clock_at, elapsed_of, lemma_block_is_its_ticks, lemma_clock_keeps_time,
    lemma_span_reaches, span_of, NANOS_PER_SECOND,
};
use crate::event::{HostEvent, IncomingEvent, PendingEvent};
use crate::scheduler::{released, retained, Holdings};
use crate::variance::{floored, VARIANCE_FLOOR};

verus! {

/// One call on a scheduler.
pub ghost enum Operation {
    /// An item of the host is submitted with the delay drawn for it.
    Submit { item: HostEvent, delay: u64 },
    /// Time goes by.
    Advance { elapsed: u64 },
    /// The passed-through events are collected.
    Drain,
}

/// The holdings after `op` was applied to `holdings`.
pub open spec fn apply(holdings: Holdings, op: Operation) -> Holdings {
    match op {
        Operation::Submit { item, delay } => holdings.submit_item(item, delay),
        Operation::Advance { elapsed } => holdings.advance(elapsed as nat),
        Operation::Drain => holdings.drain(),
    }
}

/// The holdings of a scheduler that started empty and went through `ops`
/// in order.
pub open spec fn run(ops: Seq<Operation>) -> Holdings
    decreases ops.len(),
{
    if ops.len() == 0 {
        Holdings::empty()
    } else {
        apply(run(ops.drop_last()), ops.last())
    }
}

/// The number of events submitted in `ops`.
pub open spec fn submitted(ops: Seq<Operation>) -> nat
    decreases ops.len(),
{
    if ops.len() == 0 {
        0
    } else {
        submitted(ops.drop_last()) + match ops.last() {
            Operation::Submit { .. } => 1nat,
            _ => 0nat,
        }
    }
}

/// The number of events that the advances in `ops` released, on a
/// scheduler that started empty.
pub open spec fn released_count(ops: Seq<Operation>) -> nat
    decreases ops.len(),
{
    if ops.len() == 0 {
        0
    } else {
        released_count(ops.drop_last()) + match ops.last() {
            Operation::Advance { elapsed } => released(
                run(ops.drop_last()).pending,
                elapsed as nat,
            ).len(),
            _ => 0nat,
        }
    }
}

/// The number of events that the drains in `ops` handed out, on a
/// scheduler that started empty.
pub open spec fn drained_count(ops: Seq<Operation>) -> nat
    decreases ops.len(),
{
    if ops.len() == 0 {
        0
    } else {
        drained_count(ops.drop_last()) + match ops.last() {
            Operation::Drain => run(ops.drop_last()).immediate.len(),
            _ => 0nat,
        }
    }
}

/// The events of the entries of `pending`, in order.
pub open spec fn events_of(pending: Seq<PendingEvent>) -> Seq<IncomingEvent> {
    Seq::new(pending.len(), |i: int| pending[i].event)
}

/// The sum of `steps`.
pub open spec fn total(steps: Seq<nat>) -> nat
    decreases steps.len(),
{
    if steps.len() == 0 {
        0
    } else {
        total(steps.drop_last()) + steps.last()
    }
}

/// The entries that still wait after one advance for each of `steps`, in
/// order.
pub open spec fn pending_after(pending: Seq<PendingEvent>, steps: Seq<nat>) -> Seq<PendingEvent>
    decreases steps.len(),
{
    if steps.len() == 0 {
        pending
    } else {
        retained(pending_after(pending, steps.drop_last()), steps.last())
    }
}

/// The events that one advance for each of `steps`, in order, released,
/// those of an earlier advance first.
pub open spec fn released_during(pending: Seq<PendingEvent>, steps: Seq<nat>) -> Seq<IncomingEvent>
    decreases steps.len(),
{
    if steps.len() == 0 {
        Seq::empty()
    } else {
        released_during(pending, steps.drop_last()) + released(
            pending_after(pending, steps.drop_last()),
            steps.last(),
        )
    }
}

/// An advance splits the events that wait in two: each is either released
/// or still waits, so the two counts add up to the count before.
pub proof fn lemma_advance_splits(pending: Seq<PendingEvent>, elapsed: nat)
    ensures
        released(pending, elapsed).len() + retained(pending, elapsed).len() == pending.len(),
    decreases pending.len(),
{
    if pending.len() > 0 {
        lemma_advance_splits(pending.drop_last(), elapsed);
    }
}

/// An advance neither loses nor duplicates an event: the released events
/// together with the events that still wait are the events that waited
/// before, each as often as before.
pub proof fn lemma_advance_keeps_events(pending: Seq<PendingEvent>, elapsed: nat)
    ensures
        released(pending, elapsed).to_multiset().add(
            events_of(retained(pending, elapsed)).to_multiset(),
        ) == events_of(pending).to_multiset(),
    decreases pending.len(),
{
    broadcast use vstd::seq_lib::group_to_multiset_ensures;

    if pending.len() == 0 {
        assert(events_of(pending) =~= Seq::empty());
        assert(events_of(retained(pending, elapsed)) =~= Seq::empty());
    } else {
        let front = pending.drop_last();
        let last = pending.last();
        lemma_advance_keeps_events(front, elapsed);
        assert(events_of(pending) =~= events_of(front).push(last.event));
        if last.remaining > elapsed {
            assert(events_of(retained(pending, elapsed)) =~= events_of(
                retained(front, elapsed),
            ).push(last.event));
        }
        assert(released(pending, elapsed).to_multiset().add(
            events_of(retained(pending, elapsed)).to_multiset(),
        ) =~= events_of(pending).to_multiset());
    }
}

/// Every entry that still waits after an advance has time left.
pub proof fn lemma_retained_have_time_left(pending: Seq<PendingEvent>, elapsed: nat)
    ensures
        forall|i: int|
            0 <= i < retained(pending, elapsed).len() ==> (#[trigger] retained(
                pending,
                elapsed,
            )[i]).remaining > 0,
    decreases pending.len(),
{
    if pending.len() > 0 {
        let front = pending.drop_last();
        lemma_retained_have_time_left(front, elapsed);
        let kept = retained(pending, elapsed);
        assert forall|i: int| 0 <= i < kept.len() implies (#[trigger] kept[i]).remaining > 0 by {
            if pending.last().remaining > elapsed && i < kept.len() - 1 {
                assert(kept[i] == retained(front, elapsed)[i]);
            }
        }
    }
}

/// Conservation: on a scheduler that started empty, every event that was
/// ever submitted is in exactly one place: released by an advance, handed
/// out by a drain, still waiting, or passed through and not yet collected.
pub proof fn lemma_conservation(ops: Seq<Operation>)
    ensures
        submitted(ops) == released_count(ops) + drained_count(ops) + run(ops).pending.len() + run(
            ops,
        ).immediate.len(),
    decreases ops.len(),
{
    if ops.len() > 0 {
        lemma_conservation(ops.drop_last());
        match ops.last() {
            Operation::Advance { elapsed } => {
                lemma_advance_splits(run(ops.drop_last()).pending, elapsed as nat);
            },
            _ => {},
        }
    }
}

/// Conservation while nothing is collected: as long as no drain took
/// place, the events released so far, the events that wait and the events
/// that passed through add up to the events submitted.
pub proof fn lemma_conservation_before_drain(ops: Seq<Operation>)
    requires
        forall|i: int| 0 <= i < ops.len() ==> !(#[trigger] ops[i] is Drain),
    ensures
        drained_count(ops) == 0,
        submitted(ops) == released_count(ops) + run(ops).pending.len() + run(ops).immediate.len(),
    decreases ops.len(),
{
    lemma_conservation(ops);
    if ops.len() > 0 {
        lemma_conservation_before_drain(ops.drop_last());
    }
}

/// Two advances in a row leave waiting what one advance by the sum of
/// their times leaves waiting.
pub proof fn lemma_retained_twice(pending: Seq<PendingEvent>, first: nat, second: nat)
    ensures
        retained(retained(pending, first), second) == retained(pending, first + second),
    decreases pending.len(),
{
    if pending.len() > 0 {
        let front = pending.drop_last();
        let last = pending.last();
        lemma_retained_twice(front, first, second);
        if last.remaining > first {
            let moved = PendingEvent {
                event: last.event,
                remaining: (last.remaining - first) as u64,
            };
            let once = retained(pending, first);
            assert(once == retained(front, first).push(moved));
            assert(once.drop_last() =~= retained(front, first));
            assert(once.last() == moved);
        }
    }
}

/// Two advances in a row release, in some order, what one advance by the
/// sum of their times releases.
pub proof fn lemma_released_twice(pending: Seq<PendingEvent>, first: nat, second: nat)
    ensures
        released(pending, first).to_multiset().add(
            released(retained(pending, first), second).to_multiset(),
        ) == released(pending, first + second).to_multiset(),
    decreases pending.len(),
{
    broadcast use vstd::seq_lib::group_to_multiset_ensures;

    if pending.len() > 0 {
        let front = pending.drop_last();
        let last = pending.last();
        lemma_released_twice(front, first, second);
        if last.remaining > first {
            let moved = PendingEvent {
                event: last.event,
                remaining: (last.remaining - first) as u64,
            };
            let once = retained(pending, first);
            assert(once == retained(front, first).push(moved));
            assert(once.drop_last() =~= retained(front, first));
            assert(once.last() == moved);
        }
    }
    assert(released(pending, first).to_multiset().add(
        released(retained(pending, first), second).to_multiset(),
    ) =~= released(pending, first + second).to_multiset());
}

/// A run of one or more advances amounts to one advance by the sum of
/// their times: the same entries still wait, with the same time left, and
/// the same events were released, each as often, though maybe in another
/// order.
pub proof fn lemma_advances_compose(pending: Seq<PendingEvent>, steps: Seq<nat>)
    requires
        steps.len() > 0,
    ensures
        pending_after(pending, steps) == retained(pending, total(steps)),
        released_during(pending, steps).to_multiset() == released(
            pending,
            total(steps),
        ).to_multiset(),
    decreases steps.len(),
{
    broadcast use vstd::seq_lib::group_to_multiset_ensures;

    let front = steps.drop_last();
    let last = steps.last();
    if front.len() == 0 {
        assert(total(front) == 0);
        assert(pending_after(pending, front) == pending);
        assert(released_during(pending, front) =~= Seq::empty());
        assert(released_during(pending, steps) =~= released(pending, last));
    } else {
        lemma_advances_compose(pending, front);
        lemma_retained_twice(pending, total(front), last);
        lemma_released_twice(pending, total(front), last);
        vstd::seq_lib::lemma_multiset_commutative(
            released_during(pending, front),
            released(pending_after(pending, front), last),
        );
    }
}

/// Eventual release: an event that waits with a given time left is
/// released by a run of one or more advances exactly once, and waits no
/// longer afterwards, as soon as their times add up to at least the time
/// left; while they add up to less, it is not released and keeps waiting
/// with the difference left.
pub proof fn lemma_eventual_release(entry: PendingEvent, steps: Seq<nat>)
    requires
        steps.len() > 0,
    ensures
        entry.remaining <= total(steps) ==> pending_after(seq![entry], steps).len() == 0
            && released_during(seq![entry], steps) == seq![entry.event],
        entry.remaining > total(steps) ==> released_during(seq![entry], steps).len() == 0
            && pending_after(seq![entry], steps) == seq![
            (PendingEvent {
                event: entry.event,
                remaining: (entry.remaining - total(steps)) as u64,
            }),
        ],
{
    broadcast use vstd::seq_lib::group_to_multiset_ensures;

    let alone = seq![entry];
    lemma_advances_compose(alone, steps);
    assert(alone.drop_last() =~= Seq::empty());
    assert(alone.last() == entry);
    let sum = total(steps);
    assert(retained(alone.drop_last(), sum) =~= Seq::empty());
    assert(released(alone.drop_last(), sum) =~= Seq::empty());
    if entry.remaining <= sum {
        assert(released(alone, sum) =~= seq![entry.event]);
        let out = released_during(alone, steps);
        assert(seq![entry.event].to_multiset().len() == 1);
        assert(out.len() == 1);
        assert(seq![entry.event].contains(entry.event)) by {
            assert(seq![entry.event][0] == entry.event);
        }
        vstd::seq_lib::to_multiset_contains(seq![entry.event], entry.event);
        vstd::seq_lib::to_multiset_contains(out, entry.event);
        assert(out.contains(entry.event));
        assert(out =~= seq![entry.event]);
    } else {
        assert(released(alone, sum) =~= Seq::empty());
        assert(retained(alone, sum) =~= seq![
            (PendingEvent { event: entry.event, remaining: (entry.remaining - sum) as u64 }),
        ]);
        assert(released_during(alone, steps).to_multiset().len() == 0);
    }
}

/// An advance treats each entry by itself: what it does to two runs of
/// entries one after the other is what it does to each, one after the
/// other.
pub proof fn lemma_advance_splits_over_concat(
    left: Seq<PendingEvent>,
    right: Seq<PendingEvent>,
    elapsed: nat,
)
    ensures
        retained(left + right, elapsed) == retained(left, elapsed) + retained(right, elapsed),
        released(left + right, elapsed) == released(left, elapsed) + released(right, elapsed),
    decreases right.len(),
{
    if right.len() == 0 {
        assert(left + right =~= left);
        assert(retained(left, elapsed) + retained(right, elapsed) =~= retained(left, elapsed));
        assert(released(left, elapsed) + released(right, elapsed) =~= released(left, elapsed));
    } else {
        let both = left + right;
        lemma_advance_splits_over_concat(left, right.drop_last(), elapsed);
        assert(both.drop_last() =~= left + right.drop_last());
        assert(both.last() == right.last());
        assert(retained(both, elapsed) =~= retained(left, elapsed) + retained(right, elapsed));
        assert(released(both, elapsed) =~= released(left, elapsed) + released(right, elapsed));
    }
}

/// Entries wait independently of each other: over a run of advances, the
/// entries of two runs of entries that still wait are those of each, and
/// the events released are those released of each, each as often.
pub proof fn lemma_entries_are_independent(
    left: Seq<PendingEvent>,
    right: Seq<PendingEvent>,
    steps: Seq<nat>,
)
    ensures
        pending_after(left + right, steps) == pending_after(left, steps) + pending_after(
            right,
            steps,
        ),
        released_during(left + right, steps).to_multiset() == released_during(
            left,
            steps,
        ).to_multiset().add(released_during(right, steps).to_multiset()),
    decreases steps.len(),
{
    broadcast use vstd::seq_lib::group_to_multiset_ensures;

    if steps.len() == 0 {
        assert(released_during(left + right, steps).to_multiset() =~= released_during(
            left,
            steps,
        ).to_multiset().add(released_during(right, steps).to_multiset()));
    } else {
        let front = steps.drop_last();
        let last = steps.last();
        lemma_entries_are_independent(left, right, front);
        let l = pending_after(left, front);
        let r = pending_after(right, front);
        lemma_advance_splits_over_concat(l, r, last);
        vstd::seq_lib::lemma_multiset_commutative(
            released_during(left + right, front),
            released(l + r, last),
        );
        vstd::seq_lib::lemma_multiset_commutative(released(l, last), released(r, last));
        vstd::seq_lib::lemma_multiset_commutative(released_during(left, front), released(l, last));
        vstd::seq_lib::lemma_multiset_commutative(released_during(right, front), released(r, last));
        assert(released_during(left + right, steps).to_multiset() =~= released_during(
            left,
            steps,
        ).to_multiset().add(released_during(right, steps).to_multiset()));
    }
}

/// Eventual release among others: whatever else waits, the entry at
/// `index` is released exactly once by a run of one or more advances whose
/// times add up to at least its time left, and waits no longer afterwards.
/// What still waits is what still waits of the entries before and after
/// it, and what was released is what was released of those, and its event
/// once more.
pub proof fn lemma_entry_released_once(pending: Seq<PendingEvent>, index: int, steps: Seq<nat>)
    requires
        0 <= index < pending.len(),
        steps.len() > 0,
        pending[index].remaining <= total(steps),
    ensures
        pending_after(pending, steps) == pending_after(pending.take(index), steps) + pending_after(
            pending.skip(index + 1),
            steps,
        ),
        released_during(pending, steps).to_multiset() == released_during(
            pending.take(index),
            steps,
        ).to_multiset().add(
            released_during(pending.skip(index + 1), steps).to_multiset(),
        ).insert(pending[index].event),
{
    broadcast use vstd::seq_lib::group_to_multiset_ensures;

    let before = pending.take(index);
    let alone = seq![pending[index]];
    let after = pending.skip(index + 1);
    assert(pending =~= (before + alone) + after);
    lemma_entries_are_independent(before + alone, after, steps);
    lemma_entries_are_independent(before, alone, steps);
    lemma_eventual_release(pending[index], steps);
    assert(pending_after(before, steps) + pending_after(alone, steps) =~= pending_after(
        before,
        steps,
    ));
    assert(seq![pending[index].event] =~= Seq::empty().push(pending[index].event));
    assert(released_during(pending, steps).to_multiset() =~= released_during(
        before,
        steps,
    ).to_multiset().add(released_during(after, steps).to_multiset()).insert(
        pending[index].event,
    ));
}

/// The times that the next `ticks` samples at `rate` add to the clock,
/// one after the other, starting from `carry`.
pub open spec fn tick_steps(rate: u32, carry: u32, ticks: nat) -> Seq<nat> {
    Seq::new(ticks, |i: int| elapsed_of(rate, carry_at(rate, carry, i as nat)) as nat)
}

/// The times of the samples add up to what the clock tells.
pub proof fn lemma_tick_steps_total(rate: u32, carry: u32, ticks: nat)
    ensures
        total(tick_steps(rate, carry, ticks)) == clock_at(rate, carry, ticks),
    decreases ticks,
{
    if ticks > 0 {
        let before = (ticks - 1) as nat;
        lemma_tick_steps_total(rate, carry, before);
        assert(tick_steps(rate, carry, ticks).drop_last() =~= tick_steps(rate, carry, before));
    }
}

/// An advance by at least the time left of every entry releases every
/// event that waited.
pub proof fn lemma_all_due_released(pending: Seq<PendingEvent>, elapsed: nat)
    requires
        forall|i: int| 0 <= i < pending.len() ==> (#[trigger] pending[i]).remaining <= elapsed,
    ensures
        released(pending, elapsed) == events_of(pending),
    decreases pending.len(),
{
    if pending.len() > 0 {
        lemma_all_due_released(pending.drop_last(), elapsed);
    }
    assert(released(pending, elapsed) =~= events_of(pending));
}

/// A block is its samples: one advance by the time of a block of one or
/// more samples leaves waiting what one advance per sample leaves
/// waiting, with the same time left, and releases the same events, each
/// as often, though maybe in another order.
pub proof fn lemma_block_is_its_samples(
    pending: Seq<PendingEvent>,
    rate: u32,
    carry: u32,
    samples: u32,
)
    requires
        samples > 0,
        rate == 0 ==> carry == 0,
        rate > 0 ==> carry < rate,
    ensures
        retained(pending, span_of(rate, carry, samples) as nat) == pending_after(
            pending,
            tick_steps(rate, carry, samples as nat),
        ),
        released(pending, span_of(rate, carry, samples) as nat).to_multiset() == released_during(
            pending,
            tick_steps(rate, carry, samples as nat),
        ).to_multiset(),
{
    let steps = tick_steps(rate, carry, samples as nat);
    lemma_advances_compose(pending, steps);
    lemma_tick_steps_total(rate, carry, samples as nat);
    if rate > 0 {
        lemma_block_is_its_ticks(rate, carry, samples);
    } else {
        let sum = total(steps);
        assert(steps.last() == u64::MAX);
        assert(sum >= u64::MAX);
        lemma_all_due(pending, sum);
        lemma_all_due(pending, u64::MAX as nat);
        lemma_all_due_released(pending, sum);
        lemma_all_due_released(pending, u64::MAX as nat);
        assert(retained(pending, sum) =~= retained(pending, u64::MAX as nat));
    }
}

/// Release by the block: at a sample rate above zero, an event that waits
/// is released by a block of one or more samples exactly when the true
/// time of the block, with what the clock carried, has reached its time
/// left; otherwise it keeps waiting with the time of the block taken off.
pub proof fn lemma_block_release(entry: PendingEvent, rate: u32, carry: u32, samples: u32)
    requires
        rate > 0,
        carry < rate,
        samples > 0,
    ensures
        entry.remaining * rate <= carry + samples * NANOS_PER_SECOND ==> released(
            seq![entry],
            span_of(rate, carry, samples) as nat,
        ) == seq![entry.event] && retained(seq![entry], span_of(rate, carry, samples) as nat).len()
            == 0,
        entry.remaining * rate > carry + samples * NANOS_PER_SECOND ==> released(
            seq![entry],
            span_of(rate, carry, samples) as nat,
        ).len() == 0 && retained(seq![entry], span_of(rate, carry, samples) as nat) == seq![
            (PendingEvent {
                event: entry.event,
                remaining: (entry.remaining - span_of(rate, carry, samples)) as u64,
            }),
        ],
{
    lemma_span_reaches(rate, carry, samples, entry.remaining);
    let alone = seq![entry];
    let span = span_of(rate, carry, samples) as nat;
    assert(alone.drop_last() =~= Seq::empty());
    assert(alone.last() == entry);
    assert(retained(alone.drop_last(), span) =~= Seq::empty());
    assert(released(alone.drop_last(), span) =~= Seq::empty());
    if entry.remaining <= span {
        assert(released(alone, span) =~= seq![entry.event]);
    } else {
        assert(retained(alone, span) =~= seq![
            (PendingEvent { event: entry.event, remaining: (entry.remaining - span) as u64 }),
        ]);
    }
}

/// Release on the clock: at a sample rate above zero, an event that waits
/// with a given time left is released at the first sample by which the
/// true time that went by has reached the time left. It leaves exactly
/// once, never before its time, and less than one sample period after it.
pub proof fn lemma_release_on_the_clock(entry: PendingEvent, rate: u32, ticks: nat)
    requires
        rate > 0,
        ticks > 0,
    ensures
        entry.remaining * rate <= ticks * NANOS_PER_SECOND ==> pending_after(
            seq![entry],
            tick_steps(rate, 0, ticks),
        ).len() == 0 && released_during(seq![entry], tick_steps(rate, 0, ticks)) == seq![entry.event],
        entry.remaining * rate > ticks * NANOS_PER_SECOND ==> pending_after(
            seq![entry],
            tick_steps(rate, 0, ticks),
        ).len() == 1 && released_during(seq![entry], tick_steps(rate, 0, ticks)).len() == 0,
{
    let steps = tick_steps(rate, 0, ticks);
    lemma_tick_steps_total(rate, 0, ticks);
    lemma_clock_keeps_time(rate, 0, ticks);
    lemma_eventual_release(entry, steps);
    let x = ticks * NANOS_PER_SECOND;
    let d = rate as int;
    let t = entry.remaining as int;
    lemma_fundamental_div_mod(x, d);
    lemma_mod_pos_bound(x, d);
    assert(t <= x / d <==> t * d <= x) by (nonlinear_arith)
        requires
            d > 0,
            x == d * (x / d) + x % d,
            0 <= x % d < d,
    ;
}

/// Once the times of one or more advances add up to at least the time
/// left of every entry, nothing waits any more, and what was released is
/// what waited, each event as often as it waited.
pub proof fn lemma_all_released(pending: Seq<PendingEvent>, steps: Seq<nat>)
    requires
        steps.len() > 0,
        forall|i: int| 0 <= i < pending.len() ==> (#[trigger] pending[i]).remaining <= total(steps),
    ensures
        pending_after(pending, steps).len() == 0,
        released_during(pending, steps).to_multiset() == events_of(pending).to_multiset(),
{
    lemma_advances_compose(pending, steps);
    lemma_all_due(pending, total(steps));
    lemma_advance_keeps_events(pending, total(steps));
    assert(events_of(retained(pending, total(steps))) =~= Seq::empty());
    assert(released(pending, total(steps)).to_multiset() =~= events_of(pending).to_multiset()) by {
        broadcast use vstd::seq_lib::group_to_multiset_ensures;

    }
}

/// An advance by at least the time left of every entry leaves nothing
/// waiting.
pub proof fn lemma_all_due(pending: Seq<PendingEvent>, elapsed: nat)
    requires
        forall|i: int| 0 <= i < pending.len() ==> (#[trigger] pending[i]).remaining <= elapsed,
    ensures
        retained(pending, elapsed).len() == 0,
    decreases pending.len(),
{
    if pending.len() > 0 {
        lemma_all_due(pending.drop_last(), elapsed);
    }
}

/// The floor: whatever value is requested, the stored standard deviation
/// is positive, and a value at or above the floor is stored as it is.
pub proof fn lemma_floor(value: i64)
    ensures
        floored(value) >= VARIANCE_FLOOR,
        floored(value) > 0,
        value >= VARIANCE_FLOOR ==> floored(value) == value,
{
}

} // verus!
