//! The delay scheduler: which events wait, for how long, and when they
//! leave.

use vstd::prelude::*;
use crate::event::{HostEvent, IncomingEvent, PendingEvent};

verus! {

/// The events among `pending` that an advance by `elapsed` nanoseconds
/// releases: those whose remaining time does not exceed `elapsed`, in the
/// order in which they were pending.
pub open spec fn released(pending: Seq<PendingEvent>, elapsed: nat) -> Seq<IncomingEvent>
    decreases pending.len(),
{
    if pending.len() == 0 {
        Seq::empty()
    } else if pending.last().remaining <= elapsed {
        released(pending.drop_last(), elapsed).push(pending.last().event)
    } else {
        released(pending.drop_last(), elapsed)
    }
}

/// The entries of `pending` that an advance by `elapsed` nanoseconds
/// leaves waiting: those whose remaining time exceeds `elapsed`, each with
/// `elapsed` taken off, in the order in which they were pending.
pub open spec fn retained(pending: Seq<PendingEvent>, elapsed: nat) -> Seq<PendingEvent>
    decreases pending.len(),
{
    if pending.len() == 0 {
        Seq::empty()
    } else if pending.last().remaining <= elapsed {
        retained(pending.drop_last(), elapsed)
    } else {
        retained(pending.drop_last(), elapsed).push(
            PendingEvent {
                event: pending.last().event,
                remaining: (pending.last().remaining - elapsed) as u64,
            },
        )
    }
}

/// What a scheduler holds: the events that wait, and the events that
/// passed through and were not collected yet.
pub ghost struct Holdings {
    pub pending: Seq<PendingEvent>,
    pub immediate: Seq<HostEvent>,
}

impl Holdings {
    /// Holdings with nothing in them.
    pub open spec fn empty() -> Holdings {
        Holdings { pending: Seq::empty(), immediate: Seq::empty() }
    }

    /// The holdings after `event` was submitted with the drawn `delay`: a
    /// note start waits for `delay`, anything else passes through.
    pub open spec fn submit(self, event: IncomingEvent, delay: u64) -> Holdings {
        if event.starts_note() {
            Holdings {
                pending: self.pending.push(PendingEvent { event, remaining: delay }),
                immediate: self.immediate,
            }
        } else {
            Holdings {
                pending: self.pending,
                immediate: self.immediate.push(HostEvent::Midi(event)),
            }
        }
    }

    /// The holdings after `item` was submitted with the drawn `delay`: a
    /// channel message as `submit` says; anything else passes through as
    /// it came.
    pub open spec fn submit_item(self, item: HostEvent, delay: u64) -> Holdings {
        match item {
            HostEvent::Midi(event) => self.submit(event, delay),
            _ => Holdings { pending: self.pending, immediate: self.immediate.push(item) },
        }
    }

    /// The holdings after `elapsed` nanoseconds went by.
    pub open spec fn advance(self, elapsed: nat) -> Holdings {
        Holdings { pending: retained(self.pending, elapsed), immediate: self.immediate }
    }

    /// The holdings after the passed-through events were collected.
    pub open spec fn drain(self) -> Holdings {
        Holdings { pending: self.pending, immediate: Seq::empty() }
    }

    /// The holdings after the first `n` entries of `block` were submitted
    /// in order, each event with the delay folded from the signed draw
    /// beside it.
    pub open spec fn submit_first(self, block: Seq<(HostEvent, i64)>, n: nat) -> Holdings
        recommends
            n <= block.len(),
        decreases n,
    {
        if n == 0 {
            self
        } else {
            self.submit_first(block, (n - 1) as nat).submit_item(
                block[n - 1].0,
                crate::event::magnitude(block[n - 1].1) as u64,
            )
        }
    }

    /// The holdings after all of `block` was submitted in order.
    pub open spec fn submit_all(self, block: Seq<(HostEvent, i64)>) -> Holdings {
        self.submit_first(block, block.len())
    }
}

/// The two batches that leave the scheduler at the end of a block.
pub struct Dispatch {
    /// The held-back events that became due in this block.
    pub ready: Vec<IncomingEvent>,
    /// The items that passed through since the last block.
    pub immediate: Vec<HostEvent>,
}

/// Holds back note starts and lets everything else pass.
pub struct DelayScheduler {
    pending: Vec<PendingEvent>,
    immediate: Vec<HostEvent>,
}

impl DelayScheduler {
    /// What the scheduler holds.
    pub closed spec fn view(&self) -> Holdings {
        Holdings { pending: self.pending@, immediate: self.immediate@ }
    }

    /// A scheduler that holds nothing.
    pub fn new() -> (scheduler: DelayScheduler)
        ensures
            scheduler@ == Holdings::empty(),
    {
        DelayScheduler { pending: Vec::new(), immediate: Vec::new() }
    }

    /// The number of events that wait.
    pub fn pending_count(&self) -> (count: usize)
        ensures
            count == self@.pending.len(),
    {
        self.pending.len()
    }

    /// The number of passed-through events that were not collected yet.
    pub fn immediate_count(&self) -> (count: usize)
        ensures
            count == self@.immediate.len(),
    {
        self.immediate.len()
    }

    /// The entry at `index` of the events that wait.
    pub fn pending_at(&self, index: usize) -> (entry: Option<PendingEvent>)
        ensures
            index < self@.pending.len() ==> entry == Some(self@.pending[index as int]),
            index >= self@.pending.len() ==> entry.is_none(),
    {
        if index < self.pending.len() {
            Some(self.pending[index])
        } else {
            None
        }
    }

    /// Takes in one event with the delay drawn for it. A note start is
    /// added to the events that wait, with `delay` as its remaining time,
    /// and nothing passes through; any other event passes through
    /// unchanged, and nothing is added to the events that wait.
    pub fn classify_and_enqueue(&mut self, event: IncomingEvent, delay: u64)
        ensures
            final(self)@ == old(self)@.submit(event, delay),
            event.starts_note() ==> final(self)@.pending.len() == old(self)@.pending.len() + 1
                && final(self)@.immediate.len() == old(self)@.immediate.len(),
            !event.starts_note() ==> final(self)@.immediate.len() == old(self)@.immediate.len() + 1
                && final(self)@.pending.len() == old(self)@.pending.len(),
    {
        if event.is_note_start() {
            self.pending.push(PendingEvent { event, remaining: delay });
        } else {
            self.immediate.push(HostEvent::Midi(event));
        }
    }

    /// Takes in one item of the host with the delay drawn for it. A
    /// channel message is classified; anything else is no error and is
    /// not held back: it passes through as it came.
    pub fn enqueue_item(&mut self, item: HostEvent, delay: u64)
        ensures
            final(self)@ == old(self)@.submit_item(item, delay),
    {
        match item {
            HostEvent::Midi(event) => {
                self.classify_and_enqueue(event, delay);
            },
            _ => {
                self.immediate.push(item);
            },
        }
    }

    /// Takes in the items of one block in arrival order, each with the
    /// signed draw beside it folded into its delay.
    pub fn submit_block(&mut self, block: Vec<(HostEvent, i64)>)
        ensures
            final(self)@ == old(self)@.submit_all(block@),
    {
        let mut rest = block;
        let mut stack: Vec<(HostEvent, i64)> = Vec::new();
        while rest.len() > 0
            invariant
                rest.len() + stack.len() == block.len(),
                rest@ == block@.take(rest.len() as int),
                forall|j: int|
                    0 <= j < stack.len() ==> #[trigger] stack@[j] == block@[block.len() - 1 - j],
            decreases rest.len(),
        {
            match rest.pop() {
                Some(pair) => {
                    assert(rest@ =~= block@.take(rest.len() as int));
                    stack.push(pair);
                },
                None => {},
            }
        }
        while stack.len() > 0
            invariant
                stack.len() <= block.len(),
                forall|j: int|
                    0 <= j < stack.len() ==> #[trigger] stack@[j] == block@[block.len() - 1 - j],
                self@ == old(self)@.submit_first(block@, (block.len() - stack.len()) as nat),
            decreases stack.len(),
        {
            match stack.pop() {
                Some(pair) => {
                    let (item, draw) = pair;
                    let delay: u64 = crate::event::delay_from_draw(draw);
                    self.enqueue_item(item, delay);
                },
                None => {},
            }
        }
    }

    /// Lets `elapsed` nanoseconds go by. Every waiting event whose
    /// remaining time does not exceed `elapsed` is released, once, and
    /// waits no longer; every other keeps waiting with `elapsed` taken off
    /// its remaining time. Returns the released events and the number of
    /// events that still wait.
    pub fn advance(&mut self, elapsed: u64) -> (out: (Vec<IncomingEvent>, usize))
        ensures
            final(self)@ == old(self)@.advance(elapsed as nat),
            out.0@ == released(old(self)@.pending, elapsed as nat),
            out.1 == final(self)@.pending.len(),
            out.0@.len() + out.1 == old(self)@.pending.len(),
    {
        let mut ready: Vec<IncomingEvent> = Vec::new();
        let mut kept: Vec<PendingEvent> = Vec::new();
        let mut i: usize = 0;
        while i < self.pending.len()
            invariant
                i <= self.pending.len(),
                self.pending@ == old(self).pending@,
                self.immediate@ == old(self).immediate@,
                ready@ == released(self.pending@.take(i as int), elapsed as nat),
                kept@ == retained(self.pending@.take(i as int), elapsed as nat),
                ready@.len() + kept@.len() == i,
            decreases self.pending.len() - i,
        {
            let entry: PendingEvent = self.pending[i];
            assert(self.pending@.take(i + 1).drop_last() == self.pending@.take(i as int));
            assert(self.pending@.take(i + 1).last() == entry);
            if entry.remaining <= elapsed {
                ready.push(entry.event);
            } else {
                kept.push(PendingEvent { event: entry.event, remaining: entry.remaining - elapsed });
            }
            i = i + 1;
        }
        assert(self.pending@.take(i as int) == self.pending@);
        let count: usize = kept.len();
        self.pending = kept;
        (ready, count)
    }

    /// Hands out the events that passed through since the last call, in
    /// arrival order, and forgets them. The events that wait stay as they
    /// are.
    pub fn drain_immediate(&mut self) -> (batch: Vec<HostEvent>)
        ensures
            batch@ == old(self)@.immediate,
            final(self)@ == old(self)@.drain(),
    {
        let mut batch: Vec<HostEvent> = Vec::new();
        core::mem::swap(&mut self.immediate, &mut batch);
        batch
    }

    /// The end of a block: lets `elapsed` nanoseconds go by, then collects
    /// what became due and what passed through.
    pub fn finish_block(&mut self, elapsed: u64) -> (out: Dispatch)
        ensures
            final(self)@ == old(self)@.advance(elapsed as nat).drain(),
            out.ready@ == released(old(self)@.pending, elapsed as nat),
            out.immediate@ == old(self)@.immediate,
    {
        let (ready, _count) = self.advance(elapsed);
        let immediate = self.drain_immediate();
        Dispatch { ready, immediate }
    }
}

} // verus!
