//! The effect as a host drives it: a sample rate, a scheduler, and a
//! clock that counts every sample of every processing block.

use vstd::prelude::*;
use crate::event::{HostEvent, IncomingEvent, PendingEvent};
use crate::clock::{carry_past, span_of, SampleClock};
use crate::scheduler::{released, DelayScheduler, Dispatch, Holdings};

verus! {

/// What a host may ask an effect whether it can do.
#[derive(Clone, Copy, Debug, PartialEq, Eq, Structural)]
pub enum Capability {
    SendEvents,
    SendMidiEvent,
    ReceiveEvents,
    ReceiveMidiEvent,
    ReceiveTimeInfo,
    Offline,
    MidiProgramNames,
    Bypass,
    ReceiveSysExEvent,
    MidiSingleNoteTuningChange,
    MidiKeyBasedInstrumentControl,
    Other,
}

impl Capability {
    /// The capabilities that the effect declares: sending and receiving
    /// events, generic and MIDI, and no other.
    pub open spec fn declared(self) -> bool {
        self == Capability::SendEvents || self == Capability::SendMidiEvent || self
            == Capability::ReceiveEvents || self == Capability::ReceiveMidiEvent
    }
}

/// Answers a host that asks for a capability.
pub fn can_do(capability: Capability) -> (supported: bool)
    ensures
        supported == capability.declared(),
{
    match capability {
        Capability::SendEvents
        | Capability::SendMidiEvent
        | Capability::ReceiveEvents
        | Capability::ReceiveMidiEvent => true,
        _ => false,
    }
}

/// The holdings after a block of `samples` samples at `rate`, with `carry`
/// on the clock: the time of the block went by, unless the block was
/// empty, and what passed through was collected.
pub open spec fn after_block(holdings: Holdings, rate: u32, carry: u32, samples: u32) -> Holdings {
    if samples == 0 {
        holdings.drain()
    } else {
        holdings.advance(span_of(rate, carry, samples) as nat).drain()
    }
}

/// The events among `pending` that a block of `samples` samples at `rate`
/// releases, with `carry` on the clock: those whose time left does not
/// exceed the time of the block; none where the block is empty.
pub open spec fn due_in_block(
    pending: Seq<PendingEvent>,
    rate: u32,
    carry: u32,
    samples: u32,
) -> Seq<IncomingEvent> {
    if samples == 0 {
        Seq::empty()
    } else {
        released(pending, span_of(rate, carry, samples) as nat)
    }
}

/// The state of the effect between two blocks.
pub struct Sloth {
    clock: SampleClock,
    scheduler: DelayScheduler,
}

impl Sloth {
    /// The sample rate that the host set last, in samples per second.
    pub closed spec fn rate(&self) -> u32 {
        self.clock.rate()
    }

    /// What the clock carries over from the blocks so far.
    pub closed spec fn carry(&self) -> u32 {
        self.clock.carry()
    }

    /// What the scheduler holds.
    pub closed spec fn holdings(&self) -> Holdings {
        self.scheduler@
    }

    /// An effect that holds no event. Its sample rate is zero until the
    /// host sets one.
    pub fn new() -> (plugin: Sloth)
        ensures
            plugin.rate() == 0,
            plugin.carry() == 0,
            plugin.holdings() == Holdings::empty(),
    {
        Sloth { clock: SampleClock::new(0), scheduler: DelayScheduler::new() }
    }

    /// Takes over the host's sample rate and starts the clock afresh. The
    /// events stay as they are.
    pub fn set_sample_rate(&mut self, rate: u32)
        ensures
            final(self).rate() == rate,
            final(self).carry() == 0,
            final(self).holdings() == old(self).holdings(),
    {
        self.clock = SampleClock::new(rate);
    }

    /// The sample rate that the host set last.
    pub fn sample_rate(&self) -> (rate: u32)
        ensures
            rate == self.rate(),
    {
        self.clock.sample_rate()
    }

    /// The number of events that wait.
    pub fn pending_count(&self) -> (count: usize)
        ensures
            count == self.holdings().pending.len(),
    {
        self.scheduler.pending_count()
    }

    /// Takes in the items of one block in arrival order, each with the
    /// signed draw beside it folded into its delay.
    pub fn process_events(&mut self, block: Vec<(HostEvent, i64)>)
        ensures
            final(self).rate() == old(self).rate(),
            final(self).carry() == old(self).carry(),
            final(self).holdings() == old(self).holdings().submit_all(block@),
    {
        self.scheduler.submit_block(block);
    }

    /// The end of a block of `samples` samples: the clock counts every
    /// sample of the block, the events that became due by its end leave
    /// together with the items that passed through, and the rest keeps
    /// waiting with the time of the block taken off. A block without
    /// samples lets no time go by: only the items that passed through
    /// leave.
    pub fn process(&mut self, samples: u32) -> (out: Dispatch)
        ensures
            final(self).rate() == old(self).rate(),
            final(self).carry() == carry_past(old(self).rate(), old(self).carry(), samples),
            final(self).holdings() == after_block(
                old(self).holdings(),
                old(self).rate(),
                old(self).carry(),
                samples,
            ),
            out.ready@ == due_in_block(
                old(self).holdings().pending,
                old(self).rate(),
                old(self).carry(),
                samples,
            ),
            out.immediate@ == old(self).holdings().immediate,
    {
        let elapsed: u64 = self.clock.tick_block(samples);
        if samples == 0 {
            let immediate = self.scheduler.drain_immediate();
            Dispatch { ready: Vec::new(), immediate }
        } else {
            self.scheduler.finish_block(elapsed)
        }
    }
}

} // verus!
