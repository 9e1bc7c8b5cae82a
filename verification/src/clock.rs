//! The clock of the effect: how many nanoseconds go by per sample, told in
//! whole nanoseconds without ever running ahead of the true time.

use vstd::prelude::*;
use vstd::arithmetic::div_mod::{
    lemma_fundamental_div_mod, lemma_fundamental_div_mod_converse, lemma_mod_pos_bound,
};

verus! {

/// Number of nanoseconds in one second.
pub const NANOS_PER_SECOND: u64 = 1_000_000_000;

/// The nanoseconds that the next sample adds to the clock, at `rate`
/// samples per second and with `carry` left over from the samples before:
/// the whole part of the true period plus what was carried. At a rate of
/// zero the period is unbounded, and the longest time that can be told
/// stands for it.
pub open spec fn elapsed_of(rate: u32, carry: u32) -> u64 {
    if rate == 0 {
        u64::MAX
    } else {
        ((carry + NANOS_PER_SECOND) / (rate as int)) as u64
    }
}

/// What the next sample leaves over for the samples after it: the part of
/// the true period that fell short of a whole nanosecond, in units of one
/// nanosecond divided by `rate`.
pub open spec fn carry_after(rate: u32, carry: u32) -> u32 {
    if rate == 0 {
        0
    } else {
        ((carry + NANOS_PER_SECOND) % (rate as int)) as u32
    }
}

/// The carry after `ticks` samples at `rate`, starting from `carry`.
pub open spec fn carry_at(rate: u32, carry: u32, ticks: nat) -> u32
    decreases ticks,
{
    if ticks == 0 {
        carry
    } else {
        carry_after(rate, carry_at(rate, carry, (ticks - 1) as nat))
    }
}

/// The nanoseconds told by the next `ticks` samples at `rate` together,
/// one sample after the other, starting from `carry`.
pub open spec fn clock_at(rate: u32, carry: u32, ticks: nat) -> nat
    decreases ticks,
{
    if ticks == 0 {
        0
    } else {
        clock_at(rate, carry, (ticks - 1) as nat) + (elapsed_of(
            rate,
            carry_at(rate, carry, (ticks - 1) as nat),
        ) as nat)
    }
}

/// The nanoseconds that a block of `samples` samples adds to the clock in
/// one step: the true time of the block plus what was carried, rounded
/// down. An empty block adds nothing. At a rate of zero the time of any
/// other block is unbounded, and the longest time that can be told stands
/// for it.
pub open spec fn span_of(rate: u32, carry: u32, samples: u32) -> u64 {
    if samples == 0 {
        0
    } else if rate == 0 {
        u64::MAX
    } else {
        ((carry + samples * NANOS_PER_SECOND) / (rate as int)) as u64
    }
}

/// What a block of `samples` samples leaves over for the blocks after it.
pub open spec fn carry_past(rate: u32, carry: u32, samples: u32) -> u32 {
    if samples == 0 {
        carry
    } else if rate == 0 {
        0
    } else {
        ((carry + samples * NANOS_PER_SECOND) % (rate as int)) as u32
    }
}

/// Counts samples into nanoseconds.
pub struct SampleClock {
    rate: u32,
    carry: u32,
}

impl SampleClock {
    #[verifier::type_invariant]
    spec fn carry_in_range(&self) -> bool {
        if self.rate == 0 {
            self.carry == 0
        } else {
            self.carry < self.rate
        }
    }

    /// The sample rate, in samples per second.
    pub closed spec fn rate(&self) -> u32 {
        self.rate
    }

    /// What the samples so far left over.
    pub closed spec fn carry(&self) -> u32 {
        self.carry
    }

    /// A clock at `rate` samples per second with nothing carried.
    pub fn new(rate: u32) -> (clock: SampleClock)
        ensures
            clock.rate() == rate,
            clock.carry() == 0,
    {
        SampleClock { rate, carry: 0 }
    }

    /// The sample rate.
    pub fn sample_rate(&self) -> (rate: u32)
        ensures
            rate == self.rate(),
    {
        self.rate
    }

    /// Counts one sample and tells the nanoseconds that it adds.
    pub fn tick(&mut self) -> (elapsed: u64)
        ensures
            final(self).rate() == old(self).rate(),
            final(self).carry() == carry_after(old(self).rate(), old(self).carry()),
            elapsed == elapsed_of(old(self).rate(), old(self).carry()),
    {
        proof {
            use_type_invariant(&*self);
        }
        if self.rate == 0 {
            u64::MAX
        } else {
            let rate: u64 = self.rate as u64;
            let sum: u64 = self.carry as u64 + NANOS_PER_SECOND;
            let left: u64 = sum % rate;
            self.carry = left as u32;
            sum / rate
        }
    }

    /// Counts a block of `samples` samples in one step and tells the
    /// nanoseconds that it adds.
    pub fn tick_block(&mut self, samples: u32) -> (elapsed: u64)
        ensures
            final(self).rate() == old(self).rate(),
            final(self).carry() == carry_past(old(self).rate(), old(self).carry(), samples),
            elapsed == span_of(old(self).rate(), old(self).carry(), samples),
    {
        proof {
            use_type_invariant(&*self);
        }
        if samples == 0 {
            0
        } else if self.rate == 0 {
            u64::MAX
        } else {
            assert(samples * NANOS_PER_SECOND <= 4_294_967_295 * NANOS_PER_SECOND)
                by (nonlinear_arith)
                requires
                    samples <= 4_294_967_295,
            ;
            let rate: u64 = self.rate as u64;
            let sum: u64 = self.carry as u64 + (samples as u64) * NANOS_PER_SECOND;
            let left: u64 = sum % rate;
            self.carry = left as u32;
            sum / rate
        }
    }
}

/// The clock keeps time: after any number of samples it has told the true
/// time that went by, plus what it carried at the start, rounded down to
/// whole nanoseconds, and carries the rest. So it never runs ahead and
/// never falls a whole nanosecond behind.
pub proof fn lemma_clock_keeps_time(rate: u32, carry: u32, ticks: nat)
    requires
        rate > 0,
        carry < rate,
    ensures
        clock_at(rate, carry, ticks) == (carry + ticks * NANOS_PER_SECOND) / (rate as int),
        carry_at(rate, carry, ticks) == (carry + ticks * NANOS_PER_SECOND) % (rate as int),
    decreases ticks,
{
    let d = rate as int;
    if ticks > 0 {
        let before = (ticks - 1) as nat;
        lemma_clock_keeps_time(rate, carry, before);
        let n = carry + before * NANOS_PER_SECOND;
        let q = n / d;
        let r = n % d;
        let step = r + NANOS_PER_SECOND;
        lemma_fundamental_div_mod(n, d);
        lemma_fundamental_div_mod(step, d);
        assert(carry + ticks * NANOS_PER_SECOND == n + NANOS_PER_SECOND) by (nonlinear_arith)
            requires
                ticks == before + 1,
                n == carry + before * NANOS_PER_SECOND,
        ;
        assert(carry + ticks * NANOS_PER_SECOND == (q + step / d) * d + step % d)
            by (nonlinear_arith)
            requires
                carry + ticks * NANOS_PER_SECOND == n + NANOS_PER_SECOND,
                n == d * q + r,
                step == r + NANOS_PER_SECOND,
                step == d * (step / d) + step % d,
        ;
        lemma_mod_pos_bound(n, d);
        lemma_mod_pos_bound(step, d);
        lemma_fundamental_div_mod_converse(
            carry + ticks * NANOS_PER_SECOND,
            d,
            q + step / d,
            step % d,
        );
    } else {
        assert(carry + ticks * NANOS_PER_SECOND == carry);
        lemma_fundamental_div_mod_converse(carry as int, d, 0, carry as int);
    }
}

/// A block counted in one step tells what its samples tell one after the
/// other, and leaves the same carry.
pub proof fn lemma_block_is_its_ticks(rate: u32, carry: u32, samples: u32)
    requires
        rate > 0,
        carry < rate,
    ensures
        span_of(rate, carry, samples) == clock_at(rate, carry, samples as nat),
        carry_past(rate, carry, samples) == carry_at(rate, carry, samples as nat),
{
    lemma_clock_keeps_time(rate, carry, samples as nat);
    let d = rate as int;
    let x = carry + samples * NANOS_PER_SECOND;
    assert(samples * NANOS_PER_SECOND <= 4_294_967_295 * NANOS_PER_SECOND) by (nonlinear_arith)
        requires
            0 <= samples <= 4_294_967_295,
    ;
    assert(0 <= samples * NANOS_PER_SECOND) by (nonlinear_arith)
        requires
            0 <= samples,
    ;
    lemma_fundamental_div_mod(x, d);
    lemma_mod_pos_bound(x, d);
    assert(0 <= x / d <= x) by (nonlinear_arith)
        requires
            x >= 0,
            d > 0,
    ;
}

/// What a block reaches: at a sample rate above zero, a time is within the
/// time that a block tells exactly when the true time of the block, with
/// what was carried, has reached it. What the block leaves over stays
/// below one nanosecond.
pub proof fn lemma_span_reaches(rate: u32, carry: u32, samples: u32, time: u64)
    requires
        rate > 0,
        carry < rate,
    ensures
        time <= span_of(rate, carry, samples) <==> time * rate <= carry + samples
            * NANOS_PER_SECOND,
        carry_past(rate, carry, samples) < rate,
{
    let d = rate as int;
    let x = carry + samples * NANOS_PER_SECOND;
    let t = time as int;
    assert(0 <= samples * NANOS_PER_SECOND <= 4_294_967_295 * NANOS_PER_SECOND)
        by (nonlinear_arith)
        requires
            0 <= samples <= 4_294_967_295,
    ;
    lemma_fundamental_div_mod(x, d);
    lemma_mod_pos_bound(x, d);
    assert(0 <= x / d <= x) by (nonlinear_arith)
        requires
            x >= 0,
            d > 0,
    ;
    assert(t <= x / d <==> t * d <= x) by (nonlinear_arith)
        requires
            d > 0,
            x == d * (x / d) + x % d,
            0 <= x % d < d,
    ;
    if samples == 0 {
        lemma_fundamental_div_mod_converse(x, d, 0, carry as int);
    }
}

} // verus!
