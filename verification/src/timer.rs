//! The timer ticker: turns elapsed wall-clock time into 60 Hz decrements
//! of the delay and sound timers, independently of how fast instructions
//! execute. Elapsed time is accumulated in sixtieths of a nanosecond, so
//! one timer period (1/60 s) is exactly `TIMER_PERIOD` accumulator units.

use vstd::prelude::*;

use crate::state::{Chip8, Model};

verus! {

/// One timer period, 1/60 of a second, in accumulator units
/// (sixtieths of a nanosecond): 1_000_000_000 / 60 ns times 60.
pub const TIMER_PERIOD: u64 = 1_000_000_000;

/// The largest elapsed time (in nanoseconds) one call may report; beyond
/// this the accumulator arithmetic would exceed the machine word.
pub const MAX_TICK_NANOS: u64 = (u64::MAX - TIMER_PERIOD) / 60;

/// A timer value after `d` whole periods have passed: decremented once
/// per period, clamped at zero.
pub open spec fn timer_after(t: u8, d: int) -> u8 {
    if d >= t {
        0
    } else {
        (t - d) as u8
    }
}

/// The machine state after `elapsed_nanos` nanoseconds of wall-clock time:
/// both timers lose one per whole 1/60 s period accumulated, never going
/// below zero, and the remainder stays in the accumulator.
pub open spec fn spec_advance_timers(m: Model, elapsed_nanos: u64) -> Model {
    let total = m.timer_acc + elapsed_nanos * 60;
    let d = total / (TIMER_PERIOD as int);
    Model {
        timer_acc: (total % (TIMER_PERIOD as int)) as u64,
        delay_timer: timer_after(m.delay_timer, d),
        sound_timer: timer_after(m.sound_timer, d),
        ..m
    }
}

impl Chip8 {
    /// Account for `elapsed_nanos` nanoseconds of wall-clock time:
    /// decrement the delay and sound timers once per whole 1/60 s period
    /// accumulated (never below zero) and report whether a tone should be
    /// playing (sound timer nonzero).
    pub fn advance_timers(&mut self, elapsed_nanos: u64) -> (beep: bool)
        requires
            old(self).wf(),
            elapsed_nanos <= MAX_TICK_NANOS,
        ensures
            final(self).wf(),
            final(self)@ == spec_advance_timers(old(self)@, elapsed_nanos),
            beep == (final(self)@.sound_timer > 0),
    {
        proof {
            assert(elapsed_nanos * 60 <= u64::MAX - TIMER_PERIOD) by (nonlinear_arith)
                requires
                    elapsed_nanos <= (u64::MAX - TIMER_PERIOD) / 60,
            ;
        }
        let total: u64 = self.timer_acc + elapsed_nanos * 60;
        let d: u64 = total / TIMER_PERIOD;
        self.timer_acc = total % TIMER_PERIOD;
        if d >= self.delay_timer as u64 {
            self.delay_timer = 0;
        } else {
            self.delay_timer = self.delay_timer - d as u8;
        }
        if d >= self.sound_timer as u64 {
            self.sound_timer = 0;
        } else {
            self.sound_timer = self.sound_timer - d as u8;
        }
        self.sound_timer > 0
    }
}

/// Accumulating time up to but not past a 1/60 s boundary decrements
/// neither timer, and crossing exactly one boundary decrements each
/// nonzero timer by exactly one; a timer at zero stays at zero.
pub proof fn lemma_timer_decrement(m: Model, elapsed_nanos: u64)
    requires
        m.wf(),
    ensures
        m.timer_acc + elapsed_nanos * 60 < TIMER_PERIOD ==> {
            &&& spec_advance_timers(m, elapsed_nanos).delay_timer == m.delay_timer
            &&& spec_advance_timers(m, elapsed_nanos).sound_timer == m.sound_timer
        },
        TIMER_PERIOD <= m.timer_acc + elapsed_nanos * 60 < 2 * TIMER_PERIOD ==> {
            &&& m.delay_timer > 0 ==> spec_advance_timers(m, elapsed_nanos).delay_timer
                == m.delay_timer - 1
            &&& m.sound_timer > 0 ==> spec_advance_timers(m, elapsed_nanos).sound_timer
                == m.sound_timer - 1
            &&& m.delay_timer == 0 ==> spec_advance_timers(m, elapsed_nanos).delay_timer == 0
            &&& m.sound_timer == 0 ==> spec_advance_timers(m, elapsed_nanos).sound_timer == 0
        },
{
    let total = m.timer_acc + elapsed_nanos * 60;
    let p = TIMER_PERIOD as int;
    if total < p {
        assert(total / p == 0) by (nonlinear_arith)
            requires
                0 <= total < p,
        ;
    } else if total < 2 * p {
        assert(total / p == 1) by (nonlinear_arith)
            requires
                p <= total < 2 * p,
                p == 1_000_000_000,
        ;
    }
}

} // verus!
