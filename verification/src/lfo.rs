//! A low-frequency oscillator backed by a precomputed wave table.
//!
//! One full period of the modulation wave is held, in fixed point, in a
//! circular buffer used purely as a lookup table: `get_sin_wave(i)` returns
//! the entry at `i` modulo the period and never advances the buffer's
//! cursors, so equal indices always return equal values.

use vstd::prelude::*;
use vstd::arithmetic::div_mod::{lemma_mod_division_less_than_divisor, lemma_small_mod};
use crate::ring_buffer::RingBuffer;

verus! {

pub struct LFO {
    table: Vec<i64>,
    buffer_length: usize,
    ring_buffer: RingBuffer,
}

impl LFO {
    /// One period of the modulation wave, in fixed point.
    pub closed spec fn wave(self) -> Seq<i64> {
        self.table@
    }

    /// The period, in samples.
    pub open spec fn period(self) -> int {
        self.wave().len() as int
    }

    /// Well-formedness: a non-empty table, served unshifted from a circular
    /// buffer of exactly one period.
    pub closed spec fn wf(self) -> bool {
        &&& self.period() >= 1
        &&& self.buffer_length == self.period()
        &&& self.ring_buffer.wf()
        &&& self.ring_buffer.cap() == self.period()
        &&& self.ring_buffer.rpos() == 0
        &&& self.ring_buffer.slots() == self.wave()
    }

    /// Builds an oscillator serving the given one-period wave table.
    /// A zero-length period is a caller precondition violation.
    pub fn new(table: Vec<i64>) -> (r: LFO)
        requires
            table@.len() >= 1,
        ensures
            r.wf(),
            r.wave() == table@,
    {
        let buffer_length = table.len();
        let ring_buffer = RingBuffer::new(buffer_length);
        let mut lfo = LFO { table, buffer_length, ring_buffer };
        lfo.refill();
        lfo
    }

    /// Pushes one period of the wave into the freshly cleared buffer.
    fn refill(&mut self)
        requires
            old(self).wave().len() >= 1,
            old(self).buffer_length == old(self).wave().len(),
            old(self).ring_buffer.wf(),
            old(self).ring_buffer.cap() == old(self).wave().len(),
            old(self).ring_buffer.rpos() == 0,
            old(self).ring_buffer.wpos() == 0,
        ensures
            final(self).wf(),
            final(self).wave() == old(self).wave(),
            final(self).buffer_length == old(self).buffer_length,
    {
        let period = self.buffer_length;
        let mut i: usize = 0;
        while i < period
            invariant
                i <= period,
                self.wave().len() == period,
                self.buffer_length == period,
                self.wave() == old(self).wave(),
                self.ring_buffer.wf(),
                self.ring_buffer.cap() == period,
                self.ring_buffer.rpos() == 0,
                self.ring_buffer.wpos() == i as int % period as int,
                forall|q: int| 0 <= q < i ==> self.ring_buffer.slots()[q] == self.wave()[q],
            decreases period - i,
        {
            proof {
                lemma_small_mod(i as nat, period as nat);
            }
            let v = self.table[i];
            self.ring_buffer.push(v);
            i += 1;
        }
        proof {
            assert(self.ring_buffer.slots() =~= self.wave());
        }
    }

    /// Re-runs the fill against the same wave table, returning the buffer
    /// cursors to 0; the served values are unchanged.
    pub fn reset(&mut self)
        requires
            old(self).wf(),
        ensures
            final(self).wf(),
            final(self).wave() == old(self).wave(),
    {
        self.ring_buffer.reset();
        self.refill();
    }

    /// Returns the wave value at `index` modulo the period. Read-only:
    /// equal indices always return equal values.
    pub fn get_sin_wave(&self, index: usize) -> (r: i64)
        requires
            self.wf(),
        ensures
            r == self.wave()[(index as int) % self.period()],
    {
        let buffer_index = index % self.buffer_length;
        proof {
            lemma_mod_division_less_than_divisor(index as int, self.period());
            lemma_small_mod(buffer_index as nat, self.buffer_length as nat);
        }
        self.ring_buffer.get(buffer_index)
    }
}

} // verus!
