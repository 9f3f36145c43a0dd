//! A fixed-capacity circular buffer of fixed-point samples.
//!
//! The buffer is addressed by a read cursor and a write cursor, both
//! wrapping modulo the capacity. `push` overwrites the slot at the write
//! cursor, `pop` consumes the slot at the read cursor, `get` reads at an
//! offset from the read cursor without advancing, and `get_frac` reads at
//! a fractional offset by linear interpolation between two adjacent slots.
//! Out-of-range integer offsets wrap rather than fail; pairing pushes and
//! pops is the caller's responsibility.

use vstd::prelude::*;
use vstd::arithmetic::div_mod::{
    lemma_add_mod_noop, lemma_mod_division_less_than_divisor, lemma_mod_sub_multiples_vanish,
    lemma_small_mod,
};
use crate::fixed::{interp, lerp, SCALE};

verus! {

pub struct RingBuffer {
    data: Vec<i64>,
    read_cursor: usize,
    write_cursor: usize,
}

impl RingBuffer {
    /// The stored slots, in backing order.
    pub closed spec fn slots(self) -> Seq<i64> {
        self.data@
    }

    /// The read cursor.
    pub closed spec fn rpos(self) -> int {
        self.read_cursor as int
    }

    /// The write cursor.
    pub closed spec fn wpos(self) -> int {
        self.write_cursor as int
    }

    /// The fixed capacity.
    pub open spec fn cap(self) -> int {
        self.slots().len() as int
    }

    /// Well-formedness: at least one slot, both cursors within bounds.
    pub open spec fn wf(self) -> bool {
        &&& self.cap() >= 1
        &&& 0 <= self.rpos() < self.cap()
        &&& 0 <= self.wpos() < self.cap()
    }

    /// Allocates `capacity` zero-valued slots with both cursors at 0.
    pub fn new(capacity: usize) -> (r: RingBuffer)
        requires
            capacity >= 1,
        ensures
            r.wf(),
            r.cap() == capacity,
            r.slots() =~= Seq::new(capacity as nat, |i: int| 0i64),
            r.rpos() == 0,
            r.wpos() == 0,
    {
        let mut data: Vec<i64> = Vec::new();
        let mut i: usize = 0;
        while i < capacity
            invariant
                i <= capacity,
                data@.len() == i,
                forall|j: int| 0 <= j < i ==> data@[j] == 0i64,
            decreases capacity - i,
        {
            data.push(0);
            i += 1;
        }
        RingBuffer { data, read_cursor: 0, write_cursor: 0 }
    }

    /// Writes `value` at the write cursor and advances it by one, wrapping.
    /// If writes outrun reads, the oldest unread slot is silently overwritten.
    pub fn push(&mut self, value: i64)
        requires
            old(self).wf(),
        ensures
            final(self).wf(),
            final(self).cap() == old(self).cap(),
            final(self).slots() == old(self).slots().update(old(self).wpos(), value),
            final(self).rpos() == old(self).rpos(),
            final(self).wpos() == (old(self).wpos() + 1) % old(self).cap(),
    {
        let cap = self.data.len();
        self.data.set(self.write_cursor, value);
        self.write_cursor = (self.write_cursor + 1) % cap;
        proof {
            lemma_mod_division_less_than_divisor(old(self).wpos() + 1, cap as int);
        }
    }

    /// Reads the value at the read cursor and advances it by one, wrapping.
    pub fn pop(&mut self) -> (r: i64)
        requires
            old(self).wf(),
        ensures
            final(self).wf(),
            final(self).cap() == old(self).cap(),
            final(self).slots() == old(self).slots(),
            final(self).rpos() == (old(self).rpos() + 1) % old(self).cap(),
            final(self).wpos() == old(self).wpos(),
            r == old(self).slots()[old(self).rpos()],
    {
        let cap = self.data.len();
        let r = self.data[self.read_cursor];
        self.read_cursor = (self.read_cursor + 1) % cap;
        proof {
            lemma_mod_division_less_than_divisor(old(self).rpos() + 1, cap as int);
        }
        r
    }

    /// Non-advancing read at `offset` slots past the read cursor, modulo
    /// the capacity.
    pub fn get(&self, offset: usize) -> (r: i64)
        requires
            self.wf(),
        ensures
            r == self.slots()[(self.rpos() + offset) % self.cap()],
    {
        let cap = self.data.len();
        let o = offset % cap;
        proof {
            lemma_small_mod(self.read_cursor as nat, cap as nat);
            lemma_add_mod_noop(self.rpos(), offset as int, cap as int);
            lemma_mod_division_less_than_divisor(offset as int, cap as int);
        }
        let idx = if o >= cap - self.read_cursor {
            o - (cap - self.read_cursor)
        } else {
            self.read_cursor + o
        };
        proof {
            if o >= cap - self.read_cursor {
                lemma_mod_sub_multiples_vanish(self.rpos() + o, cap as int);
                lemma_small_mod((self.rpos() + o - cap) as nat, cap as nat);
            } else {
                lemma_small_mod((self.rpos() + o) as nat, cap as nat);
            }
            assert((self.rpos() + offset) % self.cap() == idx as int);
        }
        self.data[idx]
    }

    /// Interpolated read at a fixed-point fractional offset from the read
    /// cursor: with `i` the whole part and `f` the fractional part of
    /// `offset`, returns the linear interpolation between `get(i)` and
    /// `get(i + 1)`. The caller must size the buffer so that both slots
    /// hold meaningful data.
    pub fn get_frac(&self, offset: i64) -> (r: i64)
        requires
            self.wf(),
            0 <= offset,
            (offset as int) / (SCALE as int) + 1 < self.cap(),
        ensures
            r as int == interp(
                self.slots()[(self.rpos() + (offset as int) / (SCALE as int)) % self.cap()] as int,
                self.slots()[(self.rpos() + (offset as int) / (SCALE as int) + 1) % self.cap()] as int,
                (offset as int) % (SCALE as int),
            ),
    {
        let cap = self.data.len();
        let off = offset as u64;
        let whole = off / (SCALE as u64);
        let f = (off % (SCALE as u64)) as i64;
        proof {
            assert(whole as int == (offset as int) / (SCALE as int));
            assert(f as int == (offset as int) % (SCALE as int));
            lemma_mod_division_less_than_divisor(offset as int, SCALE as int);
            assert(cap as int == self.cap());
        }
        let i = whole as usize;
        let a = self.get(i);
        let b = self.get(i + 1);
        lerp(a, b, f)
    }

    /// Zeroes every slot and returns both cursors to 0.
    pub fn reset(&mut self)
        requires
            old(self).wf(),
        ensures
            final(self).wf(),
            final(self).cap() == old(self).cap(),
            final(self).slots() =~= Seq::new(old(self).cap() as nat, |i: int| 0i64),
            final(self).rpos() == 0,
            final(self).wpos() == 0,
    {
        let cap = self.data.len();
        let mut i: usize = 0;
        while i < cap
            invariant
                i <= cap,
                self.data@.len() == cap,
                forall|j: int| 0 <= j < i ==> self.data@[j] == 0i64,
            decreases cap - i,
        {
            self.data.set(i, 0);
            i += 1;
        }
        self.read_cursor = 0;
        self.write_cursor = 0;
    }

    /// The fixed capacity.
    pub fn capacity(&self) -> (r: usize)
        ensures
            r == self.cap(),
    {
        self.data.len()
    }
}

} // verus!
