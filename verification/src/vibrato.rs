//! The vibrato processor.
//!
//! A `vibrato_generator` owns a delay line sized to cover the maximum delay
//! excursion plus an interpolation lookahead and a guard, and an oscillator
//! whose wave table drives the delay. `add_vibrato` rewrites a signal in
//! place, channel by channel: it primes the delay line with the tail of the
//! channel, then walks the channel backward, replacing each sample with an
//! interpolated read of the line at the oscillator-modulated fractional
//! delay, consuming one slot and feeding one earlier original sample (or
//! silence past the start) per step.
//!
//! The whole pass has a closed functional description, `processed_at`,
//! which the contracts use: the delay line is re-primed from a clean state
//! for every channel, so channels are processed independently and the
//! output depends only on the input samples and the constructor parameters.

use vstd::prelude::*;
use vstd::arithmetic::div_mod::{
    lemma_add_mod_noop, lemma_div_is_ordered, lemma_div_multiples_vanish, lemma_div_pos_is_pos,
    lemma_small_mod, lemma_sub_mod_noop,
};
use crate::fixed::{interp, SCALE};
use crate::lfo::LFO;
use crate::ring_buffer::RingBuffer;

verus! {

/// Upper bound on the delay and width parameters, in samples: keeps the
/// fixed-point delay arithmetic comfortably within `i64`.
pub const MAX_DELAY_SAMPLES: usize = 1048576;

/// The sample at position `x` of a channel, with positions outside the
/// signal read as silence.
pub open spec fn ext_sample(data: Seq<i64>, x: int) -> int {
    if 0 <= x < data.len() {
        data[x] as int
    } else {
        0
    }
}

/// The fixed-point fractional delay at sample position `t`: the centre
/// delay plus the modulation width scaled by the oscillator wave value at
/// `t` modulo the wave period.
pub open spec fn frac_delay_at(delay: int, width: int, wave: Seq<i64>, t: int) -> int {
    delay * (SCALE as int) + width * (wave[t % (wave.len() as int)] as int)
}

/// What the delay line serves at offset `j` from its read cursor while the
/// processor works at position `t` of a channel of `data.len()` samples,
/// the line having `buffer_length` slots and having been primed against
/// that same channel. Offsets still covered by the priming pass read
/// `data[t - j]`; offsets already refilled by the main pass read one
/// sample earlier, with silence before the start of the signal.
pub open spec fn line_sample(data: Seq<i64>, buffer_length: int, t: int, j: int) -> int {
    if data.len() - 1 - t <= buffer_length - 2 - j {
        ext_sample(data, t - j)
    } else {
        ext_sample(data, t - j - 1)
    }
}

/// The processed value at position `t` of a channel: the linear
/// interpolation of the two delay-line samples bracketing the fractional
/// delay at `t`.
pub open spec fn processed_at(
    data: Seq<i64>,
    wave: Seq<i64>,
    delay: int,
    width: int,
    t: int,
) -> int {
    let buffer_length = delay + width + 10;
    let fd = frac_delay_at(delay, width, wave, t);
    let whole = fd / (SCALE as int);
    let f = fd % (SCALE as int);
    interp(
        line_sample(data, buffer_length, t, whole),
        line_sample(data, buffer_length, t, whole + 1),
        f,
    )
}

/// All channels of a signal have the same length.
pub open spec fn channels_aligned(sig: Seq<Vec<i64>>) -> bool {
    forall|c: int| 0 <= c < sig.len() ==> (#[trigger] sig[c])@.len() == sig[0]@.len()
}

/// Two positions less than one modulus apart have distinct residues.
proof fn lemma_mod_distinct(a: int, c: int, m: int)
    requires
        0 < m,
        a < c,
        c - a < m,
    ensures
        a % m != c % m,
{
    if a % m == c % m {
        lemma_sub_mod_noop(c, a, m);
        lemma_small_mod(0nat, m as nat);
        assert((c - a) % m == 0);
        lemma_small_mod((c - a) as nat, m as nat);
        assert(false);
    }
}

/// The fractional delay stays within `[0, (delay + width) * SCALE]` when
/// the wave value stays within one fixed-point unit of zero.
proof fn lemma_frac_delay_bounds(delay: int, width: int, v: int)
    requires
        0 <= width <= delay,
        -(SCALE as int) <= v <= SCALE as int,
    ensures
        0 <= delay * (SCALE as int) + width * v,
        delay * (SCALE as int) + width * v <= (delay + width) * (SCALE as int),
{
    let s = SCALE as int;
    assert(-(width * s) <= width * v && width * v <= width * s) by (nonlinear_arith)
        requires 0 <= width, -s <= v <= s;
    assert(width * s <= delay * s) by (nonlinear_arith)
        requires width <= delay, 0 < s;
    assert((delay + width) * s == delay * s + width * s) by (nonlinear_arith);
}

/// The whole part of a fractional delay bounded by `(delay + width) * SCALE`
/// is at most `delay + width`.
proof fn lemma_frac_delay_quotient(fd: int, delay: int, width: int)
    requires
        0 <= fd,
        fd <= (delay + width) * (SCALE as int),
        0 <= delay + width,
    ensures
        0 <= fd / (SCALE as int) <= delay + width,
{
    let s = SCALE as int;
    lemma_div_pos_is_pos(fd, s);
    lemma_div_is_ordered(fd, (delay + width) * s, s);
    lemma_div_multiples_vanish(delay + width, s);
    assert(s * (delay + width) == (delay + width) * s) by (nonlinear_arith);
}

/// The vibrato processor: modulation parameters in samples, an oscillator,
/// and the shared delay line.
#[allow(non_camel_case_types)]
pub struct vibrato_generator {
    delay_sample: usize,
    width_sample: usize,
    buffer_length: usize,
    lfo_generator: LFO,
    ring_buffer: RingBuffer,
}

impl vibrato_generator {
    /// The centre delay, in samples.
    pub closed spec fn delay(self) -> int {
        self.delay_sample as int
    }

    /// The modulation width, in samples.
    pub closed spec fn width(self) -> int {
        self.width_sample as int
    }

    /// The delay line length, in slots.
    pub closed spec fn buf_len(self) -> int {
        self.buffer_length as int
    }

    /// One period of the oscillator wave, in fixed point.
    pub closed spec fn wave(self) -> Seq<i64> {
        self.lfo_generator.wave()
    }

    /// Well-formedness: the delay line covers the maximum delay excursion
    /// plus the interpolation lookahead, and the oscillator wave stays
    /// within one fixed-point unit of zero.
    pub closed spec fn wf(self) -> bool {
        &&& self.width_sample <= self.delay_sample
        &&& self.delay_sample <= MAX_DELAY_SAMPLES
        &&& self.buffer_length == self.delay_sample + self.width_sample + 10
        &&& self.lfo_generator.wf()
        &&& self.wave().len() >= 1
        &&& forall|q: int| 0 <= q < self.wave().len()
            ==> -(SCALE as int) <= (#[trigger] self.wave()[q]) <= SCALE as int
        &&& self.ring_buffer.wf()
        &&& self.ring_buffer.cap() == self.buffer_length
    }

    /// Builds a processor with the given centre delay and modulation width,
    /// both in samples, and one period of the modulation wave in fixed
    /// point. The wave must stay within one fixed-point unit of zero and
    /// must not be empty.
    pub fn new(delay_sample: usize, width_sample: usize, lfo_table: Vec<i64>) -> (r: Self)
        requires
            width_sample <= delay_sample,
            delay_sample <= MAX_DELAY_SAMPLES,
            lfo_table@.len() >= 1,
            forall|q: int| 0 <= q < lfo_table@.len()
                ==> -(SCALE as int) <= (#[trigger] lfo_table@[q]) <= SCALE as int,
        ensures
            r.wf(),
            r.delay() == delay_sample,
            r.width() == width_sample,
            r.buf_len() == delay_sample + width_sample + 10,
            r.wave() == lfo_table@,
    {
        let buffer_length = delay_sample + width_sample + 10;
        let ring_buffer = RingBuffer::new(buffer_length);
        let lfo_generator = LFO::new(lfo_table);
        vibrato_generator { delay_sample, width_sample, buffer_length, lfo_generator, ring_buffer }
    }

    /// Clears the delay line and the oscillator back to the state of a
    /// freshly constructed processor with the same parameters.
    pub fn reset(&mut self)
        requires
            old(self).wf(),
        ensures
            final(self).wf(),
            final(self).delay() == old(self).delay(),
            final(self).width() == old(self).width(),
            final(self).buf_len() == old(self).buf_len(),
            final(self).wave() == old(self).wave(),
    {
        self.ring_buffer.reset();
        self.lfo_generator.reset();
    }

    /// Processes one channel against a freshly cleared delay line,
    /// returning the processed samples; the input is read only.
    fn process_channel(&mut self, data: &Vec<i64>) -> (out: Vec<i64>)
        requires
            old(self).wf(),
            data@.len() >= 1,
            data@.len() + 1 >= old(self).buf_len(),
        ensures
            final(self).wf(),
            final(self).delay() == old(self).delay(),
            final(self).width() == old(self).width(),
            final(self).buf_len() == old(self).buf_len(),
            final(self).wave() == old(self).wave(),
            out@.len() == data@.len(),
            forall|t: int| 0 <= t < data@.len()
                ==> (#[trigger] out@[t]) as int == processed_at(
                    data@,
                    old(self).wave(),
                    old(self).delay(),
                    old(self).width(),
                    t,
                ),
    {
        let ghost lfo0 = self.lfo_generator;
        let ghost wave0 = self.wave();
        let delay = self.delay_sample;
        let width = self.width_sample;
        let b = self.buffer_length;
        let l = data.len();

        self.ring_buffer.reset();

        // Priming: push the last `b - 1` samples of the channel, newest
        // first, into the cleared line.
        let mut m: usize = 0;
        while m < b - 1
            invariant
                self.wf(),
                self.lfo_generator == lfo0,
                self.delay_sample == delay,
                self.width_sample == width,
                self.buffer_length == b,
                l == data@.len(),
                l >= 1,
                l + 1 >= b,
                b >= 10,
                m <= b - 1,
                self.ring_buffer.rpos() == 0,
                self.ring_buffer.wpos() == (m as int) % (b as int),
                forall|q: int| 0 <= q < m
                    ==> (#[trigger] self.ring_buffer.slots()[q]) as int
                        == ext_sample(data@, l - 1 - q),
            decreases b - 1 - m,
        {
            proof {
                lemma_small_mod(m as nat, b as nat);
            }
            let v = data[l - 1 - m];
            self.ring_buffer.push(v);
            proof {
                lemma_small_mod(1nat, b as nat);
                lemma_add_mod_noop(m as int, 1, b as int);
            }
            m += 1;
        }

        proof {
            let bi = b as int;
            assert forall|j: int| 0 <= j <= bi - 2 implies
                (#[trigger] self.ring_buffer.slots()[(0 + j) % bi]) as int
                    == line_sample(data@, bi, l as int - 1, j)
            by {
                lemma_small_mod(j as nat, bi as nat);
                assert(self.ring_buffer.slots()[j] as int == ext_sample(data@, l - 1 - j));
            }
        }

        // Main pass: walk the channel backward; at each position read the
        // line at the fractional delay, record the result, consume one
        // slot and feed the sample `b` positions earlier (or silence).
        let mut out = copy_samples(data);
        let mut k: usize = 0;
        while k < l
            invariant
                self.wf(),
                self.lfo_generator == lfo0,
                wave0 == lfo0.wave(),
                self.delay_sample == delay,
                self.width_sample == width,
                self.buffer_length == b,
                l == data@.len(),
                l >= 1,
                l + 1 >= b,
                b >= 10,
                b == delay + width + 10,
                k <= l,
                self.ring_buffer.rpos() == (k as int) % (b as int),
                self.ring_buffer.wpos() == (k as int + b as int - 1) % (b as int),
                forall|j: int| 0 <= j <= b - 2
                    ==> (#[trigger] self.ring_buffer.slots()[(k as int + j) % (b as int)]) as int
                        == line_sample(data@, b as int, l - 1 - k, j),
                out@.len() == l,
                forall|x: int| l - k <= x < l
                    ==> (#[trigger] out@[x]) as int
                        == processed_at(data@, wave0, delay as int, width as int, x),
                forall|x: int| 0 <= x < l - k ==> (#[trigger] out@[x]) == data@[x],
            decreases l - k,
        {
            let t = l - 1 - k;
            let mod_scale = self.lfo_generator.get_sin_wave(t);
            proof {
                vstd::arithmetic::div_mod::lemma_mod_division_less_than_divisor(
                    t as int,
                    wave0.len() as int,
                );
                assert(-(SCALE as int) <= mod_scale as int <= SCALE as int);
                lemma_frac_delay_bounds(delay as int, width as int, mod_scale as int);
            }
            let fraction_delay: i64 = (delay as i64) * SCALE + (width as i64) * mod_scale;
            proof {
                lemma_frac_delay_quotient(
                    fraction_delay as int,
                    delay as int,
                    width as int,
                );
            }
            let delay_signal = self.ring_buffer.get_frac(fraction_delay);
            proof {
                let s = SCALE as int;
                let bi = b as int;
                let ki = k as int;
                let ti = t as int;
                let fdi = fraction_delay as int;
                let whole = fdi / s;
                lemma_small_mod(whole as nat, bi as nat);
                lemma_add_mod_noop(ki, whole, bi);
                lemma_small_mod((whole + 1) as nat, bi as nat);
                lemma_add_mod_noop(ki, whole + 1, bi);
                assert((ki % bi + whole) % bi == (ki + whole) % bi);
                assert((ki % bi + whole + 1) % bi == (ki + whole + 1) % bi);
                assert(self.ring_buffer.slots()[(ki + whole) % bi] as int
                    == line_sample(data@, bi, ti, whole));
                assert(self.ring_buffer.slots()[(ki + whole + 1) % bi] as int
                    == line_sample(data@, bi, ti, whole + 1));
                assert(fdi == frac_delay_at(delay as int, width as int, wave0, ti));
                assert(delay_signal as int
                    == processed_at(data@, wave0, delay as int, width as int, ti));
            }
            out.set(t, delay_signal);
            let _ = self.ring_buffer.pop();
            let feed = if t >= b {
                data[t - b]
            } else {
                0
            };
            self.ring_buffer.push(feed);
            proof {
                let bi = b as int;
                let ki = k as int;
                let ti = t as int;
                lemma_small_mod(1nat, bi as nat);
                lemma_add_mod_noop(ki, 1, bi);
                lemma_add_mod_noop(ki + bi - 1, 1, bi);
                assert(feed as int == ext_sample(data@, ti - bi));
                assert forall|j: int| 0 <= j <= bi - 2 implies
                    (#[trigger] self.ring_buffer.slots()[(ki + 1 + j) % bi]) as int
                        == line_sample(data@, bi, ti - 1, j)
                by {
                    if j == bi - 2 {
                        assert((ki + 1 + j) % bi == (ki + bi - 1) % bi);
                        assert(line_sample(data@, bi, ti - 1, bi - 2)
                            == ext_sample(data@, ti - bi));
                    } else {
                        lemma_mod_distinct(ki + 1 + j, ki + bi - 1, bi);
                        assert(self.ring_buffer.slots()[(ki + (j + 1)) % bi] as int
                            == line_sample(data@, bi, ti, j + 1));
                        assert((ki + 1 + j) % bi == (ki + (j + 1)) % bi);
                        assert(line_sample(data@, bi, ti, j + 1)
                            == line_sample(data@, bi, ti - 1, j));
                    }
                }
            }
            k += 1;
        }
        out
    }

    /// Applies the vibrato to every channel of the signal, in place. Every
    /// channel is processed independently against a freshly re-primed delay
    /// line, so the result depends only on the input samples and the
    /// constructor parameters. An empty channel list, or zero-length
    /// channels, are left untouched. Non-empty channels must all have the
    /// same length, and that length must be no less than the delay line
    /// length minus one, so that the priming pass has enough samples.
    pub fn add_vibrato(&mut self, wav_data: &mut Vec<Vec<i64>>)
        requires
            old(self).wf(),
            channels_aligned(old(wav_data)@),
            old(wav_data)@.len() > 0 && old(wav_data)@[0]@.len() > 0
                ==> old(wav_data)@[0]@.len() + 1 >= old(self).buf_len(),
        ensures
            final(self).wf(),
            final(self).delay() == old(self).delay(),
            final(self).width() == old(self).width(),
            final(self).buf_len() == old(self).buf_len(),
            final(self).wave() == old(self).wave(),
            final(wav_data)@.len() == old(wav_data)@.len(),
            forall|c: int| 0 <= c < old(wav_data)@.len()
                ==> (#[trigger] final(wav_data)@[c])@.len() == old(wav_data)@[c]@.len(),
            forall|c: int, t: int|
                0 <= c < old(wav_data)@.len() && 0 <= t < old(wav_data)@[c]@.len()
                    ==> (#[trigger] final(wav_data)@[c]@[t]) as int == processed_at(
                        old(wav_data)@[c]@,
                        old(self).wave(),
                        old(self).delay(),
                        old(self).width(),
                        t,
                    ),
    {
        let ghost sig0 = wav_data@;
        let ghost wave0 = self.wave();
        let ghost delay0 = self.delay();
        let ghost width0 = self.width();
        let channel_length = wav_data.len();
        if channel_length == 0 {
            return;
        }
        let data_length = wav_data[0].len();
        if data_length == 0 {
            return;
        }
        let b = self.buffer_length;
        let mut cur_channel: usize = 0;
        while cur_channel < channel_length
            invariant
                self.wf(),
                self.delay() == delay0,
                self.width() == width0,
                self.buf_len() == b as int,
                self.wave() == wave0,
                cur_channel <= channel_length,
                wav_data@.len() == channel_length,
                sig0.len() == channel_length,
                data_length >= 1,
                data_length + 1 >= b,
                forall|c: int| 0 <= c < channel_length
                    ==> (#[trigger] sig0[c])@.len() == data_length,
                forall|c: int| cur_channel <= c < channel_length
                    ==> (#[trigger] wav_data@[c])@ == sig0[c]@,
                forall|c: int| 0 <= c < cur_channel
                    ==> (#[trigger] wav_data@[c])@.len() == data_length,
                forall|c: int, t: int| 0 <= c < cur_channel && 0 <= t < data_length
                    ==> (#[trigger] wav_data@[c]@[t]) as int
                        == processed_at(sig0[c]@, wave0, delay0, width0, t),
            decreases channel_length - cur_channel,
        {
            let out = self.process_channel(&wav_data[cur_channel]);
            wav_data.set(cur_channel, out);
            cur_channel += 1;
        }
    }
}

/// The magnitude of a sample value.
pub open spec fn magnitude(v: int) -> int {
    if v >= 0 {
        v
    } else {
        -v
    }
}

/// With an all-zero modulation wave the effect is a pure delay: away from
/// the priming tail each output sample is the input sample `delay + 1`
/// positions earlier (silence before the signal starts); over the last
/// `width + 9` positions, which the priming pass still covers, the offset
/// is `delay` instead.
pub proof fn lemma_zero_wave_pure_delay(
    data: Seq<i64>,
    wave: Seq<i64>,
    delay: int,
    width: int,
    t: int,
)
    requires
        0 <= width <= delay,
        wave.len() >= 1,
        forall|q: int| 0 <= q < wave.len() ==> (#[trigger] wave[q]) == 0i64,
        0 <= t,
    ensures
        t <= data.len() - width - 10 ==> processed_at(data, wave, delay, width, t)
            == ext_sample(data, t - delay - 1),
        t > data.len() - width - 10 ==> processed_at(data, wave, delay, width, t)
            == ext_sample(data, t - delay),
{
    let s = SCALE as int;
    let len = wave.len() as int;
    vstd::arithmetic::div_mod::lemma_mod_division_less_than_divisor(t, len);
    assert(wave[t % len] == 0i64);
    let fd = frac_delay_at(delay, width, wave, t);
    assert(fd == delay * s);
    lemma_div_multiples_vanish(delay, s);
    assert(s * delay == delay * s) by (nonlinear_arith);
    assert(fd / s == delay);
    vstd::arithmetic::div_mod::lemma_mod_multiples_basic(delay, s);
    assert(fd % s == 0);
    let b = delay + width + 10;
    crate::fixed::lemma_interp_left(
        line_sample(data, b, t, delay),
        line_sample(data, b, t, delay + 1),
    );
}

/// With an all-zero modulation wave, output magnitude equals input
/// magnitude exactly over the settled region.
pub proof fn lemma_zero_wave_preserves_magnitude(
    data: Seq<i64>,
    wave: Seq<i64>,
    delay: int,
    width: int,
    t: int,
)
    requires
        0 <= width <= delay,
        wave.len() >= 1,
        forall|q: int| 0 <= q < wave.len() ==> (#[trigger] wave[q]) == 0i64,
        delay + 1 <= t <= data.len() - width - 10,
    ensures
        magnitude(processed_at(data, wave, delay, width, t))
            == magnitude(data[t - delay - 1] as int),
{
    lemma_zero_wave_pure_delay(data, wave, delay, width, t);
}

/// A constant input yields the same constant output once past the settling
/// window, whatever the modulation wave does.
pub proof fn lemma_dc_input_dc_output(
    data: Seq<i64>,
    wave: Seq<i64>,
    delay: int,
    width: int,
    v: i64,
    t: int,
)
    requires
        0 <= width <= delay,
        wave.len() >= 1,
        forall|q: int| 0 <= q < wave.len()
            ==> -(SCALE as int) <= (#[trigger] wave[q]) <= SCALE as int,
        forall|x: int| 0 <= x < data.len() ==> (#[trigger] data[x]) == v,
        delay + width + 1 <= t < data.len(),
    ensures
        processed_at(data, wave, delay, width, t) == v,
{
    let s = SCALE as int;
    let len = wave.len() as int;
    let b = delay + width + 10;
    vstd::arithmetic::div_mod::lemma_mod_division_less_than_divisor(t, len);
    lemma_frac_delay_bounds(delay, width, wave[t % len] as int);
    let fd = frac_delay_at(delay, width, wave, t);
    lemma_frac_delay_quotient(fd, delay, width);
    let whole = fd / s;
    let f = fd % s;
    vstd::arithmetic::div_mod::lemma_mod_division_less_than_divisor(fd, s);
    assert(line_sample(data, b, t, whole) == v as int);
    if f == 0 {
        crate::fixed::lemma_interp_left(
            line_sample(data, b, t, whole),
            line_sample(data, b, t, whole + 1),
        );
    } else {
        vstd::arithmetic::div_mod::lemma_fundamental_div_mod(fd, s);
        assert(whole * s < fd);
        assert(whole < delay + width) by (nonlinear_arith)
            requires whole * s < fd, fd <= (delay + width) * s, s > 0;
        assert(line_sample(data, b, t, whole + 1) == v as int);
        crate::fixed::lemma_interp_same(v as int, f);
    }
}

/// An all-zero channel yields an all-zero channel, at every position.
pub proof fn lemma_zero_input_zero_output(
    data: Seq<i64>,
    wave: Seq<i64>,
    delay: int,
    width: int,
    t: int,
)
    requires
        0 <= width <= delay,
        wave.len() >= 1,
        forall|q: int| 0 <= q < wave.len()
            ==> -(SCALE as int) <= (#[trigger] wave[q]) <= SCALE as int,
        forall|x: int| 0 <= x < data.len() ==> (#[trigger] data[x]) == 0i64,
        0 <= t,
    ensures
        processed_at(data, wave, delay, width, t) == 0,
{
    let s = SCALE as int;
    let len = wave.len() as int;
    let b = delay + width + 10;
    vstd::arithmetic::div_mod::lemma_mod_division_less_than_divisor(t, len);
    lemma_frac_delay_bounds(delay, width, wave[t % len] as int);
    let fd = frac_delay_at(delay, width, wave, t);
    let whole = fd / s;
    let f = fd % s;
    vstd::arithmetic::div_mod::lemma_mod_division_less_than_divisor(fd, s);
    assert(line_sample(data, b, t, whole) == 0);
    assert(line_sample(data, b, t, whole + 1) == 0);
    crate::fixed::lemma_interp_same(0, f);
}

/// Processing is consistent under truncation: a channel that is a prefix
/// of a longer channel is processed to the same values wherever the
/// position is clear of the shorter channel's priming tail. In particular,
/// after a `reset` the processor carries no history from an earlier,
/// longer signal into a later, shorter one.
pub proof fn lemma_prefix_consistent(
    data1: Seq<i64>,
    data2: Seq<i64>,
    wave: Seq<i64>,
    delay: int,
    width: int,
    t: int,
)
    requires
        0 <= width <= delay,
        wave.len() >= 1,
        forall|q: int| 0 <= q < wave.len()
            ==> -(SCALE as int) <= (#[trigger] wave[q]) <= SCALE as int,
        data2.len() <= data1.len(),
        forall|x: int| 0 <= x < data2.len() ==> (#[trigger] data1[x]) == data2[x],
        0 <= t,
        t + delay + width + 9 < data2.len(),
    ensures
        processed_at(data2, wave, delay, width, t)
            == processed_at(data1, wave, delay, width, t),
{
    let s = SCALE as int;
    let len = wave.len() as int;
    let b = delay + width + 10;
    vstd::arithmetic::div_mod::lemma_mod_division_less_than_divisor(t, len);
    lemma_frac_delay_bounds(delay, width, wave[t % len] as int);
    let fd = frac_delay_at(delay, width, wave, t);
    lemma_frac_delay_quotient(fd, delay, width);
    let whole = fd / s;
    assert(line_sample(data2, b, t, whole) == line_sample(data1, b, t, whole));
    assert(line_sample(data2, b, t, whole + 1) == line_sample(data1, b, t, whole + 1));
}

/// Returns a copy of the given samples.
fn copy_samples(data: &Vec<i64>) -> (r: Vec<i64>)
    ensures
        r@ == data@,
{
    let mut r: Vec<i64> = Vec::new();
    let mut i: usize = 0;
    while i < data.len()
        invariant
            i <= data@.len(),
            r@.len() == i,
            forall|j: int| 0 <= j < i ==> r@[j] == data@[j],
        decreases data@.len() - i,
    {
        r.push(data[i]);
        i += 1;
    }
    proof {
        assert(r@ =~= data@);
    }
    r
}

} // verus!
