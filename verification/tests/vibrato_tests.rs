use std::f32::consts::PI;

use vibrato::vibrato::vibrato_generator;

/// Converts a float sample in [-1, 1] to its fixed-point representation.
fn to_fixed(x: f32) -> i64 {
    ((x as f64) * 65536.0).round() as i64
}

/// One period of `sin(frequency * i) * amplitude`, with the period length
/// computed as `round(1 / frequency * sample_rate)`, in fixed point.
fn build_wave_table(amplitude: f32, frequency: f32, sample_rate: f32) -> Vec<i64> {
    let period = (1.0 / frequency * sample_rate).round() as usize;
    let mut table: Vec<i64> = Vec::with_capacity(period);
    for cur_index in 0..period {
        table.push(to_fixed((frequency * cur_index as f32).sin() * amplitude));
    }
    table
}

/// Builds the processor as the original parameterization does: sample rate
/// in Hz, modulation frequency in Hz, width in seconds, amplitude in [0, 1].
fn make_generator(
    sample_rate: i32,
    mod_freq: f32,
    vib_width: f32,
    vib_amplitude: f32,
) -> vibrato_generator {
    let width_sample = (vib_width * sample_rate as f32).round() as usize;
    let delay_sample = (vib_width * sample_rate as f32).round() as usize;
    let table = build_wave_table(
        vib_amplitude,
        mod_freq * 2.0 * PI / sample_rate as f32,
        sample_rate as f32,
    );
    vibrato_generator::new(delay_sample, width_sample, table)
}

#[test]
fn test_zero_amplitude() {
    // if the amplitude is zero then the output is pure delay
    let mut wav_data: Vec<Vec<i64>> = vec![vec![]];
    let mut wav_data_2: Vec<Vec<i64>> = vec![vec![]];
    for t in 0..8000 {
        let true_t = t as f32 / 8000.0;
        let cur_data = to_fixed(true_t.sin());
        wav_data[0].push(cur_data);
        wav_data_2[0].push(cur_data);
    }
    let delay_sample: usize = (0.01f32 * 8000.0).round() as usize;
    let mut generator = make_generator(8000, 5.0, 0.01, 0.0);

    generator.add_vibrato(&mut wav_data);
    for t in 0..2000 {
        assert_eq!(wav_data[0][t + delay_sample + 1], wav_data_2[0][t]);
    }
}

#[test]
fn test_dc_input() {
    // a dc input gives a dc output, once past
    // a) the leading zeros due to the delay and
    // b) the first non-zero element due to the interpolation
    let mut wav_data: Vec<Vec<i64>> = vec![vec![]];
    for _t in 0..8000 {
        wav_data[0].push(to_fixed(0.5));
    }
    let mut generator = make_generator(8000, 5.0, 0.01, 1.0);

    generator.add_vibrato(&mut wav_data);
    for t in 1000..2000 {
        assert_eq!(wav_data[0][t], to_fixed(0.5));
    }
}

#[test]
fn test_zero_input() {
    // zero input gives zero output
    let mut wav_data: Vec<Vec<i64>> = vec![vec![]];
    for _t in 0..8000 {
        wav_data[0].push(0);
    }
    let mut generator = make_generator(8000, 5.0, 0.01, 0.0);

    generator.add_vibrato(&mut wav_data);
    for t in 1000..2000 {
        assert_eq!(wav_data[0][t], 0);
    }
}

#[test]
fn test_block_size() {
    // processing a shorter signal that is a prefix of a longer one, after a
    // reset, reproduces the same output over the shared leading region
    let mut wav_data: Vec<Vec<i64>> = vec![vec![]];
    let mut wav_data_2: Vec<Vec<i64>> = vec![vec![]];
    for t in 0..8000 {
        let true_t = t as f32 / 8000.0;
        wav_data[0].push(to_fixed(true_t.sin()));
    }
    for t in 0..6000 {
        let true_t = t as f32 / 8000.0;
        wav_data_2[0].push(to_fixed(true_t.sin()));
    }
    let mut generator = make_generator(8000, 5.0, 0.01, 1.0);

    generator.add_vibrato(&mut wav_data);
    generator.reset();
    generator.add_vibrato(&mut wav_data_2);
    for t in 0..2000 {
        assert_eq!(wav_data[0][t], wav_data_2[0][t]);
    }
}

#[test]
fn test_empty_input() {
    // if the input is empty the processor does not do anything
    let mut wav_data: Vec<Vec<i64>> = vec![vec![]];

    let mut generator = make_generator(8000, 5.0, 0.01, 1.0);

    generator.add_vibrato(&mut wav_data);

    assert_eq!(wav_data.len(), 1);
    assert_eq!(wav_data[0].len(), 0);
}

#[test]
fn test_max_input() {
    // with amplitude zero the output contains only the numbers of the
    // original signal, the leading zeros aside
    let mut wav_data: Vec<Vec<i64>> = vec![vec![]];

    for t in 0..8000 {
        if t % 2 == 0 {
            wav_data[0].push(to_fixed(1.0));
        } else {
            wav_data[0].push(to_fixed(-1.0));
        }
    }
    let mut generator = make_generator(8000, 5.0, 0.01, 0.0);

    generator.add_vibrato(&mut wav_data);
    for t in 1000..2000 {
        assert_eq!(wav_data[0][t].abs(), to_fixed(1.0));
    }
}

#[test]
fn full_scale_sine_stays_bounded() {
    // sample rate 8000 Hz, modulation 5 Hz, width 0.01 s, amplitude 1.0,
    // one second of a full-scale input sine: the output has the same
    // length and never exceeds full scale
    let mut wav_data: Vec<Vec<i64>> = vec![vec![]];
    for t in 0..8000 {
        let true_t = t as f32 / 8000.0;
        wav_data[0].push(to_fixed(true_t.sin()));
    }
    let mut generator = make_generator(8000, 5.0, 0.01, 1.0);

    generator.add_vibrato(&mut wav_data);
    assert_eq!(wav_data.len(), 1);
    assert_eq!(wav_data[0].len(), 8000);
    for t in 0..8000 {
        assert!(wav_data[0][t].abs() <= 65536);
    }
}

#[test]
fn pure_delay_offset_shrinks_in_priming_tail() {
    // with amplitude zero, the last `width + 9` output samples are still
    // covered by the priming pass and carry an offset of `delay` rather
    // than `delay + 1`
    let mut wav_data: Vec<Vec<i64>> = vec![vec![]];
    let mut original: Vec<i64> = vec![];
    for t in 0..8000 {
        let true_t = t as f32 / 8000.0;
        let cur_data = to_fixed(true_t.sin());
        wav_data[0].push(cur_data);
        original.push(cur_data);
    }
    let delay_sample: usize = 80;
    let width_sample: usize = 80;
    let mut generator = make_generator(8000, 5.0, 0.01, 0.0);

    generator.add_vibrato(&mut wav_data);
    // settled region: offset delay + 1
    for t in 1000..(8000 - width_sample - 9) {
        assert_eq!(wav_data[0][t], original[t - delay_sample - 1]);
    }
    // priming tail: offset delay
    for t in (8000 - width_sample - 9)..8000 {
        assert_eq!(wav_data[0][t], original[t - delay_sample]);
    }
}

#[test]
fn reset_makes_repeated_processing_identical() {
    // the same input processed after a reset produces bit-identical output
    let mut first: Vec<Vec<i64>> = vec![vec![]];
    let mut second: Vec<Vec<i64>> = vec![vec![]];
    for t in 0..3000 {
        let true_t = t as f32 / 8000.0;
        let cur_data = to_fixed((7.0 * true_t).sin());
        first[0].push(cur_data);
        second[0].push(cur_data);
    }
    let mut generator = make_generator(8000, 5.0, 0.01, 1.0);

    generator.add_vibrato(&mut first);
    generator.reset();
    generator.add_vibrato(&mut second);
    for t in 0..3000 {
        assert_eq!(first[0][t], second[0][t]);
    }
}

#[test]
fn channels_are_processed_independently() {
    // two channels with the same content come out identical: the delay
    // line is re-primed from a clean state for every channel
    let mut wav_data: Vec<Vec<i64>> = vec![vec![], vec![]];
    for t in 0..4000 {
        let true_t = t as f32 / 8000.0;
        let cur_data = to_fixed((3.0 * true_t).sin());
        wav_data[0].push(cur_data);
        wav_data[1].push(cur_data);
    }
    let mut generator = make_generator(8000, 5.0, 0.01, 1.0);

    generator.add_vibrato(&mut wav_data);
    for t in 0..4000 {
        assert_eq!(wav_data[0][t], wav_data[1][t]);
    }
}
