use std::f32::consts::PI;

use vibrato::lfo::LFO;

/// Converts a float sample in [-1, 1] to its fixed-point representation.
fn to_fixed(x: f32) -> i64 {
    ((x as f64) * 65536.0).round() as i64
}

/// One period of `sin(frequency * i) * amplitude`, with the period length
/// computed as `round(1 / frequency * sample_rate)`, in fixed point.
fn build_wave_table(amplitude: f32, frequency: f32, sample_rate: f32) -> Vec<i64> {
    let period = (1.0 / frequency * sample_rate).round() as usize;
    let mut table: Vec<i64> = Vec::with_capacity(period);
    for cur_index in 0..period {
        table.push(to_fixed((frequency * cur_index as f32).sin() * amplitude));
    }
    table
}

#[test]
fn test_sin_wave() {
    let amplitude = 1.0;
    let frequency = 2.0 * PI;
    let sample_rate = 8000.0;
    let frequency_in_sample = frequency / sample_rate;
    let my_lfo = LFO::new(build_wave_table(amplitude, frequency_in_sample, sample_rate));
    let sin_value_1 = my_lfo.get_sin_wave(8000) as f64 / 65536.0;
    assert!(sin_value_1.abs() < 0.001);
    let sin_value_2 = my_lfo.get_sin_wave(2000) as f64 / 65536.0;
    assert!((sin_value_2 - 1.0).abs() < 0.001);
}

#[test]
fn modulo_lookup_and_reset_keep_values() {
    let mut lfo = LFO::new(vec![10, 20, 30]);
    assert_eq!(lfo.get_sin_wave(0), 10);
    assert_eq!(lfo.get_sin_wave(1), 20);
    assert_eq!(lfo.get_sin_wave(2), 30);
    // indices wrap modulo the period
    assert_eq!(lfo.get_sin_wave(4), 20);
    assert_eq!(lfo.get_sin_wave(300), 10);
    // reset re-runs the fill: served values are unchanged
    lfo.reset();
    assert_eq!(lfo.get_sin_wave(4), 20);
    assert_eq!(lfo.get_sin_wave(300), 10);
}
