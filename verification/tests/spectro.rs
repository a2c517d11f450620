use rustfft::num_complex::Complex;
use rustfft::FftPlanner;
use spectral::audio::AudioData;
use spectral::spectrogram::{
    bin_interpolation, expanded_columns, expanded_range, normalize_db, plan_render,
    sample_index_of_us, CacheDecision, CachedSpectrogram, Spectrogram,
};

#[test]
fn frame_samples_zero_pads_the_edges() {
    let samples: Vec<i32> = (1..=100).collect();
    let audio = AudioData::new(samples, 44_100, 1);
    let spec = Spectrogram::new(512);
    // Centred on sample 0: the left half of the window is before the track.
    let frame = spec.frame_samples(&audio, 0);
    assert_eq!(frame.len(), 512);
    for i in 0..256 {
        assert_eq!(frame[i], 0, "offset {} should read silence", i);
    }
    // Offsets 256..356 map to samples 0..100, the rest is past the end.
    for i in 256..356 {
        assert_eq!(frame[i], (i - 255) as i32);
    }
    for i in 356..512 {
        assert_eq!(frame[i], 0);
    }
}

#[test]
fn frame_samples_in_the_middle_is_a_plain_window() {
    let samples: Vec<i32> = (0..4096).collect();
    let audio = AudioData::new(samples, 44_100, 1);
    let spec = Spectrogram::new(1024);
    let frame = spec.frame_samples(&audio, 2048);
    for i in 0..1024 {
        assert_eq!(frame[i], (2048 - 512 + i) as i32);
    }
}

#[test]
fn column_centers_are_evenly_spaced() {
    let spec = Spectrogram::new(2048);
    let centers = spec.column_centers(1000, 2000, 4);
    assert_eq!(centers, vec![1000, 1250, 1500, 1750]);
    // A non-dividing span rounds each centre to the nearest sample:
    // 10 / 3 steps put the third centre at 6.67, which rounds up.
    let centers = spec.column_centers(0, 10, 3);
    assert_eq!(centers, vec![0, 3, 7]);
}

#[test]
fn sample_index_conversion() {
    // 1 second at 44.1 kHz is sample 44100.
    assert_eq!(sample_index_of_us(1_000_000, 44_100), 44_100);
    // Fractions round to the nearest sample: 17 us is 0.7497 samples.
    assert_eq!(sample_index_of_us(17, 44_100), 1);
    assert_eq!(sample_index_of_us(10, 44_100), 0);
}

#[test]
fn normalize_db_exact_values() {
    // Centi-decibels against the default window [-80 dB, 0 dB].
    assert_eq!(normalize_db(-4000, -8000, 0), 500);
    assert_eq!(normalize_db(-2000, -8000, 0), 750);
    assert_eq!(normalize_db(0, -8000, 0), 1000);
    assert_eq!(normalize_db(-8000, -8000, 0), 0);
    // Values outside the window clamp.
    assert_eq!(normalize_db(-20000, -8000, 0), 0);
    assert_eq!(normalize_db(500, -8000, 0), 1000);
}

#[test]
fn normalized_intensity_stays_in_unit_range() {
    // The normalization of any decibel value lies in [0, 1] (thousandths).
    let mut db = -20_000i64;
    while db <= 2_000 {
        let v = normalize_db(db, -8000, 0);
        assert!((0..=1000).contains(&v));
        db += 7;
    }
}

#[test]
fn cache_hit_requires_every_parameter_to_match() {
    // Cached range [100, 200) ms at fft 2048.
    let cached = CachedSpectrogram::new(100_000, 200_000, 2048, -8000, 0, 100_000);
    // A request inside the range with unchanged parameters is a hit.
    assert!(cached.is_valid(120_000, 180_000, 2048, -8000, 0, 100_000));
    // Changing the window size is a miss.
    assert!(!cached.is_valid(120_000, 180_000, 1024, -8000, 0, 100_000));
    // A range that leaks out of the cached one is a miss.
    assert!(!cached.is_valid(90_000, 180_000, 2048, -8000, 0, 100_000));
    assert!(!cached.is_valid(120_000, 210_000, 2048, -8000, 0, 100_000));
    // Decibel bounds within slider jitter (under 0.1 dB) still hit.
    assert!(cached.is_valid(120_000, 180_000, 2048, -8009, 9, 100_000));
    // A tenth of a decibel or more is a miss.
    assert!(!cached.is_valid(120_000, 180_000, 2048, -8010, 0, 100_000));
    assert!(!cached.is_valid(120_000, 180_000, 2048, -8000, 10, 100_000));
    // The zoom level must match exactly.
    assert!(!cached.is_valid(120_000, 180_000, 2048, -8000, 0, 100_001));
}

#[test]
fn cache_crop_is_proportional() {
    let cached = CachedSpectrogram::new(100_000, 200_000, 2048, -8000, 0, 100_000);
    // [120, 180) of [100, 200) sits at 20 % .. 80 % of the texture.
    let (u_from, u_to) = cached.uv(120_000, 180_000);
    assert_eq!(u_from, 200_000);
    assert_eq!(u_to, 800_000);
    // The whole cached range is the whole texture.
    assert_eq!(cached.uv(100_000, 200_000), (0, 1_000_000));
}

#[test]
fn miss_recomputes_an_expanded_region() {
    // Visible [1000, 2000) ms in a 10 s track: a quarter of the visible
    // length on each side.
    assert_eq!(
        expanded_range(1_000_000, 2_000_000, 10_000_000),
        (750_000, 2_250_000)
    );
    // The expansion clamps to the track.
    assert_eq!(expanded_range(0, 2_000_000, 10_000_000), (0, 2_500_000));
    assert_eq!(
        expanded_range(9_000_000, 10_000_000, 10_000_000),
        (8_750_000, 10_000_000)
    );
    // Column count scales with the widened span to keep per-pixel density.
    assert_eq!(expanded_columns(1_500_000, 1_000_000, 800), 1200);
    assert_eq!(expanded_columns(1_000_000, 1_000_000, 800), 800);
}

/// The floating-point half of one column, as the rendering pipeline runs it:
/// Hann window, forward transform, magnitude, decibel. It consumes the
/// verified frame and feeds the verified normalization.
fn column_db_centi(frame: &[i32], fft_size: usize) -> Vec<i64> {
    let window: Vec<f32> = (0..fft_size)
        .map(|i| {
            0.5 * (1.0 - (2.0 * std::f32::consts::PI * i as f32 / (fft_size - 1) as f32).cos())
        })
        .collect();
    let mut buffer: Vec<Complex<f32>> = frame
        .iter()
        .enumerate()
        .map(|(i, &s)| Complex::new(s as f32 / 32_768.0 * window[i], 0.0))
        .collect();
    let mut planner = FftPlanner::new();
    let fft = planner.plan_fft_forward(fft_size);
    fft.process(&mut buffer);
    buffer[..fft_size / 2]
        .iter()
        .map(|c| {
            let mag = c.norm() * 2.0 / fft_size as f32;
            let db = 20.0 * mag.max(1e-10).log10();
            (db * 100.0) as i64
        })
        .collect()
}

#[test]
fn column_pipeline_is_deterministic() {
    // The same inputs give bit-identical columns: verified framing and
    // normalization are functions of their arguments, and the transform in
    // between introduces no hidden state either.
    let samples: Vec<i32> = (0..44_100)
        .map(|i| ((i as f64 * 0.1).sin() * 20_000.0) as i32)
        .collect();
    let audio = AudioData::new(samples, 44_100, 1);
    let spec = Spectrogram::new(1024);
    let frame_a = spec.frame_samples(&audio, 22_050);
    let frame_b = spec.frame_samples(&audio, 22_050);
    assert_eq!(frame_a, frame_b);
    let col_a: Vec<i64> = column_db_centi(&frame_a, 1024)
        .into_iter()
        .map(|db| normalize_db(db, -8000, 0))
        .collect();
    let col_b: Vec<i64> = column_db_centi(&frame_b, 1024)
        .into_iter()
        .map(|db| normalize_db(db, -8000, 0))
        .collect();
    assert_eq!(col_a, col_b);
}

#[test]
fn silent_track_yields_an_all_zero_spectrogram() {
    // Ten seconds of 44.1 kHz mono silence, analysed at fft 1024 against
    // [-80 dB, 0 dB] over the first second in 100 columns: silence floors to
    // -200 dB, far below the window, so every value normalizes to zero.
    let audio = AudioData::new(vec![0i32; 441_000], 44_100, 1);
    assert_eq!(audio.duration_us, 10_000_000);
    let spec = Spectrogram::new(1024);
    let start = sample_index_of_us(0, audio.sample_rate);
    let end = sample_index_of_us(1_000_000, audio.sample_rate);
    let centers = spec.column_centers(start, end, 100);
    assert_eq!(centers.len(), 100);
    for &center in &centers {
        let frame = spec.frame_samples(&audio, center);
        for db in column_db_centi(&frame, 1024) {
            assert_eq!(db, -20_000);
            assert_eq!(normalize_db(db, -8000, 0), 0);
        }
    }
}

#[test]
fn bin_interpolation_spreads_rows_over_bins() {
    // The bottom row reads bin 0, the top row the last bin exactly.
    assert_eq!(bin_interpolation(512, 511, 1024), (0, 1, 0));
    let (lo, hi, frac) = bin_interpolation(512, 0, 1024);
    assert_eq!((lo, hi), (1021, 1022));
    assert!((0..1000).contains(&frac));
    // Halfway down the image reads about half the spectrum.
    let (lo, _, _) = bin_interpolation(512, 256, 1024);
    assert_eq!(lo, 509);
    // A one-bin column cannot interpolate: both ends are bin 0.
    assert_eq!(bin_interpolation(16, 3, 1), (0, 0, 0));
}

#[test]
fn render_plan_serves_hits_and_recomputes_misses() {
    // A cached [100, 200) ms image at fft 2048: a request for [120, 180) with
    // unchanged parameters is a hit — a crop, no recomputation.
    let cache = Some(CachedSpectrogram::new(100_000, 200_000, 2048, -8000, 0, 100_000));
    let plan = plan_render(&cache, 120_000, 180_000, 2048, -8000, 0, 100_000, 10_000_000, 800);
    assert_eq!(
        plan,
        CacheDecision::Hit { u_from: 200_000, u_to: 800_000 }
    );
    // The same request after an fft change recomputes: the region widens by a
    // quarter of the visible span on each side, the columns scale with it.
    let plan = plan_render(&cache, 120_000, 180_000, 1024, -8000, 0, 100_000, 10_000_000, 800);
    assert_eq!(
        plan,
        CacheDecision::Miss { start_us: 105_000, end_us: 195_000, columns: 1200 }
    );
    // An empty cache always recomputes.
    let plan = plan_render(&None, 120_000, 180_000, 2048, -8000, 0, 100_000, 10_000_000, 800);
    assert!(matches!(plan, CacheDecision::Miss { .. }));
}
