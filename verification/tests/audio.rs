use spectral::audio::{mono_from_interleaved, AudioData};

#[test]
fn mono_mix_averages_each_frame() {
    // Two channels: each mono frame is the truncated average of its pair.
    let samples = vec![10, 20, -5, -6, 7, 0];
    let mono = mono_from_interleaved(&samples, 2);
    assert_eq!(mono, vec![15, -5, 3]);
    // Truncation is toward zero: (-5 + -6) / 2 is -5, not -6.
}

#[test]
fn mono_mix_handles_a_trailing_partial_frame() {
    // Five samples over two channels: the last frame has one sample, still
    // divided by the channel count.
    let samples = vec![10, 20, 30, 40, 50];
    let mono = mono_from_interleaved(&samples, 2);
    assert_eq!(mono, vec![15, 35, 25]);
}

#[test]
fn mono_of_a_mono_track_is_the_track() {
    let samples = vec![1, -2, 3, -4];
    let mono = mono_from_interleaved(&samples, 1);
    assert_eq!(mono, samples);
}

#[test]
fn duration_comes_from_the_mono_length() {
    // 44100 mono frames at 44.1 kHz: exactly one second.
    let audio = AudioData::new(vec![0; 44_100], 44_100, 1);
    assert_eq!(audio.duration_us, 1_000_000);
    // Interleaved stereo halves the frame count.
    let audio = AudioData::new(vec![0; 44_100], 44_100, 2);
    assert_eq!(audio.mono_samples.len(), 22_050);
    assert_eq!(audio.duration_us, 500_000);
    // An empty track has no duration.
    let audio = AudioData::new(Vec::new(), 44_100, 2);
    assert_eq!(audio.mono_samples.len(), 0);
    assert_eq!(audio.duration_us, 0);
}

#[test]
fn time_and_index_convert_both_ways() {
    let audio = AudioData::new(vec![0; 88_200], 44_100, 2);
    // Half a second: frame 22050, sample index 44100.
    assert_eq!(audio.us_to_idx(500_000), 44_100);
    assert_eq!(audio.idx_to_us(44_100), 500_000);
    // Past the end of the track the index caps at the length.
    assert_eq!(audio.us_to_idx(10_000_000), 88_200);
    assert_eq!(audio.us_to_idx(0), 0);
    assert_eq!(audio.idx_to_us(0), 0);
}
