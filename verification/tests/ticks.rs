use spectral::timing::{SnapDivision, TimingPoint, TimingPoints};

fn collection(points: &[(i64, i64)]) -> TimingPoints {
    let mut tps = TimingPoints::new();
    for &(offset, bpm) in points {
        tps.insert(TimingPoint::new(offset, bpm));
    }
    tps
}

#[test]
fn single_section_concrete_classification() {
    // One timing point at 0 ms, 120 BPM, snap divisor 4: beat length 500 ms,
    // tick length 125 ms. Over [0, 1000) ms of a 1000 ms track the grid is
    // one full measure plus the start of the next beat.
    let tps = collection(&[(0, 120_000)]);
    let ticks = tps.get_beat_ticks(4, 1_000_000, 0, 1_000_000);
    let expected = vec![
        (0i64, SnapDivision::Downbeat),
        (125_000, SnapDivision::Quarter),
        (250_000, SnapDivision::Half),
        (375_000, SnapDivision::Quarter),
        (500_000, SnapDivision::Beat),
        (625_000, SnapDivision::Quarter),
        (750_000, SnapDivision::Half),
        (875_000, SnapDivision::Quarter),
    ];
    assert_eq!(ticks, expected);
}

#[test]
fn multi_section_boundary_has_no_overlap_and_no_gap() {
    // Two timing points at 0 ms and 1000 ms; ticks over [900, 1100) ms must
    // stop short of 1000 for the first section and resume exactly at 1000.
    let tps = collection(&[(0, 120_000), (1_000_000, 120_000)]);
    let ticks = tps.get_beat_ticks(4, 10_000_000, 900_000, 1_100_000);
    // The first section's grid reaches 875 ms only (1000 ms equals its end
    // and is excluded); the second section's grid starts exactly at 1000 ms.
    assert_eq!(ticks, vec![(1_000_000i64, SnapDivision::Downbeat)]);
    // Widening the range to catch the first section's last tick shows the
    // split: 875 belongs to the first section, 1000 to the second.
    let ticks = tps.get_beat_ticks(4, 10_000_000, 800_000, 1_100_000);
    assert_eq!(
        ticks,
        vec![
            (875_000i64, SnapDivision::Quarter),
            (1_000_000, SnapDivision::Downbeat),
        ]
    );
}

#[test]
fn empty_intersection_is_skipped() {
    let tps = collection(&[(0, 120_000)]);
    // Range entirely after the end of the audio.
    let ticks = tps.get_beat_ticks(4, 1_000_000, 2_000_000, 3_000_000);
    assert!(ticks.is_empty());
    // Empty range.
    let ticks = tps.get_beat_ticks(4, 1_000_000, 500_000, 500_000);
    assert!(ticks.is_empty());
    // No timing points at all.
    let none = TimingPoints::new();
    assert!(none.get_beat_ticks(4, 1_000_000, 0, 1_000_000).is_empty());
}

#[test]
fn equal_offsets_make_an_empty_section() {
    // Two points on the same offset: the first section has zero length and
    // contributes nothing; the grid comes from the second point alone.
    let tps = collection(&[(0, 120_000), (0, 60_000)]);
    let ticks = tps.get_beat_ticks(1, 1_000_000, 0, 1_000_000);
    // 60 BPM, divisor 1: one tick per second, only the downbeat at 0 fits
    // strictly inside the 1000 ms track; the tick at 1000 ms equals the
    // section end and is excluded.
    assert_eq!(ticks, vec![(0i64, SnapDivision::Downbeat)]);
}

#[test]
fn from_tick_priority_table() {
    // Divisor 16: every class is reachable, first match wins.
    assert_eq!(SnapDivision::from_tick(0, 16, 0), SnapDivision::Downbeat);
    assert_eq!(SnapDivision::from_tick(0, 16, 3), SnapDivision::Beat);
    assert_eq!(SnapDivision::from_tick(8, 16, 0), SnapDivision::Half);
    assert_eq!(SnapDivision::from_tick(4, 16, 0), SnapDivision::Quarter);
    assert_eq!(SnapDivision::from_tick(2, 16, 0), SnapDivision::Eighth);
    assert_eq!(SnapDivision::from_tick(1, 16, 0), SnapDivision::Sixteenth);
    // Divisor 12 reaches the triplet classes.
    assert_eq!(SnapDivision::from_tick(6, 12, 0), SnapDivision::Half);
    assert_eq!(SnapDivision::from_tick(4, 12, 0), SnapDivision::Third);
    assert_eq!(SnapDivision::from_tick(3, 12, 0), SnapDivision::Quarter);
    assert_eq!(SnapDivision::from_tick(2, 12, 0), SnapDivision::Sixth);
    assert_eq!(SnapDivision::from_tick(1, 12, 0), SnapDivision::Twelfth);
    // Divisors with classes that nothing divides fall through to Other.
    assert_eq!(SnapDivision::from_tick(3, 7, 0), SnapDivision::Other);
    // The half check outranks the third: at divisor 6, tick 3 is a Half even
    // though it also sits on a third of the beat.
    assert_eq!(SnapDivision::from_tick(3, 6, 0), SnapDivision::Half);
    assert_eq!(SnapDivision::from_tick(2, 6, 0), SnapDivision::Third);
}

#[test]
fn rendering_lookup_tables() {
    assert_eq!(SnapDivision::Downbeat.height_milli(), 1000);
    assert_eq!(SnapDivision::Beat.height_milli(), 800);
    assert_eq!(SnapDivision::Half.height_milli(), 650);
    assert_eq!(SnapDivision::Third.height_milli(), 550);
    assert_eq!(SnapDivision::Quarter.height_milli(), 480);
    assert_eq!(SnapDivision::Sixth.height_milli(), 420);
    assert_eq!(SnapDivision::Eighth.height_milli(), 380);
    assert_eq!(SnapDivision::Twelfth.height_milli(), 340);
    assert_eq!(SnapDivision::Sixteenth.height_milli(), 300);
    assert_eq!(SnapDivision::Other.height_milli(), 450);
    assert_eq!(SnapDivision::Downbeat.width_milli(), 2500);
    assert_eq!(SnapDivision::Beat.width_milli(), 2000);
    assert_eq!(SnapDivision::Half.width_milli(), 1500);
    assert_eq!(SnapDivision::Other.width_milli(), 1000);
}

#[test]
fn collection_keeps_sorted_order() {
    let tps = collection(&[(5_000_000, 100_000), (1_000_000, 200_000), (3_000_000, 150_000)]);
    assert_eq!(tps.len(), 3);
    assert_eq!(tps.get(0).offset, 1_000_000);
    assert_eq!(tps.get(1).offset, 3_000_000);
    assert_eq!(tps.get(2).offset, 5_000_000);
}

#[test]
fn remove_by_id_removes_exactly_the_token() {
    let mut tps = collection(&[(1_000_000, 100_000), (2_000_000, 200_000)]);
    let victim = tps.get(0).id();
    tps.remove_by_id(victim);
    assert_eq!(tps.len(), 1);
    assert_eq!(tps.get(0).offset, 2_000_000);
    // Removing an unknown token changes nothing.
    tps.remove_by_id(victim);
    assert_eq!(tps.len(), 1);
}

#[test]
fn us_per_beat_exact() {
    let tp = TimingPoint::new(0, 120_000);
    assert_eq!(tp.us_per_beat(), 500_000);
    let tp = TimingPoint::new(0, 222_220);
    // 60 s / 222.22 beats, rounded down to whole microseconds.
    assert_eq!(tp.us_per_beat(), 270_002);
}

#[test]
fn tap_tempo_concrete() {
    // Clicks 500 ms apart make 120 BPM; the offset is the earlier click.
    let (offset, bpm) = spectral::timing::tap_tempo(1_500_000, 1_000_000);
    assert_eq!(offset, 1_000_000);
    assert_eq!(bpm, 120_000);
    // 437 ms apart: 60000 / 437 = 137.2997... BPM, rounded to 137.30.
    let (offset, bpm) = spectral::timing::tap_tempo(0, 437_000);
    assert_eq!(offset, 0);
    assert_eq!(bpm, 137_300);
    // Clicks on the same instant fall back to 120 BPM.
    let (_, bpm) = spectral::timing::tap_tempo(437_600, 437_600);
    assert_eq!(bpm, 120_000);
    // The offset rounds to the nearest whole millisecond.
    let (offset, _) = spectral::timing::tap_tempo(1_234_567, 2_000_000);
    assert_eq!(offset, 1_235_000);
}
