use spectral::metronome::{check_metronome, ClickType};
use spectral::timing::{TimingPoint, TimingPoints};

fn collection(points: &[(i64, i64)]) -> TimingPoints {
    let mut tps = TimingPoints::new();
    for &(offset, bpm) in points {
        tps.insert(TimingPoint::new(offset, bpm));
    }
    tps
}

#[test]
fn no_points_means_no_click() {
    let tps = TimingPoints::new();
    assert_eq!(check_metronome(0, 1_000_000, &tps), None);
}

#[test]
fn crossing_a_beat_clicks_once() {
    // 120 BPM from 0: beats every 500 ms.
    let tps = collection(&[(0, 120_000)]);
    // Moving within one beat: no click.
    assert_eq!(check_metronome(100_000, 400_000, &tps), None);
    // Crossing the 500 ms beat: an ordinary click (beat 1 of a 4/4 measure).
    assert_eq!(
        check_metronome(400_000, 600_000, &tps),
        Some(ClickType::Beat)
    );
    // Crossing the 2000 ms beat: a downbeat (beat 4 starts the next measure).
    assert_eq!(
        check_metronome(1_900_000, 2_100_000, &tps),
        Some(ClickType::Downbeat)
    );
    // Standing still: no click.
    assert_eq!(check_metronome(600_000, 600_000, &tps), None);
}

#[test]
fn the_section_under_the_playhead_decides() {
    // 120 BPM from 0, then 60 BPM from 2000 ms (beats every 1000 ms).
    let tps = collection(&[(0, 120_000), (2_000_000, 60_000)]);
    // At 2.9 s -> 3.1 s the second section's grid (2000, 3000, ...) is
    // crossed at 3000 ms.
    assert_eq!(
        check_metronome(2_900_000, 3_100_000, &tps),
        Some(ClickType::Beat)
    );
    // 2.1 s -> 2.9 s crosses nothing of the second grid.
    assert_eq!(check_metronome(2_100_000, 2_900_000, &tps), None);
}

#[test]
fn before_the_first_point_the_first_section_rules() {
    // The lookup falls back to the first point even before its offset; no
    // beat is crossed while both instants sit before it.
    let tps = collection(&[(1_000_000, 120_000)]);
    assert_eq!(check_metronome(0, 500_000, &tps), None);
    // Reaching the first offset crosses beat zero of the section.
    assert_eq!(
        check_metronome(900_000, 1_000_000, &tps),
        Some(ClickType::Downbeat)
    );
}
