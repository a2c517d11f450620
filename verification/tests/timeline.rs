use spectral::timeline::{ruler_interval, Timeline};

#[test]
fn new_and_reset_defaults() {
    let mut tl = Timeline::new();
    assert_eq!(tl.offset, 0);
    assert_eq!(tl.pixels_per_second, 100_000);
    tl.offset = 5_000_000;
    tl.pixels_per_second = 50_000;
    tl.reset();
    assert_eq!(tl.offset, 0);
    assert_eq!(tl.pixels_per_second, 100_000);
}

#[test]
fn visible_range_and_max_scroll() {
    let tl = Timeline::new();
    // 800 px = 800_000 mpx at 100 px/s: 8 seconds visible.
    let (start, end) = tl.visible_range(800_000);
    assert_eq!(start, 0);
    assert_eq!(end, 8_000_000);
    // A 60 s track leaves 52 s of scroll room.
    assert_eq!(tl.max_scroll(60_000_000, 800_000), 52_000_000);
    // A track shorter than the viewport cannot scroll at all.
    assert_eq!(tl.max_scroll(5_000_000, 800_000), 0);
}

#[test]
fn coordinate_mapping_exact_values() {
    let tl = Timeline::new();
    // 1 second at 100 px/s is 100 px (100 000 milli-pixels) right of the
    // left edge.
    assert_eq!(tl.us_to_x(1_000_000, 0), 100_000);
    assert_eq!(tl.us_to_x(0, 42_000), 42_000);
    assert_eq!(tl.x_to_us(142_000, 42_000), 1_000_000);
}

#[test]
fn coordinate_mapping_round_trip() {
    // Mapping an instant to a screen position and back moves it by at most
    // the time one milli-pixel spans (10 + 1 microseconds at this zoom).
    let tl = Timeline::new();
    for &t in &[0i64, 1, 999, 123_456, 1_000_000, 59_999_999] {
        let x = tl.us_to_x(t, 42_000);
        let back = tl.x_to_us(x, 42_000);
        assert!(t - back >= 0, "round trip moved {} right to {}", t, back);
        assert!(t - back <= 1_000_000 / tl.pixels_per_second + 1);
    }
}

#[test]
fn scroll_converts_pixels_and_clamps() {
    let mut tl = Timeline::new();
    // +100 px at 100 px/s is one second.
    tl.scroll(100_000, 60_000_000, 800_000);
    assert_eq!(tl.offset, 1_000_000);
    // Scrolling far left clamps at zero.
    tl.scroll(-10_000_000, 60_000_000, 800_000);
    assert_eq!(tl.offset, 0);
    // Scrolling far right clamps at max_scroll.
    tl.scroll_us(500_000_000, 60_000_000, 800_000);
    assert_eq!(tl.offset, 52_000_000);
}

#[test]
fn scroll_clamp_holds_over_any_sequence() {
    let mut tl = Timeline::new();
    let duration = 30_000_000i64;
    let width = 800_000i64;
    let deltas = [
        5_000_000i64,
        -9_000_000,
        123_456_789,
        -1,
        77_777,
        -400_000_000,
        29_999_999,
    ];
    for &d in &deltas {
        tl.scroll_us(d, duration, width);
        let ms = tl.max_scroll(duration, width);
        assert!(0 <= tl.offset && tl.offset <= ms);
    }
}

#[test]
fn scroll_to_centers() {
    let mut tl = Timeline::new();
    // Centering on 10 s with an 8 s viewport puts the left edge at 6 s.
    tl.scroll_to(10_000_000, 60_000_000, 800_000);
    assert_eq!(tl.offset, 6_000_000);
    // Centering near the start clamps at zero.
    tl.scroll_to(1_000_000, 60_000_000, 800_000);
    assert_eq!(tl.offset, 0);
}

#[test]
fn zoom_level_stays_in_bounds() {
    let mut tl = Timeline::new();
    tl.zoom(1, 0, 60_000_000, 800_000);
    assert_eq!(tl.pixels_per_second, 10_000);
    tl.zoom(i64::MAX, 0, 60_000_000, 800_000);
    assert_eq!(tl.pixels_per_second, 2_000_000);
    tl.zoom(i64::MIN, 0, 60_000_000, 800_000);
    assert_eq!(tl.pixels_per_second, 10_000);
    tl.zoom(150_000, 0, 60_000_000, 800_000);
    assert_eq!(tl.pixels_per_second, 150_000);
}

#[test]
fn zoom_keeps_focus_under_cursor() {
    let mut tl = Timeline::new();
    tl.scroll_us(5_000_000, 600_000_000, 800_000);
    assert_eq!(tl.offset, 5_000_000);
    let focus = 9_000_000i64;
    let x_before = tl.us_to_x(focus, 0);
    tl.zoom(250_000, focus, 600_000_000, 800_000);
    let x_after = tl.us_to_x(focus, 0);
    // Within two milli-pixels, far under the one-pixel tolerance.
    assert!(x_before - x_after >= 0 && x_before - x_after <= 2);
}

#[test]
fn ruler_spacing_follows_the_zoom() {
    // 8 s visible over 800 px: 16 labels fit at 1 s spacing, not at 500 ms.
    assert_eq!(ruler_interval(8_000_000, 800_000), 1_000_000);
    // 200 ms visible over 800 px: the finest spacing fits.
    assert_eq!(ruler_interval(200_000, 800_000), 100_000);
    // Hours over a narrow viewport run off the table and fall back to a
    // minute.
    assert_eq!(ruler_interval(3_600_000_000, 400_000), 60_000_000);
}
