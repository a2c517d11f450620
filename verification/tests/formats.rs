use spectral::export::{is_timing_header, osu_patch, split_lines, ExportFormat};
use spectral::util::format_time;

#[test]
fn game_formats_lists_the_beatmap_format() {
    let formats = ExportFormat::game_formats();
    assert_eq!(formats, vec![ExportFormat::Osu]);
}

#[test]
fn format_labels() {
    assert_eq!(ExportFormat::Csv.label(), "CSV (.csv)");
    assert_eq!(ExportFormat::Osu.label(), "osu! (.osu)");
}

#[test]
fn format_time_renders_the_clock() {
    // 83.456 s is one minute, 23 seconds and 456 milliseconds.
    assert_eq!(format_time(83_456_000), b"01:23.456".to_vec());
    assert_eq!(format_time(0), b"00:00.000".to_vec());
    // Instants before the track start render as its start.
    assert_eq!(format_time(-5_000_000), b"00:00.000".to_vec());
    // Sub-millisecond time is cut, not rounded.
    assert_eq!(format_time(999), b"00:00.000".to_vec());
    assert_eq!(format_time(1_000), b"00:00.001".to_vec());
    // Minutes grow past two digits instead of wrapping.
    assert_eq!(format_time(7_405_678_000), b"123:25.678".to_vec());
    // Zero-padding of seconds and milliseconds.
    assert_eq!(format_time(60_000_000 + 5_000_000 + 7_000), b"01:05.007".to_vec());
}

#[test]
fn split_lines_follows_line_endings() {
    let lines = split_lines(&b"a\r\nb\nc".to_vec());
    assert_eq!(lines, vec![b"a".to_vec(), b"b".to_vec(), b"c".to_vec()]);
    // A trailing ending opens no empty line; a final line needs none.
    assert_eq!(split_lines(&b"a\n".to_vec()), vec![b"a".to_vec()]);
    assert_eq!(split_lines(&b"".to_vec()), Vec::<Vec<u8>>::new());
    // A bare carriage return stays inside its line.
    assert_eq!(split_lines(&b"a\rb".to_vec()), vec![b"a\rb".to_vec()]);
}

#[test]
fn timing_header_is_found_up_to_whitespace() {
    assert!(is_timing_header(&b"[TimingPoints]".to_vec()));
    assert!(is_timing_header(&b"  [TimingPoints]\t".to_vec()));
    assert!(!is_timing_header(&b"[HitObjects]".to_vec()));
    assert!(!is_timing_header(&b"[TimingPoints] x".to_vec()));
    assert!(!is_timing_header(&b"".to_vec()));
}

#[test]
fn osu_patch_replaces_the_timing_section_only() {
    let contents = b"osu file format v14\n\n[TimingPoints]\n100,500.0,4,2,1,100,1,0\nold\n[HitObjects]\nx,y\n";
    let rows = vec![b"250,250.00000000,4,2,1,100,1,0".to_vec()];
    let patched = osu_patch(&contents.to_vec(), &rows);
    assert_eq!(
        String::from_utf8(patched).unwrap(),
        "osu file format v14\n\n[TimingPoints]\n250,250.00000000,4,2,1,100,1,0\n\n[HitObjects]\nx,y\n"
    );
    // Without a timing section every line survives unchanged.
    let contents = b"[General]\na: b\n".to_vec();
    let patched = osu_patch(&contents, &rows);
    assert_eq!(patched, contents);
}
