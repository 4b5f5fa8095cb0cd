use videee::export::{
    build_csv, build_edl, csv_escape, edl_rows_ready, format_hms, format_timecode, reel_name,
    whole_frame_rate, ExportRow, FrameRate,
};

fn fps(num: u32, den: u32) -> FrameRate {
    FrameRate { num, den }
}

fn row(filename: &str, marker_label: &str, in_ms: i64, out_ms: i64) -> ExportRow {
    ExportRow {
        filename: filename.to_string(),
        tags: vec!["b-roll".to_string()],
        marker_label: marker_label.to_string(),
        in_ms,
        out_ms,
        fps: fps(25, 1),
    }
}

#[test]
fn csv_has_header_and_one_row_per_export_row() {
    let csv = build_csv(&[row("a.mp4", "Best take", 1_000, 4_500)]);
    let mut lines = csv.lines();
    assert_eq!(lines.next(), Some("filename,tags,marker,in,out"));
    assert_eq!(lines.next(), Some("a.mp4,b-roll,Best take,00:00:01.000,00:00:04.500"));
}

#[test]
fn csv_quotes_fields_containing_commas() {
    let mut r = row("a.mp4", "wide, then close", 0, 1_000);
    r.tags = vec!["a,b".to_string()];
    let csv = build_csv(&[r]);
    assert!(csv.contains("\"a,b\""));
    assert!(csv.contains("\"wide, then close\""));
}

#[test]
fn timecode_rolls_over_correctly_at_fps_boundary() {
    // 25fps: frame 25 rolls into the next second, not "00:00:00:25".
    assert_eq!(format_timecode(1_000, fps(25, 1)), "00:00:01:00");
    assert_eq!(format_timecode(0, fps(25, 1)), "00:00:00:00");
    assert_eq!(format_timecode(61_520, fps(25, 1)), "00:01:01:13");
}

#[test]
fn edl_lays_events_back_to_back_on_the_record_timeline() {
    let rows = [row("a.mp4", "", 10_000, 15_000), row("b.mp4", "", 0, 3_000)];
    assert!(edl_rows_ready(&rows));
    let edl = build_edl("Test Export", &rows);
    assert!(edl.starts_with("TITLE: Test Export\n"));
    // First event: source 10-15s, record starts at 0 -> 0-5s.
    assert!(edl.contains("00:00:10:00 00:00:15:00 00:00:00:00 00:00:05:00"));
    // Second event: source 0-3s, but record continues from where the first left off (5s).
    assert!(edl.contains("00:00:00:00 00:00:03:00 00:00:05:00 00:00:08:00"));
    assert!(edl.contains("* FROM CLIP NAME: a.mp4"));
    assert!(edl.contains("* FROM CLIP NAME: b.mp4"));
}

#[test]
fn reel_name_strips_extension_and_punctuation() {
    // "interview_01" -> alphanumeric-only, uppercased, truncated to 8 chars.
    assert_eq!(reel_name("interview_01.mov"), "INTERVIE");
    assert_eq!(reel_name("....mp4"), "CLIP");
}

#[test]
fn reel_name_keeps_short_names_and_names_without_extension() {
    assert_eq!(reel_name("a-b.c.mp4"), "ABC");
    assert_eq!(reel_name("take7"), "TAKE7");
    assert_eq!(reel_name(""), "CLIP");
    assert_eq!(reel_name(".mp4"), "CLIP");
    assert_eq!(reel_name("café.mov"), "CAF");
}

#[test]
fn edl_full_document_layout() {
    let mut first = row("interview_01.mov", "Best take", 1_000, 2_500);
    first.tags = vec!["b-roll".to_string(), "sunset".to_string()];
    let second = ExportRow {
        filename: "x.mp4".to_string(),
        tags: vec![],
        marker_label: String::new(),
        in_ms: 0,
        out_ms: 1_000,
        fps: fps(30, 1),
    };
    let edl = build_edl("T", &[first, second]);
    let expected = "TITLE: T\n\
FCM: NON-DROP FRAME\n\n\
001  INTERVIE V     C        00:00:01:00 00:00:02:13 00:00:00:00 00:00:01:13\n\
* FROM CLIP NAME: interview_01.mov\n\
* MARKER: Best take\n\
* TAGS: b-roll, sunset\n\
\n\
002  X        V     C        00:00:00:00 00:00:01:00 00:00:01:15 00:00:02:15\n\
* FROM CLIP NAME: x.mp4\n\
\n";
    assert_eq!(edl, expected);
}

#[test]
fn edl_reversed_range_has_zero_length_on_the_record_timeline() {
    let rows = [row("a.mp4", "", 5_000, 2_000), row("b.mp4", "", 0, 1_000)];
    let edl = build_edl("R", &rows);
    assert!(edl.contains("00:00:05:00 00:00:02:00 00:00:00:00 00:00:00:00"));
    assert!(edl.contains("00:00:00:00 00:00:01:00 00:00:00:00 00:00:01:00"));
}

#[test]
fn empty_exports_have_only_their_headers() {
    assert_eq!(build_csv(&[]), "filename,tags,marker,in,out\n");
    assert_eq!(build_edl("E", &[]), "TITLE: E\nFCM: NON-DROP FRAME\n\n");
}

#[test]
fn hms_formats_hours_minutes_seconds_and_millis() {
    assert_eq!(format_hms(0), "00:00:00.000");
    assert_eq!(format_hms(4_500), "00:00:04.500");
    assert_eq!(format_hms(3_723_004), "01:02:03.004");
    assert_eq!(format_hms(360_000_000), "100:00:00.000");
    // Negative times read as the start of the clip.
    assert_eq!(format_hms(-1_500), "00:00:00.000");
}

#[test]
fn timecode_uses_rounded_whole_frame_rate() {
    // 29.97 fps counts 30 frames per timecode second; 10 s is frame 300.
    assert_eq!(format_timecode(10_000, fps(30_000, 1_001)), "00:00:10:00");
    // 100000 s at 30000/1001 is frame 2997003 (2997002.997 rounded).
    assert_eq!(format_timecode(100_000_000, fps(30_000, 1_001)), "27:45:00:03");
    // 23.976 fps -> 24 frames per second; 1.5 s is frame 36 = 1 s + 12 frames.
    assert_eq!(format_timecode(1_500, fps(24_000, 1_001)), "00:00:01:12");
    // A rate below one frame per second counts as one.
    assert_eq!(format_timecode(2_000, fps(2, 5)), "00:00:01:00");
    assert_eq!(format_timecode(3_600_000, fps(25, 1)), "01:00:00:00");
}

#[test]
fn csv_escape_doubles_quotes_and_quotes_newlines() {
    assert_eq!(csv_escape("plain"), "plain");
    assert_eq!(csv_escape("say \"hi\""), "\"say \"\"hi\"\"\"");
    assert_eq!(csv_escape("two\nlines"), "\"two\nlines\"");
    assert_eq!(csv_escape(""), "");
}

#[test]
fn csv_joins_tags_with_semicolons() {
    let mut r = row("a.mp4", "", 0, 0);
    r.tags = vec!["x".to_string(), "y".to_string(), "z".to_string()];
    assert_eq!(build_csv(&[r]), "filename,tags,marker,in,out\na.mp4,x;y;z,,00:00:00.000,00:00:00.000\n");
}

#[test]
fn timeline_that_overflows_milliseconds_does_not_fit() {
    let rows = [row("a.mp4", "", i64::MIN, i64::MAX), row("b.mp4", "", i64::MIN, i64::MAX)];
    assert!(!edl_rows_ready(&rows));
    assert!(edl_rows_ready(&rows[..1]));
    let mut undefined = row("c.mp4", "", 0, 1_000);
    undefined.fps = fps(25, 0);
    assert!(!edl_rows_ready(&[undefined]));
}

#[test]
fn whole_number_frame_rates_are_read_exactly() {
    let r = whole_frame_rate("25/1").unwrap();
    assert_eq!((r.num, r.den), (25, 1));
    let ntsc = whole_frame_rate("30000/1001").unwrap();
    assert_eq!((ntsc.num, ntsc.den), (30000, 1001));
    assert!(whole_frame_rate("0/0").is_none());
    assert!(whole_frame_rate("25/0").is_none());
    assert!(whole_frame_rate("not-a-rate").is_none());
    assert!(whole_frame_rate("").is_none());
    assert!(whole_frame_rate("25").is_none());
    assert!(whole_frame_rate("25/").is_none());
    assert!(whole_frame_rate("29.97/1").is_none());
    assert!(whole_frame_rate("4294967296/1").is_none());
    let max = whole_frame_rate("4294967295/1").unwrap();
    assert_eq!(max.num, u32::MAX);
}
