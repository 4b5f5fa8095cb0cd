use videee::cache::{
    paths_to_prune, select_clips, summary_after_save, summary_for_id, tags_from_column, tags_to_column, ClipRow,
    ClipSummary,
};
use videee::export::{ExportRow, FrameRate};
use videee::library::{
    build_export_rows, copy_strings, export_format, resolve_clip_id, resolve_temp_file_name,
    resolve_timeline_name, scanned_clip_row, thumbnail_path, ExportFormat, MarkerSpan,
};
use videee::metadata::ClipMetadata;
use videee::scanner::ScannedFile;

fn sample_row(id: &str, path: &str) -> ClipRow {
    ClipRow {
        id: id.to_string(),
        library_root: "/library".to_string(),
        path: path.to_string(),
        filename: path.rsplit('/').next().unwrap().to_string(),
        size: 1024,
        mtime: 1_700_000_000,
        content_hash: "deadbeef".to_string(),
        duration_ms: Some(12_500),
        thumbnail_path: Some(format!("/thumbs/{id}.jpg")),
        tags: vec!["b-roll".to_string()],
        notes: "n".to_string(),
        author: "alex".to_string(),
        updated_at: "t".to_string(),
    }
}

fn is_uuid_v4(s: &str) -> bool {
    s.len() == 36
        && s.chars().enumerate().all(|(i, c)| {
            if [8, 13, 18, 23].contains(&i) {
                c == '-'
            } else {
                c.is_ascii_digit() || ('a'..='f').contains(&c)
            }
        })
        && s.as_bytes()[14] == b'4'
}

#[test]
fn prune_keeps_present_paths_and_drops_the_rest_in_order() {
    let known = vec!["/library/a.mp4".to_string(), "/library/b.mp4".to_string(), "/library/c.mp4".to_string()];
    let present = vec!["/library/a.mp4".to_string()];
    assert_eq!(paths_to_prune(&known, &present), vec!["/library/b.mp4".to_string(), "/library/c.mp4".to_string()]);
    assert!(paths_to_prune(&known, &known).is_empty());
    assert!(paths_to_prune(&vec![], &present).is_empty());
}

#[test]
fn selection_keeps_only_selected_rows_in_order() {
    let rows = vec![sample_row("clip-1", "/library/a.mp4"), sample_row("clip-2", "/library/b.mp4"), sample_row("clip-3", "/library/c.mp4")];
    let picked = select_clips(rows, &vec!["clip-3".to_string(), "clip-1".to_string(), "nope".to_string()]);
    let ids: Vec<String> = picked.iter().map(|r| r.id.clone()).collect();
    assert_eq!(ids, vec!["clip-1".to_string(), "clip-3".to_string()]);
}

#[test]
fn summary_is_found_by_id_or_reported_missing() {
    let rows = vec![sample_row("clip-1", "/library/a.mp4"), sample_row("clip-2", "/library/b.mp4")];
    let s: ClipSummary = summary_for_id(rows, "clip-2").unwrap();
    assert_eq!(s.filename, "b.mp4");
    assert_eq!(s.duration_ms, Some(12_500));
    assert_eq!(s.tags, vec!["b-roll".to_string()]);
    let missing = summary_after_save(vec![sample_row("clip-1", "/library/a.mp4")], "clip-9");
    assert_eq!(missing.err(), Some("clip clip-9 not found in cache after save".to_string()));
    let found = summary_after_save(vec![sample_row("clip-1", "/library/a.mp4")], "clip-1").unwrap();
    assert_eq!(found.path, "/library/a.mp4");
    let from: ClipSummary = ClipSummary::from(sample_row("clip-5", "/library/e.mp4"));
    assert_eq!(from.id, "clip-5");
    assert_eq!(from.size, 1024);
}

#[test]
fn clip_id_prefers_cache_then_sidecar_then_fresh_uuid() {
    assert_eq!(resolve_clip_id(Some("cached".to_string()), Some("side".to_string())), "cached");
    assert_eq!(resolve_clip_id(None, Some("side".to_string())), "side");
    let a = resolve_clip_id(None, None);
    let b = resolve_clip_id(None, None);
    assert!(is_uuid_v4(&a));
    assert!(is_uuid_v4(&b));
    assert_ne!(a, b);
}

#[test]
fn scanned_row_takes_metadata_from_the_matching_sidecar() {
    let file = ScannedFile {
        path: "/library/a.mp4".to_string(),
        filename: "a.mp4".to_string(),
        size: 100,
        mtime: 7,
        content_hash: "hash-a".to_string(),
    };
    let mut side: ClipMetadata<()> = ClipMetadata::new(
        "clip-1".to_string(),
        "a.mp4".to_string(),
        None,
        "sam".to_string(),
        "2026-01-01T00:00:00Z".to_string(),
    );
    side.tags = vec!["b-roll".to_string()];
    side.notes = "nice".to_string();
    let row = scanned_clip_row("/library", &file, "clip-1".to_string(), Some(5_000), None, Some(&side));
    assert_eq!(row.tags, vec!["b-roll".to_string()]);
    assert_eq!(row.notes, "nice");
    assert_eq!(row.author, "sam");
    assert_eq!(row.size, 100);
    assert_eq!(row.library_root, "/library");
    let bare = scanned_clip_row::<()>("/library", &file, "clip-2".to_string(), None, Some("/t/clip-2.jpg".to_string()), None);
    assert!(bare.tags.is_empty());
    assert_eq!(bare.notes, "");
    assert_eq!(bare.thumbnail_path, Some("/t/clip-2.jpg".to_string()));
}

#[test]
fn thumbnail_lives_in_the_thumbnail_folder() {
    let sep = std::path::MAIN_SEPARATOR;
    assert_eq!(thumbnail_path("/data/thumbnails", "clip-1"), format!("/data/thumbnails{sep}clip-1.jpg"));
}

#[test]
fn every_selected_clip_is_represented_in_export_rows() {
    let clips = vec![sample_row("clip-1", "/library/a.mp4"), sample_row("clip-2", "/library/b.mp4")];
    let mut no_duration = sample_row("clip-3", "/library/c.mp4");
    no_duration.duration_ms = None;
    let clips = vec![clips[0].clone_row(), clips[1].clone_row(), no_duration];
    let markers = vec![
        vec![],
        vec![
            MarkerSpan { label: "Best take".to_string(), in_ms: 1_000, out_ms: 2_500 },
            MarkerSpan { label: "Alt".to_string(), in_ms: 3_000, out_ms: 4_000 },
        ],
        vec![],
    ];
    let rows: Vec<ExportRow> = build_export_rows(
        &clips,
        markers,
        &vec![FrameRate { num: 25, den: 1 }, FrameRate { num: 30_000, den: 1_001 }, FrameRate { num: 24, den: 1 }],
    );
    assert_eq!(rows.len(), 4);
    assert_eq!(rows[0].filename, "a.mp4");
    assert_eq!(rows[0].marker_label, "");
    assert_eq!((rows[0].in_ms, rows[0].out_ms, rows[0].fps.num, rows[0].fps.den), (0, 12_500, 25, 1));
    assert_eq!(rows[1].marker_label, "Best take");
    assert_eq!((rows[1].in_ms, rows[1].out_ms, rows[1].fps.num, rows[1].fps.den), (1_000, 2_500, 30_000, 1_001));
    assert_eq!(rows[2].marker_label, "Alt");
    assert_eq!(rows[2].tags, vec!["b-roll".to_string()]);
    assert_eq!((rows[3].in_ms, rows[3].out_ms), (0, 0));
}

trait CloneRow {
    fn clone_row(&self) -> ClipRow;
}

impl CloneRow for ClipRow {
    fn clone_row(&self) -> ClipRow {
        ClipRow {
            id: self.id.clone(),
            library_root: self.library_root.clone(),
            path: self.path.clone(),
            filename: self.filename.clone(),
            size: self.size,
            mtime: self.mtime,
            content_hash: self.content_hash.clone(),
            duration_ms: self.duration_ms,
            thumbnail_path: self.thumbnail_path.clone(),
            tags: copy_strings(&self.tags),
            notes: self.notes.clone(),
            author: self.author.clone(),
            updated_at: self.updated_at.clone(),
        }
    }
}

#[test]
fn export_format_choice_and_file_naming() {
    let edl = export_format("edl");
    assert!(matches!(edl, ExportFormat::Edl));
    assert_eq!(edl.default_file_name(), "videee-export.edl");
    assert_eq!(edl.filter_label(), "EDL");
    assert_eq!(edl.extension(), "edl");
    let csv = export_format("anything");
    assert!(matches!(csv, ExportFormat::Csv));
    assert!(matches!(export_format("EDL"), ExportFormat::Csv));
    assert_eq!(csv.default_file_name(), "videee-export.csv");
    assert_eq!(csv.content(&[]), "filename,tags,marker,in,out\n");
    assert!(edl.content(&[]).starts_with("TITLE: Videee Export\n"));
}

#[test]
fn resolve_send_names() {
    assert_eq!(resolve_timeline_name("2026-07-21T00:00:00Z"), "Videee Export 2026-07-21T00:00:00Z");
    let name = resolve_temp_file_name();
    assert!(name.starts_with("videee-resolve-"));
    assert!(name.ends_with(".edl"));
    assert!(is_uuid_v4(&name["videee-resolve-".len()..name.len() - 4]));
}

#[test]
fn tags_column_round_trips_through_json() {
    let tags = vec!["b-roll".to_string(), "say \"hi\"".to_string()];
    let text = tags_to_column(&tags).unwrap();
    assert_eq!(text, r#"["b-roll","say \"hi\""]"#);
    assert_eq!(tags_from_column(&text), tags);
    assert_eq!(tags_to_column(&[]).unwrap(), "[]");
    assert_eq!(tags_from_column("[]"), Vec::<String>::new());
}

#[test]
fn an_unreadable_tags_column_gives_no_tags() {
    assert_eq!(tags_from_column("not json"), Vec::<String>::new());
    assert_eq!(tags_from_column("[1, 2]"), Vec::<String>::new());
    assert_eq!(tags_from_column(""), Vec::<String>::new());
}
