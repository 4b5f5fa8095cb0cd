use videee::metadata::{
    apply_clip_edit, cache_fields, clip_markers, sidecar_clip_id, find_match, is_sidecar_file, metadata_dir,
    sidecar_path, sidecar_temp_path, ClipEdit, ClipMetadata,
};

fn record(id: &str, filename: &str, hash: Option<&str>) -> ClipMetadata<String> {
    ClipMetadata::new(
        id.to_string(),
        filename.to_string(),
        hash.map(|h| h.to_string()),
        "sam".to_string(),
        "2026-01-01T00:00:00Z".to_string(),
    )
}

fn edit(id: &str) -> ClipEdit<String> {
    ClipEdit {
        library_root: "/lib".to_string(),
        id: id.to_string(),
        filename: "a.mp4".to_string(),
        content_hash: "hash-a".to_string(),
        tags: vec!["b-roll".to_string()],
        notes: "nice shot".to_string(),
        markers: vec!["marker-1".to_string()],
    }
}

#[test]
fn sidecar_paths_live_in_the_metadata_folder() {
    let sep = std::path::MAIN_SEPARATOR;
    assert_eq!(metadata_dir("/lib"), format!("/lib{sep}.metadata"));
    assert_eq!(sidecar_path("/lib", "clip-1"), format!("/lib{sep}.metadata{sep}clip-1.json"));
    assert_eq!(sidecar_temp_path("/lib", "clip-1"), format!("/lib{sep}.metadata{sep}.clip-1.json.tmp"));
    assert_eq!(metadata_dir("/lib/"), "/lib/.metadata");
}

#[test]
fn new_record_is_empty_and_stamped() {
    let r = record("clip-1", "beach_scene.mov", Some("deadbeef"));
    assert_eq!(r.id, "clip-1");
    assert!(r.tags.is_empty());
    assert!(r.markers.is_empty());
    assert_eq!(r.notes, "");
    assert_eq!(r.author, "sam");
    assert_eq!(r.content_hash, Some("deadbeef".to_string()));
}

#[test]
fn edit_of_missing_sidecar_creates_a_record_with_the_hash() {
    let saved = apply_clip_edit(None, edit("clip-1"), "alex".to_string(), "now".to_string());
    assert_eq!(saved.id, "clip-1");
    assert_eq!(saved.tags, vec!["b-roll".to_string()]);
    assert_eq!(saved.notes, "nice shot");
    assert_eq!(saved.markers, vec!["marker-1".to_string()]);
    assert_eq!(saved.author, "alex");
    assert_eq!(saved.updated_at, "now");
    assert_eq!(saved.content_hash, Some("hash-a".to_string()));
}

#[test]
fn edit_keeps_the_first_recorded_hash() {
    let existing = record("clip-1", "old.mp4", Some("first-hash"));
    let saved = apply_clip_edit(Some(existing), edit("clip-1"), "alex".to_string(), "now".to_string());
    assert_eq!(saved.filename, "a.mp4");
    assert_eq!(saved.content_hash, Some("first-hash".to_string()));
    let unhashed = record("clip-1", "old.mp4", None);
    let saved = apply_clip_edit(Some(unhashed), edit("clip-1"), "alex".to_string(), "now".to_string());
    assert_eq!(saved.content_hash, Some("hash-a".to_string()));
}

#[test]
fn markers_of_an_untagged_clip_are_empty() {
    assert!(clip_markers::<String>(None).is_empty());
    let mut r = record("clip-1", "a.mp4", None);
    r.markers = vec!["m".to_string()];
    assert_eq!(clip_markers(Some(r)), vec!["m".to_string()]);
}

#[test]
fn deleted_sidecar_clears_cache_fields() {
    let (tags, notes, author, updated) = cache_fields::<String>(None);
    assert!(tags.is_empty());
    assert_eq!((notes, author, updated), (String::new(), String::new(), String::new()));
    let mut r = record("clip-1", "a.mp4", None);
    r.tags = vec!["x".to_string()];
    r.notes = "n".to_string();
    let (tags, notes, author, updated) = cache_fields(Some(r));
    assert_eq!(tags, vec!["x".to_string()]);
    assert_eq!((notes.as_str(), author.as_str(), updated.as_str()), ("n", "sam", "2026-01-01T00:00:00Z"));
}

#[test]
fn sidecar_matches_by_filename_first_then_by_hash() {
    let sidecars = vec![
        record("one", "renamed-away.mp4", Some("h1")),
        record("two", "b.mp4", Some("h2")),
        record("three", "a.mp4", Some("h1")),
    ];
    assert_eq!(find_match(&sidecars, "a.mp4", "h2"), Some(2));
    assert_eq!(find_match(&sidecars, "new-name.mp4", "h1"), Some(0));
    assert_eq!(find_match(&sidecars, "new-name.mp4", "zzz"), None);
    assert_eq!(find_match::<String>(&vec![], "a.mp4", "h1"), None);
}

#[test]
fn only_json_files_are_sidecars() {
    assert!(is_sidecar_file("/lib/.metadata/clip-1.json"));
    assert!(!is_sidecar_file("/lib/.metadata/.clip-1.json.tmp"));
    assert!(!is_sidecar_file("/lib/.metadata/clip-1.JSON"));
    assert!(!is_sidecar_file("/lib/.metadata/.json"));
    assert!(!is_sidecar_file("/lib/.metadata/notes"));
}

#[test]
fn sidecar_clip_id_is_the_file_stem() {
    assert_eq!(sidecar_clip_id("/lib/.metadata/clip-1.json"), Some("clip-1".to_string()));
    assert_eq!(sidecar_clip_id("/lib/.metadata/a.b.json"), Some("a.b".to_string()));
    assert_eq!(sidecar_clip_id("/lib/.metadata/.hidden"), Some(".hidden".to_string()));
}

#[test]
fn sidecar_paths_on_a_network_share() {
    let sep = std::path::MAIN_SEPARATOR;
    assert_eq!(metadata_dir(r"\\server\share\lib"), format!(r"\\server\share\lib{sep}.metadata"));
    assert_eq!(
        sidecar_path(r"\\server\share\lib", "clip-1"),
        format!(r"\\server\share\lib{sep}.metadata{sep}clip-1.json")
    );
    assert!(is_sidecar_file(r"\\server\share\lib\.metadata\clip-1.json"));
    assert!(!is_sidecar_file(r"\\server\share\lib\.metadata\.clip-1.json.tmp"));
    assert!(is_sidecar_file("//server/share/lib/.metadata/clip-1.json"));
    assert_eq!(sidecar_clip_id("//server/share/lib/.metadata/clip-1.json"), Some("clip-1".to_string()));
}

#[test]
fn sidecar_names_before_a_trailing_separator() {
    assert!(is_sidecar_file("/lib/.metadata/clip-1.json/"));
    assert_eq!(sidecar_clip_id("/lib/.metadata/clip-1.json/."), Some("clip-1".to_string()));
}
