use videee::scanner::{
    content_hash, has_hidden_component, is_lowercase_video_extension, is_video_extension, is_video_file, to_hex,
    HASH_SAMPLE_BYTES,
};

#[test]
fn video_files_are_recognised_by_extension_in_any_case() {
    assert!(is_video_file("/lib/clip.mp4"));
    assert!(is_video_file("/lib/clip.MOV"));
    assert!(is_video_file("/lib/sub/nested.avi"));
    assert!(is_video_file("master.MxF"));
    assert!(!is_video_file("/lib/notes.txt"));
    assert!(!is_video_file("/lib/mp4"));
    assert!(!is_video_file("/lib/.mp4"));
    assert!(!is_video_file("/lib/clip.mp4.part"));
    assert!(is_video_file("take:1.mov"));
    assert!(is_video_file("dir\\x.mp4"));
    assert!(is_video_file("C:\\lib\\clip.MOV"));
    assert!(is_video_extension("AVI"));
    assert!(!is_video_extension("mkv"));
}

#[test]
fn hidden_components_are_detected() {
    let comp = |v: &[&str]| v.iter().map(|s| s.to_string()).collect::<Vec<String>>();
    assert!(has_hidden_component(&comp(&["/", "lib", ".metadata", "x.mp4"])));
    assert!(!has_hidden_component(&comp(&["/", "lib", "sub", "nested.avi"])));
    assert!(!has_hidden_component(&comp(&[])));
    assert!(!has_hidden_component(&comp(&["", "a"])));
}

#[test]
fn fingerprint_is_sha256_of_prefix_and_le_size() {
    assert_eq!(
        content_hash(b"identical bytes", 15),
        "01ecb61498e79c1e6f9919f36dedaca527db840bb2ca617dd9e2f3b06b922f5e"
    );
    assert_eq!(
        content_hash(b"", 0),
        "af5570f5a1810b7af78caf4bc70a660f0df51e42baf91d4de5b2328de0e83dfc"
    );
}

#[test]
fn same_prefix_and_size_give_the_same_fingerprint() {
    assert_eq!(content_hash(b"identical bytes", 15), content_hash(b"identical bytes", 15));
    assert_ne!(content_hash(b"identical bytes", 15), content_hash(b"different bytes!", 16));
    assert_ne!(content_hash(b"identical bytes", 15), content_hash(b"identical bytes", 16));
    assert_eq!(HASH_SAMPLE_BYTES, 4 * 1024 * 1024);
}

#[test]
fn hex_is_lower_case_two_digits_per_byte() {
    assert_eq!(to_hex(&vec![0x00, 0x0f, 0xbe, 0xef]), "000fbeef");
    assert_eq!(to_hex(&vec![]), "");
}

#[test]
fn video_files_on_a_network_share() {
    assert!(is_video_file(r"\\server\share\clips\take.MP4"));
    assert!(is_video_file("//server/share/clips/take.mov"));
    assert!(!is_video_file(r"\\server\share\clips\notes.txt"));
}

#[test]
fn lowercase_video_extensions_are_matched_exactly() {
    assert!(is_lowercase_video_extension("mp4"));
    assert!(is_lowercase_video_extension("mxf"));
    assert!(!is_lowercase_video_extension("MP4"));
    assert!(!is_lowercase_video_extension("mp"));
    assert!(is_video_extension("MP4"));
}

#[test]
fn video_files_named_before_a_trailing_separator() {
    assert!(is_video_file("/lib/clip.mp4/"));
    assert!(is_video_file("/lib/clip.MOV/."));
    assert!(is_video_file("clip.avi//"));
    assert!(!is_video_file("/lib/notes.txt/"));
}
