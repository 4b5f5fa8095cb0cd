# videee

The verified core of Videee, a local-first video library and tagging tool that
keeps its metadata as JSON sidecars inside a cloud-synced folder.

`src/` is a Verus library. Its functions carry contracts that Verus proves,
except the small `#[verifier::external_body]` wrappers around std, `serde_json`,
`sha2`, `uuid` and `dirs` (`push_char`, `join_path`, `path_extension`,
`path_file_stem`, `to_lowercase`, `sha256_digest`, `parse_string_list`,
`encode_string_list`, `data_dir`, `path_text`, `join_native`, `new_uuid`) and
the declaration of std's `PathBuf`: their contracts restate what those libraries
document and are trusted, not proved. Times are whole milliseconds and frame
rates exact fractions (numerator over denominator, such as 30000/1001), so the
export formats are exact integer arithmetic.

- `export` — CSV shot logs and CMX3600 EDLs (timecodes, reel names, CSV quoting),
  with laws for timecode roll-over, back-to-back record timelines, one CSV line
  per row and CSV quoting that reads back.
- `metadata` — sidecar records, where they live, how an edit merges into them and
  how a renamed file finds its sidecar again.
- `cache` — clip rows of the local index: selection, lookup by id, pruning, and
  the JSON tags column.
- `library` — clip ids for scanned files, cache rows from scans, export rows.
- `scanner` — which files are videos and their content fingerprints.
- `watcher` — generations of change events and the sidecar re-read backoff.
- `bridge` — the DaVinci Resolve bridge's endpoint, replies, errors and install path.
- `paths`, `text` — std's path and string primitives the rest builds on.

`app/` is the Tauri application: SQLite, the file system, ffmpeg, HTTP and the
floating-point conversions between seconds and milliseconds. `tests/` exercises
the library.
