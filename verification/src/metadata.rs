//! The `.metadata/<clip-id>.json` sidecar records that live inside the synced
//! project folder. These records, not the local cache, are the source of truth.
//!
//! A record's markers are carried as an opaque type `M`: the library moves them
//! between the editor, the sidecar and the cache without reading them.
use vstd::prelude::*;
use crate::text::str_eq;
use crate::paths::{
    file_name_of, slash_file_name, appends_plainly, is_join_base, is_join_of, is_plain_component,
    is_portable_file_path, join_path, lemma_join_keeps_base, name_extension, name_stem, path_extension,
    path_file_stem,
};

verus! {

/// The per-clip record written to a sidecar file.
pub struct ClipMetadata<M> {
    pub id: String,
    pub filename: String,
    pub tags: Vec<String>,
    pub markers: Vec<M>,
    pub notes: String,
    pub author: String,
    pub updated_at: String,
    /// SHA-256 of the file's size plus its first few MB, stored so a clip can still be
    /// linked to its sidecar after a rename.
    pub content_hash: Option<String>,
}

impl<M> ClipMetadata<M> {
    /// A fresh record for a clip with no tags, markers or notes yet, stamped with
    /// the given author and time.
    pub fn new(id: String, filename: String, content_hash: Option<String>, author: String,
        updated_at: String) -> (r: Self)
        ensures
            r.id == id,
            r.filename == filename,
            r.tags@.len() == 0,
            r.markers@.len() == 0,
            r.notes@ == Seq::<char>::empty(),
            r.author == author,
            r.updated_at == updated_at,
            r.content_hash == content_hash,
    {
        ClipMetadata {
            id,
            filename,
            tags: Vec::new(),
            markers: Vec::new(),
            notes: String::new(),
            author,
            updated_at,
            content_hash,
        }
    }
}

/// What the clip editor sends: the full editable record of one clip.
pub struct ClipEdit<M> {
    pub library_root: String,
    pub id: String,
    pub filename: String,
    pub content_hash: String,
    pub tags: Vec<String>,
    pub notes: String,
    pub markers: Vec<M>,
}

/// Name of the folder, inside a library, that holds the sidecar files.
pub open spec fn metadata_folder_name() -> Seq<char> {
    ".metadata"@
}

/// The sidecar file name of a clip.
pub open spec fn sidecar_file_name(clip_id: Seq<char>) -> Seq<char> {
    clip_id + ".json"@
}

/// The temporary file a sidecar is first written to before it is renamed into place.
pub open spec fn sidecar_temp_name(clip_id: Seq<char>) -> Seq<char> {
    seq!['.'] + clip_id + ".json.tmp"@
}

/// A clip id that names a file inside the metadata folder on every platform.
pub open spec fn is_plain_clip_id(clip_id: Seq<char>) -> bool {
    !clip_id.contains('/') && !clip_id.contains('\\') && !clip_id.contains(':')
}

proof fn lemma_metadata_folder_name_plain()
    ensures
        is_plain_component(metadata_folder_name()),
{
    reveal_strlit(".metadata");
    let s = metadata_folder_name();
    assert(s.len() == 9);
    assert(!s.contains('/')) by {
        assert forall|k: int| 0 <= k < s.len() implies s[k] != '/' by {}
    }
    assert(!s.contains('\\')) by {
        assert forall|k: int| 0 <= k < s.len() implies s[k] != '\\' by {}
    }
    assert(!s.contains(':')) by {
        assert forall|k: int| 0 <= k < s.len() implies s[k] != ':' by {}
    }
}

proof fn lemma_suffixed_id_plain(clip_id: Seq<char>, suffix: Seq<char>, name: Seq<char>)
    requires
        is_plain_clip_id(clip_id),
        suffix.len() >= 3,
        suffix[0] == '.',
        forall|k: int| 0 <= k < suffix.len() ==> #[trigger] suffix[k] != '/' && suffix[k] != '\\'
            && suffix[k] != ':',
        name == clip_id + suffix || name == seq!['.'] + clip_id + suffix,
    ensures
        is_plain_component(name),
{
    assert(name.len() >= 3);
    assert(seq!['.', '.'].len() == 2);
    assert(seq!['.'].len() == 1);
    assert forall|k: int| 0 <= k < name.len() implies name[k] != '/' && name[k] != '\\'
        && name[k] != ':' by {
        if name == clip_id + suffix {
            if k < clip_id.len() {
                assert(clip_id[k] == name[k]);
                assert(!clip_id.contains(name[k]) || (name[k] != '/' && name[k] != '\\' && name[k]
                    != ':'));
            } else {
                assert(suffix[k - clip_id.len()] == name[k]);
            }
        } else {
            if k == 0 {
            } else if k < 1 + clip_id.len() {
                assert(clip_id[k - 1] == name[k]);
                assert(!clip_id.contains(name[k]) || (name[k] != '/' && name[k] != '\\' && name[k]
                    != ':'));
            } else {
                assert(suffix[k - 1 - clip_id.len()] == name[k]);
            }
        }
    }
}

/// The folder inside a library that holds the sidecar files: `<root>/.metadata`.
pub fn metadata_dir(library_root: &str) -> (r: String)
    ensures
        appends_plainly(library_root@) ==> is_join_of(r@, library_root@, metadata_folder_name()),
{
    proof {
        lemma_metadata_folder_name_plain();
    }
    join_path(library_root, ".metadata")
}

/// Where a clip's sidecar lives: `<root>/.metadata/<clip-id>.json`.
pub fn sidecar_path(library_root: &str, clip_id: &str) -> (r: String)
    ensures
        is_join_base(library_root@) && is_plain_clip_id(clip_id@) ==> exists|dir: Seq<char>|
            is_join_of(dir, library_root@, metadata_folder_name()) && is_join_of(
                r@,
                dir,
                sidecar_file_name(clip_id@),
            ),
{
    let dir = metadata_dir(library_root);
    let mut name = String::from_str(clip_id);
    name.append(".json");
    proof {
        reveal_strlit(".json");
        if is_plain_clip_id(clip_id@) {
            lemma_suffixed_id_plain(clip_id@, ".json"@, name@);
        }
        if is_join_base(library_root@) {
            lemma_metadata_folder_name_plain();
            lemma_join_keeps_base(dir@, library_root@, metadata_folder_name());
        }
    }
    let r = join_path(dir.as_str(), name.as_str());
    r
}

/// The temporary file a sidecar is written to before being renamed into place:
/// `<root>/.metadata/.<clip-id>.json.tmp`, next to the final file.
pub fn sidecar_temp_path(library_root: &str, clip_id: &str) -> (r: String)
    ensures
        is_join_base(library_root@) && is_plain_clip_id(clip_id@) ==> exists|dir: Seq<char>|
            is_join_of(dir, library_root@, metadata_folder_name()) && is_join_of(
                r@,
                dir,
                sidecar_temp_name(clip_id@),
            ),
{
    let dir = metadata_dir(library_root);
    let mut name = String::from_str(".");
    name.append(clip_id);
    name.append(".json.tmp");
    proof {
        reveal_strlit(".json.tmp");
        reveal_strlit(".");
        assert(name@ =~= sidecar_temp_name(clip_id@));
        if is_plain_clip_id(clip_id@) {
            lemma_suffixed_id_plain(clip_id@, ".json.tmp"@, name@);
        }
        if is_join_base(library_root@) {
            lemma_metadata_folder_name_plain();
            lemma_join_keeps_base(dir@, library_root@, metadata_folder_name());
        }
    }
    let r = join_path(dir.as_str(), name.as_str());
    r
}

/// The sidecar records the clip's current file name.
pub open spec fn names_file<M>(m: ClipMetadata<M>, filename: Seq<char>) -> bool {
    m.filename@ == filename
}

/// The sidecar records the given content hash.
pub open spec fn has_hash<M>(m: ClipMetadata<M>, content_hash: Seq<char>) -> bool {
    match m.content_hash {
        Some(h) => h@ == content_hash,
        None => false,
    }
}

/// `i` is the first sidecar that names the file.
pub open spec fn is_first_by_name<M>(sidecars: Seq<ClipMetadata<M>>, filename: Seq<char>, i: int) -> bool {
    &&& 0 <= i < sidecars.len()
    &&& names_file(sidecars[i], filename)
    &&& forall|j: int| 0 <= j < i ==> !names_file(#[trigger] sidecars[j], filename)
}

/// `i` is the first sidecar that records the content hash.
pub open spec fn is_first_by_hash<M>(sidecars: Seq<ClipMetadata<M>>, content_hash: Seq<char>, i: int) -> bool {
    &&& 0 <= i < sidecars.len()
    &&& has_hash(sidecars[i], content_hash)
    &&& forall|j: int| 0 <= j < i ==> !has_hash(#[trigger] sidecars[j], content_hash)
}

/// Finds the sidecar that belongs to a scanned file. The file name is the primary
/// key; when no sidecar names the file (it was renamed), the content hash recorded
/// in the sidecars links it instead. Returns the index of the matching sidecar.
pub fn find_match<M>(sidecars: &Vec<ClipMetadata<M>>, filename: &str, content_hash: &str) -> (r:
    Option<usize>)
    ensures
        match r {
            Some(i) => is_first_by_name(sidecars@, filename@, i as int) || ((forall|j: int|
                0 <= j < sidecars@.len() ==> !names_file(#[trigger] sidecars@[j], filename@))
                && is_first_by_hash(sidecars@, content_hash@, i as int)),
            None => forall|j: int|
                0 <= j < sidecars@.len() ==> !names_file(#[trigger] sidecars@[j], filename@)
                    && !has_hash(sidecars@[j], content_hash@),
        },
{
    let mut i: usize = 0;
    while i < sidecars.len()
        invariant
            i <= sidecars@.len(),
            forall|j: int| 0 <= j < i ==> !names_file(#[trigger] sidecars@[j], filename@),
        decreases sidecars.len() - i,
    {
        if str_eq(sidecars[i].filename.as_str(), filename) {
            return Some(i);
        }
        i = i + 1;
    }
    let mut k: usize = 0;
    while k < sidecars.len()
        invariant
            k <= sidecars@.len(),
            forall|j: int| 0 <= j < sidecars@.len() ==> !names_file(#[trigger] sidecars@[j], filename@),
            forall|j: int| 0 <= j < k ==> !has_hash(#[trigger] sidecars@[j], content_hash@),
        decreases sidecars.len() - k,
    {
        let found = match &sidecars[k].content_hash {
            Some(h) => str_eq(h.as_str(), content_hash),
            None => false,
        };
        if found {
            return Some(k);
        }
        k = k + 1;
    }
    None
}

/// Merges an edit from the clip editor into the clip's sidecar record (`existing`
/// is the record read from disk, if any). The edit replaces file name, tags, notes
/// and markers; author and time are restamped; the content hash recorded first is
/// kept, and the edit's hash fills it in only when the record had none.
pub fn apply_clip_edit<M>(existing: Option<ClipMetadata<M>>, edit: ClipEdit<M>, author: String,
    now: String) -> (r: ClipMetadata<M>)
    ensures
        r.id == (match existing {
            Some(m) => m.id,
            None => edit.id,
        }),
        r.filename == edit.filename,
        r.tags == edit.tags,
        r.notes == edit.notes,
        r.markers == edit.markers,
        r.author == author,
        r.updated_at == now,
        r.content_hash == (match existing {
            Some(m) => match m.content_hash {
                Some(h) => Some(h),
                None => Some(edit.content_hash),
            },
            None => Some(edit.content_hash),
        }),
{
    let ClipEdit { library_root: _, id, filename, content_hash, tags, notes, markers } = edit;
    let mut record = match existing {
        Some(m) => m,
        None => ClipMetadata::new(id, filename.clone(), Some(content_hash.clone()), author.clone(),
            now.clone()),
    };
    record.filename = filename;
    record.tags = tags;
    record.notes = notes;
    record.markers = markers;
    record.author = author;
    record.updated_at = now;
    if record.content_hash.is_none() {
        record.content_hash = Some(content_hash);
    }
    record
}

/// The markers of a clip, given its sidecar if one could be read: a clip with no
/// sidecar yet is the normal state of an untagged clip and has no markers.
pub fn clip_markers<M>(record: Option<ClipMetadata<M>>) -> (r: Vec<M>)
    ensures
        match record {
            Some(m) => r == m.markers,
            None => r@.len() == 0,
        },
{
    match record {
        Some(m) => m.markers,
        None => Vec::new(),
    }
}

/// The metadata-derived cache columns (tags, notes, author, updated-at) for a clip
/// whose sidecar was read (`Some`) or deleted (`None`): a deleted sidecar claims
/// nothing, so every column is cleared.
pub fn cache_fields<M>(record: Option<ClipMetadata<M>>) -> (r: (Vec<String>, String, String, String))
    ensures
        match record {
            Some(m) => r.0 == m.tags && r.1 == m.notes && r.2 == m.author && r.3 == m.updated_at,
            None => r.0@.len() == 0 && r.1@.len() == 0 && r.2@.len() == 0 && r.3@.len() == 0,
        },
{
    match record {
        Some(m) => (m.tags, m.notes, m.author, m.updated_at),
        None => (Vec::new(), String::new(), String::new(), String::new()),
    }
}

/// The clip id a sidecar file belongs to: its file name without the extension.
pub fn sidecar_clip_id(path: &str) -> (r: Option<String>)
    ensures
        is_portable_file_path(path@) && name_stem(slash_file_name(path@)) == name_stem(
            file_name_of(path@),
        ) ==> match r {
            Some(id) => id@ == name_stem(file_name_of(path@)),
            None => false,
        },
{
    path_file_stem(path)
}

/// Whether a file in the metadata folder is a sidecar: its extension is exactly
/// "json" (placeholders and temporary files are skipped).
pub fn is_sidecar_file(path: &str) -> (r: bool)
    ensures
        is_portable_file_path(path@) && name_extension(slash_file_name(path@)) == name_extension(
            file_name_of(path@),
        ) ==> (r <==> name_extension(file_name_of(path@)) == Some("json"@)),
{
    match path_extension(path) {
        Some(e) => str_eq(e.as_str(), "json"),
        None => false,
    }
}

} // verus!
