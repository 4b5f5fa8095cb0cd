//! Rows of the local clip cache and the decisions made over them: which rows a
//! selection picks, which row a clip id names, and which rows a rescan prunes.
//! The cache itself is a rebuildable SQLite index kept by the application.
use vstd::prelude::*;
use crate::text::{str_eq, views};

verus! {

/// One cached clip.
pub struct ClipRow {
    pub id: String,
    pub library_root: String,
    pub path: String,
    pub filename: String,
    pub size: i64,
    pub mtime: i64,
    pub content_hash: String,
    /// Length of the clip in milliseconds, when it could be probed.
    pub duration_ms: Option<i64>,
    pub thumbnail_path: Option<String>,
    pub tags: Vec<String>,
    pub notes: String,
    pub author: String,
    pub updated_at: String,
}

/// What the library grid shows of a cached clip.
pub struct ClipSummary {
    pub id: String,
    pub path: String,
    pub filename: String,
    pub size: i64,
    pub content_hash: String,
    pub duration_ms: Option<i64>,
    pub thumbnail_path: Option<String>,
    pub tags: Vec<String>,
    pub notes: String,
}

impl From<ClipRow> for ClipSummary {
    fn from(row: ClipRow) -> (r: Self) {
        ClipSummary {
            id: row.id,
            path: row.path,
            filename: row.filename,
            size: row.size,
            content_hash: row.content_hash,
            duration_ms: row.duration_ms,
            thumbnail_path: row.thumbnail_path,
            tags: row.tags,
            notes: row.notes,
        }
    }
}

impl vstd::std_specs::convert::FromSpecImpl<ClipRow> for ClipSummary {
    open spec fn obeys_from_spec() -> bool {
        true
    }

    open spec fn from_spec(row: ClipRow) -> Self {
        ClipSummary {
            id: row.id,
            path: row.path,
            filename: row.filename,
            size: row.size,
            content_hash: row.content_hash,
            duration_ms: row.duration_ms,
            thumbnail_path: row.thumbnail_path,
            tags: row.tags,
            notes: row.notes,
        }
    }
}

/// The summary of a row: the row's fields minus the library root, mtime and the
/// author/updated-at stamps.
pub open spec fn summary_of(row: ClipRow) -> ClipSummary {
    ClipSummary {
        id: row.id,
        path: row.path,
        filename: row.filename,
        size: row.size,
        content_hash: row.content_hash,
        duration_ms: row.duration_ms,
        thumbnail_path: row.thumbnail_path,
        tags: row.tags,
        notes: row.notes,
    }
}

/// Whether `s` is one of `list`.
pub fn contains_string(list: &Vec<String>, s: &str) -> (r: bool)
    ensures
        r == views(list@).contains(s@),
{
    let ghost lv = views(list@);
    let mut i: usize = 0;
    while i < list.len()
        invariant
            i <= list@.len(),
            lv == views(list@),
            forall|j: int| 0 <= j < i ==> lv[j] != s@,
        decreases list.len() - i,
    {
        if str_eq(list[i].as_str(), s) {
            assert(lv[i as int] == s@);
            return true;
        }
        i = i + 1;
    }
    false
}

/// The known paths that are no longer present, in the order the cache listed them.
pub open spec fn stale_paths(known: Seq<Seq<char>>, present: Seq<Seq<char>>) -> Seq<Seq<char>>
    decreases known.len(),
{
    if known.len() == 0 {
        Seq::empty()
    } else if present.contains(known.last()) {
        stale_paths(known.drop_last(), present)
    } else {
        stale_paths(known.drop_last(), present).push(known.last())
    }
}

/// Of the paths the cache knows for a library, those that disappeared from disk
/// since the last scan (deleted or moved out of the library folder): their rows are
/// the ones to remove.
pub fn paths_to_prune(known: &Vec<String>, still_present: &Vec<String>) -> (r: Vec<String>)
    ensures
        views(r@) == stale_paths(views(known@), views(still_present@)),
{
    let ghost kv = views(known@);
    let ghost pv = views(still_present@);
    let mut out: Vec<String> = Vec::new();
    let mut i: usize = 0;
    while i < known.len()
        invariant
            i <= known@.len(),
            kv == views(known@),
            pv == views(still_present@),
            views(out@) == stale_paths(kv.take(i as int), pv),
        decreases known.len() - i,
    {
        let ghost t = kv.take(i + 1);
        assert(t.drop_last() =~= kv.take(i as int));
        assert(t.last() == known@[i as int]@);
        if !contains_string(still_present, known[i].as_str()) {
            let p = known[i].clone();
            out.push(p);
            assert(views(out@) =~= stale_paths(kv.take(i as int), pv).push(known@[i as int]@));
        }
        i = i + 1;
    }
    assert(kv.take(known@.len() as int) =~= kv);
    out
}

/// `i` is the first row with the given clip id.
pub open spec fn is_first_with_id(rows: Seq<ClipRow>, id: Seq<char>, i: int) -> bool {
    &&& 0 <= i < rows.len()
    &&& rows[i].id@ == id
    &&& forall|j: int| 0 <= j < i ==> (#[trigger] rows[j]).id@ != id
}

/// The summary of the first row with the given clip id, if any row has it.
pub fn summary_for_id(rows: Vec<ClipRow>, id: &str) -> (r: Option<ClipSummary>)
    ensures
        match r {
            Some(s) => exists|i: int| is_first_with_id(rows@, id@, i) && s == summary_of(rows@[i]),
            None => forall|j: int| 0 <= j < rows@.len() ==> (#[trigger] rows@[j]).id@ != id@,
        },
{
    let ghost all = rows@;
    let n = rows.len();
    assert(all.len() == n);
    let mut k: usize = 0;
    for row in it: rows.into_iter()
        invariant
            it.seq() == all,
            all.len() <= usize::MAX,
            k == it.index(),
            forall|j: int| 0 <= j < it.index() ==> (#[trigger] all[j]).id@ != id@,
    {
        if str_eq(row.id.as_str(), id) {
            assert(is_first_with_id(all, id@, k as int));
            return Some(ClipSummary::from(row));
        }
        k = k + 1;
    }
    None
}

/// The summary of a clip just saved, which must already be in the cache from a
/// prior scan.
pub fn summary_after_save(rows: Vec<ClipRow>, id: &str) -> (r: Result<ClipSummary, String>)
    ensures
        match r {
            Ok(s) => exists|i: int| is_first_with_id(rows@, id@, i) && s == summary_of(rows@[i]),
            Err(m) => (forall|j: int| 0 <= j < rows@.len() ==> (#[trigger] rows@[j]).id@ != id@) && m@
                == "clip "@ + id@ + " not found in cache after save"@,
        },
{
    match summary_for_id(rows, id) {
        Some(s) => Ok(s),
        None => {
            let mut m = String::from_str("clip ");
            m.append(id);
            m.append(" not found in cache after save");
            Err(m)
        },
    }
}

/// The rows whose clip id is among `ids`, in their listed order.
pub open spec fn selected_rows(rows: Seq<ClipRow>, ids: Seq<Seq<char>>) -> Seq<ClipRow>
    decreases rows.len(),
{
    if rows.len() == 0 {
        Seq::empty()
    } else if ids.contains(rows.last().id@) {
        selected_rows(rows.drop_last(), ids).push(rows.last())
    } else {
        selected_rows(rows.drop_last(), ids)
    }
}

/// The cached rows of the clips a user selected.
pub fn select_clips(rows: Vec<ClipRow>, clip_ids: &Vec<String>) -> (r: Vec<ClipRow>)
    ensures
        r@ == selected_rows(rows@, views(clip_ids@)),
{
    let ghost all = rows@;
    let ghost ids = views(clip_ids@);
    let mut out: Vec<ClipRow> = Vec::new();
    for row in it: rows.into_iter()
        invariant
            it.seq() == all,
            ids == views(clip_ids@),
            out@ == selected_rows(all.take(it.index() as int), ids),
    {
        let ghost i = it.index() as int;
        let ghost t = all.take(i + 1);
        assert(t.drop_last() =~= all.take(i));
        if contains_string(clip_ids, row.id.as_str()) {
            out.push(row);
        }
    }
    assert(all.take(all.len() as int) =~= all);
    out
}

// ---------------------------------------------------------------------------
// Laws
// ---------------------------------------------------------------------------

/// `s.push(x)` holds exactly what `s` holds, and `x`.
proof fn lemma_push_contains<T>(s: Seq<T>, x: T, y: T)
    ensures
        s.push(x).contains(y) <==> (s.contains(y) || x == y),
{
    if s.push(x).contains(y) {
        let k = choose|k: int| 0 <= k < s.push(x).len() && s.push(x)[k] == y;
        if k < s.len() {
            assert(s[k] == y);
        }
    }
    if s.contains(y) {
        let k = choose|k: int| 0 <= k < s.len() && s[k] == y;
        assert(s.push(x)[k] == y);
    }
    if x == y {
        assert(s.push(x)[s.len() as int] == y);
    }
}

/// Pruning removes exactly the rows of files that are gone: a path is pruned if
/// and only if the cache knew it and the scan no longer found it.
pub proof fn lemma_prune_exact(known: Seq<Seq<char>>, present: Seq<Seq<char>>, p: Seq<char>)
    ensures
        stale_paths(known, present).contains(p) <==> (known.contains(p) && !present.contains(p)),
    decreases known.len(),
{
    if known.len() > 0 {
        let rest = known.drop_last();
        let last = known.last();
        lemma_prune_exact(rest, present, p);
        assert(known =~= rest.push(last));
        lemma_push_contains(rest, last, p);
        if !present.contains(last) {
            lemma_push_contains(stale_paths(rest, present), last, p);
        }
    }
}

/// A selection keeps exactly the rows whose id was selected.
pub proof fn lemma_selection_exact(rows: Seq<ClipRow>, ids: Seq<Seq<char>>, row: ClipRow)
    ensures
        selected_rows(rows, ids).contains(row) <==> (rows.contains(row) && ids.contains(row.id@)),
    decreases rows.len(),
{
    if rows.len() > 0 {
        let rest = rows.drop_last();
        let last = rows.last();
        lemma_selection_exact(rest, ids, row);
        assert(rows =~= rest.push(last));
        lemma_push_contains(rest, last, row);
        if ids.contains(last.id@) {
            lemma_push_contains(selected_rows(rest, ids), last, row);
        }
    }
}

/// The list of strings that `serde_json` reads from a text holding a JSON array of
/// strings, or `None` when the text holds no such array.
pub uninterp spec fn json_string_list(text: Seq<char>) -> Option<Seq<Seq<char>>>;

/// The JSON text `serde_json` writes for a list of strings.
pub uninterp spec fn json_of_strings(items: Seq<Seq<char>>) -> Seq<char>;

/// Reads a JSON array of strings with `serde_json::from_str`. What it reads is
/// named `json_string_list`; JSON's grammar and escapes are not written out here.
#[verifier::external_body]
fn parse_string_list(text: &str) -> (r: Option<Vec<String>>)
    ensures
        match r {
            Some(v) => json_string_list(text@) == Some(views(v@)),
            None => json_string_list(text@) is None,
        },
{
    serde_json::from_str::<Vec<String>>(text).ok()
}

/// Writes a list of strings as a JSON array with `serde_json::to_string`. The text
/// it writes is named `json_of_strings`. The crate documents failure only for a
/// type whose serialisation decides to fail or a map with non-string keys; a list
/// of strings is neither, so the call succeeds.
#[verifier::external_body]
fn encode_string_list(items: &[String]) -> (r: Result<String, String>)
    ensures
        r is Ok,
        r matches Ok(t) ==> t@ == json_of_strings(views(items@)),
{
    serde_json::to_string(items).map_err(|e| e.to_string())
}

/// The tags held in a clip row's tags column: the JSON array of strings stored
/// there, or no tags when the column holds no such array.
pub fn tags_from_column(text: &str) -> (r: Vec<String>)
    ensures
        match json_string_list(text@) {
            Some(t) => views(r@) == t,
            None => r@.len() == 0,
        },
{
    match parse_string_list(text) {
        Some(v) => v,
        None => Vec::new(),
    }
}

/// The tags column text for a clip's tags: their JSON array.
pub fn tags_to_column(tags: &[String]) -> (r: Result<String, String>)
    ensures
        r is Ok,
        r matches Ok(t) ==> t@ == json_of_strings(views(tags@)),
{
    encode_string_list(tags)
}

} // verus!
