//! The decisions behind the application's library commands: which id a scanned
//! clip gets, what its cache row holds, which export rows a selection turns into,
//! and which export file is produced.
use vstd::prelude::*;
use crate::cache::ClipRow;
use crate::export::{build_csv, build_edl, csv_document, edl_document, edl_ready, ExportRow, FrameRate};
use crate::metadata::ClipMetadata;
use crate::paths::{appends_plainly, is_join_of, is_plain_component, join_path};
use crate::scanner::ScannedFile;
use crate::text::{str_eq, views};

verus! {

/// Hyphenated lower-case text of a random (version 4) UUID, as the `uuid` crate
/// writes it: 36 characters, hyphens at 8, 13, 18 and 23, hex digits elsewhere,
/// and the version digit '4' at 14.
pub open spec fn is_uuid_v4_text(s: Seq<char>) -> bool {
    &&& s.len() == 36
    &&& forall|k: int|
        0 <= k < 36 ==> if k == 8 || k == 13 || k == 18 || k == 23 {
            #[trigger] s[k] == '-'
        } else {
            ('0' <= s[k] <= '9') || ('a' <= s[k] <= 'f')
        }
    &&& s[14] == '4'
}

/// A fresh random id from the `uuid` crate's `Uuid::new_v4`, written with its
/// `Display` impl (the hyphenated lower-case form). The value is random; only its
/// shape is stated.
#[verifier::external_body]
fn new_uuid() -> (r: String)
    ensures
        is_uuid_v4_text(r@),
{
    uuid::Uuid::new_v4().to_string()
}

/// The id a scanned clip gets: the one the cache already assigned to its path (so
/// a rescan doesn't mint a new id for a file we've already seen), else the id of the
/// sidecar that matched it, else a fresh random id.
pub fn resolve_clip_id(cached_id: Option<String>, sidecar_id: Option<String>) -> (r: String)
    ensures
        match cached_id {
            Some(c) => r == c,
            None => match sidecar_id {
                Some(s) => r == s,
                None => is_uuid_v4_text(r@),
            },
        },
{
    match cached_id {
        Some(c) => c,
        None => match sidecar_id {
            Some(s) => s,
            None => new_uuid(),
        },
    }
}

/// The file name of a clip's thumbnail.
pub open spec fn thumbnail_file_name(id: Seq<char>) -> Seq<char> {
    id + ".jpg"@
}

/// Where a clip's thumbnail is kept: `<thumbnail_dir>/<id>.jpg`.
pub fn thumbnail_path(thumbnail_dir: &str, id: &str) -> (r: String)
    ensures
        appends_plainly(thumbnail_dir@) && is_plain_component(thumbnail_file_name(id@)) ==> is_join_of(
            r@,
            thumbnail_dir@,
            thumbnail_file_name(id@),
        ),
{
    let mut name = String::from_str(id);
    name.append(".jpg");
    join_path(thumbnail_dir, name.as_str())
}

/// Copies a list of strings.
pub fn copy_strings(v: &Vec<String>) -> (r: Vec<String>)
    ensures
        r@ == v@,
{
    let mut out: Vec<String> = Vec::new();
    let mut i: usize = 0;
    while i < v.len()
        invariant
            i <= v@.len(),
            out@ == v@.take(i as int),
        decreases v.len() - i,
    {
        out.push(v[i].clone());
        i = i + 1;
        assert(out@ =~= v@.take(i as int));
    }
    assert(v@.take(v@.len() as int) =~= v@);
    out
}

/// The cache row for a scanned file. Sidecars on disk are the source of truth for
/// tags, notes, author and time: a fresh cache (new machine, or a teammate's tags
/// synced down before we ever scanned) takes them from the matching sidecar rather
/// than starting every clip out untagged.
pub fn scanned_clip_row<M>(library_root: &str, file: &ScannedFile, id: String, duration_ms: Option<
    i64,
>, thumbnail_path: Option<String>, sidecar: Option<&ClipMetadata<M>>) -> (r: ClipRow)
    ensures
        r.id == id,
        r.library_root@ == library_root@,
        r.path == file.path,
        r.filename == file.filename,
        r.size == file.size as i64,
        r.mtime == file.mtime,
        r.content_hash == file.content_hash,
        r.duration_ms == duration_ms,
        r.thumbnail_path == thumbnail_path,
        match sidecar {
            Some(m) => r.tags@ == m.tags@ && r.notes == m.notes && r.author == m.author
                && r.updated_at == m.updated_at,
            None => r.tags@.len() == 0 && r.notes@.len() == 0 && r.author@.len() == 0
                && r.updated_at@.len() == 0,
        },
{
    let (tags, notes, author, updated_at) = match sidecar {
        Some(m) => (copy_strings(&m.tags), m.notes.clone(), m.author.clone(), m.updated_at.clone()),
        None => (Vec::new(), String::new(), String::new(), String::new()),
    };
    ClipRow {
        id,
        library_root: String::from_str(library_root),
        path: file.path.clone(),
        filename: file.filename.clone(),
        size: file.size as i64,
        mtime: file.mtime,
        content_hash: file.content_hash.clone(),
        duration_ms,
        thumbnail_path,
        tags,
        notes,
        author,
        updated_at,
    }
}

/// One marker's range as the export needs it.
pub struct MarkerSpan {
    pub label: String,
    pub in_ms: i64,
    pub out_ms: i64,
}

/// The contents of an export row.
pub struct ExportRowView {
    pub filename: Seq<char>,
    pub tags: Seq<Seq<char>>,
    pub marker_label: Seq<char>,
    pub in_ms: i64,
    pub out_ms: i64,
    pub fps: FrameRate,
}

pub open spec fn row_view(r: ExportRow) -> ExportRowView {
    ExportRowView {
        filename: r.filename@,
        tags: views(r.tags@),
        marker_label: r.marker_label@,
        in_ms: r.in_ms,
        out_ms: r.out_ms,
        fps: r.fps,
    }
}

pub open spec fn row_views(rows: Seq<ExportRow>) -> Seq<ExportRowView> {
    rows.map_values(|r: ExportRow| row_view(r))
}

/// The export rows of one clip: one per marker, or, when the clip has no markers,
/// one covering the whole clip (its probed length, or zero) so that every selected
/// clip is represented even if nobody's marked it up yet.
pub open spec fn clip_rows(clip: ClipRow, markers: Seq<MarkerSpan>, fps: FrameRate) -> Seq<
    ExportRowView,
> {
    if markers.len() == 0 {
        seq![
            ExportRowView {
                filename: clip.filename@,
                tags: views(clip.tags@),
                marker_label: Seq::empty(),
                in_ms: 0,
                out_ms: match clip.duration_ms {
                    Some(d) => d,
                    None => 0,
                },
                fps,
            },
        ]
    } else {
        Seq::new(
            markers.len(),
            |i: int|
                ExportRowView {
                    filename: clip.filename@,
                    tags: views(clip.tags@),
                    marker_label: markers[i].label@,
                    in_ms: markers[i].in_ms,
                    out_ms: markers[i].out_ms,
                    fps,
                },
        )
    }
}

/// The export rows of the first `n` clips, clip after clip.
pub open spec fn planned_rows(clips: Seq<ClipRow>, markers: Seq<Seq<MarkerSpan>>, fps: Seq<FrameRate>, n: int) -> Seq<
    ExportRowView,
>
    decreases n,
{
    if n <= 0 {
        Seq::empty()
    } else {
        planned_rows(clips, markers, fps, n - 1) + clip_rows(clips[n - 1], markers[n - 1], fps[n - 1])
    }
}

/// Appends the export rows of one clip.
pub fn push_clip_rows(out: &mut Vec<ExportRow>, clip: &ClipRow, markers: Vec<MarkerSpan>, fps: FrameRate)
    ensures
        row_views(final(out)@) == row_views(old(out)@) + clip_rows(*clip, markers@, fps),
{
    let ghost start = old(out)@;
    let ghost ms = markers@;
    if markers.len() == 0 {
        let out_ms: i64 = match clip.duration_ms {
            Some(d) => d,
            None => 0,
        };
        out.push(ExportRow {
            filename: clip.filename.clone(),
            tags: copy_strings(&clip.tags),
            marker_label: String::new(),
            in_ms: 0,
            out_ms,
            fps,
        });
        assert(row_views(out@) =~= row_views(start) + clip_rows(*clip, ms, fps));
    } else {
        let ghost rows = clip_rows(*clip, ms, fps);
        let mut i: usize = 0;
        for m in it: markers.into_iter()
            invariant
                it.seq() == ms,
                ms.len() > 0,
                rows == clip_rows(*clip, ms, fps),
                row_views(out@) == row_views(start) + rows.take(it.index() as int),
        {
            let ghost k = it.index() as int;
            let ghost before = out@;
            let MarkerSpan { label, in_ms, out_ms } = m;
            out.push(ExportRow {
                filename: clip.filename.clone(),
                tags: copy_strings(&clip.tags),
                marker_label: label,
                in_ms,
                out_ms,
                fps,
            });
            assert(out@ =~= before.push(out@.last()));
            assert(row_views(out@) =~= row_views(before).push(row_view(out@.last())));
            assert(rows.take(k + 1) =~= rows.take(k).push(rows[k]));
        }
        assert(rows.take(ms.len() as int) =~= rows);
    }
}

/// Builds the export rows of the selected clips, given each clip's markers and
/// frame rate (in the same order as the clips). Shared by the file export and the
/// "send to DaVinci" bridge.
pub fn build_export_rows(clips: &Vec<ClipRow>, markers: Vec<Vec<MarkerSpan>>, fps: &Vec<FrameRate>) -> (r:
    Vec<ExportRow>)
    requires
        markers@.len() == clips@.len(),
        fps@.len() == clips@.len(),
    ensures
        row_views(r@) == planned_rows(
            clips@,
            markers@.map_values(|m: Vec<MarkerSpan>| m@),
            fps@,
            clips@.len() as int,
        ),
{
    let ghost mv = markers@.map_values(|m: Vec<MarkerSpan>| m@);
    let mut out: Vec<ExportRow> = Vec::new();
    let n = clips.len();
    let mut i: usize = 0;
    for m in it: markers.into_iter()
        invariant
            it.seq() == markers@,
            clips@.len() == n,
            mv == it.seq().map_values(|m: Vec<MarkerSpan>| m@),
            i == it.index(),
            it.seq().len() == clips@.len(),
            fps@.len() == clips@.len(),
            row_views(out@) == planned_rows(clips@, mv, fps@, i as int),
    {
        assert(mv[i as int] == m@);
        push_clip_rows(&mut out, &clips[i], m, fps[i]);
        i = i + 1;
    }
    out
}

/// Which kind of file an export produces.
pub enum ExportFormat {
    Edl,
    Csv,
}

/// The format asked for by name: "edl" selects the EDL; anything else the CSV.
pub fn export_format(name: &str) -> (r: ExportFormat)
    ensures
        (r is Edl) <==> name@ == "edl"@,
{
    if str_eq(name, "edl") {
        ExportFormat::Edl
    } else {
        ExportFormat::Csv
    }
}

/// The title of exported timelines.
pub open spec fn export_title() -> Seq<char> {
    "Videee Export"@
}

impl ExportFormat {
    /// The file name the save dialog proposes.
    pub fn default_file_name(&self) -> (r: String)
        ensures
            r@ == (match *self {
                ExportFormat::Edl => "videee-export.edl"@,
                ExportFormat::Csv => "videee-export.csv"@,
            }),
    {
        match self {
            ExportFormat::Edl => String::from_str("videee-export.edl"),
            ExportFormat::Csv => String::from_str("videee-export.csv"),
        }
    }

    /// The label of the save dialog's file filter.
    pub fn filter_label(&self) -> (r: String)
        ensures
            r@ == (match *self {
                ExportFormat::Edl => "EDL"@,
                ExportFormat::Csv => "CSV"@,
            }),
    {
        match self {
            ExportFormat::Edl => String::from_str("EDL"),
            ExportFormat::Csv => String::from_str("CSV"),
        }
    }

    /// The file extension of the format.
    pub fn extension(&self) -> (r: String)
        ensures
            r@ == (match *self {
                ExportFormat::Edl => "edl"@,
                ExportFormat::Csv => "csv"@,
            }),
    {
        match self {
            ExportFormat::Edl => String::from_str("edl"),
            ExportFormat::Csv => String::from_str("csv"),
        }
    }

    /// The exported file's content.
    pub fn content(&self, rows: &[ExportRow]) -> (r: String)
        requires
            *self is Edl ==> edl_ready(rows@),
        ensures
            r@ == (match *self {
                ExportFormat::Edl => edl_document(export_title(), rows@),
                ExportFormat::Csv => csv_document(rows@),
            }),
    {
        match self {
            ExportFormat::Edl => build_edl("Videee Export", rows),
            ExportFormat::Csv => build_csv(rows),
        }
    }
}

/// The name of the timeline created in DaVinci Resolve for a send at time `now`.
pub fn resolve_timeline_name(now: &str) -> (r: String)
    ensures
        r@ == export_title() + seq![' '] + now@,
{
    let mut name = String::from_str("Videee Export");
    crate::text::push_char(&mut name, ' ');
    name.append(now);
    name
}

/// A fresh name for the temporary EDL handed to DaVinci Resolve:
/// `videee-resolve-<uuid>.edl`.
pub fn resolve_temp_file_name() -> (r: String)
    ensures
        exists|u: Seq<char>| is_uuid_v4_text(u) && r@ == "videee-resolve-"@ + u + ".edl"@,
{
    let u = new_uuid();
    let mut name = String::from_str("videee-resolve-");
    name.append(u.as_str());
    name.append(".edl");
    name
}

// ---------------------------------------------------------------------------
// Laws
// ---------------------------------------------------------------------------

/// How many export rows a clip with `m` markers produces.
pub open spec fn rows_for(m: nat) -> nat {
    if m == 0 {
        1
    } else {
        m
    }
}

/// The number of export rows of the first `n` clips.
pub open spec fn planned_row_count(markers: Seq<Seq<MarkerSpan>>, n: int) -> nat
    decreases n,
{
    if n <= 0 {
        0
    } else {
        planned_row_count(markers, n - 1) + rows_for(markers[n - 1].len())
    }
}

/// Every selected clip is represented in an export: a clip yields one row per
/// marker, or one row when it has none, so the export has at least one row per
/// clip, and every row of a clip carries that clip's file name and tags.
pub proof fn lemma_every_clip_represented(clips: Seq<ClipRow>, markers: Seq<Seq<MarkerSpan>>, fps: Seq<
    FrameRate,
>, n: int)
    requires
        0 <= n <= clips.len(),
        markers.len() == clips.len(),
        fps.len() == clips.len(),
    ensures
        planned_rows(clips, markers, fps, n).len() == planned_row_count(markers, n),
        planned_row_count(markers, n) >= n,
        forall|i: int|
            0 <= i < n ==> {
                let rows = #[trigger] clip_rows(clips[i], markers[i], fps[i]);
                &&& rows.len() >= 1
                &&& forall|k: int|
                    0 <= k < rows.len() ==> rows[k].filename == clips[i].filename@ && rows[k].tags
                        == views(clips[i].tags@)
            },
    decreases n,
{
    if n > 0 {
        lemma_every_clip_represented(clips, markers, fps, n - 1);
    }
}

} // verus!
