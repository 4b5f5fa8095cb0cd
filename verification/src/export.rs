//! Builds export files from selected clips and markers: a CSV shot log and a
//! CMX3600 EDL whose events are laid out back to back on the record timeline.
//!
//! Times are carried as whole milliseconds and frame rates as the rationals
//! ffprobe reports, so every conversion below is exact integer arithmetic.
use vstd::prelude::*;
use crate::text::{
    digit_char, decimal, digits_value, is_digit_char, is_digits, joined, parse_digits, push_char, push_joined,
    push_space_padded, push_zero_padded, space_padded, views, zero_padded,
};

verus! {

broadcast use vstd::string::group_string_axioms;

/// One exportable range: either a clip's marker, or (if a clip has no markers) the
/// clip's full duration standing in for it so every selected clip is represented.
pub struct ExportRow {
    pub filename: String,
    pub tags: Vec<String>,
    pub marker_label: String,
    /// Start of the range, in milliseconds from the start of the clip.
    pub in_ms: i64,
    /// End of the range, in milliseconds from the start of the clip.
    pub out_ms: i64,
    /// Frame rate of the clip.
    pub fps: FrameRate,
}

/// A frame rate as the rational number of frames per second ffprobe reports,
/// such as 25/1 or 30000/1001.
#[derive(Clone, Copy)]
pub struct FrameRate {
    pub num: u32,
    pub den: u32,
}

// ---------------------------------------------------------------------------
// Specification
// ---------------------------------------------------------------------------

/// A CSV field must be quoted when it holds a comma, a double quote or a newline.
pub open spec fn needs_quoting(f: Seq<char>) -> bool {
    f.contains(',') || f.contains('"') || f.contains('\n')
}

/// `f` with every double quote written twice.
pub open spec fn double_quotes(f: Seq<char>) -> Seq<char>
    decreases f.len(),
{
    if f.len() == 0 {
        Seq::empty()
    } else if f.last() == '"' {
        double_quotes(f.drop_last()) + seq!['"', '"']
    } else {
        double_quotes(f.drop_last()).push(f.last())
    }
}

/// How `f` is written as one CSV field.
pub open spec fn csv_field(f: Seq<char>) -> Seq<char> {
    if needs_quoting(f) {
        seq!['"'] + double_quotes(f) + seq!['"']
    } else {
        f
    }
}

/// Collapses every doubled quote back into one (the reading side of CSV quoting).
pub open spec fn collapse_quotes(s: Seq<char>) -> Seq<char>
    decreases s.len(),
{
    if s.len() == 0 {
        Seq::empty()
    } else if s.len() >= 2 && s.last() == '"' && s[s.len() - 2] == '"' {
        collapse_quotes(s.take(s.len() - 2)).push('"')
    } else {
        collapse_quotes(s.drop_last()).push(s.last())
    }
}

/// A time clamped at zero: a negative time reads as the start of the clip.
pub open spec fn clamp_ms(ms: int) -> nat {
    if ms < 0 {
        0
    } else {
        ms as nat
    }
}

/// The parts of a time of `ms` milliseconds: (hours, minutes, seconds, milliseconds).
pub open spec fn hms_parts(ms: nat) -> (nat, nat, nat, nat) {
    let total = ms / 1000;
    (total / 3600, (total % 3600) / 60, total % 60, ms % 1000)
}

/// Human-readable HH:MM:SS.mmm, as written in the CSV export.
pub open spec fn hms(ms: nat) -> Seq<char> {
    let (h, m, s, milli) = hms_parts(ms);
    zero_padded(h, 2) + seq![':'] + zero_padded(m, 2) + seq![':'] + zero_padded(s, 2) + seq!['.']
        + zero_padded(milli, 3)
}

/// Whole frames per second used for timecode: the rounded rate, at least 1.
pub open spec fn timecode_fps(fps: FrameRate) -> nat {
    let r = ((2 * fps.num + fps.den) / (2 * fps.den)) as nat;
    if r >= 1 { r } else { 1 }
}

/// The frame a time falls on: `ms` milliseconds at `fps`, rounded to the nearest
/// frame (halves away from zero).
pub open spec fn frame_index(ms: nat, fps: FrameRate) -> nat {
    ((2 * ms * fps.num + 1000 * fps.den) / (2000 * fps.den)) as nat
}

/// The parts of a non-drop-frame timecode: (hours, minutes, seconds, frames).
pub open spec fn timecode_parts(ms: nat, rate: FrameRate) -> (nat, nat, nat, nat) {
    let fps = timecode_fps(rate);
    let frames = frame_index(ms, rate);
    let secs = frames / fps;
    (secs / 3600, (secs % 3600) / 60, secs % 60, frames % fps)
}

/// Frame-accurate HH:MM:SS:FF, as written in the EDL.
#[verifier::opaque]
pub open spec fn timecode(ms: nat, rate: FrameRate) -> Seq<char> {
    let (h, m, s, f) = timecode_parts(ms, rate);
    zero_padded(h, 2) + seq![':'] + zero_padded(m, 2) + seq![':'] + zero_padded(s, 2) + seq![':']
        + zero_padded(f, 2)
}

pub open spec fn is_ascii_alnum(c: char) -> bool {
    ('a' <= c && c <= 'z') || ('A' <= c && c <= 'Z') || ('0' <= c && c <= '9')
}

pub open spec fn ascii_upper(c: char) -> char {
    if 'a' <= c && c <= 'z' {
        ((c as int) - 32) as char
    } else {
        c
    }
}

/// Index of the last '.' in `f`, or -1 when there is none.
pub open spec fn last_dot(f: Seq<char>) -> int
    decreases f.len(),
{
    if f.len() == 0 {
        -1
    } else if f.last() == '.' {
        f.len() - 1
    } else {
        last_dot(f.drop_last())
    }
}

/// The file name without its last extension (everything before the last '.').
pub open spec fn file_stem(f: Seq<char>) -> Seq<char> {
    if last_dot(f) < 0 {
        f
    } else {
        f.take(last_dot(f))
    }
}

/// The ASCII letters and digits of `s`, upper-cased, in order.
pub open spec fn clean_upper(s: Seq<char>) -> Seq<char>
    decreases s.len(),
{
    if s.len() == 0 {
        Seq::empty()
    } else if is_ascii_alnum(s.last()) {
        clean_upper(s.drop_last()).push(ascii_upper(s.last()))
    } else {
        clean_upper(s.drop_last())
    }
}

/// CMX3600 reel name for a file: alphanumeric stem, upper-cased, at most 8
/// characters, and "CLIP" when nothing is left.
pub open spec fn reel(filename: Seq<char>) -> Seq<char> {
    let u = clean_upper(file_stem(filename));
    if u.len() == 0 {
        "CLIP"@
    } else if u.len() <= 8 {
        u
    } else {
        u.take(8)
    }
}

pub open spec fn csv_header() -> Seq<char> {
    "filename,tags,marker,in,out\n"@
}

/// The CSV line of one export row.
pub open spec fn csv_line(row: ExportRow) -> Seq<char> {
    csv_field(row.filename@) + seq![','] + csv_field(joined(views(row.tags@), ";"@)) + seq![',']
        + csv_field(row.marker_label@) + seq![','] + hms(clamp_ms(row.in_ms as int)) + seq![','] + hms(
        clamp_ms(row.out_ms as int),
    ) + seq!['\n']
}

/// The CSV lines of the first `n` rows.
pub open spec fn csv_lines(rows: Seq<ExportRow>, n: int) -> Seq<char>
    decreases n,
{
    if n <= 0 {
        Seq::empty()
    } else {
        csv_lines(rows, n - 1) + csv_line(rows[n - 1])
    }
}

/// The whole CSV document.
pub open spec fn csv_document(rows: Seq<ExportRow>) -> Seq<char> {
    csv_header() + csv_lines(rows, rows.len() as int)
}

/// The length of a row's range on the record timeline (zero for a reversed range).
pub open spec fn duration_ms(row: ExportRow) -> nat {
    if row.out_ms > row.in_ms {
        (row.out_ms - row.in_ms) as nat
    } else {
        0
    }
}

/// Where event `i` starts on the record timeline: the sum of the durations before it.
pub open spec fn record_start(rows: Seq<ExportRow>, i: int) -> nat
    decreases i,
{
    if i <= 0 {
        0
    } else {
        record_start(rows, i - 1) + duration_ms(rows[i - 1])
    }
}

/// Record-in timecode of event `i`.
pub open spec fn record_in(rows: Seq<ExportRow>, i: int) -> Seq<char> {
    timecode(record_start(rows, i), rows[i].fps)
}

/// Record-out timecode of event `i`.
pub open spec fn record_out(rows: Seq<ExportRow>, i: int) -> Seq<char> {
    timecode(record_start(rows, i) + duration_ms(rows[i]), rows[i].fps)
}

/// The event line of one EDL event numbered `number` that starts at `rec_in`
/// milliseconds on the record timeline: source in/out, then record in/out.
pub open spec fn edl_event_line(row: ExportRow, number: nat, rec_in: nat) -> Seq<char> {
    let fps = row.fps;
    zero_padded(number, 3) + "  "@ + space_padded(reel(row.filename@), 8) + " V     C        "@
        + timecode(clamp_ms(row.in_ms as int), fps) + seq![' '] + timecode(clamp_ms(row.out_ms as int), fps) + seq![
        ' ',
    ] + timecode(rec_in, fps) + seq![' '] + timecode(rec_in + duration_ms(row), fps) + seq!['\n']
}

/// The comment lines of one EDL event (clip name, marker, tags) and the blank line
/// that ends it.
pub open spec fn edl_event_comments(row: ExportRow) -> Seq<char> {
    "* FROM CLIP NAME: "@ + row.filename@ + seq!['\n'] + (if row.marker_label@.len() > 0 {
        "* MARKER: "@ + row.marker_label@ + seq!['\n']
    } else {
        Seq::empty()
    }) + (if row.tags@.len() > 0 {
        "* TAGS: "@ + joined(views(row.tags@), ", "@) + seq!['\n']
    } else {
        Seq::empty()
    }) + seq!['\n']
}

/// One whole EDL event.
pub open spec fn edl_event(row: ExportRow, number: nat, rec_in: nat) -> Seq<char> {
    edl_event_line(row, number, rec_in) + edl_event_comments(row)
}

/// The first `n` events of the EDL.
pub open spec fn edl_events(rows: Seq<ExportRow>, n: int) -> Seq<char>
    decreases n,
{
    if n <= 0 {
        Seq::empty()
    } else {
        edl_events(rows, n - 1) + edl_event(rows[n - 1], n as nat, record_start(rows, n - 1))
    }
}

/// The whole EDL document.
pub open spec fn edl_document(title: Seq<char>, rows: Seq<ExportRow>) -> Seq<char> {
    "TITLE: "@ + title + seq!['\n'] + "FCM: NON-DROP FRAME\n\n"@ + edl_events(rows, rows.len() as int)
}

// ---------------------------------------------------------------------------
// Implementation
// ---------------------------------------------------------------------------

/// Quotes a CSV field when it holds a comma, a quote or a newline, doubling its quotes.
pub fn csv_escape(field: &str) -> (r: String)
    ensures
        r@ == csv_field(field@),
{
    let mut doubled = String::new();
    let mut quote = false;
    for c in it: field.chars()
        invariant
            it.seq() == field@,
            doubled@ == double_quotes(field@.take(it.index() as int)),
            quote == needs_quoting(field@.take(it.index() as int)),
    {
        let ghost i = it.index() as int;
        let ghost prev = field@.take(i);
        let ghost next = field@.take(i + 1);
        assert(next.drop_last() =~= prev);
        assert(next.last() == c);
        if c == '"' {
            push_char(&mut doubled, '"');
            push_char(&mut doubled, '"');
            assert(doubled@ =~= double_quotes(prev) + seq!['"', '"']);
        } else {
            push_char(&mut doubled, c);
        }
        if c == ',' || c == '"' || c == '\n' {
            quote = true;
            assert(next.contains(c)) by {
                assert(next[i] == c);
            }
        }
        proof {
            assert forall|x: char| next.contains(x) <==> (prev.contains(x) || x == c) by {
                if next.contains(x) {
                    let k = choose|k: int| 0 <= k < next.len() && next[k] == x;
                    if k < i {
                        assert(prev[k] == x);
                    }
                }
                if prev.contains(x) {
                    let k = choose|k: int| 0 <= k < prev.len() && prev[k] == x;
                    assert(next[k] == x);
                }
                if x == c {
                    assert(next[i] == x);
                }
            }
        }
    }
    assert(field@.take(field@.len() as int) =~= field@);
    if quote {
        let mut r = String::new();
        push_char(&mut r, '"');
        r.append(doubled.as_str());
        push_char(&mut r, '"');
        assert(r@ =~= seq!['"'] + double_quotes(field@) + seq!['"']);
        r
    } else {
        String::from_str(field)
    }
}

/// A time clamped at zero.
pub fn nonneg_ms(ms: i64) -> (r: u64)
    ensures
        r as nat == clamp_ms(ms as int),
{
    if ms < 0 {
        0
    } else {
        ms as u64
    }
}

/// Human-readable HH:MM:SS.mmm -- CSV is a data export, not tied to a frame rate.
/// Negative times read as zero.
pub fn format_hms(ms: i64) -> (r: String)
    ensures
        r@ == hms(clamp_ms(ms as int)),
{
    let ms = nonneg_ms(ms);
    let total = ms / 1000;
    let mut out = String::new();
    push_zero_padded(&mut out, (total / 3600) as u128, 2);
    push_char(&mut out, ':');
    push_zero_padded(&mut out, ((total % 3600) / 60) as u128, 2);
    push_char(&mut out, ':');
    push_zero_padded(&mut out, (total % 60) as u128, 2);
    push_char(&mut out, '.');
    push_zero_padded(&mut out, (ms % 1000) as u128, 3);
    assert(out@ =~= hms(ms as nat));
    out
}

/// Frame-accurate HH:MM:SS:FF for EDL, which NLEs parse as non-drop-frame timecode.
pub fn format_timecode(ms: u64, fps: FrameRate) -> (r: String)
    requires
        fps.den > 0,
    ensures
        r@ == timecode(ms as nat, fps),
{
    let num = fps.num as u128;
    let den = fps.den as u128;
    let rounded: u128 = (2 * num + den) / (2 * den);
    let per_second: u128 = if rounded >= 1 { rounded } else { 1 };
    assert((ms as nat) * (fps.num as nat) <= (u64::MAX as nat) * (u32::MAX as nat)) by (nonlinear_arith);
    let product: u128 = (ms as u128) * num;
    let frames: u128 = (2 * product + 1000 * den) / (2000 * den);
    assert(2 * product + 1000 * den == 2 * (ms as nat) * (fps.num as nat) + 1000 * (fps.den as nat)) by (nonlinear_arith)
        requires product == (ms as nat) * (fps.num as nat), den == fps.den;
    let secs = frames / per_second;
    let mut out = String::new();
    push_zero_padded(&mut out, secs / 3600, 2);
    push_char(&mut out, ':');
    push_zero_padded(&mut out, (secs % 3600) / 60, 2);
    push_char(&mut out, ':');
    push_zero_padded(&mut out, secs % 60, 2);
    push_char(&mut out, ':');
    push_zero_padded(&mut out, frames % per_second, 2);
    reveal(timecode);
    assert(out@ =~= timecode(ms as nat, fps));
    out
}

/// CMX3600 reel names are conventionally short and alphanumeric; NLEs use this to
/// match the EDL event back to the source clip by filename via the comment below,
/// so accuracy of the reel name itself doesn't matter beyond "not empty".
pub fn reel_name(filename: &str) -> (r: String)
    ensures
        r@ == reel(filename@),
{
    // The characters of the name, and where its last '.' is.
    let mut chars: Vec<char> = Vec::new();
    let mut dot: Option<usize> = None;
    for c in it: filename.chars()
        invariant
            it.seq() == filename@,
            chars@ == filename@.take(it.index() as int),
            match dot {
                Some(d) => last_dot(chars@) == d as int,
                None => last_dot(chars@) == -1,
            },
    {
        let ghost prev = chars@;
        if c == '.' {
            dot = Some(chars.len());
        }
        chars.push(c);
        assert(chars@.drop_last() =~= prev);
        assert(chars@ =~= filename@.take(it.index() + 1));
    }
    assert(chars@ =~= filename@);
    proof {
        lemma_last_dot_range(chars@);
    }
    let stem_len: usize = match dot {
        Some(d) => d,
        None => chars.len(),
    };
    assert(chars@.take(stem_len as int) =~= file_stem(filename@)) by {
        if dot is None {
            assert(chars@.take(stem_len as int) =~= chars@);
        }
    }
    // Keep the letters and digits of the stem, upper-cased.
    let mut cleaned: Vec<char> = Vec::new();
    let mut i: usize = 0;
    while i < stem_len
        invariant
            stem_len <= chars.len(),
            i <= stem_len,
            cleaned@ == clean_upper(chars@.take(i as int)),
        decreases stem_len - i,
    {
        let c = chars[i];
        let ghost prefix = chars@.take(i + 1);
        assert(prefix.drop_last() =~= chars@.take(i as int));
        assert(prefix.last() == c);
        if ('a' <= c && c <= 'z') || ('A' <= c && c <= 'Z') || ('0' <= c && c <= '9') {
            let u = if 'a' <= c && c <= 'z' {
                ((c as u8) - 32) as char
            } else {
                c
            };
            assert(u == ascii_upper(c)) by {
                if 'a' <= c && c <= 'z' {
                    assert(((c as u8) - 32) as char == ((c as int) - 32) as char);
                }
            }
            cleaned.push(u);
        }
        i = i + 1;
    }
    if cleaned.len() == 0 {
        return String::from_str("CLIP");
    }
    let keep: usize = if cleaned.len() <= 8 { cleaned.len() } else { 8 };
    let mut out = String::new();
    let mut j: usize = 0;
    while j < keep
        invariant
            keep <= cleaned.len(),
            j <= keep,
            out@ == cleaned@.take(j as int),
        decreases keep - j,
    {
        push_char(&mut out, cleaned[j]);
        j = j + 1;
        assert(out@ =~= cleaned@.take(j as int));
    }
    assert(cleaned@.take(cleaned.len() as int) =~= cleaned@);
    out
}

/// `parts` joined with `sep`.
pub fn join_strings(parts: &Vec<String>, sep: &str) -> (r: String)
    ensures
        r@ == joined(views(parts@), sep@),
{
    let mut out = String::new();
    push_joined(&mut out, parts, sep);
    assert(out@ =~= joined(views(parts@), sep@));
    out
}

/// Appends the CSV line of one row.
fn push_csv_line(out: &mut String, row: &ExportRow)
    ensures
        final(out)@ == old(out)@ + csv_line(*row),
{
    let ghost start = out@;
    out.append(csv_escape(row.filename.as_str()).as_str());
    push_char(out, ',');
    let tags = join_strings(&row.tags, ";");
    out.append(csv_escape(tags.as_str()).as_str());
    push_char(out, ',');
    out.append(csv_escape(row.marker_label.as_str()).as_str());
    push_char(out, ',');
    out.append(format_hms(row.in_ms).as_str());
    push_char(out, ',');
    out.append(format_hms(row.out_ms).as_str());
    push_char(out, '\n');
    assert(out@ =~= start + csv_line(*row));
}

/// Builds the CSV shot log: a header line, then one line per export row.
pub fn build_csv(rows: &[ExportRow]) -> (r: String)
    ensures
        r@ == csv_document(rows@),
{
    let mut out = String::from_str("filename,tags,marker,in,out\n");
    let mut i: usize = 0;
    while i < rows.len()
        invariant
            i <= rows@.len(),
            out@ == csv_header() + csv_lines(rows@, i as int),
        decreases rows.len() - i,
    {
        push_csv_line(&mut out, &rows[i]);
        i = i + 1;
        assert(out@ =~= csv_header() + csv_lines(rows@, i as int));
    }
    out
}

/// The record timeline stays within what a `u64` of milliseconds can hold.
pub open spec fn timeline_fits(rows: Seq<ExportRow>) -> bool {
    record_start(rows, rows.len() as int) <= u64::MAX
}

/// Every row has a frame rate (a nonzero denominator).
pub open spec fn rates_defined(rows: Seq<ExportRow>) -> bool {
    forall|i: int| 0 <= i < rows.len() ==> (#[trigger] rows[i]).fps.den > 0
}

/// Rows an EDL can be built from: defined frame rates and a timeline that fits.
pub open spec fn edl_ready(rows: Seq<ExportRow>) -> bool {
    rates_defined(rows) && timeline_fits(rows)
}

proof fn lemma_record_start_monotone(rows: Seq<ExportRow>, i: int, j: int)
    requires
        0 <= i <= j,
    ensures
        record_start(rows, i) <= record_start(rows, j),
    decreases j - i,
{
    if i < j {
        lemma_record_start_monotone(rows, i, j - 1);
    }
}

/// The length of a row's range.
fn range_duration(row: &ExportRow) -> (r: u64)
    ensures
        r as nat == duration_ms(*row),
{
    if row.out_ms > row.in_ms {
        ((row.out_ms as i128) - (row.in_ms as i128)) as u64
    } else {
        0
    }
}

/// Appends the event line of one EDL event.
fn push_edl_event_line(out: &mut String, row: &ExportRow, number: usize, rec_in: u64)
    requires
        rec_in as nat + duration_ms(*row) <= u64::MAX,
        row.fps.den > 0,
    ensures
        final(out)@ == old(out)@ + edl_event_line(*row, number as nat, rec_in as nat),
{
    let ghost start = out@;
    let duration = range_duration(row);
    push_zero_padded(out, number as u128, 3);
    out.append("  ");
    let reel = reel_name(row.filename.as_str());
    proof {
        lemma_reel_shape(row.filename@);
    }
    push_space_padded(out, reel.as_str(), 8);
    out.append(" V     C        ");
    let src_in = format_timecode(nonneg_ms(row.in_ms), row.fps);
    let src_out = format_timecode(nonneg_ms(row.out_ms), row.fps);
    let rec_in_tc = format_timecode(rec_in, row.fps);
    let rec_out_tc = format_timecode(rec_in + duration, row.fps);
    out.append(src_in.as_str());
    push_char(out, ' ');
    out.append(src_out.as_str());
    push_char(out, ' ');
    out.append(rec_in_tc.as_str());
    push_char(out, ' ');
    out.append(rec_out_tc.as_str());
    push_char(out, '\n');
    assert(out@ =~= start + edl_event_line(*row, number as nat, rec_in as nat));
}

/// Appends the comment lines of one EDL event.
fn push_edl_event_comments(out: &mut String, row: &ExportRow)
    ensures
        final(out)@ == old(out)@ + edl_event_comments(*row),
{
    let ghost start = out@;
    out.append("* FROM CLIP NAME: ");
    out.append(row.filename.as_str());
    push_char(out, '\n');
    let ghost a = out@;
    assert(a =~= start + "* FROM CLIP NAME: "@ + row.filename@ + seq!['\n']);
    if row.marker_label.unicode_len() > 0 {
        out.append("* MARKER: ");
        out.append(row.marker_label.as_str());
        push_char(out, '\n');
    }
    let ghost b = out@;
    assert(b =~= a + (if row.marker_label@.len() > 0 {
        "* MARKER: "@ + row.marker_label@ + seq!['\n']
    } else {
        Seq::empty()
    }));
    if row.tags.len() > 0 {
        out.append("* TAGS: ");
        push_joined(out, &row.tags, ", ");
        push_char(out, '\n');
    }
    let ghost c = out@;
    assert(c =~= b + (if row.tags@.len() > 0 {
        "* TAGS: "@ + joined(views(row.tags@), ", "@) + seq!['\n']
    } else {
        Seq::empty()
    }));
    push_char(out, '\n');
    assert(out@ =~= start + edl_event_comments(*row));
}

/// Builds a CMX3600 EDL with events laid out back-to-back on the record timeline
/// (so importing it gives you an assembled sequence of the marked ranges, not just
/// a list). Each event carries the source clip name, tags, and marker label as
/// comments, which Premiere/Resolve show as metadata on import.
pub fn build_edl(title: &str, rows: &[ExportRow]) -> (r: String)
    requires
        edl_ready(rows@),
    ensures
        r@ == edl_document(title@, rows@),
{
    let mut out = String::from_str("TITLE: ");
    out.append(title);
    push_char(&mut out, '\n');
    out.append("FCM: NON-DROP FRAME\n\n");
    let ghost head = out@;
    let mut record: u64 = 0;
    let mut i: usize = 0;
    while i < rows.len()
        invariant
            i <= rows@.len(),
            edl_ready(rows@),
            record as nat == record_start(rows@, i as int),
            out@ == head + edl_events(rows@, i as int),
        decreases rows.len() - i,
    {
        proof {
            lemma_record_start_monotone(rows@, i + 1, rows@.len() as int);
        }
        let row = &rows[i];
        assert(rows@[i as int].fps.den > 0);
        push_edl_event_line(&mut out, row, i + 1, record);
        push_edl_event_comments(&mut out, row);
        let duration = range_duration(row);
        record = record + duration;
        i = i + 1;
        assert(out@ =~= head + edl_events(rows@, i as int));
    }
    assert(out@ =~= edl_document(title@, rows@));
    out
}

// ---------------------------------------------------------------------------
// Laws
// ---------------------------------------------------------------------------

/// A reel name is never empty, holds at most eight characters, and each of them
/// is an upper-case ASCII letter or a digit.
pub proof fn lemma_reel_shape(filename: Seq<char>)
    ensures
        1 <= reel(filename).len() <= 8,
        forall|k: int|
            0 <= k < reel(filename).len() ==> ('A' <= #[trigger] reel(filename)[k] <= 'Z' || '0'
                <= reel(filename)[k] <= '9'),
{
    let u = clean_upper(file_stem(filename));
    lemma_clean_upper_shape(file_stem(filename));
    if u.len() == 0 {
        reveal_strlit("CLIP");
    }
}

proof fn lemma_last_dot_range(f: Seq<char>)
    ensures
        -1 <= last_dot(f) < f.len(),
        last_dot(f) >= 0 ==> f[last_dot(f)] == '.',
    decreases f.len(),
{
    if f.len() > 0 {
        lemma_last_dot_range(f.drop_last());
    }
}

proof fn lemma_ascii_upper_shape(c: char)
    requires
        is_ascii_alnum(c),
    ensures
        ('A' <= ascii_upper(c) <= 'Z') || ('0' <= ascii_upper(c) <= '9'),
{
    if 'a' <= c && c <= 'z' {
        let x = (c as int) - 32;
        assert(65 <= x <= 90);
        assert((x as char) as int == x);
    }
}

proof fn lemma_clean_upper_shape(s: Seq<char>)
    ensures
        forall|k: int|
            0 <= k < clean_upper(s).len() ==> ('A' <= #[trigger] clean_upper(s)[k] <= 'Z' || '0'
                <= clean_upper(s)[k] <= '9'),
    decreases s.len(),
{
    if s.len() > 0 {
        let r = clean_upper(s.drop_last());
        lemma_clean_upper_shape(s.drop_last());
        if is_ascii_alnum(s.last()) {
            lemma_ascii_upper_shape(s.last());
            assert forall|k: int| 0 <= k < r.len() implies clean_upper(s)[k] == r[k] by {}
            assert(clean_upper(s)[r.len() as int] == ascii_upper(s.last()));
        }
    }
}

/// A time written as HH:MM:SS.mmm is an exact decomposition of its milliseconds,
/// with minutes and seconds under 60 and milliseconds under 1000.
pub proof fn lemma_hms_decomposes(ms: nat)
    ensures
        ({
            let (h, m, s, milli) = hms_parts(ms);
            &&& m < 60
            &&& s < 60
            &&& milli < 1000
            &&& milli + 1000 * (s + 60 * (m + 60 * h)) == ms
        }),
{
    let total = ms / 1000;
    let (h, m, s, milli) = hms_parts(ms);
    assert(ms == 1000 * total + milli) by (nonlinear_arith)
        requires total == ms / 1000, milli == ms % 1000;
    assert(total == 3600 * h + 60 * m + s && m < 60 && s < 60) by (nonlinear_arith)
        requires h == total / 3600, m == (total % 3600) / 60, s == total % 60;
    assert(milli + 1000 * (s + 60 * (m + 60 * h)) == 1000 * (3600 * h + 60 * m + s) + milli)
        by (nonlinear_arith);
}

/// A timecode rolls over at the frame rate: it is an exact decomposition of the
/// frame a time falls on, with minutes and seconds under 60 and the frame field
/// under the whole frame rate (at 25 fps, frame 25 is "00:00:01:00", never
/// "00:00:00:25").
pub proof fn lemma_timecode_rolls_over(ms: nat, rate: FrameRate)
    requires
        rate.den > 0,
    ensures
        ({
            let (h, m, s, f) = timecode_parts(ms, rate);
            let fps = timecode_fps(rate);
            &&& f < fps
            &&& m < 60
            &&& s < 60
            &&& f + fps * (s + 60 * (m + 60 * h)) == frame_index(ms, rate)
        }),
        timecode(ms, rate) == ({
            let (h, m, s, f) = timecode_parts(ms, rate);
            zero_padded(h, 2) + seq![':'] + zero_padded(m, 2) + seq![':'] + zero_padded(s, 2)
                + seq![':'] + zero_padded(f, 2)
        }),
{
    reveal(timecode);
    let fps = timecode_fps(rate);
    let frames = frame_index(ms, rate);
    let secs = frames / fps;
    let (h, m, s, f) = timecode_parts(ms, rate);
    assert(frames == fps * secs + f && f < fps) by (nonlinear_arith)
        requires fps >= 1, secs == frames / fps, f == frames % fps;
    assert(secs == 3600 * h + 60 * m + s && m < 60 && s < 60) by (nonlinear_arith)
        requires h == secs / 3600, m == (secs % 3600) / 60, s == secs % 60;
    assert(f + fps * (s + 60 * (m + 60 * h)) == fps * (3600 * h + 60 * m + s) + f)
        by (nonlinear_arith);
}

/// The whole frames per second a timecode counts is the frame rate rounded to the
/// nearest whole number (halves up), with no upper limit, and 1 for a rate under
/// one half: 50 fps counts 50 frames a second, 59.94 counts 60, 29.97 counts 30.
pub proof fn lemma_timecode_fps_is_rounded_rate(rate: FrameRate)
    requires
        rate.den > 0,
    ensures
        2 * rate.num + rate.den >= 2 * rate.den ==> 2 * rate.den * timecode_fps(rate) <= 2 * rate.num
            + rate.den < 2 * rate.den * (timecode_fps(rate) + 1),
        2 * rate.num + rate.den < 2 * rate.den ==> timecode_fps(rate) == 1,
{
    let a: int = 2 * rate.num + rate.den;
    let b: int = 2 * rate.den;
    let q: int = a / b;
    assert(b * q <= a < b * (q + 1)) by (nonlinear_arith)
        requires b > 0, a >= 0, q == a / b;
    if a >= b {
        assert(q >= 1) by (nonlinear_arith)
            requires b > 0, a >= b, q == a / b;
    } else {
        assert(q == 0) by (nonlinear_arith)
            requires b > 0, 0 <= a < b, q == a / b;
    }
}

/// At a whole frame rate of `n` frames a second, a time of `s` whole seconds
/// falls on frame `s * n` and reads as `s` seconds and frame 00: one second of 50p
/// or 60p footage is "00:00:01:00".
pub proof fn lemma_whole_seconds_read_as_seconds(n: u32, s: nat)
    requires
        n >= 1,
    ensures
        frame_index(1000 * s, FrameRate { num: n, den: 1 }) == s * n,
        timecode_parts(1000 * s, FrameRate { num: n, den: 1 }) == (s / 3600, (s % 3600) / 60, s % 60, 0nat),
        timecode(1000 * s, FrameRate { num: n, den: 1 }) == zero_padded(s / 3600, 2) + seq![':']
            + zero_padded((s % 3600) / 60, 2) + seq![':'] + zero_padded(s % 60, 2) + seq![':']
            + zero_padded(0, 2),
{
    reveal(timecode);
    let rate = FrameRate { num: n, den: 1 };
    let x: int = 2 * (1000 * s) * n + 1000;
    assert(x == 2000 * (s * n) + 1000) by (nonlinear_arith)
        requires x == 2 * (1000 * s) * n + 1000;
    assert(x / 2000 == s * n) by (nonlinear_arith)
        requires x == 2000 * (s * n) + 1000, s * n >= 0;
    assert(frame_index(1000 * s, rate) == s * n);
    let k: int = 2 * n + 1;
    assert(k / 2 == n);
    assert(timecode_fps(rate) == n);
    let sn: int = s * n;
    assert(sn / (n as int) == s && sn % (n as int) == 0) by (nonlinear_arith)
        requires sn == s * n, n >= 1, s >= 0;
}

/// The tags comment of an EDL event: the row's tags joined with ", ".
pub open spec fn tags_comment(row: ExportRow) -> Seq<char> {
    "* TAGS: "@ + joined(views(row.tags@), ", "@) + seq!['\n']
}

/// Whether `t` occurs in `s` as a contiguous run.
pub open spec fn occurs_in(t: Seq<char>, s: Seq<char>) -> bool {
    exists|k: int| 0 <= k && k + t.len() <= s.len() && #[trigger] s.subrange(k, k + t.len()) == t
}

/// An EDL event of a tagged row closes with its tags comment and the blank line,
/// whether or not the row carries a marker label: the tags are written for every
/// tagged event, clips exported whole included.
pub proof fn lemma_edl_event_lists_tags(row: ExportRow, number: nat, rec_in: nat)
    requires
        row.tags@.len() > 0,
    ensures
        ({
            let e = edl_event(row, number, rec_in);
            let t = tags_comment(row) + seq!['\n'];
            e.len() >= t.len() && e.subrange(e.len() - t.len(), e.len() as int) == t
        }),
{
    let e = edl_event(row, number, rec_in);
    let t = tags_comment(row) + seq!['\n'];
    let front = edl_event_line(row, number, rec_in) + "* FROM CLIP NAME: "@ + row.filename@ + seq!['\n']
        + (if row.marker_label@.len() > 0 {
        "* MARKER: "@ + row.marker_label@ + seq!['\n']
    } else {
        Seq::empty()
    });
    assert(e =~= front + t);
    assert(e.subrange(e.len() - t.len(), e.len() as int) =~= t);
}

/// The first `i` events of an EDL open the first `n` events, for `i <= n`.
proof fn lemma_edl_events_prefix(rows: Seq<ExportRow>, i: int, n: int)
    requires
        0 <= i <= n,
    ensures
        edl_events(rows, i).len() <= edl_events(rows, n).len(),
        edl_events(rows, n).take(edl_events(rows, i).len() as int) == edl_events(rows, i),
    decreases n - i,
{
    if i < n {
        lemma_edl_events_prefix(rows, i, n - 1);
        let a = edl_events(rows, n - 1);
        let b = edl_events(rows, n);
        assert(b.take(a.len() as int) =~= a);
        assert(b.take(edl_events(rows, i).len() as int) =~= a.take(edl_events(rows, i).len() as int));
    } else {
        assert(edl_events(rows, n).take(edl_events(rows, n).len() as int) =~= edl_events(rows, n));
    }
}

/// Every tagged row's tags appear in the EDL as a "* TAGS: " comment listing them
/// joined with ", ", whatever else the row carries.
pub proof fn lemma_edl_lists_every_tagged_row(title: Seq<char>, rows: Seq<ExportRow>, i: int)
    requires
        0 <= i < rows.len(),
        rows[i].tags@.len() > 0,
    ensures
        occurs_in(tags_comment(rows[i]), edl_document(title, rows)),
{
    let n = rows.len() as int;
    let t = tags_comment(rows[i]);
    let e = edl_event(rows[i], (i + 1) as nat, record_start(rows, i));
    lemma_edl_event_lists_tags(rows[i], (i + 1) as nat, record_start(rows, i));
    let before = edl_events(rows, i);
    let upto = edl_events(rows, i + 1);
    assert(upto == before + e);
    lemma_edl_events_prefix(rows, i + 1, n);
    let all = edl_events(rows, n);
    let head = "TITLE: "@ + title + seq!['\n'] + "FCM: NON-DROP FRAME\n\n"@;
    let doc = edl_document(title, rows);
    assert(doc =~= head + all);
    let k = head.len() + upto.len() - t.len() - 1;
    let ke = e.len() - t.len() - 1;
    assert forall|j: int| 0 <= j < t.len() implies doc.subrange(k, k + t.len())[j] == t[j] by {
        assert(doc[k + j] == all[upto.len() - t.len() - 1 + j]);
        assert(all[upto.len() - t.len() - 1 + j] == upto[upto.len() - t.len() - 1 + j]);
        assert(upto[upto.len() - t.len() - 1 + j] == e[ke + j]);
        assert(e[ke + j] == (t + seq!['\n'])[j]);
    }
    assert(doc.subrange(k, k + t.len()) =~= t);
}

/// EDL events are laid out back to back on the record timeline: the first starts
/// at zero, each starts where the one before it ends, and (at a shared frame rate)
/// an event's record-in timecode is the previous event's record-out timecode.
pub proof fn lemma_events_back_to_back(rows: Seq<ExportRow>, i: int)
    requires
        0 <= i,
        i + 1 < rows.len(),
    ensures
        record_start(rows, 0) == 0,
        record_start(rows, i + 1) == record_start(rows, i) + duration_ms(rows[i]),
        rows[i].fps == rows[i + 1].fps ==> record_out(rows, i) == record_in(rows, i + 1),
{
}

proof fn lemma_collapse_doubled(f: Seq<char>)
    ensures
        collapse_quotes(double_quotes(f)) == f,
    decreases f.len(),
{
    if f.len() > 0 {
        let rest = f.drop_last();
        lemma_collapse_doubled(rest);
        let d = double_quotes(rest);
        let s = double_quotes(f);
        if f.last() == '"' {
            assert(s == d + seq!['"', '"']);
            assert(s.take(s.len() - 2) =~= d);
            assert(s[s.len() - 2] == '"');
            assert(s.last() == '"');
        } else {
            assert(s == d.push(f.last()));
            assert(s.drop_last() =~= d);
        }
        assert(f =~= rest.push(f.last()));
    }
}

/// CSV quoting reads back: a field that holds no comma, quote or newline is
/// written as it is; any other field is written between quotes with its quotes
/// doubled, and collapsing the doubled quotes gives the field back.
pub proof fn lemma_csv_field_reads_back(f: Seq<char>)
    ensures
        !needs_quoting(f) ==> csv_field(f) == f,
        needs_quoting(f) ==> csv_field(f) == seq!['"'] + double_quotes(f) + seq!['"']
            && collapse_quotes(double_quotes(f)) == f,
{
    lemma_collapse_doubled(f);
}

/// How many line breaks `s` holds.
pub open spec fn newline_count(s: Seq<char>) -> nat
    decreases s.len(),
{
    if s.len() == 0 {
        0
    } else {
        newline_count(s.drop_last()) + if s.last() == '\n' {
            1nat
        } else {
            0nat
        }
    }
}

proof fn lemma_newline_count_concat(a: Seq<char>, b: Seq<char>)
    ensures
        newline_count(a + b) == newline_count(a) + newline_count(b),
    decreases b.len(),
{
    if b.len() > 0 {
        lemma_newline_count_concat(a, b.drop_last());
        assert((a + b).drop_last() =~= a + b.drop_last());
    } else {
        assert(a + b =~= a);
    }
}

proof fn lemma_newline_count_single(c: char)
    ensures
        newline_count(seq![c]) == if c == '\n' { 1nat } else { 0nat },
{
    let s = seq![c];
    assert(s.drop_last() =~= Seq::<char>::empty());
    assert(newline_count(Seq::<char>::empty()) == 0);
    assert(s.last() == c);
}

proof fn lemma_newline_count_zero(s: Seq<char>)
    ensures
        !s.contains('\n') <==> newline_count(s) == 0,
    decreases s.len(),
{
    if s.len() > 0 {
        let rest = s.drop_last();
        lemma_newline_count_zero(rest);
        if s.contains('\n') {
            let k = choose|k: int| 0 <= k < s.len() && s[k] == '\n';
            if k < s.len() - 1 {
                assert(rest[k] == '\n');
            }
        }
        if rest.contains('\n') {
            let k = choose|k: int| 0 <= k < rest.len() && rest[k] == '\n';
            assert(s[k] == '\n');
        }
    }
}

proof fn lemma_newline_count_doubled(f: Seq<char>)
    ensures
        newline_count(double_quotes(f)) == newline_count(f),
    decreases f.len(),
{
    if f.len() > 0 {
        let rest = f.drop_last();
        lemma_newline_count_doubled(rest);
        lemma_newline_count_single(f.last());
        lemma_newline_count_single('"');
        if f.last() == '"' {
            lemma_newline_count_concat(double_quotes(rest), seq!['"', '"']);
            lemma_newline_count_concat(seq!['"'], seq!['"']);
            assert(seq!['"'] + seq!['"'] =~= seq!['"', '"']);
        } else {
            lemma_newline_count_concat(double_quotes(rest), seq![f.last()]);
            assert(double_quotes(rest) + seq![f.last()] =~= double_quotes(rest).push(f.last()));
        }
        lemma_newline_count_concat(rest, seq![f.last()]);
        assert(rest + seq![f.last()] =~= f);
    }
}

proof fn lemma_newline_count_field(f: Seq<char>)
    ensures
        newline_count(csv_field(f)) == newline_count(f),
{
    if needs_quoting(f) {
        lemma_newline_count_doubled(f);
        lemma_newline_count_concat(seq!['"'], double_quotes(f));
        lemma_newline_count_concat(seq!['"'] + double_quotes(f), seq!['"']);
        lemma_newline_count_single('"');
    }
}

proof fn lemma_decimal_no_newline(n: nat)
    ensures
        !decimal(n).contains('\n'),
    decreases n,
{
    if n >= 10 {
        lemma_decimal_no_newline(n / 10);
        let d = decimal(n);
        assert forall|k: int| 0 <= k < d.len() implies d[k] != '\n' by {
            if k < d.len() - 1 {
                assert(d[k] == decimal(n / 10)[k]);
            }
        }
    } else {
        assert(decimal(n)[0] == digit_char(n));
    }
}

proof fn lemma_zero_padded_no_newline(n: nat, w: nat)
    ensures
        !zero_padded(n, w).contains('\n'),
{
    lemma_decimal_no_newline(n);
    let d = decimal(n);
    if d.len() < w {
        let z = Seq::new((w - d.len()) as nat, |i: int| '0');
        let p = z + d;
        assert forall|k: int| 0 <= k < p.len() implies p[k] != '\n' by {
            if k >= z.len() {
                assert(p[k] == d[k - z.len()]);
            }
        }
    }
}

proof fn lemma_hms_no_newline(ms: nat)
    ensures
        newline_count(hms(ms)) == 0,
{
    let (h, m, s, milli) = hms_parts(ms);
    let parts = seq![
        zero_padded(h, 2),
        seq![':'],
        zero_padded(m, 2),
        seq![':'],
        zero_padded(s, 2),
        seq!['.'],
        zero_padded(milli, 3),
    ];
    lemma_zero_padded_no_newline(h, 2);
    lemma_zero_padded_no_newline(m, 2);
    lemma_zero_padded_no_newline(s, 2);
    lemma_zero_padded_no_newline(milli, 3);
    let t = hms(ms);
    assert forall|k: int| 0 <= k < t.len() implies t[k] != '\n' by {
        let a = zero_padded(h, 2);
        let b = zero_padded(m, 2);
        let c = zero_padded(s, 2);
        let d = zero_padded(milli, 3);
        if k < a.len() {
            assert(t[k] == a[k]);
        } else if k == a.len() {
        } else if k < a.len() + 1 + b.len() {
            assert(t[k] == b[k - a.len() - 1]);
        } else if k == a.len() + 1 + b.len() {
        } else if k < a.len() + 2 + b.len() + c.len() {
            assert(t[k] == c[k - a.len() - 2 - b.len()]);
        } else if k == a.len() + 2 + b.len() + c.len() {
        } else {
            assert(t[k] == d[k - a.len() - 3 - b.len() - c.len()]);
        }
    }
    lemma_newline_count_zero(t);
}

proof fn lemma_joined_no_newline(parts: Seq<Seq<char>>, sep: Seq<char>)
    requires
        !sep.contains('\n'),
        forall|i: int| 0 <= i < parts.len() ==> !(#[trigger] parts[i]).contains('\n'),
    ensures
        newline_count(joined(parts, sep)) == 0,
    decreases parts.len(),
{
    if parts.len() == 1 {
        lemma_newline_count_zero(parts[0]);
    } else if parts.len() > 1 {
        let rest = parts.drop_last();
        lemma_joined_no_newline(rest, sep);
        lemma_newline_count_zero(sep);
        lemma_newline_count_zero(parts.last());
        lemma_newline_count_concat(joined(rest, sep), sep);
        lemma_newline_count_concat(joined(rest, sep) + sep, parts.last());
    }
}

/// A row's file name, tags and marker label hold no line break.
pub open spec fn row_is_single_line(row: ExportRow) -> bool {
    &&& !row.filename@.contains('\n')
    &&& !row.marker_label@.contains('\n')
    &&& forall|i: int| 0 <= i < row.tags@.len() ==> !(#[trigger] row.tags@[i])@.contains('\n')
}

proof fn lemma_csv_line_one_break(row: ExportRow)
    requires
        row_is_single_line(row),
    ensures
        newline_count(csv_line(row)) == 1,
{
    let tags = joined(views(row.tags@), ";"@);
    reveal_strlit(";");
    assert(!";"@.contains('\n')) by {
        assert(";"@[0] == ';');
    }
    assert forall|i: int| 0 <= i < views(row.tags@).len() implies !(#[trigger] views(row.tags@)[i]).contains('\n') by {
        assert(views(row.tags@)[i] == row.tags@[i]@);
    }
    lemma_joined_no_newline(views(row.tags@), ";"@);
    lemma_newline_count_field(row.filename@);
    lemma_newline_count_field(tags);
    lemma_newline_count_field(row.marker_label@);
    lemma_newline_count_zero(row.filename@);
    lemma_newline_count_zero(row.marker_label@);
    lemma_hms_no_newline(clamp_ms(row.in_ms as int));
    lemma_hms_no_newline(clamp_ms(row.out_ms as int));
    let a = csv_field(row.filename@);
    let b = csv_field(tags);
    let c = csv_field(row.marker_label@);
    let d = hms(clamp_ms(row.in_ms as int));
    let e = hms(clamp_ms(row.out_ms as int));
    let comma = seq![','];
    lemma_newline_count_single(',');
    lemma_newline_count_single('\n');
    lemma_newline_count_concat(a, comma);
    lemma_newline_count_concat(a + comma, b);
    lemma_newline_count_concat(a + comma + b, comma);
    lemma_newline_count_concat(a + comma + b + comma, c);
    lemma_newline_count_concat(a + comma + b + comma + c, comma);
    lemma_newline_count_concat(a + comma + b + comma + c + comma, d);
    lemma_newline_count_concat(a + comma + b + comma + c + comma + d, comma);
    lemma_newline_count_concat(a + comma + b + comma + c + comma + d + comma, e);
    lemma_newline_count_concat(a + comma + b + comma + c + comma + d + comma + e, seq!['\n']);
}

/// The CSV has a header line and one line per export row: when no row's file
/// name, tags or marker label holds a line break, the document holds exactly one
/// line break more than there are rows, and it ends with one.
pub proof fn lemma_csv_one_line_per_row(rows: Seq<ExportRow>)
    requires
        forall|i: int| 0 <= i < rows.len() ==> row_is_single_line(#[trigger] rows[i]),
    ensures
        newline_count(csv_document(rows)) == rows.len() + 1,
        csv_document(rows).last() == '\n',
{
    lemma_csv_lines_count(rows, rows.len() as int);
    reveal_strlit("filename,tags,marker,in,out\n");
    assert(!csv_header().drop_last().contains('\n')) by {
        let h = csv_header().drop_last();
        assert forall|k: int| 0 <= k < h.len() implies h[k] != '\n' by {}
    }
    lemma_newline_count_zero(csv_header().drop_last());
    lemma_newline_count_concat(csv_header(), csv_lines(rows, rows.len() as int));
    lemma_csv_lines_end(rows, rows.len() as int);
}

proof fn lemma_csv_lines_count(rows: Seq<ExportRow>, n: int)
    requires
        0 <= n <= rows.len(),
        forall|i: int| 0 <= i < rows.len() ==> row_is_single_line(#[trigger] rows[i]),
    ensures
        newline_count(csv_lines(rows, n)) == n,
    decreases n,
{
    if n > 0 {
        lemma_csv_lines_count(rows, n - 1);
        lemma_csv_line_one_break(rows[n - 1]);
        lemma_newline_count_concat(csv_lines(rows, n - 1), csv_line(rows[n - 1]));
    }
}

proof fn lemma_csv_lines_end(rows: Seq<ExportRow>, n: int)
    requires
        0 <= n <= rows.len(),
    ensures
        (csv_header() + csv_lines(rows, n)).last() == '\n',
    decreases n,
{
    reveal_strlit("filename,tags,marker,in,out\n");
    if n == 0 {
        assert(csv_header() + csv_lines(rows, 0) =~= csv_header());
    } else {
        let l = csv_line(rows[n - 1]);
        assert(l.last() == '\n');
        assert((csv_header() + csv_lines(rows, n)).last() == l.last());
    }
}

/// Whether an EDL can be built from the rows: every frame rate is defined and
/// the total record timeline fits the `u64` milliseconds the EDL builder counts in.
pub fn edl_rows_ready(rows: &[ExportRow]) -> (r: bool)
    ensures
        r == edl_ready(rows@),
{
    let mut record: u64 = 0;
    let mut i: usize = 0;
    while i < rows.len()
        invariant
            i <= rows@.len(),
            record as nat == record_start(rows@, i as int),
            forall|j: int| 0 <= j < i ==> (#[trigger] rows@[j]).fps.den > 0,
        decreases rows.len() - i,
    {
        if rows[i].fps.den == 0 {
            return false;
        }
        let d = range_duration(&rows[i]);
        if record > u64::MAX - d {
            proof {
                lemma_record_start_monotone(rows@, i + 1, rows@.len() as int);
            }
            return false;
        }
        record = record + d;
        i = i + 1;
    }
    true
}

/// The text is "num/den" in whole numbers: two runs of decimal digits around its
/// first '/', worth `rate.num` and `rate.den`.
pub open spec fn reads_as_whole_rate(text: Seq<char>, rate: FrameRate) -> bool {
    exists|i: int|
        0 <= i < text.len() && #[trigger] text[i] == '/' && is_digits(text.take(i)) && is_digits(
            text.skip(i + 1),
        ) && digits_value(text.take(i)) == rate.num && digits_value(text.skip(i + 1)) == rate.den
}

/// Reads a frame rate reported as a whole-number rational such as "25/1" or
/// "30000/1001" (ffprobe's `r_frame_rate`, already trimmed). `None` when the text
/// is not two runs of digits around a '/', or either term is zero or does not fit
/// in a `u32`; such texts are left to a reading in floating point.
pub fn whole_frame_rate(text: &str) -> (r: Option<FrameRate>)
    ensures
        match r {
            Some(rate) => rate.num > 0 && rate.den > 0 && reads_as_whole_rate(text@, rate),
            None => forall|rate: FrameRate|
                rate.num > 0 && rate.den > 0 ==> !#[trigger] reads_as_whole_rate(text@, rate),
        },
{
    let n = text.unicode_len();
    let mut i: usize = 0;
    while i < n && text.get_char(i) != '/'
        invariant
            i <= n == text@.len(),
            forall|j: int| 0 <= j < i ==> text@[j] != '/',
        decreases n - i,
    {
        i = i + 1;
    }
    proof {
        assert forall|k: int|
            0 <= k < text@.len() && #[trigger] text@[k] == '/' && is_digits(text@.take(k)) implies k
                == i by {
            if k > i {
                assert(text@.take(k)[i as int] == text@[i as int]);
            }
        }
    }
    if i == n {
        return None;
    }
    let num = parse_digits(text, 0, i);
    let den = parse_digits(text, i + 1, n);
    proof {
        assert(text@.subrange(0, i as int) =~= text@.take(i as int));
        assert(text@.subrange(i + 1, n as int) =~= text@.skip(i + 1));
    }
    match (num, den) {
        (Some(a), Some(b)) => {
            if a == 0 || b == 0 {
                None
            } else {
                let rate = FrameRate { num: a, den: b };
                assert(text@[i as int] == '/');
                Some(rate)
            }
        },
        _ => None,
    }
}

// ---------------------------------------------------------------------------
// Reading a CSV line back
// ---------------------------------------------------------------------------

/// How many double quotes `s` holds.
pub open spec fn quote_count(s: Seq<char>) -> nat
    decreases s.len(),
{
    if s.len() == 0 {
        0
    } else {
        quote_count(s.drop_last()) + if s.last() == '"' {
            1nat
        } else {
            0nat
        }
    }
}

/// A CSV reader splits a line at position `k`: a comma with an even number of
/// quotes before it, so outside any quoted field.
pub open spec fn is_field_break(s: Seq<char>, k: int) -> bool {
    0 <= k < s.len() && s[k] == ',' && quote_count(s.take(k)) % 2 == 0
}

/// What a CSV reader takes a field's text to mean: the text between its quotes
/// with doubled quotes collapsed, for a quoted field; the text itself otherwise.
pub open spec fn unquote(x: Seq<char>) -> Seq<char> {
    if x.len() >= 2 && x[0] == '"' && x.last() == '"' {
        collapse_quotes(x.subrange(1, x.len() - 1))
    } else {
        x
    }
}

/// A piece of a line that balances its quotes and holds no comma outside them.
pub open spec fn well_quoted(x: Seq<char>) -> bool {
    &&& quote_count(x) % 2 == 0
    &&& forall|j: int| 0 <= j < x.len() && #[trigger] x[j] == ',' ==> quote_count(x.take(j)) % 2 == 1
}

proof fn lemma_quote_count_concat(a: Seq<char>, b: Seq<char>)
    ensures
        quote_count(a + b) == quote_count(a) + quote_count(b),
    decreases b.len(),
{
    if b.len() > 0 {
        lemma_quote_count_concat(a, b.drop_last());
        assert((a + b).drop_last() =~= a + b.drop_last());
    } else {
        assert(a + b =~= a);
    }
}

proof fn lemma_quote_count_single(c: char)
    ensures
        quote_count(seq![c]) == if c == '"' {
            1nat
        } else {
            0nat
        },
{
    assert(seq![c].drop_last() =~= Seq::<char>::empty());
    assert(quote_count(Seq::<char>::empty()) == 0);
    assert(seq![c].last() == c);
}

proof fn lemma_quote_count_none(s: Seq<char>)
    requires
        !s.contains('"'),
    ensures
        quote_count(s) == 0,
    decreases s.len(),
{
    if s.len() > 0 {
        assert(s.drop_last().contains('"') ==> s.contains('"')) by {
            if s.drop_last().contains('"') {
                let j = choose|j: int| 0 <= j < s.drop_last().len() && s.drop_last()[j] == '"';
                assert(s[j] == '"');
            }
        }
        assert(s[s.len() - 1] != '"');
        lemma_quote_count_none(s.drop_last());
    }
}

/// Inside doubled text, every character other than a quote has an even number of
/// quotes before it, and the whole holds an even number.
proof fn lemma_doubled_quotes_balance(f: Seq<char>)
    ensures
        quote_count(double_quotes(f)) % 2 == 0,
        forall|j: int|
            0 <= j < double_quotes(f).len() && #[trigger] double_quotes(f)[j] != '"' ==> quote_count(
                double_quotes(f).take(j),
            ) % 2 == 0,
    decreases f.len(),
{
    if f.len() > 0 {
        let g = f.drop_last();
        lemma_doubled_quotes_balance(g);
        let d0 = double_quotes(g);
        let d = double_quotes(f);
        let tail: Seq<char> = if f.last() == '"' {
            seq!['"', '"']
        } else {
            seq![f.last()]
        };
        assert(d =~= d0 + tail);
        lemma_quote_count_concat(d0, tail);
        lemma_quote_count_single('"');
        lemma_quote_count_single(f.last());
        assert(seq!['"', '"'] =~= seq!['"'] + seq!['"']);
        lemma_quote_count_concat(seq!['"'], seq!['"']);
        assert forall|j: int| 0 <= j < d.len() && #[trigger] d[j] != '"' implies quote_count(d.take(j)) % 2
            == 0 by {
            if j < d0.len() {
                assert(d.take(j) =~= d0.take(j));
                assert(d[j] == d0[j]);
            } else {
                assert(j == d0.len());
                assert(d.take(j) =~= d0);
            }
        }
    }
}

/// Every CSV field the export writes is well quoted, and a reader gives back the
/// text it was written for.
proof fn lemma_csv_field_well_quoted(f: Seq<char>)
    ensures
        well_quoted(csv_field(f)),
        unquote(csv_field(f)) == f,
{
    let x = csv_field(f);
    if needs_quoting(f) {
        let d = double_quotes(f);
        lemma_doubled_quotes_balance(f);
        lemma_collapse_doubled(f);
        assert(x =~= seq!['"'] + d + seq!['"']);
        lemma_quote_count_concat(seq!['"'], d);
        lemma_quote_count_concat(seq!['"'] + d, seq!['"']);
        lemma_quote_count_single('"');
        assert(x[0] == '"');
        assert(x[x.len() - 1] == '"');
        assert forall|j: int| 0 <= j < x.len() && #[trigger] x[j] == ',' implies quote_count(x.take(j)) % 2
            == 1 by {
            assert(j != 0);
            assert(j != x.len() - 1);
            assert(x[j] == d[j - 1]);
            assert(d[j - 1] != '"');
            assert(x.take(j) =~= seq!['"'] + d.take(j - 1));
            lemma_quote_count_concat(seq!['"'], d.take(j - 1));
            assert(d[j - 1] == x[j]);
        }
        assert(x.subrange(1, x.len() - 1) =~= d);
    } else {
        lemma_quote_count_none(f);
        assert forall|j: int| 0 <= j < x.len() && #[trigger] x[j] == ',' implies quote_count(x.take(j)) % 2
            == 1 by {
            assert(f.contains(f[j]));
        }
        if f.len() >= 2 && f[0] == '"' {
            assert(f.contains(f[0]));
        }
    }
}

proof fn lemma_decimal_digits(n: nat)
    ensures
        forall|k: int| 0 <= k < decimal(n).len() ==> is_digit_char(#[trigger] decimal(n)[k]),
        decimal(n).len() > 0,
    decreases n,
{
    if n >= 10 {
        lemma_decimal_digits(n / 10);
        let d = decimal(n);
        assert forall|k: int| 0 <= k < d.len() implies is_digit_char(#[trigger] d[k]) by {
            if k < d.len() - 1 {
                assert(d[k] == decimal(n / 10)[k]);
            }
        }
    }
}

proof fn lemma_zero_padded_digits(n: nat, w: nat)
    ensures
        forall|k: int| 0 <= k < zero_padded(n, w).len() ==> is_digit_char(#[trigger] zero_padded(n, w)[k]),
        zero_padded(n, w).len() > 0,
{
    lemma_decimal_digits(n);
    let d = decimal(n);
    if d.len() < w {
        let z = Seq::new((w - d.len()) as nat, |i: int| '0');
        let p = z + d;
        assert forall|k: int| 0 <= k < p.len() implies is_digit_char(#[trigger] p[k]) by {
            if k >= z.len() {
                assert(p[k] == d[k - z.len()]);
            }
        }
    }
}

/// A written time holds no comma and no quote, and a reader takes it as it is.
proof fn lemma_hms_well_quoted(ms: nat)
    ensures
        well_quoted(hms(ms)),
        !hms(ms).contains(','),
        unquote(hms(ms)) == hms(ms),
{
    let (h, m, s, milli) = hms_parts(ms);
    lemma_zero_padded_digits(h, 2);
    lemma_zero_padded_digits(m, 2);
    lemma_zero_padded_digits(s, 2);
    lemma_zero_padded_digits(milli, 3);
    let a = zero_padded(h, 2);
    let b = zero_padded(m, 2);
    let c = zero_padded(s, 2);
    let d = zero_padded(milli, 3);
    let t = hms(ms);
    assert forall|k: int| 0 <= k < t.len() implies t[k] != ',' && t[k] != '"' by {
        if k < a.len() {
            assert(t[k] == a[k]);
        } else if k == a.len() {
        } else if k < a.len() + 1 + b.len() {
            assert(t[k] == b[k - a.len() - 1]);
        } else if k == a.len() + 1 + b.len() {
        } else if k < a.len() + 2 + b.len() + c.len() {
            assert(t[k] == c[k - a.len() - 2 - b.len()]);
        } else if k == a.len() + 2 + b.len() + c.len() {
        } else {
            assert(t[k] == d[k - a.len() - 3 - b.len() - c.len()]);
        }
    }
    assert(!t.contains('"'));
    lemma_quote_count_none(t);
    assert(t[0] == a[0]);
}

/// After a well-quoted piece and a comma, a reader splits exactly at that comma
/// and then where it would split the rest.
proof fn lemma_breaks_after_field(x: Seq<char>, rest: Seq<char>)
    requires
        well_quoted(x),
    ensures
        forall|k: int|
            #[trigger] is_field_break(x + seq![','] + rest, k) <==> (k == x.len() || (k > x.len()
                && is_field_break(rest, k - x.len() - 1))),
{
    let s = x + seq![','] + rest;
    assert forall|k: int| #[trigger] is_field_break(s, k) <==> (k == x.len() || (k > x.len()
        && is_field_break(rest, k - x.len() - 1))) by {
        if 0 <= k < x.len() {
            assert(s.take(k) =~= x.take(k));
            assert(s[k] == x[k]);
        } else if k == x.len() {
            assert(s.take(k) =~= x);
            assert(s[k] == ',');
        } else if k > x.len() && k < s.len() {
            let j = k - x.len() - 1;
            assert(s.take(k) =~= (x + seq![',']) + rest.take(j));
            lemma_quote_count_concat(x + seq![','], rest.take(j));
            lemma_quote_count_concat(x, seq![',']);
            lemma_quote_count_single(',');
            assert(s[k] == rest[j]);
        }
    }
}

/// Five pieces written as one CSV line: separated by commas, closed by a line break.
pub open spec fn five_fields(
    a: Seq<char>,
    b: Seq<char>,
    c: Seq<char>,
    d: Seq<char>,
    e: Seq<char>,
) -> Seq<char> {
    a + seq![','] + b + seq![','] + c + seq![','] + d + seq![','] + e + seq!['\n']
}

/// Five well-quoted pieces, the last without commas, are split at exactly the four
/// commas between them, and each piece is recovered whole.
proof fn lemma_five_fields_split(a: Seq<char>, b: Seq<char>, c: Seq<char>, d: Seq<char>, e: Seq<char>)
    requires
        well_quoted(a),
        well_quoted(b),
        well_quoted(c),
        well_quoted(d),
        !e.contains(','),
    ensures
        ({
            let line = five_fields(a, b, c, d, e);
            let p1 = a.len() as int;
            let p2 = p1 + 1 + b.len();
            let p3 = p2 + 1 + c.len();
            let p4 = p3 + 1 + d.len();
            &&& p4 < line.len() - 1
            &&& line.last() == '\n'
            &&& forall|k: int|
                #![trigger is_field_break(line, k)]
                is_field_break(line, k) <==> (k == p1 || k == p2 || k == p3 || k == p4)
            &&& line.subrange(0, p1) == a
            &&& line.subrange(p1 + 1, p2) == b
            &&& line.subrange(p2 + 1, p3) == c
            &&& line.subrange(p3 + 1, p4) == d
            &&& line.subrange(p4 + 1, line.len() - 1) == e
        }),
{
    let r4 = e + seq!['\n'];
    let r3 = d + seq![','] + r4;
    let r2 = c + seq![','] + r3;
    let r1 = b + seq![','] + r2;
    let line = five_fields(a, b, c, d, e);
    assert(line =~= a + seq![','] + r1);
    lemma_breaks_after_field(a, r1);
    lemma_breaks_after_field(b, r2);
    lemma_breaks_after_field(c, r3);
    lemma_breaks_after_field(d, r4);
    assert forall|k: int| !is_field_break(r4, k) by {
        if 0 <= k < r4.len() && r4[k] == ',' {
            if k < e.len() {
                assert(r4[k] == e[k]);
                assert(e.contains(e[k]));
            }
        }
    }
    let p1 = a.len() as int;
    let p2 = p1 + 1 + b.len();
    let p3 = p2 + 1 + c.len();
    let p4 = p3 + 1 + d.len();
    assert forall|k: int| #![trigger is_field_break(line, k)] is_field_break(line, k) <==> (k == p1
        || k == p2 || k == p3 || k == p4) by {
        assert(is_field_break(a + seq![','] + r1, k) == is_field_break(line, k));
        assert(is_field_break(r1, k - p1 - 1) == is_field_break(b + seq![','] + r2, k - p1 - 1));
        assert(is_field_break(r2, k - p2 - 1) == is_field_break(c + seq![','] + r3, k - p2 - 1));
        assert(is_field_break(r3, k - p3 - 1) == is_field_break(d + seq![','] + r4, k - p3 - 1));
        assert(!is_field_break(r4, k - p4 - 1));
    }
    assert(line.subrange(0, p1) =~= a);
    assert(line.subrange(p1 + 1, p2) =~= b);
    assert(line.subrange(p2 + 1, p3) =~= c);
    assert(line.subrange(p3 + 1, p4) =~= d);
    assert(line.subrange(p4 + 1, line.len() - 1) =~= e);
}

/// A reader splits `line` at exactly the positions `p1 < p2 < p3 < p4` before its
/// final character, and the five fields between them read as the row's file name,
/// tags joined with ";", marker label, in time and out time.
pub open spec fn splits_into_row_fields(
    line: Seq<char>,
    row: ExportRow,
    p1: int,
    p2: int,
    p3: int,
    p4: int,
) -> bool {
    &&& 0 <= p1 < p2 < p3 < p4 < line.len() - 1
    &&& forall|k: int|
        #![trigger is_field_break(line, k)]
        is_field_break(line, k) <==> (k == p1 || k == p2 || k == p3 || k == p4)
    &&& unquote(line.subrange(0, p1)) == row.filename@
    &&& unquote(line.subrange(p1 + 1, p2)) == joined(views(row.tags@), ";"@)
    &&& unquote(line.subrange(p2 + 1, p3)) == row.marker_label@
    &&& unquote(line.subrange(p3 + 1, p4)) == hms(clamp_ms(row.in_ms as int))
    &&& unquote(line.subrange(p4 + 1, line.len() - 1)) == hms(clamp_ms(row.out_ms as int))
}

/// Each CSV line reads back as exactly five fields: the line ends with its line
/// break, a reader splits it at exactly four commas (those outside quotes), and the
/// five fields read as the file name, the tags joined with ";", the marker label,
/// and the in and out times. A file name holding a comma, quote or line break is
/// therefore quoted, never split.
pub proof fn lemma_csv_line_reads_back(row: ExportRow)
    ensures
        csv_line(row).len() > 0,
        csv_line(row).last() == '\n',
        exists|p1: int, p2: int, p3: int, p4: int|
            #[trigger] splits_into_row_fields(csv_line(row), row, p1, p2, p3, p4),
{
    let a = csv_field(row.filename@);
    let b = csv_field(joined(views(row.tags@), ";"@));
    let c = csv_field(row.marker_label@);
    let d = hms(clamp_ms(row.in_ms as int));
    let e = hms(clamp_ms(row.out_ms as int));
    lemma_csv_field_well_quoted(row.filename@);
    lemma_csv_field_well_quoted(joined(views(row.tags@), ";"@));
    lemma_csv_field_well_quoted(row.marker_label@);
    lemma_hms_well_quoted(clamp_ms(row.in_ms as int));
    lemma_hms_well_quoted(clamp_ms(row.out_ms as int));
    let line = csv_line(row);
    assert(line == five_fields(a, b, c, d, e));
    lemma_five_fields_split(a, b, c, d, e);
    let p1 = a.len() as int;
    let p2 = p1 + 1 + b.len();
    let p3 = p2 + 1 + c.len();
    let p4 = p3 + 1 + d.len();
    assert(splits_into_row_fields(line, row, p1, p2, p3, p4));
}

} // verus!
