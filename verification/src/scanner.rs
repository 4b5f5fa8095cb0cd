//! Decides which files of a library are video clips and fingerprints each one
//! from its size and the first few MB of its content.
use vstd::prelude::*;
use sha2::Digest;
use crate::paths::{file_name_of, slash_file_name, is_portable_file_path, name_extension, path_extension};
use crate::text::{push_char, str_eq};

verus! {

/// How many bytes of a file are hashed. Hashing whole multi-GB masters on every
/// scan would be far too slow; the first few MB plus the total size is enough to
/// tell distinct clips apart while staying fast on network/synced drives.
pub const HASH_SAMPLE_BYTES: u64 = 4194304;

/// A video file found by a scan.
pub struct ScannedFile {
    pub path: String,
    pub filename: String,
    pub size: u64,
    pub mtime: i64,
    pub content_hash: String,
}

/// The result of std's `str::to_lowercase` on a string: the Unicode lowercase
/// mapping of its characters.
pub uninterp spec fn lowercase(s: Seq<char>) -> Seq<char>;

/// Whether every character of a text is ASCII.
pub open spec fn is_ascii_text(s: Seq<char>) -> bool {
    forall|i: int| 0 <= i < s.len() ==> (#[trigger] s[i] as u32) < 128
}

/// The lower case of an ASCII character: 'A'..='Z' become 'a'..='z', every other
/// character stays as it is.
pub open spec fn ascii_lower_char(c: char) -> char {
    if 65 <= (c as u32) <= 90 {
        ((c as u32) + 32) as char
    } else {
        c
    }
}

/// The lower case of a text as std's `str::to_lowercase` gives it: character by
/// character for ASCII text, and the named Unicode mapping otherwise.
pub open spec fn text_lower(s: Seq<char>) -> Seq<char> {
    if is_ascii_text(s) {
        s.map_values(|c: char| ascii_lower_char(c))
    } else {
        lowercase(s)
    }
}

/// Lower-cases a string with std's `str::to_lowercase`. The result is named
/// `lowercase`; the Unicode mapping is not written out here beyond ASCII, where
/// Unicode lower-cases exactly 'A'..='Z' to 'a'..='z' and leaves the rest.
#[verifier::external_body]
fn to_lowercase(s: &str) -> (r: String)
    ensures
        r@ == lowercase(s@),
        is_ascii_text(s@) ==> r@ == s@.map_values(|c: char| ascii_lower_char(c)),
{
    s.to_lowercase()
}

/// The SHA-256 digest of a byte sequence.
pub uninterp spec fn sha256(data: Seq<u8>) -> Seq<u8>;

/// Hashes `data` with the `sha2` crate's `Sha256::digest`. The digest is named
/// `sha256`; its output is 32 bytes long (the crate's `U32` output size).
#[verifier::external_body]
fn sha256_digest(data: &[u8]) -> (r: Vec<u8>)
    ensures
        r@ == sha256(data@),
        r@.len() == 32,
{
    sha2::Sha256::digest(data).to_vec()
}

/// The extensions (in lower case) of the files a scan treats as video.
pub open spec fn is_video_extension_lower(ext: Seq<char>) -> bool {
    ext == "mp4"@ || ext == "mov"@ || ext == "mxf"@ || ext == "avi"@
}

/// Whether an extension already in lower case is one a scan treats as video:
/// exactly mp4, mov, mxf or avi.
pub fn is_lowercase_video_extension(lower: &str) -> (r: bool)
    ensures
        r == is_video_extension_lower(lower@),
{
    str_eq(lower, "mp4") || str_eq(lower, "mov") || str_eq(lower, "mxf") || str_eq(lower, "avi")
}

/// Whether a file extension marks a video file: mp4, mov, mxf or avi, in any case.
pub fn is_video_extension(ext: &str) -> (r: bool)
    ensures
        r == is_video_extension_lower(text_lower(ext@)),
{
    let lower = to_lowercase(ext);
    is_lowercase_video_extension(lower.as_str())
}

/// Whether a path names a video file, judged by its extension.
pub fn is_video_file(path: &str) -> (r: bool)
    ensures
        is_portable_file_path(path@) && name_extension(slash_file_name(path@)) == name_extension(
            file_name_of(path@),
        ) ==> (r <==> match name_extension(file_name_of(path@)) {
            Some(e) => is_video_extension_lower(text_lower(e)),
            None => false,
        }),
{
    match path_extension(path) {
        Some(e) => is_video_extension(e.as_str()),
        None => false,
    }
}

/// Whether a path has a component that starts with '.', such as the `.metadata`
/// sidecar folder or any other hidden folder; scans skip such paths.
pub open spec fn has_hidden(components: Seq<Seq<char>>) -> bool {
    exists|i: int| 0 <= i < components.len() && #[trigger] components[i].len() > 0 && components[i][0] == '.'
}

/// Whether any of a path's components (as std's `Path::components` yields them)
/// starts with '.'.
pub fn has_hidden_component(components: &Vec<String>) -> (r: bool)
    ensures
        r == has_hidden(crate::text::views(components@)),
{
    let ghost cv = crate::text::views(components@);
    let mut i: usize = 0;
    while i < components.len()
        invariant
            i <= components@.len(),
            cv == crate::text::views(components@),
            forall|j: int| 0 <= j < i ==> !(#[trigger] cv[j].len() > 0 && cv[j][0] == '.'),
        decreases components.len() - i,
    {
        let c = components[i].as_str();
        if c.unicode_len() > 0 && c.get_char(0) == '.' {
            assert(cv[i as int] == components@[i as int]@);
            return true;
        }
        i = i + 1;
    }
    false
}

/// The eight little-endian bytes of `n` (`u64::to_le_bytes`), generalised to `k` bytes.
pub open spec fn le_bytes(n: nat, k: nat) -> Seq<u8>
    decreases k,
{
    if k == 0 {
        Seq::empty()
    } else {
        seq![(n % 256) as u8] + le_bytes(n / 256, (k - 1) as nat)
    }
}

/// The lower-case hexadecimal digit for `d` (0..=15).
pub open spec fn hex_digit(d: nat) -> char {
    if d < 10 {
        crate::text::digit_char(d)
    } else if d == 10 { 'a' }
    else if d == 11 { 'b' }
    else if d == 12 { 'c' }
    else if d == 13 { 'd' }
    else if d == 14 { 'e' }
    else { 'f' }
}

/// Bytes written as two lower-case hex digits each (`{:02x}` per byte).
pub open spec fn hex(bytes: Seq<u8>) -> Seq<char>
    decreases bytes.len(),
{
    if bytes.len() == 0 {
        Seq::empty()
    } else {
        hex(bytes.drop_last()) + seq![hex_digit((bytes.last() / 16) as nat), hex_digit((bytes.last() % 16) as nat)]
    }
}

/// The fingerprint of a file: SHA-256 over its sampled prefix followed by its size
/// as eight little-endian bytes, written in lower-case hex.
pub open spec fn fingerprint(prefix: Seq<u8>, size: u64) -> Seq<char> {
    hex(sha256(prefix + le_bytes(size as nat, 8)))
}

fn hex_char(d: u8) -> (c: char)
    requires
        d < 16,
    ensures
        c == hex_digit(d as nat),
{
    if d < 10 {
        if d == 0 { '0' }
        else if d == 1 { '1' }
        else if d == 2 { '2' }
        else if d == 3 { '3' }
        else if d == 4 { '4' }
        else if d == 5 { '5' }
        else if d == 6 { '6' }
        else if d == 7 { '7' }
        else if d == 8 { '8' }
        else { '9' }
    } else if d == 10 { 'a' }
    else if d == 11 { 'b' }
    else if d == 12 { 'c' }
    else if d == 13 { 'd' }
    else if d == 14 { 'e' }
    else { 'f' }
}

/// Writes bytes as lower-case hex.
pub fn to_hex(bytes: &Vec<u8>) -> (r: String)
    ensures
        r@ == hex(bytes@),
{
    let mut out = String::new();
    let mut i: usize = 0;
    while i < bytes.len()
        invariant
            i <= bytes@.len(),
            out@ == hex(bytes@.take(i as int)),
        decreases bytes.len() - i,
    {
        let b = bytes[i];
        push_char(&mut out, hex_char(b / 16));
        push_char(&mut out, hex_char(b % 16));
        let ghost t = bytes@.take(i + 1);
        assert(t.drop_last() =~= bytes@.take(i as int));
        assert(t.last() == b);
        i = i + 1;
        assert(out@ =~= hex(bytes@.take(i as int)));
    }
    assert(bytes@.take(bytes@.len() as int) =~= bytes@);
    out
}

/// Computes a file's content fingerprint from its sampled prefix and total size.
pub fn content_hash(prefix: &[u8], size: u64) -> (r: String)
    ensures
        r@ == fingerprint(prefix@, size),
        r@.len() == 64,
        forall|k: int| 0 <= k < 64 ==> ('0' <= #[trigger] r@[k] <= '9' || 'a' <= r@[k] <= 'f'),
{
    let mut data: Vec<u8> = Vec::new();
    let mut i: usize = 0;
    while i < prefix.len()
        invariant
            i <= prefix@.len(),
            data@ == prefix@.take(i as int),
        decreases prefix.len() - i,
    {
        data.push(prefix[i]);
        i = i + 1;
        assert(data@ =~= prefix@.take(i as int));
    }
    assert(data@ =~= prefix@);
    let mut x: u64 = size;
    let mut k: usize = 0;
    while k < 8
        invariant
            k <= 8,
            data@ + le_bytes(x as nat, (8 - k) as nat) == prefix@ + le_bytes(size as nat, 8),
        decreases 8 - k,
    {
        let ghost before = data@;
        let ghost rest = le_bytes(x as nat, (8 - k) as nat);
        assert(rest == seq![(x % 256) as u8] + le_bytes((x / 256) as nat, (8 - k - 1) as nat));
        data.push((x % 256) as u8);
        x = x / 256;
        k = k + 1;
        assert(data@ + le_bytes(x as nat, (8 - k) as nat) =~= before + rest);
    }
    assert(le_bytes(x as nat, 0) =~= Seq::<u8>::empty());
    assert(data@ =~= prefix@ + le_bytes(size as nat, 8));
    let digest = sha256_digest(data.as_slice());
    proof {
        lemma_hex_shape(digest@);
    }
    to_hex(&digest)
}

// ---------------------------------------------------------------------------
// Laws
// ---------------------------------------------------------------------------

/// Hex text is twice as long as the bytes and uses only 0-9 and a-f.
pub proof fn lemma_hex_shape(bytes: Seq<u8>)
    ensures
        hex(bytes).len() == 2 * bytes.len(),
        forall|k: int|
            0 <= k < hex(bytes).len() ==> ('0' <= #[trigger] hex(bytes)[k] <= '9' || 'a' <= hex(
                bytes,
            )[k] <= 'f'),
    decreases bytes.len(),
{
    if bytes.len() > 0 {
        let r = hex(bytes.drop_last());
        lemma_hex_shape(bytes.drop_last());
        assert forall|k: int| 0 <= k < r.len() implies hex(bytes)[k] == r[k] by {}
    }
}

/// Exactly four extensions mark video: mp4, mov, mxf and avi. Every other
/// extension (audio such as mp3 or wav, images such as jpg, anything else) does not.
pub proof fn lemma_video_extensions_exactly(ext: Seq<char>)
    ensures
        is_video_extension_lower(ext) <==> (ext == "mp4"@ || ext == "mov"@ || ext == "mxf"@ || ext
            == "avi"@),
{
}

} // verus!
