//! Path handling. Paths travel through the library as strings; joining them and
//! reading their extension is left to std's `Path`, whose documented behaviour
//! on ordinary components, the same on every platform, is stated here.
use vstd::prelude::*;

verus! {

/// A single ordinary path component: not empty, not "." or "..", and free of
/// separators and drive-prefix colons, so every platform reads it the same way.
pub open spec fn is_plain_component(part: Seq<char>) -> bool {
    &&& part.len() > 0
    &&& part != seq!['.']
    &&& part != seq!['.', '.']
    &&& !part.contains('/')
    &&& !part.contains('\\')
    &&& !part.contains(':')
}

/// A path separator on some platform: '/' everywhere, '\\' on Windows.
pub open spec fn is_sep(c: char) -> bool {
    c == '/' || c == '\\'
}

/// A bare drive such as "C:", onto which Windows joins without a separator.
pub open spec fn is_bare_drive(path: Seq<char>) -> bool {
    path.len() == 2 && path[1] == ':'
}

/// Two separators followed by '?': the start of a Windows verbatim path
/// ("\\?\..."), whose joins Windows normalizes and in which '/' does not separate.
pub open spec fn is_verbatim_like(path: Seq<char>) -> bool {
    path.len() >= 3 && is_sep(path[0]) && is_sep(path[1]) && path[2] == '?'
}

/// A base onto which std's `PathBuf::push` appends a plain component as it
/// stands, on every platform: anything but a bare drive or a verbatim path. This
/// takes in UNC bases such as "\\server\share", after which a separator is added
/// like after any other base that does not end in one.
pub open spec fn appends_plainly(path: Seq<char>) -> bool {
    !is_bare_drive(path) && !is_verbatim_like(path)
}

/// A base that still appends plainly however many plain components are joined
/// onto it: it also may not be a lone backslash or two separators alone, which a
/// join could turn into the start of a verbatim path.
pub open spec fn is_join_base(path: Seq<char>) -> bool {
    &&& appends_plainly(path)
    &&& path != seq!['\\']
    &&& !(path.len() == 2 && is_sep(path[0]) && is_sep(path[1]))
}

/// `r` is `base` with `part` appended as a new last component, as std's
/// `PathBuf::push` does on every platform for a base without a prefix: directly
/// after an empty base or one ending in '/'; after nothing or '/' when the base ends
/// in a backslash (a separator on Windows only); and otherwise after exactly one
/// separator, '/' or '\\' (the platform's own).
pub open spec fn is_join_of(r: Seq<char>, base: Seq<char>, part: Seq<char>) -> bool {
    if base.len() == 0 || base.last() == '/' {
        r == base + part
    } else if base.last() == '\\' {
        r == base + part || r == base + seq!['/'] + part
    } else {
        r == base + seq!['/'] + part || r == base + seq!['\\'] + part
    }
}

/// The text after the last '/' of a path (the whole path when it has none): its
/// file name where only '/' separates.
pub open spec fn after_last_slash(path: Seq<char>) -> Seq<char>
    decreases path.len(),
{
    if path.len() == 0 {
        path
    } else if path.last() == '/' {
        Seq::empty()
    } else {
        after_last_slash(path.drop_last()).push(path.last())
    }
}

/// The text after the last '/' or '\\' of a path: its file name where both separate.
pub open spec fn after_last_sep(path: Seq<char>) -> Seq<char>
    decreases path.len(),
{
    if path.len() == 0 {
        path
    } else if is_sep(path.last()) {
        Seq::empty()
    } else {
        after_last_sep(path.drop_last()).push(path.last())
    }
}

/// A file name: not empty, and not "." or "..".
pub open spec fn is_file_name(name: Seq<char>) -> bool {
    name.len() > 0 && name != seq!['.'] && name != seq!['.', '.']
}

/// A path without its trailing separators and trailing "." components, which
/// std's `Path::components` normalizes away, where both '/' and '\\' separate
/// (Windows).
pub open spec fn trim_sep(path: Seq<char>) -> Seq<char>
    decreases path.len(),
{
    if path.len() > 0 && is_sep(path.last()) {
        trim_sep(path.drop_last())
    } else if path.len() >= 2 && path.last() == '.' && is_sep(path[path.len() - 2]) {
        trim_sep(path.drop_last())
    } else {
        path
    }
}

/// The same where only '/' separates (every other platform).
pub open spec fn trim_slash(path: Seq<char>) -> Seq<char>
    decreases path.len(),
{
    if path.len() > 0 && path.last() == '/' {
        trim_slash(path.drop_last())
    } else if path.len() >= 2 && path.last() == '.' && path[path.len() - 2] == '/' {
        trim_slash(path.drop_last())
    } else {
        path
    }
}

/// The last component of a path where both '/' and '\\' separate.
pub open spec fn file_name_of(path: Seq<char>) -> Seq<char> {
    after_last_sep(trim_sep(path))
}

/// The last component of a path where only '/' separates.
pub open spec fn slash_file_name(path: Seq<char>) -> Seq<char> {
    after_last_slash(trim_slash(path))
}

/// A path that starts with two separators: a UNC path on Windows
/// ("\\server\share\..."), or a verbatim or device path.
pub open spec fn starts_with_two_seps(path: Seq<char>) -> bool {
    path.len() >= 2 && is_sep(path[0]) && is_sep(path[1])
}

/// A path starting with two separators whose last component std finds after its
/// last separator on every platform: not a verbatim ("\\?...") or device
/// ("\\....") path, and with at least two more separators, so that any
/// "\\server\share" prefix Windows reads at its start ends before the file name.
pub open spec fn is_unc_file_path(path: Seq<char>) -> bool {
    &&& starts_with_two_seps(path)
    &&& path.len() >= 3
    &&& path[2] != '?'
    &&& path[2] != '.'
    &&& exists|i: int, j: int|
        2 <= i < j < path.len() && #[trigger] is_sep(path[i]) && #[trigger] is_sep(path[j])
}

/// A path whose file name std finds as its last component on every platform, once
/// trailing separators and "." components are set aside: that component is a file
/// name whichever separators count, and the path is either UNC-style as above or
/// has no such start and is not drive-relative without separators (such as "C:x",
/// whose name Windows reads after the drive).
pub open spec fn is_portable_file_path(path: Seq<char>) -> bool {
    let t = trim_sep(path);
    &&& is_file_name(file_name_of(path))
    &&& is_file_name(slash_file_name(path))
    &&& if starts_with_two_seps(t) {
        is_unc_file_path(t)
    } else {
        !(!t.contains('/') && !t.contains('\\') && t.len() >= 2 && t[1] == ':')
    }
}

/// Index of the last '.' in `name`, or -1 when there is none.
pub open spec fn last_dot_in(name: Seq<char>) -> int
    decreases name.len(),
{
    if name.len() == 0 {
        -1
    } else if name.last() == '.' {
        name.len() - 1
    } else {
        last_dot_in(name.drop_last())
    }
}

/// The extension std's `Path::extension` documents for a file name: none without
/// an embedded '.', none for a name that starts with its only '.', else the part
/// after the last '.'.
pub open spec fn name_extension(name: Seq<char>) -> Option<Seq<char>> {
    let d = last_dot_in(name);
    if d <= 0 {
        None
    } else {
        Some(name.skip(d + 1))
    }
}

/// The stem std's `Path::file_stem` documents for a file name: the whole name
/// without an embedded '.' or when its only '.' starts it, else the part before
/// the last '.'.
pub open spec fn name_stem(name: Seq<char>) -> Seq<char> {
    let d = last_dot_in(name);
    if d <= 0 {
        name
    } else {
        name.take(d)
    }
}

/// A join base stays a join base when a plain component is joined onto it, and the
/// result ends with that component.
pub proof fn lemma_join_keeps_base(r: Seq<char>, base: Seq<char>, part: Seq<char>)
    requires
        is_join_base(base),
        is_plain_component(part),
        is_join_of(r, base, part),
    ensures
        is_join_base(r),
        r.len() > 0,
        !is_sep(r.last()),
{
    let glue: Seq<char> = if r == base + part {
        part
    } else if r == base + seq!['/'] + part {
        seq!['/'] + part
    } else {
        seq!['\\'] + part
    };
    assert(r == base + glue);
    assert(glue.len() >= part.len() && glue.last() == part.last());
    assert(r.last() == part.last());
    assert(part.contains(part[0]));
    assert(part.contains(part[part.len() - 1]));
    assert(!is_sep(part[0]) && part[0] != ':');
    assert(!is_sep(part.last()));
    assert(glue.len() == part.len() ==> glue == part);
    if part.len() >= 2 {
        assert(part.contains(part[1]));
    }
    if base.len() >= 3 {
        assert(r[0] == base[0] && r[1] == base[1] && r[2] == base[2]);
    } else if base.len() == 2 {
        assert(r[0] == base[0] && r[1] == base[1]);
    } else if base.len() == 1 {
        assert(r[0] == base[0]);
        assert(base[0] != '\\') by {
            if base[0] == '\\' {
                assert(base =~= seq!['\\']);
            }
        }
        if base[0] == '/' {
            assert(glue == part);
            assert(r[1] == part[0]);
        }
        if r.len() == 2 {
            assert(glue.len() == 1);
            assert(glue == part);
            assert(r[1] == part[0]);
        }
    } else {
        assert(r =~= part);
    }
    assert(r != seq!['\\']) by {
        if r == seq!['\\'] {
            assert(r.last() == '\\');
        }
    }
}

/// Every component of a list is plain.
pub open spec fn all_plain(parts: Seq<Seq<char>>) -> bool {
    forall|i: int| 0 <= i < parts.len() ==> is_plain_component(#[trigger] parts[i])
}

/// `r` ends with `parts` laid down in turn with one separator between each two:
/// the last part closes `r`, a separator stands just before it, and what comes
/// before that separator ends the same way with the earlier parts (the first part
/// may follow anything).
pub open spec fn ends_with_parts(r: Seq<char>, parts: Seq<Seq<char>>) -> bool
    decreases parts.len(),
{
    if parts.len() == 0 {
        true
    } else {
        let p = parts.last();
        let k = r.len() - p.len();
        &&& k >= 0
        &&& r.subrange(k, r.len() as int) == p
        &&& (parts.len() > 1 ==> k >= 1 && is_sep(r[k - 1]) && ends_with_parts(
            r.take(k - 1),
            parts.drop_last(),
        ))
    }
}

/// Joins `part` onto `base` with std's `Path::join`, whose `PathBuf::push` extends
/// the base with the component. For a plain component and any base the component
/// closes the result, and plain components that closed the base, one separator
/// apart, stay in place before it after one separator (Windows rebuilds a verbatim
/// base, removing only "." and ".." references and doubled separators). For a
/// base that is neither a bare drive nor a verbatim path (UNC bases included) the
/// result is exactly the base, a separator when the base does not already end in
/// one, and the component. Other joins (absolute parts, "..") are not described.
#[verifier::external_body]
pub(crate) fn join_path(base: &str, part: &str) -> (r: String)
    ensures
        appends_plainly(base@) && is_plain_component(part@) ==> is_join_of(r@, base@, part@),
        is_plain_component(part@) ==> ends_with_parts(r@, seq![part@]),
        forall|earlier: Seq<Seq<char>>|
            #![trigger ends_with_parts(base@, earlier)]
            earlier.len() > 0 && all_plain(earlier) && is_plain_component(part@) && ends_with_parts(
                base@,
                earlier,
            ) ==> ends_with_parts(r@, earlier.push(part@)),
{
    std::path::Path::new(base).join(part).to_string_lossy().into_owned()
}

/// The extension of a path, through std's `Path::extension`. For a portable file
/// path (UNC paths with a file name after the share, and paths closed by
/// separators or "." components, included) whose name gives the same extension
/// whether or not '\\' separates, the result is what std documents for that name; verbatim and device paths, and names read differently by the
/// two separators, are not described here.
#[verifier::external_body]
pub(crate) fn path_extension(path: &str) -> (r: Option<String>)
    ensures
        is_portable_file_path(path@) && name_extension(slash_file_name(path@)) == name_extension(
            file_name_of(path@),
        ) ==> match r {
            Some(e) => name_extension(file_name_of(path@)) == Some(e@),
            None => name_extension(file_name_of(path@)) is None,
        },
{
    std::path::Path::new(path).extension().map(|e| e.to_string_lossy().into_owned())
}

/// The file stem of a path, through std's `Path::file_stem`. For a portable file
/// path (UNC paths with a file name after the share, and paths closed by
/// separators or "." components, included) whose name gives the same stem whether
/// or not '\\' separates, the result is what std documents for that name; verbatim and device paths, and names read differently by the two
/// separators, are not described here.
#[verifier::external_body]
pub(crate) fn path_file_stem(path: &str) -> (r: Option<String>)
    ensures
        is_portable_file_path(path@) && name_stem(slash_file_name(path@)) == name_stem(
            file_name_of(path@),
        ) ==> match r {
            Some(s) => s@ == name_stem(file_name_of(path@)),
            None => false,
        },
{
    std::path::Path::new(path).file_stem().map(|e| e.to_string_lossy().into_owned())
}

} // verus!
