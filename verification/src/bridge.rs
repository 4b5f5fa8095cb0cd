//! The client side of the `Videe.lua` bridge script that runs inside DaVinci
//! Resolve: where it listens, how its answers and failures are read, and where the
//! script is installed. The HTTP exchange itself is done by the application.
use vstd::prelude::*;
use crate::paths::{
    all_plain, ends_with_parts, is_join_base, is_join_of, is_plain_component, join_path, lemma_join_keeps_base,
};
use crate::text::{decimal, push_decimal};
use std::path::PathBuf;

verus! {

/// Arbitrary, but fixed and documented so a user hitting a conflict (some other
/// local tool bound to the same port) has something concrete to search for.
pub const PORT: u16 = 51735;

/// Why a request to the bridge failed.
pub enum BridgeError {
    /// Nothing is listening on the port -- the Lua script isn't running.
    NotRunning,
    /// Connected, but Resolve/the script didn't respond in time.
    Timeout,
    /// The script responded, but the Resolve-side operation itself failed
    /// (e.g. no project open, import rejected) -- carries the script's message.
    ResolveError(String),
    /// Anything else (malformed response, unexpected status, etc).
    Other(String),
}

/// The URL the bridge script serves.
pub open spec fn endpoint_url() -> Seq<char> {
    "http://127.0.0.1:"@ + decimal(PORT as nat) + seq!['/']
}

/// The URL the bridge script serves: `http://127.0.0.1:<PORT>/`.
pub fn endpoint() -> (r: String)
    ensures
        r@ == endpoint_url(),
{
    let mut out = String::from_str("http://127.0.0.1:");
    push_decimal(&mut out, PORT as u128);
    crate::text::push_char(&mut out, '/');
    out
}

/// The text shown for each bridge failure.
pub open spec fn bridge_message(e: BridgeError) -> Seq<char> {
    match e {
        BridgeError::NotRunning => "DaVinci Resolve isn't running the Videee bridge script. In Resolve: Workspace \u{2192} Scripts \u{2192} Utility \u{2192} Videe."@,
        BridgeError::Timeout => "DaVinci Resolve didn't respond in time. Is it busy?"@,
        BridgeError::ResolveError(msg) => msg@,
        BridgeError::Other(msg) => msg@,
    }
}

impl BridgeError {
    /// The human-readable message of the failure.
    pub fn message(&self) -> (r: String)
        ensures
            r@ == bridge_message(*self),
    {
        match self {
            BridgeError::NotRunning => String::from_str(
                "DaVinci Resolve isn't running the Videee bridge script. In Resolve: Workspace \u{2192} Scripts \u{2192} Utility \u{2192} Videe.",
            ),
            BridgeError::Timeout => String::from_str("DaVinci Resolve didn't respond in time. Is it busy?"),
            BridgeError::ResolveError(msg) => msg.clone(),
            BridgeError::Other(msg) => msg.clone(),
        }
    }

    /// Classifies a failed HTTP request: no connection means the script isn't
    /// running, a timeout means Resolve didn't answer, anything else is carried
    /// with its description.
    pub fn from_request_failure(is_connect: bool, is_timeout: bool, description: String) -> (r:
        Self)
        ensures
            is_connect ==> r is NotRunning,
            !is_connect && is_timeout ==> r is Timeout,
            !is_connect && !is_timeout ==> r == BridgeError::Other(description),
    {
        if is_connect {
            BridgeError::NotRunning
        } else if is_timeout {
            BridgeError::Timeout
        } else {
            BridgeError::Other(description)
        }
    }

    /// The failure for a reply that could not be read as a bridge response.
    pub fn unexpected_response(detail: &str) -> (r: Self)
        ensures
            r matches BridgeError::Other(m) && m@ == "unexpected response from Resolve bridge: "@
                + detail@,
    {
        let mut m = String::from_str("unexpected response from Resolve bridge: ");
        m.append(detail);
        BridgeError::Other(m)
    }
}

/// The result of an import request, from the bridge's `ok` flag and optional error
/// text: success exactly when `ok` is set; otherwise Resolve's own message, or a
/// generic one when the script gave none.
pub fn import_outcome(ok: bool, error: Option<String>) -> (r: Result<(), BridgeError>)
    ensures
        ok <==> r is Ok,
        !ok ==> match error {
            Some(e) => r == Err::<(), BridgeError>(BridgeError::ResolveError(e)),
            None => r matches Err(BridgeError::ResolveError(m)) && m@
                == "Resolve rejected the import"@,
        },
{
    if ok {
        Ok(())
    } else {
        match error {
            Some(e) => Err(BridgeError::ResolveError(e)),
            None => Err(BridgeError::ResolveError(String::from_str("Resolve rejected the import"))),
        }
    }
}

/// The operating-system families whose Resolve script folders differ.
pub enum Platform {
    Windows,
    MacOs,
    Other,
}

/// The folders, under the OS's application data directory, leading to the
/// installed script, ending with the script's own file name.
pub open spec fn script_components(p: Platform) -> Seq<Seq<char>> {
    match p {
        Platform::Windows => seq![
            "Blackmagic Design"@,
            "DaVinci Resolve"@,
            "Support"@,
            "Fusion"@,
            "Scripts"@,
            "Utility"@,
            "Videe.lua"@,
        ],
        Platform::MacOs => seq![
            "Blackmagic Design"@,
            "DaVinci Resolve"@,
            "Fusion"@,
            "Scripts"@,
            "Utility"@,
            "Videe.lua"@,
        ],
        Platform::Other => seq!["DaVinciResolve"@, "Fusion"@, "Scripts"@, "Utility"@, "Videe.lua"@],
    }
}

/// `r` is `base` with each of `parts` appended in turn as a path component.
pub open spec fn is_path_chain(r: Seq<char>, base: Seq<char>, parts: Seq<Seq<char>>) -> bool
    decreases parts.len(),
{
    if parts.len() == 0 {
        r == base
    } else {
        exists|d: Seq<char>| is_path_chain(d, base, parts.drop_last()) && #[trigger] is_join_of(
            r,
            d,
            parts.last(),
        )
    }
}

proof fn lemma_literal_plain(s: Seq<char>)
    requires
        s.len() > 2,
        forall|k: int| 0 <= k < s.len() ==> #[trigger] s[k] != '/' && s[k] != '\\' && s[k] != ':',
    ensures
        is_plain_component(s),
{
    assert(s != seq!['.']) by {
        assert(seq!['.'].len() == 1);
    }
    assert(s != seq!['.', '.']) by {
        assert(seq!['.', '.'].len() == 2);
    }
}

proof fn lemma_script_components_plain(p: Platform)
    ensures
        forall|i: int|
            0 <= i < script_components(p).len() ==> is_plain_component(
                #[trigger] script_components(p)[i],
            ),
{
    reveal_strlit("Blackmagic Design");
    reveal_strlit("DaVinci Resolve");
    reveal_strlit("Support");
    reveal_strlit("Fusion");
    reveal_strlit("Scripts");
    reveal_strlit("Utility");
    reveal_strlit("Videe.lua");
    reveal_strlit("DaVinciResolve");
    lemma_literal_plain("Blackmagic Design"@);
    lemma_literal_plain("DaVinci Resolve"@);
    lemma_literal_plain("Support"@);
    lemma_literal_plain("Fusion"@);
    lemma_literal_plain("Scripts"@);
    lemma_literal_plain("Utility"@);
    lemma_literal_plain("Videe.lua"@);
    lemma_literal_plain("DaVinciResolve"@);
}

/// Appends one component to `path` and keeps the chain description.
fn push_component(path: String, part: &str, Ghost(base): Ghost<Seq<char>>, Ghost(parts): Ghost<
    Seq<Seq<char>>>) -> (r: String)
    requires
        is_join_base(base) ==> is_path_chain(path@, base, parts) && is_join_base(path@),
        is_plain_component(part@),
        all_plain(parts),
        parts.len() > 0 ==> ends_with_parts(path@, parts),
    ensures
        is_join_base(base) ==> is_path_chain(r@, base, parts.push(part@)) && is_join_base(r@),
        ends_with_parts(r@, parts.push(part@)),
{
    let r = join_path(path.as_str(), part);
    proof {
        if parts.len() == 0 {
            assert(parts.push(part@) =~= seq![part@]);
        } else {
            assert(ends_with_parts(path@, parts));
        }
        if is_join_base(base) {
            lemma_join_keeps_base(r@, path@, part@);
            assert(parts.push(part@).drop_last() =~= parts);
            assert(is_join_of(r@, path@, parts.push(part@).last()));
        }
    }
    r
}

/// Where the bridge script is installed under the given application data directory:
/// each folder, then the script's file name, joined on after one separator. Whatever
/// the directory, the result closes with those components one separator apart.
pub fn script_install_path(data_dir: &str, platform: &Platform) -> (r: String)
    ensures
        is_join_base(data_dir@) ==> is_path_chain(r@, data_dir@, script_components(*platform)),
        ends_with_parts(r@, script_components(*platform)),
{
    proof {
        lemma_script_components_plain(*platform);
    }
    let ghost comps = script_components(*platform);
    assert forall|k: int| 0 <= k <= comps.len() implies all_plain(#[trigger] comps.take(k)) by {
        assert forall|i: int| 0 <= i < comps.take(k).len() implies is_plain_component(
            #[trigger] comps.take(k)[i],
        ) by {
            assert(comps.take(k)[i] == comps[i]);
        }
    }
    let mut path = String::from_str(data_dir);
    assert(is_path_chain(path@, data_dir@, comps.take(0)));
    match platform {
        Platform::Windows => {
            path = push_component(path, "Blackmagic Design", Ghost(data_dir@), Ghost(comps.take(0)));
            assert(comps.take(0).push(comps[0]) =~= comps.take(1));
            path = push_component(path, "DaVinci Resolve", Ghost(data_dir@), Ghost(comps.take(1)));
            assert(comps.take(1).push(comps[1]) =~= comps.take(2));
            path = push_component(path, "Support", Ghost(data_dir@), Ghost(comps.take(2)));
            assert(comps.take(2).push(comps[2]) =~= comps.take(3));
            path = push_component(path, "Fusion", Ghost(data_dir@), Ghost(comps.take(3)));
            assert(comps.take(3).push(comps[3]) =~= comps.take(4));
            path = push_component(path, "Scripts", Ghost(data_dir@), Ghost(comps.take(4)));
            assert(comps.take(4).push(comps[4]) =~= comps.take(5));
            path = push_component(path, "Utility", Ghost(data_dir@), Ghost(comps.take(5)));
            assert(comps.take(5).push(comps[5]) =~= comps.take(6));
            path = push_component(path, "Videe.lua", Ghost(data_dir@), Ghost(comps.take(6)));
            assert(comps.take(6).push(comps[6]) =~= comps);
        },
        Platform::MacOs => {
            path = push_component(path, "Blackmagic Design", Ghost(data_dir@), Ghost(comps.take(0)));
            assert(comps.take(0).push(comps[0]) =~= comps.take(1));
            path = push_component(path, "DaVinci Resolve", Ghost(data_dir@), Ghost(comps.take(1)));
            assert(comps.take(1).push(comps[1]) =~= comps.take(2));
            path = push_component(path, "Fusion", Ghost(data_dir@), Ghost(comps.take(2)));
            assert(comps.take(2).push(comps[2]) =~= comps.take(3));
            path = push_component(path, "Scripts", Ghost(data_dir@), Ghost(comps.take(3)));
            assert(comps.take(3).push(comps[3]) =~= comps.take(4));
            path = push_component(path, "Utility", Ghost(data_dir@), Ghost(comps.take(4)));
            assert(comps.take(4).push(comps[4]) =~= comps.take(5));
            path = push_component(path, "Videe.lua", Ghost(data_dir@), Ghost(comps.take(5)));
            assert(comps.take(5).push(comps[5]) =~= comps);
        },
        Platform::Other => {
            path = push_component(path, "DaVinciResolve", Ghost(data_dir@), Ghost(comps.take(0)));
            assert(comps.take(0).push(comps[0]) =~= comps.take(1));
            path = push_component(path, "Fusion", Ghost(data_dir@), Ghost(comps.take(1)));
            assert(comps.take(1).push(comps[1]) =~= comps.take(2));
            path = push_component(path, "Scripts", Ghost(data_dir@), Ghost(comps.take(2)));
            assert(comps.take(2).push(comps[2]) =~= comps.take(3));
            path = push_component(path, "Utility", Ghost(data_dir@), Ghost(comps.take(3)));
            assert(comps.take(3).push(comps[3]) =~= comps.take(4));
            path = push_component(path, "Videe.lua", Ghost(data_dir@), Ghost(comps.take(4)));
            assert(comps.take(4).push(comps[4]) =~= comps);
        },
    }
    path
}

#[verifier::external_type_specification]
#[verifier::external_body]
pub struct ExPathBuf(std::path::PathBuf);

/// A path as the OS gives it: its text when it is valid UTF-8, else the native
/// path value itself, carried unchanged.
#[derive(Debug, PartialEq, Eq)]
pub enum OsPath {
    Text(String),
    Native(PathBuf),
}

/// The OS's per-user application data directory, from the `dirs` crate's
/// `data_dir`. It depends on the OS and the user's environment, so nothing is
/// stated of it.
#[verifier::external_body]
fn data_dir() -> Option<PathBuf> {
    dirs::data_dir()
}

/// The text of a native path, through std's `Path::to_str`: `None` when it is not
/// valid UTF-8. A native path is opaque here, so nothing is stated of the text.
#[verifier::external_body]
fn path_text(p: &PathBuf) -> Option<String> {
    p.to_str().map(|s| s.to_string())
}

/// Joins a component onto a native path with std's `Path::join`. A native path is
/// opaque here, so nothing is stated of the result.
#[verifier::external_body]
fn join_native(base: &PathBuf, part: &str) -> PathBuf {
    base.join(part)
}

/// A native path as an `OsPath`: its text when it has one, else itself.
fn os_path_of(p: PathBuf) -> OsPath {
    match path_text(&p) {
        Some(t) => OsPath::Text(t),
        None => OsPath::Native(p),
    }
}

/// How many components `script_components` has for a platform.
fn script_component_count(platform: &Platform) -> (r: usize)
    ensures
        r == script_components(*platform).len(),
{
    match platform {
        Platform::Windows => 7,
        Platform::MacOs => 6,
        Platform::Other => 5,
    }
}

/// Component `i` of `script_components` for a platform.
fn script_component(platform: &Platform, i: usize) -> (r: &'static str)
    requires
        i < script_components(*platform).len(),
    ensures
        r@ == script_components(*platform)[i as int],
{
    proof {
        reveal_strlit("Blackmagic Design");
        reveal_strlit("DaVinci Resolve");
        reveal_strlit("Support");
        reveal_strlit("Fusion");
        reveal_strlit("Scripts");
        reveal_strlit("Utility");
        reveal_strlit("Videe.lua");
        reveal_strlit("DaVinciResolve");
    }
    let vendor_and_product = match platform {
        Platform::Windows => 3,
        Platform::MacOs => 2,
        Platform::Other => 1,
    };
    if i < vendor_and_product {
        match platform {
            Platform::Other => "DaVinciResolve",
            _ => if i == 0 {
                "Blackmagic Design"
            } else if i == 1 {
                "DaVinci Resolve"
            } else {
                "Support"
            },
        }
    } else {
        let k = i - vendor_and_product;
        if k == 0 {
            "Fusion"
        } else if k == 1 {
            "Scripts"
        } else if k == 2 {
            "Utility"
        } else {
            "Videe.lua"
        }
    }
}

/// The install target under a data directory that is not valid UTF-8: each of
/// `script_components` in turn, joined onto the native path.
fn native_install_path(data_dir: PathBuf, platform: &Platform) -> PathBuf {
    let mut p = data_dir;
    let n = script_component_count(platform);
    let mut i: usize = 0;
    while i < n
        invariant
            n == script_components(*platform).len(),
        decreases n - i,
    {
        p = join_native(&p, script_component(platform, i));
        i = i + 1;
    }
    p
}

/// `r` is the install target that a given application data directory yields: for
/// a directory given as text, a text path that closes with the script components
/// one separator apart (and is exactly their chain joined onto a directory that
/// stays a join base); a native path for a directory that is not valid UTF-8; the
/// error for a missing directory.
pub open spec fn is_target_for(data_dir: Option<OsPath>, platform: Platform, r: Result<OsPath, String>) -> bool {
    match data_dir {
        Some(OsPath::Text(d)) => r matches Ok(OsPath::Text(path)) && ends_with_parts(
            path@,
            script_components(platform),
        ) && (is_join_base(d@) ==> is_path_chain(path@, d@, script_components(platform))),
        Some(OsPath::Native(_)) => r matches Ok(OsPath::Native(_)),
        None => r matches Err(m) && m@ == "could not determine this OS's application data directory"@,
    }
}

/// DaVinci Resolve's per-user "Utility" scripts folder, with the script's file
/// name, for the given platform: the target that the OS's application data
/// directory yields. Fails only when the OS has no such directory.
pub fn install_target_path(platform: &Platform) -> (r: Result<OsPath, String>)
    ensures
        exists|data_dir: Option<OsPath>| is_target_for(data_dir, *platform, r),
{
    let dir = match data_dir() {
        Some(p) => Some(os_path_of(p)),
        None => None,
    };
    target_from_data_dir(dir, platform)
}

/// The install target for a given application data directory, `None` when the OS
/// has none.
pub fn target_from_data_dir(data_dir: Option<OsPath>, platform: &Platform) -> (r: Result<OsPath, String>)
    ensures
        is_target_for(data_dir, *platform, r),
{
    match data_dir {
        Some(OsPath::Text(d)) => Ok(OsPath::Text(script_install_path(d.as_str(), platform))),
        Some(OsPath::Native(p)) => Ok(OsPath::Native(native_install_path(p, platform))),
        None => Err(String::from_str("could not determine this OS's application data directory")),
    }
}

/// Whether the bridge script is installed: the install target, when it could be
/// determined and a file exists there.
pub fn script_status(target: Result<OsPath, String>, target_exists: bool) -> (r: Option<OsPath>)
    ensures
        match target {
            Ok(t) => if target_exists { r == Some(t) } else { r is None },
            Err(_) => r is None,
        },
{
    match target {
        Ok(t) => if target_exists {
            Some(t)
        } else {
            None
        },
        Err(_) => None,
    }
}

/// The error given when Resolve's own scripts folder does not exist, which almost
/// always means Resolve itself isn't installed.
pub fn scripts_folder_missing(scripts_dir: &str) -> (r: String)
    ensures
        r@ == "DaVinci Resolve's scripts folder wasn't found at "@ + scripts_dir@
            + ". Is DaVinci Resolve installed?"@,
{
    let mut m = String::from_str("DaVinci Resolve's scripts folder wasn't found at ");
    m.append(scripts_dir);
    m.append(". Is DaVinci Resolve installed?");
    m
}

/// Resolve reads its scripts from the vendor folder "Blackmagic Design" and the
/// product folder "DaVinci Resolve" on Windows and macOS, Windows adding "Support"
/// right after them, and from "DaVinciResolve" elsewhere; on every platform the
/// path then goes on through Fusion, Scripts and Utility to the script Videe.lua.
pub proof fn lemma_resolve_script_layout(p: Platform)
    ensures
        script_components(Platform::MacOs).take(2) == seq!["Blackmagic Design"@, "DaVinci Resolve"@],
        script_components(Platform::Windows) == script_components(Platform::MacOs).take(2).push(
            "Support"@,
        ) + script_components(Platform::MacOs).skip(2),
        script_components(Platform::Other) == seq!["DaVinciResolve"@] + script_components(
            Platform::MacOs,
        ).skip(2),
        script_components(p).len() >= 4,
        script_components(p).skip(script_components(p).len() - 4) == seq![
            "Fusion"@,
            "Scripts"@,
            "Utility"@,
            "Videe.lua"@,
        ],
{
    assert(script_components(Platform::MacOs).take(2) =~= seq!["Blackmagic Design"@, "DaVinci Resolve"@]);
    assert(script_components(Platform::Windows) =~= script_components(Platform::MacOs).take(2).push(
        "Support"@,
    ) + script_components(Platform::MacOs).skip(2));
    assert(script_components(Platform::Other) =~= seq!["DaVinciResolve"@] + script_components(
        Platform::MacOs,
    ).skip(2));
    assert(script_components(p).skip(script_components(p).len() - 4) =~= seq![
        "Fusion"@,
        "Scripts"@,
        "Utility"@,
        "Videe.lua"@,
    ]);
}

} // verus!
