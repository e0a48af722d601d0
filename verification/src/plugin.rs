//! Plugins: the bounds and names of their persisted state, and the update
//! manifest that offers a package per CPU architecture.

use vstd::prelude::*;
use vstd::string::*;
use std::path::Path;
use crate::text::{concat2, concat5, str_eq};

verus! {

broadcast use vstd::string::group_string_axioms;

/// The largest plugin state that is stored or loaded, in bytes.
pub const MAX_PLUGIN_STATE_BYTES: usize = 1024 * 1024;

/// Where plugin state lives: one file per plugin under `root`, and the
/// files of an older layout under `legacy_root`.
#[derive(Debug, Clone)]
pub struct PluginStateStore {
    root: String,
    legacy_root: String,
}

/// What saving a plugin's state calls for.
#[derive(Debug, Clone, Copy, PartialEq, Eq, Structural)]
pub enum SaveDecision {
    /// The state is what was saved last: nothing to write.
    Unchanged,
    /// The state exceeds [`MAX_PLUGIN_STATE_BYTES`] and is refused.
    TooLarge,
    /// Write the state.
    Write,
}

/// Why stored plugin state could not be used.
#[derive(Debug, Clone, Copy, PartialEq, Eq, Structural)]
pub enum StateLoadError {
    /// The file exceeds [`MAX_PLUGIN_STATE_BYTES`].
    TooLarge,
    /// The file is not UTF-8.
    NotUtf8,
}

/// Why a legacy state file name was refused.
#[derive(Debug, Clone, Copy, PartialEq, Eq, Structural)]
pub enum LegacyPathError {
    /// The name is not a single file name: it has directories, `.` or `..`.
    NotBasename,
}

/// How many components `std::path::Path` finds in `path`.
pub uninterp spec fn path_component_count(path: Seq<char>) -> nat;

/// Whether `std::path::Path` finds a final file name in `path`.
pub uninterp spec fn path_has_file_name(path: Seq<char>) -> bool;

/// The path `std::path::Path::join` makes of `base` and `rest`.
pub uninterp spec fn path_join(base: Seq<char>, rest: Seq<char>) -> Seq<char>;

/// Trusted: `Path::new(path).components().count()`; the component rules
/// are left to the name.
#[verifier::external_body]
fn component_count(path: &str) -> (r: usize)
    ensures
        r == path_component_count(path@),
{
    Path::new(path).components().count()
}

/// Trusted: `Path::new(path).file_name().is_some()`.
#[verifier::external_body]
fn has_file_name(path: &str) -> (r: bool)
    ensures
        r == path_has_file_name(path@),
{
    Path::new(path).file_name().is_some()
}

/// Trusted: `Path::new(base).join(rest)`, as text. Joining two strings
/// gives valid UTF-8, so the lossy conversion changes nothing. As `join`
/// documents, an absolute `rest` (on Unix, one starting with `/`) replaces
/// `base`; how a relative `rest` is joined is left to the name.
#[verifier::external_body]
fn join(base: &str, rest: &str) -> (r: String)
    ensures
        r@ == path_join(base@, rest@),
        rest@.len() > 0 && rest@[0] == '/' ==> r@ == rest@,
{
    Path::new(base).join(rest).to_string_lossy().into_owned()
}

/// Trusted: `String::from_utf8`, with the error dropped.
#[verifier::external_body]
fn string_from_utf8(bytes: Vec<u8>) -> (r: Option<String>)
    ensures
        r is Some <==> vstd::utf8::valid_utf8(bytes@),
        r matches Some(s) ==> s@ == vstd::utf8::decode_utf8(bytes@),
{
    String::from_utf8(bytes).ok()
}

/// Whether a legacy state file name is a single plain file name.
pub open spec fn is_basename(name: Seq<char>) -> bool {
    path_component_count(name) == 1 && path_has_file_name(name)
}

impl PluginStateStore {
    /// A store with state under `root` and legacy files under `legacy_root`.
    pub fn new(root: String, legacy_root: String) -> (s: Self)
        ensures
            s.root_view() == root@,
            s.legacy_root_view() == legacy_root@,
    {
        PluginStateStore { root, legacy_root }
    }

    pub closed spec fn root_view(&self) -> Seq<char> {
        self.root@
    }

    pub closed spec fn legacy_root_view(&self) -> Seq<char> {
        self.legacy_root@
    }

    /// The directory that holds the state files.
    pub fn root(&self) -> (r: &str)
        ensures
            r@ == self.root_view(),
    {
        self.root.as_str()
    }

    /// The directory of the legacy state files.
    pub fn legacy_root(&self) -> (r: &str)
        ensures
            r@ == self.legacy_root_view(),
    {
        self.legacy_root.as_str()
    }

    /// The path of the state of the plugin whose sanitized id is `segment`.
    pub fn state_path(&self, segment: &str) -> (r: String)
        ensures
            r@ == path_join(self.root_view(), segment@ + ".state"@),
    {
        let name = concat2(segment, ".state");
        join(self.root.as_str(), name.as_str())
    }

    /// The path of a temporary file for the plugin whose sanitized id is
    /// `segment`, made unique by `unique`.
    pub fn temp_path(&self, segment: &str, unique: &str) -> (r: String)
        ensures
            r@ == path_join(self.root_view(), "."@ + segment@ + "."@ + unique@ + ".tmp"@),
    {
        let name = concat5(".", segment, ".", unique, ".tmp");
        join(self.root.as_str(), name.as_str())
    }

    /// The path of the legacy state file `file_name`, which must be a single
    /// file name, so that no legacy read or rename leaves the legacy root.
    pub fn legacy_path(&self, file_name: &str) -> (r: Result<String, LegacyPathError>)
        ensures
            r is Ok <==> is_basename(file_name@),
            r matches Ok(p) ==> p@ == path_join(self.legacy_root_view(), file_name@),
    {
        if component_count(file_name) != 1 || !has_file_name(file_name) {
            return Err(LegacyPathError::NotBasename);
        }
        Ok(join(self.legacy_root.as_str(), file_name))
    }
}

/// Whether saving `state` after `previous` writes, skips, or refuses.
pub open spec fn save_decision_of(previous: Option<Seq<char>>, state: &str) -> SaveDecision {
    if previous == Some(state@) {
        SaveDecision::Unchanged
    } else if state.len() > MAX_PLUGIN_STATE_BYTES {
        SaveDecision::TooLarge
    } else {
        SaveDecision::Write
    }
}

/// The characters of an optional string slice.
pub open spec fn opt_str_view(s: Option<&str>) -> Option<Seq<char>> {
    match s {
        Some(p) => Some(p@),
        None => None,
    }
}

/// Decides on saving a plugin's `state` when `previous` was saved last: an
/// unchanged state is not written, and one over the size limit is refused.
pub fn save_decision(previous: Option<&str>, state: &str) -> (r: SaveDecision)
    ensures
        r == save_decision_of(opt_str_view(previous), state),
{
    if let Some(p) = previous {
        if str_eq(p, state) {
            return SaveDecision::Unchanged;
        }
    }
    if state.len() > MAX_PLUGIN_STATE_BYTES {
        SaveDecision::TooLarge
    } else {
        SaveDecision::Write
    }
}

/// Saving and loading agree: a state equal to the one saved last is not
/// written again, and a state that is written, read back from its UTF-8
/// bytes, loads as the same state. (A string held in memory has at most
/// `usize::MAX` bytes.)
pub proof fn lemma_written_state_loads_back(previous: Option<Seq<char>>, state: &str)
    requires
        state.spec_bytes().len() <= usize::MAX,
    ensures
        previous == Some(state@) ==> save_decision_of(previous, state) == SaveDecision::Unchanged,
        save_decision_of(previous, state) == SaveDecision::Write ==> {
            &&& state.spec_bytes().len() <= MAX_PLUGIN_STATE_BYTES
            &&& vstd::utf8::valid_utf8(state.spec_bytes())
            &&& vstd::utf8::decode_utf8(state.spec_bytes()) == state@
        },
{
    vstd::utf8::encode_utf8_valid_utf8(state@);
    vstd::utf8::encode_utf8_decode_utf8(state@);
}

/// The state in a file's `bytes`: refused over the size limit or when not
/// UTF-8.
pub fn state_from_bytes(bytes: Vec<u8>) -> (r: Result<String, StateLoadError>)
    ensures
        bytes@.len() > MAX_PLUGIN_STATE_BYTES ==> r == Err::<String, StateLoadError>(
            StateLoadError::TooLarge,
        ),
        bytes@.len() <= MAX_PLUGIN_STATE_BYTES && !vstd::utf8::valid_utf8(bytes@) ==> r == Err::<
            String,
            StateLoadError,
        >(StateLoadError::NotUtf8),
        bytes@.len() <= MAX_PLUGIN_STATE_BYTES && vstd::utf8::valid_utf8(bytes@) ==> (r matches Ok(
            s,
        ) && s@ == vstd::utf8::decode_utf8(bytes@)),
{
    if bytes.len() > MAX_PLUGIN_STATE_BYTES {
        return Err(StateLoadError::TooLarge);
    }
    match string_from_utf8(bytes) {
        Some(s) => Ok(s),
        None => Err(StateLoadError::NotUtf8),
    }
}

/// Where to download one architecture's build of a plugin update, and the
/// SHA-256 sum of the archive.
#[derive(Debug, PartialEq, Eq)]
pub struct PluginUpdatePackage {
    pub zip_url: String,
    pub sha256: String,
}

impl Clone for PluginUpdatePackage {
    fn clone(&self) -> (r: Self)
        ensures
            r.zip_url@ == self.zip_url@,
            r.sha256@ == self.sha256@,
    {
        PluginUpdatePackage { zip_url: self.zip_url.clone(), sha256: self.sha256.clone() }
    }
}

/// A plugin update: its version, the interface versions it needs, and a
/// package per supported architecture.
#[derive(Debug, Clone, PartialEq, Eq)]
pub struct PluginUpdateManifest {
    pub version: String,
    pub entry_version: u32,
    pub spawn_version: u32,
    pub x86_64: Option<PluginUpdatePackage>,
    pub aarch64: Option<PluginUpdatePackage>,
}

/// The package of the manifest for the architecture named `arch`.
pub open spec fn package_of(m: PluginUpdateManifest, arch: Seq<char>) -> Option<
    PluginUpdatePackage,
> {
    if arch == "x86_64"@ {
        m.x86_64
    } else if arch == "aarch64"@ {
        m.aarch64
    } else {
        None
    }
}

/// Whether two optional packages name the same archive and sum.
pub open spec fn same_package(a: Option<PluginUpdatePackage>, b: Option<PluginUpdatePackage>) -> bool {
    match (a, b) {
        (Some(p), Some(q)) => p.zip_url@ == q.zip_url@ && p.sha256@ == q.sha256@,
        (None, None) => true,
        _ => false,
    }
}

fn clone_package(p: &Option<PluginUpdatePackage>) -> (r: Option<PluginUpdatePackage>)
    ensures
        same_package(r, *p),
{
    match p {
        Some(pkg) => Some(pkg.clone()),
        None => None,
    }
}

impl PluginUpdateManifest {
    /// The package for the architecture named `arch`: `x86_64` and
    /// `aarch64` are offered, any other architecture has none.
    pub fn package_for_arch(&self, arch: &str) -> (r: Option<PluginUpdatePackage>)
        ensures
            same_package(r, package_of(*self, arch@)),
    {
        if str_eq(arch, "x86_64") {
            clone_package(&self.x86_64)
        } else if str_eq(arch, "aarch64") {
            clone_package(&self.aarch64)
        } else {
            None
        }
    }
}

} // verus!
