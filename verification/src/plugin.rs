//! Locating the inference plugin: its file name per platform, the documented
//! search order, and telling a bare file name from a path.

use vstd::prelude::*;
use vstd::string::*;

verus! {

/// Operating-system family the plugin was built for.
#[derive(Debug, Clone, Copy, PartialEq, Eq, Structural)]
pub enum TargetOs {
    Windows,
    MacOs,
    /// Linux and other Unix-like systems.
    Other,
}

/// File name of the plugin library on the given system.
pub open spec fn spec_plugin_filename(os: TargetOs) -> Seq<char> {
    match os {
        TargetOs::Windows => "zentract_abi.dll"@,
        TargetOs::MacOs => "libzentract_abi.dylib"@,
        TargetOs::Other => "libzentract_abi.so"@,
    }
}

/// File name of the plugin library on the given system.
pub fn plugin_filename(os: TargetOs) -> (name: &'static str)
    ensures
        name@ == spec_plugin_filename(os),
{
    match os {
        TargetOs::Windows => "zentract_abi.dll",
        TargetOs::MacOs => "libzentract_abi.dylib",
        TargetOs::Other => "libzentract_abi.so",
    }
}

/// Directory, relative to the working directory, of a sibling workspace's
/// plugin build: `../zentract/target/release`.
pub open spec fn spec_workspace_sibling_dir() -> Seq<char> {
    "../zentract/target/release"@
}

/// Directory, relative to the working directory, where a sibling workspace
/// builds the plugin.
pub fn workspace_sibling_dir() -> (dir: &'static str)
    ensures
        dir@ == spec_workspace_sibling_dir(),
{
    "../zentract/target/release"
}

/// Places the plugin is looked for, in the documented order.
#[derive(Debug, Clone, Copy, PartialEq, Eq, Structural)]
pub enum PluginSource {
    /// The exact path in the `ZENTRACT_PLUGIN_PATH` environment variable.
    EnvVar,
    /// Next to the running executable.
    ExeSibling,
    /// `target/release/` under the working directory.
    CwdTarget,
    /// `../zentract/target/release/`, the workspace sibling layout.
    WorkspaceSibling,
    /// The bare file name, left to the system library search path. Always used
    /// when nothing before it is found.
    BareFilename,
}

/// Position of a source in the search order, starting at 0.
pub open spec fn source_rank(s: PluginSource) -> nat {
    match s {
        PluginSource::EnvVar => 0,
        PluginSource::ExeSibling => 1,
        PluginSource::CwdTarget => 2,
        PluginSource::WorkspaceSibling => 3,
        PluginSource::BareFilename => 4,
    }
}

/// The source at a given position of the search order.
pub open spec fn source_at(rank: nat) -> PluginSource {
    if rank == 0 {
        PluginSource::EnvVar
    } else if rank == 1 {
        PluginSource::ExeSibling
    } else if rank == 2 {
        PluginSource::CwdTarget
    } else if rank == 3 {
        PluginSource::WorkspaceSibling
    } else {
        PluginSource::BareFilename
    }
}

/// The first place searched.
pub fn first_plugin_source() -> (s: PluginSource)
    ensures
        source_rank(s) == 0,
        s == PluginSource::EnvVar,
{
    PluginSource::EnvVar
}

/// The place searched after `s` when nothing was found there; `None` after the
/// bare file name, which is never missed.
pub fn next_plugin_source(s: PluginSource) -> (next: Option<PluginSource>)
    ensures
        match next {
            Some(n) => source_rank(s) < 4 && n == source_at(source_rank(s) + 1),
            None => s == PluginSource::BareFilename,
        },
{
    match s {
        PluginSource::EnvVar => Some(PluginSource::ExeSibling),
        PluginSource::ExeSibling => Some(PluginSource::CwdTarget),
        PluginSource::CwdTarget => Some(PluginSource::WorkspaceSibling),
        PluginSource::WorkspaceSibling => Some(PluginSource::BareFilename),
        PluginSource::BareFilename => None,
    }
}

/// Every place is visited exactly once and in order: the search starting at
/// the first source reaches the source of rank `k` after `k` steps, and the
/// ranks form the order environment variable, executable sibling, working
/// directory, workspace sibling, bare file name.
pub proof fn lemma_search_order()
    ensures
        forall|k: nat| k <= 4 ==> source_rank(#[trigger] source_at(k)) == k,
        forall|s: PluginSource| source_at(#[trigger] source_rank(s)) == s,
        source_at(0) == PluginSource::EnvVar,
        source_at(1) == PluginSource::ExeSibling,
        source_at(2) == PluginSource::CwdTarget,
        source_at(3) == PluginSource::WorkspaceSibling,
        source_at(4) == PluginSource::BareFilename,
{
}

/// A bare file name holds no path separator, `/` or `\`.
pub open spec fn spec_is_bare_filename(path: Seq<char>) -> bool {
    !path.contains('/') && !path.contains('\\')
}

/// Whether `path` is a bare file name rather than a path, i.e. holds neither
/// `/` nor `\`. A plugin that failed to load from a bare name was not found
/// on disk at all.
pub fn is_bare_filename(path: &str) -> (bare: bool)
    ensures
        bare == spec_is_bare_filename(path@),
{
    let n = path.unicode_len();
    let mut i: usize = 0;
    while i < n
        invariant
            n == path@.len(),
            i <= n,
            forall|k: int| 0 <= k < i ==> path@[k] != '/' && path@[k] != '\\',
        decreases n - i,
    {
        let c = path.get_char(i);
        if c == '/' || c == '\\' {
            proof {
                assert(path@[i as int] == c);
            }
            return false;
        }
        i = i + 1;
    }
    true
}

} // verus!
