use vstd::prelude::*;

use crate::path::FsPath;

verus! {

/// A fatal failure of workspace resolution. Every variant carries enough
/// context to name the offending file, repository or hook.
#[derive(Debug)]
pub enum Error {
    /// A configuration file exists but did not parse.
    Config { path: FsPath },
    /// No configuration file was found, neither by the upward search from
    /// the starting directory nor by the walk of the workspace root.
    MissingPreCommitConfig,
    /// A project references a hook id that the repository does not advertise.
    HookNotFound { hook: String, repo: String },
    /// Fetching a remote repository failed; `repo` is its url.
    Store { repo: String },
    /// One or more configuration files are not staged; `message` is the
    /// actionable report.
    NotStaged { message: String },
}

} // verus!
