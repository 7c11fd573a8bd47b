//! The crate's error taxonomy: not-found, ambiguous, malformed,
//! invalid-state, inaccessible, and external-process failures, each
//! carrying the offending path(s).
use vstd::prelude::*;

use crate::package_manager::PackageManager;
use crate::strutil::{join_sep, join_sep_exec};

verus! {

/// Everything that can go wrong across detection, fingerprinting, the
/// cache store, and the install step.
#[derive(Debug, Clone, PartialEq)]
pub enum Error {
    /// A file or directory exists but cannot be reached.
    NotAccessible(String),
    /// No entry at any of the candidate paths.
    NoEntry(Vec<String>),
    /// A directory was required.
    NotDir(String),
    /// No lockfile in the project root.
    NoLockfile(String),
    /// Conflicting lockfiles in the project root, listed sorted.
    MultipleLockfiles(String, Vec<String>),
    /// A workspace member directory is unusable.
    InvalidWorkspace(String),
    /// A Yarn member manifest lacks `name` or `version`.
    InvalidPackageJsonFieldsForYarn(String),
    /// A Yarn root with workspaces must set `private` to true.
    InvalidPackageJsonPrivateForYarn(String),
    /// A Bun member manifest lacks `name`.
    InvalidPackageJsonFieldsForBun(String),
    /// A manifest could not be parsed; the second field is the cause.
    Parse(Vec<String>, String),
    /// A workspace glob pattern was rejected.
    InvalidGlobPattern(String),
    /// The external installer failed; fields are the invocation, the
    /// project root, and the captured output.
    FailedToInstallDependencies(PackageManager, String, String),
    /// Any other failure, as text.
    Any(String),
}

impl Error {
    /// Debug-level reporting hook; the embedding binary does the actual
    /// logging, the error itself passes through unchanged.
    pub fn log_debug(self, detail: &str) -> (r: Self)
        ensures
            r == self,
    {
        let _unused = detail;
        self
    }

    /// Warning-level reporting hook; the error passes through unchanged.
    pub fn log_warn(self, prefix: Option<&str>) -> (r: Self)
        ensures
            r == self,
    {
        let _unused = prefix;
        self
    }

    /// Error-level reporting hook; the error passes through unchanged.
    pub fn log_error(self, prefix: Option<&str>) -> (r: Self)
        ensures
            r == self,
    {
        let _unused = prefix;
        self
    }
}

/// Wrap failure text from elsewhere as a crate error.
pub fn to_error(message: String) -> (r: Error)
    ensures
        r == Error::Any(message),
{
    Error::Any(message)
}

/// Render a path list for messages, comma-separated.
pub fn stringify_path(paths: &Vec<String>) -> (r: String)
    ensures
        r@ == join_sep(paths@.map_values(|p: String| p@), ", "@),
{
    join_sep_exec(paths, ", ")
}

/// Render the install invocation for messages.
pub fn stringify_install_command(package_manager: &PackageManager) -> (r: String)
    ensures
        r@ == package_manager.executable_name@ + " "@ + package_manager.install_sub_command@,
{
    let mut s = String::from_str(package_manager.executable_name.as_str());
    s.append(" ");
    s.append(package_manager.install_sub_command.as_str());
    s
}

} // verus!
