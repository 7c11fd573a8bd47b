//! The closed set of supported package managers and the per-dialect
//! constants every other component dispatches on: lockfile file name,
//! executable, install subcommand, and corepack registration.
use vstd::prelude::*;

verus! {

/// A package-manager dialect.
#[derive(Debug, Clone, Copy, PartialEq, Eq, Structural)]
pub enum PackageManagerKind {
    Npm,
    Yarn,
    Pnpm,
    Bun,
}

/// The executable name of a dialect.
pub open spec fn spec_executable(kind: PackageManagerKind) -> Seq<char> {
    match kind {
        PackageManagerKind::Npm => "npm"@,
        PackageManagerKind::Yarn => "yarn"@,
        PackageManagerKind::Pnpm => "pnpm"@,
        PackageManagerKind::Bun => "bun"@,
    }
}

/// The lockfile file name a dialect produces.
pub open spec fn spec_lockfile_name(kind: PackageManagerKind) -> Seq<char> {
    match kind {
        PackageManagerKind::Npm => "package-lock.json"@,
        PackageManagerKind::Yarn => "yarn.lock"@,
        PackageManagerKind::Pnpm => "pnpm-lock.yaml"@,
        PackageManagerKind::Bun => "bun.lockb"@,
    }
}

/// The corepack registration of a dialect; Bun is not corepack-registered.
pub open spec fn spec_corepack_name(kind: PackageManagerKind) -> Option<Seq<char>> {
    match kind {
        PackageManagerKind::Bun => None,
        _ => Some(spec_executable(kind)),
    }
}

/// How to invoke a package manager: executable, install subcommand, the
/// lockfile names it owns, and its corepack name if registered.
#[derive(Debug, Clone, PartialEq)]
pub struct PackageManager {
    pub executable_name: String,
    pub install_sub_command: String,
    pub lockfile_names: Vec<&'static str>,
    pub corepack_name: Option<&'static str>,
}

impl PackageManager {
    /// Bundle the four invocation facts.
    pub fn new(
        executable_name: String,
        install_sub_command: String,
        lockfile_names: Vec<&'static str>,
        corepack_name: Option<&'static str>,
    ) -> (r: Self)
        ensures
            r.executable_name == executable_name,
            r.install_sub_command == install_sub_command,
            r.lockfile_names == lockfile_names,
            r.corepack_name == corepack_name,
    {
        Self { executable_name, install_sub_command, lockfile_names, corepack_name }
    }

    /// The invocation facts of a dialect.
    pub fn from_kind(kind: PackageManagerKind) -> (r: Self)
        ensures
            r.executable_name@ == spec_executable(kind),
            r.install_sub_command@ == "install"@,
            r.lockfile_names@.len() == 1,
            r.lockfile_names@[0]@ == spec_lockfile_name(kind),
            match r.corepack_name {
                Some(n) => spec_corepack_name(kind) == Some(n@),
                None => spec_corepack_name(kind) is None,
            },
    {
        match kind {
            PackageManagerKind::Npm => {
                let mut names: Vec<&'static str> = Vec::new();
                names.push("package-lock.json");
                PackageManager::new(
                    String::from_str("npm"),
                    String::from_str("install"),
                    names,
                    Some("npm"),
                )
            }
            PackageManagerKind::Yarn => {
                let mut names: Vec<&'static str> = Vec::new();
                names.push("yarn.lock");
                PackageManager::new(
                    String::from_str("yarn"),
                    String::from_str("install"),
                    names,
                    Some("yarn"),
                )
            }
            PackageManagerKind::Pnpm => {
                let mut names: Vec<&'static str> = Vec::new();
                names.push("pnpm-lock.yaml");
                PackageManager::new(
                    String::from_str("pnpm"),
                    String::from_str("install"),
                    names,
                    Some("pnpm"),
                )
            }
            PackageManagerKind::Bun => {
                let mut names: Vec<&'static str> = Vec::new();
                names.push("bun.lockb");
                PackageManager::new(
                    String::from_str("bun"),
                    String::from_str("install"),
                    names,
                    None,
                )
            }
        }
    }
}

impl PackageManagerKind {
    /// The lockfile names this dialect owns.
    pub fn to_lockfile_names(self) -> (r: Vec<&'static str>)
        ensures
            r@.len() == 1,
            r@[0]@ == spec_lockfile_name(self),
    {
        let package_manager = PackageManager::from_kind(self);
        package_manager.lockfile_names
    }

    /// The corepack name this dialect is registered under, if any.
    pub fn to_corepack_name(self) -> (r: Option<&'static str>)
        ensures
            match r {
                Some(n) => spec_corepack_name(self) == Some(n@),
                None => spec_corepack_name(self) is None,
            },
    {
        let package_manager = PackageManager::from_kind(self);
        package_manager.corepack_name
    }
}

} // verus!
