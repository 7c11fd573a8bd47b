//! Lockfile detection: which package-manager dialect governs a project
//! root, decided from the set of lockfile names present there, with the
//! Bun-plus-Yarn pair resolved in Bun's favour.
use vstd::prelude::*;

use crate::errors::Error;
use crate::package_manager::{spec_lockfile_name, PackageManagerKind};
use crate::strutil::{join_path, join_path_exec, str_eq_exec};

verus! {

/// One of the names in `present` is `name`.
pub open spec fn has_file(present: Seq<String>, name: Seq<char>) -> bool {
    exists|i: int| 0 <= i < present.len() && (#[trigger] present[i]@) == name
}

/// How many distinct dialects found their lockfile.
pub open spec fn found_count(npm: bool, yarn: bool, pnpm: bool, bun: bool) -> int {
    (if npm { 1int } else { 0int }) + (if yarn { 1int } else { 0int })
        + (if pnpm { 1int } else { 0int }) + (if bun { 1int } else { 0int })
}

/// The dialect detection resolves to, if any: a unique match wins, and the
/// exact pair {Bun, Yarn} resolves to Bun because Bun can emit a Yarn
/// lockfile alongside its own.
pub open spec fn detected_kind(npm: bool, yarn: bool, pnpm: bool, bun: bool)
    -> Option<PackageManagerKind> {
    if found_count(npm, yarn, pnpm, bun) == 1 {
        if npm {
            Some(PackageManagerKind::Npm)
        } else if yarn {
            Some(PackageManagerKind::Yarn)
        } else if pnpm {
            Some(PackageManagerKind::Pnpm)
        } else {
            Some(PackageManagerKind::Bun)
        }
    } else if bun && yarn && !npm && !pnpm {
        Some(PackageManagerKind::Bun)
    } else {
        None
    }
}

/// The conflicting lockfile paths, in ascending file-name order.
pub open spec fn conflict_paths(
    base_dir: Seq<char>,
    npm: bool,
    yarn: bool,
    pnpm: bool,
    bun: bool,
) -> Seq<Seq<char>> {
    (if bun { seq![join_path(base_dir, "bun.lockb"@)] } else { Seq::empty() })
        + (if npm { seq![join_path(base_dir, "package-lock.json"@)] } else { Seq::empty() })
        + (if pnpm { seq![join_path(base_dir, "pnpm-lock.yaml"@)] } else { Seq::empty() })
        + (if yarn { seq![join_path(base_dir, "yarn.lock"@)] } else { Seq::empty() })
}

/// Whether `name` occurs in `present`.
fn file_present(present: &Vec<String>, name: &str) -> (r: bool)
    ensures
        r == has_file(present@, name@),
{
    let mut i: usize = 0;
    while i < present.len()
        invariant
            i <= present@.len(),
            forall|j: int| 0 <= j < i ==> (#[trigger] present@[j]@) != name@,
        decreases present@.len() - i,
    {
        if str_eq_exec(present[i].as_str(), name) {
            return true;
        }
        i = i + 1;
    }
    false
}

/// The detected lockfile of a project root: its dialect and its path.
#[derive(Debug, Clone, PartialEq)]
pub struct Lockfile {
    pub kind: PackageManagerKind,
    pub path: String,
}

impl Lockfile {
    /// Detect the lockfile governing `base_dir`, whose directory entries
    /// are the names in `present`.
    pub fn new(base_dir: &str, present: &Vec<String>) -> (r: Result<Lockfile, Error>)
        ensures
            ({
                let npm = has_file(present@, "package-lock.json"@);
                let yarn = has_file(present@, "yarn.lock"@);
                let pnpm = has_file(present@, "pnpm-lock.yaml"@);
                let bun = has_file(present@, "bun.lockb"@);
                match detected_kind(npm, yarn, pnpm, bun) {
                    Some(k) => r matches Ok(l) && l.kind == k
                        && l.path@ == join_path(base_dir@, spec_lockfile_name(k)),
                    None => {
                        if found_count(npm, yarn, pnpm, bun) == 0 {
                            r matches Err(e) && e matches Error::NoLockfile(p)
                                && p@ == base_dir@
                        } else {
                            r matches Err(e) && e matches Error::MultipleLockfiles(p, l)
                                && p@ == base_dir@
                                && l@.map_values(|q: String| q@)
                                    == conflict_paths(base_dir@, npm, yarn, pnpm, bun)
                        }
                    }
                }
            }),
    {
        match Lockfile::try_to_read_lockfile(base_dir, present) {
            Ok((kind, path)) => Ok(Lockfile { kind, path }),
            Err(e) => Err(e),
        }
    }

    /// The detection decision itself, as (dialect, lockfile path).
    pub fn try_to_read_lockfile(base_dir: &str, present: &Vec<String>) -> (r: Result<
        (PackageManagerKind, String),
        Error,
    >)
        ensures
            ({
                let npm = has_file(present@, "package-lock.json"@);
                let yarn = has_file(present@, "yarn.lock"@);
                let pnpm = has_file(present@, "pnpm-lock.yaml"@);
                let bun = has_file(present@, "bun.lockb"@);
                match detected_kind(npm, yarn, pnpm, bun) {
                    Some(k) => r matches Ok(kp) && kp.0 == k
                        && kp.1@ == join_path(base_dir@, spec_lockfile_name(k)),
                    None => {
                        if found_count(npm, yarn, pnpm, bun) == 0 {
                            r matches Err(e) && e matches Error::NoLockfile(p)
                                && p@ == base_dir@
                        } else {
                            r matches Err(e) && e matches Error::MultipleLockfiles(p, l)
                                && p@ == base_dir@
                                && l@.map_values(|q: String| q@)
                                    == conflict_paths(base_dir@, npm, yarn, pnpm, bun)
                        }
                    }
                }
            }),
    {
        let npm = file_present(present, "package-lock.json");
        let yarn = file_present(present, "yarn.lock");
        let pnpm = file_present(present, "pnpm-lock.yaml");
        let bun = file_present(present, "bun.lockb");
        let count: u8 = (if npm { 1u8 } else { 0u8 }) + (if yarn { 1u8 } else { 0u8 })
            + (if pnpm { 1u8 } else { 0u8 }) + (if bun { 1u8 } else { 0u8 });
        if count == 0 {
            Err(Error::NoLockfile(String::from_str(base_dir)))
        } else if count == 1 {
            if npm {
                Ok((PackageManagerKind::Npm, join_path_exec(base_dir, "package-lock.json")))
            } else if yarn {
                Ok((PackageManagerKind::Yarn, join_path_exec(base_dir, "yarn.lock")))
            } else if pnpm {
                Ok((PackageManagerKind::Pnpm, join_path_exec(base_dir, "pnpm-lock.yaml")))
            } else {
                Ok((PackageManagerKind::Bun, join_path_exec(base_dir, "bun.lockb")))
            }
        } else if bun && yarn && !npm && !pnpm {
            Ok((PackageManagerKind::Bun, join_path_exec(base_dir, "bun.lockb")))
        } else {
            let mut paths: Vec<String> = Vec::new();
            if bun {
                paths.push(join_path_exec(base_dir, "bun.lockb"));
            }
            if npm {
                paths.push(join_path_exec(base_dir, "package-lock.json"));
            }
            if pnpm {
                paths.push(join_path_exec(base_dir, "pnpm-lock.yaml"));
            }
            if yarn {
                paths.push(join_path_exec(base_dir, "yarn.lock"));
            }
            proof {
                assert(paths@.map_values(|q: String| q@)
                    =~= conflict_paths(
                    base_dir@,
                    has_file(present@, "package-lock.json"@),
                    has_file(present@, "yarn.lock"@),
                    has_file(present@, "pnpm-lock.yaml"@),
                    has_file(present@, "bun.lockb"@),
                ));
            }
            Err(Error::MultipleLockfiles(String::from_str(base_dir), paths))
        }
    }
}

} // verus!
