//! Workspace member discovery per dialect: Npm and Pnpm evaluate glob
//! patterns with negation and set-difference semantics, Yarn and Bun take
//! each pattern independently; Pnpm reads its patterns from a separate
//! workspace manifest.
use vstd::prelude::*;

use crate::errors::Error;
use crate::glob::{collect, collect_entries, dedup_first, match_views, negate_prefix_len};
use crate::package_manager::PackageManagerKind;
use crate::strutil::{join_path, join_path_exec};

verus! {

/// The entry list `collect` produces for the given patterns and match
/// outcomes, negation enabled or not.
pub open spec fn collected(
    patterns: Option<Vec<String>>,
    enable_negate: bool,
    matches: Seq<Option<Vec<String>>>,
) -> Seq<Seq<char>> {
    dedup_first(collect_entries(
        Seq::new(
            matches.len() as nat,
            |i: int| (
                match_views(matches[i]),
                enable_negate && (match patterns {
                    Some(ps) => negate_prefix_len(ps@[i]@) % 2 == 1,
                    None => false,
                }),
            ),
        ),
    ))
}

/// The number of patterns in an optional pattern list.
pub open spec fn pattern_count(patterns: Option<Vec<String>>) -> int {
    match patterns {
        Some(ps) => ps@.len() as int,
        None => 0,
    }
}

/// The workspace member directories resolved for a project.
pub struct Workspaces {
    pub packages: Vec<String>,
}

/// The workspace declaration Pnpm keeps in a file of its own.
pub struct PnpmWorkspace {
    pub packages: Option<Vec<String>>,
}

impl PnpmWorkspace {
    /// The two file names the Pnpm workspace manifest may live under.
    pub fn to_pnpm_workspace(base_dir: &str) -> (r: Vec<String>)
        ensures
            r@.len() == 2,
            r@[0]@ == join_path(base_dir@, "pnpm-workspace.yaml"@),
            r@[1]@ == join_path(base_dir@, "pnpm-workspace.yml"@),
    {
        let mut r: Vec<String> = Vec::new();
        r.push(join_path_exec(base_dir, "pnpm-workspace.yaml"));
        r.push(join_path_exec(base_dir, "pnpm-workspace.yml"));
        r
    }
}

impl Workspaces {
    /// Npm supports full glob syntax including negated patterns.
    pub fn resolve_npm_workspaces(
        patterns: &Option<Vec<String>>,
        matches: &Vec<Option<Vec<String>>>,
    ) -> (r: Vec<String>)
        requires
            matches@.len() == pattern_count(*patterns),
        ensures
            r@.map_values(|e: String| e@) == collected(*patterns, true, matches@),
    {
        collect(patterns, true, matches)
    }

    /// Yarn evaluates each pattern independently and unions the results.
    pub fn resolve_yarn_workspaces(
        patterns: &Option<Vec<String>>,
        matches: &Vec<Option<Vec<String>>>,
    ) -> (r: Vec<String>)
        requires
            matches@.len() == pattern_count(*patterns),
        ensures
            r@.map_values(|e: String| e@) == collected(*patterns, false, matches@),
    {
        collect(patterns, false, matches)
    }

    /// Bun evaluates each pattern independently, like Yarn.
    pub fn resolve_bun_workspaces(
        patterns: &Option<Vec<String>>,
        matches: &Vec<Option<Vec<String>>>,
    ) -> (r: Vec<String>)
        requires
            matches@.len() == pattern_count(*patterns),
        ensures
            r@.map_values(|e: String| e@) == collected(*patterns, false, matches@),
    {
        collect(patterns, false, matches)
    }

    /// Pnpm takes its patterns from the separate workspace manifest; a
    /// missing or malformed one resolves no members.
    pub fn resolve_pnpm_workspaces(
        pnpm: &Result<PnpmWorkspace, Error>,
        matches: &Vec<Option<Vec<String>>>,
    ) -> (r: Vec<String>)
        requires
            (match pnpm {
                Ok(p) => matches@.len() == pattern_count(p.packages),
                Err(_) => true,
            }),
        ensures
            match pnpm {
                Ok(p) => r@.map_values(|e: String| e@) == collected(p.packages, true, matches@),
                Err(_) => r@.len() == 0,
            },
    {
        match pnpm {
            Ok(p) => collect(&p.packages, true, matches),
            Err(_) => Vec::new(),
        }
    }

    /// Resolve the member directories for a dialect. For Pnpm the patterns
    /// come from `pnpm`; for the others from the root manifest's
    /// `workspaces` list.
    pub fn new(
        kind: PackageManagerKind,
        patterns: &Option<Vec<String>>,
        pnpm: &Result<PnpmWorkspace, Error>,
        matches: &Vec<Option<Vec<String>>>,
    ) -> (r: Self)
        requires
            kind == PackageManagerKind::Pnpm ==> (match pnpm {
                Ok(p) => matches@.len() == pattern_count(p.packages),
                Err(_) => true,
            }),
            kind != PackageManagerKind::Pnpm ==> matches@.len() == pattern_count(*patterns),
        ensures
            ({
                let pv = r.packages@.map_values(|e: String| e@);
                match kind {
                    PackageManagerKind::Npm => pv == collected(*patterns, true, matches@),
                    PackageManagerKind::Yarn => pv == collected(*patterns, false, matches@),
                    PackageManagerKind::Bun => pv == collected(*patterns, false, matches@),
                    PackageManagerKind::Pnpm => match pnpm {
                        Ok(p) => pv == collected(p.packages, true, matches@),
                        Err(_) => pv.len() == 0,
                    },
                }
            }),
    {
        let packages = match kind {
            PackageManagerKind::Npm => Workspaces::resolve_npm_workspaces(patterns, matches),
            PackageManagerKind::Bun => Workspaces::resolve_bun_workspaces(patterns, matches),
            PackageManagerKind::Yarn => Workspaces::resolve_yarn_workspaces(patterns, matches),
            PackageManagerKind::Pnpm => Workspaces::resolve_pnpm_workspaces(pnpm, matches),
        };
        Workspaces { packages }
    }
}

} // verus!
