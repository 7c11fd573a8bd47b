use syncnm::errors::Error;
use syncnm::package_json::{
    is_valid_base_dir, to_package_json_path, PackageJson, WorkspacePackage,
};
use syncnm::package_manager::PackageManagerKind;
use syncnm::project::{MemberCandidate, ProjectRoot};
use syncnm::smap::StrMap;
use syncnm::workspaces::{PnpmWorkspace, Workspaces};

fn empty_pj() -> PackageJson {
    PackageJson {
        name: None,
        version: None,
        private: None,
        packageManager: None,
        dependencies: None,
        devDependencies: None,
        peerDependencies: None,
        overrides: None,
        optionalDependencies: None,
        workspaces: None,
    }
}

fn deps(pairs: &[(&str, &str)]) -> StrMap<String> {
    let mut m = StrMap::new();
    for (k, v) in pairs {
        m.insert(k.to_string(), v.to_string());
    }
    m
}

fn candidate(dir: &str, name: Option<&str>, version: Option<&str>) -> MemberCandidate {
    let mut pj = empty_pj();
    pj.name = name.map(|n| n.to_string());
    pj.version = version.map(|v| v.to_string());
    MemberCandidate { base_dir: dir.to_string(), is_dir: true, manifest: Ok(pj) }
}

#[test]
fn test_resolve_package_manager_kind_cases() {
    let cases: &[(&str, Option<PackageManagerKind>, Option<PackageManagerKind>)] = &[
        ("npm", Some(PackageManagerKind::Bun), Some(PackageManagerKind::Npm)),
        (" npm", Some(PackageManagerKind::Bun), Some(PackageManagerKind::Bun)),
        ("npm@7.0.0", Some(PackageManagerKind::Bun), Some(PackageManagerKind::Npm)),
        ("npm@", Some(PackageManagerKind::Bun), Some(PackageManagerKind::Npm)),
        ("yarn", Some(PackageManagerKind::Bun), Some(PackageManagerKind::Yarn)),
        ("yarn@4.1.0", Some(PackageManagerKind::Bun), Some(PackageManagerKind::Yarn)),
        (
            "yarn@4.1.0+sha256.81a00df816059803e6b5148acf03ce313cad36b7f6e5af6efa040a15981a6ffb",
            Some(PackageManagerKind::Bun),
            Some(PackageManagerKind::Yarn),
        ),
        ("pnpm", Some(PackageManagerKind::Bun), Some(PackageManagerKind::Pnpm)),
        ("pnpm@8", Some(PackageManagerKind::Bun), Some(PackageManagerKind::Pnpm)),
        ("bun", Some(PackageManagerKind::Npm), Some(PackageManagerKind::Npm)),
    ];
    for (decl, detected, expected) in cases {
        let mut pj = empty_pj();
        pj.packageManager = Some(decl.to_string());
        assert_eq!(
            ProjectRoot::resolve_package_manager_kind(&pj, *detected),
            *expected,
            "packageManager {:?}",
            decl
        );
    }
}

#[test]
fn test_to_package_json_path_join() {
    assert_eq!(to_package_json_path("./foo"), "./foo/package.json");
    assert_eq!(to_package_json_path("/foo/bar"), "/foo/bar/package.json");
    assert_eq!(to_package_json_path(""), "package.json");
}

#[test]
fn test_is_valid_base_dir_rules() {
    assert!(is_valid_base_dir("proj/packages/a", true));
    assert!(!is_valid_base_dir("proj/packages/a", false));
    assert!(!is_valid_base_dir("proj/node_modules/x", true));
    assert!(!is_valid_base_dir("proj/a/node_modules", true));
}

#[test]
fn test_get_package_name_declared_and_fallback() {
    let w = WorkspacePackage::new(
        "proj/packages/a".to_string(),
        PackageManagerKind::Npm,
        true,
        Ok(empty_pj()),
    )
    .unwrap();
    let (name, fallback) = w.get_package_name();
    assert_eq!(name, "a");
    assert_eq!(fallback, "proj/packages/a");

    let mut pj = empty_pj();
    pj.name = Some("@scope/a".to_string());
    let w2 = WorkspacePackage::new(
        "proj/packages/a".to_string(),
        PackageManagerKind::Npm,
        true,
        Ok(pj),
    )
    .unwrap();
    assert_eq!(w2.get_package_name().0, "@scope/a");
}

#[test]
fn test_validate_member_yarn_needs_name_and_version() {
    let w = WorkspacePackage::new(
        "p/a".to_string(),
        PackageManagerKind::Yarn,
        true,
        Ok(empty_pj()),
    )
    .unwrap();
    assert_eq!(
        w.validate_package_json_fields("p/a").unwrap_err(),
        Error::InvalidPackageJsonFieldsForYarn("p/a/package.json".to_string())
    );
}

#[test]
fn test_validate_member_bun_needs_name() {
    let w = WorkspacePackage::new(
        "p/a".to_string(),
        PackageManagerKind::Bun,
        true,
        Ok(empty_pj()),
    )
    .unwrap();
    assert_eq!(
        w.validate_package_json_fields("p/a").unwrap_err(),
        Error::InvalidPackageJsonFieldsForBun("p/a/package.json".to_string())
    );
}

#[test]
fn test_member_rejects_node_modules_dir() {
    let r = WorkspacePackage::new(
        "p/node_modules/a".to_string(),
        PackageManagerKind::Npm,
        true,
        Ok(empty_pj()),
    );
    assert_eq!(r.unwrap_err(), Error::InvalidWorkspace("p/node_modules/a".to_string()));
}

// Yarn root with non-empty workspaces and no "private": true fails,
// whatever the member manifests hold
#[test]
fn test_yarn_root_private_required() {
    let mut pj = empty_pj();
    pj.workspaces = Some(vec!["packages/*".to_string()]);
    let r = ProjectRoot::new(
        "tests/fixtures/workspaces/yarn_private_false",
        Some(PackageManagerKind::Yarn),
        Ok(pj),
        vec![],
    );
    assert_eq!(
        r.unwrap_err(),
        Error::InvalidPackageJsonPrivateForYarn(
            "tests/fixtures/workspaces/yarn_private_false/package.json".to_string()
        )
    );
}

#[test]
fn test_yarn_root_private_true_accepted() {
    let mut pj = empty_pj();
    pj.workspaces = Some(vec!["packages/*".to_string()]);
    pj.private = Some(true);
    let r = ProjectRoot::new("p", Some(PackageManagerKind::Yarn), Ok(pj), vec![]);
    assert!(r.is_ok());
}

// npm workspaces ["packages/*", "!packages/c"]: c is matched by the glob
// then removed by the negated pattern, so the fingerprint excludes it
#[test]
fn test_npm_workspace_negation_scenario() {
    let patterns = Some(vec!["packages/*".to_string(), "!packages/c".to_string()]);
    let matches: Vec<Option<Vec<String>>> = vec![
        Some(vec![
            "packages/a".to_string(),
            "packages/b".to_string(),
            "packages/c".to_string(),
        ]),
        Some(vec!["packages/c".to_string()]),
    ];
    let ws = Workspaces::new(
        PackageManagerKind::Npm,
        &patterns,
        &Err(Error::Any("unused".to_string())),
        &matches,
    );
    assert_eq!(ws.packages, vec!["packages/a".to_string(), "packages/b".to_string()]);

    let candidates: Vec<MemberCandidate> = ws
        .packages
        .iter()
        .map(|p| {
            let short = p.rsplit('/').next().unwrap();
            candidate(p, Some(short), Some("0.1.0"))
        })
        .collect();
    let members = ProjectRoot::resolve_workspaces(PackageManagerKind::Npm, candidates);
    let keys: Vec<&str> = members.entries.iter().map(|e| e.0.as_str()).collect();
    assert_eq!(keys, vec!["a", "b"]);
}

// yarn and bun evaluate patterns independently: the negation is not
// honoured and c stays
#[test]
fn test_yarn_workspace_no_negation() {
    let patterns = Some(vec!["packages/*".to_string(), "!packages/c".to_string()]);
    let matches: Vec<Option<Vec<String>>> = vec![
        Some(vec![
            "packages/a".to_string(),
            "packages/b".to_string(),
            "packages/c".to_string(),
        ]),
        // the pattern "!packages/c" is globbed literally and matches nothing
        Some(vec![]),
    ];
    let ws = Workspaces::new(
        PackageManagerKind::Yarn,
        &patterns,
        &Err(Error::Any("unused".to_string())),
        &matches,
    );
    assert_eq!(
        ws.packages,
        vec![
            "packages/a".to_string(),
            "packages/b".to_string(),
            "packages/c".to_string(),
        ]
    );
}

#[test]
fn test_pnpm_workspace_paths() {
    let paths = PnpmWorkspace::to_pnpm_workspace("proj");
    assert_eq!(
        paths,
        vec![
            "proj/pnpm-workspace.yaml".to_string(),
            "proj/pnpm-workspace.yml".to_string(),
        ]
    );
    let matches: Vec<Option<Vec<String>>> = vec![];
    let missing = Workspaces::resolve_pnpm_workspaces(
        &Err(Error::NoEntry(vec!["proj/pnpm-workspace.yaml".to_string()])),
        &matches,
    );
    assert!(missing.is_empty());
}

// members indexed by resolved name; on a collision the later member falls
// back to its full path key
#[test]
fn test_member_name_collision_fallback() {
    let candidates = vec![
        candidate("p/a", Some("dup"), Some("1.0.0")),
        candidate("p/b", Some("dup"), Some("2.0.0")),
    ];
    let members = ProjectRoot::resolve_workspaces(PackageManagerKind::Npm, candidates);
    let keys: Vec<&str> = members.entries.iter().map(|e| e.0.as_str()).collect();
    assert_eq!(keys, vec!["dup", "p/b"]);
}

#[test]
fn test_root_dependencies_collected() {
    let mut pj = empty_pj();
    pj.devDependencies = Some(deps(&[("typescript", "^5.3.3")]));
    let r = ProjectRoot::new("p", Some(PackageManagerKind::Npm), Ok(pj), vec![]).unwrap();
    assert_eq!(r.kind, PackageManagerKind::Npm);
    assert_eq!(r.root.dev_dependencies.entries.len(), 1);
    assert_eq!(r.root.dev_dependencies.entries[0].0, "typescript");
    assert_eq!(r.root.dev_dependencies.entries[0].1, "^5.3.3");
    assert!(r.root.dependencies.entries.is_empty());
}

#[test]
fn test_new_without_kind_or_declaration_fails() {
    let r = ProjectRoot::new("p", None, Ok(empty_pj()), vec![]);
    assert_eq!(r.unwrap_err(), Error::NoLockfile("p".to_string()));
}

#[test]
fn test_root_manifest_error_propagates() {
    let r = ProjectRoot::new(
        "p",
        Some(PackageManagerKind::Npm),
        Err(Error::NoEntry(vec!["p/package.json".to_string()])),
        vec![],
    );
    assert_eq!(r.unwrap_err(), Error::NoEntry(vec!["p/package.json".to_string()]));
}

// one malformed or missing member does not abort resolution: it is
// excluded and the rest are kept
#[test]
fn test_malformed_member_excluded() {
    let bad = MemberCandidate {
        base_dir: "p/bad".to_string(),
        is_dir: true,
        manifest: Err(Error::Parse(
            vec!["p/bad/package.json".to_string()],
            "unexpected token".to_string(),
        )),
    };
    let gone = MemberCandidate {
        base_dir: "p/gone".to_string(),
        is_dir: false,
        manifest: Err(Error::NoEntry(vec!["p/gone/package.json".to_string()])),
    };
    let good = candidate("p/a", Some("a"), Some("1.0.0"));
    let members =
        ProjectRoot::resolve_workspaces(PackageManagerKind::Npm, vec![bad, gone, good]);
    let keys: Vec<&str> = members.entries.iter().map(|e| e.0.as_str()).collect();
    assert_eq!(keys, vec!["a"]);
}

// members are indexed in name order whatever order discovery found them
#[test]
fn test_member_order_is_canonical() {
    let forward = ProjectRoot::resolve_workspaces(
        PackageManagerKind::Npm,
        vec![
            candidate("p/z", Some("zeta"), None),
            candidate("p/a", Some("alpha"), None),
            candidate("p/m", Some("mid"), None),
        ],
    );
    let backward = ProjectRoot::resolve_workspaces(
        PackageManagerKind::Npm,
        vec![
            candidate("p/m", Some("mid"), None),
            candidate("p/a", Some("alpha"), None),
            candidate("p/z", Some("zeta"), None),
        ],
    );
    let fk: Vec<&str> = forward.entries.iter().map(|e| e.0.as_str()).collect();
    let bk: Vec<&str> = backward.entries.iter().map(|e| e.0.as_str()).collect();
    assert_eq!(fk, vec!["alpha", "mid", "zeta"]);
    assert_eq!(fk, bk);
}
