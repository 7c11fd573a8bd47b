use syncnm::errors::Error;
use syncnm::lockfile::Lockfile;
use syncnm::package_manager::PackageManagerKind;

fn present(names: &[&str]) -> Vec<String> {
    names.iter().map(|n| n.to_string()).collect()
}

#[test]
fn test_new_nope() {
    let lockfile = Lockfile::new("tests/fixtures/lockfile/nope", &present(&[]));
    assert_eq!(
        lockfile.unwrap_err(),
        Error::NoLockfile(String::from("tests/fixtures/lockfile/nope"))
    );
}

#[test]
fn test_new_multiple() {
    let entries = present(&[
        "bun.lockb",
        "package-lock.json",
        "pnpm-lock.yaml",
        "yarn.lock",
    ]);
    let lockfile = Lockfile::new("tests/fixtures/lockfile/multiple", &entries);
    assert_eq!(
        lockfile.unwrap_err(),
        Error::MultipleLockfiles(
            String::from("tests/fixtures/lockfile/multiple"),
            [
                "tests/fixtures/lockfile/multiple/bun.lockb",
                "tests/fixtures/lockfile/multiple/package-lock.json",
                "tests/fixtures/lockfile/multiple/pnpm-lock.yaml",
                "tests/fixtures/lockfile/multiple/yarn.lock",
            ]
            .iter()
            .map(|p| p.to_string())
            .collect::<Vec<_>>()
        )
    );
}

#[test]
fn test_new_npm() {
    let l = Lockfile::new("./tests/fixtures/lockfile/npm", &present(&["package-lock.json"])).unwrap();
    assert_eq!(l.kind, PackageManagerKind::Npm);
    assert_eq!(l.path, "./tests/fixtures/lockfile/npm/package-lock.json");
}

#[test]
fn test_new_yarn() {
    let l = Lockfile::new("./tests/fixtures/lockfile/yarn", &present(&["yarn.lock"])).unwrap();
    assert_eq!(l.kind, PackageManagerKind::Yarn);
    assert_eq!(l.path, "./tests/fixtures/lockfile/yarn/yarn.lock");
}

#[test]
fn test_new_pnpm() {
    let l = Lockfile::new("./tests/fixtures/lockfile/pnpm", &present(&["pnpm-lock.yaml"])).unwrap();
    assert_eq!(l.kind, PackageManagerKind::Pnpm);
    assert_eq!(l.path, "./tests/fixtures/lockfile/pnpm/pnpm-lock.yaml");
}

#[test]
fn test_new_bun() {
    let l = Lockfile::new("./tests/fixtures/lockfile/bun", &present(&["bun.lockb"])).unwrap();
    assert_eq!(l.kind, PackageManagerKind::Bun);
    assert_eq!(l.path, "./tests/fixtures/lockfile/bun/bun.lockb");
}

// the tie-break: only bun.lockb plus yarn.lock resolves to Bun
#[test]
fn test_new_bun_yarn_tie_break() {
    let l = Lockfile::new(
        "./tests/fixtures/lockfile/bun_yarn",
        &present(&["bun.lockb", "yarn.lock"]),
    )
    .unwrap();
    assert_eq!(l.kind, PackageManagerKind::Bun);
    assert_eq!(l.path, "./tests/fixtures/lockfile/bun_yarn/bun.lockb");
}

// any other pair of lockfiles is ambiguous
#[test]
fn test_new_npm_yarn_conflict() {
    let r = Lockfile::new("proj", &present(&["package-lock.json", "yarn.lock"]));
    assert_eq!(
        r.unwrap_err(),
        Error::MultipleLockfiles(
            String::from("proj"),
            vec![
                String::from("proj/package-lock.json"),
                String::from("proj/yarn.lock"),
            ]
        )
    );
}

// unrelated directory entries do not disturb detection
#[test]
fn test_new_ignores_other_entries() {
    let l = Lockfile::new("p", &present(&["README.md", "yarn.lock", "src"])).unwrap();
    assert_eq!(l.kind, PackageManagerKind::Yarn);
}

#[test]
fn test_to_lockfile_names() {
    assert_eq!(PackageManagerKind::Npm.to_lockfile_names(), vec!["package-lock.json"]);
    assert_eq!(PackageManagerKind::Yarn.to_lockfile_names(), vec!["yarn.lock"]);
    assert_eq!(PackageManagerKind::Pnpm.to_lockfile_names(), vec!["pnpm-lock.yaml"]);
    assert_eq!(PackageManagerKind::Bun.to_lockfile_names(), vec!["bun.lockb"]);
}

#[test]
fn test_to_corepack_name() {
    assert_eq!(PackageManagerKind::Npm.to_corepack_name(), Some("npm"));
    assert_eq!(PackageManagerKind::Yarn.to_corepack_name(), Some("yarn"));
    assert_eq!(PackageManagerKind::Pnpm.to_corepack_name(), Some("pnpm"));
    assert_eq!(PackageManagerKind::Bun.to_corepack_name(), None);
}
