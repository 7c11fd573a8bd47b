use syncnm::cache::{Cache, FsOp, Metadata, SlotKind};
use syncnm::errors::Error;
use syncnm::package_json::PackageJson;
use syncnm::package_manager::PackageManagerKind;
use syncnm::path::{to_dir_key, DirKey};
use syncnm::project::ProjectRoot;
use syncnm::runner::{
    generate_cache_key, run, run_commit, to_node_modules_dir, RunOutcome,
};

fn empty_manifest() -> PackageJson {
    PackageJson {
        name: None,
        version: None,
        private: None,
        packageManager: None,
        dependencies: None,
        devDependencies: None,
        peerDependencies: None,
        overrides: None,
        optionalDependencies: None,
        workspaces: None,
    }
}

fn fresh_cache() -> Cache {
    Cache {
        base_dir: "/home/user/tests/fixtures/core".to_string(),
        target_dir: "/home/user/tests/fixtures/core/node_modules".to_string(),
        cache_dir: "/store".to_string(),
        metadata: Metadata::from_entries("/store/metadata.json".to_string(), vec![]),
    }
}

fn strings(names: &[&str]) -> Vec<String> {
    names.iter().map(|n| n.to_string()).collect()
}

#[test]
fn test_to_node_modules_dir() {
    assert_eq!(to_node_modules_dir("proj"), "proj/node_modules");
}

#[test]
fn test_to_dir_key_strips_home() {
    let home = strings(&["home", "user"]);
    assert_eq!(
        to_dir_key(&strings(&["home", "user", "a", "b", "c", "d"]), &home),
        DirKey("a_b_c_d".to_string())
    );
    // case-insensitive home comparison
    assert_eq!(
        to_dir_key(&strings(&["Home", "User", "a"]), &home),
        DirKey("a".to_string())
    );
    // a path outside the home directory keeps all components
    assert_eq!(
        to_dir_key(&strings(&["var", "tmp", "a"]), &home),
        DirKey("var_tmp_a".to_string())
    );
}

#[test]
fn test_generate_cache_key() {
    let components = strings(&["home", "user", "tests", "fixtures", "core"]);
    let home = strings(&["home", "user"]);
    let dir_key = to_dir_key(&components, &home);
    let project = ProjectRoot::new(
        "tests/fixtures/core",
        Some(PackageManagerKind::Npm),
        Ok(empty_manifest()),
        vec![],
    )
    .unwrap();
    let bytes: Vec<u8> = b"lockfile-bytes".to_vec();
    let result = generate_cache_key(&bytes, &project, &dir_key);
    assert_eq!(
        result.0,
        "qih3wlllij6t63622hskw5t23762ptj3-p3fvns6sk42vsrgx5bukzx3x4ybkf3j2-tests_fixtures_core"
    );
    // repeated derivation from the same inputs gives the identical key
    let again = generate_cache_key(&bytes, &project, &to_dir_key(&components, &home));
    assert_eq!(result, again);
}

#[test]
fn test_key_changes_with_each_component() {
    let home = strings(&["home", "user"]);
    let dk1 = to_dir_key(&strings(&["home", "user", "a"]), &home);
    let dk2 = to_dir_key(&strings(&["home", "user", "b"]), &home);
    let project = ProjectRoot::new(
        "p",
        Some(PackageManagerKind::Npm),
        Ok(empty_manifest()),
        vec![],
    )
    .unwrap();
    let mut with_dep = empty_manifest();
    let mut depmap = syncnm::smap::StrMap::new();
    depmap.insert("left-pad".to_string(), "^1.0.0".to_string());
    with_dep.dependencies = Some(depmap);
    let project2 = ProjectRoot::new(
        "p",
        Some(PackageManagerKind::Npm),
        Ok(with_dep),
        vec![],
    )
    .unwrap();
    let lock1: Vec<u8> = b"lock-one".to_vec();
    let lock2: Vec<u8> = b"lock-two".to_vec();
    let base = generate_cache_key(&lock1, &project, &dk1);
    // lockfile bytes changed
    assert_ne!(base, generate_cache_key(&lock2, &project, &dk1));
    // a dependency map changed
    assert_ne!(base, generate_cache_key(&lock1, &project2, &dk1));
    // the project moved
    assert_ne!(base, generate_cache_key(&lock1, &project, &dk2));
}

// first run: no prior entry, so the run takes the install path; after the
// commit the same inputs take the restore-hit path and plan no install
#[test]
fn test_miss_then_hit() {
    let base_dir = "/home/user/tests/fixtures/core";
    let present = strings(&["package-lock.json"]);
    let dir_key = DirKey("tests_fixtures_core".to_string());
    let lock: Vec<u8> = b"lockfile-bytes".to_vec();

    // run one: the derived key has no slot yet
    let outcome = run(
        base_dir,
        &present,
        Ok(empty_manifest()),
        vec![],
        &Ok(lock.clone()),
        &dir_key,
        &Some(fresh_cache()),
        SlotKind::Missing,
    );
    let install = match outcome {
        RunOutcome::Miss { revoke, install } => {
            assert_eq!(revoke, None);
            install
        }
        _ => panic!("expected the install path"),
    };
    assert_eq!(install.executable_name, "npm");
    assert_eq!(install.install_sub_command, "install");

    // the installer ran; commit the post-install state
    let plan = run_commit(
        base_dir,
        &present,
        Ok(empty_manifest()),
        vec![],
        Ok(lock.clone()),
        &dir_key,
        fresh_cache(),
        "branch".to_string(),
        "commit".to_string(),
    )
    .unwrap();
    assert_eq!(
        plan.link,
        FsOp::Symlink {
            target: "/home/user/tests/fixtures/core/node_modules".to_string(),
            link: format!("/store/{}", plan.key.0),
        }
    );

    // run two: unchanged inputs, the committed slot is now the live link
    let cache2 = Cache {
        base_dir: base_dir.to_string(),
        target_dir: "/home/user/tests/fixtures/core/node_modules".to_string(),
        cache_dir: "/store".to_string(),
        metadata: plan.metadata,
    };
    let second = run(
        base_dir,
        &present,
        Ok(empty_manifest()),
        vec![],
        &Ok(lock),
        &dir_key,
        &Some(cache2),
        SlotKind::Link,
    );
    match second {
        RunOutcome::Hit(ops) => assert!(ops.is_empty()),
        _ => panic!("expected a cache hit"),
    }
}

#[test]
fn test_run_without_lockfile_goes_to_install() {
    let mut pj = empty_manifest();
    pj.packageManager = Some("pnpm@9.0.0".to_string());
    let outcome = run(
        "p",
        &strings(&[]),
        Ok(pj),
        vec![],
        &Err(Error::NoLockfile("p".to_string())),
        &DirKey("p".to_string()),
        &None,
        SlotKind::Missing,
    );
    match outcome {
        RunOutcome::Miss { revoke, install } => {
            assert_eq!(revoke, None);
            assert_eq!(install.executable_name, "pnpm");
        }
        _ => panic!("expected the install path"),
    }
}

#[test]
fn test_run_without_any_kind_is_fatal() {
    let outcome = run(
        "p",
        &strings(&[]),
        Ok(empty_manifest()),
        vec![],
        &Err(Error::NoLockfile("p".to_string())),
        &DirKey("p".to_string()),
        &None,
        SlotKind::Missing,
    );
    match outcome {
        RunOutcome::Fatal(e) => assert_eq!(e, Error::NoLockfile("p".to_string())),
        _ => panic!("expected a fatal outcome"),
    }
}

#[test]
fn test_run_commit_requires_lockfile() {
    let r = run_commit(
        "p",
        &strings(&[]),
        Ok(empty_manifest()),
        vec![],
        Ok(vec![]),
        &DirKey("p".to_string()),
        fresh_cache(),
        "b".to_string(),
        "c".to_string(),
    );
    assert_eq!(r.unwrap_err(), Error::NoLockfile("p".to_string()));
}
