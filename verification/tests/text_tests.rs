use syncnm::errors::{stringify_install_command, stringify_path, to_error, Error};
use syncnm::glob::parse_negate;
use syncnm::hash::{generate_hash_bytes, generate_hash_str};
use syncnm::package_manager::{PackageManager, PackageManagerKind};
use syncnm::project::ProjectRoot;
use syncnm::strutil::{contains_exec, path_prefix_exec, str_lt_exec, u64_to_dec};

#[test]
fn test_parse_negate_cases() {
    let cases: &[(&str, bool, &str, bool)] = &[
        ("foo", true, "foo", false),
        ("!foo", true, "foo", true),
        ("!!foo", true, "foo", false),
        ("!!!foo", true, "foo", true),
        ("foo!bar", true, "foo!bar", false),
        ("foo!!!!!!!!!!bar", true, "foo!!!!!!!!!!bar", false),
        ("!foo", false, "!foo", false),
    ];
    for (pattern, enable, stripped, negate) in cases {
        assert_eq!(
            parse_negate(pattern.to_string(), *enable),
            (stripped.to_string(), *negate),
            "pattern {:?}",
            pattern
        );
    }
}

#[test]
fn test_str_lt_order() {
    assert!(str_lt_exec("a", "b"));
    assert!(str_lt_exec("a", "aa"));
    assert!(!str_lt_exec("b", "a"));
    assert!(!str_lt_exec("a", "a"));
    assert!(str_lt_exec("", "a"));
    assert!(str_lt_exec("abc", "abd"));
}

#[test]
fn test_contains_substring() {
    assert!(contains_exec("proj/node_modules/a", "node_modules"));
    assert!(!contains_exec("proj/packages/a", "node_modules"));
    assert!(contains_exec("abc", ""));
    assert!(!contains_exec("ab", "abc"));
}

#[test]
fn test_path_prefix_components() {
    assert!(path_prefix_exec("packages/c", "packages/c"));
    assert!(path_prefix_exec("packages/c/deep", "packages/c"));
    assert!(!path_prefix_exec("packages/cc", "packages/c"));
    assert!(!path_prefix_exec("packages", "packages/c"));
}

#[test]
fn test_u64_to_dec_renders() {
    assert_eq!(u64_to_dec(0), "0");
    assert_eq!(u64_to_dec(7), "7");
    assert_eq!(u64_to_dec(10), "10");
    assert_eq!(u64_to_dec(90210), "90210");
}

#[test]
fn test_generate_hash_known_values() {
    let h = generate_hash_bytes(&b"hello".to_vec());
    assert_eq!(h.0, "ftze3os7wcrq4jxihmvmlopctynrmhs4");
    assert_eq!(h.0.len(), 32);
    let e = generate_hash_bytes(&Vec::new());
    assert_eq!(e.0, "4oymiquy7qobjgx36tejs35zeqt24qpe");
    // the text digest hashes the same bytes the text encodes to
    assert_eq!(generate_hash_str("hello").0, "ftze3os7wcrq4jxihmvmlopctynrmhs4");
}

#[test]
fn test_fingerprint_document_shape() {
    let project = ProjectRoot::new(
        "p",
        Some(PackageManagerKind::Npm),
        Ok(syncnm::package_json::PackageJson {
            name: None,
            version: None,
            private: None,
            packageManager: None,
            dependencies: None,
            devDependencies: None,
            peerDependencies: None,
            overrides: None,
            optionalDependencies: None,
            workspaces: None,
        }),
        vec![],
    )
    .unwrap();
    // empty name, version, five empty maps, and an empty member list
    assert_eq!(project.to_hash_target(), "0:0:0:0:0:0:0:0:");
    assert_eq!(project.generate_hash().0, "p3fvns6sk42vsrgx5bukzx3x4ybkf3j2");
}

#[test]
fn test_stringify_path_joins() {
    let paths = vec!["/a/b".to_string(), "/c/d".to_string()];
    assert_eq!(stringify_path(&paths), "/a/b, /c/d");
    assert_eq!(stringify_path(&vec!["/only".to_string()]), "/only");
    assert_eq!(stringify_path(&Vec::new()), "");
}

#[test]
fn test_stringify_install_command_format() {
    let pm = PackageManager::from_kind(PackageManagerKind::Yarn);
    assert_eq!(stringify_install_command(&pm), "yarn install");
}

#[test]
fn test_to_error_wraps_message() {
    assert_eq!(to_error("boom".to_string()), Error::Any("boom".to_string()));
}

#[test]
fn test_error_logging_hooks_pass_through() {
    let e = Error::NotDir("/x".to_string());
    assert_eq!(e.clone().log_debug("detail"), e);
    assert_eq!(e.clone().log_warn(Some("prefix")), e);
    assert_eq!(e.clone().log_error(None), e);
}

#[test]
fn test_both_and_then_pairs() {
    assert_eq!(syncnm::option::both_and_then(Some(1), Some("a")), Some((1, "a")));
    assert_eq!(syncnm::option::both_and_then::<i32, &str>(Some(1), None), None);
    assert_eq!(syncnm::option::both_and_then::<i32, &str>(None, Some("a")), None);
}

#[test]
fn test_file_name_segments() {
    assert_eq!(syncnm::package_json::file_name_exec("a/b/c"), "c");
    assert_eq!(syncnm::package_json::file_name_exec("a/b/"), "b");
    assert_eq!(syncnm::package_json::file_name_exec("plain"), "plain");
    assert_eq!(syncnm::package_json::file_name_exec(""), "");
}

#[test]
fn test_str_map_insert_orders_and_replaces() {
    let mut m = syncnm::smap::StrMap::new();
    m.insert("b".to_string(), 2u32);
    m.insert("a".to_string(), 1u32);
    m.insert("c".to_string(), 3u32);
    let keys: Vec<&str> = m.entries.iter().map(|e| e.0.as_str()).collect();
    assert_eq!(keys, vec!["a", "b", "c"]);
    assert_eq!(m.get("b"), Some(&2));
    m.insert("b".to_string(), 9u32);
    assert_eq!(m.get("b"), Some(&9));
    assert_eq!(m.len(), 3);
    assert_eq!(m.get("d"), None);
    assert!(!m.contains_key("d"));
}

#[test]
fn test_dir_key_of_home_itself_is_empty() {
    let home = vec!["home".to_string(), "user".to_string()];
    assert_eq!(syncnm::path::to_dir_key(&home.clone(), &home).0, "");
    // an empty home strips nothing
    assert_eq!(
        syncnm::path::to_dir_key(&vec!["a".to_string()], &Vec::new()).0,
        "a"
    );
}
