use syncnm::cache::{Cache, FsOp, Metadata, SlotKind};
use syncnm::errors::Error;
use syncnm::path::DirKey;

fn cache_with_current(current: Option<&str>) -> Cache {
    let metadata = Metadata::from_entries("/store/metadata.json".to_string(), vec![]);
    let metadata = match current {
        Some(key) => metadata.update(
            &DirKey("home_app".to_string()),
            &syncnm::hash::Hash(key.to_string()),
            "branch".to_string(),
            "commit".to_string(),
        ),
        None => metadata,
    };
    Cache {
        base_dir: "/home/user/app".to_string(),
        target_dir: "/home/user/app/node_modules".to_string(),
        cache_dir: "/store".to_string(),
        metadata,
    }
}

#[test]
fn test_to_cache_path() {
    let c = cache_with_current(None);
    assert_eq!(c.to_cache_path(&syncnm::hash::Hash("abc".to_string())), "/store/abc");
}

#[test]
fn test_find_current_cache() {
    let dk = DirKey("home_app".to_string());
    assert_eq!(cache_with_current(None).find_current_cache(&dk), None);
    assert_eq!(
        cache_with_current(Some("key-a")).find_current_cache(&dk),
        Some(syncnm::hash::Hash("key-a".to_string()))
    );
}

#[test]
fn test_metadata_update_records_current_and_history() {
    let dk = DirKey("home_app".to_string());
    let m = Metadata::from_entries("/store/metadata.json".to_string(), vec![]);
    let m = m.update(&dk, &syncnm::hash::Hash("k1".to_string()), "b".to_string(), "c".to_string());
    let m = m.update(&dk, &syncnm::hash::Hash("k2".to_string()), "b".to_string(), "c".to_string());
    assert_eq!(m.contents.entries.len(), 1);
    let entry = &m.contents.entries[0];
    assert_eq!(entry.0, "home_app");
    assert_eq!(entry.1.current_hash_key, Some(syncnm::hash::Hash("k2".to_string())));
    let history: Vec<&str> = entry.1.caches.entries.iter().map(|e| e.0.as_str()).collect();
    assert_eq!(history, vec!["k1", "k2"]);
}

// save then restore immediately: the slot is a symlink and restore plans
// no filesystem step at all
#[test]
fn test_save_then_restore_is_noop() {
    let dk = DirKey("home_app".to_string());
    let key = syncnm::hash::Hash("key-a".to_string());
    let c = cache_with_current(None);
    let target = c.target_dir.clone();
    let (link, metadata) = c.save(&dk, &key, "b".to_string(), "c".to_string());
    assert_eq!(
        link,
        FsOp::Symlink { target: target.clone(), link: "/store/key-a".to_string() }
    );
    let after = Cache {
        base_dir: "/home/user/app".to_string(),
        target_dir: target,
        cache_dir: "/store".to_string(),
        metadata,
    };
    // the slot now holds the live symlink
    let ops = after.restore(&dk, &key, SlotKind::Link).unwrap();
    assert!(ops.is_empty());
}

#[test]
fn test_revoke_current_parks_live_dir() {
    let dk = DirKey("home_app".to_string());
    let c = cache_with_current(Some("key-a"));
    assert_eq!(
        c.revoke_current_cache(&dk),
        Some(FsOp::Rename {
            from: "/home/user/app/node_modules".to_string(),
            to: "/store/key-a".to_string(),
        })
    );
    assert_eq!(cache_with_current(None).revoke_current_cache(&dk), None);
}

// restoring a parked snapshot B while A is recorded live: park the live
// directory under A, then move B's snapshot into place
#[test]
fn test_restore_swaps_parked_snapshot() {
    let dk = DirKey("home_app".to_string());
    let c = cache_with_current(Some("key-a"));
    let ops = c.restore(&dk, &syncnm::hash::Hash("key-b".to_string()), SlotKind::Dir).unwrap();
    assert_eq!(
        ops,
        vec![
            FsOp::Rename {
                from: "/home/user/app/node_modules".to_string(),
                to: "/store/key-a".to_string(),
            },
            FsOp::Rename {
                from: "/store/key-b".to_string(),
                to: "/home/user/app/node_modules".to_string(),
            },
        ]
    );
}

#[test]
fn test_restore_same_key_is_noop() {
    let dk = DirKey("home_app".to_string());
    let c = cache_with_current(Some("key-a"));
    let ops = c.restore(&dk, &syncnm::hash::Hash("key-a".to_string()), SlotKind::Dir).unwrap();
    assert!(ops.is_empty());
}

#[test]
fn test_restore_missing_slot_is_a_miss() {
    let dk = DirKey("home_app".to_string());
    let c = cache_with_current(None);
    let r = c.restore(&dk, &syncnm::hash::Hash("key-a".to_string()), SlotKind::Missing);
    assert_eq!(r.unwrap_err(), Error::NotDir("/store/key-a".to_string()));
}

#[test]
fn test_restore_dir_without_recorded_current() {
    let dk = DirKey("home_app".to_string());
    let c = cache_with_current(None);
    let ops = c.restore(&dk, &syncnm::hash::Hash("key-b".to_string()), SlotKind::Dir).unwrap();
    assert_eq!(
        ops,
        vec![FsOp::Rename {
            from: "/store/key-b".to_string(),
            to: "/home/user/app/node_modules".to_string(),
        }]
    );
}
