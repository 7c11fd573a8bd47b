//! The run orchestrator: detection, key derivation, cache lookup, and the
//! decisions between the restore-hit path and the evict-install-commit
//! path, all as pure functions of what the surrounding process observed.
//! The surrounding process executes the planned filesystem steps and the
//! external installer; every decision is made and proved here.
use vstd::prelude::*;

use crate::cache::{
    apply_op, current_of, ops_views, op_view, slot_matches, Cache, FsEntry, FsOp, Metadata, OpV,
    SlotKind,
};
use crate::encode::{enc_project, project_doc};
use crate::errors::Error;
use crate::hash::{digest_of_bytes, digest_of_chars, generate_hash_bytes};
use crate::lockfile::{detected_kind, has_file, Lockfile};
use crate::package_json::{deps_or_empty, PackageJson};
use crate::package_manager::{spec_executable, PackageManager, PackageManagerKind};
use crate::path::DirKey;
use crate::project::{
    dep_views, distinct_accepted_names, lemma_resolve_order_independent, resolve_fold,
    resolved_kind, yarn_private_violated, MemberCandidate, MemberDoc, ProjectRoot,
};
use crate::strutil::{join_path, join_path_exec};

verus! {

/// The live dependency directory of a project root.
pub fn to_node_modules_dir(base_dir: &str) -> (r: String)
    ensures
        r@ == join_path(base_dir@, "node_modules"@),
{
    join_path_exec(base_dir, "node_modules")
}

/// The composite cache key: lockfile digest, fingerprint digest, and
/// directory identity, joined literally so the identity stays legible.
pub open spec fn cache_key_of(lock: Seq<u8>, doc: Seq<char>, dk: Seq<char>) -> Seq<char> {
    digest_of_bytes(lock) + seq!['-'] + digest_of_chars(doc) + seq!['-'] + dk
}

/// The fingerprint document determined by the detection inputs alone: the
/// root manifest's maps and the folded member candidates.
pub open spec fn doc_of_inputs(
    pj: PackageJson,
    k: PackageManagerKind,
    cs: Seq<MemberCandidate>,
) -> Seq<char> {
    enc_project(
        MemberDoc {
            name: Seq::empty(),
            version: Seq::empty(),
            dependencies: dep_views(deps_or_empty(pj.dependencies)),
            dev_dependencies: dep_views(deps_or_empty(pj.devDependencies)),
            peer_dependencies: dep_views(deps_or_empty(pj.peerDependencies)),
            overrides: dep_views(deps_or_empty(pj.overrides)),
            optional_dependencies: dep_views(deps_or_empty(pj.optionalDependencies)),
        },
        resolve_fold(k, cs),
    )
}

/// Derive the composite cache key for a project.
pub fn generate_cache_key(
    lockfile_bytes: &Vec<u8>,
    project: &ProjectRoot,
    dir_key: &DirKey,
) -> (r: crate::hash::Hash)
    ensures
        r.0@ == cache_key_of(lockfile_bytes@, project_doc(*project), dir_key.0@),
        r.0@.len() == 66 + dir_key.0@.len(),
{
    proof {
        reveal_strlit("-");
    }
    let lockfile_hash = generate_hash_bytes(lockfile_bytes);
    let project_hash = project.generate_hash();
    let mut s = lockfile_hash.0;
    s.append("-");
    s.append(project_hash.0.as_str());
    s.append("-");
    s.append(dir_key.0.as_str());
    proof {
        assert("-"@ =~= seq!['-']);
        assert(s@ =~= cache_key_of(lockfile_bytes@, project_doc(*project), dir_key.0@));
    }
    crate::hash::Hash(s)
}

/// Equal keys have equal parts: the two digests and the directory
/// identity can be read back off the key, so a key collision forces a
/// collision of the digests themselves.
pub proof fn lemma_key_components(
    l1: Seq<u8>,
    d1: Seq<char>,
    k1: Seq<char>,
    l2: Seq<u8>,
    d2: Seq<char>,
    k2: Seq<char>,
)
    requires
        cache_key_of(l1, d1, k1) == cache_key_of(l2, d2, k2),
        digest_of_bytes(l1).len() == 32,
        digest_of_bytes(l2).len() == 32,
        digest_of_chars(d1).len() == 32,
        digest_of_chars(d2).len() == 32,
    ensures
        digest_of_bytes(l1) == digest_of_bytes(l2),
        digest_of_chars(d1) == digest_of_chars(d2),
        k1 == k2,
{
    let s1 = cache_key_of(l1, d1, k1);
    let s2 = cache_key_of(l2, d2, k2);
    assert(digest_of_bytes(l1) =~= s1.subrange(0, 32));
    assert(digest_of_bytes(l2) =~= s2.subrange(0, 32));
    assert(digest_of_chars(d1) =~= s1.subrange(33, 65));
    assert(digest_of_chars(d2) =~= s2.subrange(33, 65));
    assert(k1 =~= s1.skip(66));
    assert(k2 =~= s2.skip(66));
}

/// What a run decides after detection and cache lookup.
#[derive(Debug)]
pub enum RunOutcome {
    /// The cache slot satisfied the request: execute these steps and stop
    /// without installing.
    Hit(Vec<FsOp>),
    /// No usable cache entry: park the live directory if asked, then run
    /// this installer, then commit.
    Miss { revoke: Option<FsOp>, install: PackageManager },
    /// The run cannot continue.
    Fatal(Error),
}

/// Everything the commit step produces: the fresh key, the symlink that
/// marks its slot live, and the updated journal to persist.
#[derive(Debug)]
pub struct CommitPlan {
    pub key: crate::hash::Hash,
    pub link: FsOp,
    pub metadata: Metadata,
}

/// The first phase of a run: detect the lockfile, build the fingerprint,
/// and either plan the restore (hit) or hand back the install decision
/// (miss). Detection failure skips the cache and goes straight to the
/// install path; a fingerprint failure is fatal.
///
/// `present` holds the names in the project root, `slot` what a stat of
/// the derived key's cache slot showed, `lockfile_bytes` the read of the
/// detected lockfile, and `cache` the store handle if one could be built.
#[verifier::rlimit(60)]
pub fn run(
    base_dir: &str,
    present: &Vec<String>,
    root_manifest: Result<PackageJson, Error>,
    candidates: Vec<MemberCandidate>,
    lockfile_bytes: &Result<Vec<u8>, Error>,
    dir_key: &DirKey,
    cache: &Option<Cache>,
    slot: SlotKind,
) -> (r: RunOutcome)
    ensures
        ({
            let npm = has_file(present@, "package-lock.json"@);
            let yarn = has_file(present@, "yarn.lock"@);
            let pnpm = has_file(present@, "pnpm-lock.yaml"@);
            let bun = has_file(present@, "bun.lockb"@);
            let det = detected_kind(npm, yarn, pnpm, bun);
            &&& (root_manifest is Err ==> r == RunOutcome::Fatal(root_manifest->Err_0))
            &&& (root_manifest is Ok ==> {
                let pj = root_manifest->Ok_0;
                match resolved_kind(pj, det) {
                    None => r matches RunOutcome::Fatal(e) && e matches Error::NoLockfile(p)
                        && p@ == base_dir@,
                    Some(k) => {
                        if yarn_private_violated(k, pj) {
                            r matches RunOutcome::Fatal(e)
                                && e matches Error::InvalidPackageJsonPrivateForYarn(_p)
        } else {
                            let key = cache_key_of(
                                lockfile_bytes->Ok_0@,
                                doc_of_inputs(pj, k, candidates@),
                                dir_key.0@,
                            );
                            let c = (*cache)->Some_0;
                            &&& (det is None ==> (r matches RunOutcome::Miss {
                                revoke,
                                install,
                            } && revoke is None && install.executable_name@
                                == spec_executable(k)))
                            &&& (det is Some && *cache is None ==> (r
                                matches RunOutcome::Miss {
                                revoke,
                                install,
                            } && revoke is None && install.executable_name@
                                == spec_executable(k)))
                            &&& (det is Some && *cache is Some && lockfile_bytes is Ok
                                && slot == SlotKind::Link ==> (r matches RunOutcome::Hit(ops)
                                && ops@.len() == 0))
                            &&& (det is Some && *cache is Some && lockfile_bytes is Ok
                                && slot == SlotKind::Dir
                                ==> (match current_of(c.metadata.contents@, dir_key.0@) {
                                Some(cur) => {
                                    if cur == key {
                                        r matches RunOutcome::Hit(ops) && ops@.len() == 0
                                    } else {
                                        r matches RunOutcome::Hit(ops)
                                            && ops_views(ops@) =~= seq![
                                            OpV::Rename(
                                                c.target_dir@,
                                                join_path(c.cache_dir@, cur),
                                            ),
                                            OpV::Rename(
                                                join_path(c.cache_dir@, key),
                                                c.target_dir@,
                                            ),
                                        ]
                                    }
                                }
                                None => r matches RunOutcome::Hit(ops) && ops_views(ops@)
                                    =~= seq![
                                    OpV::Rename(join_path(c.cache_dir@, key), c.target_dir@),
                                ],
                            }))
                            &&& (det is Some && *cache is Some
                                && (lockfile_bytes is Err || slot == SlotKind::Missing)
                                ==> (r matches RunOutcome::Miss { revoke, install }
                                && install.executable_name@ == spec_executable(k)
                                && (match current_of(c.metadata.contents@, dir_key.0@) {
                                Some(cur) => revoke matches Some(op) && op_view(op)
                                    == OpV::Rename(
                                    c.target_dir@,
                                    join_path(c.cache_dir@, cur),
                                ),
                                None => revoke is None,
                            })))
                        }
                    }
                }
            })
        }),
{
    let detection = Lockfile::new(base_dir, present);
    let lockfile_kind = match &detection {
        Ok(l) => Some(l.kind),
        Err(_) => None,
    };
    let ghost cs = candidates@;
    let project = match ProjectRoot::new(base_dir, lockfile_kind, root_manifest, candidates) {
        Ok(p) => p,
        Err(e) => {
            return RunOutcome::Fatal(e);
        }
    };
    proof {
        assert(project_doc(project) == doc_of_inputs(
            root_manifest->Ok_0,
            project.kind,
            cs,
        )) by {
            assert(crate::encode::root_doc_of(project.root) == MemberDoc {
                name: Seq::empty(),
                version: Seq::empty(),
                dependencies: dep_views(deps_or_empty(root_manifest->Ok_0.dependencies)),
                dev_dependencies: dep_views(deps_or_empty(root_manifest->Ok_0.devDependencies)),
                peer_dependencies: dep_views(deps_or_empty(
                    root_manifest->Ok_0.peerDependencies,
                )),
                overrides: dep_views(deps_or_empty(root_manifest->Ok_0.overrides)),
                optional_dependencies: dep_views(deps_or_empty(
                    root_manifest->Ok_0.optionalDependencies,
                )),
            });
            assert(crate::project::ws_view(project.workspaces@)
                == resolve_fold(project.kind, cs));
        }
    }
    match detection {
        Ok(_lockfile) => {
            match cache {
                Some(c) => {
                    match lockfile_bytes {
                        Ok(bytes) => {
                            let key = generate_cache_key(bytes, &project, dir_key);
                            match c.restore(dir_key, &key, slot) {
                                Ok(ops) => {
                                    return RunOutcome::Hit(ops);
                                }
                                Err(_) => {}
                            }
                        }
                        Err(_) => {}
                    }
                    let revoke = c.revoke_current_cache(dir_key);
                    RunOutcome::Miss {
                        revoke,
                        install: PackageManager::from_kind(project.kind),
                    }
                }
                None => RunOutcome::Miss {
                    revoke: None,
                    install: PackageManager::from_kind(project.kind),
                },
            }
        }
        Err(_) => RunOutcome::Miss {
            revoke: None,
            install: PackageManager::from_kind(project.kind),
        },
    }
}

/// The second phase of a run, after the installer succeeded: re-detect
/// the lockfile, rederive the fingerprint and key from the post-install
/// state, and plan the commit. Any failure here is fatal, since an
/// unrecorded state could never be restored later.
pub fn run_commit(
    base_dir: &str,
    present: &Vec<String>,
    root_manifest: Result<PackageJson, Error>,
    candidates: Vec<MemberCandidate>,
    lockfile_bytes: Result<Vec<u8>, Error>,
    dir_key: &DirKey,
    cache: Cache,
    branch: String,
    commit: String,
) -> (r: Result<CommitPlan, Error>)
    requires
        cache.metadata.contents.wf(),
    ensures
        ({
            let npm = has_file(present@, "package-lock.json"@);
            let yarn = has_file(present@, "yarn.lock"@);
            let pnpm = has_file(present@, "pnpm-lock.yaml"@);
            let bun = has_file(present@, "bun.lockb"@);
            let det = detected_kind(npm, yarn, pnpm, bun);
            &&& (det is None ==> r is Err)
            &&& (det is Some && root_manifest is Err
                ==> r == Err::<CommitPlan, Error>(root_manifest->Err_0))
            &&& (det is Some && root_manifest is Ok ==> {
                let pj = root_manifest->Ok_0;
                match resolved_kind(pj, det) {
                    None => r is Err,
                    Some(k) => {
                        if yarn_private_violated(k, pj) {
                            r is Err
                        } else if lockfile_bytes is Err {
                            r == Err::<CommitPlan, Error>(lockfile_bytes->Err_0)
                        } else {
                            let key = cache_key_of(
                                lockfile_bytes->Ok_0@,
                                doc_of_inputs(pj, k, candidates@),
                                dir_key.0@,
                            );
                            r matches Ok(plan) && plan.key.0@ == key
                                && op_view(plan.link) == OpV::Symlink(
                                cache.target_dir@,
                                join_path(cache.cache_dir@, key),
                            ) && plan.metadata.contents.wf()
                                && current_of(plan.metadata.contents@, dir_key.0@)
                                    == Some(key)
                                && (forall|q: Seq<char>| q != dir_key.0@
                                    ==> #[trigger] crate::smap::spec_gete(
                                    plan.metadata.contents@,
                                    q,
                                ) == crate::smap::spec_gete(cache.metadata.contents@, q))
                        }
                    }
                }
            })
        }),
{
    let detection = Lockfile::new(base_dir, present);
    let lockfile = match detection {
        Ok(l) => l,
        Err(e) => {
            return Err(e);
        }
    };
    let ghost cs = candidates@;
    let project = match ProjectRoot::new(
        base_dir,
        Some(lockfile.kind),
        root_manifest,
        candidates,
    ) {
        Ok(p) => p,
        Err(e) => {
            return Err(e);
        }
    };
    proof {
        assert(project_doc(project) == doc_of_inputs(
            root_manifest->Ok_0,
            project.kind,
            cs,
        )) by {
            assert(crate::encode::root_doc_of(project.root) == MemberDoc {
                name: Seq::empty(),
                version: Seq::empty(),
                dependencies: dep_views(deps_or_empty(root_manifest->Ok_0.dependencies)),
                dev_dependencies: dep_views(deps_or_empty(root_manifest->Ok_0.devDependencies)),
                peer_dependencies: dep_views(deps_or_empty(
                    root_manifest->Ok_0.peerDependencies,
                )),
                overrides: dep_views(deps_or_empty(root_manifest->Ok_0.overrides)),
                optional_dependencies: dep_views(deps_or_empty(
                    root_manifest->Ok_0.optionalDependencies,
                )),
            });
            assert(crate::project::ws_view(project.workspaces@)
                == resolve_fold(project.kind, cs));
        }
    }
    let bytes = match lockfile_bytes {
        Ok(b) => b,
        Err(e) => {
            return Err(e);
        }
    };
    let key = generate_cache_key(&bytes, &project, dir_key);
    let planned = cache.save(dir_key, &key, branch, commit);
    Ok(CommitPlan { key, link: planned.0, metadata: planned.1 })
}

/// Miss, then hit: with no entry at a key's slot the restore contract can
/// only report the miss, so the run takes the install path; once the
/// commit's symlink is applied the same slot observes as live, and the
/// restore contract plans no operations at all — the second run with
/// unchanged inputs is a hit without an install.
pub proof fn lemma_miss_then_hit(
    m: Map<Seq<char>, FsEntry>,
    target: Seq<char>,
    slot_path: Seq<char>,
)
    requires
        !m.dom().contains(slot_path),
    ensures
        slot_matches(m, slot_path, SlotKind::Missing),
        slot_matches(
            apply_op(m, OpV::Symlink(target, slot_path)),
            slot_path,
            SlotKind::Link,
        ),
{
}

/// Determinism of the cache key: for fixed manifest values and lockfile
/// bytes the key is one fixed character sequence, independent of the
/// order workspace member directories were discovered in, as long as no
/// two accepted members resolve to the same name.
pub proof fn lemma_key_order_independent(
    pj: PackageJson,
    k: PackageManagerKind,
    cs1: Seq<MemberCandidate>,
    cs2: Seq<MemberCandidate>,
    lock: Seq<u8>,
    dk: Seq<char>,
)
    requires
        cs1.to_multiset() == cs2.to_multiset(),
        distinct_accepted_names(k, cs1),
        distinct_accepted_names(k, cs2),
    ensures
        cache_key_of(lock, doc_of_inputs(pj, k, cs1), dk)
            == cache_key_of(lock, doc_of_inputs(pj, k, cs2), dk),
{
    lemma_resolve_order_independent(k, cs1, cs2);
}

/// Determinism across repeated runs: the key is a spec-level function of
/// the lockfile bytes, the canonical document, and the directory
/// identity, so equal inputs give the identical key.
pub proof fn lemma_key_deterministic(
    lock: Seq<u8>,
    p1: ProjectRoot,
    p2: ProjectRoot,
    dk: Seq<char>,
)
    requires
        project_doc(p1) == project_doc(p2),
    ensures
        cache_key_of(lock, project_doc(p1), dk) == cache_key_of(lock, project_doc(p2), dk),
{
}

} // verus!
