//! The project root: dialect resolution from the manifest's
//! `packageManager` declaration, workspace member resolution into an
//! ordered, name-indexed map, and root-level Yarn validation.
use vstd::prelude::*;

use crate::errors::Error;
use crate::package_json::{
    deps_or_empty, file_name_of, to_package_json_path, PackageDependencies, PackageJson,
    WorkspacePackage,
};
use crate::package_manager::PackageManagerKind;
use crate::smap::{
    lemma_proj_gete, lemma_proj_insert, lemma_proj_sorted, lemma_spec_insert_sorted,
    lemma_vinsert_get, lemma_vinsert_sorted, lemma_vsorted_canonical, proj, spec_insert, vget,
    vinsert, vsorted, StrMap,
};
use crate::strutil::{contains_seq, is_prefix, starts_with_exec};

verus! {

/// The view of an optional string, absent meaning empty.
pub open spec fn opt_str_view(o: Option<String>) -> Seq<char> {
    match o {
        Some(s) => s@,
        None => Seq::empty(),
    }
}

/// Entry views of a dependency map.
pub open spec fn dep_views(s: Seq<(String, String)>) -> Seq<(Seq<char>, Seq<char>)> {
    s.map_values(|e: (String, String)| (e.0@, e.1@))
}

/// What the fingerprint reads of one workspace member: declared name and
/// version (absent meaning empty) and the five dependency maps.
#[verifier::ext_equal]
pub struct MemberDoc {
    pub name: Seq<char>,
    pub version: Seq<char>,
    pub dependencies: Seq<(Seq<char>, Seq<char>)>,
    pub dev_dependencies: Seq<(Seq<char>, Seq<char>)>,
    pub peer_dependencies: Seq<(Seq<char>, Seq<char>)>,
    pub overrides: Seq<(Seq<char>, Seq<char>)>,
    pub optional_dependencies: Seq<(Seq<char>, Seq<char>)>,
}

/// The document view of a resolved member.
pub open spec fn member_doc_of(w: WorkspacePackage) -> MemberDoc {
    MemberDoc {
        name: opt_str_view(w.original.name),
        version: opt_str_view(w.original.version),
        dependencies: dep_views(w.dependencies.dependencies@),
        dev_dependencies: dep_views(w.dependencies.dev_dependencies@),
        peer_dependencies: dep_views(w.dependencies.peer_dependencies@),
        overrides: dep_views(w.dependencies.overrides@),
        optional_dependencies: dep_views(w.dependencies.optional_dependencies@),
    }
}

/// A candidate member directory as discovery hands it over: its path,
/// whether it is a real directory, and its manifest parse outcome.
#[derive(Debug)]
pub struct MemberCandidate {
    pub base_dir: String,
    pub is_dir: bool,
    pub manifest: Result<PackageJson, Error>,
}

/// A candidate survives intake and per-dialect validation.
pub open spec fn candidate_accepted(kind: PackageManagerKind, c: MemberCandidate) -> bool {
    &&& c.is_dir
    &&& !contains_seq(c.base_dir@, "node_modules"@)
    &&& c.manifest is Ok
    &&& !(kind == PackageManagerKind::Yarn && (c.manifest->Ok_0.name is None
        || c.manifest->Ok_0.version is None))
    &&& !(kind == PackageManagerKind::Bun && c.manifest->Ok_0.name is None)
}

/// The name a candidate resolves under: its declared name, or its
/// directory's final path segment.
pub open spec fn candidate_name(c: MemberCandidate) -> Seq<char> {
    match c.manifest {
        Ok(pj) => match pj.name {
            Some(n) => n@,
            None => file_name_of(c.base_dir@),
        },
        Err(_) => file_name_of(c.base_dir@),
    }
}

/// The document view a candidate contributes.
pub open spec fn candidate_doc(c: MemberCandidate) -> MemberDoc {
    let pj = c.manifest->Ok_0;
    MemberDoc {
        name: opt_str_view(pj.name),
        version: opt_str_view(pj.version),
        dependencies: dep_views(deps_or_empty(pj.dependencies)),
        dev_dependencies: dep_views(deps_or_empty(pj.devDependencies)),
        peer_dependencies: dep_views(deps_or_empty(pj.peerDependencies)),
        overrides: dep_views(deps_or_empty(pj.overrides)),
        optional_dependencies: dep_views(deps_or_empty(pj.optionalDependencies)),
    }
}

/// One candidate folded into the member map: rejected candidates are
/// skipped; a name collision indexes the newcomer under its full
/// directory path instead.
pub open spec fn resolve_step(
    kind: PackageManagerKind,
    m: Seq<(Seq<char>, MemberDoc)>,
    c: MemberCandidate,
) -> Seq<(Seq<char>, MemberDoc)> {
    if !candidate_accepted(kind, c) {
        m
    } else {
        let k = candidate_name(c);
        if vget(m, k) is Some {
            vinsert(m, c.base_dir@, candidate_doc(c))
        } else {
            vinsert(m, k, candidate_doc(c))
        }
    }
}

/// All candidates folded in order.
pub open spec fn resolve_fold(kind: PackageManagerKind, cs: Seq<MemberCandidate>)
    -> Seq<(Seq<char>, MemberDoc)>
    decreases cs.len(),
{
    if cs.len() == 0 {
        Seq::empty()
    } else {
        resolve_step(kind, resolve_fold(kind, cs.drop_last()), cs.last())
    }
}

/// The document view of a member map.
pub open spec fn ws_view(s: Seq<(String, WorkspacePackage)>) -> Seq<(Seq<char>, MemberDoc)> {
    proj(s, |w: WorkspacePackage| member_doc_of(w))
}

/// The dialect a `packageManager` declaration selects: its leading name
/// token matched against the corepack registry (`npm`, `yarn`, `pnpm`;
/// Bun is not registered there).
pub open spec fn corepack_match(s: Seq<char>) -> Option<PackageManagerKind> {
    if is_prefix("npm"@, s) {
        Some(PackageManagerKind::Npm)
    } else if is_prefix("yarn"@, s) {
        Some(PackageManagerKind::Yarn)
    } else if is_prefix("pnpm"@, s) {
        Some(PackageManagerKind::Pnpm)
    } else {
        None
    }
}

/// The dialect in force: the manifest's declaration when it matches the
/// corepack registry, else the detected one.
pub open spec fn resolved_kind(
    original: PackageJson,
    kind: Option<PackageManagerKind>,
) -> Option<PackageManagerKind> {
    match original.packageManager {
        None => kind,
        Some(pm) => match corepack_match(pm@) {
            Some(k) => Some(k),
            None => kind,
        },
    }
}

/// The root-level Yarn rule: a Yarn root declaring a non-empty workspace
/// list must set `private` to true.
pub open spec fn yarn_private_violated(kind: PackageManagerKind, original: PackageJson) -> bool {
    &&& kind == PackageManagerKind::Yarn
    &&& (match original.workspaces {
        Some(ws) => ws@.len() > 0,
        None => false,
    })
    &&& original.private != Some(true)
}

/// A project root: the manifest it was built from, the dialect in force,
/// the root dependency maps, and the resolved members indexed by name.
#[derive(Debug)]
pub struct ProjectRoot {
    pub original: PackageJson,
    pub kind: PackageManagerKind,
    pub root: PackageDependencies,
    pub workspaces: StrMap<WorkspacePackage>,
}

impl ProjectRoot {
    /// The dialect in force, executable form.
    pub fn resolve_package_manager_kind(
        original: &PackageJson,
        kind: Option<PackageManagerKind>,
    ) -> (r: Option<PackageManagerKind>)
        ensures
            r == resolved_kind(*original, kind),
    {
        match &original.packageManager {
            None => kind,
            Some(pm) => {
                if starts_with_exec(pm.as_str(), "npm") {
                    Some(PackageManagerKind::Npm)
                } else if starts_with_exec(pm.as_str(), "yarn") {
                    Some(PackageManagerKind::Yarn)
                } else if starts_with_exec(pm.as_str(), "pnpm") {
                    Some(PackageManagerKind::Pnpm)
                } else {
                    kind
                }
            }
        }
    }

    /// Fold the candidate member directories into the name-indexed member
    /// map, in candidate order.
    pub fn resolve_workspaces(
        kind: PackageManagerKind,
        candidates: Vec<MemberCandidate>,
    ) -> (r: StrMap<WorkspacePackage>)
        ensures
            r.wf(),
            ws_view(r@) == resolve_fold(kind, candidates@),
    {
        let ghost cs = candidates@;
        let ghost f = |w: WorkspacePackage| member_doc_of(w);
        let mut workspace_map: StrMap<WorkspacePackage> = StrMap::new();
        let mut rest = candidates;
        let ghost mut i: int = 0;
        proof {
            assert(ws_view(workspace_map@) =~= resolve_fold(kind, cs.take(0)));
        }
        while rest.len() > 0
            invariant
                0 <= i,
                i + rest@.len() == cs.len(),
                rest@ =~= cs.skip(i),
                workspace_map.wf(),
                ws_view(workspace_map@) == resolve_fold(kind, cs.take(i)),
            decreases rest@.len(),
        {
            let ghost m0 = workspace_map@;
            let c = rest.remove(0);
            proof {
                assert(c == cs[i]);
                assert(rest@ =~= cs.skip(i + 1));
                assert(cs.take(i + 1).drop_last() =~= cs.take(i));
                assert(cs.take(i + 1).last() == cs[i]);
            }
            let ghost cg = c;
            let is_dir = c.is_dir;
            let base_dir_copy = c.base_dir.clone();
            let w0 = WorkspacePackage::new(c.base_dir, kind, is_dir, c.manifest);
            match w0 {
                Ok(w1) => {
                    match w1.validate_package_json_fields(base_dir_copy.as_str()) {
                        Ok(w) => {
                            proof {
                                assert(candidate_accepted(kind, cg));
                                assert(member_doc_of(w) == candidate_doc(cg));
                            }
                            let names = w.get_package_name();
                            proof {
                                assert(names.0@ == candidate_name(cg));
                                assert(names.1@ == cg.base_dir@);
                            }
                            let name_taken = workspace_map.contains_key(names.0.as_str());
                            proof {
                                lemma_proj_gete(m0, names.0@, f);
                                lemma_proj_sorted(m0, f);
                            }
                            if !name_taken {
                                proof {
                                    lemma_proj_insert(m0, names.0, w, f);
                                    lemma_spec_insert_sorted(m0, names.0, w);
                                }
                                workspace_map.insert(names.0, w);
                            } else {
                                proof {
                                    lemma_proj_insert(m0, names.1, w, f);
                                    lemma_spec_insert_sorted(m0, names.1, w);
                                }
                                workspace_map.insert(names.1, w);
                            }
                            proof {
                                let fv = |w: WorkspacePackage| member_doc_of(w);
                                assert(ws_view(m0) == proj(m0, fv));
                                assert(ws_view(workspace_map@) == proj(workspace_map@, fv));
                                if !name_taken {
                                    assert(workspace_map@ == spec_insert(m0, names.0, w));
                                    lemma_proj_insert(m0, names.0, w, fv);
                                    lemma_proj_gete(m0, names.0@, fv);
                                    assert(vget(ws_view(m0), candidate_name(cg)) is None);
                                    assert(proj(workspace_map@, fv)
                                        == vinsert(proj(m0, fv), names.0@, fv(w)));
                                    assert(fv(w) == candidate_doc(cg));
                                } else {
                                    assert(workspace_map@ == spec_insert(m0, names.1, w));
                                    lemma_proj_insert(m0, names.1, w, fv);
                                    lemma_proj_gete(m0, names.0@, fv);
                                    assert(vget(ws_view(m0), candidate_name(cg)) is Some);
                                    assert(proj(workspace_map@, fv)
                                        == vinsert(proj(m0, fv), names.1@, fv(w)));
                                    assert(fv(w) == candidate_doc(cg));
                                }
                                assert(ws_view(workspace_map@)
                                    == resolve_step(kind, ws_view(m0), cg));
                            }
                        }
                        Err(_) => {
                            proof {
                                assert(!candidate_accepted(kind, cg));
                            }
                        }
                    }
                }
                Err(_) => {
                    proof {
                        assert(!candidate_accepted(kind, cg));
                    }
                }
            }
            proof {
                i = i + 1;
            }
        }
        proof {
            assert(cs.take(cs.len() as int) =~= cs);
        }
        workspace_map
    }

    /// The root-level Yarn validation.
    pub fn validate_package_json_fields(self, base_dir: &str) -> (r: Result<Self, Error>)
        ensures
            yarn_private_violated(self.kind, self.original)
                ==> (r matches Err(e)
                    && e matches Error::InvalidPackageJsonPrivateForYarn(p)
                    && p@ == crate::strutil::join_path(base_dir@, "package.json"@)),
            !yarn_private_violated(self.kind, self.original) ==> r == Ok::<Self, Error>(self),
    {
        let violated = match self.kind {
            PackageManagerKind::Yarn => {
                let nonempty = match &self.original.workspaces {
                    Some(ws) => ws.len() > 0,
                    None => false,
                };
                let private_true = match &self.original.private {
                    Some(p) => *p,
                    None => false,
                };
                nonempty && !private_true
            }
            _ => false,
        };
        if violated {
            Err(Error::InvalidPackageJsonPrivateForYarn(to_package_json_path(base_dir)))
        } else {
            Ok(self)
        }
    }

    /// Build the project root from the root manifest's parse outcome, the
    /// detected dialect, and the discovered member candidates (gathered
    /// for the dialect in force). Fails when the root manifest is
    /// unreadable, when no dialect is in force, or on the Yarn rule.
    pub fn new(
        base_dir: &str,
        kind: Option<PackageManagerKind>,
        original: Result<PackageJson, Error>,
        candidates: Vec<MemberCandidate>,
    ) -> (r: Result<Self, Error>)
        ensures
            original is Err ==> r == Err::<Self, Error>(original->Err_0),
            original is Ok ==> match resolved_kind(original->Ok_0, kind) {
                None => (r matches Err(e) && e matches Error::NoLockfile(p)
                    && p@ == base_dir@),
                Some(k) => {
                    if yarn_private_violated(k, original->Ok_0) {
                        r matches Err(e)
                            && e matches Error::InvalidPackageJsonPrivateForYarn(p)
                            && p@ == crate::strutil::join_path(base_dir@, "package.json"@)
                    } else {
                        r matches Ok(p) && p.original == original->Ok_0 && p.kind == k
                            && p.workspaces.wf()
                            && ws_view(p.workspaces@) == resolve_fold(k, candidates@)
                            && p.root.dependencies@
                                == deps_or_empty(original->Ok_0.dependencies)
                            && p.root.dev_dependencies@
                                == deps_or_empty(original->Ok_0.devDependencies)
                            && p.root.peer_dependencies@
                                == deps_or_empty(original->Ok_0.peerDependencies)
                            && p.root.overrides@ == deps_or_empty(original->Ok_0.overrides)
                            && p.root.optional_dependencies@
                                == deps_or_empty(original->Ok_0.optionalDependencies)
                    }
                }
            },
    {
        let pj = match original {
            Ok(pj) => pj,
            Err(e) => {
                return Err(e);
            }
        };
        let resolved = Self::resolve_package_manager_kind(&pj, kind);
        match resolved {
            Some(k) => {
                let root = PackageDependencies::new(&pj);
                let workspaces = Self::resolve_workspaces(k, candidates);
                let built = Self { original: pj, kind: k, root, workspaces };
                built.validate_package_json_fields(base_dir)
            }
            None => Err(Error::NoLockfile(String::from_str(base_dir))),
        }
    }
}

/// No two accepted candidates resolve to the same name; with a collision
/// the colliding member's index key depends on discovery order.
pub open spec fn distinct_accepted_names(
    kind: PackageManagerKind,
    cs: Seq<MemberCandidate>,
) -> bool {
    forall|i: int, j: int| #![trigger cs[i], cs[j]]
        0 <= i < j < cs.len() && candidate_accepted(kind, cs[i])
            && candidate_accepted(kind, cs[j])
            ==> candidate_name(cs[i]) != candidate_name(cs[j])
}

/// The document of the last accepted candidate resolving to `k`, if any.
pub open spec fn find_by_name(
    kind: PackageManagerKind,
    cs: Seq<MemberCandidate>,
    k: Seq<char>,
) -> Option<MemberDoc>
    decreases cs.len(),
{
    if cs.len() == 0 {
        None
    } else if candidate_accepted(kind, cs.last()) && candidate_name(cs.last()) == k {
        Some(candidate_doc(cs.last()))
    } else {
        find_by_name(kind, cs.drop_last(), k)
    }
}

proof fn lemma_find_some_exists(kind: PackageManagerKind, cs: Seq<MemberCandidate>, k: Seq<char>)
    ensures
        match find_by_name(kind, cs, k) {
            Some(d) => exists|i: int|
                0 <= i < cs.len() && candidate_accepted(kind, #[trigger] cs[i])
                    && candidate_name(cs[i]) == k && candidate_doc(cs[i]) == d,
            None => forall|i: int|
                0 <= i < cs.len() && candidate_accepted(kind, #[trigger] cs[i])
                    ==> candidate_name(cs[i]) != k,
        },
    decreases cs.len(),
{
    if cs.len() > 0 {
        let pre = cs.drop_last();
        lemma_find_some_exists(kind, pre, k);
        if candidate_accepted(kind, cs.last()) && candidate_name(cs.last()) == k {
            assert(cs[cs.len() - 1] == cs.last());
        } else {
            match find_by_name(kind, pre, k) {
                Some(d) => {
                    let i = choose|i: int|
                        0 <= i < pre.len() && candidate_accepted(kind, #[trigger] pre[i])
                            && candidate_name(pre[i]) == k && candidate_doc(pre[i]) == d;
                    assert(cs[i] == pre[i]);
                }
                None => {
                    assert forall|i: int|
                        0 <= i < cs.len() && candidate_accepted(kind, #[trigger] cs[i])
                            implies candidate_name(cs[i]) != k by {
                        if i < cs.len() - 1 {
                            assert(cs[i] == pre[i]);
                        }
                    }
                }
            }
        }
    }
}

proof fn lemma_distinct_prefix(kind: PackageManagerKind, cs: Seq<MemberCandidate>)
    requires
        cs.len() > 0,
        distinct_accepted_names(kind, cs),
    ensures
        distinct_accepted_names(kind, cs.drop_last()),
{
    let pre = cs.drop_last();
    assert forall|i: int, j: int| #![trigger pre[i], pre[j]]
        0 <= i < j < pre.len() && candidate_accepted(kind, pre[i])
            && candidate_accepted(kind, pre[j])
            implies candidate_name(pre[i]) != candidate_name(pre[j]) by {
        assert(pre[i] == cs[i] && pre[j] == cs[j]);
    }
}

/// Under distinct names the fold is sorted and its lookups are exactly
/// the accepted candidates', indexed by resolved name.
proof fn lemma_fold_get(kind: PackageManagerKind, cs: Seq<MemberCandidate>, q: Seq<char>)
    requires
        distinct_accepted_names(kind, cs),
    ensures
        vsorted(resolve_fold(kind, cs)),
        vget(resolve_fold(kind, cs), q) == find_by_name(kind, cs, q),
    decreases cs.len(),
{
    if cs.len() == 0 {
    } else {
        let pre = cs.drop_last();
        let c = cs.last();
        lemma_distinct_prefix(kind, cs);
        lemma_fold_get(kind, pre, q);
        if !candidate_accepted(kind, c) {
        } else {
            let key = candidate_name(c);
            lemma_fold_get(kind, pre, key);
            assert(vget(resolve_fold(kind, pre), key) is None) by {
                lemma_find_some_exists(kind, pre, key);
                if find_by_name(kind, pre, key) is Some {
                    let i = choose|i: int|
                        0 <= i < pre.len() && candidate_accepted(kind, #[trigger] pre[i])
                            && candidate_name(pre[i]) == key;
                    assert(cs[i] == pre[i]);
                    assert(cs[cs.len() - 1] == c);
                }
            }
            lemma_vinsert_sorted(resolve_fold(kind, pre), key, candidate_doc(c));
            lemma_vinsert_get(resolve_fold(kind, pre), key, candidate_doc(c), q);
        }
    }
}

proof fn lemma_find_multiset(
    kind: PackageManagerKind,
    cs1: Seq<MemberCandidate>,
    cs2: Seq<MemberCandidate>,
    k: Seq<char>,
)
    requires
        cs1.to_multiset() == cs2.to_multiset(),
        distinct_accepted_names(kind, cs1),
        distinct_accepted_names(kind, cs2),
    ensures
        find_by_name(kind, cs1, k) == find_by_name(kind, cs2, k),
{
    cs1.to_multiset_ensures();
    cs2.to_multiset_ensures();
    lemma_find_some_exists(kind, cs1, k);
    lemma_find_some_exists(kind, cs2, k);
    match find_by_name(kind, cs1, k) {
        Some(d) => {
            let i = choose|i: int|
                0 <= i < cs1.len() && candidate_accepted(kind, #[trigger] cs1[i])
                    && candidate_name(cs1[i]) == k && candidate_doc(cs1[i]) == d;
            let c = cs1[i];
            assert(cs1.contains(c));
            assert(cs2.to_multiset().count(c) > 0);
            assert(cs2.contains(c));
            let j = choose|j: int| 0 <= j < cs2.len() && cs2[j] == c;
            match find_by_name(kind, cs2, k) {
                Some(d2) => {
                    let j2 = choose|j2: int|
                        0 <= j2 < cs2.len() && candidate_accepted(kind, #[trigger] cs2[j2])
                            && candidate_name(cs2[j2]) == k && candidate_doc(cs2[j2]) == d2;
                    if j != j2 {
                        if j < j2 {
                            assert(candidate_name(cs2[j]) != candidate_name(cs2[j2]));
                        } else {
                            assert(candidate_name(cs2[j2]) != candidate_name(cs2[j]));
                        }
                        assert(false);
                    }
                }
                None => {
                    assert(candidate_name(cs2[j]) != k);
                    assert(false);
                }
            }
        }
        None => {
            match find_by_name(kind, cs2, k) {
                Some(d2) => {
                    let j = choose|j: int|
                        0 <= j < cs2.len() && candidate_accepted(kind, #[trigger] cs2[j])
                            && candidate_name(cs2[j]) == k && candidate_doc(cs2[j]) == d2;
                    let c = cs2[j];
                    assert(cs2.contains(c));
                    assert(cs1.to_multiset().count(c) > 0);
                    assert(cs1.contains(c));
                    let i = choose|i: int| 0 <= i < cs1.len() && cs1[i] == c;
                    assert(candidate_name(cs1[i]) != k);
                    assert(false);
                }
                None => {}
            }
        }
    }
}

/// Determinism of member resolution: the resolved member map depends on
/// the set of candidates alone, not on the order discovery handed them
/// over, as long as no two accepted candidates share a resolved name.
pub proof fn lemma_resolve_order_independent(
    kind: PackageManagerKind,
    cs1: Seq<MemberCandidate>,
    cs2: Seq<MemberCandidate>,
)
    requires
        cs1.to_multiset() == cs2.to_multiset(),
        distinct_accepted_names(kind, cs1),
        distinct_accepted_names(kind, cs2),
    ensures
        resolve_fold(kind, cs1) == resolve_fold(kind, cs2),
{
    let f1 = resolve_fold(kind, cs1);
    let f2 = resolve_fold(kind, cs2);
    lemma_fold_get(kind, cs1, Seq::empty());
    lemma_fold_get(kind, cs2, Seq::empty());
    assert forall|q: Seq<char>| #[trigger] vget(f1, q) == vget(f2, q) by {
        lemma_fold_get(kind, cs1, q);
        lemma_fold_get(kind, cs2, q);
        lemma_find_multiset(kind, cs1, cs2, q);
    }
    lemma_vsorted_canonical(f1, f2);
}

} // verus!
