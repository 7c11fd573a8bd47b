//! The manifest model: the fields of a `package.json` the system reads,
//! the five dependency maps, and per-dialect validation of workspace
//! member manifests.
use vstd::prelude::*;

use crate::errors::Error;
use crate::package_manager::PackageManagerKind;
use crate::smap::StrMap;
use crate::strutil::{contains_exec, contains_seq, join_path, join_path_exec};

verus! {

/// A dependency map: package name to version specifier, ordered by name.
pub type Dependencies = StrMap<String>;

/// The manifest path inside a directory.
pub fn to_package_json_path(base_dir: &str) -> (r: String)
    ensures
        r@ == join_path(base_dir@, "package.json"@),
{
    join_path_exec(base_dir, "package.json")
}

/// A usable member directory: it is a real directory and its path has no
/// `node_modules` segment, which defends against glob patterns matching
/// nested installed trees.
pub fn is_valid_base_dir(base_dir: &str, is_dir: bool) -> (r: bool)
    ensures
        r == (is_dir && !contains_seq(base_dir@, "node_modules"@)),
{
    if !is_dir {
        false
    } else {
        !contains_exec(base_dir, "node_modules")
    }
}

/// The fields of a project manifest that the fingerprint reads. Field
/// names follow the manifest's own spelling.
#[allow(non_snake_case)]
#[derive(Debug)]
pub struct PackageJson {
    pub name: Option<String>,
    pub version: Option<String>,
    pub private: Option<bool>,
    pub packageManager: Option<String>,
    pub dependencies: Option<Dependencies>,
    pub devDependencies: Option<Dependencies>,
    pub peerDependencies: Option<Dependencies>,
    pub overrides: Option<Dependencies>,
    pub optionalDependencies: Option<Dependencies>,
    pub workspaces: Option<Vec<String>>,
}

/// The entries of an optional dependency map, defaulting to none.
pub open spec fn deps_or_empty(d: Option<Dependencies>) -> Seq<(String, String)> {
    match d {
        Some(m) => m@,
        None => Seq::empty(),
    }
}

/// The five dependency maps of a manifest, with absent maps made empty.
#[derive(Debug)]
pub struct PackageDependencies {
    pub dependencies: Dependencies,
    pub dev_dependencies: Dependencies,
    pub peer_dependencies: Dependencies,
    pub overrides: Dependencies,
    pub optional_dependencies: Dependencies,
}

impl Dependencies {
    /// An entry-for-entry copy.
    pub fn duplicate(&self) -> (r: Dependencies)
        ensures
            r@ == self@,
    {
        let mut entries: Vec<(String, String)> = Vec::new();
        let mut i: usize = 0;
        while i < self.entries.len()
            invariant
                i <= self.entries@.len(),
                entries@ =~= self.entries@.subrange(0, i as int),
            decreases self.entries@.len() - i,
        {
            entries.push((self.entries[i].0.clone(), self.entries[i].1.clone()));
            proof {
                assert(entries@ =~= self.entries@.subrange(0, i + 1));
            }
            i = i + 1;
        }
        proof {
            assert(self.entries@.subrange(0, self.entries@.len() as int) =~= self.entries@);
        }
        StrMap { entries }
    }
}

/// The entries of an optional borrowed dependency map.
fn dup_or_empty(d: &Option<Dependencies>) -> (r: Dependencies)
    ensures
        r@ == deps_or_empty(*d),
{
    match d {
        Some(m) => m.duplicate(),
        None => StrMap::new(),
    }
}

impl PackageDependencies {
    /// Collect the five maps of a manifest.
    pub fn new(raw: &PackageJson) -> (r: Self)
        ensures
            r.dependencies@ == deps_or_empty(raw.dependencies),
            r.dev_dependencies@ == deps_or_empty(raw.devDependencies),
            r.peer_dependencies@ == deps_or_empty(raw.peerDependencies),
            r.overrides@ == deps_or_empty(raw.overrides),
            r.optional_dependencies@ == deps_or_empty(raw.optionalDependencies),
    {
        Self {
            dependencies: dup_or_empty(&raw.dependencies),
            dev_dependencies: dup_or_empty(&raw.devDependencies),
            peer_dependencies: dup_or_empty(&raw.peerDependencies),
            optional_dependencies: dup_or_empty(&raw.optionalDependencies),
            overrides: dup_or_empty(&raw.overrides),
        }
    }
}

/// The path with trailing separators removed.
pub open spec fn strip_trailing_slashes(s: Seq<char>) -> Seq<char>
    decreases s.len(),
{
    if s.len() > 0 && s[s.len() - 1] == '/' {
        strip_trailing_slashes(s.take(s.len() - 1))
    } else {
        s
    }
}

/// The characters after the last separator.
pub open spec fn after_last_slash(s: Seq<char>) -> Seq<char>
    decreases s.len(),
{
    if s.len() == 0 {
        s
    } else if s[s.len() - 1] == '/' {
        Seq::empty()
    } else {
        after_last_slash(s.take(s.len() - 1)).push(s[s.len() - 1])
    }
}

/// The final path segment of a directory path, or the path itself when it
/// has no separator-delimited segment.
pub open spec fn file_name_of(s: Seq<char>) -> Seq<char> {
    let t = strip_trailing_slashes(s);
    if after_last_slash(t).len() > 0 {
        after_last_slash(t)
    } else {
        t
    }
}

proof fn lemma_strip_prefix(s: Seq<char>, e: int)
    requires
        0 <= e <= s.len(),
        forall|m: int| e <= m < s.len() ==> s[m] == '/',
        e == 0 || s[e - 1] != '/',
    ensures
        strip_trailing_slashes(s) == s.take(e),
    decreases s.len(),
{
    if s.len() > 0 && s[s.len() - 1] == '/' {
        let t = s.take(s.len() - 1);
        assert(e <= t.len());
        assert(forall|m: int| e <= m < t.len() ==> t[m] == s[m]);
        lemma_strip_prefix(t, e);
        assert(t.take(e) =~= s.take(e));
    } else {
        assert(e == s.len());
        assert(s.take(e) =~= s);
    }
}

proof fn lemma_after_last_slash_skip(s: Seq<char>, k: int)
    requires
        0 <= k <= s.len(),
        forall|m: int| k <= m < s.len() ==> s[m] != '/',
        k == 0 || s[k - 1] == '/',
    ensures
        after_last_slash(s) == s.skip(k),
    decreases s.len(),
{
    if s.len() == 0 {
        assert(s.skip(0) =~= s);
    } else if k == s.len() {
        if s[s.len() - 1] == '/' {
            assert(s.skip(k) =~= Seq::<char>::empty());
        } else {
            // k == s.len() and s[k-1] == '/' contradicts s[len-1] != '/',
            // unless k == 0, which makes s empty
            assert(k == 0);
        }
    } else {
        assert(s[s.len() - 1] != '/');
        let t = s.take(s.len() - 1);
        assert(forall|m: int| k <= m < t.len() ==> t[m] == s[m]);
        lemma_after_last_slash_skip(t, k);
        assert(t.skip(k).push(s[s.len() - 1]) =~= s.skip(k));
    }
}

/// The final path segment, executable form.
pub fn file_name_exec(s: &str) -> (r: String)
    ensures
        r@ == file_name_of(s@),
{
    let n = s.unicode_len();
    let mut e: usize = n;
    while e > 0 && s.get_char(e - 1) == '/'
        invariant
            e <= n,
            n == s@.len(),
            forall|m: int| e <= m < n ==> s@[m] == '/',
        decreases e,
    {
        e = e - 1;
    }
    proof {
        lemma_strip_prefix(s@, e as int);
    }
    let mut k: usize = e;
    while k > 0 && s.get_char(k - 1) != '/'
        invariant
            k <= e <= n,
            n == s@.len(),
            forall|m: int| k <= m < e ==> s@[m] != '/',
        decreases k,
    {
        k = k - 1;
    }
    let ghost t = strip_trailing_slashes(s@);
    proof {
        assert(t == s@.take(e as int));
        assert(forall|m: int| k <= m < t.len() ==> t[m] == s@[m]);
        if k > 0 {
            assert(t[k - 1] == s@[k - 1]);
        }
        lemma_after_last_slash_skip(t, k as int);
    }
    if k < e {
        let r = String::from_str(s.substring_char(k, e));
        proof {
            assert(s@.subrange(k as int, e as int) =~= t.skip(k as int));
        }
        r
    } else {
        let r = String::from_str(s.substring_char(0, e));
        proof {
            assert(t.skip(k as int) =~= Seq::<char>::empty());
            assert(s@.subrange(0, e as int) =~= t);
        }
        r
    }
}

/// A resolved workspace member: its manifest, directory, dialect, and
/// collected dependency maps.
#[derive(Debug)]
pub struct WorkspacePackage {
    pub original: PackageJson,
    pub base_dir: String,
    pub kind: PackageManagerKind,
    pub dependencies: PackageDependencies,
}

impl WorkspacePackage {
    /// Take in a member directory: reject it unless it is a valid member
    /// directory with a readable manifest.
    pub fn new(
        base_dir: String,
        kind: PackageManagerKind,
        is_dir: bool,
        manifest: Result<PackageJson, Error>,
    ) -> (r: Result<Self, Error>)
        ensures
            !(is_dir && !contains_seq(base_dir@, "node_modules"@)) ==> (r matches Err(e)
                && e matches Error::InvalidWorkspace(p) && p@ == base_dir@),
            (is_dir && !contains_seq(base_dir@, "node_modules"@)) ==> match manifest {
                Ok(pj) => r matches Ok(w) && w.original == pj && w.base_dir == base_dir
                    && w.kind == kind
                    && w.dependencies.dependencies@ == deps_or_empty(pj.dependencies)
                    && w.dependencies.dev_dependencies@ == deps_or_empty(pj.devDependencies)
                    && w.dependencies.peer_dependencies@ == deps_or_empty(pj.peerDependencies)
                    && w.dependencies.overrides@ == deps_or_empty(pj.overrides)
                    && w.dependencies.optional_dependencies@
                        == deps_or_empty(pj.optionalDependencies),
                Err(e) => r == Err::<Self, Error>(e),
            },
    {
        if !is_valid_base_dir(base_dir.as_str(), is_dir) {
            return Err(Error::InvalidWorkspace(base_dir));
        }
        match manifest {
            Ok(original) => {
                let dependencies = PackageDependencies::new(&original);
                Ok(Self { original, base_dir, kind, dependencies })
            }
            Err(e) => Err(e),
        }
    }

    /// Per-dialect validation: Yarn members need `name` and `version`,
    /// Bun members need `name`; other dialects accept anything.
    pub fn validate_package_json_fields(self, base_dir: &str) -> (r: Result<Self, Error>)
        ensures
            self.kind == PackageManagerKind::Yarn
                && (self.original.name is None || self.original.version is None)
                ==> (r matches Err(e) && e matches Error::InvalidPackageJsonFieldsForYarn(p)
                    && p@ == join_path(base_dir@, "package.json"@)),
            self.kind == PackageManagerKind::Bun && self.original.name is None
                ==> (r matches Err(e) && e matches Error::InvalidPackageJsonFieldsForBun(p)
                    && p@ == join_path(base_dir@, "package.json"@)),
            !(self.kind == PackageManagerKind::Yarn
                && (self.original.name is None || self.original.version is None))
                && !(self.kind == PackageManagerKind::Bun && self.original.name is None)
                ==> r == Ok::<Self, Error>(self),
    {
        match self.kind {
            PackageManagerKind::Yarn if self.original.name.is_none()
                || self.original.version.is_none() => {
                Err(Error::InvalidPackageJsonFieldsForYarn(to_package_json_path(base_dir)))
            }
            PackageManagerKind::Bun if self.original.name.is_none() => {
                Err(Error::InvalidPackageJsonFieldsForBun(to_package_json_path(base_dir)))
            }
            _ => Ok(self),
        }
    }

    /// The key a member is indexed under: its declared name, or its
    /// directory's final path segment; the full directory path serves as
    /// the fallback key on collisions.
    pub fn get_package_name(&self) -> (r: (String, String))
        ensures
            r.0@ == match self.original.name {
                Some(n) => n@,
                None => file_name_of(self.base_dir@),
            },
            r.1@ == self.base_dir@,
    {
        let name = match &self.original.name {
            Some(n) => n.clone(),
            None => file_name_exec(self.base_dir.as_str()),
        };
        let fallback = self.base_dir.clone();
        (name, fallback)
    }
}

} // verus!
