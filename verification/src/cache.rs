//! The content-addressed cache store: the per-project metadata journal,
//! and the save / revoke / restore operations planned as explicit
//! filesystem steps over a model of the store, so that the swap logic is
//! proved before anything touches a disk.
use vstd::prelude::*;

use crate::errors::Error;
use crate::path::DirKey;
use crate::smap::{
    lemma_spec_gete_some_index, lemma_spec_insert_all_gete, lemma_spec_insert_all_sorted,
    lemma_spec_insert_gete, lemma_spec_insert_sorted, spec_gete, spec_insert_all, StrMap,
};
use crate::strutil::{join_path, join_path_exec, str_eq_exec};

verus! {

/// Provenance recorded for one cache entry; placeholder data, not used by
/// lookups.
#[derive(Debug, Clone, PartialEq)]
pub struct CacheMeta {
    pub branch: String,
    pub commit: String,
}

/// The recorded state of one project: its live key, if any, and every key
/// it has been cached under.
#[derive(Debug)]
pub struct MetadataContents {
    pub current_hash_key: Option<crate::hash::Hash>,
    pub caches: StrMap<CacheMeta>,
}

/// The journal: one entry per project directory identity, plus the file
/// the journal is persisted at.
#[derive(Debug)]
pub struct Metadata {
    pub contents: StrMap<MetadataContents>,
    pub file_path: String,
}

/// The live key recorded for a project, as characters.
pub open spec fn current_of(
    contents: Seq<(String, MetadataContents)>,
    dk: Seq<char>,
) -> Option<Seq<char>> {
    match spec_gete(contents, dk) {
        Some(e) => match e.1.current_hash_key {
            Some(h) => Some(h.0@),
            None => None,
        },
        None => None,
    }
}

/// The recorded history of a project: every key it was cached under.
pub open spec fn history_of(
    contents: Seq<(String, MetadataContents)>,
    dk: Seq<char>,
) -> Seq<(String, CacheMeta)> {
    match spec_gete(contents, dk) {
        Some(e) => e.1.caches@,
        None => Seq::empty(),
    }
}

/// The provenance views of a history map.
pub open spec fn cache_meta_views(s: Seq<(String, CacheMeta)>)
    -> Seq<(Seq<char>, (Seq<char>, Seq<char>))> {
    s.map_values(|e: (String, CacheMeta)| (e.0@, (e.1.branch@, e.1.commit@)))
}

impl crate::hash::Hash {
    /// An equal copy.
    pub fn duplicate(&self) -> (r: Self)
        ensures
            r == *self,
    {
        crate::hash::Hash(self.0.clone())
    }
}

/// An entry-for-entry copy of a history map.
fn dup_caches(m: &StrMap<CacheMeta>) -> (r: StrMap<CacheMeta>)
    ensures
        cache_meta_views(r@) == cache_meta_views(m@),
        r@.len() == m@.len(),
        forall|i: int| 0 <= i < m@.len() ==> (#[trigger] r@[i]).0@ == m@[i].0@,
{
    let mut entries: Vec<(String, CacheMeta)> = Vec::new();
    let mut i: usize = 0;
    while i < m.entries.len()
        invariant
            i <= m.entries@.len(),
            entries@.len() == i,
            forall|j: int| 0 <= j < i ==> (#[trigger] entries@[j]).0@ == m.entries@[j].0@,
            cache_meta_views(entries@) =~= cache_meta_views(m.entries@.subrange(0, i as int)),
        decreases m.entries@.len() - i,
    {
        let branch = m.entries[i].1.branch.clone();
        let commit = m.entries[i].1.commit.clone();
        let ghost prev = entries@;
        entries.push((m.entries[i].0.clone(), CacheMeta { branch, commit }));
        proof {
            let cv = cache_meta_views(entries@);
            let cv0 = cache_meta_views(prev);
            assert(cv0.len() == prev.len());
            assert(cv.len() == entries@.len());
            assert(entries@.len() == prev.len() + 1);
            assert forall|j: int| 0 <= j < cv.len() implies
                cv[j] == cache_meta_views(m.entries@.subrange(0, i + 1))[j] by {
                assert(cv[j] == (entries@[j].0@, (entries@[j].1.branch@, entries@[j].1.commit@)));
                if j < cv.len() - 1 {
                    assert(entries@[j] == prev[j]);
                    assert(cv0[j] == cache_meta_views(m.entries@.subrange(0, i as int))[j]);
                    assert(cache_meta_views(m.entries@.subrange(0, i as int))[j]
                        == (m.entries@.subrange(0, i as int)[j].0@,
                        (m.entries@.subrange(0, i as int)[j].1.branch@,
                        m.entries@.subrange(0, i as int)[j].1.commit@)));
                    assert(m.entries@.subrange(0, i as int)[j] == m.entries@[j]);
                    assert(m.entries@.subrange(0, i + 1)[j] == m.entries@[j]);
                } else {
                    assert(entries@[j].0@ == m.entries@[i as int].0@);
                    assert(entries@[j].1.branch@ == m.entries@[i as int].1.branch@);
                    assert(entries@[j].1.commit@ == m.entries@[i as int].1.commit@);
                    assert(m.entries@.subrange(0, i + 1)[j] == m.entries@[i as int]);
                }
            }
            assert(cache_meta_views(entries@)
                =~= cache_meta_views(m.entries@.subrange(0, i + 1)));
        }
        i = i + 1;
    }
    proof {
        assert(m.entries@.subrange(0, m.entries@.len() as int) =~= m.entries@);
    }
    StrMap { entries }
}

impl MetadataContents {
    /// An empty record.
    pub fn empty() -> (r: Self)
        ensures
            r.current_hash_key is None,
            r.caches@ == Seq::<(String, CacheMeta)>::empty(),
            r.caches.wf(),
    {
        MetadataContents { current_hash_key: None, caches: StrMap::new() }
    }
}

impl Metadata {
    /// A journal built from loaded entries, indexed in order; a repeated
    /// identity keeps its last record.
    pub fn from_entries(file_path: String, entries: Vec<(String, MetadataContents)>)
        -> (r: Metadata)
        ensures
            r.file_path == file_path,
            r.contents.wf(),
            r.contents@ == spec_insert_all(Seq::empty(), entries@),
    {
        let ghost es = entries@;
        let mut contents: StrMap<MetadataContents> = StrMap::new();
        let mut rest = entries;
        let ghost mut i: int = 0;
        while rest.len() > 0
            invariant
                0 <= i,
                i + rest@.len() == es.len(),
                rest@ =~= es.skip(i),
                contents.wf(),
                contents@ == spec_insert_all(Seq::empty(), es.take(i)),
            decreases rest@.len(),
        {
            let ghost c0 = contents@;
            let e = rest.remove(0);
            proof {
                assert(e == es[i]);
                assert(rest@ =~= es.skip(i + 1));
                assert(es.take(i + 1).drop_last() =~= es.take(i));
                assert(es.take(i + 1).last() == es[i]);
                lemma_spec_insert_sorted(c0, e.0, e.1);
            }
            contents.insert(e.0, e.1);
            proof {
                i = i + 1;
            }
        }
        proof {
            assert(es.take(es.len() as int) =~= es);
        }
        Metadata { contents, file_path }
    }

    /// Record `hash` as the live key of the project identified by
    /// `dir_key`, appending it to that project's history: every key the
    /// project was recorded under stays recorded. Every other project's
    /// record is untouched.
    pub fn update(
        self,
        dir_key: &DirKey,
        hash: &crate::hash::Hash,
        branch: String,
        commit: String,
    ) -> (r: Metadata)
        requires
            self.contents.wf(),
        ensures
            r.file_path == self.file_path,
            r.contents.wf(),
            forall|q: Seq<char>|
                q != dir_key.0@ ==> #[trigger] spec_gete(r.contents@, q)
                    == spec_gete(self.contents@, q),
            ({
                let e = spec_gete(r.contents@, dir_key.0@);
                &&& e is Some
                &&& e->Some_0.1.current_hash_key matches Some(h) && h == *hash
                &&& e->Some_0.1.caches.wf()
                &&& (match spec_gete(e->Some_0.1.caches@, hash.0@) {
                    Some(cm) => cm.1.branch == branch && cm.1.commit == commit,
                    None => false,
                })
                &&& forall|q: Seq<char>|
                    spec_gete(history_of(self.contents@, dir_key.0@), q) is Some
                        ==> #[trigger] spec_gete(e->Some_0.1.caches@, q) is Some
            }),
            current_of(r.contents@, dir_key.0@) == Some(hash.0@),
    {
        let ghost c0 = self.contents@;
        let mut contents = self.contents;
        let old_caches = match contents.get(dir_key.0.as_str()) {
            Some(e) => dup_caches(&e.caches),
            None => StrMap::new(),
        };
        let ghost dupg = old_caches.entries@;
        proof {
            assert forall|q: Seq<char>|
                spec_gete(history_of(c0, dir_key.0@), q) is Some
                    implies exists|i: int|
                0 <= i < dupg.len() && (#[trigger] dupg[i].0@) == q by {
                lemma_spec_gete_some_index(history_of(c0, dir_key.0@), q);
                let i = choose|i: int|
                    0 <= i < history_of(c0, dir_key.0@).len()
                        && (#[trigger] history_of(c0, dir_key.0@)[i].0@) == q;
                assert(dupg[i].0@ == q);
            }
        }
        // keep the history sorted whatever the loaded journal held
        let mut caches: StrMap<CacheMeta> = StrMap::new();
        let mut rest = old_caches.entries;
        let ghost mut i: int = 0;
        while rest.len() > 0
            invariant
                0 <= i,
                i + rest@.len() == dupg.len(),
                rest@ =~= dupg.skip(i),
                caches.wf(),
                caches@ == spec_insert_all(Seq::empty(), dupg.take(i)),
            decreases rest@.len(),
        {
            let ghost h0 = caches@;
            let e = rest.remove(0);
            proof {
                assert(e == dupg[i]);
                assert(rest@ =~= dupg.skip(i + 1));
                assert(dupg.take(i + 1).drop_last() =~= dupg.take(i));
                assert(dupg.take(i + 1).last() == dupg[i]);
                lemma_spec_insert_sorted(h0, e.0, e.1);
            }
            caches.insert(e.0, e.1);
            proof {
                i = i + 1;
            }
        }
        proof {
            assert(dupg.take(dupg.len() as int) =~= dupg);
        }
        let ghost h1 = caches@;
        proof {
            assert forall|q: Seq<char>|
                spec_gete(history_of(c0, dir_key.0@), q) is Some
                    implies spec_gete(h1, q) is Some by {
                lemma_spec_insert_all_gete(Seq::empty(), dupg, q);
            }
        }
        proof {
            lemma_spec_insert_sorted(h1, hash.0, CacheMeta { branch: branch, commit: commit });
        }
        let hb = branch;
        let hc = commit;
        let ghost hbg = hb;
        let ghost hcg = hc;
        caches.insert(hash.0.clone(), CacheMeta { branch: hb, commit: hc });
        proof {
            lemma_spec_insert_gete(h1, hash.0, CacheMeta { branch: hbg, commit: hcg },
                hash.0@);
        }
        let entry = MetadataContents {
            current_hash_key: Some(hash.duplicate()),
            caches,
        };
        let ghost eg = entry;
        proof {
            lemma_spec_insert_sorted(c0, dir_key.0, eg);
            lemma_spec_insert_gete(c0, dir_key.0, eg, dir_key.0@);
        }
        contents.insert(dir_key.0.clone(), entry);
        proof {
            assert forall|q: Seq<char>|
                q != dir_key.0@ implies #[trigger] spec_gete(contents@, q)
                    == spec_gete(c0, q) by {
                lemma_spec_insert_gete(c0, dir_key.0, eg, q);
            }
            assert forall|q: Seq<char>|
                spec_gete(history_of(c0, dir_key.0@), q) is Some
                    implies #[trigger] spec_gete(eg.caches@, q) is Some by {
                lemma_spec_insert_gete(h1, hash.0, CacheMeta { branch: hbg, commit: hcg }, q);
            }
        }
        Metadata { contents, file_path: self.file_path }
    }
}

/// What a stat of a cache slot showed: a symlink, a real directory, or
/// nothing.
#[derive(Debug, Clone, Copy, PartialEq, Eq, Structural)]
pub enum SlotKind {
    Link,
    Dir,
    Missing,
}

/// One planned filesystem step. A rename first clears its destination; a
/// symlink replaces whatever sat at the link path.
#[derive(Debug, Clone, PartialEq)]
pub enum FsOp {
    Rename { from: String, to: String },
    Symlink { target: String, link: String },
}

/// A planned step, at the specification level.
pub enum OpV {
    Rename(Seq<char>, Seq<char>),
    Symlink(Seq<char>, Seq<char>),
}

/// The view of a planned step.
pub open spec fn op_view(op: FsOp) -> OpV {
    match op {
        FsOp::Rename { from, to } => OpV::Rename(from@, to@),
        FsOp::Symlink { target, link } => OpV::Symlink(target@, link@),
    }
}

/// The views of a plan.
pub open spec fn ops_views(ops: Seq<FsOp>) -> Seq<OpV> {
    ops.map_values(|op: FsOp| op_view(op))
}

/// What sits at a path in the store model: a directory with some
/// contents, or the live symlink.
pub enum FsEntry {
    Directory(int),
    LinkTo,
}

/// One step applied to the store model. A rename of a missing source is
/// tolerated and changes nothing, matching the best-effort parking during
/// restore.
pub open spec fn apply_op(m: Map<Seq<char>, FsEntry>, op: OpV) -> Map<Seq<char>, FsEntry> {
    match op {
        OpV::Rename(from, to) => if m.dom().contains(from) {
            m.remove(from).insert(to, m[from])
        } else {
            m
        },
        OpV::Symlink(_target, link) => m.insert(link, FsEntry::LinkTo),
    }
}

/// A plan applied in order.
pub open spec fn apply_ops(m: Map<Seq<char>, FsEntry>, ops: Seq<OpV>) -> Map<Seq<char>, FsEntry>
    decreases ops.len(),
{
    if ops.len() == 0 {
        m
    } else {
        apply_ops(apply_op(m, ops[0]), ops.drop_first())
    }
}

/// A slot observation agrees with the model.
pub open spec fn slot_matches(m: Map<Seq<char>, FsEntry>, path: Seq<char>, slot: SlotKind)
    -> bool {
    match slot {
        SlotKind::Link => m.dom().contains(path) && m[path] is LinkTo,
        SlotKind::Dir => m.dom().contains(path) && m[path] is Directory,
        SlotKind::Missing => !m.dom().contains(path),
    }
}

/// The runtime cache handle: the project root, the live dependency
/// directory, the store root, and the last-loaded journal.
#[derive(Debug)]
pub struct Cache {
    pub base_dir: String,
    pub target_dir: String,
    pub cache_dir: String,
    pub metadata: Metadata,
}

impl Cache {
    /// The slot path of a key.
    pub fn to_cache_path(&self, key: &crate::hash::Hash) -> (r: String)
        ensures
            r@ == join_path(self.cache_dir@, key.0@),
    {
        join_path_exec(self.cache_dir.as_str(), key.0.as_str())
    }

    /// The live key recorded for a project in the loaded journal.
    pub fn find_current_cache(&self, dir_key: &DirKey) -> (r: Option<crate::hash::Hash>)
        ensures
            match r {
                Some(h) => current_of(self.metadata.contents@, dir_key.0@) == Some(h.0@),
                None => current_of(self.metadata.contents@, dir_key.0@) is None,
            },
    {
        match self.metadata.contents.get(dir_key.0.as_str()) {
            Some(e) => match &e.current_hash_key {
                Some(h) => Some(h.duplicate()),
                None => None,
            },
            None => None,
        }
    }

    /// Plan committing the live directory under `key`: a symlink at the
    /// key's slot pointing at the live directory, plus the journal update
    /// that records `key` as live.
    pub fn save(
        self,
        dir_key: &DirKey,
        key: &crate::hash::Hash,
        branch: String,
        commit: String,
    ) -> (r: (FsOp, Metadata))
        requires
            self.metadata.contents.wf(),
        ensures
            op_view(r.0) == OpV::Symlink(self.target_dir@, join_path(self.cache_dir@, key.0@)),
            r.1.contents.wf(),
            current_of(r.1.contents@, dir_key.0@) == Some(key.0@),
            forall|q: Seq<char>|
                q != dir_key.0@ ==> #[trigger] spec_gete(r.1.contents@, q)
                    == spec_gete(self.metadata.contents@, q),
    {
        let link = self.to_cache_path(key);
        let target = self.target_dir.clone();
        let op = FsOp::Symlink { target, link };
        let metadata = self.metadata.update(dir_key, key, branch, commit);
        (op, metadata)
    }

    /// Plan parking the live directory under its recorded key, turning the
    /// live entry into a parked snapshot; nothing to do when no key is
    /// recorded.
    pub fn revoke_current_cache(&self, dir_key: &DirKey) -> (r: Option<FsOp>)
        ensures
            match current_of(self.metadata.contents@, dir_key.0@) {
                Some(c) => r matches Some(op) && op_view(op) == OpV::Rename(
                    self.target_dir@,
                    join_path(self.cache_dir@, c),
                ),
                None => r is None,
            },
    {
        match self.find_current_cache(dir_key) {
            Some(current) => {
                let to = self.to_cache_path(&current);
                Some(FsOp::Rename { from: self.target_dir.clone(), to })
            }
            None => None,
        }
    }

    /// Plan making `key`'s snapshot live. A symlink slot is already live:
    /// nothing to do. A directory slot is swapped in, first parking
    /// whatever is live now under its recorded key. An empty slot is a
    /// cache miss.
    pub fn restore(&self, dir_key: &DirKey, key: &crate::hash::Hash, slot: SlotKind)
        -> (r: Result<Vec<FsOp>, Error>)
        ensures
            slot == SlotKind::Link ==> (r matches Ok(ops) && ops@.len() == 0),
            slot == SlotKind::Dir ==> ({
                let cur = current_of(self.metadata.contents@, dir_key.0@);
                match cur {
                    Some(c) => {
                        if c == key.0@ {
                            r matches Ok(ops) && ops@.len() == 0
                        } else {
                            r matches Ok(ops) && ops_views(ops@) =~= seq![
                                OpV::Rename(self.target_dir@, join_path(self.cache_dir@, c)),
                                OpV::Rename(
                                    join_path(self.cache_dir@, key.0@),
                                    self.target_dir@,
                                ),
                            ]
                        }
                    }
                    None => r matches Ok(ops) && ops_views(ops@) =~= seq![
                        OpV::Rename(join_path(self.cache_dir@, key.0@), self.target_dir@),
                    ],
                }
            }),
            slot == SlotKind::Missing ==> (r matches Err(e) && e matches Error::NotDir(p)
                && p@ == join_path(self.cache_dir@, key.0@)),
    {
        let cache_path = self.to_cache_path(key);
        match slot {
            SlotKind::Link => Ok(Vec::new()),
            SlotKind::Dir => {
                let mut ops: Vec<FsOp> = Vec::new();
                match self.find_current_cache(dir_key) {
                    Some(current) => {
                        if str_eq_exec(current.0.as_str(), key.0.as_str()) {
                            return Ok(ops);
                        }
                        let park = self.to_cache_path(&current);
                        ops.push(FsOp::Rename {
                            from: self.target_dir.clone(),
                            to: park,
                        });
                        ops.push(FsOp::Rename {
                            from: cache_path,
                            to: self.target_dir.clone(),
                        });
                        Ok(ops)
                    }
                    None => {
                        ops.push(FsOp::Rename {
                            from: cache_path,
                            to: self.target_dir.clone(),
                        });
                        Ok(ops)
                    }
                }
            }
            SlotKind::Missing => Err(Error::NotDir(cache_path)),
        }
    }
}

/// After committing a key, its slot is the live symlink, and restoring
/// that key immediately afterwards plans no filesystem change at all: the
/// store is left exactly as the commit left it.
pub proof fn lemma_round_trip(m: Map<Seq<char>, FsEntry>, target: Seq<char>, slot: Seq<char>)
    ensures
        slot_matches(apply_op(m, OpV::Symlink(target, slot)), slot, SlotKind::Link),
        apply_ops(apply_op(m, OpV::Symlink(target, slot)), Seq::empty())
            == apply_op(m, OpV::Symlink(target, slot)),
{
}

/// Swap correctness: with the live directory parked under key A and key
/// B's snapshot on disk, the planned restore of B leaves B's former
/// contents live and A's slot holding what was live before; B's slot is
/// consumed.
pub proof fn lemma_swap_correctness(
    m0: Map<Seq<char>, FsEntry>,
    target: Seq<char>,
    path_a: Seq<char>,
    path_b: Seq<char>,
    c0: int,
    cb: int,
)
    requires
        m0.dom().contains(target),
        m0[target] == FsEntry::Directory(c0),
        m0.dom().contains(path_b),
        m0[path_b] == FsEntry::Directory(cb),
        path_a != target,
        path_b != target,
        path_a != path_b,
    ensures
        ({
            // revoke parks the live directory under A, then the restore
            // plan for B runs: best-effort parking (a second time), then
            // the swap-in of B
            let m1 = apply_op(m0, OpV::Rename(target, path_a));
            let m2 = apply_ops(m1, seq![
                OpV::Rename(target, path_a),
                OpV::Rename(path_b, target),
            ]);
            &&& m2.dom().contains(target) && m2[target] == FsEntry::Directory(cb)
            &&& m2.dom().contains(path_a) && m2[path_a] == FsEntry::Directory(c0)
            &&& !m2.dom().contains(path_b)
        }),
{
    let m1 = apply_op(m0, OpV::Rename(target, path_a));
    let ops = seq![OpV::Rename(target, path_a), OpV::Rename(path_b, target)];
    assert(ops.len() == 2);
    assert(ops[0] == OpV::Rename(target, path_a));
    assert(!m1.dom().contains(target));
    let m1b = apply_op(m1, ops[0]);
    assert(m1b == m1);
    let t1 = ops.drop_first();
    assert(t1.len() == 1);
    assert(t1[0] == ops[1]);
    assert(apply_ops(m1, ops) == apply_ops(m1b, t1));
    let m2 = apply_op(m1b, t1[0]);
    assert(t1.drop_first().len() == 0);
    assert(apply_ops(m1b, t1) == apply_ops(m2, t1.drop_first()));
    assert(apply_ops(m2, t1.drop_first()) == m2);
    assert(m1.dom().contains(path_b) && m1[path_b] == FsEntry::Directory(cb));
    assert(m2 == m1.remove(path_b).insert(target, m1[path_b]));
}

} // verus!
