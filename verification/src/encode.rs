//! The canonical serialization of a project fingerprint: a
//! length-prefixed, concatenative document over the root dependency maps
//! and the ordered member map. Every run over the same values produces
//! the same characters, whatever order the inputs were discovered in.
use vstd::prelude::*;

use crate::hash::{digest_of_chars, generate_hash_str};
use crate::package_json::{Dependencies, PackageDependencies};
use crate::project::{member_doc_of, ws_view, MemberDoc, ProjectRoot};
use crate::strutil::{dec_digit, dec_of, u64_to_dec};

verus! {

/// A string framed by its decimal length.
pub open spec fn enc_str(s: Seq<char>) -> Seq<char> {
    dec_of(s.len()) + seq![':'] + s
}

/// One name-version pair, framed.
pub open spec fn enc_pair(p: (Seq<char>, Seq<char>)) -> Seq<char> {
    enc_str(p.0) + enc_str(p.1)
}

/// The pairs of one dependency map, in order.
pub open spec fn concat_pairs(ps: Seq<(Seq<char>, Seq<char>)>) -> Seq<char>
    decreases ps.len(),
{
    if ps.len() == 0 {
        Seq::empty()
    } else {
        concat_pairs(ps.drop_last()) + enc_pair(ps.last())
    }
}

/// A dependency map: its size, then its framed pairs.
pub open spec fn enc_pairs(ps: Seq<(Seq<char>, Seq<char>)>) -> Seq<char> {
    dec_of(ps.len()) + seq![':'] + concat_pairs(ps)
}

/// The five dependency maps of a document, in a fixed order.
pub open spec fn enc_deps(d: MemberDoc) -> Seq<char> {
    enc_pairs(d.dependencies) + enc_pairs(d.dev_dependencies) + enc_pairs(d.peer_dependencies)
        + enc_pairs(d.overrides) + enc_pairs(d.optional_dependencies)
}

/// One member: its index key, declared name, declared version, and maps.
pub open spec fn enc_member(key: Seq<char>, d: MemberDoc) -> Seq<char> {
    enc_str(key) + enc_str(d.name) + enc_str(d.version) + enc_deps(d)
}

/// The members of a document, in map order.
pub open spec fn concat_members(ms: Seq<(Seq<char>, MemberDoc)>) -> Seq<char>
    decreases ms.len(),
{
    if ms.len() == 0 {
        Seq::empty()
    } else {
        concat_members(ms.drop_last()) + enc_member(ms.last().0, ms.last().1)
    }
}

/// The document view of the root dependency maps.
pub open spec fn root_doc_of(p: PackageDependencies) -> MemberDoc {
    MemberDoc {
        name: Seq::empty(),
        version: Seq::empty(),
        dependencies: crate::project::dep_views(p.dependencies@),
        dev_dependencies: crate::project::dep_views(p.dev_dependencies@),
        peer_dependencies: crate::project::dep_views(p.peer_dependencies@),
        overrides: crate::project::dep_views(p.overrides@),
        optional_dependencies: crate::project::dep_views(p.optional_dependencies@),
    }
}

/// The whole fingerprint document: the root maps, then the member count,
/// then each member.
pub open spec fn enc_project(root: MemberDoc, members: Seq<(Seq<char>, MemberDoc)>)
    -> Seq<char> {
    enc_str(root.name) + enc_str(root.version) + enc_deps(root) + dec_of(members.len())
        + seq![':'] + concat_members(members)
}

/// The canonical document of a project root.
pub open spec fn project_doc(p: ProjectRoot) -> Seq<char> {
    enc_project(root_doc_of(p.root), ws_view(p.workspaces@))
}

/// Append a framed string.
fn enc_str_exec(out: &mut String, s: &str)
    ensures
        final(out)@ == old(out)@ + enc_str(s@),
{
    proof {
        reveal_strlit(":");
    }
    let n: u64 = s.unicode_len() as u64;
    let dec = u64_to_dec(n);
    out.append(dec.as_str());
    out.append(":");
    out.append(s);
    proof {
        assert(":"@ =~= seq![':']);
        assert(out@ =~= old(out)@ + enc_str(s@));
    }
}

/// Append a framed dependency map.
fn enc_pairs_exec(out: &mut String, m: &Dependencies)
    ensures
        final(out)@ == old(out)@ + enc_pairs(crate::project::dep_views(m@)),
{
    proof {
        reveal_strlit(":");
    }
    let ghost ps = crate::project::dep_views(m@);
    let n: u64 = m.entries.len() as u64;
    let dec = u64_to_dec(n);
    out.append(dec.as_str());
    out.append(":");
    proof {
        assert(":"@ =~= seq![':']);
        assert(ps.len() == m.entries@.len());
        assert(out@ =~= old(out)@ + dec_of(ps.len()) + seq![':'] + concat_pairs(ps.take(0)));
    }
    let mut i: usize = 0;
    while i < m.entries.len()
        invariant
            i <= m.entries@.len(),
            ps == crate::project::dep_views(m.entries@),
            ps.len() == m.entries@.len(),
            out@ == old(out)@ + dec_of(ps.len()) + seq![':'] + concat_pairs(ps.take(i as int)),
        decreases m.entries@.len() - i,
    {
        proof {
            assert(ps.take(i + 1).drop_last() =~= ps.take(i as int));
            assert(ps.take(i + 1).last() == ps[i as int]);
            assert(ps[i as int] == (m.entries@[i as int].0@, m.entries@[i as int].1@));
        }
        enc_str_exec(out, m.entries[i].0.as_str());
        enc_str_exec(out, m.entries[i].1.as_str());
        proof {
            assert(out@ =~= old(out)@ + dec_of(ps.len()) + seq![':']
                + concat_pairs(ps.take(i + 1)));
        }
        i = i + 1;
    }
    proof {
        assert(ps.take(ps.len() as int) =~= ps);
        assert(out@ =~= old(out)@ + enc_pairs(ps));
    }
}

/// Append the five dependency maps of a manifest's collected maps.
fn enc_deps_exec(out: &mut String, p: &PackageDependencies, name: &str, version: &str)
    ensures
        final(out)@ == old(out)@ + enc_str(name@) + enc_str(version@) + enc_deps(MemberDoc {
            name: name@,
            version: version@,
            dependencies: crate::project::dep_views(p.dependencies@),
            dev_dependencies: crate::project::dep_views(p.dev_dependencies@),
            peer_dependencies: crate::project::dep_views(p.peer_dependencies@),
            overrides: crate::project::dep_views(p.overrides@),
            optional_dependencies: crate::project::dep_views(p.optional_dependencies@),
        }),
{
    enc_str_exec(out, name);
    enc_str_exec(out, version);
    enc_pairs_exec(out, &p.dependencies);
    enc_pairs_exec(out, &p.dev_dependencies);
    enc_pairs_exec(out, &p.peer_dependencies);
    enc_pairs_exec(out, &p.overrides);
    enc_pairs_exec(out, &p.optional_dependencies);
    proof {
        assert(out@ =~= old(out)@ + enc_str(name@) + enc_str(version@)
            + enc_deps(MemberDoc {
            name: name@,
            version: version@,
            dependencies: crate::project::dep_views(p.dependencies@),
            dev_dependencies: crate::project::dep_views(p.dev_dependencies@),
            peer_dependencies: crate::project::dep_views(p.peer_dependencies@),
            overrides: crate::project::dep_views(p.overrides@),
            optional_dependencies: crate::project::dep_views(p.optional_dependencies@),
        }));
    }
}

impl ProjectRoot {
    /// The canonical fingerprint document of this project, the input to
    /// the fingerprint hash.
    #[verifier::rlimit(60)]
    pub fn to_hash_target(&self) -> (r: String)
        ensures
            r@ == project_doc(*self),
    {
        proof {
            reveal_strlit(":");
        }
        let mut out = String::new();
        let empty = String::new();
        enc_deps_exec(&mut out, &self.root, empty.as_str(), empty.as_str());
        proof {
            assert(empty@ =~= Seq::<char>::empty());
            assert(enc_str(Seq::<char>::empty()) + enc_str(Seq::<char>::empty())
                + enc_deps(root_doc_of(self.root))
                =~= enc_str(empty@) + enc_str(empty@) + enc_deps(MemberDoc {
                name: empty@,
                version: empty@,
                dependencies: crate::project::dep_views(self.root.dependencies@),
                dev_dependencies: crate::project::dep_views(self.root.dev_dependencies@),
                peer_dependencies: crate::project::dep_views(self.root.peer_dependencies@),
                overrides: crate::project::dep_views(self.root.overrides@),
                optional_dependencies: crate::project::dep_views(
                    self.root.optional_dependencies@,
                ),
            }));
        }
        let ghost ms = ws_view(self.workspaces@);
        let n: u64 = self.workspaces.entries.len() as u64;
        let dec = u64_to_dec(n);
        out.append(dec.as_str());
        out.append(":");
        proof {
            assert(":"@ =~= seq![':']);
            assert(ms.len() == self.workspaces.entries@.len());
            assert(out@ =~= enc_str(Seq::<char>::empty()) + enc_str(Seq::<char>::empty())
                + enc_deps(root_doc_of(self.root)) + dec_of(ms.len()) + seq![':']
                + concat_members(ms.take(0)));
        }
        let mut i: usize = 0;
        while i < self.workspaces.entries.len()
            invariant
                i <= self.workspaces.entries@.len(),
                ms == ws_view(self.workspaces.entries@),
                ms.len() == self.workspaces.entries@.len(),
                out@ == enc_str(Seq::<char>::empty()) + enc_str(Seq::<char>::empty())
                    + enc_deps(root_doc_of(self.root)) + dec_of(ms.len()) + seq![':']
                    + concat_members(ms.take(i as int)),
            decreases self.workspaces.entries@.len() - i,
        {
            proof {
                assert(ms.take(i + 1).drop_last() =~= ms.take(i as int));
                assert(ms.take(i + 1).last() == ms[i as int]);
                assert(ms[i as int] == (self.workspaces.entries@[i as int].0@,
                    member_doc_of(self.workspaces.entries@[i as int].1)));
            }
            let entry_key = self.workspaces.entries[i].0.as_str();
            enc_str_exec(&mut out, entry_key);
            let w = &self.workspaces.entries[i].1;
            let name = match &w.original.name {
                Some(s) => s.as_str(),
                None => "",
            };
            let version = match &w.original.version {
                Some(s) => s.as_str(),
                None => "",
            };
            proof {
                reveal_strlit("");
                assert(""@ =~= Seq::<char>::empty());
                assert(name@ == member_doc_of(self.workspaces.entries@[i as int].1).name);
                assert(version@ == member_doc_of(self.workspaces.entries@[i as int].1).version);
            }
            enc_deps_exec(&mut out, &w.dependencies, name, version);
            proof {
                assert(enc_str(name@) + enc_str(version@) + enc_deps(MemberDoc {
                    name: name@,
                    version: version@,
                    dependencies: crate::project::dep_views(w.dependencies.dependencies@),
                    dev_dependencies: crate::project::dep_views(
                        w.dependencies.dev_dependencies@,
                    ),
                    peer_dependencies: crate::project::dep_views(
                        w.dependencies.peer_dependencies@,
                    ),
                    overrides: crate::project::dep_views(w.dependencies.overrides@),
                    optional_dependencies: crate::project::dep_views(
                        w.dependencies.optional_dependencies@,
                    ),
                }) =~= enc_str(ms[i as int].1.name)
                    + enc_str(ms[i as int].1.version) + enc_deps(ms[i as int].1));
                assert(out@ =~= enc_str(Seq::<char>::empty()) + enc_str(Seq::<char>::empty())
                    + enc_deps(root_doc_of(self.root)) + dec_of(ms.len()) + seq![':']
                    + concat_members(ms.take(i + 1)));
            }
            i = i + 1;
        }
        proof {
            assert(ms.take(ms.len() as int) =~= ms);
            assert(ws_view(self.workspaces@) == ms);
            assert(out@ =~= project_doc(*self));
        }
        out
    }

    /// The fingerprint hash of this project's canonical document.
    pub fn generate_hash(&self) -> (r: crate::hash::Hash)
        ensures
            r.0@ == digest_of_chars(project_doc(*self)),
            r.0@.len() == 32,
    {
        let doc = self.to_hash_target();
        generate_hash_str(doc.as_str())
    }
}

/// Decimal renderings are non-empty and hold digits only.
#[verifier::rlimit(100)]
#[verifier::spinoff_prover]
proof fn lemma_dec_digits(n: nat)
    ensures
        dec_of(n).len() >= 1,
        forall|i: int| 0 <= i < dec_of(n).len() ==> 48 <= (#[trigger] dec_of(n)[i]) as int <= 57,
    decreases n,
{
    if n < 10 {
        assert(dec_of(n)[0] == dec_digit(n));
        assert(48 <= dec_digit(n) as int <= 57);
    } else {
        lemma_dec_digits(n / 10);
        assert forall|i: int| 0 <= i < dec_of(n).len() implies
            48 <= (#[trigger] dec_of(n)[i]) as int <= 57 by {
            if i < dec_of(n).len() - 1 {
                assert(dec_of(n)[i] == dec_of(n / 10)[i]);
            } else {
                assert(dec_of(n)[i] == dec_digit(n % 10));
            }
        }
    }
}

/// Decimal rendering is injective.
#[verifier::rlimit(100)]
#[verifier::spinoff_prover]
proof fn lemma_dec_injective(a: nat, b: nat)
    requires
        dec_of(a) == dec_of(b),
    ensures
        a == b,
    decreases a,
{
    lemma_dec_digits(a);
    lemma_dec_digits(b);
    if a < 10 && b < 10 {
        assert(dec_of(a)[0] == dec_digit(a));
        assert(dec_of(b)[0] == dec_digit(b));
        assert((48 + a) as u8 as char as int == 48 + a);
        assert((48 + b) as u8 as char as int == 48 + b);
    } else if a < 10 {
        assert(dec_of(a).len() == 1);
        assert(dec_of(b).len() == dec_of(b / 10).len() + 1);
        lemma_dec_digits(b / 10);
    } else if b < 10 {
        assert(dec_of(b).len() == 1);
        assert(dec_of(a).len() == dec_of(a / 10).len() + 1);
        lemma_dec_digits(a / 10);
    } else {
        let la = dec_of(a).len();
        assert(dec_of(a).last() == dec_digit(a % 10));
        assert(dec_of(b).last() == dec_digit(b % 10));
        assert((48 + a % 10) as u8 as char as int == 48 + a % 10);
        assert((48 + b % 10) as u8 as char as int == 48 + b % 10);
        assert(a % 10 == b % 10);
        assert(dec_of(a).drop_last() =~= dec_of(a / 10));
        assert(dec_of(b).drop_last() =~= dec_of(b / 10));
        lemma_dec_injective(a / 10, b / 10);
        assert(a == 10 * (a / 10) + a % 10);
        assert(b == 10 * (b / 10) + b % 10);
    }
}

/// A framed string followed by anything decodes unambiguously: the frame
/// determines the string and the remainder.
#[verifier::rlimit(100)]
#[verifier::spinoff_prover]
proof fn lemma_enc_str_unamb(a: Seq<char>, b: Seq<char>, r1: Seq<char>, r2: Seq<char>)
    requires
        enc_str(a) + r1 == enc_str(b) + r2,
    ensures
        a == b,
        r1 == r2,
{
    let s = enc_str(a) + r1;
    let da = dec_of(a.len());
    let db = dec_of(b.len());
    lemma_dec_digits(a.len());
    lemma_dec_digits(b.len());
    let la = da.len() as int;
    let lb = db.len() as int;
    assert(s[la] == ':') by {
        assert((enc_str(a) + r1)[la] == enc_str(a)[la]);
        assert(enc_str(a)[la] == (da + seq![':'] + a)[la]);
    }
    assert(s[lb] == ':') by {
        assert((enc_str(b) + r2)[lb] == enc_str(b)[lb]);
    }
    assert(forall|i: int| 0 <= i < la ==> (#[trigger] da[i]) == s[i]);
    assert(forall|i: int| 0 <= i < lb ==> (#[trigger] db[i]) == s[i]);
    assert(la == lb) by {
        if la < lb {
            assert(s[la] == db[la]);
            assert(48 <= db[la] as int <= 57);
            assert((':') as int == 58);
        } else if lb < la {
            assert(s[lb] == da[lb]);
            assert(48 <= da[lb] as int <= 57);
            assert((':') as int == 58);
        }
    }
    assert(da =~= db);
    lemma_dec_injective(a.len(), b.len());
    assert(a.len() == b.len());
    assert(a =~= b) by {
        assert(forall|i: int| 0 <= i < a.len() ==> (#[trigger] a[i]) == s[la + 1 + i]);
        assert(forall|i: int| 0 <= i < b.len() ==> (#[trigger] b[i]) == s[lb + 1 + i]);
    }
    assert(r1 =~= r2) by {
        assert(enc_str(a).len() == enc_str(b).len());
        assert(s.len() == enc_str(a).len() + r1.len());
        assert((enc_str(b) + r2).len() == enc_str(b).len() + r2.len());
        assert(r1.len() == r2.len());
        assert(forall|i: int| 0 <= i < r1.len()
            ==> (#[trigger] r1[i]) == s[enc_str(a).len() + i]);
        assert(forall|i: int| 0 <= i < r2.len()
            ==> (#[trigger] r2[i]) == s[enc_str(b).len() + i]);
    }
}

/// A count frame followed by anything decodes unambiguously.
#[verifier::rlimit(100)]
#[verifier::spinoff_prover]
proof fn lemma_count_frame(n1: nat, n2: nat, t1: Seq<char>, t2: Seq<char>)
    requires
        dec_of(n1) + seq![':'] + t1 == dec_of(n2) + seq![':'] + t2,
    ensures
        n1 == n2,
        t1 == t2,
{
    let s = dec_of(n1) + seq![':'] + t1;
    let da = dec_of(n1);
    let db = dec_of(n2);
    lemma_dec_digits(n1);
    lemma_dec_digits(n2);
    let la = da.len() as int;
    let lb = db.len() as int;
    assert(s[la] == ':');
    assert(s[lb] == ':') by {
        assert((dec_of(n2) + seq![':'] + t2)[lb] == ':');
    }
    assert(forall|i: int| 0 <= i < la ==> (#[trigger] da[i]) == s[i]);
    assert(forall|i: int| 0 <= i < lb ==> (#[trigger] db[i]) == s[i]);
    assert(la == lb) by {
        if la < lb {
            assert(s[la] == db[la]);
            assert(48 <= db[la] as int <= 57);
        } else if lb < la {
            assert(s[lb] == da[lb]);
            assert(48 <= da[lb] as int <= 57);
        }
    }
    assert(da =~= db);
    lemma_dec_injective(n1, n2);
    assert(t1 =~= t2) by {
        assert(s.len() == la + 1 + t1.len());
        assert((dec_of(n2) + seq![':'] + t2).len() == lb + 1 + t2.len());
        assert(forall|i: int| 0 <= i < t1.len() ==> (#[trigger] t1[i]) == s[la + 1 + i]);
        assert(forall|i: int| 0 <= i < t2.len() ==> (#[trigger] t2[i]) == s[lb + 1 + i]);
    }
}

/// Pair bodies decompose from the front.
#[verifier::rlimit(100)]
#[verifier::spinoff_prover]
proof fn lemma_concat_pairs_front(ps: Seq<(Seq<char>, Seq<char>)>)
    requires
        ps.len() > 0,
    ensures
        concat_pairs(ps) == enc_pair(ps[0]) + concat_pairs(ps.drop_first()),
    decreases ps.len(),
{
    if ps.len() == 1 {
        assert(ps.drop_last() =~= Seq::<(Seq<char>, Seq<char>)>::empty());
        assert(ps.drop_first() =~= Seq::<(Seq<char>, Seq<char>)>::empty());
        assert(concat_pairs(ps) =~= enc_pair(ps[0]) + concat_pairs(ps.drop_first()));
    } else {
        lemma_concat_pairs_front(ps.drop_last());
        assert(ps.drop_last()[0] == ps[0]);
        assert(ps.drop_last().drop_first() =~= ps.drop_first().drop_last());
        assert(ps.drop_first().last() == ps.last());
        assert(concat_pairs(ps) == concat_pairs(ps.drop_last()) + enc_pair(ps.last()));
        assert(concat_pairs(ps.drop_first())
            == concat_pairs(ps.drop_first().drop_last()) + enc_pair(ps.last()));
        assert(concat_pairs(ps)
            =~= enc_pair(ps[0]) + concat_pairs(ps.drop_first()));
    }
}

/// Equal-count pair bodies followed by anything decode unambiguously.
#[verifier::rlimit(100)]
#[verifier::spinoff_prover]
proof fn lemma_concat_pairs_unamb(
    ps1: Seq<(Seq<char>, Seq<char>)>,
    ps2: Seq<(Seq<char>, Seq<char>)>,
    r1: Seq<char>,
    r2: Seq<char>,
)
    requires
        ps1.len() == ps2.len(),
        concat_pairs(ps1) + r1 == concat_pairs(ps2) + r2,
    ensures
        ps1 == ps2,
        r1 == r2,
    decreases ps1.len(),
{
    if ps1.len() == 0 {
        assert(concat_pairs(ps1) + r1 =~= r1);
        assert(concat_pairs(ps2) + r2 =~= r2);
        assert(ps1 =~= ps2);
    } else {
        lemma_concat_pairs_front(ps1);
        lemma_concat_pairs_front(ps2);
        let k1 = ps1[0].0;
        let v1 = ps1[0].1;
        let k2 = ps2[0].0;
        let v2 = ps2[0].1;
        let t1 = concat_pairs(ps1.drop_first()) + r1;
        let t2 = concat_pairs(ps2.drop_first()) + r2;
        assert(enc_str(k1) + (enc_str(v1) + t1) =~= concat_pairs(ps1) + r1);
        assert(enc_str(k2) + (enc_str(v2) + t2) =~= concat_pairs(ps2) + r2);
        lemma_enc_str_unamb(k1, k2, enc_str(v1) + t1, enc_str(v2) + t2);
        lemma_enc_str_unamb(v1, v2, t1, t2);
        lemma_concat_pairs_unamb(ps1.drop_first(), ps2.drop_first(), r1, r2);
        assert(ps1[0] == ps2[0]);
        assert(ps1 =~= ps2) by {
            assert(forall|i: int| 1 <= i < ps1.len()
                ==> (#[trigger] ps1[i]) == ps1.drop_first()[i - 1]);
            assert(forall|i: int| 1 <= i < ps2.len()
                ==> (#[trigger] ps2[i]) == ps2.drop_first()[i - 1]);
        }
    }
}

/// A framed dependency map followed by anything decodes unambiguously.
proof fn lemma_enc_pairs_unamb(
    ps1: Seq<(Seq<char>, Seq<char>)>,
    ps2: Seq<(Seq<char>, Seq<char>)>,
    r1: Seq<char>,
    r2: Seq<char>,
)
    requires
        enc_pairs(ps1) + r1 == enc_pairs(ps2) + r2,
    ensures
        ps1 == ps2,
        r1 == r2,
{
    assert(dec_of(ps1.len()) + seq![':'] + (concat_pairs(ps1) + r1)
        =~= enc_pairs(ps1) + r1);
    assert(dec_of(ps2.len()) + seq![':'] + (concat_pairs(ps2) + r2)
        =~= enc_pairs(ps2) + r2);
    lemma_count_frame(ps1.len(), ps2.len(), concat_pairs(ps1) + r1, concat_pairs(ps2) + r2);
    lemma_concat_pairs_unamb(ps1, ps2, r1, r2);
}

/// The five framed maps of a document decode unambiguously.
#[verifier::rlimit(100)]
#[verifier::spinoff_prover]
proof fn lemma_enc_deps_unamb(d1: MemberDoc, d2: MemberDoc, r1: Seq<char>, r2: Seq<char>)
    requires
        enc_deps(d1) + r1 == enc_deps(d2) + r2,
    ensures
        d1.dependencies == d2.dependencies,
        d1.dev_dependencies == d2.dev_dependencies,
        d1.peer_dependencies == d2.peer_dependencies,
        d1.overrides == d2.overrides,
        d1.optional_dependencies == d2.optional_dependencies,
        r1 == r2,
{
    let a2 = enc_pairs(d1.dev_dependencies) + (enc_pairs(d1.peer_dependencies)
        + (enc_pairs(d1.overrides) + (enc_pairs(d1.optional_dependencies) + r1)));
    let b2 = enc_pairs(d2.dev_dependencies) + (enc_pairs(d2.peer_dependencies)
        + (enc_pairs(d2.overrides) + (enc_pairs(d2.optional_dependencies) + r2)));
    assert(enc_pairs(d1.dependencies) + a2 =~= enc_deps(d1) + r1);
    assert(enc_pairs(d2.dependencies) + b2 =~= enc_deps(d2) + r2);
    lemma_enc_pairs_unamb(d1.dependencies, d2.dependencies, a2, b2);
    let a3 = enc_pairs(d1.peer_dependencies)
        + (enc_pairs(d1.overrides) + (enc_pairs(d1.optional_dependencies) + r1));
    let b3 = enc_pairs(d2.peer_dependencies)
        + (enc_pairs(d2.overrides) + (enc_pairs(d2.optional_dependencies) + r2));
    lemma_enc_pairs_unamb(d1.dev_dependencies, d2.dev_dependencies, a3, b3);
    let a4 = enc_pairs(d1.overrides) + (enc_pairs(d1.optional_dependencies) + r1);
    let b4 = enc_pairs(d2.overrides) + (enc_pairs(d2.optional_dependencies) + r2);
    lemma_enc_pairs_unamb(d1.peer_dependencies, d2.peer_dependencies, a4, b4);
    let a5 = enc_pairs(d1.optional_dependencies) + r1;
    let b5 = enc_pairs(d2.optional_dependencies) + r2;
    lemma_enc_pairs_unamb(d1.overrides, d2.overrides, a5, b5);
    lemma_enc_pairs_unamb(d1.optional_dependencies, d2.optional_dependencies, r1, r2);
}

/// Member bodies decompose from the front.
#[verifier::rlimit(100)]
#[verifier::spinoff_prover]
proof fn lemma_concat_members_front(ms: Seq<(Seq<char>, MemberDoc)>)
    requires
        ms.len() > 0,
    ensures
        concat_members(ms) == enc_member(ms[0].0, ms[0].1) + concat_members(ms.drop_first()),
    decreases ms.len(),
{
    if ms.len() == 1 {
        assert(ms.drop_last() =~= Seq::<(Seq<char>, MemberDoc)>::empty());
        assert(ms.drop_first() =~= Seq::<(Seq<char>, MemberDoc)>::empty());
        assert(concat_members(ms)
            =~= enc_member(ms[0].0, ms[0].1) + concat_members(ms.drop_first()));
    } else {
        lemma_concat_members_front(ms.drop_last());
        assert(ms.drop_last()[0] == ms[0]);
        assert(ms.drop_last().drop_first() =~= ms.drop_first().drop_last());
        assert(ms.drop_first().last() == ms.last());
        assert(concat_members(ms)
            == concat_members(ms.drop_last()) + enc_member(ms.last().0, ms.last().1));
        assert(concat_members(ms.drop_first())
            == concat_members(ms.drop_first().drop_last())
                + enc_member(ms.last().0, ms.last().1));
        assert(concat_members(ms)
            =~= enc_member(ms[0].0, ms[0].1) + concat_members(ms.drop_first()));
    }
}

/// Equal-count member bodies followed by anything decode unambiguously.
/// One framed member followed by anything decodes unambiguously.
#[verifier::rlimit(100)]
#[verifier::spinoff_prover]
proof fn lemma_enc_member_unamb(
    k1: Seq<char>,
    d1: MemberDoc,
    k2: Seq<char>,
    d2: MemberDoc,
    t1: Seq<char>,
    t2: Seq<char>,
)
    requires
        enc_member(k1, d1) + t1 == enc_member(k2, d2) + t2,
    ensures
        k1 == k2,
        d1 == d2,
        t1 == t2,
{
    let u1 = enc_str(d1.name) + (enc_str(d1.version) + (enc_deps(d1) + t1));
    let u2 = enc_str(d2.name) + (enc_str(d2.version) + (enc_deps(d2) + t2));
    assert(enc_str(k1) + u1 =~= enc_member(k1, d1) + t1);
    assert(enc_str(k2) + u2 =~= enc_member(k2, d2) + t2);
    lemma_enc_str_unamb(k1, k2, u1, u2);
    lemma_enc_str_unamb(
        d1.name,
        d2.name,
        enc_str(d1.version) + (enc_deps(d1) + t1),
        enc_str(d2.version) + (enc_deps(d2) + t2),
    );
    lemma_enc_str_unamb(d1.version, d2.version, enc_deps(d1) + t1, enc_deps(d2) + t2);
    lemma_enc_deps_unamb(d1, d2, t1, t2);
    assert(d1 =~= d2);
}

#[verifier::rlimit(100)]
#[verifier::spinoff_prover]
proof fn lemma_concat_members_unamb(
    ms1: Seq<(Seq<char>, MemberDoc)>,
    ms2: Seq<(Seq<char>, MemberDoc)>,
    r1: Seq<char>,
    r2: Seq<char>,
)
    requires
        ms1.len() == ms2.len(),
        concat_members(ms1) + r1 == concat_members(ms2) + r2,
    ensures
        ms1 == ms2,
        r1 == r2,
    decreases ms1.len(),
{
    if ms1.len() == 0 {
        assert(concat_members(ms1) + r1 =~= r1);
        assert(concat_members(ms2) + r2 =~= r2);
        assert(ms1 =~= ms2);
    } else {
        lemma_concat_members_front(ms1);
        lemma_concat_members_front(ms2);
        let t1 = concat_members(ms1.drop_first()) + r1;
        let t2 = concat_members(ms2.drop_first()) + r2;
        assert(enc_member(ms1[0].0, ms1[0].1) + t1 =~= concat_members(ms1) + r1);
        assert(enc_member(ms2[0].0, ms2[0].1) + t2 =~= concat_members(ms2) + r2);
        lemma_enc_member_unamb(ms1[0].0, ms1[0].1, ms2[0].0, ms2[0].1, t1, t2);
        lemma_concat_members_unamb(ms1.drop_first(), ms2.drop_first(), r1, r2);
        assert(ms1[0] == ms2[0]);
        assert(ms1 =~= ms2) by {
            assert(forall|i: int| 1 <= i < ms1.len()
                ==> (#[trigger] ms1[i]) == ms1.drop_first()[i - 1]);
            assert(forall|i: int| 1 <= i < ms2.len()
                ==> (#[trigger] ms2[i]) == ms2.drop_first()[i - 1]);
        }
    }
}

/// Sensitivity of the canonical document: two fingerprints serialize to
/// the same characters only when they agree on every dependency map of
/// the root and on the whole member map — any change to a member's
/// declared name, version, or dependency maps, to the member set, or to
/// the root's maps changes the hash input.
#[verifier::rlimit(100)]
#[verifier::spinoff_prover]
pub proof fn lemma_enc_project_injective(
    root1: MemberDoc,
    ms1: Seq<(Seq<char>, MemberDoc)>,
    root2: MemberDoc,
    ms2: Seq<(Seq<char>, MemberDoc)>,
)
    requires
        enc_project(root1, ms1) == enc_project(root2, ms2),
    ensures
        root1.name == root2.name,
        root1.version == root2.version,
        root1.dependencies == root2.dependencies,
        root1.dev_dependencies == root2.dev_dependencies,
        root1.peer_dependencies == root2.peer_dependencies,
        root1.overrides == root2.overrides,
        root1.optional_dependencies == root2.optional_dependencies,
        ms1 == ms2,
{
    let t1 = enc_deps(root1) + (dec_of(ms1.len()) + seq![':'] + concat_members(ms1));
    let t2 = enc_deps(root2) + (dec_of(ms2.len()) + seq![':'] + concat_members(ms2));
    let u1 = enc_str(root1.version) + t1;
    let u2 = enc_str(root2.version) + t2;
    assert(enc_str(root1.name) + u1 =~= enc_project(root1, ms1));
    assert(enc_str(root2.name) + u2 =~= enc_project(root2, ms2));
    lemma_enc_str_unamb(root1.name, root2.name, u1, u2);
    lemma_enc_str_unamb(root1.version, root2.version, t1, t2);
    let w1 = dec_of(ms1.len()) + seq![':'] + concat_members(ms1);
    let w2 = dec_of(ms2.len()) + seq![':'] + concat_members(ms2);
    lemma_enc_deps_unamb(root1, root2, w1, w2);
    assert(dec_of(ms1.len()) + seq![':'] + (concat_members(ms1) + Seq::<char>::empty())
        =~= w1);
    assert(dec_of(ms2.len()) + seq![':'] + (concat_members(ms2) + Seq::<char>::empty())
        =~= w2);
    lemma_count_frame(
        ms1.len(),
        ms2.len(),
        concat_members(ms1) + Seq::<char>::empty(),
        concat_members(ms2) + Seq::<char>::empty(),
    );
    lemma_concat_members_unamb(ms1, ms2, Seq::empty(), Seq::empty());
}

/// Sensitivity at the project level: two project roots with the same
/// canonical document agree on every root dependency map and on the
/// whole member map view.
pub proof fn lemma_project_doc_injective(p1: ProjectRoot, p2: ProjectRoot)
    requires
        project_doc(p1) == project_doc(p2),
    ensures
        crate::project::dep_views(p1.root.dependencies@)
            == crate::project::dep_views(p2.root.dependencies@),
        crate::project::dep_views(p1.root.dev_dependencies@)
            == crate::project::dep_views(p2.root.dev_dependencies@),
        crate::project::dep_views(p1.root.peer_dependencies@)
            == crate::project::dep_views(p2.root.peer_dependencies@),
        crate::project::dep_views(p1.root.overrides@)
            == crate::project::dep_views(p2.root.overrides@),
        crate::project::dep_views(p1.root.optional_dependencies@)
            == crate::project::dep_views(p2.root.optional_dependencies@),
        ws_view(p1.workspaces@) == ws_view(p2.workspaces@),
{
    lemma_enc_project_injective(
        root_doc_of(p1.root),
        ws_view(p1.workspaces@),
        root_doc_of(p2.root),
        ws_view(p2.workspaces@),
    );
}

} // verus!
