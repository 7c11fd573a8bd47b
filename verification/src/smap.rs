//! A string-keyed map kept as a vector of entries sorted strictly by key.
//! It plays the role of an ordered map: keys are unique, iteration order is
//! the key order, and two well-formed maps with the same lookup behaviour
//! are identical, which is what makes documents built from them canonical.
use vstd::prelude::*;

use crate::strutil::{
    lemma_str_lt_asymm, lemma_str_lt_connex, lemma_str_lt_trans, str_lt, str_lt_exec,
    str_eq_exec,
};

verus! {

/// First entry bound to key `k` in `s`, front to back.
pub open spec fn spec_gete<V>(s: Seq<(String, V)>, k: Seq<char>) -> Option<(String, V)>
    decreases s.len(),
{
    if s.len() == 0 {
        None
    } else if s[0].0@ == k {
        Some(s[0])
    } else {
        spec_gete(s.drop_first(), k)
    }
}

/// First value bound to key `k` in `s`.
pub open spec fn spec_get<V>(s: Seq<(String, V)>, k: Seq<char>) -> Option<V> {
    match spec_gete(s, k) {
        Some(e) => Some(e.1),
        None => None,
    }
}

/// Entries sorted strictly ascending by key.
pub open spec fn spec_sorted<V>(s: Seq<(String, V)>) -> bool {
    forall|i: int, j: int|
        0 <= i < j < s.len() ==> str_lt(#[trigger] s[i].0@, #[trigger] s[j].0@)
}

/// Insertion into a sorted entry sequence: an equal key is replaced, a new
/// key takes its ordered position.
pub open spec fn spec_insert<V>(s: Seq<(String, V)>, k: String, v: V) -> Seq<(String, V)>
    decreases s.len(),
{
    if s.len() == 0 {
        seq![(k, v)]
    } else if str_lt(k@, s[0].0@) {
        seq![(k, v)] + s
    } else if k@ == s[0].0@ {
        seq![(k, v)] + s.drop_first()
    } else {
        seq![s[0]] + spec_insert(s.drop_first(), k, v)
    }
}

/// A map from strings to values, stored sorted by key.
#[derive(Debug)]
pub struct StrMap<V> {
    pub entries: Vec<(String, V)>,
}

impl<V> StrMap<V> {
    /// The stored entries, as ghost sequence.
    pub open spec fn view(&self) -> Seq<(String, V)> {
        self.entries@
    }

    /// Keys strictly ascending.
    pub open spec fn wf(&self) -> bool {
        spec_sorted(self.entries@)
    }

    /// Lookup in the stored entries.
    pub open spec fn spec_lookup(&self, k: Seq<char>) -> Option<V> {
        spec_get(self.entries@, k)
    }

    /// Key membership.
    pub open spec fn spec_has(&self, k: Seq<char>) -> bool {
        spec_gete(self.entries@, k) is Some
    }

    /// The empty map.
    pub fn new() -> (r: Self)
        ensures
            r@ == Seq::<(String, V)>::empty(),
            r.wf(),
    {
        let r = StrMap { entries: Vec::new() };
        proof {
            assert(r.entries@ =~= Seq::<(String, V)>::empty());
        }
        r
    }

    /// Number of entries.
    pub fn len(&self) -> (r: usize)
        ensures
            r == self@.len(),
    {
        self.entries.len()
    }

    /// Index of the first entry whose key is `k`.
    pub fn find(&self, k: &str) -> (r: Option<usize>)
        ensures
            r is Some ==> r->Some_0 < self@.len() && self@[r->Some_0 as int].0@ == k@
                && forall|j: int| 0 <= j < r->Some_0 ==> (#[trigger] self@[j].0@) != k@,
            r is None ==> forall|j: int|
                0 <= j < self@.len() ==> (#[trigger] self@[j].0@) != k@,
    {
        let mut i: usize = 0;
        while i < self.entries.len()
            invariant
                i <= self@.len(),
                forall|j: int| 0 <= j < i ==> (#[trigger] self@[j].0@) != k@,
            decreases self@.len() - i,
        {
            if str_eq_exec(self.entries[i].0.as_str(), k) {
                return Some(i);
            }
            i = i + 1;
        }
        None
    }

    /// Lookup by key.
    pub fn get(&self, k: &str) -> (r: Option<&V>)
        ensures
            match r {
                Some(v) => self.spec_lookup(k@) == Some(*v),
                None => self.spec_lookup(k@) is None,
            },
    {
        let fr = self.find(k);
        match fr {
            Some(i) => {
                proof {
                    lemma_spec_gete_at_first(self.entries@, k@, i as int);
                }
                Some(&self.entries[i].1)
            }
            None => {
                proof {
                    assert(forall|j: int|
                        0 <= j < self@.len() ==> (#[trigger] self@[j].0@) != k@);
                    lemma_spec_gete_absent(self@, k@);
                }
                None
            }
        }
    }

    /// Key membership test.
    pub fn contains_key(&self, k: &str) -> (r: bool)
        ensures
            r == self.spec_has(k@),
    {
        let fr = self.find(k);
        match fr {
            Some(i) => {
                proof {
                    lemma_spec_gete_at_first(self.entries@, k@, i as int);
                }
                true
            }
            None => {
                proof {
                    assert(forall|j: int|
                        0 <= j < self@.len() ==> (#[trigger] self@[j].0@) != k@);
                    lemma_spec_gete_absent(self@, k@);
                }
                false
            }
        }
    }

    /// Insert a binding, replacing any existing binding of the same key.
    pub fn insert(&mut self, k: String, v: V)
        ensures
            final(self)@ == spec_insert(old(self)@, k, v),
    {
        let ghost s0 = self@;
        let mut i: usize = 0;
        while i < self.entries.len() && str_lt_exec(self.entries[i].0.as_str(), k.as_str())
            invariant
                self@ == s0,
                i <= s0.len(),
                forall|j: int| 0 <= j < i ==> str_lt(#[trigger] s0[j].0@, k@),
            decreases s0.len() - i,
        {
            i = i + 1;
        }
        proof {
            lemma_spec_insert_skip(s0, k, v, i as int);
        }
        if i == self.entries.len() {
            self.entries.push((k, v));
            proof {
                assert(s0.skip(i as int) =~= Seq::<(String, V)>::empty());
                assert(self@ =~= s0.take(i as int) + spec_insert(s0.skip(i as int), k, v));
            }
        } else if str_eq_exec(self.entries[i].0.as_str(), k.as_str()) {
            self.entries.set(i, (k, v));
            proof {
                assert(s0.skip(i as int)[0] == s0[i as int]);
                assert(spec_insert(s0.skip(i as int), k, v)
                    =~= seq![(k, v)] + s0.skip(i as int).drop_first());
                assert(self@ =~= s0.take(i as int) + spec_insert(s0.skip(i as int), k, v));
            }
        } else {
            self.entries.insert(i, (k, v));
            proof {
                assert(!str_lt(s0[i as int].0@, k@));
                lemma_str_lt_connex_total(s0[i as int].0@, k@);
                assert(s0.skip(i as int)[0] == s0[i as int]);
                assert(spec_insert(s0.skip(i as int), k, v)
                    =~= seq![(k, v)] + s0.skip(i as int));
                assert(self@ =~= s0.take(i as int) + spec_insert(s0.skip(i as int), k, v));
            }
        }
    }
}

/// Lookup yields the entry at the first index holding the key.
pub proof fn lemma_spec_gete_at_first<V>(s: Seq<(String, V)>, k: Seq<char>, i: int)
    requires
        0 <= i < s.len(),
        s[i].0@ == k,
        forall|j: int| 0 <= j < i ==> (#[trigger] s[j].0@) != k,
    ensures
        spec_gete(s, k) == Some(s[i]),
    decreases i,
{
    if i > 0 {
        let t = s.drop_first();
        assert(forall|j: int| 0 <= j < i - 1 ==> t[j] == s[j + 1]);
        assert(t[i - 1] == s[i]);
        lemma_spec_gete_at_first(t, k, i - 1);
    }
}

/// A key bound at no index is not found.
pub proof fn lemma_spec_gete_absent<V>(s: Seq<(String, V)>, k: Seq<char>)
    requires
        forall|j: int| 0 <= j < s.len() ==> (#[trigger] s[j].0@) != k,
    ensures
        spec_gete(s, k) is None,
    decreases s.len(),
{
    if s.len() > 0 {
        let t = s.drop_first();
        assert(forall|j: int| 0 <= j < t.len() ==> t[j] == s[j + 1]);
        lemma_spec_gete_absent(t, k);
    }
}

/// Inserting past an all-smaller prefix keeps the prefix in place.
proof fn lemma_spec_insert_skip<V>(s: Seq<(String, V)>, k: String, v: V, i: int)
    requires
        0 <= i <= s.len(),
        forall|j: int| 0 <= j < i ==> str_lt(#[trigger] s[j].0@, k@),
    ensures
        spec_insert(s, k, v) == s.take(i) + spec_insert(s.skip(i), k, v),
    decreases i,
{
    if i == 0 {
        assert(s.skip(0) =~= s);
        assert(s.take(0) =~= Seq::<(String, V)>::empty());
        assert(spec_insert(s, k, v) =~= s.take(0) + spec_insert(s.skip(0), k, v));
    } else {
        assert(str_lt(s[0].0@, k@));
        lemma_str_lt_asymm(s[0].0@, k@);
        let t = s.drop_first();
        assert(forall|j: int| 0 <= j < i - 1 ==> str_lt(#[trigger] t[j].0@, k@)) by {
            assert(forall|j: int| 0 <= j < i - 1 ==> t[j] == s[j + 1]);
        }
        lemma_spec_insert_skip(t, k, v, i - 1);
        assert(t.skip(i - 1) =~= s.skip(i));
        assert(t.take(i - 1) =~= s.take(i).drop_first());
        assert(seq![s[0]] + (t.take(i - 1) + spec_insert(s.skip(i), k, v))
            =~= s.take(i) + spec_insert(s.skip(i), k, v));
    }
}

/// If neither below nor equal, then above.
pub proof fn lemma_str_lt_connex_total(a: Seq<char>, b: Seq<char>)
    requires
        !str_lt(a, b),
        a != b,
    ensures
        str_lt(b, a),
{
    if !str_lt(b, a) {
        lemma_str_lt_connex(a, b);
    }
}

/// Every key after insertion came from the sequence or is the new key.
proof fn lemma_spec_insert_keys<V>(s: Seq<(String, V)>, k: String, v: V)
    ensures
        forall|i: int| 0 <= i < spec_insert(s, k, v).len() ==>
            (#[trigger] spec_insert(s, k, v)[i].0@ == k@
                || exists|m: int| 0 <= m < s.len() && spec_insert(s, k, v)[i].0@
                    == #[trigger] s[m].0@),
    decreases s.len(),
{
    if s.len() == 0 {
    } else if str_lt(k@, s[0].0@) {
    } else if k@ == s[0].0@ {
        let r = spec_insert(s, k, v);
        assert forall|i: int| 0 <= i < r.len() implies
            (#[trigger] r[i].0@ == k@
                || exists|m: int| 0 <= m < s.len() && r[i].0@ == #[trigger] s[m].0@) by {
            if i > 0 {
                assert(r[i] == s[i]);
            }
        }
    } else {
        lemma_spec_insert_keys(s.drop_first(), k, v);
        let t = s.drop_first();
        let r = spec_insert(s, k, v);
        let rt = spec_insert(t, k, v);
        assert forall|i: int| 0 <= i < r.len() implies
            (#[trigger] r[i].0@ == k@
                || exists|m: int| 0 <= m < s.len() && r[i].0@ == #[trigger] s[m].0@) by {
            if i == 0 {
                assert(r[0].0@ == s[0].0@);
            } else {
                assert(r[i] == rt[i - 1]);
                if rt[i - 1].0@ == k@ {
                } else {
                    let m = choose|m: int| 0 <= m < t.len() && rt[i - 1].0@ == t[m].0@;
                    assert(r[i].0@ == s[m + 1].0@);
                }
            }
        }
    }
}

/// Insertion preserves sortedness.
pub proof fn lemma_spec_insert_sorted<V>(s: Seq<(String, V)>, k: String, v: V)
    requires
        spec_sorted(s),
    ensures
        spec_sorted(spec_insert(s, k, v)),
    decreases s.len(),
{
    let r = spec_insert(s, k, v);
    if s.len() == 0 {
    } else if str_lt(k@, s[0].0@) {
        assert forall|i: int, j: int| 0 <= i < j < r.len() implies
            str_lt(#[trigger] r[i].0@, #[trigger] r[j].0@) by {
            if i == 0 {
                if j == 1 {
                } else {
                    lemma_str_lt_trans(k@, s[0].0@, s[j - 1].0@);
                }
            }
        }
    } else if k@ == s[0].0@ {
        assert forall|i: int, j: int| 0 <= i < j < r.len() implies
            str_lt(#[trigger] r[i].0@, #[trigger] r[j].0@) by {
            if i == 0 {
                assert(r[j] == s[j]);
                assert(str_lt(s[0].0@, s[j].0@));
            } else {
                assert(r[i] == s[i] && r[j] == s[j]);
            }
        }
    } else {
        lemma_str_lt_connex_total(k@, s[0].0@);
        let t = s.drop_first();
        assert(spec_sorted(t)) by {
            assert(forall|i: int| 0 <= i < t.len() ==> t[i] == s[i + 1]);
        }
        lemma_spec_insert_sorted(t, k, v);
        let rt = spec_insert(t, k, v);
        lemma_spec_insert_keys(t, k, v);
        assert forall|i: int, j: int| 0 <= i < j < r.len() implies
            str_lt(#[trigger] r[i].0@, #[trigger] r[j].0@) by {
            if i == 0 {
                assert(r[j] == rt[j - 1]);
                if rt[j - 1].0@ == k@ {
                    assert(str_lt(s[0].0@, k@));
                } else {
                    let m = choose|m: int| 0 <= m < t.len() && rt[j - 1].0@ == t[m].0@;
                    assert(str_lt(s[0].0@, s[m + 1].0@));
                }
            } else {
                assert(r[i] == rt[i - 1] && r[j] == rt[j - 1]);
            }
        }
    }
}

/// Lookup after insertion: the inserted key maps to the new entry, other
/// keys are untouched.
pub proof fn lemma_spec_insert_gete<V>(s: Seq<(String, V)>, k: String, v: V, q: Seq<char>)
    requires
        spec_sorted(s),
    ensures
        spec_gete(spec_insert(s, k, v), q) == if q == k@ {
            Some((k, v))
        } else {
            spec_gete(s, q)
        },
    decreases s.len(),
{
    let r = spec_insert(s, k, v);
    if s.len() == 0 {
        assert(r[0] == (k, v));
        assert(r.drop_first() =~= Seq::<(String, V)>::empty());
        assert(spec_gete(r, q) == (if q == k@ { Some((k, v)) } else { spec_gete(s, q) }));
    } else if str_lt(k@, s[0].0@) {
        lemma_str_lt_asymm(k@, s[0].0@);
        assert(r[0] == (k, v));
        assert(r.drop_first() =~= s);
        assert(spec_gete(r, q) == (if q == k@ { Some((k, v)) } else { spec_gete(s, q) }));
    } else if k@ == s[0].0@ {
        assert(r[0] == (k, v));
        assert(r.drop_first() =~= s.drop_first());
        if q != k@ {
            assert(spec_gete(s, q) == spec_gete(s.drop_first(), q));
        }
        assert(spec_gete(r, q) == (if q == k@ { Some((k, v)) } else { spec_gete(s, q) }));
    } else {
        lemma_str_lt_connex_total(k@, s[0].0@);
        let t = s.drop_first();
        assert(spec_sorted(t)) by {
            assert(forall|i: int| 0 <= i < t.len() ==> t[i] == s[i + 1]);
        }
        lemma_spec_insert_gete(t, k, v, q);
        assert(r.drop_first() =~= spec_insert(t, k, v));
        assert(r[0] == s[0]);
        if q == k@ {
            lemma_str_lt_asymm(s[0].0@, k@);
            assert(r[0].0@ != q);
        }
        assert(spec_gete(r, q) == (if q == k@ { Some((k, v)) } else { spec_gete(s, q) }));
    }
}

/// Two sorted entry sequences with the same entry lookups are equal.
pub proof fn lemma_sorted_canonical<V>(s1: Seq<(String, V)>, s2: Seq<(String, V)>)
    requires
        spec_sorted(s1),
        spec_sorted(s2),
        forall|k: Seq<char>| #[trigger] spec_gete(s1, k) == spec_gete(s2, k),
    ensures
        s1 == s2,
    decreases s1.len(),
{
    lemma_sorted_gete_self(s1);
    lemma_sorted_gete_self(s2);
    if s1.len() == 0 && s2.len() == 0 {
        assert(s1 =~= s2);
    } else if s1.len() == 0 {
        assert(spec_gete(s2, s2[0].0@) == Some(s2[0]));
        assert(spec_gete(s1, s2[0].0@) is None);
    } else if s2.len() == 0 {
        assert(spec_gete(s1, s1[0].0@) == Some(s1[0]));
        assert(spec_gete(s2, s1[0].0@) is None);
    } else {
        lemma_sorted_head_min(s1, s2);
        lemma_sorted_head_min(s2, s1);
        assert(s1[0].0@ == s2[0].0@) by {
            lemma_str_lt_connex(s1[0].0@, s2[0].0@);
        }
        assert(spec_gete(s1, s1[0].0@) == Some(s1[0]));
        assert(spec_gete(s2, s1[0].0@) == Some(s2[0]));
        assert(s1[0] == s2[0]);
        let t1 = s1.drop_first();
        let t2 = s2.drop_first();
        assert(spec_sorted(t1)) by {
            assert(forall|i: int| 0 <= i < t1.len() ==> t1[i] == s1[i + 1]);
        }
        assert(spec_sorted(t2)) by {
            assert(forall|i: int| 0 <= i < t2.len() ==> t2[i] == s2[i + 1]);
        }
        assert forall|k: Seq<char>| #[trigger] spec_gete(t1, k) == spec_gete(t2, k) by {
            if k == s1[0].0@ {
                lemma_sorted_tail_free(s1, k);
                lemma_sorted_tail_free(s2, k);
            } else {
                assert(spec_gete(s1, k) == spec_gete(t1, k));
                assert(spec_gete(s2, k) == spec_gete(t2, k));
            }
        }
        lemma_sorted_canonical(t1, t2);
        assert(s1 =~= s2) by {
            assert(forall|i: int| 1 <= i < s1.len() ==> s1[i] == t1[i - 1]);
            assert(forall|i: int| 1 <= i < s2.len() ==> s2[i] == t2[i - 1]);
        }
    }
}

/// Between two lookup-equal sorted sequences, neither head key is below
/// the other.
proof fn lemma_sorted_head_min<V>(a: Seq<(String, V)>, b: Seq<(String, V)>)
    requires
        a.len() > 0,
        b.len() > 0,
        spec_sorted(a),
        spec_sorted(b),
        forall|k: Seq<char>| #[trigger] spec_gete(a, k) == spec_gete(b, k),
    ensures
        !str_lt(a[0].0@, b[0].0@),
{
    if str_lt(a[0].0@, b[0].0@) {
        lemma_sorted_gete_self(a);
        assert(spec_gete(a, a[0].0@) == Some(a[0]));
        lemma_sorted_gete_below_head(b, a[0].0@);
    }
}

/// A key below the head of a sorted sequence is unbound.
proof fn lemma_sorted_gete_below_head<V>(s: Seq<(String, V)>, k: Seq<char>)
    requires
        s.len() > 0,
        spec_sorted(s),
        str_lt(k, s[0].0@),
    ensures
        spec_gete(s, k) is None,
    decreases s.len(),
{
    lemma_str_lt_asymm(k, s[0].0@);
    if s.len() > 1 {
        let t = s.drop_first();
        assert(spec_sorted(t)) by {
            assert(forall|i: int| 0 <= i < t.len() ==> t[i] == s[i + 1]);
        }
        lemma_str_lt_trans(k, s[0].0@, s[1].0@);
        lemma_sorted_gete_below_head(t, k);
    }
}

/// After removing the head of a sorted sequence its key is unbound.
proof fn lemma_sorted_tail_free<V>(s: Seq<(String, V)>, k: Seq<char>)
    requires
        s.len() > 0,
        spec_sorted(s),
        k == s[0].0@,
    ensures
        spec_gete(s.drop_first(), k) is None,
{
    let t = s.drop_first();
    if t.len() > 0 {
        assert(spec_sorted(t)) by {
            assert(forall|i: int| 0 <= i < t.len() ==> t[i] == s[i + 1]);
        }
        assert(str_lt(k, t[0].0@));
        lemma_sorted_gete_below_head(t, k);
    }
}

/// In a sorted sequence every stored entry is found by lookup.
pub proof fn lemma_sorted_gete_self<V>(s: Seq<(String, V)>)
    requires
        spec_sorted(s),
    ensures
        forall|i: int| 0 <= i < s.len() ==> #[trigger] spec_gete(s, s[i].0@) == Some(s[i]),
    decreases s.len(),
{
    if s.len() > 0 {
        let t = s.drop_first();
        assert(spec_sorted(t)) by {
            assert(forall|i: int| 0 <= i < t.len() ==> t[i] == s[i + 1]);
        }
        lemma_sorted_gete_self(t);
        assert forall|i: int| 0 <= i < s.len() implies #[trigger] spec_gete(s, s[i].0@)
            == Some(s[i]) by {
            if i > 0 {
                assert(s[i] == t[i - 1]);
                assert(spec_gete(t, t[i - 1].0@) == Some(t[i - 1]));
                assert(str_lt(s[0].0@, s[i].0@));
                lemma_str_lt_asymm(s[0].0@, s[i].0@);
            }
        }
    }
}

/// Lookup in a view-level entry sequence, keyed by character sequences.
pub open spec fn vget<W>(s: Seq<(Seq<char>, W)>, k: Seq<char>) -> Option<W>
    decreases s.len(),
{
    if s.len() == 0 {
        None
    } else if s[0].0 == k {
        Some(s[0].1)
    } else {
        vget(s.drop_first(), k)
    }
}

/// Insertion into a sorted view-level entry sequence.
pub open spec fn vinsert<W>(s: Seq<(Seq<char>, W)>, k: Seq<char>, v: W) -> Seq<(Seq<char>, W)>
    decreases s.len(),
{
    if s.len() == 0 {
        seq![(k, v)]
    } else if str_lt(k, s[0].0) {
        seq![(k, v)] + s
    } else if k == s[0].0 {
        seq![(k, v)] + s.drop_first()
    } else {
        seq![s[0]] + vinsert(s.drop_first(), k, v)
    }
}

/// View-level sortedness.
pub open spec fn vsorted<W>(s: Seq<(Seq<char>, W)>) -> bool {
    forall|i: int, j: int|
        0 <= i < j < s.len() ==> str_lt(#[trigger] s[i].0, #[trigger] s[j].0)
}

/// The view-level image of an entry sequence under a value projection.
pub open spec fn proj<V, W>(s: Seq<(String, V)>, f: spec_fn(V) -> W) -> Seq<(Seq<char>, W)> {
    s.map_values(|e: (String, V)| (e.0@, f(e.1)))
}

/// Projection commutes with insertion.
pub proof fn lemma_proj_insert<V, W>(s: Seq<(String, V)>, k: String, v: V, f: spec_fn(V) -> W)
    ensures
        proj(spec_insert(s, k, v), f) == vinsert(proj(s, f), k@, f(v)),
    decreases s.len(),
{
    let ps = proj(s, f);
    assert(ps.len() == s.len());
    if s.len() == 0 {
        assert(proj(spec_insert(s, k, v), f) =~= vinsert(ps, k@, f(v)));
    } else {
        assert(ps[0] == (s[0].0@, f(s[0].1)));
        if str_lt(k@, s[0].0@) {
            assert(proj(spec_insert(s, k, v), f) =~= seq![(k@, f(v))] + ps);
        } else if k@ == s[0].0@ {
            assert(proj(s.drop_first(), f) =~= ps.drop_first());
            assert(proj(spec_insert(s, k, v), f) =~= seq![(k@, f(v))] + ps.drop_first());
        } else {
            lemma_proj_insert(s.drop_first(), k, v, f);
            assert(proj(s.drop_first(), f) =~= ps.drop_first());
            assert(proj(spec_insert(s, k, v), f)
                =~= seq![ps[0]] + proj(spec_insert(s.drop_first(), k, v), f));
            assert(vinsert(ps, k@, f(v))
                == seq![ps[0]] + vinsert(ps.drop_first(), k@, f(v)));
        }
    }
}

/// Projection commutes with lookup.
pub proof fn lemma_proj_gete<V, W>(s: Seq<(String, V)>, q: Seq<char>, f: spec_fn(V) -> W)
    ensures
        match spec_gete(s, q) {
            Some(e) => vget(proj(s, f), q) == Some(f(e.1)),
            None => vget(proj(s, f), q) is None,
        },
    decreases s.len(),
{
    let ps = proj(s, f);
    assert(ps.len() == s.len());
    if s.len() > 0 {
        assert(ps[0] == (s[0].0@, f(s[0].1)));
        if s[0].0@ != q {
            lemma_proj_gete(s.drop_first(), q, f);
            assert(proj(s.drop_first(), f) =~= ps.drop_first());
        }
    }
}

/// Projection preserves sortedness, both ways.
pub proof fn lemma_proj_sorted<V, W>(s: Seq<(String, V)>, f: spec_fn(V) -> W)
    ensures
        spec_sorted(s) == vsorted(proj(s, f)),
{
    let ps = proj(s, f);
    assert(ps.len() == s.len());
    assert(forall|i: int| 0 <= i < s.len() ==> (#[trigger] ps[i]).0 == s[i].0@);
    if spec_sorted(s) {
        assert forall|i: int, j: int| 0 <= i < j < ps.len() implies
            str_lt(#[trigger] ps[i].0, #[trigger] ps[j].0) by {
            assert(str_lt(s[i].0@, s[j].0@));
        }
    }
    if vsorted(ps) {
        assert forall|i: int, j: int| 0 <= i < j < s.len() implies
            str_lt(#[trigger] s[i].0@, #[trigger] s[j].0@) by {
            assert(str_lt(ps[i].0, ps[j].0));
        }
    }
}

/// View-level insertion keeps sortedness.
pub proof fn lemma_vinsert_sorted<W>(s: Seq<(Seq<char>, W)>, k: Seq<char>, v: W)
    requires
        vsorted(s),
    ensures
        vsorted(vinsert(s, k, v)),
    decreases s.len(),
{
    let r = vinsert(s, k, v);
    if s.len() == 0 {
    } else if str_lt(k, s[0].0) {
        assert forall|i: int, j: int| 0 <= i < j < r.len() implies
            str_lt(#[trigger] r[i].0, #[trigger] r[j].0) by {
            if i == 0 {
                if j == 1 {
                } else {
                    lemma_str_lt_trans(k, s[0].0, s[j - 1].0);
                }
            }
        }
    } else if k == s[0].0 {
        assert forall|i: int, j: int| 0 <= i < j < r.len() implies
            str_lt(#[trigger] r[i].0, #[trigger] r[j].0) by {
            if i == 0 {
                assert(r[j] == s[j]);
                assert(str_lt(s[0].0, s[j].0));
            } else {
                assert(r[i] == s[i] && r[j] == s[j]);
            }
        }
    } else {
        lemma_str_lt_connex_total(k, s[0].0);
        let t = s.drop_first();
        assert(vsorted(t)) by {
            assert(forall|i: int| 0 <= i < t.len() ==> t[i] == s[i + 1]);
        }
        lemma_vinsert_sorted(t, k, v);
        let rt = vinsert(t, k, v);
        lemma_vinsert_keys(t, k, v);
        assert forall|i: int, j: int| 0 <= i < j < r.len() implies
            str_lt(#[trigger] r[i].0, #[trigger] r[j].0) by {
            if i == 0 {
                assert(r[j] == rt[j - 1]);
                if rt[j - 1].0 == k {
                    assert(str_lt(s[0].0, k));
                } else {
                    let m = choose|m: int| 0 <= m < t.len() && rt[j - 1].0 == t[m].0;
                    assert(str_lt(s[0].0, s[m + 1].0));
                }
            } else {
                assert(r[i] == rt[i - 1] && r[j] == rt[j - 1]);
            }
        }
    }
}

/// Every key after view-level insertion came from the sequence or is the
/// new key.
proof fn lemma_vinsert_keys<W>(s: Seq<(Seq<char>, W)>, k: Seq<char>, v: W)
    ensures
        forall|i: int| 0 <= i < vinsert(s, k, v).len() ==>
            (#[trigger] vinsert(s, k, v)[i].0 == k
                || exists|m: int| 0 <= m < s.len() && vinsert(s, k, v)[i].0
                    == #[trigger] s[m].0),
    decreases s.len(),
{
    if s.len() == 0 {
    } else if str_lt(k, s[0].0) {
    } else if k == s[0].0 {
        let r = vinsert(s, k, v);
        assert forall|i: int| 0 <= i < r.len() implies
            (#[trigger] r[i].0 == k
                || exists|m: int| 0 <= m < s.len() && r[i].0 == #[trigger] s[m].0) by {
            if i > 0 {
                assert(r[i] == s[i]);
            }
        }
    } else {
        lemma_vinsert_keys(s.drop_first(), k, v);
        let t = s.drop_first();
        let r = vinsert(s, k, v);
        let rt = vinsert(t, k, v);
        assert forall|i: int| 0 <= i < r.len() implies
            (#[trigger] r[i].0 == k
                || exists|m: int| 0 <= m < s.len() && r[i].0 == #[trigger] s[m].0) by {
            if i == 0 {
                assert(r[0].0 == s[0].0);
            } else {
                assert(r[i] == rt[i - 1]);
                if rt[i - 1].0 == k {
                } else {
                    let m = choose|m: int| 0 <= m < t.len() && rt[i - 1].0 == t[m].0;
                    assert(r[i].0 == s[m + 1].0);
                }
            }
        }
    }
}

/// Lookup after view-level insertion.
pub proof fn lemma_vinsert_get<W>(s: Seq<(Seq<char>, W)>, k: Seq<char>, v: W, q: Seq<char>)
    requires
        vsorted(s),
    ensures
        vget(vinsert(s, k, v), q) == if q == k {
            Some(v)
        } else {
            vget(s, q)
        },
    decreases s.len(),
{
    let r = vinsert(s, k, v);
    if s.len() == 0 {
        assert(r[0] == (k, v));
        assert(r.drop_first() =~= Seq::<(Seq<char>, W)>::empty());
        assert(vget(r, q) == (if q == k { Some(v) } else { vget(s, q) }));
    } else if str_lt(k, s[0].0) {
        lemma_str_lt_asymm(k, s[0].0);
        assert(r[0] == (k, v));
        assert(r.drop_first() =~= s);
        assert(vget(r, q) == (if q == k { Some(v) } else { vget(s, q) }));
    } else if k == s[0].0 {
        assert(r[0] == (k, v));
        assert(r.drop_first() =~= s.drop_first());
        if q != k {
            assert(vget(s, q) == vget(s.drop_first(), q));
        }
        assert(vget(r, q) == (if q == k { Some(v) } else { vget(s, q) }));
    } else {
        lemma_str_lt_connex_total(k, s[0].0);
        let t = s.drop_first();
        assert(vsorted(t)) by {
            assert(forall|i: int| 0 <= i < t.len() ==> t[i] == s[i + 1]);
        }
        lemma_vinsert_get(t, k, v, q);
        assert(r.drop_first() =~= vinsert(t, k, v));
        assert(r[0] == s[0]);
        if q == k {
            lemma_str_lt_asymm(s[0].0, k);
            assert(r[0].0 != q);
        }
        assert(vget(r, q) == (if q == k { Some(v) } else { vget(s, q) }));
    }
}

/// In a view-sorted sequence every stored entry is found by lookup.
pub proof fn lemma_vsorted_get_self<W>(s: Seq<(Seq<char>, W)>)
    requires
        vsorted(s),
    ensures
        forall|i: int| 0 <= i < s.len() ==> #[trigger] vget(s, s[i].0) == Some(s[i].1),
    decreases s.len(),
{
    if s.len() > 0 {
        let t = s.drop_first();
        assert(vsorted(t)) by {
            assert(forall|i: int| 0 <= i < t.len() ==> t[i] == s[i + 1]);
        }
        lemma_vsorted_get_self(t);
        assert forall|i: int| 0 <= i < s.len() implies #[trigger] vget(s, s[i].0)
            == Some(s[i].1) by {
            if i > 0 {
                assert(s[i] == t[i - 1]);
                assert(vget(t, t[i - 1].0) == Some(t[i - 1].1));
                assert(str_lt(s[0].0, s[i].0));
                lemma_str_lt_asymm(s[0].0, s[i].0);
            }
        }
    }
}

/// A key below the head of a view-sorted sequence is unbound.
proof fn lemma_vsorted_get_below_head<W>(s: Seq<(Seq<char>, W)>, k: Seq<char>)
    requires
        s.len() > 0,
        vsorted(s),
        str_lt(k, s[0].0),
    ensures
        vget(s, k) is None,
    decreases s.len(),
{
    lemma_str_lt_asymm(k, s[0].0);
    if s.len() > 1 {
        let t = s.drop_first();
        assert(vsorted(t)) by {
            assert(forall|i: int| 0 <= i < t.len() ==> t[i] == s[i + 1]);
        }
        lemma_str_lt_trans(k, s[0].0, s[1].0);
        lemma_vsorted_get_below_head(t, k);
    }
}

/// After removing the head of a view-sorted sequence its key is unbound.
proof fn lemma_vsorted_tail_free<W>(s: Seq<(Seq<char>, W)>, k: Seq<char>)
    requires
        s.len() > 0,
        vsorted(s),
        k == s[0].0,
    ensures
        vget(s.drop_first(), k) is None,
{
    let t = s.drop_first();
    if t.len() > 0 {
        assert(vsorted(t)) by {
            assert(forall|i: int| 0 <= i < t.len() ==> t[i] == s[i + 1]);
        }
        assert(str_lt(k, t[0].0));
        lemma_vsorted_get_below_head(t, k);
    }
}

/// Between two lookup-equal view-sorted sequences, neither head key is
/// below the other.
proof fn lemma_vsorted_head_min<W>(a: Seq<(Seq<char>, W)>, b: Seq<(Seq<char>, W)>)
    requires
        a.len() > 0,
        b.len() > 0,
        vsorted(a),
        vsorted(b),
        forall|k: Seq<char>| #[trigger] vget(a, k) == vget(b, k),
    ensures
        !str_lt(a[0].0, b[0].0),
{
    if str_lt(a[0].0, b[0].0) {
        lemma_vsorted_get_self(a);
        assert(vget(a, a[0].0) == Some(a[0].1));
        lemma_vsorted_get_below_head(b, a[0].0);
    }
}

/// Two view-sorted entry sequences with the same lookups are equal.
pub proof fn lemma_vsorted_canonical<W>(s1: Seq<(Seq<char>, W)>, s2: Seq<(Seq<char>, W)>)
    requires
        vsorted(s1),
        vsorted(s2),
        forall|k: Seq<char>| #[trigger] vget(s1, k) == vget(s2, k),
    ensures
        s1 == s2,
    decreases s1.len(),
{
    lemma_vsorted_get_self(s1);
    lemma_vsorted_get_self(s2);
    if s1.len() == 0 && s2.len() == 0 {
        assert(s1 =~= s2);
    } else if s1.len() == 0 {
        assert(vget(s2, s2[0].0) == Some(s2[0].1));
        assert(vget(s1, s2[0].0) is None);
    } else if s2.len() == 0 {
        assert(vget(s1, s1[0].0) == Some(s1[0].1));
        assert(vget(s2, s1[0].0) is None);
    } else {
        lemma_vsorted_head_min(s1, s2);
        lemma_vsorted_head_min(s2, s1);
        assert(s1[0].0 == s2[0].0) by {
            lemma_str_lt_connex(s1[0].0, s2[0].0);
        }
        assert(vget(s1, s1[0].0) == Some(s1[0].1));
        assert(vget(s2, s1[0].0) == Some(s2[0].1));
        assert(s1[0] == s2[0]);
        let t1 = s1.drop_first();
        let t2 = s2.drop_first();
        assert(vsorted(t1)) by {
            assert(forall|i: int| 0 <= i < t1.len() ==> t1[i] == s1[i + 1]);
        }
        assert(vsorted(t2)) by {
            assert(forall|i: int| 0 <= i < t2.len() ==> t2[i] == s2[i + 1]);
        }
        assert forall|k: Seq<char>| #[trigger] vget(t1, k) == vget(t2, k) by {
            if k == s1[0].0 {
                lemma_vsorted_tail_free(s1, k);
                lemma_vsorted_tail_free(s2, k);
            } else {
                assert(vget(s1, k) == vget(t1, k));
                assert(vget(s2, k) == vget(t2, k));
            }
        }
        lemma_vsorted_canonical(t1, t2);
        assert(s1 =~= s2) by {
            assert(forall|i: int| 1 <= i < s1.len() ==> s1[i] == t1[i - 1]);
            assert(forall|i: int| 1 <= i < s2.len() ==> s2[i] == t2[i - 1]);
        }
    }
}

/// Entries folded into a map by repeated insertion, in order.
pub open spec fn spec_insert_all<V>(
    s: Seq<(String, V)>,
    entries: Seq<(String, V)>,
) -> Seq<(String, V)>
    decreases entries.len(),
{
    if entries.len() == 0 {
        s
    } else {
        spec_insert(
            spec_insert_all(s, entries.drop_last()),
            entries.last().0,
            entries.last().1,
        )
    }
}

/// Folding preserves sortedness.
pub proof fn lemma_spec_insert_all_sorted<V>(s: Seq<(String, V)>, entries: Seq<(String, V)>)
    requires
        spec_sorted(s),
    ensures
        spec_sorted(spec_insert_all(s, entries)),
    decreases entries.len(),
{
    if entries.len() > 0 {
        lemma_spec_insert_all_sorted(s, entries.drop_last());
        lemma_spec_insert_sorted(
            spec_insert_all(s, entries.drop_last()),
            entries.last().0,
            entries.last().1,
        );
    }
}

/// A key is bound after folding exactly when it was bound before or is
/// one of the folded keys.
pub proof fn lemma_spec_insert_all_gete<V>(
    s: Seq<(String, V)>,
    entries: Seq<(String, V)>,
    q: Seq<char>,
)
    requires
        spec_sorted(s),
    ensures
        spec_gete(spec_insert_all(s, entries), q) is Some <==> (spec_gete(s, q) is Some
            || exists|i: int| 0 <= i < entries.len() && (#[trigger] entries[i].0@) == q),
    decreases entries.len(),
{
    if entries.len() > 0 {
        let pre = entries.drop_last();
        lemma_spec_insert_all_gete(s, pre, q);
        lemma_spec_insert_all_sorted(s, pre);
        lemma_spec_insert_gete(
            spec_insert_all(s, pre),
            entries.last().0,
            entries.last().1,
            q,
        );
        if q == entries.last().0@ {
            assert(entries[entries.len() - 1].0@ == q);
        } else {
            assert forall|i: int| 0 <= i < pre.len() && (#[trigger] pre[i].0@) == q
                implies exists|j: int|
                0 <= j < entries.len() && (#[trigger] entries[j].0@) == q by {
                assert(entries[i].0@ == q);
            }
            if exists|i: int| 0 <= i < entries.len() && (#[trigger] entries[i].0@) == q {
                let i = choose|i: int|
                    0 <= i < entries.len() && (#[trigger] entries[i].0@) == q;
                assert(pre[i].0@ == q);
            }
        }
    }
}

/// A bound key occurs in the entries.
pub proof fn lemma_spec_gete_some_index<V>(s: Seq<(String, V)>, q: Seq<char>)
    requires
        spec_gete(s, q) is Some,
    ensures
        exists|i: int| 0 <= i < s.len() && (#[trigger] s[i].0@) == q,
    decreases s.len(),
{
    if s.len() > 0 {
        if s[0].0@ == q {
        } else {
            lemma_spec_gete_some_index(s.drop_first(), q);
            let i = choose|i: int|
                0 <= i < s.drop_first().len() && (#[trigger] s.drop_first()[i].0@) == q;
            assert(s[i + 1].0@ == q);
        }
    }
}

} // verus!
