//! Workspace glob-pattern bookkeeping: negate-prefix parsing and the
//! add/remove set algebra applied to per-pattern match lists. Pattern
//! matching against the filesystem is the caller's step; what happens to
//! its results is decided and proved here.
use vstd::prelude::*;

use crate::strutil::{is_path_prefix, path_prefix_exec, str_eq_exec};

verus! {

/// Number of leading `!` characters on a pattern.
pub open spec fn negate_prefix_len(s: Seq<char>) -> nat
    decreases s.len(),
{
    if s.len() == 0 || s[0] != '!' {
        0
    } else {
        1 + negate_prefix_len(s.drop_first())
    }
}

proof fn lemma_negate_prefix_len_step(s: Seq<char>, i: nat)
    requires
        i < s.len(),
        forall|j: int| 0 <= j < i ==> s[j] == '!',
        s[i as int] != '!',
    ensures
        negate_prefix_len(s) == i,
    decreases i,
{
    if i == 0 {
    } else {
        lemma_negate_prefix_len_step(s.drop_first(), (i - 1) as nat);
    }
}

proof fn lemma_negate_prefix_len_all(s: Seq<char>)
    requires
        forall|j: int| 0 <= j < s.len() ==> s[j] == '!',
    ensures
        negate_prefix_len(s) == s.len(),
    decreases s.len(),
{
    if s.len() != 0 {
        lemma_negate_prefix_len_all(s.drop_first());
    }
}

/// Strip a leading run of `!` characters from a pattern; the stripped
/// pattern is returned together with the negate flag, which holds exactly
/// when negation is enabled and the run has odd length.
pub fn parse_negate(pattern: String, enable_negate: bool) -> (r: (String, bool))
    ensures
        enable_negate ==> r.0@ == pattern@.subrange(
            negate_prefix_len(pattern@) as int,
            pattern@.len() as int,
        ),
        enable_negate ==> r.1 == (negate_prefix_len(pattern@) % 2 == 1),
        !enable_negate ==> r.0@ == pattern@ && r.1 == false,
{
    if !enable_negate {
        return (pattern, false);
    }
    let pat = pattern.as_str();
    let n = pat.unicode_len();
    let mut counts: usize = 0;
    while counts < n && pat.get_char(counts) == '!'
        invariant
            counts <= n,
            n == pat@.len(),
            forall|j: int| 0 <= j < counts ==> pat@[j] == '!',
        decreases n - counts,
    {
        counts = counts + 1;
    }
    proof {
        if counts == n {
            lemma_negate_prefix_len_all(pat@);
        } else {
            lemma_negate_prefix_len_step(pat@, counts as nat);
        }
    }
    let negate: bool = counts % 2 == 1;
    let stripped = pat.substring_char(counts, n);
    (String::from_str(stripped), negate)
}

/// Pair a pattern's match outcome with its negate flag: `matched` is what
/// pattern matching returned for the stripped form of `pattern`, or none
/// when the pattern was rejected.
pub fn resolve_glob(pattern: String, enable_negate: bool, matched: Option<Vec<String>>)
    -> (r: (Option<Vec<String>>, bool))
    ensures
        r.0 == matched,
        r.1 == (enable_negate && negate_prefix_len(pattern@) % 2 == 1),
{
    let parsed = parse_negate(pattern, enable_negate);
    (matched, parsed.1)
}

/// The match list of one pattern, as character sequences; none when the
/// pattern was rejected.
pub open spec fn match_views(m: Option<Vec<String>>) -> Option<Seq<Seq<char>>> {
    match m {
        Some(v) => Some(v@.map_values(|e: String| e@)),
        None => None,
    }
}

/// Entries surviving removal by a negated pattern: those that no matched
/// path is a whole-component prefix of.
pub open spec fn remove_prefixed(entries: Seq<Seq<char>>, matched: Seq<Seq<char>>)
    -> Seq<Seq<char>>
    decreases entries.len(),
{
    if entries.len() == 0 {
        entries
    } else {
        let p = remove_prefixed(entries.drop_last(), matched);
        if exists|j: int|
            0 <= j < matched.len() && is_path_prefix(#[trigger] matched[j], entries.last()) {
            p
        } else {
            p.push(entries.last())
        }
    }
}

/// One pattern applied to the running entry list: a rejected pattern is
/// skipped, a negated one removes, any other appends its matches.
pub open spec fn collect_step(
    entries: Seq<Seq<char>>,
    matched: Option<Seq<Seq<char>>>,
    negate: bool,
) -> Seq<Seq<char>> {
    match matched {
        None => entries,
        Some(m) => if negate {
            remove_prefixed(entries, m)
        } else {
            entries + m
        },
    }
}

/// All patterns applied in order, starting from no entries.
pub open spec fn collect_entries(steps: Seq<(Option<Seq<Seq<char>>>, bool)>)
    -> Seq<Seq<char>>
    decreases steps.len(),
{
    if steps.len() == 0 {
        Seq::empty()
    } else {
        collect_step(
            collect_entries(steps.drop_last()),
            steps.last().0,
            steps.last().1,
        )
    }
}

/// Duplicates removed, keeping each entry's first occurrence.
pub open spec fn dedup_first(s: Seq<Seq<char>>) -> Seq<Seq<char>>
    decreases s.len(),
{
    if s.len() == 0 {
        s
    } else {
        let p = dedup_first(s.drop_last());
        if s.drop_last().contains(s.last()) {
            p
        } else {
            p.push(s.last())
        }
    }
}

/// Two entry lists holding exactly the same entries.
pub open spec fn same_elements(a: Seq<Seq<char>>, b: Seq<Seq<char>>) -> bool {
    forall|x: Seq<char>| #![trigger a.contains(x)] #![trigger b.contains(x)]
        a.contains(x) <==> b.contains(x)
}

proof fn lemma_same_elements_push(a: Seq<Seq<char>>, b: Seq<Seq<char>>, x: Seq<char>)
    requires
        same_elements(a, b),
    ensures
        same_elements(a.push(x), b.push(x)),
{
    let ap = a.push(x);
    let bp = b.push(x);
    assert forall|y: Seq<char>| #[trigger] ap.contains(y) implies bp.contains(y) by {
        let m = choose|m: int| 0 <= m < ap.len() && ap[m] == y;
        if m < a.len() {
            assert(a.contains(y));
            assert(b.contains(y));
            let l = choose|l: int| 0 <= l < b.len() && b[l] == y;
            assert(bp[l] == y);
        } else {
            assert(bp[bp.len() - 1] == y);
        }
    }
    assert forall|y: Seq<char>| #[trigger] bp.contains(y) implies ap.contains(y) by {
        let m = choose|m: int| 0 <= m < bp.len() && bp[m] == y;
        if m < b.len() {
            assert(b.contains(y));
            assert(a.contains(y));
            let l = choose|l: int| 0 <= l < a.len() && a[l] == y;
            assert(ap[l] == y);
        } else {
            assert(ap[ap.len() - 1] == y);
        }
    }
}

proof fn lemma_same_elements_skip(a: Seq<Seq<char>>, b: Seq<Seq<char>>, x: Seq<char>)
    requires
        same_elements(a, b),
        b.contains(x),
    ensures
        same_elements(a, b.push(x)),
{
    let bp = b.push(x);
    assert forall|y: Seq<char>| #[trigger] bp.contains(y) implies a.contains(y) by {
        let m = choose|m: int| 0 <= m < bp.len() && bp[m] == y;
        if m < b.len() {
            assert(b.contains(y));
        } else {
            assert(y == x);
        }
    }
    assert forall|y: Seq<char>| #[trigger] a.contains(y) implies bp.contains(y) by {
        assert(b.contains(y));
        let l = choose|l: int| 0 <= l < b.len() && b[l] == y;
        assert(bp[l] == y);
    }
}

/// Whether some matched path is a whole-component prefix of `entry`.
fn any_path_prefix(matched: &Vec<String>, entry: &str) -> (r: bool)
    ensures
        r == exists|j: int|
            0 <= j < matched@.len()
                && is_path_prefix((#[trigger] matched@[j])@, entry@),
{
    let mut j: usize = 0;
    while j < matched.len()
        invariant
            j <= matched@.len(),
            forall|l: int|
                0 <= l < j ==> !is_path_prefix((#[trigger] matched@[l])@, entry@),
        decreases matched@.len() - j,
    {
        if path_prefix_exec(entry, matched[j].as_str()) {
            return true;
        }
        j = j + 1;
    }
    false
}

/// Whether `entry` already occurs in `seen`.
fn already_has(seen: &Vec<String>, entry: &str) -> (r: bool)
    ensures
        r == seen@.map_values(|e: String| e@).contains(entry@),
{
    let ghost views = seen@.map_values(|e: String| e@);
    let mut j: usize = 0;
    while j < seen.len()
        invariant
            j <= seen@.len(),
            views == seen@.map_values(|e: String| e@),
            forall|l: int| 0 <= l < j ==> (#[trigger] views[l]) != entry@,
        decreases seen@.len() - j,
    {
        if str_eq_exec(seen[j].as_str(), entry) {
            proof {
                assert(views[j as int] == entry@);
            }
            return true;
        }
        j = j + 1;
    }
    proof {
        if views.contains(entry@) {
            let l = choose|l: int| 0 <= l < views.len() && views[l] == entry@;
            assert(false);
        }
    }
    false
}

/// Apply every pattern's match outcome to the running entry list, in
/// pattern order, then drop duplicate entries, keeping first occurrences.
/// `matches[i]` is the match outcome for the stripped form of
/// `patterns[i]`; an absent pattern list collects nothing.
pub fn collect(
    patterns: &Option<Vec<String>>,
    enable_negate: bool,
    matches: &Vec<Option<Vec<String>>>,
) -> (r: Vec<String>)
    requires
        matches@.len() == (match *patterns {
            Some(ps) => ps@.len(),
            None => 0,
        }),
    ensures
        r@.map_values(|e: String| e@) == dedup_first(collect_entries(
            Seq::new(
                matches@.len() as nat,
                |i: int| (
                    match_views(matches@[i]),
                    enable_negate && (match *patterns {
                        Some(ps) => negate_prefix_len(ps@[i]@) % 2 == 1,
                        None => false,
                    }),
                ),
            ),
        )),
{
    let ghost steps = Seq::new(
        matches@.len() as nat,
        |i: int| (
            match_views(matches@[i]),
            enable_negate && (match *patterns {
                Some(ps) => negate_prefix_len(ps@[i]@) % 2 == 1,
                None => false,
            }),
        ),
    );
    let mut entries: Vec<String> = Vec::new();
    match patterns {
        None => {
            proof {
                assert(steps =~= Seq::<(Option<Seq<Seq<char>>>, bool)>::empty());
                assert(entries@.map_values(|e: String| e@)
                    =~= dedup_first(collect_entries(steps)));
            }
            entries
        }
        Some(ps) => {
            let mut i: usize = 0;
            proof {
                assert(entries@.map_values(|e: String| e@)
                    =~= collect_entries(steps.take(0)));
            }
            while i < ps.len()
                invariant
                    i <= ps@.len(),
                    matches@.len() == ps@.len(),
                    steps == Seq::new(
                        matches@.len() as nat,
                        |l: int| (
                            match_views(matches@[l]),
                            enable_negate && negate_prefix_len(ps@[l]@) % 2 == 1,
                        ),
                    ),
                    entries@.map_values(|e: String| e@)
                        == collect_entries(steps.take(i as int)),
                decreases ps@.len() - i,
            {
                let parsed = parse_negate(ps[i].clone(), enable_negate);
                let negate = parsed.1;
                proof {
                    assert(steps.take(i + 1).drop_last() =~= steps.take(i as int));
                    assert(steps.take(i + 1).last() == steps[i as int]);
                }
                match &matches[i] {
                    None => {
                        proof {
                            assert(steps[i as int].0 is None);
                        }
                    }
                    Some(matched) => {
                        proof {
                            assert(steps[i as int].0
                                == Some(matched@.map_values(|e: String| e@)));
                            assert(steps[i as int].1 == negate);
                        }
                        if negate {
                            let ghost e0 = entries@.map_values(|e: String| e@);
                            let ghost mviews = matched@.map_values(|e: String| e@);
                            let mut kept: Vec<String> = Vec::new();
                            let mut j: usize = 0;
                            proof {
                                assert(kept@.map_values(|e: String| e@)
                                    =~= remove_prefixed(e0.take(0), mviews));
                            }
                            while j < entries.len()
                                invariant
                                    j <= entries@.len(),
                                    e0 == entries@.map_values(|e: String| e@),
                                    mviews == matched@.map_values(|e: String| e@),
                                    e0.len() == entries@.len(),
                                    kept@.map_values(|e: String| e@)
                                        == remove_prefixed(e0.take(j as int), mviews),
                                decreases entries@.len() - j,
                            {
                                proof {
                                    assert(e0.take(j + 1).drop_last() =~= e0.take(j as int));
                                    assert(e0.take(j + 1).last() == e0[j as int]);
                                    assert(e0[j as int] == entries@[j as int]@);
                                    assert((exists|l: int|
                                        0 <= l < mviews.len()
                                            && is_path_prefix(#[trigger] mviews[l], e0[j as int]))
                                        == (exists|l: int|
                                        0 <= l < matched@.len()
                                            && is_path_prefix(
                                            (#[trigger] matched@[l])@,
                                            e0[j as int],
                                        ))) by {
                                        if exists|l: int|
                                            0 <= l < mviews.len()
                                                && is_path_prefix(
                                                #[trigger] mviews[l],
                                                e0[j as int],
                                            ) {
                                            let l = choose|l: int|
                                                0 <= l < mviews.len()
                                                    && is_path_prefix(
                                                    #[trigger] mviews[l],
                                                    e0[j as int],
                                                );
                                            assert(is_path_prefix(matched@[l]@, e0[j as int]));
                                        }
                                        if exists|l: int|
                                            0 <= l < matched@.len()
                                                && is_path_prefix(
                                                (#[trigger] matched@[l])@,
                                                e0[j as int],
                                            ) {
                                            let l = choose|l: int|
                                                0 <= l < matched@.len()
                                                    && is_path_prefix(
                                                    (#[trigger] matched@[l])@,
                                                    e0[j as int],
                                                );
                                            assert(is_path_prefix(mviews[l], e0[j as int]));
                                        }
                                    }
                                }
                                if !any_path_prefix(matched, entries[j].as_str()) {
                                    let ghost kept0 = kept@;
                                    kept.push(entries[j].clone());
                                    proof {
                                        assert(kept@.map_values(|e: String| e@)
                                            =~= kept0.map_values(|e: String| e@)
                                                .push(e0[j as int]));
                                    }
                                } else {
                                }
                                j = j + 1;
                            }
                            proof {
                                assert(e0.take(e0.len() as int) =~= e0);
                            }
                            entries = kept;
                        } else {
                            let mut j: usize = 0;
                            let ghost e0 = entries@.map_values(|e: String| e@);
                            let ghost mviews = matched@.map_values(|e: String| e@);
                            while j < matched.len()
                                invariant
                                    j <= matched@.len(),
                                    mviews == matched@.map_values(|e: String| e@),
                                    mviews.len() == matched@.len(),
                                    entries@.map_values(|e: String| e@)
                                        == e0 + mviews.take(j as int),
                                decreases matched@.len() - j,
                            {
                                let ghost ent0 = entries@;
                                entries.push(matched[j].clone());
                                proof {
                                    assert(entries@.map_values(|e: String| e@)
                                        =~= ent0.map_values(|e: String| e@)
                                            .push(mviews[j as int]));
                                    assert(ent0.map_values(|e: String| e@)
                                        .push(mviews[j as int])
                                        =~= e0 + mviews.take(j + 1));
                                }
                                j = j + 1;
                            }
                            proof {
                                assert(mviews.take(mviews.len() as int) =~= mviews);
                            }
                        }
                    }
                }
                i = i + 1;
            }
            proof {
                assert(steps.take(steps.len() as int) =~= steps);
            }
            // drop duplicates, keeping first occurrences
            let ghost all = entries@.map_values(|e: String| e@);
            let mut result: Vec<String> = Vec::new();
            let mut j: usize = 0;
            proof {
                assert(result@.map_values(|e: String| e@)
                    =~= dedup_first(all.take(0)));
            }
            while j < entries.len()
                invariant
                    j <= entries@.len(),
                    all == entries@.map_values(|e: String| e@),
                    all.len() == entries@.len(),
                    result@.map_values(|e: String| e@) == dedup_first(all.take(j as int)),
                    same_elements(result@.map_values(|e: String| e@), all.take(j as int)),
                decreases entries@.len() - j,
            {
                proof {
                    assert(all.take(j + 1).drop_last() =~= all.take(j as int));
                    assert(all.take(j + 1).last() == all[j as int]);
                    assert(all[j as int] == entries@[j as int]@);
                }
                if !already_has(&result, entries[j].as_str()) {
                    let ghost res0 = result@;
                    result.push(entries[j].clone());
                    proof {
                        let rv0 = res0.map_values(|e: String| e@);
                        assert(result@.map_values(|e: String| e@)
                            =~= rv0.push(all[j as int]));
                        assert(all.take(j + 1) =~= all.take(j as int).push(all[j as int]));
                        lemma_same_elements_push(rv0, all.take(j as int), all[j as int]);
                    }
                } else {
                    proof {
                        let rv0 = result@.map_values(|e: String| e@);
                        assert(all.take(j as int).contains(all[j as int]));
                        assert(all.take(j + 1) =~= all.take(j as int).push(all[j as int]));
                        lemma_same_elements_skip(rv0, all.take(j as int), all[j as int]);
                    }
                }
                j = j + 1;
            }
            proof {
                assert(all.take(all.len() as int) =~= all);
            }
            result
        }
    }
}

} // verus!
