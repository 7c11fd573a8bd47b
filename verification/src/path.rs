//! Directory identity: a project root's absolute path, with any leading
//! home-directory components stripped (compared case-insensitively, as the
//! reference platform's filesystems are), joined by underscores into a
//! token that indexes per-project state in a shared cache store.
use vstd::prelude::*;

use crate::strutil::join_sep;
use crate::strutil::join_sep_exec;

verus! {

/// A path-derived identity token for a project root. Not reversible to a
/// path; identical relative layouts under different home directories
/// collide on purpose, so a cache store can be shared.
#[derive(Debug, Clone, PartialEq, Eq)]
pub struct DirKey(pub String);

/// ASCII-case-folded code point.
pub open spec fn lower_code(x: int) -> int {
    if 65 <= x <= 90 {
        x + 32
    } else {
        x
    }
}

/// Equality of two names up to ASCII case.
pub open spec fn lower_eq_seq(a: Seq<char>, b: Seq<char>) -> bool {
    a.len() == b.len() && forall|i: int|
        0 <= i < a.len() ==> lower_code(#[trigger] a[i] as int) == lower_code(b[i] as int)
}

/// The home directory's components form a case-insensitive prefix of the
/// path's components.
pub open spec fn home_is_prefix(comps: Seq<Seq<char>>, home: Seq<Seq<char>>) -> bool {
    home.len() <= comps.len() && forall|i: int|
        0 <= i < home.len() ==> lower_eq_seq(#[trigger] comps[i], home[i])
}

/// The components that identify the project: everything after the home
/// prefix when the path lies under the home directory, else all of them.
pub open spec fn stripped_components(comps: Seq<Seq<char>>, home: Seq<Seq<char>>)
    -> Seq<Seq<char>> {
    if home.len() > 0 && home_is_prefix(comps, home) {
        comps.skip(home.len() as int)
    } else {
        comps
    }
}

/// The identity token of a component path.
pub open spec fn dir_key_of(comps: Seq<Seq<char>>, home: Seq<Seq<char>>) -> Seq<char> {
    join_sep(stripped_components(comps, home), "_"@)
}

/// Case-insensitive name comparison.
fn lower_eq_exec(a: &str, b: &str) -> (r: bool)
    ensures
        r == lower_eq_seq(a@, b@),
{
    let na = a.unicode_len();
    let nb = b.unicode_len();
    if na != nb {
        return false;
    }
    let mut i: usize = 0;
    while i < na
        invariant
            i <= na,
            na == a@.len(),
            na == b@.len(),
            forall|j: int|
                0 <= j < i ==> lower_code(#[trigger] a@[j] as int) == lower_code(b@[j] as int),
        decreases na - i,
    {
        let ca = a.get_char(i) as u32;
        let cb = b.get_char(i) as u32;
        let la: u32 = if 65 <= ca && ca <= 90 {
            ca + 32
        } else {
            ca
        };
        let lb: u32 = if 65 <= cb && cb <= 90 {
            cb + 32
        } else {
            cb
        };
        if la != lb {
            return false;
        }
        i = i + 1;
    }
    true
}

/// Derive the identity token for a project root given as its absolute
/// path's components, against the home directory's components.
pub fn to_dir_key(components: &Vec<String>, home: &Vec<String>) -> (r: DirKey)
    ensures
        r.0@ == dir_key_of(
            components@.map_values(|c: String| c@),
            home@.map_values(|c: String| c@),
        ),
{
    let ghost cviews = components@.map_values(|c: String| c@);
    let ghost hviews = home@.map_values(|c: String| c@);
    let mut is_pref: bool = home.len() > 0 && home.len() <= components.len();
    let mut i: usize = 0;
    while is_pref && i < home.len()
        invariant
            i <= home@.len(),
            cviews == components@.map_values(|c: String| c@),
            hviews == home@.map_values(|c: String| c@),
            is_pref ==> home@.len() > 0 && home@.len() <= components@.len(),
            is_pref ==> forall|j: int|
                0 <= j < i ==> lower_eq_seq(#[trigger] cviews[j], hviews[j]),
            !is_pref ==> !(hviews.len() > 0 && home_is_prefix(cviews, hviews)),
        decreases home@.len() - i, (if is_pref { 1int } else { 0int }),
    {
        if !lower_eq_exec(components[i].as_str(), home[i].as_str()) {
            proof {
                assert(!lower_eq_seq(cviews[i as int], hviews[i as int]));
            }
            is_pref = false;
        } else {
            i = i + 1;
        }
    }
    proof {
        if is_pref {
            assert(home_is_prefix(cviews, hviews));
        }
    }
    let start: usize = if is_pref {
        home.len()
    } else {
        0
    };
    let mut kept: Vec<String> = Vec::new();
    let mut i: usize = start;
    while i < components.len()
        invariant
            start <= i <= components@.len(),
            cviews == components@.map_values(|c: String| c@),
            kept@.map_values(|c: String| c@)
                =~= cviews.subrange(start as int, i as int),
        decreases components@.len() - i,
    {
        let ghost kept0 = kept@;
        kept.push(components[i].clone());
        proof {
            assert(cviews.len() == components@.len());
            let m = kept@.map_values(|c: String| c@);
            let m0 = kept0.map_values(|c: String| c@);
            assert(m0.len() == kept0.len());
            assert(m0.len() == i - start);
            assert(kept@.len() == kept0.len() + 1);
            assert(m.len() == i + 1 - start);
            assert forall|j: int| 0 <= j < m.len() implies
                m[j] == cviews.subrange(start as int, i + 1)[j] by {
                assert(m[j] == kept@[j]@);
                if j < m.len() - 1 {
                    assert(kept@[j] == kept0[j]);
                    assert(m0[j] == kept0[j]@);
                    assert(m0[j] == cviews.subrange(start as int, i as int)[j]);
                    assert(cviews.subrange(start as int, i as int)[j]
                        == cviews[start + j]);
                    assert(cviews.subrange(start as int, i + 1)[j]
                        == cviews[start + j]);
                } else {
                    assert(kept@[j] == components@[i as int]);
                    assert(components@.map_values(|c: String| c@)[i as int]
                        == components@[i as int]@);
                    assert(start + j == i);
                    assert(cviews.subrange(start as int, i + 1)[j]
                        == cviews[start + j]);
                }
            }
            assert(kept@.map_values(|c: String| c@)
                =~= cviews.subrange(start as int, i + 1));
        }
        i = i + 1;
    }
    proof {
        if is_pref {
            assert(home_is_prefix(cviews, hviews));
            assert(cviews.subrange(start as int, cviews.len() as int)
                =~= cviews.skip(hviews.len() as int));
        } else {
            if hviews.len() > 0 && hviews.len() <= cviews.len() {
                assert(!home_is_prefix(cviews, hviews));
            }
            assert(cviews.subrange(0, cviews.len() as int) =~= cviews);
        }
        assert(kept@.map_values(|c: String| c@) =~= stripped_components(cviews, hviews));
    }
    DirKey(join_sep_exec(&kept, "_"))
}

} // verus!
