//! String primitives shared across the crate: lexicographic ordering on
//! character sequences, prefix and substring predicates, separator joins,
//! and decimal rendering, each with an executable form proved against its
//! specification.
use vstd::prelude::*;

verus! {

/// Lexicographic order on character sequences, by code point.
pub open spec fn str_lt(a: Seq<char>, b: Seq<char>) -> bool
    decreases a.len(),
{
    if b.len() == 0 {
        false
    } else if a.len() == 0 {
        true
    } else if a[0] != b[0] {
        (a[0] as int) < (b[0] as int)
    } else {
        str_lt(a.drop_first(), b.drop_first())
    }
}

/// Dropping an equal prefix does not change the order.
pub proof fn lemma_str_lt_skip(a: Seq<char>, b: Seq<char>, i: int)
    requires
        0 <= i <= a.len(),
        i <= b.len(),
        forall|j: int| 0 <= j < i ==> a[j] == b[j],
    ensures
        str_lt(a, b) == str_lt(a.skip(i), b.skip(i)),
    decreases i,
{
    if i > 0 {
        assert(a.drop_first().skip(i - 1) =~= a.skip(i));
        assert(b.drop_first().skip(i - 1) =~= b.skip(i));
        assert(forall|j: int|
            0 <= j < i - 1 ==> a.drop_first()[j] == b.drop_first()[j]);
        lemma_str_lt_skip(a.drop_first(), b.drop_first(), i - 1);
    } else {
        assert(a.skip(0) =~= a);
        assert(b.skip(0) =~= b);
    }
}

/// The order is strict: a sequence is never below itself or below a
/// sequence it is above.
pub proof fn lemma_str_lt_asymm(a: Seq<char>, b: Seq<char>)
    requires
        str_lt(a, b),
    ensures
        !str_lt(b, a),
        a != b,
    decreases a.len(),
{
    if b.len() != 0 && a.len() != 0 && a[0] == b[0] {
        lemma_str_lt_asymm(a.drop_first(), b.drop_first());
        if a == b {
            assert(a.drop_first() =~= b.drop_first());
        }
    }
}

/// Two sequences with neither below the other are equal.
pub proof fn lemma_str_lt_connex(a: Seq<char>, b: Seq<char>)
    requires
        !str_lt(a, b),
        !str_lt(b, a),
    ensures
        a == b,
    decreases a.len(),
{
    if a.len() == 0 {
        assert(a =~= b);
    } else {
        lemma_str_lt_connex(a.drop_first(), b.drop_first());
        assert(a =~= b) by {
            assert(forall|j: int| 1 <= j < a.len() ==> a[j] == a.drop_first()[j - 1]);
            assert(forall|j: int| 1 <= j < b.len() ==> b[j] == b.drop_first()[j - 1]);
        }
    }
}

/// The order is transitive.
pub proof fn lemma_str_lt_trans(a: Seq<char>, b: Seq<char>, c: Seq<char>)
    requires
        str_lt(a, b),
        str_lt(b, c),
    ensures
        str_lt(a, c),
    decreases a.len() + b.len() + c.len(),
{
    if b.len() == 0 || c.len() == 0 {
    } else if a.len() == 0 {
    } else {
        if a[0] == b[0] && b[0] == c[0] {
            lemma_str_lt_trans(a.drop_first(), b.drop_first(), c.drop_first());
        }
    }
}

/// Executable form of `str_lt`.
pub fn str_lt_exec(a: &str, b: &str) -> (r: bool)
    ensures
        r == str_lt(a@, b@),
{
    let na = a.unicode_len();
    let nb = b.unicode_len();
    let mut i: usize = 0;
    loop
        invariant
            i <= na,
            i <= nb,
            na == a@.len(),
            nb == b@.len(),
            forall|j: int| 0 <= j < i ==> a@[j] == b@[j],
        decreases na - i,
    {
        proof {
            lemma_str_lt_skip(a@, b@, i as int);
        }
        if i == nb {
            // b is a (possibly equal) prefix of a
            return false;
        }
        if i == na {
            // a is a strict prefix of b
            return true;
        }
        let ca = a.get_char(i);
        let cb = b.get_char(i);
        if ca != cb {
            proof {
                assert(a@.skip(i as int)[0] == a@[i as int]);
                assert(b@.skip(i as int)[0] == b@[i as int]);
            }
            return (ca as u32) < (cb as u32);
        }
        i = i + 1;
    }
}

/// Equality test on string slices.
pub fn str_eq_exec(a: &str, b: &str) -> (r: bool)
    ensures
        r == (a@ == b@),
{
    let na = a.unicode_len();
    let nb = b.unicode_len();
    if na != nb {
        return false;
    }
    let mut i: usize = 0;
    while i < na
        invariant
            i <= na,
            na == a@.len(),
            na == b@.len(),
            forall|j: int| 0 <= j < i ==> a@[j] == b@[j],
        decreases na - i,
    {
        if a.get_char(i) != b.get_char(i) {
            assert(a@ != b@);
            return false;
        }
        i = i + 1;
    }
    proof {
        assert(a@ =~= b@);
    }
    true
}

/// `p` is a prefix of `s`.
pub open spec fn is_prefix(p: Seq<char>, s: Seq<char>) -> bool {
    p.len() <= s.len() && s.subrange(0, p.len() as int) == p
}

/// `p` is a whole-component path prefix of `s`: either all of `s`, or
/// followed in `s` by a path separator.
pub open spec fn is_path_prefix(p: Seq<char>, s: Seq<char>) -> bool {
    is_prefix(p, s) && (p.len() == s.len() || s[p.len() as int] == '/')
}

/// Executable prefix test.
pub fn starts_with_exec(s: &str, p: &str) -> (r: bool)
    ensures
        r == is_prefix(p@, s@),
{
    let np = p.unicode_len();
    let ns = s.unicode_len();
    if np > ns {
        return false;
    }
    let mut i: usize = 0;
    while i < np
        invariant
            i <= np,
            np <= ns,
            np == p@.len(),
            ns == s@.len(),
            forall|j: int| 0 <= j < i ==> s@[j] == p@[j],
        decreases np - i,
    {
        if s.get_char(i) != p.get_char(i) {
            assert(!is_prefix(p@, s@)) by {
                if s@.subrange(0, p@.len() as int) == p@ {
                    assert(s@.subrange(0, p@.len() as int)[i as int] == s@[i as int]);
                }
            }
            return false;
        }
        i = i + 1;
    }
    proof {
        assert(s@.subrange(0, p@.len() as int) =~= p@);
    }
    true
}

/// Executable whole-component path prefix test.
pub fn path_prefix_exec(s: &str, p: &str) -> (r: bool)
    ensures
        r == is_path_prefix(p@, s@),
{
    if !starts_with_exec(s, p) {
        return false;
    }
    let np = p.unicode_len();
    let ns = s.unicode_len();
    if np == ns {
        true
    } else {
        s.get_char(np) == '/'
    }
}

/// The needle `n` occurs in `h` at position `i`.
pub open spec fn contains_at(h: Seq<char>, n: Seq<char>, i: int) -> bool {
    0 <= i && i + n.len() <= h.len() && h.subrange(i, i + n.len() as int) == n
}

/// The needle `n` occurs somewhere in `h`.
pub open spec fn contains_seq(h: Seq<char>, n: Seq<char>) -> bool {
    exists|i: int| contains_at(h, n, i)
}

/// Executable substring search.
pub fn contains_exec(h: &str, n: &str) -> (r: bool)
    ensures
        r == contains_seq(h@, n@),
{
    let nh = h.unicode_len();
    let nn = n.unicode_len();
    if nn > nh {
        assert(!contains_seq(h@, n@));
        return false;
    }
    let mut i: usize = 0;
    while i <= nh - nn
        invariant
            nn <= nh,
            nh == h@.len(),
            nn == n@.len(),
            i <= nh - nn + 1,
            forall|k: int| 0 <= k < i ==> !contains_at(h@, n@, k),
        decreases nh + 1 - i,
    {
        let mut j: usize = 0;
        while j < nn && h.get_char(i + j) == n.get_char(j)
            invariant
                i + nn <= nh,
                nh == h@.len(),
                nn == n@.len(),
                j <= nn,
                forall|l: int| 0 <= l < j ==> h@[i + l] == n@[l],
            decreases nn - j,
        {
            j = j + 1;
        }
        proof {
            if j < nn {
                if h@.subrange(i as int, i + n@.len() as int) == n@ {
                    assert(h@.subrange(i as int, i + n@.len() as int)[j as int]
                        == h@[i + j]);
                }
                assert(!contains_at(h@, n@, i as int));
            }
        }
        if j == nn {
            proof {
                assert(h@.subrange(i as int, i + n@.len() as int) =~= n@);
                assert(contains_at(h@, n@, i as int));
            }
            return true;
        }
        proof {
            assert(!contains_at(h@, n@, i as int));
        }
        i = i + 1;
    }
    proof {
        assert(forall|k: int| contains_at(h@, n@, k) ==> 0 <= k <= h@.len() - n@.len());
    }
    false
}

/// Join a directory and an entry name with a path separator; an empty
/// directory leaves the name bare.
pub open spec fn join_path(base: Seq<char>, name: Seq<char>) -> Seq<char> {
    if base.len() == 0 {
        name
    } else {
        base + seq!['/'] + name
    }
}

/// Executable path join.
pub fn join_path_exec(base: &str, name: &str) -> (r: String)
    ensures
        r@ == join_path(base@, name@),
{
    proof {
        reveal_strlit("/");
    }
    if base.unicode_len() == 0 {
        String::from_str(name)
    } else {
        let mut s = String::from_str(base);
        s.append("/");
        s.append(name);
        proof {
            assert("/"@ =~= seq!['/']);
        }
        s
    }
}

/// Join parts with a separator, in order.
pub open spec fn join_sep(parts: Seq<Seq<char>>, sep: Seq<char>) -> Seq<char>
    decreases parts.len(),
{
    if parts.len() == 0 {
        Seq::empty()
    } else if parts.len() == 1 {
        parts[0]
    } else {
        parts[0] + sep + join_sep(parts.drop_first(), sep)
    }
}

proof fn lemma_join_sep_snoc(parts: Seq<Seq<char>>, sep: Seq<char>, k: int)
    requires
        1 <= k < parts.len(),
    ensures
        join_sep(parts.take(k + 1), sep) == join_sep(parts.take(k), sep) + sep + parts[k],
    decreases k,
{
    if k == 1 {
        assert(parts.take(2).drop_first() =~= seq![parts[1]]);
        assert(parts.take(1) =~= seq![parts[0]]);
        assert(join_sep(seq![parts[1]], sep) == parts[1]);
        assert(parts.take(2)[0] == parts[0]);
        assert(join_sep(parts.take(2), sep) == parts[0] + sep + parts[1]);
    } else {
        lemma_join_sep_snoc(parts.drop_first(), sep, k - 1);
        assert(parts.take(k + 1).drop_first() =~= parts.drop_first().take(k));
        assert(parts.take(k).drop_first() =~= parts.drop_first().take(k - 1));
        assert(parts.drop_first()[k - 1] == parts[k]);
        assert(parts.take(k + 1)[0] == parts[0]);
        assert(parts.take(k)[0] == parts[0]);
    }
}

/// Executable separator join over a vector of strings.
pub fn join_sep_exec(parts: &Vec<String>, sep: &str) -> (r: String)
    ensures
        r@ == join_sep(parts@.map_values(|p: String| p@), sep@),
{
    let ghost views = parts@.map_values(|p: String| p@);
    let mut acc = String::new();
    if parts.len() == 0 {
        assert(views =~= Seq::<Seq<char>>::empty());
        return acc;
    }
    acc.append(parts[0].as_str());
    let mut i: usize = 1;
    proof {
        assert(views.take(1) =~= seq![views[0]]);
    }
    while i < parts.len()
        invariant
            1 <= i <= parts.len(),
            views == parts@.map_values(|p: String| p@),
            views.len() == parts@.len(),
            acc@ == join_sep(views.take(i as int), sep@),
        decreases parts.len() - i,
    {
        acc.append(sep);
        acc.append(parts[i].as_str());
        proof {
            lemma_join_sep_snoc(views, sep@, i as int);
        }
        i = i + 1;
    }
    proof {
        assert(views.take(views.len() as int) =~= views);
    }
    acc
}

/// The character for a single decimal digit.
pub open spec fn dec_digit(d: nat) -> char {
    ((48 + d) as u8) as char
}

/// Decimal rendering of a natural number, most significant digit first.
pub open spec fn dec_of(n: nat) -> Seq<char>
    decreases n,
{
    if n < 10 {
        seq![dec_digit(n)]
    } else {
        dec_of(n / 10).push(dec_digit(n % 10))
    }
}

/// A single-digit string.
fn digit_str(d: u8) -> (r: &'static str)
    requires
        d < 10,
    ensures
        r@ == seq![dec_digit(d as nat)],
{
    proof {
        reveal_strlit("0");
        reveal_strlit("1");
        reveal_strlit("2");
        reveal_strlit("3");
        reveal_strlit("4");
        reveal_strlit("5");
        reveal_strlit("6");
        reveal_strlit("7");
        reveal_strlit("8");
        reveal_strlit("9");
    }
    let r = match d {
        0 => "0",
        1 => "1",
        2 => "2",
        3 => "3",
        4 => "4",
        5 => "5",
        6 => "6",
        7 => "7",
        8 => "8",
        _ => "9",
    };
    proof {
        assert(r@ =~= seq![dec_digit(d as nat)]);
    }
    r
}

/// Executable decimal rendering.
pub fn u64_to_dec(n: u64) -> (r: String)
    ensures
        r@ == dec_of(n as nat),
    decreases n,
{
    if n < 10 {
        String::from_str(digit_str(n as u8))
    } else {
        let mut s = u64_to_dec(n / 10);
        s.append(digit_str((n % 10) as u8));
        proof {
            assert(s@ == dec_of((n / 10) as nat).push(dec_digit((n % 10) as nat)));
        }
        s
    }
}

} // verus!
