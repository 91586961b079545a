//! Verified helpers for working with strings viewed as sequences of
//! characters: equality, prefix tests, substring search and splitting,
//! concatenation, and decimal rendering of integers.

use vstd::prelude::*;

verus! {

/// Holds when `p` is a (not necessarily strict) prefix of `s`.
pub open spec fn is_prefix_of(p: Seq<char>, s: Seq<char>) -> bool {
    p.len() <= s.len() && s.subrange(0, p.len() as int) == p
}

/// Character-by-character string equality, proved against the string views.
pub fn str_eq(a: &str, b: &str) -> (r: bool)
    ensures
        r == (a@ == b@),
{
    let alen = a.unicode_len();
    let blen = b.unicode_len();
    if alen != blen {
        return false;
    }
    let mut i: usize = 0;
    while i < alen
        invariant
            i <= alen,
            alen == a@.len(),
            alen == b@.len(),
            forall|k: int| 0 <= k < i ==> a@[k] == b@[k],
        decreases alen - i,
    {
        if a.get_char(i) != b.get_char(i) {
            return false;
        }
        i = i + 1;
    }
    proof {
        assert(a@ =~= b@);
    }
    true
}

/// Holds when `d` occurs in `s` at position `i`.
pub open spec fn occurs_at(s: Seq<char>, d: Seq<char>, i: int) -> bool {
    0 <= i && i + d.len() <= s.len() && s.subrange(i, i + d.len() as int) == d
}

/// The least position `>= k` at which `d` occurs in `s`, if any.
pub open spec fn first_occ_from(s: Seq<char>, d: Seq<char>, k: int) -> Option<int>
    decreases s.len() - k + 1,
{
    if k < 0 || k + d.len() > s.len() {
        None
    } else if s.subrange(k, k + d.len() as int) == d {
        Some(k)
    } else {
        first_occ_from(s, d, k + 1)
    }
}

/// A found occurrence really is one, and is the least at or after `k`.
pub proof fn lemma_first_occ_props(s: Seq<char>, d: Seq<char>, k: int, i: int)
    requires
        first_occ_from(s, d, k) == Some(i),
    ensures
        occurs_at(s, d, i),
        k <= i,
        forall|j: int| k <= j < i ==> !occurs_at(s, d, j),
    decreases s.len() - k + 1,
{
    if k < 0 || k + d.len() > s.len() {
    } else if s.subrange(k, k + d.len() as int) == d {
    } else {
        lemma_first_occ_props(s, d, k + 1, i);
    }
}

/// If `d` occurs nowhere at or after `k`, the search reports that.
pub proof fn lemma_first_occ_none(s: Seq<char>, d: Seq<char>, k: int)
    requires
        forall|j: int| k <= j ==> !occurs_at(s, d, j),
        0 <= k,
    ensures
        first_occ_from(s, d, k) is None,
    decreases s.len() - k + 1,
{
    if k + d.len() > s.len() {
    } else if s.subrange(k, k + d.len() as int) == d {
        assert(occurs_at(s, d, k));
    } else {
        lemma_first_occ_none(s, d, k + 1);
    }
}

/// An occurrence at `i` with none between `k` and `i` is the first one at
/// or after `k`.
pub proof fn lemma_first_occ_at(s: Seq<char>, d: Seq<char>, k: int, i: int)
    requires
        0 <= k <= i,
        occurs_at(s, d, i),
        forall|j: int| k <= j < i ==> !occurs_at(s, d, j),
    ensures
        first_occ_from(s, d, k) == Some(i),
    decreases i - k,
{
    if k < i {
        assert(!occurs_at(s, d, k));
        lemma_first_occ_at(s, d, k + 1, i);
    }
}

/// Splitting a concatenation `p + d + id` on a one-character delimiter
/// `d` that occurs neither in `p` nor in `id` yields exactly `(p, id)`.
/// This discharges the split hypothesis of the round-trip law for the
/// usual one-character delimiters.
pub proof fn lemma_split2_single_char(p: Seq<char>, d: Seq<char>, id: Seq<char>)
    requires
        d.len() == 1,
        forall|j: int| 0 <= j < p.len() ==> p[j] != d[0],
        forall|j: int| 0 <= j < id.len() ==> id[j] != d[0],
    ensures
        spec_split2(p + d + id, d) == Some((p, id)),
{
    let s = p + d + id;
    assert forall|j: int| 0 <= j < s.len() implies (occurs_at(s, d, j) == (s[j] == d[0])) by {
        assert(s.subrange(j, j + 1) =~= seq![s[j]]);
        if s[j] == d[0] {
            assert(s.subrange(j, j + 1) =~= d);
        }
        if occurs_at(s, d, j) {
            assert(s.subrange(j, j + d.len() as int)[0] == s[j]);
        }
    }
    assert(s[p.len() as int] == d[0]);
    assert(occurs_at(s, d, p.len() as int));
    assert forall|j: int| 0 <= j < p.len() implies !occurs_at(s, d, j) by {
        assert(s[j] == p[j]);
    }
    lemma_first_occ_at(s, d, 0, p.len() as int);
    assert forall|j: int| p.len() + 1 <= j implies !occurs_at(s, d, j) by {
        if j < s.len() {
            assert(s[j] == id[j - p.len() - 1]);
        }
    }
    lemma_first_occ_none(s, d, p.len() as int + 1);
    assert(s.subrange(0, p.len() as int) =~= p);
    assert(s.subrange(p.len() as int + 1, s.len() as int) =~= id);
}

/// Whether `s` starts with `p`, i.e. `p@` is a prefix of `s@`.
pub fn str_starts_with(s: &str, p: &str) -> (r: bool)
    ensures
        r == is_prefix_of(p@, s@),
{
    let slen = s.unicode_len();
    let plen = p.unicode_len();
    if plen > slen {
        return false;
    }
    let mut i: usize = 0;
    while i < plen
        invariant
            i <= plen,
            plen == p@.len(),
            slen == s@.len(),
            plen <= slen,
            forall|k: int| 0 <= k < i ==> s@[k] == p@[k],
        decreases plen - i,
    {
        if s.get_char(i) != p.get_char(i) {
            proof {
                assert(s@.subrange(0, p@.len() as int)[i as int] == s@[i as int]);
            }
            return false;
        }
        i = i + 1;
    }
    proof {
        assert(s@.subrange(0, p@.len() as int) =~= p@);
    }
    true
}

/// Whether `d` occurs in `s` at character position `i`.
fn occurs_at_exec(s: &str, d: &str, i: usize) -> (r: bool)
    requires
        i + d@.len() <= s@.len(),
    ensures
        r == occurs_at(s@, d@, i as int),
{
    let slen = s.unicode_len();
    let dlen = d.unicode_len();
    let sub = s.substring_char(i, i + dlen);
    str_eq(sub, d)
}

/// Finds the least position `>= from` at which `d` occurs in `s`.
pub fn find_occ_from(s: &str, d: &str, from: usize) -> (r: Option<usize>)
    requires
        d@.len() > 0,
        from <= s@.len(),
    ensures
        ({
            let sp = first_occ_from(s@, d@, from as int);
            match r {
                Some(i) => sp == Some(i as int),
                None => sp is None,
            }
        }),
{
    let slen = s.unicode_len();
    let dlen = d.unicode_len();
    if dlen > slen {
        return None;
    }
    let mut i: usize = from;
    while i <= slen - dlen
        invariant
            slen == s@.len(),
            dlen == d@.len(),
            0 < dlen <= slen,
            i <= slen,
            first_occ_from(s@, d@, from as int) == first_occ_from(s@, d@, i as int),
        decreases slen - i,
    {
        if occurs_at_exec(s, d, i) {
            return Some(i);
        }
        proof {
            assert(first_occ_from(s@, d@, i as int) == first_occ_from(s@, d@, i + 1int));
        }
        i = i + 1;
    }
    None
}

/// Splits `s` into exactly two parts around a single occurrence of the
/// delimiter `d`, the way `str::split` yields exactly two fragments.
pub open spec fn spec_split2(s: Seq<char>, d: Seq<char>) -> Option<(Seq<char>, Seq<char>)> {
    if d.len() == 0 {
        if s.len() == 0 {
            Some((s, s))
        } else {
            None
        }
    } else {
        match first_occ_from(s, d, 0) {
            Some(i) => match first_occ_from(s, d, i + d.len() as int) {
                None => Some((s.subrange(0, i), s.subrange(i + d.len() as int, s.len() as int))),
                Some(j) => None,
            },
            None => None,
        }
    }
}

/// Splits `s` in two on the delimiter `d`, exactly when `s` holds a single
/// occurrence of `d`.
pub fn split2<'a>(s: &'a str, d: &str) -> (r: Option<(&'a str, &'a str)>)
    ensures
        ({
            let sp = spec_split2(s@, d@);
            match r {
                Some(p) => sp == Some((p.0@, p.1@)),
                None => sp is None,
            }
        }),
{
    let slen = s.unicode_len();
    let dlen = d.unicode_len();
    if dlen == 0 {
        if slen == 0 {
            return Some((s, s));
        } else {
            return None;
        }
    }
    match find_occ_from(s, d, 0) {
        None => None,
        Some(i) => {
            proof {
                lemma_first_occ_props(s@, d@, 0, i as int);
            }
            match find_occ_from(s, d, i + dlen) {
                Some(_) => None,
                None => Some((s.substring_char(0, i), s.substring_char(i + dlen, slen))),
            }
        },
    }
}

/// Concatenation of two string slices.
pub fn concat2(a: &str, b: &str) -> (r: String)
    ensures
        r@ == a@ + b@,
{
    let mut s = String::new();
    s.append(a);
    s.append(b);
    proof {
        assert(s@ =~= a@ + b@);
    }
    s
}

/// Concatenation of three string slices.
pub fn concat3(a: &str, b: &str, c: &str) -> (r: String)
    ensures
        r@ == a@ + b@ + c@,
{
    let mut s = String::new();
    s.append(a);
    s.append(b);
    s.append(c);
    proof {
        assert(s@ =~= a@ + b@ + c@);
    }
    s
}

/// Relies on `String::push` from std: appends exactly one character at the
/// end of the string.
#[verifier::external_body]
pub fn push_char(s: &mut String, c: char)
    ensures
        final(s)@ == old(s)@.push(c),
{
    s.push(c);
}

/// The decimal digit `d` as a character.
pub open spec fn dec_digit(d: int) -> char {
    ((48 + d) as u8) as char
}

/// The decimal representation of `n`, most significant digit first.
pub open spec fn dec_rep(n: nat) -> Seq<char>
    decreases n,
{
    if n < 10 {
        seq![dec_digit(n as int)]
    } else {
        dec_rep(n / 10).push(dec_digit((n % 10) as int))
    }
}

/// Appends the decimal digit `d` to `s`.
fn push_digit(s: &mut String, d: u64)
    requires
        d < 10,
    ensures
        final(s)@ == old(s)@.push(dec_digit(d as int)),
{
    let c: u8 = 48 + (d as u8);
    push_char(s, c as char);
}

/// Renders `n` in decimal.
pub fn u64_to_string(n: u64) -> (r: String)
    ensures
        r@ == dec_rep(n as nat),
    decreases n,
{
    if n < 10 {
        let mut s = String::new();
        push_digit(&mut s, n);
        proof {
            assert(s@ =~= dec_rep(n as nat));
        }
        s
    } else {
        let mut front = u64_to_string(n / 10);
        push_digit(&mut front, n % 10);
        front
    }
}

} // verus!
