//! Character classes and low-level scanning helpers: identifier and
//! whitespace runs, literal matching, and conversion of a string slice
//! into an indexable vector of its characters.

use vstd::prelude::*;

verus! {

/// A character that may start an identifier: an ASCII letter or `_`.
pub open spec fn is_ident_start(c: char) -> bool {
    ('a' as u32 <= c as u32 && c as u32 <= 'z' as u32)
        || ('A' as u32 <= c as u32 && c as u32 <= 'Z' as u32)
        || c == '_'
}

/// A character that may continue an identifier: an ASCII letter, digit or `_`.
pub open spec fn is_ident_char(c: char) -> bool {
    is_ident_start(c) || ('0' as u32 <= c as u32 && c as u32 <= '9' as u32)
}

/// ASCII whitespace as the scanner understands it.
pub open spec fn is_space(c: char) -> bool {
    c == ' ' || c == '\t' || c == '\n' || c == '\r' || c == '\u{b}' || c == '\u{c}'
}

pub fn ident_start_char(c: char) -> (r: bool)
    ensures
        r == is_ident_start(c),
{
    ('a' as u32 <= c as u32 && c as u32 <= 'z' as u32)
        || ('A' as u32 <= c as u32 && c as u32 <= 'Z' as u32)
        || c == '_'
}

pub fn ident_char(c: char) -> (r: bool)
    ensures
        r == is_ident_char(c),
{
    ident_start_char(c) || ('0' as u32 <= c as u32 && c as u32 <= '9' as u32)
}

pub fn space_char(c: char) -> (r: bool)
    ensures
        r == is_space(c),
{
    c == ' ' || c == '\t' || c == '\n' || c == '\r' || c == '\u{b}' || c == '\u{c}'
}

/// The end of the run of identifier characters that begins at `i`.
pub open spec fn ident_end(t: Seq<char>, i: int) -> int
    decreases t.len() - i,
{
    if 0 <= i < t.len() && is_ident_char(t[i]) {
        ident_end(t, i + 1)
    } else {
        i
    }
}

/// The end of the run of whitespace characters that begins at `i`.
pub open spec fn ws_end(t: Seq<char>, i: int) -> int
    decreases t.len() - i,
{
    if 0 <= i < t.len() && is_space(t[i]) {
        ws_end(t, i + 1)
    } else {
        i
    }
}

/// The literal `lit` occurs in `t` starting at position `i`.
pub open spec fn lit_at(t: Seq<char>, i: int, lit: Seq<char>) -> bool {
    0 <= i && i + lit.len() <= t.len() && t.subrange(i, i + lit.len()) == lit
}

pub proof fn lemma_ident_end_bounds(t: Seq<char>, i: int)
    requires
        0 <= i <= t.len(),
    ensures
        i <= ident_end(t, i) <= t.len(),
        forall|k: int| i <= k < ident_end(t, i) ==> is_ident_char(t[k]),
        ident_end(t, i) < t.len() ==> !is_ident_char(t[ident_end(t, i)]),
    decreases t.len() - i,
{
    if i < t.len() && is_ident_char(t[i]) {
        lemma_ident_end_bounds(t, i + 1);
    }
}

pub proof fn lemma_ws_end_bounds(t: Seq<char>, i: int)
    requires
        0 <= i <= t.len(),
    ensures
        i <= ws_end(t, i) <= t.len(),
        forall|k: int| i <= k < ws_end(t, i) ==> is_space(t[k]),
        ws_end(t, i) < t.len() ==> !is_space(t[ws_end(t, i)]),
    decreases t.len() - i,
{
    if i < t.len() && is_space(t[i]) {
        lemma_ws_end_bounds(t, i + 1);
    }
}

/// Scan the identifier run that begins at `i`.
pub fn scan_ident_end(t: &Vec<char>, i: usize) -> (r: usize)
    requires
        i <= t@.len(),
    ensures
        r == ident_end(t@, i as int),
        i <= r <= t@.len(),
{
    proof {
        lemma_ident_end_bounds(t@, i as int);
    }
    let mut j = i;
    while j < t.len() && ident_char(t[j])
        invariant
            i <= j <= t@.len(),
            ident_end(t@, i as int) == ident_end(t@, j as int),
        decreases t@.len() - j,
    {
        j = j + 1;
    }
    j
}

/// Scan the whitespace run that begins at `i`.
pub fn scan_ws_end(t: &Vec<char>, i: usize) -> (r: usize)
    requires
        i <= t@.len(),
    ensures
        r == ws_end(t@, i as int),
        i <= r <= t@.len(),
{
    proof {
        lemma_ws_end_bounds(t@, i as int);
    }
    let mut j = i;
    while j < t.len() && space_char(t[j])
        invariant
            i <= j <= t@.len(),
            ws_end(t@, i as int) == ws_end(t@, j as int),
        decreases t@.len() - j,
    {
        j = j + 1;
    }
    j
}

/// Does the literal `lit` occur in `t` at position `i`?
pub fn match_lit(t: &Vec<char>, i: usize, lit: &str) -> (r: bool)
    requires
        i <= t@.len(),
    ensures
        r == lit_at(t@, i as int, lit@),
{
    let n = lit.unicode_len();
    let tl = t.len();
    if n > tl - i {
        proof {
            assert(!lit_at(t@, i as int, lit@));
        }
        return false;
    }
    let mut k: usize = 0;
    while k < n
        invariant
            0 <= k <= n,
            n == lit@.len(),
            tl == t@.len(),
            i + n <= tl,
            forall|m: int| 0 <= m < k ==> t@[i + m] == lit@[m],
        decreases n - k,
    {
        if t[i + k] != lit.get_char(k) {
            proof {
                assert(t@.subrange(i as int, i + n) != lit@) by {
                    assert(t@.subrange(i as int, i + n)[k as int] != lit@[k as int]);
                }
            }
            return false;
        }
        k = k + 1;
    }
    proof {
        assert(t@.subrange(i as int, i + n) =~= lit@);
    }
    true
}

/// Does the sequence `pat` occur in `t` at position `i`?
pub fn lit_at_vec(t: &Vec<char>, i: usize, pat: &Vec<char>) -> (r: bool)
    requires
        i <= t@.len(),
    ensures
        r == lit_at(t@, i as int, pat@),
{
    let n = pat.len();
    let tl = t.len();
    if n > tl - i {
        proof {
            assert(!lit_at(t@, i as int, pat@));
        }
        return false;
    }
    let mut k: usize = 0;
    while k < n
        invariant
            0 <= k <= n,
            n == pat@.len(),
            tl == t@.len(),
            i + n <= tl,
            forall|m: int| 0 <= m < k ==> t@[i + m] == pat@[m],
        decreases n - k,
    {
        if t[i + k] != pat[k] {
            proof {
                assert(t@.subrange(i as int, i + n) != pat@) by {
                    assert(t@.subrange(i as int, i + n)[k as int] != pat@[k as int]);
                }
            }
            return false;
        }
        k = k + 1;
    }
    proof {
        assert(t@.subrange(i as int, i + n) =~= pat@);
    }
    true
}

/// The characters of `s`, in order, as a vector.
pub fn to_char_vec(s: &str) -> (v: Vec<char>)
    ensures
        v@ == s@,
{
    let n = s.unicode_len();
    let mut v: Vec<char> = Vec::new();
    let mut i: usize = 0;
    while i < n
        invariant
            0 <= i <= n,
            n == s@.len(),
            v@ == s@.subrange(0, i as int),
        decreases n - i,
    {
        let c = s.get_char(i);
        v.push(c);
        proof {
            assert(v@ =~= s@.subrange(0, i + 1));
        }
        i = i + 1;
    }
    proof {
        assert(v@ =~= s@);
    }
    v
}

/// Are two character vectors equal as sequences?
pub fn chars_eq(a: &Vec<char>, b: &Vec<char>) -> (r: bool)
    ensures
        r == (a@ == b@),
{
    if a.len() != b.len() {
        proof {
            assert(a@ != b@);
        }
        return false;
    }
    let mut i: usize = 0;
    while i < a.len()
        invariant
            0 <= i <= a@.len(),
            a@.len() == b@.len(),
            forall|m: int| 0 <= m < i ==> a@[m] == b@[m],
        decreases a@.len() - i,
    {
        if a[i] != b[i] {
            proof {
                assert(a@ != b@) by {
                    assert(a@[i as int] != b@[i as int]);
                }
            }
            return false;
        }
        i = i + 1;
    }
    proof {
        assert(a@ =~= b@);
    }
    true
}

/// A copy of `t[a .. b]` as a fresh vector.
pub fn subrange_vec(t: &Vec<char>, a: usize, b: usize) -> (r: Vec<char>)
    requires
        a <= b <= t@.len(),
    ensures
        r@ == t@.subrange(a as int, b as int),
{
    let mut r: Vec<char> = Vec::new();
    let mut i = a;
    while i < b
        invariant
            a <= i <= b <= t@.len(),
            r@ == t@.subrange(a as int, i as int),
        decreases b - i,
    {
        r.push(t[i]);
        proof {
            assert(r@ =~= t@.subrange(a as int, i + 1));
        }
        i = i + 1;
    }
    r
}

} // verus!
