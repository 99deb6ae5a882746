//! Cleanup of candidate tokens extracted by the scanner: splitting a
//! captured value on commas, trimming whitespace, stripping leading path
//! qualifiers, and rejecting tokens that denote internal module paths.

use vstd::prelude::*;
use crate::chars::{
    is_space, lit_at, ws_end, scan_ws_end, match_lit, subrange_vec, space_char,
};
use crate::chars::lemma_ws_end_bounds;

verus! {

/// `pre` is a prefix of `s`.
pub open spec fn begins_with(s: Seq<char>, pre: Seq<char>) -> bool {
    pre.len() <= s.len() && s.subrange(0, pre.len() as int) == pre
}

/// `s` split on commas; always at least one (possibly empty) segment.
pub open spec fn split_commas(s: Seq<char>) -> Seq<Seq<char>>
    decreases s.len(),
{
    if s.len() == 0 {
        seq![s]
    } else if s[0] == ',' {
        seq![Seq::<char>::empty()] + split_commas(s.drop_first())
    } else {
        let rest = split_commas(s.drop_first());
        seq![seq![s[0]] + rest[0]] + rest.drop_first()
    }
}

pub proof fn lemma_split_commas_len(s: Seq<char>)
    ensures
        split_commas(s).len() >= 1,
    decreases s.len(),
{
    if s.len() > 0 {
        lemma_split_commas_len(s.drop_first());
    }
}

/// Splitting a comma-free sequence yields that sequence alone.
pub proof fn lemma_split_commas_no_comma(s: Seq<char>)
    requires
        forall|k: int| 0 <= k < s.len() ==> s[k] != ',',
    ensures
        split_commas(s) == seq![s],
    decreases s.len(),
{
    if s.len() == 0 {
        assert(split_commas(s) =~= seq![s]);
    } else {
        lemma_split_commas_no_comma(s.drop_first());
        lemma_split_commas_len(s.drop_first());
        assert(seq![s[0]] + split_commas(s.drop_first())[0] =~= s);
        assert(split_commas(s) =~= seq![s]);
    }
}

/// Splitting at a leading comma-free segment `s[0 .. e]` followed by a
/// comma at `e` prepends that segment.
pub proof fn lemma_split_commas_seg(s: Seq<char>, e: int)
    requires
        0 <= e < s.len(),
        s[e] == ',',
        forall|k: int| 0 <= k < e ==> s[k] != ',',
    ensures
        split_commas(s) == seq![s.subrange(0, e)] + split_commas(s.subrange(e + 1, s.len() as int)),
    decreases e,
{
    if e == 0 {
        assert(s.subrange(0, 0) =~= Seq::<char>::empty());
        assert(s.drop_first() =~= s.subrange(1, s.len() as int));
        assert(split_commas(s) =~= seq![s.subrange(0, 0)] + split_commas(
            s.subrange(1, s.len() as int),
        ));
    } else {
        let d = s.drop_first();
        lemma_split_commas_seg(d, e - 1);
        lemma_split_commas_len(d.subrange(e, d.len() as int));
        assert(d.subrange(e - 1 + 1, d.len() as int) =~= s.subrange(e + 1, s.len() as int));
        assert(seq![s[0]] + d.subrange(0, e - 1) =~= s.subrange(0, e));
        assert(split_commas(s) =~= seq![s.subrange(0, e)] + split_commas(
            s.subrange(e + 1, s.len() as int),
        ));
    }
}

/// The least position `r <= j` such that everything in `s[r .. j]` is whitespace.
pub open spec fn trim_back(s: Seq<char>, j: int) -> int
    decreases j,
{
    if 0 < j <= s.len() && is_space(s[j - 1]) {
        trim_back(s, j - 1)
    } else {
        j
    }
}

pub proof fn lemma_trim_back_bounds(s: Seq<char>, j: int)
    requires
        0 <= j <= s.len(),
    ensures
        0 <= trim_back(s, j) <= j,
        forall|k: int| trim_back(s, j) <= k < j ==> is_space(s[k]),
        trim_back(s, j) > 0 ==> !is_space(s[trim_back(s, j) - 1]),
    decreases j,
{
    if 0 < j && is_space(s[j - 1]) {
        lemma_trim_back_bounds(s, j - 1);
    }
}

/// `s` with leading and trailing whitespace removed.
pub open spec fn trim(s: Seq<char>) -> Seq<char> {
    let a = ws_end(s, 0);
    if a >= s.len() {
        Seq::empty()
    } else {
        s.subrange(a, trim_back(s, s.len() as int))
    }
}

/// `s` with every leading occurrence of `pre` removed.
pub open spec fn strip_rep(s: Seq<char>, pre: Seq<char>) -> Seq<char>
    decreases s.len(),
{
    if pre.len() > 0 && begins_with(s, pre) && s.len() > 0 {
        strip_rep(s.subrange(pre.len() as int, s.len() as int), pre)
    } else {
        s
    }
}

/// The cleanup applied to one comma-separated token: trim whitespace,
/// then repeatedly strip `crate::`, `self::` and `::` qualifiers.
pub open spec fn cleaned(s: Seq<char>) -> Seq<char> {
    strip_rep(strip_rep(strip_rep(trim(s), "crate::"@), "self::"@), "::"@)
}

/// A cleaned token survives if it is nonempty and does not begin with a
/// reserved relative-path keyword.
pub open spec fn token_ok(c: Seq<char>) -> bool {
    c.len() > 0 && !begins_with(c, "super"@) && !begins_with(c, "crate"@)
}

/// Split a captured value on commas.
pub fn split_commas_vec(s: &Vec<char>) -> (r: Vec<Vec<char>>)
    ensures
        r@.map_values(|v: Vec<char>| v@) == split_commas(s@),
{
    let ghost target = split_commas(s@);
    let mut r: Vec<Vec<char>> = Vec::new();
    let mut start: usize = 0;
    let mut i: usize = 0;
    proof {
        assert(s@.subrange(0, s@.len() as int) =~= s@);
        assert(r@.map_values(|v: Vec<char>| v@) =~= Seq::<Seq<char>>::empty());
        assert(Seq::<Seq<char>>::empty() + split_commas(s@) =~= split_commas(s@));
    }
    while i < s.len()
        invariant
            0 <= start <= i <= s@.len(),
            forall|k: int| start <= k < i ==> s@[k] != ',',
            target == r@.map_values(|v: Vec<char>| v@) + split_commas(
                s@.subrange(start as int, s@.len() as int),
            ),
        decreases s@.len() - i,
    {
        if s[i] == ',' {
            let seg = subrange_vec(s, start, i);
            proof {
                let tail = s@.subrange(start as int, s@.len() as int);
                lemma_split_commas_seg(tail, i - start);
                assert(tail.subrange(0, i - start) =~= s@.subrange(start as int, i as int));
                assert(tail.subrange(i - start + 1, tail.len() as int) =~= s@.subrange(
                    i + 1,
                    s@.len() as int,
                ));
                assert((r@.push(seg)).map_values(|v: Vec<char>| v@) =~= r@.map_values(
                    |v: Vec<char>| v@,
                ).push(seg@));
                assert(r@.map_values(|v: Vec<char>| v@).push(seg@) + split_commas(
                    s@.subrange(i + 1, s@.len() as int),
                ) =~= r@.map_values(|v: Vec<char>| v@) + (seq![seg@] + split_commas(
                    s@.subrange(i + 1, s@.len() as int),
                )));
            }
            r.push(seg);
            start = i + 1;
        }
        i = i + 1;
    }
    let seg = subrange_vec(s, start, s.len());
    proof {
        let tail = s@.subrange(start as int, s@.len() as int);
        lemma_split_commas_no_comma(tail);
        assert((r@.push(seg)).map_values(|v: Vec<char>| v@) =~= r@.map_values(
            |v: Vec<char>| v@,
        ).push(seg@));
        assert(r@.map_values(|v: Vec<char>| v@).push(seg@) =~= r@.map_values(|v: Vec<char>| v@)
            + seq![tail]);
    }
    r.push(seg);
    r
}

/// Strip every leading occurrence of `pre` from `s[a .. b]`, returning the
/// new start index.
fn strip_rep_idx(s: &Vec<char>, a: usize, b: usize, pre: &str) -> (r: usize)
    requires
        a <= b <= s@.len(),
        pre@.len() > 0,
    ensures
        a <= r <= b,
        strip_rep(s@.subrange(a as int, b as int), pre@) == s@.subrange(r as int, b as int),
{
    let n = pre.unicode_len();
    let mut a2 = a;
    while b - a2 >= n && match_lit(s, a2, pre)
        invariant
            a <= a2 <= b <= s@.len(),
            n == pre@.len(),
            n > 0,
            strip_rep(s@.subrange(a as int, b as int), pre@) == strip_rep(
                s@.subrange(a2 as int, b as int),
                pre@,
            ),
        decreases b - a2,
    {
        proof {
            let cur = s@.subrange(a2 as int, b as int);
            assert(cur.subrange(0, n as int) =~= s@.subrange(a2 as int, a2 + n));
            assert(begins_with(cur, pre@));
            assert(cur.subrange(n as int, cur.len() as int) =~= s@.subrange(a2 + n, b as int));
        }
        a2 = a2 + n;
    }
    proof {
        let cur = s@.subrange(a2 as int, b as int);
        if begins_with(cur, pre@) && cur.len() > 0 {
            assert(cur.subrange(0, n as int) =~= s@.subrange(a2 as int, a2 + n));
            assert(lit_at(s@, a2 as int, pre@));
            assert(false);
        }
    }
    a2
}

/// Apply the full cleanup to one token.
pub fn clean_token(seg: &Vec<char>) -> (r: Vec<char>)
    ensures
        r@ == cleaned(seg@),
{
    proof {
        reveal_strlit("crate::");
        reveal_strlit("self::");
        reveal_strlit("::");
        lemma_ws_end_bounds(seg@, 0);
        lemma_trim_back_bounds(seg@, seg@.len() as int);
    }
    let a = scan_ws_end(seg, 0);
    if a == seg.len() {
        let r: Vec<char> = Vec::new();
        proof {
            assert(trim(seg@) =~= Seq::<char>::empty());
            assert(r@ =~= cleaned(seg@));
        }
        return r;
    }
    // trailing whitespace
    let mut b = seg.len();
    while b > 0 && space_char(seg[b - 1])
        invariant
            0 <= b <= seg@.len(),
            trim_back(seg@, seg@.len() as int) == trim_back(seg@, b as int),
        decreases b,
    {
        b = b - 1;
    }
    proof {
        lemma_trim_back_bounds(seg@, seg@.len() as int);
        if b < a {
            assert(is_space(seg@[a as int]));
            assert(false);
        }
        assert(trim(seg@) == seg@.subrange(a as int, b as int));
    }
    let a1 = strip_rep_idx(seg, a, b, "crate::");
    let a2 = strip_rep_idx(seg, a1, b, "self::");
    let a3 = strip_rep_idx(seg, a2, b, "::");
    subrange_vec(seg, a3, b)
}

/// Does the cleaned token survive the reserved-keyword filter?
pub fn token_ok_exec(c: &Vec<char>) -> (r: bool)
    ensures
        r == token_ok(c@),
{
    if c.len() == 0 {
        return false;
    }
    proof {
        reveal_strlit("super");
        reveal_strlit("crate");
    }
    let sup = match_lit(c, 0, "super");
    let cra = match_lit(c, 0, "crate");
    proof {
        assert(lit_at(c@, 0, "super"@) == begins_with(c@, "super"@)) by {
            if lit_at(c@, 0, "super"@) {
                assert(c@.subrange(0, 5) == "super"@);
            }
            if begins_with(c@, "super"@) {
                assert(c@.subrange(0, 5) == "super"@);
            }
        }
        assert(lit_at(c@, 0, "crate"@) == begins_with(c@, "crate"@)) by {
            if lit_at(c@, 0, "crate"@) {
                assert(c@.subrange(0, 5) == "crate"@);
            }
            if begins_with(c@, "crate"@) {
                assert(c@.subrange(0, 5) == "crate"@);
            }
        }
    }
    !sup && !cra
}

} // verus!
