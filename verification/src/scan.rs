//! The usage scanner: apply the fixed pattern battery to one unit of
//! source text, clean and reconcile every captured name, and accumulate
//! the names into the used-identifier set; then run the macro-only
//! allowlist fallback over the same text.
//!
//! Each pattern is tried at every position of the text. All captures flow
//! into one set, so the enumeration order of matches is immaterial; a
//! pattern that begins with an identifier is only tried where that
//! identifier begins.

use vstd::prelude::*;
use crate::chars::{lit_at, to_char_vec, lit_at_vec, subrange_vec};
use crate::tokens::{split_commas, cleaned, token_ok, split_commas_vec, clean_token, token_ok_exec};
use crate::names::{NameMap, reconcile};
use crate::used::UsedSet;
use crate::patterns::{Pattern, cap_at, match_at};

verus! {

/// What processing one cleaned token does to the used set.
pub open spec fn insert_token(
    mv: Seq<(Seq<char>, Seq<char>)>,
    tok: Seq<char>,
    acc: Set<Seq<char>>,
) -> Set<Seq<char>> {
    let c = cleaned(tok);
    if token_ok(c) {
        acc.insert(reconcile(mv, c))
    } else {
        acc
    }
}

/// Process a list of comma-separated tokens in order.
pub open spec fn insert_segs(
    mv: Seq<(Seq<char>, Seq<char>)>,
    segs: Seq<Seq<char>>,
    acc: Set<Seq<char>>,
) -> Set<Seq<char>>
    decreases segs.len(),
{
    if segs.len() == 0 {
        acc
    } else {
        insert_segs(mv, segs.drop_first(), insert_token(mv, segs[0], acc))
    }
}

/// Process one captured value: split on commas, then each token.
pub open spec fn insert_cap(
    mv: Seq<(Seq<char>, Seq<char>)>,
    cap: Seq<char>,
    acc: Set<Seq<char>>,
) -> Set<Seq<char>> {
    insert_segs(mv, split_commas(cap), acc)
}

/// Apply one pattern at every position of `t` from `i` on, in order.
pub open spec fn scan_pat(
    p: Pattern,
    mv: Seq<(Seq<char>, Seq<char>)>,
    t: Seq<char>,
    i: int,
    acc: Set<Seq<char>>,
) -> Set<Seq<char>>
    decreases t.len() - i,
{
    if i >= t.len() {
        acc
    } else {
        let acc2 = match cap_at(p, t, i) {
            Some(ab) => insert_cap(mv, t.subrange(ab.0, ab.1), acc),
            None => acc,
        };
        scan_pat(p, mv, t, i + 1, acc2)
    }
}

/// The full pattern battery, in its fixed order.
pub open spec fn scan_all_pats(
    mv: Seq<(Seq<char>, Seq<char>)>,
    t: Seq<char>,
    acc: Set<Seq<char>>,
) -> Set<Seq<char>> {
    scan_pat(
        Pattern::TypeAnno,
        mv,
        t,
        0,
        scan_pat(
            Pattern::ModDecl,
            mv,
            t,
            0,
            scan_pat(
                Pattern::MacroCall,
                mv,
                t,
                0,
                scan_pat(
                    Pattern::Qualified,
                    mv,
                    t,
                    0,
                    scan_pat(
                        Pattern::Derive,
                        mv,
                        t,
                        0,
                        scan_pat(
                            Pattern::CrateDecl,
                            mv,
                            t,
                            0,
                            scan_pat(
                                Pattern::UseDecl,
                                mv,
                                t,
                                0,
                                scan_pat(Pattern::UsePath, mv, t, 0, acc),
                            ),
                        ),
                    ),
                ),
            ),
        ),
    )
}

/// `pat` occurs somewhere in `t`.
pub open spec fn has_substr(t: Seq<char>, pat: Seq<char>) -> bool {
    exists|j: int| lit_at(t, j, pat)
}

/// The allowlist fires for `name`: the text holds `name!` or `use name::`.
pub open spec fn allow_hit(t: Seq<char>, name: Seq<char>) -> bool {
    has_substr(t, name.push('!')) || has_substr(t, "use "@ + name + "::"@)
}

/// Run the macro-only allowlist over `t`, inserting every name that fires.
pub open spec fn apply_allow(
    names: Seq<Seq<char>>,
    t: Seq<char>,
    acc: Set<Seq<char>>,
) -> Set<Seq<char>>
    decreases names.len(),
{
    if names.len() == 0 {
        acc
    } else {
        apply_allow(
            names.drop_first(),
            t,
            if allow_hit(t, names[0]) {
                acc.insert(names[0])
            } else {
                acc
            },
        )
    }
}

/// Everything one unit of source text adds to the used set: the pattern
/// battery, then the allowlist fallback.
pub open spec fn scan_text(
    mv: Seq<(Seq<char>, Seq<char>)>,
    names: Seq<Seq<char>>,
    t: Seq<char>,
    acc: Set<Seq<char>>,
) -> Set<Seq<char>> {
    apply_allow(names, t, scan_all_pats(mv, t, acc))
}

/// Scanning a list of source units in order.
pub open spec fn scan_files(
    mv: Seq<(Seq<char>, Seq<char>)>,
    names: Seq<Seq<char>>,
    files: Seq<Seq<char>>,
    acc: Set<Seq<char>>,
) -> Set<Seq<char>>
    decreases files.len(),
{
    if files.len() == 0 {
        acc
    } else {
        scan_files(mv, names, files.drop_first(), scan_text(mv, names, files[0], acc))
    }
}

/// Clean one comma-separated token and, when it survives, insert its
/// reconciled canonical name.
fn process_segment(seg: &Vec<char>, map: &NameMap, used: &mut UsedSet)
    requires
        map.wf(),
    ensures
        final(used)@ == insert_token(map@, seg@, old(used)@),
{
    let c = clean_token(seg);
    if token_ok_exec(&c) {
        let r = map.reconcile_token(&c);
        used.insert(r);
    }
}

/// Process the captured value `t[a .. b]`.
fn process_capture(t: &Vec<char>, a: usize, b: usize, map: &NameMap, used: &mut UsedSet)
    requires
        map.wf(),
        a <= b <= t@.len(),
    ensures
        final(used)@ == insert_cap(map@, t@.subrange(a as int, b as int), old(used)@),
{
    let cap = subrange_vec(t, a, b);
    let segs = split_commas_vec(&cap);
    let ghost segsv = split_commas(cap@);
    let mut s: usize = 0;
    proof {
        assert(segsv.subrange(0, segsv.len() as int) =~= segsv);
    }
    while s < segs.len()
        invariant
            map.wf(),
            0 <= s <= segs@.len(),
            segs@.map_values(|v: Vec<char>| v@) == segsv,
            insert_segs(map@, segsv.subrange(s as int, segsv.len() as int), used@) == insert_segs(
                map@,
                segsv,
                old(used)@,
            ),
        decreases segs@.len() - s,
    {
        proof {
            assert(segs@.map_values(|v: Vec<char>| v@)[s as int] == segs@[s as int]@);
        }
        process_segment(&segs[s], map, used);
        proof {
            let rest = segsv.subrange(s as int, segsv.len() as int);
            assert(rest[0] == segsv[s as int]);
            assert(rest.drop_first() =~= segsv.subrange(s + 1, segsv.len() as int));
        }
        s = s + 1;
    }
}

/// Apply one pattern at every position of the text.
fn scan_pat_exec(p: Pattern, t: &Vec<char>, map: &NameMap, used: &mut UsedSet)
    requires
        map.wf(),
    ensures
        final(used)@ == scan_pat(p, map@, t@, 0, old(used)@),
{
    let mut i: usize = 0;
    while i < t.len()
        invariant
            map.wf(),
            0 <= i <= t@.len(),
            scan_pat(p, map@, t@, i as int, used@) == scan_pat(p, map@, t@, 0, old(used)@),
        decreases t@.len() - i,
    {
        let ghost before = used@;
        match match_at(p, t, i) {
            Some((a, b)) => {
                process_capture(t, a, b, map, used);
            },
            None => {},
        }
        proof {
            assert(scan_pat(p, map@, t@, i as int, before) == scan_pat(
                p,
                map@,
                t@,
                i + 1,
                used@,
            ));
        }
        i = i + 1;
    }
}

/// Is `pat` a substring of `t`?
pub fn find_substr(t: &Vec<char>, pat: &Vec<char>) -> (r: bool)
    ensures
        r == has_substr(t@, pat@),
{
    let n = pat.len();
    let tl = t.len();
    if n == 0 {
        proof {
            assert(lit_at(t@, 0, pat@)) by {
                assert(t@.subrange(0, 0) =~= pat@);
            }
        }
        return true;
    }
    if n > tl {
        proof {
            if has_substr(t@, pat@) {
                let j = choose|j: int| lit_at(t@, j, pat@);
                assert(false);
            }
        }
        return false;
    }
    let mut i: usize = 0;
    while i <= tl - n
        invariant
            n == pat@.len(),
            tl == t@.len(),
            1 <= n <= tl,
            0 <= i <= tl - n + 1,
            forall|j: int| 0 <= j < i ==> !lit_at(t@, j, pat@),
        decreases tl - n + 1 - i,
    {
        if lit_at_vec(t, i, pat) {
            proof {
                assert(has_substr(t@, pat@)) by {
                    assert(lit_at(t@, i as int, pat@));
                }
            }
            return true;
        }
        i = i + 1;
    }
    proof {
        if has_substr(t@, pat@) {
            let j = choose|j: int| lit_at(t@, j, pat@);
            assert(j < i);
            assert(false);
        }
    }
    false
}

/// Does the allowlist fire for `name` in text `t`?
fn allow_hit_exec(t: &Vec<char>, name: &str) -> (r: bool)
    ensures
        r == allow_hit(t@, name@),
{
    let mut n1 = to_char_vec(name);
    n1.push('!');
    let mut n2 = to_char_vec("use ");
    let mut mid = to_char_vec(name);
    n2.append(&mut mid);
    let mut tail = to_char_vec("::");
    n2.append(&mut tail);
    proof {
        assert(n1@ == name@.push('!'));
        assert(n2@ == "use "@ + name@ + "::"@);
    }
    find_substr(t, &n1) || find_substr(t, &n2)
}

/// Run the macro-only allowlist fallback over the text.
fn apply_allowlist(t: &Vec<char>, allow: &Vec<String>, used: &mut UsedSet)
    ensures
        final(used)@ == apply_allow(allow@.map_values(|s: String| s@), t@, old(used)@),
{
    let ghost namesv = allow@.map_values(|s: String| s@);
    let mut k: usize = 0;
    proof {
        assert(namesv.subrange(0, namesv.len() as int) =~= namesv);
    }
    while k < allow.len()
        invariant
            0 <= k <= allow@.len(),
            namesv == allow@.map_values(|s: String| s@),
            apply_allow(namesv.subrange(k as int, namesv.len() as int), t@, used@) == apply_allow(
                namesv,
                t@,
                old(used)@,
            ),
        decreases allow@.len() - k,
    {
        proof {
            assert(namesv[k as int] == allow@[k as int]@);
        }
        if allow_hit_exec(t, allow[k].as_str()) {
            let nm = to_char_vec(allow[k].as_str());
            used.insert(nm);
        }
        proof {
            let rest = namesv.subrange(k as int, namesv.len() as int);
            assert(rest[0] == namesv[k as int]);
            assert(rest.drop_first() =~= namesv.subrange(k + 1, namesv.len() as int));
        }
        k = k + 1;
    }
}

/// The names in the fixed macro-only allowlist.
pub open spec fn default_allow_names() -> Seq<Seq<char>> {
    seq!["anyhow"@, "thiserror"@, "lazy_static"@, "serde"@]
}

/// The fixed macro-only allowlist: dependencies overwhelmingly consumed
/// through macro invocation or qualified-path syntax that the general
/// patterns may miss.
pub fn default_macro_allowlist() -> (r: Vec<String>)
    ensures
        r@.map_values(|s: String| s@) == default_allow_names(),
{
    let mut r: Vec<String> = Vec::new();
    r.push("anyhow".to_owned());
    r.push("thiserror".to_owned());
    r.push("lazy_static".to_owned());
    r.push("serde".to_owned());
    proof {
        assert(r@.map_values(|s: String| s@) =~= default_allow_names());
    }
    r
}

/// Scan one unit of source text: apply every pattern, then the allowlist
/// fallback, accumulating into `used`.
pub fn scan_for_usage(content: &str, used: &mut UsedSet, map: &NameMap, allow: &Vec<String>)
    requires
        map.wf(),
    ensures
        final(used)@ == scan_text(
            map@,
            allow@.map_values(|s: String| s@),
            content@,
            old(used)@,
        ),
{
    let t = to_char_vec(content);
    scan_pat_exec(Pattern::UsePath, &t, map, used);
    scan_pat_exec(Pattern::UseDecl, &t, map, used);
    scan_pat_exec(Pattern::CrateDecl, &t, map, used);
    scan_pat_exec(Pattern::Derive, &t, map, used);
    scan_pat_exec(Pattern::Qualified, &t, map, used);
    scan_pat_exec(Pattern::MacroCall, &t, map, used);
    scan_pat_exec(Pattern::ModDecl, &t, map, used);
    scan_pat_exec(Pattern::TypeAnno, &t, map, used);
    apply_allowlist(&t, allow, used);
}

} // verus!
