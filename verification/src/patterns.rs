//! The fixed battery of lexical patterns the usage scanner applies to
//! source text. Each pattern recognizes one declaration form at a given
//! position and captures the candidate dependency name (or, for a derive
//! list, the comma-separated list of names).
//!
//! Matching is intentionally lexical, not structural: comments, string
//! literals and disabled configuration regions are not understood, which
//! can register false positives; this is a documented limitation of the
//! scan, not a defect.

use vstd::prelude::*;
use crate::chars::{
    is_ident_start, is_ident_char, lit_at, ws_end, ident_end,
    lemma_ident_end_bounds, lemma_ws_end_bounds,
    ident_start_char, ident_char, match_lit, scan_ws_end, scan_ident_end,
};

verus! {

/// The declaration forms the scanner recognizes.
#[derive(Clone, Copy)]
pub enum Pattern {
    /// A plain import with a path: `use name::...`.
    UsePath,
    /// A whole-crate import, possibly aliased: `use name;` or `use name as other;`.
    UseDecl,
    /// A crate declaration item: the `crate` keyword import form.
    CrateDecl,
    /// A derive attribute: `#[derive(Name, Name)]`, capturing the list.
    Derive,
    /// Any qualified path reference: `name::thing`.
    Qualified,
    /// A macro invocation: `name!(...)` or `name!{...}`.
    MacroCall,
    /// A module declaration: `mod name;` (internal modules; a known
    /// source of false positives, kept deliberately).
    ModDecl,
    /// A type annotation with a qualified path: `: name::...`.
    TypeAnno,
}

/// The keyword that begins a crate declaration item.
pub open spec fn crate_decl_kw() -> Seq<char> {
    seq!['e', 'x', 't', 'e', 'r', 'n']
}

/// `use\s+(name)\s*::` at position `i`: capture bounds of `name`.
pub open spec fn cap_use_path(t: Seq<char>, i: int) -> Option<(int, int)> {
    if lit_at(t, i, "use"@) {
        let j = ws_end(t, i + 3);
        if j > i + 3 && j < t.len() && is_ident_start(t[j]) {
            let k = ident_end(t, j + 1);
            if lit_at(t, ws_end(t, k), "::"@) {
                Some((j, k))
            } else {
                None
            }
        } else {
            None
        }
    } else {
        None
    }
}

/// After the captured name at `k`: optional whitespace, then `;`.
pub open spec fn semi_after(t: Seq<char>, k: int) -> bool {
    let d = ws_end(t, k);
    d < t.len() && t[d] == ';'
}

/// After the captured name at `k`: whitespace, `as`, whitespace, an
/// identifier, optional whitespace, then `;`.
pub open spec fn alias_after(t: Seq<char>, k: int) -> bool {
    let a = ws_end(t, k);
    a > k && lit_at(t, a, "as"@) && {
        let b = ws_end(t, a + 2);
        b > a + 2 && b < t.len() && is_ident_start(t[b]) && semi_after(t, ident_end(t, b + 1))
    }
}

/// `use\s+(name)(\s+as\s+other)?\s*;` at position `i`.
pub open spec fn cap_use_decl(t: Seq<char>, i: int) -> Option<(int, int)> {
    if lit_at(t, i, "use"@) {
        let j = ws_end(t, i + 3);
        if j > i + 3 && j < t.len() && is_ident_start(t[j]) {
            let k = ident_end(t, j + 1);
            if semi_after(t, k) || alias_after(t, k) {
                Some((j, k))
            } else {
                None
            }
        } else {
            None
        }
    } else {
        None
    }
}

/// The crate declaration form: keyword, whitespace, `crate`, whitespace,
/// then the captured name.
pub open spec fn cap_crate_decl(t: Seq<char>, i: int) -> Option<(int, int)> {
    if lit_at(t, i, crate_decl_kw()) {
        let j = ws_end(t, i + 6);
        if j > i + 6 && lit_at(t, j, "crate"@) {
            let m = ws_end(t, j + 5);
            if m > j + 5 && m < t.len() && is_ident_start(t[m]) {
                Some((m, ident_end(t, m + 1)))
            } else {
                None
            }
        } else {
            None
        }
    } else {
        None
    }
}

/// The first position at or after `i` holding `)`, or the end of `t`.
pub open spec fn paren_end(t: Seq<char>, i: int) -> int
    decreases t.len() - i,
{
    if 0 <= i < t.len() && t[i] != ')' {
        paren_end(t, i + 1)
    } else {
        i
    }
}

pub proof fn lemma_paren_end_bounds(t: Seq<char>, i: int)
    requires
        0 <= i <= t.len(),
    ensures
        i <= paren_end(t, i) <= t.len(),
        forall|k: int| i <= k < paren_end(t, i) ==> t[k] != ')',
        paren_end(t, i) < t.len() ==> t[paren_end(t, i)] == ')',
    decreases t.len() - i,
{
    if i < t.len() && t[i] != ')' {
        lemma_paren_end_bounds(t, i + 1);
    }
}

/// `#[derive(...)]` at position `i`: capture everything between the parentheses.
pub open spec fn cap_derive(t: Seq<char>, i: int) -> Option<(int, int)> {
    if lit_at(t, i, "#[derive("@) {
        let j = paren_end(t, i + 9);
        if j + 1 < t.len() && t[j + 1] == ']' {
            Some((i + 9, j))
        } else {
            None
        }
    } else {
        None
    }
}

/// `(name)::word` at position `i`, where `i` does not sit inside a longer
/// identifier.
pub open spec fn cap_qualified(t: Seq<char>, i: int) -> Option<(int, int)> {
    if (i == 0 || (0 < i <= t.len() && !is_ident_char(t[i - 1]))) && 0 <= i < t.len()
        && is_ident_start(t[i]) {
        let k = ident_end(t, i + 1);
        if lit_at(t, k, "::"@) && k + 2 < t.len() && is_ident_char(t[k + 2]) {
            Some((i, k))
        } else {
            None
        }
    } else {
        None
    }
}

/// `(name)!\s*(` or `(name)!\s*{` at position `i`, `i` not inside a longer
/// identifier.
pub open spec fn cap_macro_call(t: Seq<char>, i: int) -> Option<(int, int)> {
    if (i == 0 || (0 < i <= t.len() && !is_ident_char(t[i - 1]))) && 0 <= i < t.len()
        && is_ident_start(t[i]) {
        let k = ident_end(t, i + 1);
        if k < t.len() && t[k] == '!' && {
            let m = ws_end(t, k + 1);
            m < t.len() && (t[m] == '(' || t[m] == '{')
        } {
            Some((i, k))
        } else {
            None
        }
    } else {
        None
    }
}

/// `mod\s+(name)\s*;` at position `i`.
pub open spec fn cap_mod_decl(t: Seq<char>, i: int) -> Option<(int, int)> {
    if lit_at(t, i, "mod"@) {
        let j = ws_end(t, i + 3);
        if j > i + 3 && j < t.len() && is_ident_start(t[j]) {
            let k = ident_end(t, j + 1);
            if semi_after(t, k) {
                Some((j, k))
            } else {
                None
            }
        } else {
            None
        }
    } else {
        None
    }
}

/// `:\s*(name)::` at position `i`.
pub open spec fn cap_type_anno(t: Seq<char>, i: int) -> Option<(int, int)> {
    if 0 <= i < t.len() && t[i] == ':' {
        let j = ws_end(t, i + 1);
        if j < t.len() && is_ident_start(t[j]) {
            let k = ident_end(t, j + 1);
            if lit_at(t, k, "::"@) {
                Some((j, k))
            } else {
                None
            }
        } else {
            None
        }
    } else {
        None
    }
}

/// The capture of pattern `p` at position `i` of `t`, if the pattern
/// matches there.
pub open spec fn cap_at(p: Pattern, t: Seq<char>, i: int) -> Option<(int, int)> {
    match p {
        Pattern::UsePath => cap_use_path(t, i),
        Pattern::UseDecl => cap_use_decl(t, i),
        Pattern::CrateDecl => cap_crate_decl(t, i),
        Pattern::Derive => cap_derive(t, i),
        Pattern::Qualified => cap_qualified(t, i),
        Pattern::MacroCall => cap_macro_call(t, i),
        Pattern::ModDecl => cap_mod_decl(t, i),
        Pattern::TypeAnno => cap_type_anno(t, i),
    }
}

/// Any capture lies within the text.
pub proof fn lemma_cap_at_bounds(p: Pattern, t: Seq<char>, i: int)
    requires
        0 <= i <= t.len(),
        cap_at(p, t, i) is Some,
    ensures
        cap_at(p, t, i) matches Some(ab) ==> 0 <= ab.0 <= ab.1 <= t.len(),
{
    match p {
        Pattern::UsePath | Pattern::UseDecl | Pattern::ModDecl => {
            let j = ws_end(t, i + 3);
            lemma_ws_end_bounds(t, i + 3);
            lemma_ident_end_bounds(t, j + 1);
        },
        Pattern::CrateDecl => {
            let j = ws_end(t, i + 6);
            lemma_ws_end_bounds(t, i + 6);
            let m = ws_end(t, j + 5);
            lemma_ws_end_bounds(t, j + 5);
            lemma_ident_end_bounds(t, m + 1);
        },
        Pattern::Derive => {
            lemma_paren_end_bounds(t, i + 9);
        },
        Pattern::Qualified | Pattern::MacroCall => {
            lemma_ident_end_bounds(t, i + 1);
        },
        Pattern::TypeAnno => {
            let j = ws_end(t, i + 1);
            lemma_ws_end_bounds(t, i + 1);
            lemma_ident_end_bounds(t, j + 1);
        },
    }
}

/// Is `;` the next non-whitespace character at or after `k`?
fn semi_after_exec(t: &Vec<char>, k: usize) -> (r: bool)
    requires
        k <= t@.len(),
    ensures
        r == semi_after(t@, k as int),
{
    let d = scan_ws_end(t, k);
    d < t.len() && t[d] == ';'
}

/// Does an alias clause followed by `;` stand at or after `k`?
fn alias_after_exec(t: &Vec<char>, k: usize) -> (r: bool)
    requires
        k <= t@.len(),
    ensures
        r == alias_after(t@, k as int),
{
    let tl = t.len();
    proof {
        reveal_strlit("as");
    }
    let a = scan_ws_end(t, k);
    if a == k || !match_lit(t, a, "as") {
        return false;
    }
    let b = scan_ws_end(t, a + 2);
    if b == a + 2 || b == t.len() || !ident_start_char(t[b]) {
        return false;
    }
    let e = scan_ident_end(t, b + 1);
    semi_after_exec(t, e)
}

/// Match pattern `p` at position `i`, returning the capture bounds.
pub fn match_at(p: Pattern, t: &Vec<char>, i: usize) -> (r: Option<(usize, usize)>)
    requires
        i <= t@.len(),
    ensures
        match r {
            Some(ab) => cap_at(p, t@, i as int) == Some((ab.0 as int, ab.1 as int)) && ab.0 <= ab.1
                <= t@.len(),
            None => cap_at(p, t@, i as int) is None,
        },
{
    let tl = t.len();
    proof {
        if cap_at(p, t@, i as int) is Some {
            lemma_cap_at_bounds(p, t@, i as int);
        }
    }
    match p {
        Pattern::UsePath => {
            proof {
                reveal_strlit("use");
                reveal_strlit("::");
            }
            if !match_lit(t, i, "use") {
                return None;
            }
            let j = scan_ws_end(t, i + 3);
            if j == i + 3 || j == t.len() || !ident_start_char(t[j]) {
                return None;
            }
            let k = scan_ident_end(t, j + 1);
            let m = scan_ws_end(t, k);
            if match_lit(t, m, "::") {
                Some((j, k))
            } else {
                None
            }
        },
        Pattern::UseDecl => {
            proof {
                reveal_strlit("use");
            }
            if !match_lit(t, i, "use") {
                return None;
            }
            let j = scan_ws_end(t, i + 3);
            if j == i + 3 || j == t.len() || !ident_start_char(t[j]) {
                return None;
            }
            let k = scan_ident_end(t, j + 1);
            if semi_after_exec(t, k) || alias_after_exec(t, k) {
                Some((j, k))
            } else {
                None
            }
        },
        Pattern::CrateDecl => {
            proof {
                reveal_strlit("crate");
            }
            if !(tl - i >= 6 && t[i] == 'e' && t[i + 1] == 'x' && t[i + 2] == 't'
                && t[i + 3] == 'e' && t[i + 4] == 'r' && t[i + 5] == 'n') {
                proof {
                    if lit_at(t@, i as int, crate_decl_kw()) {
                        assert(t@.subrange(i as int, i + 6) =~= crate_decl_kw());
                        assert(t@[i as int] == 'e' && t@[i + 1] == 'x' && t@[i + 2] == 't'
                            && t@[i + 3] == 'e' && t@[i + 4] == 'r' && t@[i + 5] == 'n');
                    }
                }
                return None;
            }
            proof {
                assert(t@.subrange(i as int, i + 6) =~= crate_decl_kw());
            }
            let j = scan_ws_end(t, i + 6);
            if j == i + 6 || !match_lit(t, j, "crate") {
                return None;
            }
            let m = scan_ws_end(t, j + 5);
            if m == j + 5 || m == t.len() || !ident_start_char(t[m]) {
                return None;
            }
            let k = scan_ident_end(t, m + 1);
            Some((m, k))
        },
        Pattern::Derive => {
            proof {
                reveal_strlit("#[derive(");
            }
            if !match_lit(t, i, "#[derive(") {
                return None;
            }
            proof {
                lemma_paren_end_bounds(t@, i + 9);
            }
            let mut j = i + 9;
            while j < t.len() && t[j] != ')'
                invariant
                    i + 9 <= j <= t@.len(),
                    paren_end(t@, i + 9) == paren_end(t@, j as int),
                decreases t@.len() - j,
            {
                j = j + 1;
            }
            if j < tl && tl - j > 1 && t[j + 1] == ']' {
                Some((i + 9, j))
            } else {
                None
            }
        },
        Pattern::Qualified => {
            proof {
                reveal_strlit("::");
            }
            if !(i == 0 || !ident_char(t[i - 1])) {
                return None;
            }
            if i == t.len() || !ident_start_char(t[i]) {
                return None;
            }
            let k = scan_ident_end(t, i + 1);
            if match_lit(t, k, "::") && k + 2 < t.len() && ident_char(t[k + 2]) {
                Some((i, k))
            } else {
                None
            }
        },
        Pattern::MacroCall => {
            if !(i == 0 || !ident_char(t[i - 1])) {
                return None;
            }
            if i == t.len() || !ident_start_char(t[i]) {
                return None;
            }
            let k = scan_ident_end(t, i + 1);
            if k < t.len() && t[k] == '!' {
                let m = scan_ws_end(t, k + 1);
                if m < t.len() && (t[m] == '(' || t[m] == '{') {
                    Some((i, k))
                } else {
                    None
                }
            } else {
                None
            }
        },
        Pattern::ModDecl => {
            proof {
                reveal_strlit("mod");
            }
            if !match_lit(t, i, "mod") {
                return None;
            }
            let j = scan_ws_end(t, i + 3);
            if j == i + 3 || j == t.len() || !ident_start_char(t[j]) {
                return None;
            }
            let k = scan_ident_end(t, j + 1);
            if semi_after_exec(t, k) {
                Some((j, k))
            } else {
                None
            }
        },
        Pattern::TypeAnno => {
            proof {
                reveal_strlit("::");
            }
            if i == t.len() || t[i] != ':' {
                return None;
            }
            let j = scan_ws_end(t, i + 1);
            if j == t.len() || !ident_start_char(t[j]) {
                return None;
            }
            let k = scan_ident_end(t, j + 1);
            if match_lit(t, k, "::") {
                Some((j, k))
            } else {
                None
            }
        },
    }
}

} // verus!
