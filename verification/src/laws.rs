//! Properties of the scan as a whole: what a scan adds is independent of
//! what was already accumulated (so re-scanning an unchanged tree changes
//! nothing), imports of declared dependencies are detected and reconciled,
//! the allowlist fallback marks its names used, and every flagged
//! dependency produces its block in the report.

use vstd::prelude::*;
use crate::chars::{is_ident_start, is_ident_char, is_space, lit_at, ident_end, ws_end};
use crate::tokens::{split_commas, cleaned, token_ok, begins_with, trim, strip_rep, trim_back,
    lemma_split_commas_no_comma};
use crate::names::{underscored, name_map_of, reconcile, lemma_map_find_first};
use crate::patterns::{Pattern, cap_at, cap_use_path};
use crate::scan::{insert_token, insert_segs, insert_cap, scan_pat, scan_all_pats,
    allow_hit, apply_allow, scan_text, scan_files};
use crate::report::{flagged, report, report_body, report_header, dep_block};
use crate::DepData;

verus! {

// ---------------------------------------------------------------------
// What a scan adds does not depend on the accumulator.
// ---------------------------------------------------------------------

proof fn lemma_insert_token_union(
    mv: Seq<(Seq<char>, Seq<char>)>,
    tok: Seq<char>,
    acc: Set<Seq<char>>,
)
    ensures
        insert_token(mv, tok, acc) == acc.union(insert_token(mv, tok, Set::empty())),
{
    assert(insert_token(mv, tok, acc) =~= acc.union(insert_token(mv, tok, Set::empty())));
}

proof fn lemma_insert_segs_union(
    mv: Seq<(Seq<char>, Seq<char>)>,
    segs: Seq<Seq<char>>,
    acc: Set<Seq<char>>,
)
    ensures
        insert_segs(mv, segs, acc) == acc.union(insert_segs(mv, segs, Set::empty())),
    decreases segs.len(),
{
    if segs.len() == 0 {
        assert(insert_segs(mv, segs, acc) =~= acc.union(insert_segs(mv, segs, Set::empty())));
    } else {
        let d = segs.drop_first();
        lemma_insert_segs_union(mv, d, insert_token(mv, segs[0], acc));
        lemma_insert_segs_union(mv, d, insert_token(mv, segs[0], Set::empty()));
        lemma_insert_token_union(mv, segs[0], acc);
        assert(insert_segs(mv, segs, acc) =~= acc.union(insert_segs(mv, segs, Set::empty())));
    }
}

proof fn lemma_insert_cap_union(
    mv: Seq<(Seq<char>, Seq<char>)>,
    cap: Seq<char>,
    acc: Set<Seq<char>>,
)
    ensures
        insert_cap(mv, cap, acc) == acc.union(insert_cap(mv, cap, Set::empty())),
{
    lemma_insert_segs_union(mv, split_commas(cap), acc);
}

proof fn lemma_scan_pat_union(
    p: Pattern,
    mv: Seq<(Seq<char>, Seq<char>)>,
    t: Seq<char>,
    i: int,
    acc: Set<Seq<char>>,
)
    ensures
        scan_pat(p, mv, t, i, acc) == acc.union(scan_pat(p, mv, t, i, Set::empty())),
    decreases t.len() - i,
{
    if i >= t.len() {
        assert(scan_pat(p, mv, t, i, acc) =~= acc.union(scan_pat(p, mv, t, i, Set::empty())));
    } else {
        match cap_at(p, t, i) {
            Some(ab) => {
                let cap = t.subrange(ab.0, ab.1);
                lemma_scan_pat_union(p, mv, t, i + 1, insert_cap(mv, cap, acc));
                lemma_scan_pat_union(p, mv, t, i + 1, insert_cap(mv, cap, Set::empty()));
                lemma_insert_cap_union(mv, cap, acc);
                assert(scan_pat(p, mv, t, i, acc) =~= acc.union(
                    scan_pat(p, mv, t, i, Set::empty()),
                ));
            },
            None => {
                lemma_scan_pat_union(p, mv, t, i + 1, acc);
                assert(scan_pat(p, mv, t, i, acc) =~= acc.union(
                    scan_pat(p, mv, t, i, Set::empty()),
                ));
            },
        }
    }
}

proof fn lemma_apply_allow_union(names: Seq<Seq<char>>, t: Seq<char>, acc: Set<Seq<char>>)
    ensures
        apply_allow(names, t, acc) == acc.union(apply_allow(names, t, Set::empty())),
    decreases names.len(),
{
    if names.len() == 0 {
        assert(apply_allow(names, t, acc) =~= acc.union(apply_allow(names, t, Set::empty())));
    } else {
        let d = names.drop_first();
        if allow_hit(t, names[0]) {
            lemma_apply_allow_union(d, t, acc.insert(names[0]));
            lemma_apply_allow_union(d, t, Set::empty().insert(names[0]));
            assert(acc.insert(names[0]) =~= acc.union(Set::empty().insert(names[0])));
        } else {
            lemma_apply_allow_union(d, t, acc);
        }
        assert(apply_allow(names, t, acc) =~= acc.union(apply_allow(names, t, Set::empty())));
    }
}

proof fn lemma_scan_all_pats_union(
    mv: Seq<(Seq<char>, Seq<char>)>,
    t: Seq<char>,
    acc: Set<Seq<char>>,
)
    ensures
        scan_all_pats(mv, t, acc) == acc.union(scan_all_pats(mv, t, Set::empty())),
{
    let s1 = scan_pat(Pattern::UsePath, mv, t, 0, acc);
    let s2 = scan_pat(Pattern::UseDecl, mv, t, 0, s1);
    let s3 = scan_pat(Pattern::CrateDecl, mv, t, 0, s2);
    let s4 = scan_pat(Pattern::Derive, mv, t, 0, s3);
    let s5 = scan_pat(Pattern::Qualified, mv, t, 0, s4);
    let s6 = scan_pat(Pattern::MacroCall, mv, t, 0, s5);
    let s7 = scan_pat(Pattern::ModDecl, mv, t, 0, s6);
    let e1 = scan_pat(Pattern::UsePath, mv, t, 0, Set::empty());
    let e2 = scan_pat(Pattern::UseDecl, mv, t, 0, e1);
    let e3 = scan_pat(Pattern::CrateDecl, mv, t, 0, e2);
    let e4 = scan_pat(Pattern::Derive, mv, t, 0, e3);
    let e5 = scan_pat(Pattern::Qualified, mv, t, 0, e4);
    let e6 = scan_pat(Pattern::MacroCall, mv, t, 0, e5);
    let e7 = scan_pat(Pattern::ModDecl, mv, t, 0, e6);
    lemma_scan_pat_union(Pattern::UsePath, mv, t, 0, acc);
    lemma_scan_pat_union(Pattern::UseDecl, mv, t, 0, s1);
    lemma_scan_pat_union(Pattern::UseDecl, mv, t, 0, e1);
    lemma_scan_pat_union(Pattern::CrateDecl, mv, t, 0, s2);
    lemma_scan_pat_union(Pattern::CrateDecl, mv, t, 0, e2);
    lemma_scan_pat_union(Pattern::Derive, mv, t, 0, s3);
    lemma_scan_pat_union(Pattern::Derive, mv, t, 0, e3);
    lemma_scan_pat_union(Pattern::Qualified, mv, t, 0, s4);
    lemma_scan_pat_union(Pattern::Qualified, mv, t, 0, e4);
    lemma_scan_pat_union(Pattern::MacroCall, mv, t, 0, s5);
    lemma_scan_pat_union(Pattern::MacroCall, mv, t, 0, e5);
    lemma_scan_pat_union(Pattern::ModDecl, mv, t, 0, s6);
    lemma_scan_pat_union(Pattern::ModDecl, mv, t, 0, e6);
    lemma_scan_pat_union(Pattern::TypeAnno, mv, t, 0, s7);
    lemma_scan_pat_union(Pattern::TypeAnno, mv, t, 0, e7);
    assert(scan_all_pats(mv, t, acc) =~= acc.union(scan_all_pats(mv, t, Set::empty())));
}

proof fn lemma_scan_text_union(
    mv: Seq<(Seq<char>, Seq<char>)>,
    names: Seq<Seq<char>>,
    t: Seq<char>,
    acc: Set<Seq<char>>,
)
    ensures
        scan_text(mv, names, t, acc) == acc.union(scan_text(mv, names, t, Set::empty())),
{
    lemma_scan_all_pats_union(mv, t, acc);
    lemma_apply_allow_union(names, t, scan_all_pats(mv, t, acc));
    lemma_apply_allow_union(names, t, scan_all_pats(mv, t, Set::empty()));
    assert(scan_text(mv, names, t, acc) =~= acc.union(scan_text(mv, names, t, Set::empty())));
}

proof fn lemma_scan_files_union(
    mv: Seq<(Seq<char>, Seq<char>)>,
    names: Seq<Seq<char>>,
    files: Seq<Seq<char>>,
    acc: Set<Seq<char>>,
)
    ensures
        scan_files(mv, names, files, acc) == acc.union(scan_files(mv, names, files, Set::empty())),
    decreases files.len(),
{
    if files.len() == 0 {
        assert(scan_files(mv, names, files, acc) =~= acc.union(
            scan_files(mv, names, files, Set::empty()),
        ));
    } else {
        let d = files.drop_first();
        lemma_scan_files_union(mv, names, d, scan_text(mv, names, files[0], acc));
        lemma_scan_files_union(mv, names, d, scan_text(mv, names, files[0], Set::empty()));
        lemma_scan_text_union(mv, names, files[0], acc);
        assert(scan_files(mv, names, files, acc) =~= acc.union(
            scan_files(mv, names, files, Set::empty()),
        ));
    }
}

/// Idempotence of the scan: scanning an unchanged tree a second time,
/// on top of what the first scan accumulated, leaves the used set - and
/// therefore the report - unchanged.
pub proof fn lemma_scan_idempotent(
    mv: Seq<(Seq<char>, Seq<char>)>,
    names: Seq<Seq<char>>,
    files: Seq<Seq<char>>,
    acc: Set<Seq<char>>,
    deps: Seq<DepData>,
)
    ensures
        scan_files(mv, names, files, scan_files(mv, names, files, acc)) == scan_files(
            mv,
            names,
            files,
            acc,
        ),
        report(deps, scan_files(mv, names, files, scan_files(mv, names, files, acc))) == report(
            deps,
            scan_files(mv, names, files, acc),
        ),
{
    let once = scan_files(mv, names, files, acc);
    lemma_scan_files_union(mv, names, files, acc);
    lemma_scan_files_union(mv, names, files, once);
    assert(scan_files(mv, names, files, once) =~= once);
}

// ---------------------------------------------------------------------
// Everything already accumulated survives a scan.
// ---------------------------------------------------------------------

proof fn lemma_scan_pat_mono(
    p: Pattern,
    mv: Seq<(Seq<char>, Seq<char>)>,
    t: Seq<char>,
    i: int,
    acc: Set<Seq<char>>,
    x: Seq<char>,
)
    requires
        acc.contains(x),
    ensures
        scan_pat(p, mv, t, i, acc).contains(x),
{
    lemma_scan_pat_union(p, mv, t, i, acc);
}

proof fn lemma_scan_text_mono(
    mv: Seq<(Seq<char>, Seq<char>)>,
    names: Seq<Seq<char>>,
    t: Seq<char>,
    acc: Set<Seq<char>>,
    x: Seq<char>,
)
    requires
        acc.contains(x),
    ensures
        scan_text(mv, names, t, acc).contains(x),
{
    lemma_scan_text_union(mv, names, t, acc);
}

proof fn lemma_scan_files_mono(
    mv: Seq<(Seq<char>, Seq<char>)>,
    names: Seq<Seq<char>>,
    files: Seq<Seq<char>>,
    acc: Set<Seq<char>>,
    x: Seq<char>,
)
    requires
        acc.contains(x),
    ensures
        scan_files(mv, names, files, acc).contains(x),
{
    lemma_scan_files_union(mv, names, files, acc);
}

// ---------------------------------------------------------------------
// A position where a pattern captures feeds the scan.
// ---------------------------------------------------------------------

proof fn lemma_scan_pat_hits(
    p: Pattern,
    mv: Seq<(Seq<char>, Seq<char>)>,
    t: Seq<char>,
    i: int,
    j: int,
    acc: Set<Seq<char>>,
    x: Seq<char>,
)
    requires
        0 <= i <= j < t.len(),
        cap_at(p, t, j) matches Some(ab) && insert_cap(
            mv,
            t.subrange(ab.0, ab.1),
            Set::empty(),
        ).contains(x),
    ensures
        scan_pat(p, mv, t, i, acc).contains(x),
    decreases j - i,
{
    if i == j {
        let ab = cap_at(p, t, j)->Some_0;
        let cap = t.subrange(ab.0, ab.1);
        lemma_insert_cap_union(mv, cap, acc);
        lemma_scan_pat_mono(p, mv, t, i + 1, insert_cap(mv, cap, acc), x);
    } else {
        match cap_at(p, t, i) {
            Some(ab) => {
                lemma_scan_pat_hits(p, mv, t, i + 1, j, insert_cap(mv, t.subrange(ab.0, ab.1), acc), x);
            },
            None => {
                lemma_scan_pat_hits(p, mv, t, i + 1, j, acc, x);
            },
        }
    }
}

/// A hit of the first pattern feeds the whole battery and the text scan.
proof fn lemma_use_path_hit_in_text(
    mv: Seq<(Seq<char>, Seq<char>)>,
    names: Seq<Seq<char>>,
    t: Seq<char>,
    j: int,
    acc: Set<Seq<char>>,
    x: Seq<char>,
)
    requires
        0 <= j < t.len(),
        cap_at(Pattern::UsePath, t, j) matches Some(ab) && insert_cap(
            mv,
            t.subrange(ab.0, ab.1),
            Set::empty(),
        ).contains(x),
    ensures
        scan_text(mv, names, t, acc).contains(x),
{
    lemma_scan_pat_hits(Pattern::UsePath, mv, t, 0, j, acc, x);
    let s1 = scan_pat(Pattern::UsePath, mv, t, 0, acc);
    lemma_scan_pat_mono(Pattern::UseDecl, mv, t, 0, s1, x);
    let s2 = scan_pat(Pattern::UseDecl, mv, t, 0, s1);
    lemma_scan_pat_mono(Pattern::CrateDecl, mv, t, 0, s2, x);
    let s3 = scan_pat(Pattern::CrateDecl, mv, t, 0, s2);
    lemma_scan_pat_mono(Pattern::Derive, mv, t, 0, s3, x);
    let s4 = scan_pat(Pattern::Derive, mv, t, 0, s3);
    lemma_scan_pat_mono(Pattern::Qualified, mv, t, 0, s4, x);
    let s5 = scan_pat(Pattern::Qualified, mv, t, 0, s4);
    lemma_scan_pat_mono(Pattern::MacroCall, mv, t, 0, s5, x);
    let s6 = scan_pat(Pattern::MacroCall, mv, t, 0, s5);
    lemma_scan_pat_mono(Pattern::ModDecl, mv, t, 0, s6, x);
    let s7 = scan_pat(Pattern::ModDecl, mv, t, 0, s6);
    lemma_scan_pat_mono(Pattern::TypeAnno, mv, t, 0, s7, x);
    lemma_apply_allow_union(names, t, scan_all_pats(mv, t, acc));
}

proof fn lemma_scan_files_hits(
    mv: Seq<(Seq<char>, Seq<char>)>,
    names: Seq<Seq<char>>,
    files: Seq<Seq<char>>,
    fi: int,
    acc: Set<Seq<char>>,
    x: Seq<char>,
)
    requires
        0 <= fi < files.len(),
        scan_text(mv, names, files[fi], Set::empty()).contains(x),
    ensures
        scan_files(mv, names, files, acc).contains(x),
    decreases files.len(),
{
    let d = files.drop_first();
    if fi == 0 {
        lemma_scan_text_union(mv, names, files[0], acc);
        lemma_scan_files_mono(mv, names, d, scan_text(mv, names, files[0], acc), x);
    } else {
        assert(d[fi - 1] == files[fi]);
        lemma_scan_files_hits(mv, names, d, fi - 1, scan_text(mv, names, files[0], acc), x);
    }
}

// ---------------------------------------------------------------------
// A plain import of a declared dependency is found and reconciled.
// ---------------------------------------------------------------------

proof fn lemma_ident_end_run(t: Seq<char>, a: int, b: int)
    requires
        0 <= a <= b <= t.len(),
        forall|k: int| a <= k < b ==> is_ident_char(t[k]),
        b == t.len() || !is_ident_char(t[b]),
    ensures
        ident_end(t, a) == b,
    decreases b - a,
{
    if a < b {
        lemma_ident_end_run(t, a + 1, b);
    }
}

proof fn lemma_ident_not_space(c: char)
    requires
        is_ident_char(c),
    ensures
        !is_space(c),
{
}

/// An identifier-form name: nonempty, every character an identifier
/// character, the first able to start an identifier.
pub open spec fn identifier_shaped(u: Seq<char>) -> bool {
    u.len() > 0 && is_ident_start(u[0]) && (forall|k: int| 0 <= k < u.len() ==> is_ident_char(u[k]))
}

/// At a position where the text reads `use `, then an identifier-shaped
/// name, then `::`, the first pattern captures exactly that name.
proof fn lemma_use_path_captures(t: Seq<char>, i: int, u: Seq<char>)
    requires
        0 <= i,
        identifier_shaped(u),
        lit_at(t, i, "use "@ + u + "::"@),
    ensures
        cap_use_path(t, i) == Some((i + 4, i + 4 + u.len())),
        t.subrange(i + 4, i + 4 + u.len() as int) == u,
{
    reveal_strlit("use ");
    reveal_strlit("use");
    reveal_strlit("::");
    let pat = "use "@ + u + "::"@;
    let n = u.len() as int;
    assert(pat.len() == n + 6);
    assert(i + n + 6 <= t.len());
    assert forall|k: int| 0 <= k < n + 6 implies t[i + k] == pat[k] by {
        assert(t.subrange(i, i + pat.len() as int)[k] == pat[k]);
    }
    assert(pat[0] == 'u' && pat[1] == 's' && pat[2] == 'e' && pat[3] == ' ');
    assert(t[i + 0] == pat[0] && t[i + 1] == pat[1] && t[i + 2] == pat[2] && t[i + 3] == pat[3]);
    assert(t[i] == 'u' && t[i + 1] == 's' && t[i + 2] == 'e' && t[i + 3] == ' ');
    assert forall|k: int| 0 <= k < n implies t[i + 4 + k] == u[k] by {
        assert(pat[4 + k] == u[k]);
        assert(t[i + (4 + k)] == pat[4 + k]);
    }
    assert(pat[4 + n] == ':' && pat[5 + n] == ':');
    assert(t[i + (4 + n)] == pat[4 + n] && t[i + (5 + n)] == pat[5 + n]);
    assert(t[i + 4 + n] == ':' && t[i + 5 + n] == ':');
    // the literal `use`
    assert(lit_at(t, i, "use"@)) by {
        assert(t.subrange(i, i + 3) =~= "use"@);
    }
    // whitespace run: exactly the one blank
    assert(is_space(t[i + 3]));
    lemma_ident_not_space(u[0]);
    assert(t[i + 4] == u[0]);
    assert(ws_end(t, i + 3) == ws_end(t, i + 4));
    assert(ws_end(t, i + 4) == i + 4);
    // the identifier run ends where the name ends
    assert(!is_ident_char(t[i + 4 + n]));
    assert forall|k: int| i + 5 <= k < i + 4 + n implies is_ident_char(t[k]) by {
        let m = k - (i + 4);
        assert(t[i + 4 + m] == u[m]);
    }
    lemma_ident_end_run(t, i + 5, i + 4 + n);
    // no whitespace before the path separator
    assert(ws_end(t, i + 4 + n) == i + 4 + n);
    assert(lit_at(t, i + 4 + n, "::"@)) by {
        assert(t.subrange(i + 4 + n, i + 6 + n) =~= "::"@);
    }
    assert(t.subrange(i + 4, i + 4 + n) =~= u);
}

/// Cleaning leaves an identifier-shaped token untouched, and it survives
/// the filter when it does not begin with a reserved keyword.
proof fn lemma_cleaned_identifier(u: Seq<char>)
    requires
        identifier_shaped(u),
    ensures
        cleaned(u) == u,
{
    reveal_strlit("crate::");
    reveal_strlit("self::");
    reveal_strlit("::");
    lemma_ident_not_space(u[0]);
    lemma_ident_not_space(u[u.len() - 1]);
    assert(ws_end(u, 0) == 0);
    assert(trim_back(u, u.len() as int) == u.len() as int);
    assert(trim(u) =~= u);
    assert(!begins_with(u, "crate::"@)) by {
        if begins_with(u, "crate::"@) {
            assert(u.subrange(0, 7)[5] == ':');
        }
    }
    assert(!begins_with(u, "self::"@)) by {
        if begins_with(u, "self::"@) {
            assert(u.subrange(0, 6)[4] == ':');
        }
    }
    assert(!begins_with(u, "::"@)) by {
        if begins_with(u, "::"@) {
            assert(u.subrange(0, 2)[0] == ':');
        }
    }
    assert(strip_rep(trim(u), "crate::"@) == trim(u));
    assert(strip_rep(trim(u), "self::"@) == trim(u));
    assert(strip_rep(trim(u), "::"@) == trim(u));
}

/// If source text contains `use <identifier form>::...` for a declared
/// dependency, the scan of that tree marks the dependency's canonical
/// name used, and the report generator does not flag it. The last
/// requirement rules out a second declared dependency with the same
/// identifier form, for which a single lookup cannot return both names.
pub proof fn lemma_use_import_detected(
    deps: Seq<DepData>,
    names: Seq<Seq<char>>,
    files: Seq<Seq<char>>,
    fi: int,
    i: int,
    ix: int,
    acc: Set<Seq<char>>,
)
    requires
        0 <= fi < files.len(),
        0 <= ix < deps.len(),
        lit_at(files[fi], i, "use "@ + underscored(deps[ix].name) + "::"@),
        deps[ix].name.len() > 0,
        is_ident_start(deps[ix].name[0]) || deps[ix].name[0] == '-',
        forall|k: int|
            0 <= k < deps[ix].name.len() ==> is_ident_char(deps[ix].name[k]) || deps[ix].name[k]
                == '-',
        !begins_with(underscored(deps[ix].name), "super"@),
        !begins_with(underscored(deps[ix].name), "crate"@),
        forall|j: int|
            0 <= j < deps.len() && underscored(deps[j].name) == underscored(deps[ix].name)
                ==> deps[j].name == deps[ix].name,
    ensures
        scan_files(name_map_of(deps), names, files, acc).contains(deps[ix].name),
        reconcile(name_map_of(deps), underscored(deps[ix].name)) == deps[ix].name,
        !flagged(deps[ix], scan_files(name_map_of(deps), names, files, acc)),
{
    let mv = name_map_of(deps);
    let u = underscored(deps[ix].name);
    let t = files[fi];
    let x = deps[ix].name;
    assert(identifier_shaped(u)) by {
        assert(u[0] == (if deps[ix].name[0] == '-' {
            '_'
        } else {
            deps[ix].name[0]
        }));
    }
    // reconciliation of the identifier form
    lemma_map_find_first(mv, u, deps, ix);
    // the pattern captures the identifier form
    lemma_use_path_captures(t, i, u);
    assert(0 <= i < t.len()) by {
        assert(("use "@ + u + "::"@).len() > 0);
    }
    // processing the capture inserts the canonical name
    let cap = t.subrange(i + 4, i + 4 + u.len() as int);
    assert(cap == u);
    lemma_split_commas_no_comma(u);
    lemma_cleaned_identifier(u);
    assert(token_ok(u));
    assert(insert_token(mv, u, Set::<Seq<char>>::empty()) == Set::<Seq<char>>::empty().insert(x));
    assert(insert_cap(mv, u, Set::<Seq<char>>::empty()).contains(x)) by {
        assert(split_commas(u) == seq![u]);
        assert(seq![u].drop_first() =~= Seq::<Seq<char>>::empty());
        assert(insert_segs(mv, seq![u], Set::<Seq<char>>::empty()) == insert_segs(
            mv,
            Seq::<Seq<char>>::empty(),
            insert_token(mv, u, Set::<Seq<char>>::empty()),
        ));
    }
    // the hit feeds the text scan, and that file feeds the tree scan
    lemma_use_path_hit_in_text(mv, names, t, i, Set::empty(), x);
    lemma_scan_files_hits(mv, names, files, fi, acc, x);
}

/// The separator-free case: if source text contains `use name::...` for a
/// declared dependency whose canonical name is already a plain identifier,
/// the scan marks that name used and the report does not flag it.
pub proof fn lemma_plain_import_excluded(
    deps: Seq<DepData>,
    names: Seq<Seq<char>>,
    files: Seq<Seq<char>>,
    fi: int,
    i: int,
    ix: int,
    acc: Set<Seq<char>>,
)
    requires
        0 <= fi < files.len(),
        0 <= ix < deps.len(),
        identifier_shaped(deps[ix].name),
        lit_at(files[fi], i, "use "@ + deps[ix].name + "::"@),
        !begins_with(deps[ix].name, "super"@),
        !begins_with(deps[ix].name, "crate"@),
        forall|j: int|
            0 <= j < deps.len() && underscored(deps[j].name) == deps[ix].name ==> deps[j].name
                == deps[ix].name,
    ensures
        scan_files(name_map_of(deps), names, files, acc).contains(deps[ix].name),
        !flagged(deps[ix], scan_files(name_map_of(deps), names, files, acc)),
{
    assert(underscored(deps[ix].name) =~= deps[ix].name);
    lemma_use_import_detected(deps, names, files, fi, i, ix, acc);
}

// ---------------------------------------------------------------------
// The allowlist fallback marks its names used.
// ---------------------------------------------------------------------

proof fn lemma_apply_allow_hits(
    names: Seq<Seq<char>>,
    t: Seq<char>,
    k: int,
    acc: Set<Seq<char>>,
)
    requires
        0 <= k < names.len(),
        allow_hit(t, names[k]),
    ensures
        apply_allow(names, t, acc).contains(names[k]),
    decreases names.len(),
{
    let d = names.drop_first();
    if k == 0 {
        lemma_apply_allow_union(d, t, acc.insert(names[0]));
    } else {
        assert(d[k - 1] == names[k]);
        if allow_hit(t, names[0]) {
            lemma_apply_allow_hits(d, t, k - 1, acc.insert(names[0]));
        } else {
            lemma_apply_allow_hits(d, t, k - 1, acc);
        }
    }
}

/// When the allowlist fires for one of its names in some file - the text
/// holds `name!` or `use name::` literally - the scan of the tree marks
/// that name used, even when no general pattern matched it.
pub proof fn lemma_allowlist_marks_used(
    mv: Seq<(Seq<char>, Seq<char>)>,
    names: Seq<Seq<char>>,
    files: Seq<Seq<char>>,
    fi: int,
    k: int,
    acc: Set<Seq<char>>,
)
    requires
        0 <= fi < files.len(),
        0 <= k < names.len(),
        allow_hit(files[fi], names[k]),
    ensures
        scan_files(mv, names, files, acc).contains(names[k]),
{
    lemma_apply_allow_hits(names, files[fi], k, scan_all_pats(mv, files[fi], Set::empty()));
    lemma_scan_files_hits(mv, names, files, fi, acc, names[k]);
}

// ---------------------------------------------------------------------
// Every flagged dependency produces its block in the report.
// ---------------------------------------------------------------------

proof fn lemma_report_body_concat(ds: Seq<DepData>, used: Set<Seq<char>>, m: int)
    requires
        0 <= m <= ds.len(),
    ensures
        report_body(ds, used) == report_body(ds.subrange(0, m), used) + report_body(
            ds.subrange(m, ds.len() as int),
            used,
        ),
    decreases ds.len(),
{
    if m == 0 {
        assert(ds.subrange(0, 0).len() == 0);
        assert(ds.subrange(0, ds.len() as int) =~= ds);
        assert(report_body(ds, used) =~= report_body(ds.subrange(0, 0), used) + report_body(
            ds,
            used,
        ));
    } else {
        let d = ds.drop_first();
        lemma_report_body_concat(d, used, m - 1);
        assert(ds.subrange(0, m).drop_first() =~= d.subrange(0, m - 1));
        assert(ds.subrange(0, m)[0] == ds[0]);
        assert(d.subrange(m - 1, d.len() as int) =~= ds.subrange(m, ds.len() as int));
        assert(report_body(ds, used) =~= report_body(ds.subrange(0, m), used) + report_body(
            ds.subrange(m, ds.len() as int),
            used,
        ));
    }
}

/// A dependency that is declared but was never marked used appears in the
/// report with its whole block - name, marker, version, feature flags and
/// the four manual-verification hints - at its position in declaration
/// order, however many source units were scanned to build `used`.
pub proof fn lemma_flagged_dep_reported(ds: Seq<DepData>, used: Set<Seq<char>>, ix: int)
    requires
        0 <= ix < ds.len(),
        !used.contains(ds[ix].name),
        !used.contains(underscored(ds[ix].name)),
    ensures
        report(ds, used) == report_header() + (report_body(ds.subrange(0, ix), used) + (dep_block(
            ds[ix],
        ) + report_body(ds.subrange(ix + 1, ds.len() as int), used))),
{
    lemma_report_body_concat(ds, used, ix);
    let tail = ds.subrange(ix, ds.len() as int);
    assert(tail[0] == ds[ix]);
    assert(flagged(ds[ix], used));
    assert(tail.drop_first() =~= ds.subrange(ix + 1, ds.len() as int));
    assert(report_body(tail, used) == dep_block(ds[ix]) + report_body(
        ds.subrange(ix + 1, ds.len() as int),
        used,
    ));
    assert(report(ds, used) =~= report_header() + (report_body(ds.subrange(0, ix), used) + (
    dep_block(ds[ix]) + report_body(ds.subrange(ix + 1, ds.len() as int), used))));
}

} // verus!
