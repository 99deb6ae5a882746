//! The report generator: every declared dependency whose canonical name,
//! in either separator form, is absent from the used-identifier set is
//! printed with a POTENTIALLY UNUSED marker, its version requirement, its
//! feature flags and a fixed checklist of manual-verification hints.
//! Dependencies found used produce no output.

use vstd::prelude::*;
use vstd::string::StringExecFns;
use crate::{Dependency, DepData};
use crate::chars::to_char_vec;
use crate::names::{underscored, underscore_vec};
use crate::used::UsedSet;

verus! {

/// A feature flag rendered in debug form.
pub open spec fn quoted(f: Seq<char>) -> Seq<char> {
    "\""@ + f + "\""@
}

/// The feature flags from index `j` on, rendered with `, ` separators.
pub open spec fn feat_items(fs: Seq<Seq<char>>, j: int) -> Seq<char>
    decreases fs.len() - j,
{
    if j < 0 || j >= fs.len() {
        Seq::empty()
    } else {
        (if j > 0 {
            ", "@
        } else {
            Seq::empty()
        }) + quoted(fs[j]) + feat_items(fs, j + 1)
    }
}

/// The feature-flag list rendered in debug/array form.
pub open spec fn features_debug(fs: Seq<Seq<char>>) -> Seq<char> {
    "["@ + feat_items(fs, 0) + "]"@
}

/// The fixed manual-verification checklist printed for a flagged dependency.
pub open spec fn warn_text() -> Seq<char> {
    "\u{26a0}\u{fe0f}  This dependency might be removable. Verify:\n  1. Check for macro usage\n  2. Look for #[derive(...)] usage\n  3. Review build.rs dependencies\n  4. Check conditional compilation flags\n"@
}

/// A dependency is flagged when neither separator form of its canonical
/// name was found used.
pub open spec fn flagged(d: DepData, used: Set<Seq<char>>) -> bool {
    !used.contains(d.name) && !used.contains(underscored(d.name))
}

/// The report block one flagged dependency produces.
pub open spec fn dep_block(d: DepData) -> Seq<char> {
    "\n"@ + d.name + " (POTENTIALLY UNUSED)\n"@ + "Version: "@ + d.version + "\n"@
        + "Feature flags: "@ + features_debug(d.features) + "\n"@ + warn_text()
}

/// The report entries for the dependencies, in declaration order: one
/// block per flagged dependency, nothing for a used one.
pub open spec fn report_body(ds: Seq<DepData>, used: Set<Seq<char>>) -> Seq<char>
    decreases ds.len(),
{
    if ds.len() == 0 {
        Seq::empty()
    } else {
        (if flagged(ds[0], used) {
            dep_block(ds[0])
        } else {
            Seq::empty()
        }) + report_body(ds.drop_first(), used)
    }
}

/// The report's fixed two-line header.
pub open spec fn report_header() -> Seq<char> {
    "\nDependency Analysis Report:\n==========================\n"@
}

/// The whole report.
pub open spec fn report(ds: Seq<DepData>, used: Set<Seq<char>>) -> Seq<char> {
    report_header() + report_body(ds, used)
}

/// Append the feature-flag list in debug/array form.
fn append_features(out: &mut String, feats: &Vec<String>)
    ensures
        final(out)@ == old(out)@ + features_debug(feats@.map_values(|s: String| s@)),
{
    let ghost fsv = feats@.map_values(|s: String| s@);
    let ghost target = old(out)@ + features_debug(fsv);
    out.append("[");
    let mut j: usize = 0;
    while j < feats.len()
        invariant
            0 <= j <= feats@.len(),
            fsv == feats@.map_values(|s: String| s@),
            target == old(out)@ + features_debug(fsv),
            out@ + feat_items(fsv, j as int) + "]"@ == target,
        decreases feats@.len() - j,
    {
        let ghost before = out@;
        if j > 0 {
            out.append(", ");
        }
        out.append("\"");
        out.append(feats[j].as_str());
        out.append("\"");
        proof {
            assert(fsv[j as int] == feats@[j as int]@);
            if j > 0 {
                assert(out@ =~= before + (", "@ + quoted(fsv[j as int])));
                assert(feat_items(fsv, j as int) =~= (", "@ + quoted(fsv[j as int])) + feat_items(
                    fsv,
                    j + 1,
                ));
            } else {
                assert(out@ =~= before + (Seq::<char>::empty() + quoted(fsv[j as int])));
                assert(feat_items(fsv, j as int) =~= (Seq::<char>::empty() + quoted(
                    fsv[j as int],
                )) + feat_items(fsv, j + 1));
            }
            assert(out@ + feat_items(fsv, j + 1) + "]"@ =~= before + feat_items(
                fsv,
                j as int,
            ) + "]"@);
        }
        j = j + 1;
    }
    out.append("]");
    proof {
        assert(feat_items(fsv, feats@.len() as int) =~= Seq::<char>::empty());
        assert(out@ =~= target);
    }
}

/// Generate the report over the declared dependencies and the final
/// used-identifier set.
pub fn generate_report(deps: &Vec<Dependency>, used: &UsedSet) -> (r: String)
    ensures
        r@ == report(deps@.map_values(|d: Dependency| d@), used@),
{
    let ghost dsv = deps@.map_values(|d: Dependency| d@);
    let mut out = String::new();
    out.append("\nDependency Analysis Report:\n==========================\n");
    proof {
        assert(out@ =~= report_header());
        assert(dsv.subrange(0, dsv.len() as int) =~= dsv);
    }
    let mut i: usize = 0;
    while i < deps.len()
        invariant
            0 <= i <= deps@.len(),
            dsv == deps@.map_values(|d: Dependency| d@),
            out@ + report_body(dsv.subrange(i as int, dsv.len() as int), used@) == report(
                dsv,
                used@,
            ),
        decreases deps@.len() - i,
    {
        let ghost before = out@;
        let ghost d = dsv[i as int];
        proof {
            assert(d.name == deps@[i as int].name@);
            assert(d.version == deps@[i as int].version@);
            assert(d.features == deps@[i as int].features.deep_view());
            assert(deps@[i as int].features.deep_view() =~= deps@[i as int].features@.map_values(
                |s: String| s@,
            ));
        }
        let nv = to_char_vec(deps[i].name.as_str());
        let uv = underscore_vec(&nv);
        let is_flagged = !used.contains(&nv) && !used.contains(&uv);
        proof {
            assert(is_flagged == flagged(d, used@));
        }
        if is_flagged {
            out.append("\n");
            out.append(deps[i].name.as_str());
            out.append(" (POTENTIALLY UNUSED)\n");
            out.append("Version: ");
            out.append(deps[i].version.as_str());
            out.append("\n");
            out.append("Feature flags: ");
            append_features(&mut out, &deps[i].features);
            out.append("\n");
            out.append(
                "\u{26a0}\u{fe0f}  This dependency might be removable. Verify:\n  1. Check for macro usage\n  2. Look for #[derive(...)] usage\n  3. Review build.rs dependencies\n  4. Check conditional compilation flags\n",
            );
            proof {
                assert(out@ =~= before + dep_block(d));
            }
        }
        proof {
            let rest = dsv.subrange(i as int, dsv.len() as int);
            assert(rest[0] == dsv[i as int]);
            assert(rest.drop_first() =~= dsv.subrange(i + 1, dsv.len() as int));
            assert(out@ + report_body(dsv.subrange(i + 1, dsv.len() as int), used@) =~= before
                + report_body(rest, used@));
        }
        i = i + 1;
    }
    proof {
        assert(report_body(dsv.subrange(dsv.len() as int, dsv.len() as int), used@)
            =~= Seq::<char>::empty());
        assert(out@ =~= report(dsv, used@));
    }
    out
}

} // verus!
