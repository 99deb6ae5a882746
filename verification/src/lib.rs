//! Detection of potentially unused dependencies: a lexical scanner that
//! matches dependency names against how identifiers are referenced in
//! source text, with name reconciliation between manifest names and
//! source identifiers, and a plain-text report of the findings.

use vstd::prelude::*;

pub mod chars;
pub mod tokens;
pub mod names;
pub mod used;
pub mod patterns;
pub mod scan;
pub mod report;
pub mod laws;

verus! {

/// A declared project dependency: its canonical name, its version
/// requirement (opaque to the scanner) and its enabled feature flags.
pub struct Dependency {
    pub name: String,
    pub version: String,
    pub features: Vec<String>,
}

/// The mathematical content of a [`Dependency`].
pub struct DepData {
    pub name: Seq<char>,
    pub version: Seq<char>,
    pub features: Seq<Seq<char>>,
}

impl View for Dependency {
    type V = DepData;

    open spec fn view(&self) -> DepData {
        DepData { name: self.name@, version: self.version@, features: self.features.deep_view() }
    }
}

/// The attributes of a dependency that the report prints.
pub struct DependencyInfo {
    pub version: String,
    pub features: Vec<String>,
}

/// Extract the report-relevant attributes of one declared dependency.
pub fn analyze_dependency(dep: &Dependency) -> (r: DependencyInfo)
    ensures
        r.version@ == dep@.version,
        r.features.deep_view() == dep@.features,
{
    let mut feats: Vec<String> = Vec::new();
    let mut i: usize = 0;
    while i < dep.features.len()
        invariant
            0 <= i <= dep.features@.len(),
            feats.deep_view() == dep.features.deep_view().subrange(0, i as int),
        decreases dep.features@.len() - i,
    {
        let ghost prevv = feats@;
        let ghost prevdv = feats.deep_view();
        proof {
            assert(prevdv.len() == prevv.len());
            assert(prevdv.len() == i);
        }
        let c = dep.features[i].clone();
        proof {
            assert(c@ == dep.features@[i as int]@);
        }
        feats.push(c);
        proof {
            assert forall|k: int| 0 <= k < feats@.len() implies feats.deep_view()[k]
                == dep.features.deep_view().subrange(0, i + 1)[k] by {
                if k < i {
                    assert(feats@[k] == prevv[k]);
                    assert(prevdv[k] == dep.features.deep_view().subrange(0, i as int)[k]);
                }
            }
            assert(feats.deep_view() =~= dep.features.deep_view().subrange(0, i + 1));
        }
        i = i + 1;
    }
    proof {
        assert(dep.features.deep_view().subrange(0, dep.features@.len() as int)
            =~~= dep.features.deep_view());
    }
    DependencyInfo { version: dep.version.clone(), features: feats }
}

/// Run the whole analysis: build the name map, scan every source unit,
/// and generate the report.
pub fn analyze_project(deps: &Vec<Dependency>, files: &Vec<String>) -> (r: String)
    ensures
        r@ == report::report(
            deps@.map_values(|d: Dependency| d@),
            scan::scan_files(
                names::name_map_of(deps@.map_values(|d: Dependency| d@)),
                scan::default_allow_names(),
                files@.map_values(|s: String| s@),
                Set::empty(),
            ),
        ),
{
    let ghost dsv = deps@.map_values(|d: Dependency| d@);
    let ghost filesv = files@.map_values(|s: String| s@);
    let ghost mv = names::name_map_of(dsv);
    let ghost nmsv = scan::default_allow_names();
    let map = names::build_name_map(deps);
    let allow = scan::default_macro_allowlist();
    let mut used = used::UsedSet::new();
    let mut i: usize = 0;
    proof {
        assert(filesv.subrange(0, filesv.len() as int) =~= filesv);
    }
    while i < files.len()
        invariant
            0 <= i <= files@.len(),
            map.wf(),
            map@ == mv,
            allow@.map_values(|s: String| s@) == nmsv,
            filesv == files@.map_values(|s: String| s@),
            scan::scan_files(mv, nmsv, filesv.subrange(i as int, filesv.len() as int), used@)
                == scan::scan_files(mv, nmsv, filesv, Set::empty()),
        decreases files@.len() - i,
    {
        scan::scan_for_usage(files[i].as_str(), &mut used, &map, &allow);
        proof {
            let rest = filesv.subrange(i as int, filesv.len() as int);
            assert(rest[0] == filesv[i as int]);
            assert(filesv[i as int] == files@[i as int]@);
            assert(rest.drop_first() =~= filesv.subrange(i + 1, filesv.len() as int));
        }
        i = i + 1;
    }
    report::generate_report(deps, &used)
}

} // verus!
