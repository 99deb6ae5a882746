use depscan::{Dependency, names::build_name_map, scan::{scan_for_usage, default_macro_allowlist},
    used::UsedSet};

fn dep(name: &str) -> Dependency {
    Dependency { name: String::from(name), version: String::from("1.0"), features: Vec::new() }
}

fn scan_one(deps: &[&str], text: &str) -> UsedSet {
    let deps: Vec<Dependency> = deps.iter().map(|n| dep(n)).collect();
    let map = build_name_map(&deps);
    let allow = default_macro_allowlist();
    let mut used = UsedSet::new();
    scan_for_usage(text, &mut used, &map, &allow);
    used
}

#[test]
fn plain_use_import_is_detected() {
    let used = scan_one(&["foo"], "use foo::bar;\n");
    assert!(used.contains_name("foo"));
}

#[test]
fn underscore_form_reconciles_to_hyphenated_name() {
    let used = scan_one(&["foo-bar"], "use foo_bar::x;\n");
    assert!(used.contains_name("foo-bar"));
    assert!(!used.contains_name("foo_bar"));
}

#[test]
fn hyphenless_name_without_mention_stays_unused() {
    let used = scan_one(&["foo"], "fn main() { let x = 1; }\n");
    assert!(!used.contains_name("foo"));
}

#[test]
fn whole_crate_import_is_detected() {
    let used = scan_one(&["foo"], "use foo;\n");
    assert!(used.contains_name("foo"));
}

#[test]
fn aliased_import_captures_original_name() {
    let used = scan_one(&["foo"], "use foo as f;\n");
    assert!(used.contains_name("foo"));
    assert!(!used.contains_name("f"));
}

#[test]
fn crate_declaration_import_is_detected() {
    // assemble the declaration form at run time
    let text = format!("{}ern crate foo;\n", "ext");
    let used = scan_one(&["foo"], &text);
    assert!(used.contains_name("foo"));
}

#[test]
fn derive_list_is_split_cleaned_and_reconciled() {
    let used = scan_one(
        &["my-derive", "other"],
        "#[derive( crate::my_derive , Debug )]\nstruct S;\n",
    );
    assert!(used.contains_name("my-derive"));
    assert!(used.contains_name("Debug"));
    assert!(!used.contains_name("other"));
}

#[test]
fn qualified_path_reference_is_detected() {
    let used = scan_one(&["foo"], "fn f() { foo::bar(); }\n");
    assert!(used.contains_name("foo"));
}

#[test]
fn macro_invocation_is_detected() {
    let used = scan_one(&["foo"], "fn f() { foo!(1, 2); }\n");
    assert!(used.contains_name("foo"));
    let used2 = scan_one(&["foo"], "foo! { body }\n");
    assert!(used2.contains_name("foo"));
}

#[test]
fn module_declaration_is_scanned() {
    // module declarations name internal modules; scanning them is a
    // deliberate, known source of false positives
    let used = scan_one(&["foo"], "mod foo;\n");
    assert!(used.contains_name("foo"));
}

#[test]
fn type_annotation_path_is_detected() {
    let used = scan_one(&["foo"], "fn f(x: foo::Bar) {}\n");
    assert!(used.contains_name("foo"));
}

#[test]
fn reserved_path_keywords_are_rejected() {
    let used = scan_one(&["helpers"], "use self::helpers;\n");
    assert!(!used.contains_name("helpers"));
    let used2 = scan_one(&["sup"], "use super::sup;\n");
    assert!(!used2.contains_name("sup"));
}

#[test]
fn allowlist_fires_on_macro_form() {
    // `anyhow!` followed by neither `(` nor `{` escapes the general
    // macro pattern; the allowlist still catches it
    let used = scan_one(&["anyhow"], "x anyhow! y\n");
    assert!(used.contains_name("anyhow"));
}

#[test]
fn allowlist_fires_on_qualified_use_substring() {
    let used = scan_one(&["serde"], "use serde::de;\n");
    assert!(used.contains_name("serde"));
}

#[test]
fn derive_crate_alone_does_not_mark_allowlist_name() {
    let used = scan_one(&["serde", "serde_derive"], "use serde_derive::Serialize;\n");
    assert!(used.contains_name("serde_derive"));
    assert!(!used.contains_name("serde"));
}

#[test]
fn rescanning_same_text_changes_nothing() {
    let deps = vec![dep("foo"), dep("bar-baz")];
    let map = build_name_map(&deps);
    let allow = default_macro_allowlist();
    let text = "use foo::x;\nuse bar_baz::y;\n";
    let mut used = UsedSet::new();
    scan_for_usage(text, &mut used, &map, &allow);
    let names = ["foo", "bar-baz", "bar_baz", "serde", "x", "y"];
    let before: Vec<bool> = names.iter().map(|n| used.contains_name(n)).collect();
    scan_for_usage(text, &mut used, &map, &allow);
    let after: Vec<bool> = names.iter().map(|n| used.contains_name(n)).collect();
    assert_eq!(before, after);
    assert!(used.contains_name("foo"));
    assert!(used.contains_name("bar-baz"));
}

#[test]
fn empty_source_text_adds_nothing() {
    let used = scan_one(&["foo"], "");
    assert!(!used.contains_name("foo"));
}

#[test]
fn usage_accumulates_across_files() {
    let deps = vec![dep("foo"), dep("bar")];
    let map = build_name_map(&deps);
    let allow = default_macro_allowlist();
    let mut used = UsedSet::new();
    scan_for_usage("use foo::a;\n", &mut used, &map, &allow);
    scan_for_usage("bar::b();\n", &mut used, &map, &allow);
    assert!(used.contains_name("foo"));
    assert!(used.contains_name("bar"));
}
