use depscan::{analyze_project, analyze_dependency, Dependency};

fn dep(name: &str, version: &str, features: &[&str]) -> Dependency {
    Dependency {
        name: String::from(name),
        version: String::from(version),
        features: features.iter().map(|f| String::from(*f)).collect(),
    }
}

const HEADER: &str = "\nDependency Analysis Report:\n==========================\n";

fn hints() -> String {
    format!(
        "{}  This dependency might be removable. Verify:\n  1. Check for macro usage\n  2. Look for #[derive(...)] usage\n  3. Review build.rs dependencies\n  4. Check conditional compilation flags\n",
        "\u{26a0}\u{fe0f}"
    )
}

fn block(name: &str, version: &str, feats: &str) -> String {
    format!(
        "\n{} (POTENTIALLY UNUSED)\nVersion: {}\nFeature flags: {}\n{}",
        name,
        version,
        feats,
        hints()
    )
}

#[test]
fn scenario_one_used_one_unused() {
    // declared: anyhow 1.0 without features, regex 1.5 with ["unicode"];
    // the source references regex only.
    let deps = vec![
        dep("anyhow", "1.0", &[]),
        dep("regex", "1.5", &["unicode"]),
    ];
    let files = vec![String::from("use regex::Regex;")];
    let report = analyze_project(&deps, &files);
    let expected = format!("{}{}", HEADER, block("anyhow", "1.0", "[]"));
    assert_eq!(report, expected);
}

#[test]
fn unused_dep_reported_once_with_all_hints() {
    let deps = vec![dep("leftpad", "0.3", &[])];
    let files = vec![
        String::from("fn main() { println!(\"hi\"); }"),
        String::from("mod helpers;\nstruct X;"),
        String::from("// nothing here\n"),
    ];
    let report = analyze_project(&deps, &files);
    let expected = format!("{}{}", HEADER, block("leftpad", "0.3", "[]"));
    assert_eq!(report, expected);
    assert_eq!(report.matches("POTENTIALLY UNUSED").count(), 1);
    assert!(report.contains("  1. Check for macro usage\n"));
    assert!(report.contains("  2. Look for #[derive(...)] usage\n"));
    assert!(report.contains("  3. Review build.rs dependencies\n"));
    assert!(report.contains("  4. Check conditional compilation flags\n"));
}

#[test]
fn feature_flags_rendered_in_array_form() {
    let deps = vec![dep("imglib", "2.1", &["png", "jpeg"])];
    let files = vec![String::from("fn f() {}")];
    let report = analyze_project(&deps, &files);
    let expected = format!("{}{}", HEADER, block("imglib", "2.1", "[\"png\", \"jpeg\"]"));
    assert_eq!(report, expected);
}

#[test]
fn no_dependencies_gives_header_only() {
    let deps: Vec<Dependency> = Vec::new();
    let files = vec![String::from("use whatever::thing;")];
    assert_eq!(analyze_project(&deps, &files), HEADER);
}

#[test]
fn no_files_flags_everything() {
    let deps = vec![dep("alpha", "1", &[]), dep("beta", "2", &[])];
    let files: Vec<String> = Vec::new();
    let expected = format!("{}{}{}", HEADER, block("alpha", "1", "[]"), block("beta", "2", "[]"));
    assert_eq!(analyze_project(&deps, &files), expected);
}

#[test]
fn analyze_dependency_extracts_version_and_features() {
    let d = dep("serde", "^1.0", &["derive"]);
    let info = analyze_dependency(&d);
    assert_eq!(info.version, "^1.0");
    assert_eq!(info.features, vec![String::from("derive")]);
}

#[test]
fn scan_twice_gives_identical_report() {
    let deps = vec![dep("anyhow", "1.0", &[]), dep("regex", "1.5", &[])];
    let files = vec![
        String::from("use regex::Regex;\nfn main() {}"),
        String::from("mod other;"),
    ];
    let first = analyze_project(&deps, &files);
    let second = analyze_project(&deps, &files);
    assert_eq!(first, second);
}
