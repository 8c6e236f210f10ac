use lid_core::checks::path_coherent_prefix::{derive_prefix, intent_folders_of, PathCoherentPrefixCheck};
use lid_core::checks::{Check, CheckId, Severity};
use lid_core::ids::SpecId;
use lid_core::model::{ArrowIndex, SpecFile, SpecLine, SpecStatus, Unmapped};
use lid_core::paths::join;
use lid_core::repo::LidRepo;
use lid_core::scaffold::{
    arrow_doc_path, arrow_stub_text, design_stub_text, init_detail, init_index_text, intent_paths,
    namespaced_prefix, specs_stub_text, suggest_prefix,
};

fn spec_line(id: &str) -> SpecLine {
    SpecLine {
        id: SpecId::parse(id).unwrap(),
        status: SpecStatus::Open,
        text: "stub".into(),
        line: 1,
    }
}

fn make_repo(root: &str, files: Vec<(&str, Option<&str>)>) -> LidRepo {
    let specs = files
        .into_iter()
        .map(|(rel_path, prefix)| SpecFile {
            path: join(root, rel_path),
            specs: vec![],
            implementing_artifacts: vec![],
            lld: None,
            prefix: prefix.map(str::to_owned),
        })
        .collect();
    LidRepo {
        root: root.to_string(),
        index: ArrowIndex {
            schema_version: 1,
            last_updated: None,
            taxonomy: vec![],
            arrows: vec![],
            unmapped: Unmapped::default(),
        },
        specs,
        llds: vec![],
        arrow_docs: vec![],
        citations: vec![],
        decision_docs: vec![],
        present_paths: vec![],
    }
}

#[test]
fn derives_single_folder_prefix() {
    let path = join("/repo", "docs/intent/auth/auth-specs.md");
    assert_eq!(derive_prefix("/repo", &path).unwrap(), "AUTH");
}

#[test]
fn derives_two_folder_prefix() {
    let path = join("/repo", "docs/intent/peval/run/run-specs.md");
    assert_eq!(derive_prefix("/repo", &path).unwrap(), "PEVAL-RUN");
}

#[test]
fn derives_three_folder_prefix() {
    let path = join("/repo", "docs/intent/checkout/payment/gateway/gateway-specs.md");
    assert_eq!(derive_prefix("/repo", &path).unwrap(), "CHECKOUT-PAYMENT-GATEWAY");
}

#[test]
fn derives_prefix_with_hyphenated_folder_name() {
    let path = join("/repo", "docs/intent/shortener-core/alias-gen-specs.md");
    assert_eq!(derive_prefix("/repo", &path).unwrap(), "SHORTENER-CORE");
}

#[test]
fn returns_none_for_file_directly_in_intent_root() {
    let path = join("/repo", "docs/intent/auth-specs.md");
    assert!(derive_prefix("/repo", &path).is_none());
}

#[test]
fn returns_none_for_file_outside_intent_dir() {
    let path = join("/repo", "docs/specs/auth-specs.md");
    assert!(derive_prefix("/repo", &path).is_none());
}

#[test]
fn no_finding_when_prefix_matches_single_folder() {
    let repo = make_repo("/fake/root", vec![("docs/intent/auth/auth-specs.md", Some("AUTH"))]);
    assert!(PathCoherentPrefixCheck.run(&repo).is_empty());
}

#[test]
fn no_finding_when_prefix_matches_nested_folder() {
    let repo = make_repo(
        "/fake/root",
        vec![("docs/intent/peval/run/run-specs.md", Some("PEVAL-RUN"))],
    );
    assert!(PathCoherentPrefixCheck.run(&repo).is_empty());
}

#[test]
fn warning_when_declared_prefix_does_not_match_path() {
    let repo = make_repo("/fake/root", vec![("docs/intent/auth/auth-specs.md", Some("STORE"))]);
    let findings = PathCoherentPrefixCheck.run(&repo);
    assert_eq!(findings.len(), 1);
    let f = &findings[0];
    assert_eq!(f.severity, Severity::Warning);
    assert_eq!(f.check, CheckId::PathCoherentPrefix);
    assert!(f.message.contains("STORE"), "message: {}", f.message);
    assert!(f.message.contains("AUTH"), "message: {}", f.message);
}

#[test]
fn warning_when_nested_prefix_partially_wrong() {
    let repo = make_repo(
        "/fake/root",
        vec![("docs/intent/peval/run/run-specs.md", Some("PEVAL"))],
    );
    let findings = PathCoherentPrefixCheck.run(&repo);
    assert_eq!(findings.len(), 1);
    assert!(findings[0].message.contains("PEVAL-RUN"));
}

#[test]
fn skips_spec_file_with_no_declared_prefix() {
    let repo = make_repo("/fake/root", vec![("docs/intent/auth/auth-specs.md", None)]);
    assert!(PathCoherentPrefixCheck.run(&repo).is_empty());
}

#[test]
fn skips_spec_file_outside_intent_dir() {
    let repo = make_repo("/fake/root", vec![("docs/specs/auth-specs.md", Some("AUTH"))]);
    assert!(PathCoherentPrefixCheck.run(&repo).is_empty());
}

#[test]
fn each_mismatched_file_gets_its_own_finding() {
    let repo = make_repo(
        "/fake/root",
        vec![
            ("docs/intent/auth/auth-specs.md", Some("WRONG")),
            ("docs/intent/api/api-specs.md", Some("WRONG")),
            ("docs/intent/billing/billing-specs.md", Some("BILLING")),
        ],
    );
    let findings = PathCoherentPrefixCheck.run(&repo);
    assert_eq!(findings.len(), 2);
}

#[test]
fn finding_location_points_at_spec_file() {
    let repo = make_repo("/fake/root", vec![("docs/intent/auth/auth-specs.md", Some("WRONG"))]);
    let findings = PathCoherentPrefixCheck.run(&repo);
    let loc = findings[0].location.as_ref().unwrap();
    assert!(loc.path.ends_with("auth-specs.md"));
    assert!(loc.line.is_none());
}

#[test]
fn finding_includes_remediation_hint() {
    let repo = make_repo("/fake/root", vec![("docs/intent/auth/auth-specs.md", Some("WRONG"))]);
    let findings = PathCoherentPrefixCheck.run(&repo);
    assert!(findings[0].remediation.is_some());
}

#[test]
fn spec_file_produces_spec_line_using_helper() {
    let line = spec_line("AUTH-001");
    assert_eq!(line.id.as_str(), "AUTH-001");
}

fn strs(v: &[&str]) -> Vec<String> {
    v.iter().map(|s| s.to_string()).collect()
}

#[test]
fn suggest_prefix_no_existing_returns_segment_upper() {
    assert_eq!(suggest_prefix("auth", &vec![]), "AUTH");
    assert_eq!(suggest_prefix("store-interface", &vec![]), "STORE-INTERFACE");
}

#[test]
fn suggest_prefix_majority_namespace_prepended() {
    let existing = strs(&["USH-AUTH", "USH-API", "USH-ANLY", "USH-CORE"]);
    assert_eq!(suggest_prefix("billing", &existing), "USH-BILLING");
    assert_eq!(suggest_prefix("rate-limiter", &existing), "USH-RATE-LIMITER");
}

#[test]
fn suggest_prefix_no_majority_falls_back_to_upper() {
    let existing = strs(&["USH-AUTH", "FOO-BAR", "BAZ-QUX"]);
    assert_eq!(suggest_prefix("billing", &existing), "BILLING");
}

#[test]
fn suggest_prefix_single_existing_uses_its_namespace() {
    assert_eq!(suggest_prefix("payments", &strs(&["USH-AUTH"])), "USH-PAYMENTS");
}

#[test]
fn suggest_prefix_upper_cases_non_ascii_letters() {
    assert_eq!(suggest_prefix("straße", &vec![]), "STRASSE");
}

#[test]
fn scaffold_intent_dir_creates_files() {
    let (dir, specs, design) = intent_paths("/p", "auth");
    assert_eq!(dir, "/p/docs/intent/auth");
    assert_eq!(specs, "/p/docs/intent/auth/auth-specs.md");
    assert_eq!(design, "/p/docs/intent/auth/auth-design.md");
    assert!(specs_stub_text("auth", "USH-AUTH").contains("prefix: USH-AUTH"));
    assert!(design_stub_text("auth").contains("## Overview"));
}

#[test]
fn scaffold_arrow_doc_creates_file_with_references() {
    assert_eq!(arrow_doc_path("/p", "auth/overview.md"), "/p/docs/arrows/auth/overview.md");
    let content = arrow_stub_text("auth");
    assert!(content.contains("docs/intent/auth/auth-design.md"));
    assert!(content.contains("docs/intent/auth/auth-specs.md"));
}

#[test]
fn init_index_names_the_first_segment() {
    let detail = init_detail("core");
    assert_eq!(detail, "core/overview.md");
    assert_eq!(
        init_index_text("core", &detail),
        "schema_version: 2\narrows:\n  core:\n    status: UNMAPPED\n    detail: core/overview.md\n"
    );
}

#[test]
fn init_creates_expected_files() {
    let detail = init_detail("core");
    let index = init_index_text("core", &detail);
    assert!(index.contains("schema_version: 2"));
    assert!(index.contains("core:"));
    assert!(index.contains("UNMAPPED"));
    assert_eq!(arrow_doc_path("/p", &detail), "/p/docs/arrows/core/overview.md");
    let (dir, _, _) = intent_paths("/p", "core");
    assert_eq!(dir, "/p/docs/intent/core");
}

#[test]
fn init_custom_segment_name() {
    let detail = init_detail("billing");
    assert!(init_index_text("billing", &detail).contains("billing:"));
    assert_eq!(arrow_doc_path("/p", &detail), "/p/docs/arrows/billing/overview.md");
    assert_eq!(suggest_prefix("billing", &vec![]), "BILLING");
}

#[test]
fn namespaced_prefix_keeps_the_given_upper_case_name() {
    let existing = strs(&["USH-AUTH", "USH-API", "-LOOSE"]);
    assert_eq!(namespaced_prefix("Billing".to_string(), &existing), "USH-Billing");
    assert_eq!(namespaced_prefix("X".to_string(), &strs(&["-A", "-B"])), "X");
}

#[test]
fn intent_folders_lists_folders_outermost_first() {
    let path = join("/repo", "docs/intent/checkout/payment/gateway-specs.md");
    assert_eq!(intent_folders_of("/repo", &path).unwrap(), vec!["checkout".to_string(), "payment".to_string()]);
    assert!(intent_folders_of("/repo", &join("/repo", "docs/intent/top-specs.md")).is_none());
    assert!(intent_folders_of("/repo", &join("/repo", "docs/other/a/b-specs.md")).is_none());
}
