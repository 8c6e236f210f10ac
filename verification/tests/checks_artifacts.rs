use lid_core::checks::implementing_artifacts::ImplementingArtifactsCheck;
use lid_core::checks::{Check, CheckId, Severity};
use lid_core::model::{ArrowIndex, SpecFile, Unmapped};
use lid_core::paths::join;
use lid_core::repo::LidRepo;

const ROOT: &str = "/tmp/proj";

fn make_repo(artifacts: &[&str], present: &[&str]) -> LidRepo {
    LidRepo {
        root: ROOT.to_string(),
        index: ArrowIndex {
            schema_version: 2,
            last_updated: None,
            taxonomy: vec![],
            arrows: vec![],
            unmapped: Unmapped::default(),
        },
        specs: vec![SpecFile {
            path: join(ROOT, "docs/intent/auth/auth-specs.md"),
            specs: vec![],
            implementing_artifacts: artifacts.iter().map(|a| a.to_string()).collect(),
            lld: None,
            prefix: None,
        }],
        llds: vec![],
        arrow_docs: vec![],
        citations: vec![],
        decision_docs: vec![],
        present_paths: present.iter().map(|p| join(ROOT, p)).collect(),
    }
}

#[test]
fn missing_artifact_produces_error_finding() {
    let repo = make_repo(&["src/auth.rs"], &[]);
    let findings = ImplementingArtifactsCheck.run(&repo);
    assert_eq!(findings.len(), 1);
    assert_eq!(findings[0].severity, Severity::Error);
    assert_eq!(findings[0].check, CheckId::ImplementingArtifacts);
    assert!(findings[0].message.contains("src/auth.rs"), "got: {}", findings[0].message);
}

#[test]
fn existing_artifact_produces_no_finding() {
    let repo = make_repo(&["src/auth.rs"], &["src/auth.rs"]);
    let findings = ImplementingArtifactsCheck.run(&repo);
    assert!(findings.is_empty(), "expected no findings, got {findings:?}");
}

#[test]
fn no_implementing_artifacts_produces_no_finding() {
    let repo = make_repo(&[], &[]);
    assert!(ImplementingArtifactsCheck.run(&repo).is_empty());
}

#[test]
fn absolute_artifact_path_is_checked_directly() {
    let abs = join(ROOT, "src/auth.rs");
    let repo = make_repo(&[&abs], &[]);
    let findings = ImplementingArtifactsCheck.run(&repo);
    assert_eq!(findings.len(), 1, "absolute missing path should still flag");
    let present = make_repo(&[&abs], &["src/auth.rs"]);
    assert!(ImplementingArtifactsCheck.run(&present).is_empty());
}

#[test]
fn multiple_artifacts_each_checked_independently() {
    let repo = make_repo(&["src/exists.rs", "src/missing.rs"], &["src/exists.rs"]);
    let findings = ImplementingArtifactsCheck.run(&repo);
    assert_eq!(findings.len(), 1);
    assert!(findings[0].message.contains("src/missing.rs"));
}
