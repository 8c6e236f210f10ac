use lid_core::ids::SpecId;
use lid_core::lsp::diagnostics::{diagnostics_for_buffer, diagnostics_for_spec_buffer, DiagSeverity};
use lid_core::model::{ArrowIndex, CitationKind, SpecCitation, SpecFile, SpecLine, SpecStatus, Unmapped};
use lid_core::paths::join;
use lid_core::repo::LidRepo;

fn repo_of(spec_path: &str, id: &str, status: SpecStatus, citation_files: &[&str]) -> LidRepo {
    let root = "/repo".to_string();
    let citations = citation_files
        .iter()
        .map(|p| SpecCitation {
            id: SpecId::parse(id).unwrap(),
            file: join(&root, p),
            line: 1,
            kind: CitationKind::Test,
        })
        .collect();
    LidRepo {
        root: root.clone(),
        index: ArrowIndex {
            schema_version: 1,
            last_updated: None,
            taxonomy: vec![],
            arrows: vec![],
            unmapped: Unmapped::default(),
        },
        specs: vec![SpecFile {
            path: join(&root, spec_path),
            specs: vec![SpecLine { id: SpecId::parse(id).unwrap(), status, text: "text".into(), line: 1 }],
            implementing_artifacts: vec![],
            lld: None,
            prefix: None,
        }],
        llds: vec![],
        arrow_docs: vec![],
        citations,
        decision_docs: vec![],
        present_paths: vec![],
    }
}

fn repo_with_spec(id: &str) -> LidRepo {
    repo_of("docs/specs/auth-specs.md", id, SpecStatus::Implemented, &[])
}

fn repo_with_spec_and_citations(id: &str, status: SpecStatus, files: &[&str]) -> LidRepo {
    repo_of("docs/intent/auth/auth-specs.md", id, status, files)
}

#[test]
fn known_spec_citation_yields_no_diagnostic() {
    let repo = repo_with_spec("AUTH-001");
    let diags = diagnostics_for_buffer(&repo, "// @spec AUTH-001\n");
    assert!(diags.is_empty(), "got {diags:?}");
}

#[test]
fn unknown_spec_citation_yields_an_error_diagnostic() {
    let repo = repo_with_spec("AUTH-001");
    let diags = diagnostics_for_buffer(&repo, "// @spec UNKNOWN-001\nfn x() {}\n");
    assert_eq!(diags.len(), 1);
    let d = &diags[0];
    assert_eq!(d.severity, DiagSeverity::Error);
    assert!(d.message.contains("UNKNOWN-001"));
    assert_eq!(d.code, "reverse-orphan");
    assert_eq!(d.source, "lid-lsp");
}

#[test]
fn diagnostic_range_covers_the_offending_spec_id() {
    let repo = repo_with_spec("AUTH-001");
    let diags = diagnostics_for_buffer(&repo, "// @spec UNKNOWN-001\n");
    let r = diags[0].range;
    assert_eq!(r.start.line, 0);
    assert_eq!(r.start.character, 9);
    assert_eq!(r.end.character, 20);
}

#[test]
fn buffer_without_at_spec_yields_no_diagnostics() {
    let repo = repo_with_spec("AUTH-001");
    assert!(diagnostics_for_buffer(&repo, "const SPECS = ['AUTH-001'];\n").is_empty());
}

#[test]
fn one_diagnostic_per_offending_citation() {
    let repo = repo_with_spec("AUTH-001");
    let text = "// @spec UNKNOWN-001\nfn a() {}\n// @spec ALSO-MISSING-002\n";
    let diags = diagnostics_for_buffer(&repo, text);
    assert_eq!(diags.len(), 2);
    assert_eq!(diags[0].range.start.line, 0);
    assert_eq!(diags[1].range.start.line, 2);
}

#[test]
fn mixed_known_and_unknown_only_flags_unknown() {
    let repo = repo_with_spec("AUTH-001");
    let diags = diagnostics_for_buffer(&repo, "// @spec AUTH-001, UNKNOWN-002\n");
    assert_eq!(diags.len(), 1);
    assert!(diags[0].message.contains("UNKNOWN-002"));
}

#[test]
fn implemented_spec_with_citation_yields_no_diagnostic() {
    let repo = repo_with_spec_and_citations("AUTH-001", SpecStatus::Implemented, &["tests/auth_test.rs"]);
    let text = "- [x] **AUTH-001**: When the user logs in\n";
    assert!(diagnostics_for_spec_buffer(&repo, text).is_empty());
}

#[test]
fn implemented_spec_without_citation_yields_error() {
    let repo = repo_with_spec_and_citations("AUTH-001", SpecStatus::Implemented, &[]);
    let diags = diagnostics_for_spec_buffer(&repo, "- [x] **AUTH-001**: When the user logs in\n");
    assert_eq!(diags.len(), 1);
    let d = &diags[0];
    assert_eq!(d.severity, DiagSeverity::Error);
    assert_eq!(d.code, "coverage");
    assert!(d.message.contains("AUTH-001"));
    assert!(d.message.contains("[x]"));
}

#[test]
fn coverage_diagnostic_range_covers_bare_id() {
    let repo = repo_with_spec_and_citations("AUTH-001", SpecStatus::Implemented, &[]);
    let diags = diagnostics_for_spec_buffer(&repo, "- [x] **AUTH-001**: text\n");
    let r = diags[0].range;
    assert_eq!(r.start.line, 0);
    assert_eq!(r.start.character, 8);
    assert_eq!(r.end.character, 16);
}

#[test]
fn open_spec_with_citation_yields_warning() {
    let repo = repo_with_spec_and_citations("AUTH-001", SpecStatus::Open, &["tests/auth_test.rs"]);
    let diags = diagnostics_for_spec_buffer(&repo, "- [ ] **AUTH-001**: When the user logs in\n");
    assert_eq!(diags.len(), 1);
    let d = &diags[0];
    assert_eq!(d.severity, DiagSeverity::Warning);
    assert_eq!(d.code, "spec-status");
    assert!(d.message.contains("AUTH-001"));
    assert!(d.message.contains("[ ]"));
}

#[test]
fn deferred_spec_with_citation_yields_warning() {
    let repo = repo_with_spec_and_citations("AUTH-001", SpecStatus::Deferred, &["tests/auth_test.rs"]);
    let diags = diagnostics_for_spec_buffer(&repo, "- [D] **AUTH-001**: When the user logs in\n");
    assert_eq!(diags.len(), 1);
    assert_eq!(diags[0].severity, DiagSeverity::Warning);
    assert!(diags[0].message.contains("[D]"));
}

#[test]
fn open_spec_without_citation_yields_no_diagnostic() {
    let repo = repo_with_spec_and_citations("AUTH-001", SpecStatus::Open, &[]);
    assert!(diagnostics_for_spec_buffer(&repo, "- [ ] **AUTH-001**: When the user logs in\n").is_empty());
}

#[test]
fn non_spec_lines_are_ignored() {
    let repo = repo_with_spec_and_citations("AUTH-001", SpecStatus::Implemented, &[]);
    let text = "# EARS Specs: auth\n\n## Section\n\nsome prose\n";
    assert!(diagnostics_for_spec_buffer(&repo, text).is_empty());
}

#[test]
fn spec_diagnostic_correct_line_number() {
    let repo = repo_with_spec_and_citations("AUTH-001", SpecStatus::Implemented, &[]);
    let diags = diagnostics_for_spec_buffer(&repo, "# Auth specs\n\n- [x] **AUTH-001**: text\n");
    assert_eq!(diags[0].range.start.line, 2);
}

#[test]
fn spec_buffer_gets_at_most_one_diagnostic_per_line() {
    let repo = repo_with_spec("AUTH-001");
    let text = "- [x] **AUTH-001**: a\n- [x] **AUTH-001**: again\nprose\n";
    let diags = diagnostics_for_spec_buffer(&repo, text);
    assert_eq!(diags.len(), 2);
    assert!(diags.iter().all(|d| d.code == "coverage" && matches!(d.severity, DiagSeverity::Error)));
}
