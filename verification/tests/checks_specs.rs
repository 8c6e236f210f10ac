use lid_core::checks::coverage::CoverageCheck;
use lid_core::checks::reverse_orphan::ReverseOrphanCheck;
use lid_core::checks::spec_id_format::SpecIdFormatCheck;
use lid_core::checks::spec_status_counts::SpecStatusCountsCheck;
use lid_core::checks::{Category, Check, Severity};
use lid_core::ids::SpecId;
use lid_core::model::{
    ArrowIndex, CitationKind, SpecCitation, SpecFile, SpecLine, SpecStatus, Unmapped,
};
use lid_core::paths::join;
use lid_core::repo::LidRepo;

const ROOT: &str = "/fake/root";

fn spec_line(id: &str, status: SpecStatus, line: usize) -> SpecLine {
    SpecLine { id: SpecId::parse(id).unwrap(), status, text: "stub".into(), line }
}

fn cite_at(id: &str, file: &str, line: usize, kind: CitationKind) -> SpecCitation {
    SpecCitation { id: SpecId::parse(id).unwrap(), file: file.to_string(), line, kind }
}

fn spec_file(rel: &str, specs: Vec<SpecLine>) -> SpecFile {
    SpecFile {
        path: join(ROOT, rel),
        specs,
        implementing_artifacts: vec![],
        lld: None,
        prefix: None,
    }
}

fn repo_of(specs: Vec<SpecFile>, citations: Vec<SpecCitation>) -> LidRepo {
    LidRepo {
        root: ROOT.to_string(),
        index: ArrowIndex {
            schema_version: 1,
            last_updated: None,
            taxonomy: vec![],
            arrows: vec![],
            unmapped: Unmapped::default(),
        },
        specs,
        llds: vec![],
        arrow_docs: vec![],
        citations,
        decision_docs: vec![],
        present_paths: vec![],
    }
}

fn auth_repo(lines: Vec<SpecLine>, citations: Vec<SpecCitation>) -> LidRepo {
    repo_of(vec![spec_file("docs/specs/auth-specs.md", lines)], citations)
}

// ---- coverage

fn cov_cite(id: &str, kind: CitationKind, line: usize) -> SpecCitation {
    cite_at(id, &format!("file-{line}.rs"), line, kind)
}

#[test]
fn implemented_spec_with_test_citation_is_silent() {
    let repo = auth_repo(
        vec![spec_line("AUTH-001", SpecStatus::Implemented, 5)],
        vec![cov_cite("AUTH-001", CitationKind::Test, 12)],
    );
    let f = CoverageCheck.run(&repo);
    assert!(f.is_empty(), "got {f:?}");
}

#[test]
fn implemented_spec_without_any_citation_is_flagged() {
    let repo = auth_repo(vec![spec_line("AUTH-001", SpecStatus::Implemented, 5)], vec![]);
    let f = CoverageCheck.run(&repo);
    assert_eq!(f.len(), 1);
    assert_eq!(f[0].severity, Severity::Warning);
    assert_eq!(f[0].category, Category::Coverage);
    assert!(f[0].message.contains("AUTH-001"));
}

#[test]
fn code_only_citation_does_not_count_as_coverage() {
    let repo = auth_repo(
        vec![spec_line("AUTH-001", SpecStatus::Implemented, 5)],
        vec![cov_cite("AUTH-001", CitationKind::Code, 12)],
    );
    let f = CoverageCheck.run(&repo);
    assert_eq!(f.len(), 1);
    assert_eq!(f[0].spec.as_ref().unwrap().as_str(), "AUTH-001");
}

#[test]
fn open_spec_is_not_flagged() {
    let repo = auth_repo(vec![spec_line("AUTH-001", SpecStatus::Open, 5)], vec![]);
    let f = CoverageCheck.run(&repo);
    assert!(f.is_empty(), "got {f:?}");
}

#[test]
fn deferred_spec_is_not_flagged() {
    let repo = auth_repo(vec![spec_line("AUTH-001", SpecStatus::Deferred, 5)], vec![]);
    let f = CoverageCheck.run(&repo);
    assert!(f.is_empty(), "got {f:?}");
}

#[test]
fn each_uncovered_spec_gets_its_own_finding() {
    let repo = auth_repo(
        vec![
            spec_line("AUTH-001", SpecStatus::Implemented, 5),
            spec_line("AUTH-002", SpecStatus::Implemented, 6),
            spec_line("AUTH-003", SpecStatus::Implemented, 7),
        ],
        vec![cov_cite("AUTH-002", CitationKind::Test, 1)],
    );
    let f = CoverageCheck.run(&repo);
    assert_eq!(f.len(), 2);
}

#[test]
fn coverage_finding_location_points_at_spec_line() {
    let repo = auth_repo(vec![spec_line("AUTH-001", SpecStatus::Implemented, 42)], vec![]);
    let f = CoverageCheck.run(&repo);
    let loc = f[0].location.as_ref().unwrap();
    assert_eq!(loc.line, Some(42));
    assert!(loc.path.ends_with("auth-specs.md"));
}

// ---- reverse orphans

fn code_cite(id: &str, file: &str, line: usize) -> SpecCitation {
    cite_at(id, file, line, CitationKind::Code)
}

fn ro_repo(spec_ids: &[&str], citations: Vec<SpecCitation>) -> LidRepo {
    let specs = if spec_ids.is_empty() {
        vec![]
    } else {
        vec![spec_file(
            "docs/specs/auth-specs.md",
            spec_ids
                .iter()
                .enumerate()
                .map(|(i, id)| spec_line(id, SpecStatus::Implemented, i + 1))
                .collect(),
        )]
    };
    repo_of(specs, citations)
}

#[test]
fn citation_to_known_spec_is_silent() {
    let repo = ro_repo(&["AUTH-001"], vec![code_cite("AUTH-001", "src/auth.rs", 12)]);
    let findings = ReverseOrphanCheck.run(&repo);
    assert!(findings.is_empty(), "got {findings:?}");
}

#[test]
fn citation_to_unknown_spec_is_flagged() {
    let repo = ro_repo(&["AUTH-001"], vec![code_cite("AUTH-999", "src/auth.rs", 42)]);
    let findings = ReverseOrphanCheck.run(&repo);
    assert_eq!(findings.len(), 1);
    assert_eq!(findings[0].severity, Severity::Error);
    assert_eq!(findings[0].category, Category::Orphans);
    assert!(findings[0].message.contains("AUTH-999"));
    let loc = findings[0].location.as_ref().unwrap();
    assert_eq!(loc.path, "src/auth.rs");
    assert_eq!(loc.line, Some(42));
    assert_eq!(findings[0].spec.as_ref().unwrap().as_str(), "AUTH-999");
}

#[test]
fn each_orphan_citation_gets_its_own_finding() {
    let repo = ro_repo(
        &[],
        vec![
            code_cite("A-001", "src/a.rs", 1),
            code_cite("B-001", "src/b.rs", 5),
            code_cite("C-001", "src/c.rs", 9),
        ],
    );
    assert_eq!(ReverseOrphanCheck.run(&repo).len(), 3);
}

#[test]
fn duplicate_citations_to_same_unknown_spec_each_flagged() {
    let repo = ro_repo(
        &[],
        vec![code_cite("AUTH-999", "src/a.rs", 1), code_cite("AUTH-999", "src/b.rs", 2)],
    );
    assert_eq!(ReverseOrphanCheck.run(&repo).len(), 2, "each call site should surface");
}

// ---- spec id format (duplicates)

fn sf_repo(files: Vec<(&str, Vec<SpecLine>)>) -> LidRepo {
    repo_of(
        files
            .into_iter()
            .map(|(name, lines)| spec_file(&format!("docs/specs/{name}"), lines))
            .collect(),
        vec![],
    )
}

fn impl_line(id: &str, line: usize) -> SpecLine {
    spec_line(id, SpecStatus::Implemented, line)
}

#[test]
fn unique_ids_yield_no_findings() {
    let repo = sf_repo(vec![
        ("auth-specs.md", vec![impl_line("AUTH-001", 5), impl_line("AUTH-002", 6)]),
        ("billing-specs.md", vec![impl_line("BILL-001", 5)]),
    ]);
    let findings = SpecIdFormatCheck.run(&repo);
    assert!(findings.is_empty(), "got {findings:?}");
}

#[test]
fn duplicate_within_same_file_is_flagged() {
    let repo = sf_repo(vec![(
        "auth-specs.md",
        vec![impl_line("AUTH-001", 5), impl_line("AUTH-001", 12)],
    )]);
    let findings = SpecIdFormatCheck.run(&repo);
    assert_eq!(findings.len(), 1);
    let f = &findings[0];
    assert_eq!(f.severity, Severity::Error);
    assert_eq!(f.category, Category::Schema);
    assert!(f.message.contains("AUTH-001"));
    assert_eq!(f.location.as_ref().unwrap().line, Some(12));
}

#[test]
fn duplicate_across_files_is_flagged() {
    let repo = sf_repo(vec![
        ("auth-specs.md", vec![impl_line("AUTH-001", 7)]),
        ("billing-specs.md", vec![impl_line("AUTH-001", 3)]),
    ]);
    let findings = SpecIdFormatCheck.run(&repo);
    assert_eq!(findings.len(), 1);
    let loc = findings[0].location.as_ref().unwrap();
    assert!(loc.path.ends_with("billing-specs.md"), "loc={loc:?}");
    assert!(
        findings[0].message.contains("auth-specs.md"),
        "expected message to mention the primary location, got {}",
        findings[0].message
    );
}

#[test]
fn triple_occurrence_produces_two_findings() {
    let repo = sf_repo(vec![(
        "auth-specs.md",
        vec![impl_line("AUTH-001", 5), impl_line("AUTH-001", 7), impl_line("AUTH-001", 9)],
    )]);
    assert_eq!(SpecIdFormatCheck.run(&repo).len(), 2);
}

#[test]
fn finding_carries_the_offending_spec_id() {
    let repo = sf_repo(vec![(
        "auth-specs.md",
        vec![impl_line("AUTH-001", 5), impl_line("AUTH-001", 12)],
    )]);
    let findings = SpecIdFormatCheck.run(&repo);
    assert_eq!(findings[0].spec.as_ref().unwrap().as_str(), "AUTH-001");
}

// ---- spec status drift

fn drift_cite(id: &str, kind: CitationKind) -> SpecCitation {
    cite_at(id, "src/auth.rs", 7, kind)
}

#[test]
fn implemented_spec_with_citation_is_silent() {
    let repo = auth_repo(
        vec![spec_line("AUTH-001", SpecStatus::Implemented, 5)],
        vec![drift_cite("AUTH-001", CitationKind::Code)],
    );
    let f = SpecStatusCountsCheck.run(&repo);
    assert!(f.is_empty(), "got {f:?}");
}

#[test]
fn open_spec_without_citation_is_silent() {
    let repo = auth_repo(vec![spec_line("AUTH-001", SpecStatus::Open, 5)], vec![]);
    assert!(SpecStatusCountsCheck.run(&repo).is_empty());
}

#[test]
fn open_spec_with_citation_is_flagged() {
    let repo = auth_repo(
        vec![spec_line("AUTH-001", SpecStatus::Open, 5)],
        vec![drift_cite("AUTH-001", CitationKind::Code)],
    );
    let f = SpecStatusCountsCheck.run(&repo);
    assert_eq!(f.len(), 1);
    assert_eq!(f[0].severity, Severity::Warning);
    assert!(f[0].message.contains("[ ] (open)"));
    assert!(f[0].message.contains("AUTH-001"));
}

#[test]
fn deferred_spec_with_citation_is_flagged() {
    let repo = auth_repo(
        vec![spec_line("AUTH-001", SpecStatus::Deferred, 5)],
        vec![drift_cite("AUTH-001", CitationKind::Test)],
    );
    let f = SpecStatusCountsCheck.run(&repo);
    assert_eq!(f.len(), 1);
    assert!(f[0].message.contains("[D] (deferred)"));
}

#[test]
fn deferred_spec_without_citation_is_silent() {
    let repo = auth_repo(vec![spec_line("AUTH-001", SpecStatus::Deferred, 5)], vec![]);
    assert!(SpecStatusCountsCheck.run(&repo).is_empty());
}

#[test]
fn spec_status_counts_finding_location_points_at_spec_line() {
    let repo = auth_repo(
        vec![spec_line("AUTH-001", SpecStatus::Open, 42)],
        vec![drift_cite("AUTH-001", CitationKind::Code)],
    );
    let f = SpecStatusCountsCheck.run(&repo);
    let loc = f[0].location.as_ref().unwrap();
    assert_eq!(loc.line, Some(42));
    assert!(loc.path.ends_with("auth-specs.md"));
}

#[test]
fn multiple_specs_each_drifting_each_get_finding() {
    let repo = auth_repo(
        vec![
            spec_line("AUTH-001", SpecStatus::Open, 5),
            spec_line("AUTH-002", SpecStatus::Deferred, 6),
        ],
        vec![drift_cite("AUTH-001", CitationKind::Code), drift_cite("AUTH-002", CitationKind::Test)],
    );
    assert_eq!(SpecStatusCountsCheck.run(&repo).len(), 2);
}
