use lid_core::checks::references::ReferenceCoherenceCheck;
use lid_core::checks::resolve::{arrow_ref_path_exec, resolve_arrow_ref};
use lid_core::checks::{Check, Severity};
use lid_core::ids::SegmentId;
use lid_core::model::{ArrowDoc, ArrowIndex, ArrowReferences, Segment, Status, Unmapped};
use lid_core::paths::join;
use lid_core::repo::LidRepo;

const ROOT: &str = "/work/proj";

fn auth_segment() -> Segment {
    Segment {
        status: Status::Mapped,
        sampled: None,
        audited: None,
        audited_sha: None,
        blocks: vec![],
        blocked_by: vec![],
        detail: "auth.md".to_string(),
        next: None,
        drift: None,
        merged_into: None,
        children: vec![],
        parent: None,
    }
}

/// The repository with one arrow doc carrying `refs`; `present` are the
/// project-relative paths that exist on disk.
fn make_repo(present: &[&str], refs: ArrowReferences) -> LidRepo {
    LidRepo {
        root: ROOT.to_string(),
        index: ArrowIndex {
            schema_version: 2,
            last_updated: None,
            taxonomy: vec![],
            arrows: vec![(SegmentId::parse("auth").unwrap(), auth_segment())],
            unmapped: Unmapped::default(),
        },
        specs: vec![],
        llds: vec![],
        arrow_docs: vec![ArrowDoc {
            path: join(ROOT, "docs/arrows/auth.md"),
            references: refs,
            unrecognized_reference_sections: vec![],
        }],
        citations: vec![],
        decision_docs: vec![],
        present_paths: present.iter().map(|p| join(ROOT, p)).collect(),
    }
}

#[test]
fn all_present_references_yield_no_findings() {
    let refs = ArrowReferences {
        hld: vec!["docs/high-level-design.md §Auth".into()],
        lld: vec!["docs/intent/auth/auth-design.md".into()],
        ears: vec!["docs/intent/auth/auth-specs.md".into()],
        tests: vec!["tests/auth.test.ts".into()],
        code: vec!["src/auth.ts".into()],
    };
    let repo = make_repo(
        &[
            "docs/high-level-design.md",
            "docs/intent/auth/auth-design.md",
            "docs/intent/auth/auth-specs.md",
            "tests/auth.test.ts",
            "src/auth.ts",
        ],
        refs,
    );
    let findings = ReferenceCoherenceCheck.run(&repo);
    assert!(findings.is_empty(), "got {findings:?}");
}

#[test]
fn flags_missing_lld_reference() {
    let refs = ArrowReferences { lld: vec!["docs/intent/auth/missing.md".into()], ..Default::default() };
    let repo = make_repo(&[], refs);
    let findings = ReferenceCoherenceCheck.run(&repo);
    assert_eq!(findings.len(), 1);
    assert_eq!(findings[0].severity, Severity::Error);
    assert!(findings[0].message.contains("LLD"));
    assert!(findings[0].message.contains("missing.md"));
}

#[test]
fn strips_section_anchor_from_hld_bullet() {
    let refs = ArrowReferences {
        hld: vec!["docs/high-level-design.md §Glossary".into()],
        ..Default::default()
    };
    let repo = make_repo(&["docs/high-level-design.md"], refs);
    let findings = ReferenceCoherenceCheck.run(&repo);
    assert!(findings.is_empty(), "got {findings:?}");
}

#[test]
fn flags_one_finding_per_missing_reference() {
    let refs = ArrowReferences {
        ears: vec!["docs/intent/auth/missing-a.md".into(), "docs/intent/auth/missing-b.md".into()],
        code: vec!["src/missing-c.ts".into()],
        ..Default::default()
    };
    let repo = make_repo(&[], refs);
    assert_eq!(ReferenceCoherenceCheck.run(&repo).len(), 3);
}

#[test]
fn empty_or_whitespace_bullets_are_skipped() {
    let refs = ArrowReferences { lld: vec![String::new(), "   ".into()], ..Default::default() };
    let repo = make_repo(&[], refs);
    let findings = ReferenceCoherenceCheck.run(&repo);
    assert!(findings.is_empty(), "got {findings:?}");
}

#[test]
fn extracts_path_from_backtick_wrapped_bullet() {
    let refs = ArrowReferences {
        lld: vec!["`docs/intent/auth/auth-design.md`".into()],
        ..Default::default()
    };
    let repo = make_repo(&["docs/intent/auth/auth-design.md"], refs);
    let findings = ReferenceCoherenceCheck.run(&repo);
    assert!(findings.is_empty(), "got {findings:?}");
}

#[test]
fn extracts_path_from_bullet_with_em_dash_trailer() {
    let refs = ArrowReferences {
        lld: vec!["`docs/intent/auth/auth-design.md` — this segment's LLD.".into()],
        ..Default::default()
    };
    let repo = make_repo(&["docs/intent/auth/auth-design.md"], refs);
    let findings = ReferenceCoherenceCheck.run(&repo);
    assert!(findings.is_empty(), "got {findings:?}");
}

#[test]
fn extracts_path_from_bullet_with_multiple_section_anchors() {
    let refs = ArrowReferences {
        hld: vec!["`docs/high-level-design.md` § Architecture / Plugins; § Key Design Decisions".into()],
        ..Default::default()
    };
    let repo = make_repo(&["docs/high-level-design.md"], refs);
    let findings = ReferenceCoherenceCheck.run(&repo);
    assert!(findings.is_empty(), "got {findings:?}");
}

#[test]
fn extracts_path_when_nested_code_span_follows() {
    let refs = ArrowReferences {
        ears: vec!["`docs/intent/auth/auth-specs.md` (12 specs, prefix `AUTH-*`)".into()],
        ..Default::default()
    };
    let repo = make_repo(&["docs/intent/auth/auth-specs.md"], refs);
    let findings = ReferenceCoherenceCheck.run(&repo);
    assert!(findings.is_empty(), "got {findings:?}");
}

#[test]
fn directory_reference_passes_when_directory_exists() {
    let refs = ArrowReferences {
        tests: vec!["`plugins/my-skill/workspace/iteration-1/` — eval outputs".into()],
        ..Default::default()
    };
    let repo = make_repo(&["plugins/my-skill/workspace/iteration-1"], refs);
    let findings = ReferenceCoherenceCheck.run(&repo);
    assert!(findings.is_empty(), "got {findings:?}");
}

#[test]
fn prose_only_bullet_is_silently_skipped() {
    let refs = ArrowReferences {
        ears: vec!["None on the container itself. See the LLD for details.".into()],
        ..Default::default()
    };
    let repo = make_repo(&[], refs);
    let findings = ReferenceCoherenceCheck.run(&repo);
    assert!(findings.is_empty(), "got {findings:?}");
}

#[test]
fn arrow_ref_paths_are_extracted() {
    assert_eq!(arrow_ref_path_exec("`a/b.md` — x"), Some("a/b.md".to_string()));
    assert_eq!(arrow_ref_path_exec("docs/x.md §Y"), Some("docs/x.md".to_string()));
    assert_eq!(arrow_ref_path_exec("plain words"), None);
    assert_eq!(arrow_ref_path_exec(""), None);
    assert_eq!(
        resolve_arrow_ref("/r", "`docs/a.md`"),
        Some("/r/docs/a.md".to_string())
    );
}
