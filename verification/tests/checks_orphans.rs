use lid_core::checks::orphans::OrphanCheck;
use lid_core::checks::{Category, Check, Severity};
use lid_core::ids::SegmentId;
use lid_core::model::{
    ArrowDoc, ArrowIndex, ArrowReferences, DecisionRow, LldDoc, Segment, SpecFile, Status,
    Unmapped, UnmappedDocs,
};
use lid_core::paths::join;
use lid_core::repo::LidRepo;

const ROOT: &str = "/fake/root";

fn seg_id(s: &str) -> SegmentId {
    SegmentId::parse(s).unwrap()
}

fn minimal_segment(detail: &str) -> Segment {
    Segment {
        status: Status::Mapped,
        sampled: None,
        audited: None,
        audited_sha: None,
        blocks: vec![],
        blocked_by: vec![],
        detail: detail.to_string(),
        next: None,
        drift: None,
        merged_into: None,
        children: vec![],
        parent: None,
    }
}

fn index_of(arrows: Vec<(SegmentId, Segment)>, unmapped: Unmapped) -> ArrowIndex {
    ArrowIndex { schema_version: 2, last_updated: None, taxonomy: vec![], arrows, unmapped }
}

fn make_repo(
    lld_files: &[&str],
    spec_files: &[&str],
    arrow_refs: ArrowReferences,
    unmapped: Unmapped,
) -> LidRepo {
    let dir = join(ROOT, "docs/intent/auth");
    let llds = lld_files
        .iter()
        .map(|f| LldDoc {
            path: join(&dir, f),
            decisions: vec![DecisionRow {
                decision: "x".into(),
                chosen: "y".into(),
                alternatives: "z".into(),
                rationale: "ok".into(),
                inferred: false,
            }],
        })
        .collect();
    let specs = spec_files
        .iter()
        .map(|f| SpecFile {
            path: join(&dir, f),
            specs: vec![],
            implementing_artifacts: vec![],
            lld: None,
            prefix: None,
        })
        .collect();
    let arrow_doc = ArrowDoc {
        path: join(ROOT, "docs/arrows/auth.md"),
        references: arrow_refs,
        unrecognized_reference_sections: vec![],
    };
    LidRepo {
        root: ROOT.to_string(),
        index: index_of(vec![(seg_id("auth"), minimal_segment("auth.md"))], unmapped),
        specs,
        llds,
        arrow_docs: vec![arrow_doc],
        citations: vec![],
        decision_docs: vec![],
        present_paths: vec![],
    }
}

#[test]
fn lld_referenced_from_arrow_is_not_orphaned() {
    let refs = ArrowReferences { lld: vec!["docs/intent/auth/auth.md".into()], ..Default::default() };
    let repo = make_repo(&["auth.md"], &[], refs, Unmapped::default());
    let findings = OrphanCheck.run(&repo);
    assert!(findings.is_empty(), "got {findings:?}");
}

#[test]
fn lld_not_referenced_is_orphaned() {
    let repo = make_repo(&["lonely.md"], &[], ArrowReferences::default(), Unmapped::default());
    let findings = OrphanCheck.run(&repo);
    assert_eq!(findings.len(), 1);
    assert!(findings[0].message.contains("LLD"));
    assert!(findings[0].message.contains("lonely.md"));
}

#[test]
fn spec_not_referenced_is_orphaned() {
    let repo =
        make_repo(&[], &["lonely-specs.md"], ArrowReferences::default(), Unmapped::default());
    let findings = OrphanCheck.run(&repo);
    assert_eq!(findings.len(), 1);
    assert!(findings[0].message.contains("spec"));
    assert!(findings[0].message.contains("lonely-specs.md"));
}

#[test]
fn lld_in_unmapped_docs_is_not_orphaned() {
    let unmapped = Unmapped {
        docs: UnmappedDocs {
            llds: vec!["docs/intent/auth/parked.md".to_string()],
            specs: vec![],
            intent: vec![],
        },
    };
    let repo = make_repo(&["parked.md"], &[], ArrowReferences::default(), unmapped);
    let findings = OrphanCheck.run(&repo);
    assert!(findings.is_empty(), "got {findings:?}");
}

#[test]
fn lld_orphan_uses_warning_severity() {
    let repo = make_repo(&["lonely.md"], &[], ArrowReferences::default(), Unmapped::default());
    let findings = OrphanCheck.run(&repo);
    assert_eq!(findings[0].severity, Severity::Warning);
    assert_eq!(findings[0].category, Category::Orphans);
}

#[test]
fn multiple_orphans_each_get_a_finding() {
    let repo =
        make_repo(&["a.md", "b.md"], &["c.md"], ArrowReferences::default(), Unmapped::default());
    assert_eq!(OrphanCheck.run(&repo).len(), 3);
}

#[test]
fn sub_hld_design_doc_referenced_via_detail_is_not_orphaned() {
    let mut seg = minimal_segment("../intent/storage/storage-design.md");
    seg.children = vec![seg_id("store-interface")];
    let child = minimal_segment("storage/store-interface.md");
    let arrows = vec![(seg_id("storage"), seg), (seg_id("store-interface"), child)];
    let llds = vec![LldDoc {
        path: join(ROOT, "docs/intent/storage/storage-design.md"),
        decisions: vec![],
    }];
    let repo = LidRepo {
        root: ROOT.to_string(),
        index: index_of(arrows, Unmapped::default()),
        specs: vec![],
        llds,
        arrow_docs: vec![],
        citations: vec![],
        decision_docs: vec![],
        present_paths: vec![],
    };
    let findings = OrphanCheck.run(&repo);
    assert!(findings.is_empty(), "sub-HLD design doc should not be orphaned, got {findings:?}");
}

#[test]
fn unmapped_intent_exempts_design_doc_from_orphan() {
    let unmapped = Unmapped {
        docs: UnmappedDocs {
            llds: vec![],
            specs: vec![],
            intent: vec!["docs/intent/auth/parked-design.md".to_string()],
        },
    };
    let repo = make_repo(&["parked-design.md"], &[], ArrowReferences::default(), unmapped);
    let findings = OrphanCheck.run(&repo);
    assert!(findings.is_empty(), "got {findings:?}");
}
