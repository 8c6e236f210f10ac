use lid_core::checks::arrow_doc_structure::ArrowDocStructureCheck;
use lid_core::checks::decisions_structure::DecisionsStructureCheck;
use lid_core::checks::{Category, Check, Severity};
use lid_core::ids::{SegmentId, SpecId};
use lid_core::model::{
    ArrowDoc, ArrowIndex, ArrowReferences, CitationKind, DecisionDoc, DecisionScope, Segment,
    SpecCitation, Status, Unmapped,
};
use lid_core::repo::LidRepo;

fn base(arrows: Vec<(SegmentId, Segment)>) -> LidRepo {
    LidRepo {
        root: "/fake/root".to_string(),
        index: ArrowIndex {
            schema_version: 2,
            last_updated: None,
            taxonomy: vec![],
            arrows,
            unmapped: Unmapped::default(),
        },
        specs: vec![],
        llds: vec![],
        arrow_docs: vec![],
        citations: vec![],
        decision_docs: vec![],
        present_paths: vec![],
    }
}

fn auth_segment() -> Segment {
    Segment {
        status: Status::Mapped,
        sampled: None,
        audited: None,
        audited_sha: None,
        blocks: vec![],
        blocked_by: vec![],
        detail: "auth.md".to_string(),
        next: None,
        drift: None,
        merged_into: None,
        children: vec![],
        parent: None,
    }
}

fn structure_repo(unrecognized: Vec<String>) -> LidRepo {
    let mut repo = base(vec![(SegmentId::parse("auth").unwrap(), auth_segment())]);
    repo.arrow_docs = vec![ArrowDoc {
        path: "/fake/root/docs/arrows/auth.md".to_string(),
        references: ArrowReferences::default(),
        unrecognized_reference_sections: unrecognized,
    }];
    repo
}

#[test]
fn no_unrecognised_sections_yields_no_findings() {
    assert!(ArrowDocStructureCheck.run(&structure_repo(vec![])).is_empty());
}

#[test]
fn each_unrecognised_section_gets_a_finding() {
    let repo = structure_repo(vec!["Ears".into(), "lld".into()]);
    assert_eq!(ArrowDocStructureCheck.run(&repo).len(), 2);
}

#[test]
fn finding_names_the_bad_section_and_lists_valid_ones() {
    let repo = structure_repo(vec!["Ears".into()]);
    let f = &ArrowDocStructureCheck.run(&repo)[0];
    assert_eq!(f.severity, Severity::Info);
    assert_eq!(f.category, Category::References);
    assert!(f.message.contains("Ears"));
    let rem = f.remediation.as_deref().unwrap();
    assert!(rem.contains("EARS"));
    assert!(rem.contains("LLD"));
}

fn decisions_repo(decision_docs: Vec<DecisionDoc>, citations: Vec<SpecCitation>) -> LidRepo {
    let mut repo = base(vec![]);
    repo.decision_docs = decision_docs;
    repo.citations = citations;
    repo
}

fn project_doc(name: &str, title: &str) -> DecisionDoc {
    DecisionDoc {
        path: format!("/fake/root/docs/decisions/{name}.md"),
        scope: DecisionScope::Project,
        title: title.to_owned(),
    }
}

fn node_doc(segment: &str, name: &str, title: &str) -> DecisionDoc {
    DecisionDoc {
        path: format!("/fake/root/docs/intent/{segment}/decisions/{name}.md"),
        scope: DecisionScope::Node { segment: segment.to_owned() },
        title: title.to_owned(),
    }
}

#[test]
fn valid_decision_doc_is_silent() {
    let repo = decisions_repo(vec![project_doc("arch", "Architecture Decision")], vec![]);
    let findings = DecisionsStructureCheck.run(&repo);
    assert!(findings.is_empty(), "got {findings:?}");
}

#[test]
fn missing_title_emits_warning() {
    let repo = decisions_repo(vec![project_doc("arch", "")], vec![]);
    let findings = DecisionsStructureCheck.run(&repo);
    assert_eq!(findings.len(), 1);
    assert_eq!(findings[0].severity, Severity::Warning);
    assert!(findings[0].message.contains("no H1 title"));
}

#[test]
fn per_node_doc_in_unknown_segment_emits_warning() {
    let repo = decisions_repo(vec![node_doc("auth", "token", "Token Format")], vec![]);
    let findings = DecisionsStructureCheck.run(&repo);
    assert_eq!(findings.len(), 1);
    assert_eq!(findings[0].severity, Severity::Warning);
    assert!(findings[0].message.contains("auth"));
    assert_eq!(findings[0].category, Category::Orphans);
}

#[test]
fn at_spec_citation_in_decision_doc_emits_warning() {
    let doc = project_doc("arch", "Architecture Decision");
    let citation = SpecCitation {
        id: SpecId::parse("AUTH-001").unwrap(),
        file: doc.path.clone(),
        line: 5,
        kind: CitationKind::Other,
    };
    let repo = decisions_repo(vec![doc], vec![citation]);
    let findings = DecisionsStructureCheck.run(&repo);
    assert_eq!(findings.len(), 1);
    assert_eq!(findings[0].severity, Severity::Warning);
    assert!(findings[0].message.contains("@spec AUTH-001"));
    assert!(findings[0].message.contains("carry no EARS specs"));
}

#[test]
fn citation_in_non_decision_doc_is_not_flagged() {
    let doc = project_doc("arch", "Architecture Decision");
    let citation = SpecCitation {
        id: SpecId::parse("AUTH-001").unwrap(),
        file: "/fake/root/src/auth.rs".to_string(),
        line: 1,
        kind: CitationKind::Code,
    };
    let repo = decisions_repo(vec![doc], vec![citation]);
    let findings = DecisionsStructureCheck.run(&repo);
    assert!(findings.is_empty(), "got {findings:?}");
}
