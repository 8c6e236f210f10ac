use lid_core::checks::schema::{is_known_segment, SchemaCheck};
use lid_core::checks::{Check, Severity};
use lid_core::ids::SegmentId;
use lid_core::model::{ArrowDoc, ArrowIndex, ArrowReferences, Segment, Status, Unmapped};
use lid_core::paths::join;
use lid_core::repo::LidRepo;

const ROOT: &str = "/fake/root";

fn seg_id(s: &str) -> SegmentId {
    SegmentId::parse(s).unwrap()
}

fn minimal_segment(detail: &str) -> Segment {
    Segment {
        status: Status::Mapped,
        sampled: None,
        audited: None,
        audited_sha: None,
        blocks: vec![],
        blocked_by: vec![],
        detail: detail.to_string(),
        next: None,
        drift: None,
        merged_into: None,
        children: vec![],
        parent: None,
    }
}

fn repo_with(
    arrows: Vec<(SegmentId, Segment)>,
    taxonomy: Vec<(String, Vec<SegmentId>)>,
    arrow_doc_files: &[&str],
) -> LidRepo {
    let arrows_dir = join(&join(ROOT, "docs"), "arrows");
    let arrow_docs = arrow_doc_files
        .iter()
        .map(|f| ArrowDoc {
            path: join(&arrows_dir, f),
            references: ArrowReferences::default(),
            unrecognized_reference_sections: vec![],
        })
        .collect();
    LidRepo {
        root: ROOT.to_string(),
        index: ArrowIndex {
            schema_version: 1,
            last_updated: None,
            taxonomy,
            arrows,
            unmapped: Unmapped::default(),
        },
        specs: vec![],
        llds: vec![],
        arrow_docs,
        citations: vec![],
        decision_docs: vec![],
        present_paths: vec![],
    }
}

#[test]
fn clean_index_yields_no_findings() {
    let repo = repo_with(vec![(seg_id("auth"), minimal_segment("auth.md"))], vec![], &["auth.md"]);
    let f = SchemaCheck.run(&repo);
    assert!(f.is_empty(), "expected no findings, got {f:?}");
}

#[test]
fn flags_blocks_pointing_at_unknown_segment() {
    let mut auth = minimal_segment("auth.md");
    auth.blocks = vec![seg_id("unknown")];
    let repo = repo_with(vec![(seg_id("auth"), auth)], vec![], &["auth.md"]);
    let f = SchemaCheck.run(&repo);
    assert_eq!(f.len(), 1);
    assert_eq!(f[0].severity, Severity::Error);
    assert!(f[0].message.contains("unknown segment `unknown`"));
}

#[test]
fn flags_blocked_by_pointing_at_unknown_segment() {
    let mut auth = minimal_segment("auth.md");
    auth.blocked_by = vec![seg_id("ghost")];
    let repo = repo_with(vec![(seg_id("auth"), auth)], vec![], &["auth.md"]);
    let f = SchemaCheck.run(&repo);
    assert_eq!(f.len(), 1);
    assert!(f[0].message.contains("blockedBy"));
}

#[test]
fn flags_missing_detail_file() {
    let repo = repo_with(vec![(seg_id("auth"), minimal_segment("auth.md"))], vec![], &[]);
    let f = SchemaCheck.run(&repo);
    assert_eq!(f.len(), 1);
    assert!(f[0].message.contains("detail file"));
    assert!(f[0].message.contains("auth.md"));
}

#[test]
fn flags_merged_status_without_target() {
    let mut s = minimal_segment("auth.md");
    s.status = Status::Merged;
    s.merged_into = None;
    let repo = repo_with(vec![(seg_id("auth"), s)], vec![], &["auth.md"]);
    let f = SchemaCheck.run(&repo);
    assert!(f.iter().any(|x| x.message.contains("status MERGED but no")));
}

#[test]
fn flags_merged_into_with_unknown_target() {
    let mut s = minimal_segment("auth.md");
    s.status = Status::Merged;
    s.merged_into = Some(seg_id("vanished"));
    let repo = repo_with(vec![(seg_id("auth"), s)], vec![], &["auth.md"]);
    let f = SchemaCheck.run(&repo);
    assert!(f.iter().any(|x| x.message.contains("merged into unknown segment `vanished`")));
}

#[test]
fn warns_on_merged_into_without_merged_status() {
    let mut s = minimal_segment("auth.md");
    s.status = Status::Mapped;
    s.merged_into = Some(seg_id("session"));
    let repo = repo_with(
        vec![(seg_id("auth"), s), (seg_id("session"), minimal_segment("session.md"))],
        vec![],
        &["auth.md", "session.md"],
    );
    let f = SchemaCheck.run(&repo);
    assert!(f.iter().any(|x| x.severity == Severity::Warning && x.message.contains("merged_into")));
}

#[test]
fn flags_taxonomy_referencing_unknown_segment() {
    let taxonomy = vec![("core".to_owned(), vec![seg_id("auth"), seg_id("nonexistent")])];
    let repo = repo_with(vec![(seg_id("auth"), minimal_segment("auth.md"))], taxonomy, &["auth.md"]);
    let f = SchemaCheck.run(&repo);
    assert_eq!(f.len(), 1);
    assert!(f[0].message.contains("taxonomy cluster `core` references unknown segment `nonexistent`"));
}

#[test]
fn merged_with_known_target_is_clean() {
    let mut s = minimal_segment("auth.md");
    s.status = Status::Merged;
    s.merged_into = Some(seg_id("session"));
    let repo = repo_with(
        vec![(seg_id("auth"), s), (seg_id("session"), minimal_segment("session.md"))],
        vec![],
        &["auth.md", "session.md"],
    );
    let f = SchemaCheck.run(&repo);
    assert!(f.is_empty(), "got {f:?}");
}

#[test]
fn known_segment_lookup() {
    let arrows = vec![(seg_id("auth"), minimal_segment("auth.md"))];
    assert!(is_known_segment(&arrows, "auth"));
    assert!(!is_known_segment(&arrows, "other"));
}

#[test]
fn segment_with_only_required_fields_constructs() {
    let s = Segment {
        status: Status::Unmapped,
        sampled: None,
        audited: None,
        audited_sha: None,
        blocks: vec![],
        blocked_by: vec![],
        detail: "auth.md".to_string(),
        next: None,
        drift: None,
        merged_into: None,
        children: vec![],
        parent: None,
    };
    assert_eq!(s.status, Status::Unmapped);
    assert_eq!(s.status.as_str(), "UNMAPPED");
    assert_eq!(Status::Okay.as_str(), "OK");
}

#[test]
fn one_finding_per_unknown_reference_and_missing_detail() {
    let mut auth = minimal_segment("auth.md");
    auth.blocks = vec![seg_id("ghost"), seg_id("auth"), seg_id("phantom")];
    auth.blocked_by = vec![seg_id("ghost")];
    auth.status = Status::Merged;
    let taxonomy = vec![("core".to_string(), vec![seg_id("auth"), seg_id("nope")])];
    let repo = repo_with(vec![(seg_id("auth"), auth)], taxonomy, &[]);
    let f = SchemaCheck.run(&repo);
    // 2 unknown blocks + 1 unknown blockedBy + MERGED without target + missing detail + 1 taxonomy entry
    assert_eq!(f.len(), 6);
    assert!(f.iter().all(|x| x.severity == Severity::Error && x.location.as_ref().unwrap().line.is_none()));
}
