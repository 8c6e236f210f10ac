use lid_core::dashboard::{
    build_status, filter_decisions, pad_right, parse_scope, render_decisions, render_status,
    sorted_name_set, ScopeFilter,
};
use lid_core::ids::{SegmentId, SpecId};
use lid_core::model::{
    ArrowIndex, DecisionDoc, DecisionScope, Segment, SpecFile, SpecLine, SpecStatus, Status, Unmapped,
};
use lid_core::repo::LidRepo;

fn seg(status: Status, drift: bool, next: bool) -> Segment {
    Segment {
        status,
        sampled: None,
        audited: None,
        audited_sha: None,
        blocks: vec![],
        blocked_by: vec![],
        detail: "x.md".to_string(),
        next: if next { Some("n".into()) } else { None },
        drift: if drift { Some("d".into()) } else { None },
        merged_into: None,
        children: vec![],
        parent: None,
    }
}

fn line(id: &str, status: SpecStatus) -> SpecLine {
    SpecLine { id: SpecId::parse(id).unwrap(), status, text: "t".into(), line: 1 }
}

fn repo() -> LidRepo {
    LidRepo {
        root: "/r".to_string(),
        index: ArrowIndex {
            schema_version: 2,
            last_updated: None,
            taxonomy: vec![],
            arrows: vec![
                (SegmentId::parse("api").unwrap(), seg(Status::Mapped, true, false)),
                (SegmentId::parse("auth").unwrap(), seg(Status::Okay, false, true)),
                (SegmentId::parse("db").unwrap(), seg(Status::Mapped, false, false)),
            ],
            unmapped: Unmapped::default(),
        },
        specs: vec![SpecFile {
            path: "/r/docs/intent/auth/auth-specs.md".to_string(),
            specs: vec![
                line("AUTH-1", SpecStatus::Implemented),
                line("AUTH-2", SpecStatus::Open),
                line("AUTH-3", SpecStatus::Deferred),
            ],
            implementing_artifacts: vec![],
            lld: None,
            prefix: None,
        }],
        llds: vec![],
        arrow_docs: vec![],
        citations: vec![],
        decision_docs: vec![],
        present_paths: vec![],
    }
}

#[test]
fn status_counts_segments_and_specs() {
    let s = build_status(&repo());
    assert_eq!(s.total_segments, 3);
    assert_eq!(s.by_status, vec![("MAPPED".to_string(), 2), ("OK".to_string(), 1)]);
    assert_eq!((s.total_specs, s.implemented, s.open, s.deferred), (3, 1, 1, 1));
    assert_eq!((s.drift_count, s.next_count), (1, 1));
}

#[test]
fn status_dashboard_text() {
    let s = build_status(&repo());
    let out = render_status("/r", 2, &s);
    assert!(out.starts_with("LID repo: /r   schema v2\n\n"), "{out}");
    assert!(out.contains("Segments   3 total\n  MAPPED       2\n  OK           1\n"), "{out}");
    assert!(out.contains("  [x] 1 implemented   [ ] 1 open   [D] 1 deferred   (33 % covered)"), "{out}");
    assert!(out.contains("Drift       1 segment has drift notes"), "{out}");
    assert!(out.contains("Next        1 segment has active next-work entries"), "{out}");
    assert!(out.ends_with("Run `lidc check` for full coherence findings.\n"));
}

#[test]
fn padding_fills_to_width() {
    assert_eq!(pad_right("ab", 4), "ab  ");
    assert_eq!(pad_right("abcdef", 4), "abcdef");
}

fn docs() -> Vec<DecisionDoc> {
    vec![
        DecisionDoc {
            path: "/r/docs/intent/auth/decisions/token.md".into(),
            scope: DecisionScope::Node { segment: "auth".into() },
            title: "Token Format".into(),
        },
        DecisionDoc { path: "/r/docs/decisions/arch.md".into(), scope: DecisionScope::Project, title: "Architecture".into() },
    ]
}

#[test]
fn decisions_invalid_scope_exits_two() {
    assert_eq!(parse_scope(None), Ok(ScopeFilter::All));
    assert_eq!(parse_scope(Some("node")), Ok(ScopeFilter::Node));
    assert_eq!(
        parse_scope(Some("team")),
        Err("invalid --scope value 'team': expected 'project' or 'node'".to_string())
    );
}

#[test]
fn decisions_scope_filter_project_hides_node_docs() {
    let kept = filter_decisions(&docs(), ScopeFilter::Project);
    assert_eq!(kept.len(), 1);
    assert_eq!(kept[0].title, "Architecture");
    let node = filter_decisions(&docs(), ScopeFilter::Node);
    assert_eq!(node.len(), 1);
    assert_eq!(node[0].title, "Token Format");
}

#[test]
fn decisions_lists_project_then_nodes() {
    let out = render_decisions("/r", &docs());
    assert!(out.starts_with("Decision documents   2 total\n\n"), "{out}");
    let p = out.find("Project  (docs/decisions/)").unwrap();
    let n = out.find("auth\n").unwrap();
    assert!(p < n, "{out}");
    assert!(out.contains("docs/decisions/arch.md"), "{out}");
    assert!(out.contains("Token Format"), "{out}");
}

#[test]
fn decisions_empty_repo_prints_no_docs_found() {
    let out = render_decisions("/r", &vec![]);
    assert!(out.contains("0 total"), "{out}");
    assert!(out.contains("No decision documents found."), "{out}");
}

#[test]
fn name_sets_are_sorted_without_duplicates() {
    let v = vec!["b".to_string(), "a".to_string(), "b".to_string()];
    assert_eq!(sorted_name_set(&v), vec!["a".to_string(), "b".to_string()]);
}

fn read_decisions(files: &[(&str, &str)]) -> Vec<DecisionDoc> {
    files
        .iter()
        .filter_map(|(rel, content)| {
            let p = lid_core::paths::join("/r", rel);
            lid_core::repo::decision_scope_of("/r", &p)
                .map(|scope| lid_core::parse::markdown::parse_decision_doc(content, &p, scope))
        })
        .collect()
}

#[test]
fn decisions_lists_project_level_doc() {
    let docs = read_decisions(&[("docs/decisions/arch.md", "# Architecture Choice\n\nSome rationale.\n")]);
    let out = render_decisions("/r", &filter_decisions(&docs, ScopeFilter::All));
    assert!(out.contains("1 total"), "{out}");
    assert!(out.contains("Project"), "{out}");
    assert!(out.contains("arch.md"), "{out}");
    assert!(out.contains("Architecture Choice"), "{out}");
}

#[test]
fn decisions_lists_per_node_doc() {
    let docs = read_decisions(&[("docs/intent/auth/decisions/token.md", "# Token Storage\n\nJWT vs opaque.\n")]);
    let out = render_decisions("/r", &filter_decisions(&docs, ScopeFilter::All));
    assert!(out.contains("1 total"), "{out}");
    assert!(out.contains("auth"), "{out}");
    assert!(out.contains("token.md"), "{out}");
    assert!(out.contains("Token Storage"), "{out}");
}

#[test]
fn decisions_scope_filter_node_hides_project_docs() {
    let docs = read_decisions(&[
        ("docs/decisions/arch.md", "# Arch\n"),
        ("docs/intent/auth/decisions/token.md", "# Token\n"),
        ("docs/intent/auth/auth-specs.md", "# auth\n"),
    ]);
    assert_eq!(docs.len(), 2);
    let out = render_decisions("/r", &filter_decisions(&docs, parse_scope(Some("node")).unwrap()));
    assert!(out.contains("1 total"), "{out}");
    assert!(out.contains("token.md"), "{out}");
    assert!(!out.contains("arch.md"), "{out}");
    let out = render_decisions("/r", &filter_decisions(&docs, parse_scope(Some("project")).unwrap()));
    assert!(out.contains("arch.md") && !out.contains("token.md"), "{out}");
}

#[test]
fn status_counts_add_up_to_the_totals() {
    let s = build_status(&repo());
    assert_eq!(s.implemented + s.open + s.deferred, s.total_specs);
    assert_eq!(s.by_status.iter().map(|p| p.1).sum::<usize>(), s.total_segments);
}
