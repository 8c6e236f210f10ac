use lid_core::checks::lld_decisions::LldDecisionsCheck;
use lid_core::checks::{Check, Severity};
use lid_core::model::{ArrowIndex, DecisionDoc, DecisionRow, DecisionScope, LldDoc, Unmapped};
use lid_core::paths::join;
use lid_core::repo::LidRepo;

fn decision(inferred: bool) -> DecisionRow {
    DecisionRow {
        decision: "x".into(),
        chosen: "y".into(),
        alternatives: "z".into(),
        rationale: "ok".into(),
        inferred,
    }
}

fn make_repo_with_decisions(llds: Vec<LldDoc>, decision_docs: Vec<DecisionDoc>) -> LidRepo {
    LidRepo {
        root: "/fake/root".to_string(),
        index: ArrowIndex {
            schema_version: 1,
            last_updated: None,
            taxonomy: vec![],
            arrows: vec![],
            unmapped: Unmapped::default(),
        },
        specs: vec![],
        llds,
        arrow_docs: vec![],
        citations: vec![],
        decision_docs,
        present_paths: vec![],
    }
}

fn make_repo(llds: Vec<LldDoc>) -> LidRepo {
    make_repo_with_decisions(llds, vec![])
}

fn lld(rel: &str, rows: Vec<DecisionRow>) -> LldDoc {
    LldDoc { path: join("/fake/root", rel), decisions: rows }
}

#[test]
fn lld_with_authored_decisions_is_silent() {
    let repo = make_repo(vec![lld(
        "docs/llds/auth.md",
        vec![decision(false), decision(false), decision(false)],
    )]);
    let f = LldDecisionsCheck.run(&repo);
    assert!(f.is_empty(), "got {f:?}");
}

#[test]
fn lld_with_empty_decisions_warns() {
    let repo = make_repo(vec![lld("docs/llds/empty.md", vec![])]);
    let f = LldDecisionsCheck.run(&repo);
    assert_eq!(f.len(), 1);
    assert_eq!(f[0].severity, Severity::Warning);
    assert!(f[0].message.contains("empty.md"));
    assert!(f[0].message.contains("no `## Decisions & Alternatives` rows"));
}

#[test]
fn lld_majority_inferred_emits_info() {
    let repo = make_repo(vec![lld(
        "docs/llds/brownfield.md",
        vec![decision(true), decision(true), decision(false)],
    )]);
    let f = LldDecisionsCheck.run(&repo);
    assert_eq!(f.len(), 1);
    assert_eq!(f[0].severity, Severity::Info);
    assert!(f[0].message.contains("2/3"));
    assert!(f[0].message.contains("[inferred]"));
}

#[test]
fn lld_with_half_inferred_does_not_warn() {
    let repo = make_repo(vec![lld("docs/llds/auth.md", vec![decision(true), decision(false)])]);
    let f = LldDecisionsCheck.run(&repo);
    assert!(f.is_empty(), "got {f:?}");
}

#[test]
fn lld_with_all_inferred_emits_info() {
    let repo = make_repo(vec![lld("docs/llds/brownfield.md", vec![decision(true), decision(true)])]);
    let f = LldDecisionsCheck.run(&repo);
    assert_eq!(f.len(), 1);
    assert_eq!(f[0].severity, Severity::Info);
}

#[test]
fn each_lld_evaluated_independently() {
    let repo = make_repo(vec![
        lld("docs/llds/empty.md", vec![]),
        lld("docs/llds/brownfield.md", vec![decision(true), decision(true), decision(false)]),
        lld("docs/llds/clean.md", vec![decision(false)]),
    ]);
    assert_eq!(LldDecisionsCheck.run(&repo).len(), 2);
}

#[test]
fn lld_without_decisions_but_with_node_decisions_dir_is_silent() {
    let decision_doc = DecisionDoc {
        path: "/fake/root/docs/intent/auth/decisions/token.md".to_string(),
        scope: DecisionScope::Node { segment: "auth".to_owned() },
        title: "Token Format".to_owned(),
    };
    let repo = make_repo_with_decisions(
        vec![lld("docs/intent/auth/auth-design.md", vec![])],
        vec![decision_doc],
    );
    let f = LldDecisionsCheck.run(&repo);
    assert!(f.is_empty(), "expected silence when decisions/ dir has docs, got {f:?}");
}

#[test]
fn lld_without_decisions_and_without_decisions_dir_still_warns() {
    let repo = make_repo(vec![lld("docs/intent/auth/auth-design.md", vec![])]);
    let f = LldDecisionsCheck.run(&repo);
    assert_eq!(f.len(), 1);
    assert_eq!(f[0].severity, Severity::Warning);
}

#[test]
fn at_most_one_lint_finding_per_lld() {
    let repo = make_repo(vec![
        lld("docs/llds/a.md", vec![]),
        lld("docs/llds/b.md", vec![decision(true), decision(true)]),
        lld("docs/llds/c.md", vec![]),
    ]);
    let findings = LldDecisionsCheck.run(&repo);
    assert_eq!(findings.len(), 3);
    assert!(findings.iter().all(|f| matches!(f.category, lid_core::checks::Category::Lint)));
}
