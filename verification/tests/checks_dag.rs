use lid_core::checks::dag::{sort_strings, DagCheck};
use lid_core::checks::{default_checks, run_checks, Category, Check, CheckId, Severity};
use lid_core::ids::SegmentId;
use lid_core::model::{ArrowIndex, Segment, Status, Unmapped};
use lid_core::repo::LidRepo;

fn seg_id(s: &str) -> SegmentId {
    SegmentId::parse(s).unwrap()
}

fn seg(blocks: &[&str]) -> Segment {
    Segment {
        status: Status::Mapped,
        sampled: None,
        audited: None,
        audited_sha: None,
        blocks: blocks.iter().map(|s| seg_id(s)).collect(),
        blocked_by: vec![],
        detail: "stub.md".to_string(),
        next: None,
        drift: None,
        merged_into: None,
        children: vec![],
        parent: None,
    }
}

/// `arrows` must be given in key order, as an ordered map holds them.
fn repo_with(arrows: &[(&str, &[&str])]) -> LidRepo {
    LidRepo {
        root: "/fake/root".to_string(),
        index: ArrowIndex {
            schema_version: 1,
            last_updated: None,
            taxonomy: vec![],
            arrows: arrows.iter().map(|(name, blocks)| (seg_id(name), seg(blocks))).collect(),
            unmapped: Unmapped::default(),
        },
        specs: vec![],
        llds: vec![],
        arrow_docs: vec![],
        citations: vec![],
        decision_docs: vec![],
        present_paths: vec![],
    }
}

#[test]
fn empty_index_yields_no_findings() {
    assert!(DagCheck.run(&repo_with(&[])).is_empty());
}

#[test]
fn linear_chain_is_acyclic() {
    let repo = repo_with(&[("a", &["b"]), ("b", &["c"]), ("c", &[])]);
    let f = DagCheck.run(&repo);
    assert!(f.is_empty(), "got {f:?}");
}

#[test]
fn diamond_is_acyclic() {
    let repo = repo_with(&[("a", &["b", "c"]), ("b", &["d"]), ("c", &["d"]), ("d", &[])]);
    let f = DagCheck.run(&repo);
    assert!(f.is_empty(), "got {f:?}");
}

#[test]
fn two_node_cycle_is_flagged() {
    let repo = repo_with(&[("a", &["b"]), ("b", &["a"])]);
    let f = DagCheck.run(&repo);
    assert_eq!(f.len(), 1);
    assert_eq!(f[0].severity, Severity::Error);
    assert_eq!(f[0].category, Category::Dag);
    assert!(f[0].message.contains("cycle"));
    assert!(f[0].message.contains('a'));
    assert!(f[0].message.contains('b'));
}

#[test]
fn three_node_cycle_is_flagged() {
    let repo = repo_with(&[("a", &["b"]), ("b", &["c"]), ("c", &["a"])]);
    let f = DagCheck.run(&repo);
    assert_eq!(f.len(), 1);
    assert!(f[0].message.contains("3 segments"));
}

#[test]
fn self_loop_is_flagged() {
    let repo = repo_with(&[("solo", &["solo"])]);
    let f = DagCheck.run(&repo);
    assert_eq!(f.len(), 1);
    assert!(f[0].message.contains("blocks itself"), "got {}", f[0].message);
}

#[test]
fn two_independent_cycles_each_get_a_finding() {
    let repo = repo_with(&[("a", &["b"]), ("b", &["a"]), ("x", &["y"]), ("y", &["x"])]);
    assert_eq!(DagCheck.run(&repo).len(), 2);
}

#[test]
fn unknown_block_targets_are_ignored_for_cycle_purposes() {
    let repo = repo_with(&[("a", &["missing"])]);
    let f = DagCheck.run(&repo);
    assert!(f.is_empty(), "got {f:?}");
}

#[test]
fn cycle_message_lists_members_sorted() {
    let repo = repo_with(&[("b", &["c"]), ("c", &["b"])]);
    let f = DagCheck.run(&repo);
    assert_eq!(f.len(), 1);
    assert!(f[0].message.contains("2 segments form a cycle (b → c)"), "{}", f[0].message);
}

#[test]
fn sort_strings_orders_bytewise() {
    let v = vec!["b".to_string(), "a-z".to_string(), "a".to_string()];
    assert_eq!(sort_strings(v), vec!["a".to_string(), "a-z".to_string(), "b".to_string()]);
}

#[test]
fn only_dag_filter_matches_direct_run() {
    let repo = repo_with(&[("a", &["b"]), ("b", &["a"])]);
    let only = Some(vec![CheckId::Dag]);
    let filtered = run_checks(&default_checks(), &only, &repo);
    let direct = DagCheck.run(&repo);
    assert_eq!(filtered.len(), direct.len());
    assert_eq!(filtered[0].message, direct[0].message);
    assert!(filtered.iter().all(|f| f.check == CheckId::Dag));
    let all = run_checks(&default_checks(), &None, &repo);
    assert!(all.len() > filtered.len(), "schema findings for the missing detail docs too");
}
