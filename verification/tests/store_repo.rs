use lid_core::error::LidError;
use lid_core::model::{ArrowDoc, ArrowIndex, ArrowReferences, DecisionScope, Unmapped};
use lid_core::repo::{
    check_schema_version, decision_scope_of, discover_candidates, index_yaml_of, is_md_artifact, is_non_artifact_filename,
    is_present, is_supported_schema_version, select_md_paths, LidRepo,
};
use lid_core::store::DocStore;

#[test]
fn empty_store_returns_none() {
    let store = DocStore::new();
    assert!(store.get("file:///missing").is_none());
    assert_eq!(store.len(), 0);
    assert!(store.is_empty());
}

#[test]
fn upsert_then_get_round_trips() {
    let mut store = DocStore::new();
    store.upsert("file:///a", "hello".to_owned(), 1);
    let doc = store.get("file:///a").unwrap();
    assert_eq!(doc.text, "hello");
    assert_eq!(doc.version, 1);
    assert_eq!(doc.uri, "file:///a");
}

#[test]
fn upsert_replaces_existing_entry() {
    let mut store = DocStore::new();
    store.upsert("file:///a", "v1".to_owned(), 1);
    store.upsert("file:///a", "v2".to_owned(), 2);
    let doc = store.get("file:///a").unwrap();
    assert_eq!(doc.text, "v2");
    assert_eq!(doc.version, 2);
    assert_eq!(store.len(), 1);
}

#[test]
fn remove_drops_entry() {
    let mut store = DocStore::new();
    store.upsert("file:///a", "hello".to_owned(), 1);
    let removed = store.remove("file:///a").unwrap();
    assert_eq!(removed.text, "hello");
    assert!(store.get("file:///a").is_none());
}

#[test]
fn remove_returns_none_for_unknown_uri() {
    let mut store = DocStore::new();
    assert!(store.remove("file:///missing").is_none());
}

#[test]
fn reader_snapshot_outlives_concurrent_writer() {
    let mut store = DocStore::new();
    store.upsert("file:///a", "old".to_owned(), 1);
    let snapshot = store.get("file:///a").unwrap();
    store.upsert("file:///a", "new".to_owned(), 2);
    assert_eq!(snapshot.text, "old");
    assert_eq!(store.get("file:///a").unwrap().text, "new");
}

#[test]
fn other_buffers_are_untouched_by_writes() {
    let mut store = DocStore::new();
    store.upsert("file:///a", "a".to_owned(), 1);
    store.upsert("file:///b", "b".to_owned(), 1);
    let _ = store.remove("file:///a");
    assert_eq!(store.get("file:///b").unwrap().text, "b");
    assert_eq!(store.len(), 1);
}

#[test]
fn discovery_candidates_walk_upward() {
    assert_eq!(
        discover_candidates("/a/b/c"),
        vec!["/a/b/c".to_string(), "/a/b".to_string(), "/a".to_string(), "/".to_string()]
    );
    assert_eq!(index_yaml_of("/a"), "/a/docs/arrows/index.yaml");
}

#[test]
fn discover_skips_readme_and_underscore_files() {
    assert!(is_non_artifact_filename("/r/docs/arrows/README.md"));
    assert!(is_non_artifact_filename("/r/docs/arrows/readme.MD"));
    assert!(is_non_artifact_filename("/r/docs/intent/auth/_template.md"));
    assert!(!is_non_artifact_filename("/r/docs/arrows/auth.md"));
    assert!(is_md_artifact("/r/x/auth-specs.md", "-specs.md"));
    assert!(!is_md_artifact("/r/x/_a-specs.md", "-specs.md"));
    assert!(!is_md_artifact("/r/x/auth-specs.txt", "-specs.md"));
}

#[test]
fn markdown_selection_is_sorted_and_filtered() {
    let paths = vec![
        "/r/docs/arrows/b.md".to_string(),
        "/r/docs/arrows/README.md".to_string(),
        "/r/docs/arrows/a.md".to_string(),
        "/r/docs/arrows/x.yaml".to_string(),
    ];
    assert_eq!(
        select_md_paths(&paths, ".md"),
        vec!["/r/docs/arrows/a.md".to_string(), "/r/docs/arrows/b.md".to_string()]
    );
}

#[test]
fn decision_scopes_follow_location() {
    assert!(matches!(
        decision_scope_of("/r", "/r/docs/decisions/arch.md"),
        Some(DecisionScope::Project)
    ));
    match decision_scope_of("/r", "/r/docs/intent/auth/decisions/token.md") {
        Some(DecisionScope::Node { segment }) => assert_eq!(segment, "auth"),
        other => panic!("unexpected {other:?}"),
    }
    assert!(decision_scope_of("/r", "/r/src/x.md").is_none());
}

fn index(v: u32) -> ArrowIndex {
    ArrowIndex { schema_version: v, last_updated: None, taxonomy: vec![], arrows: vec![], unmapped: Unmapped::default() }
}

#[test]
fn unsupported_schema_version_is_refused() {
    assert!(is_supported_schema_version(2));
    assert!(!is_supported_schema_version(1));
    let err = LidRepo::assemble("/r".into(), index(1), vec![], vec![], vec![], vec![], vec![]).unwrap_err();
    match err {
        LidError::UnsupportedSchemaVersion { found, supported } => {
            assert_eq!(found, 1);
            assert_eq!(supported, vec![2]);
        }
        other => panic!("unexpected {other:?}"),
    }
    let repo = LidRepo::assemble("/r".into(), index(2), vec![], vec![], vec![], vec![], vec![]).unwrap();
    assert!(repo.present_paths.is_empty());
}

#[test]
fn probe_paths_lists_resolved_references() {
    let mut repo = LidRepo::assemble("/r".into(), index(2), vec![], vec![], vec![], vec![], vec![]).unwrap();
    repo.arrow_docs.push(ArrowDoc {
        path: "/r/docs/arrows/a.md".to_string(),
        references: ArrowReferences { lld: vec!["`docs/x.md` — y".into(), "prose".into()], ..Default::default() },
        unrecognized_reference_sections: vec![],
    });
    let probes = repo.probe_paths();
    assert!(probes.contains(&"/r/docs/x.md".to_string()), "{probes:?}");
    assert!(is_present(&vec!["/r/docs/./x.md".to_string()], "/r/docs/x.md"));
}

#[test]
fn schema_version_is_checked_on_its_own() {
    assert!(check_schema_version(2).is_ok());
    assert!(matches!(
        check_schema_version(3),
        Err(LidError::UnsupportedSchemaVersion { found: 3, .. })
    ));
}
