use lid_core::ids::SpecId;
use lid_core::lsp::rename::{
    path_less, plan_rename, prepare_rename_at_position, rename_edits, sorted_path_set, FileEdits,
    RenameError, RenamePlan,
};
use lid_core::lsp::symbols::list_symbols;
use lid_core::lsp::Pos;
use lid_core::model::{ArrowIndex, CitationKind, SpecCitation, SpecFile, SpecLine, SpecStatus, Unmapped};
use lid_core::paths::join;
use lid_core::repo::LidRepo;
use lid_core::store::DocStore;

const ROOT: &str = "/repo";
const SPEC_URI: &str = "file:///repo/docs/specs/auth-specs.md";
const SRC_URI: &str = "file:///repo/src/auth.rs";

fn base_repo(specs: Vec<SpecFile>, citations: Vec<SpecCitation>) -> LidRepo {
    LidRepo {
        root: ROOT.to_string(),
        index: ArrowIndex {
            schema_version: 1,
            last_updated: None,
            taxonomy: vec![],
            arrows: vec![],
            unmapped: Unmapped::default(),
        },
        specs,
        llds: vec![],
        arrow_docs: vec![],
        citations,
        decision_docs: vec![],
        present_paths: vec![],
    }
}

fn spec_line(id: &str, line: usize) -> SpecLine {
    SpecLine { id: SpecId::parse(id).unwrap(), status: SpecStatus::Implemented, text: "text".into(), line }
}

fn make_repo(spec_line_for_old: usize, source_line_for_old: usize) -> LidRepo {
    base_repo(
        vec![SpecFile {
            path: join(ROOT, "docs/specs/auth-specs.md"),
            specs: vec![spec_line("AUTH-001", spec_line_for_old)],
            implementing_artifacts: vec![],
            lld: None,
            prefix: None,
        }],
        vec![SpecCitation {
            id: SpecId::parse("AUTH-001").unwrap(),
            file: join(ROOT, "src/auth.rs"),
            line: source_line_for_old,
            kind: CitationKind::Code,
        }],
    )
}

fn position(line: u32, character: u32) -> Pos {
    Pos { line, character }
}

fn plan_of(repo: &LidRepo, text: &str, pos: Pos, new_name: &str) -> RenamePlan {
    plan_rename(repo, text, pos, new_name).unwrap().unwrap()
}

/// The edits of `plan` with the spec file and the source file read as given.
fn edits_with(plan: &RenamePlan, spec: &str, source: &str) -> Vec<FileEdits> {
    assert_eq!(plan.spec_paths, vec!["/repo/docs/specs/auth-specs.md".to_string()]);
    let cite_reads = plan
        .citation_paths
        .iter()
        .map(|_| Some((SRC_URI.to_string(), source.to_string())))
        .collect();
    rename_edits(plan, &vec![Some((SPEC_URI.to_string(), spec.to_string()))], &cite_reads)
}

#[test]
fn prepare_rename_on_citation_returns_range() {
    let r = prepare_rename_at_position("// @spec AUTH-001\n", position(0, 12)).unwrap();
    assert_eq!(r.start.line, 0);
    assert_eq!(r.start.character, 9);
    assert_eq!(r.end.character, 17);
}

#[test]
fn prepare_rename_on_definition_returns_range() {
    let r = prepare_rename_at_position("- [x] **AUTH-001**: text\n", position(0, 10)).unwrap();
    assert_eq!(r.start.character, 8);
    assert_eq!(r.end.character, 16);
}

#[test]
fn prepare_rename_outside_spec_returns_none() {
    assert!(prepare_rename_at_position("fn login() {}\n", position(0, 5)).is_none());
}

#[test]
fn rename_edits_definition_and_citation() {
    let spec = "# auth\n\n- [x] **AUTH-001**: text\n";
    let source = "// @spec AUTH-001\nfn login() {}\n";
    let repo = make_repo(3, 1);
    let plan = plan_of(&repo, "// @spec AUTH-001\n", position(0, 12), "AUTH-LOGIN-001");
    let changes = edits_with(&plan, spec, source);
    assert_eq!(changes.len(), 2, "spec file + source file");
    for f in &changes {
        assert!(!f.edits.is_empty());
        for e in &f.edits {
            assert_eq!(e.new_text, "AUTH-LOGIN-001");
        }
    }
}

#[test]
fn rename_to_same_name_is_a_noop() {
    let repo = make_repo(1, 1);
    let r = plan_rename(&repo, "- [x] **AUTH-001**: text\n", position(0, 10), "AUTH-001").unwrap();
    assert!(r.is_none());
}

#[test]
fn rename_to_invalid_name_returns_error() {
    let repo = make_repo(1, 1);
    let err = plan_rename(&repo, "- [x] **AUTH-001**: text\n", position(0, 10), "lowercase").unwrap_err();
    assert!(matches!(err, RenameError::InvalidNewName { .. }), "{err:?}");
    assert_eq!(err.message(), "`lowercase` is not a valid spec ID");
}

#[test]
fn rename_to_existing_id_errors_with_collision() {
    let spec = "- [x] **AUTH-001**: text\n- [ ] **AUTH-002**: text\n";
    let repo = base_repo(
        vec![SpecFile {
            path: join(ROOT, "docs/specs/auth-specs.md"),
            specs: vec![spec_line("AUTH-001", 1), spec_line("AUTH-002", 2)],
            implementing_artifacts: vec![],
            lld: None,
            prefix: None,
        }],
        vec![],
    );
    let err = plan_rename(&repo, spec, position(0, 10), "AUTH-002").unwrap_err();
    assert!(matches!(err, RenameError::Collision { .. }), "{err:?}");
    assert_eq!(err.message(), "spec ID `AUTH-002` is already in use");
}

#[test]
fn rename_with_cursor_outside_spec_errors_not_on_spec() {
    let repo = make_repo(1, 1);
    let err = plan_rename(&repo, "fn x() {}\n", position(0, 2), "AUTH-002").unwrap_err();
    assert!(matches!(err, RenameError::NotOnSpec), "{err:?}");
    assert_eq!(err.message(), "cursor is not on a spec ID");
}

#[test]
fn rename_edit_byte_ranges_match_old_spec_id_spans() {
    let spec = "# auth\n\n- [x] **AUTH-001**: text\n";
    let source = "// @spec AUTH-001\nfn login() {}\n";
    let repo = make_repo(3, 1);
    let plan = plan_of(&repo, "// @spec AUTH-001\n", position(0, 12), "AUTH-LOGIN-001");
    let changes = edits_with(&plan, spec, source);
    for f in &changes {
        assert_eq!(f.edits.len(), 1, "one edit per affected URI");
        let r = &f.edits[0].range;
        if f.uri.ends_with("auth-specs.md") {
            assert_eq!(r.start.line, 2);
            assert_eq!(r.start.character, 8);
            assert_eq!(r.end.character, 16);
        } else {
            assert_eq!(r.start.line, 0);
            assert_eq!(r.start.character, 9);
            assert_eq!(r.end.character, 17);
        }
    }
}

#[test]
fn rename_reads_buffer_content_when_url_is_in_store() {
    let on_disk = "# auth\n\n- [x] **AUTH-001**: text\n";
    let repo = make_repo(3, 1);
    let buffer_text = "# auth\n\nan extra paragraph\n\n- [x] **AUTH-001**: text\n";
    let mut store = DocStore::new();
    let _ = store.upsert(SPEC_URI, buffer_text.to_owned(), 1);
    let plan = plan_of(&repo, "// @spec AUTH-001\n", position(0, 12), "AUTH-LOGIN-001");
    let spec_text = match store.get(SPEC_URI) {
        Some(doc) => doc.text,
        None => on_disk.to_string(),
    };
    let changes = edits_with(&plan, &spec_text, "fn x() {}\n");
    let spec_edits = &changes.iter().find(|f| f.uri == SPEC_URI).unwrap().edits;
    assert_eq!(spec_edits.len(), 1);
    assert_eq!(spec_edits[0].range.start.line, 4);
    assert_eq!(spec_edits[0].range.start.character, 8);
    assert_eq!(spec_edits[0].range.end.character, 16);
}

#[test]
fn unreadable_files_contribute_no_edits() {
    let repo = make_repo(1, 1);
    let plan = plan_of(&repo, "// @spec AUTH-001\n", position(0, 12), "AUTH-9");
    let changes = rename_edits(&plan, &vec![None], &vec![None]);
    assert!(changes.is_empty());
}

#[test]
fn citation_paths_are_sorted_and_unique() {
    let v = vec!["/b/x".to_string(), "/a/y".to_string(), "/b/x".to_string()];
    assert_eq!(sorted_path_set(&v), vec!["/a/y".to_string(), "/b/x".to_string()]);
    assert!(path_less("/a/b", "/a/c"));
    assert!(!path_less("/a/c", "/a/b"));
}

// ---- workspace symbols

fn sym_repo(specs_by_file: &[(&str, &[&str])]) -> LidRepo {
    base_repo(
        specs_by_file
            .iter()
            .map(|(file_rel, ids)| SpecFile {
                path: join(ROOT, file_rel),
                specs: ids.iter().enumerate().map(|(i, id)| spec_line(id, i + 1)).collect(),
                implementing_artifacts: vec![],
                lld: None,
                prefix: None,
            })
            .collect(),
        vec![],
    )
}

#[test]
fn empty_query_returns_every_spec_sorted() {
    let repo = sym_repo(&[
        ("docs/specs/auth-specs.md", &["AUTH-002", "AUTH-001"]),
        ("docs/specs/billing-specs.md", &["BILL-001"]),
    ]);
    let names: Vec<_> = list_symbols(&repo, "").iter().map(|s| s.name.clone()).collect();
    assert_eq!(names, vec!["AUTH-001", "AUTH-002", "BILL-001"]);
}

#[test]
fn query_filters_case_insensitive_substring() {
    let repo = sym_repo(&[
        ("docs/specs/auth-specs.md", &["AUTH-001", "AUTH-002"]),
        ("docs/specs/billing-specs.md", &["BILL-001"]),
    ]);
    let names: Vec<_> = list_symbols(&repo, "auth").iter().map(|s| s.name.clone()).collect();
    assert_eq!(names, vec!["AUTH-001", "AUTH-002"]);
}

#[test]
fn query_matches_middle_of_id() {
    let repo = sym_repo(&[("docs/specs/auth-specs.md", &["AUTH-001", "BILL-001"])]);
    assert_eq!(list_symbols(&repo, "-00").len(), 2);
}

#[test]
fn symbols_carry_container_name() {
    let repo = sym_repo(&[("docs/specs/auth-specs.md", &["AUTH-001"])]);
    let symbols = list_symbols(&repo, "");
    assert_eq!(symbols.len(), 1);
    assert_eq!(symbols[0].container.as_deref(), Some("auth-specs.md"));
}

#[test]
fn symbol_location_points_at_correct_line() {
    let repo = sym_repo(&[("docs/specs/auth-specs.md", &["AUTH-001", "AUTH-002"])]);
    let symbols = list_symbols(&repo, "");
    assert_eq!(symbols[0].range.start.line, 0);
    assert_eq!(symbols[1].range.start.line, 1);
}

#[test]
fn empty_repo_returns_empty_list() {
    assert!(list_symbols(&sym_repo(&[]), "").is_empty());
}
