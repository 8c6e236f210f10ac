use lid_core::ids::SpecId;
use lid_core::lsp::completion::{
    at_spec_prefix, completions_at_position, cursor_on_boundary, in_references_block,
    CompletionEntry, CompletionKind,
};
use lid_core::lsp::Pos;
use lid_core::model::{ArrowIndex, SpecFile, SpecLine, SpecStatus, Unmapped};
use lid_core::paths::join;
use lid_core::repo::LidRepo;

fn repo_with_specs(ids: &[&str]) -> LidRepo {
    let root = "/repo".to_string();
    let specs = vec![SpecFile {
        path: join(&root, "docs/specs/auth-specs.md"),
        specs: ids
            .iter()
            .enumerate()
            .map(|(i, id)| SpecLine {
                id: SpecId::parse(id).unwrap(),
                status: SpecStatus::Implemented,
                text: format!("text for {id}"),
                line: i + 1,
            })
            .collect(),
        implementing_artifacts: vec![],
        lld: None,
        prefix: None,
    }];
    LidRepo {
        root,
        index: ArrowIndex {
            schema_version: 1,
            last_updated: None,
            taxonomy: vec![],
            arrows: vec![],
            unmapped: Unmapped::default(),
        },
        specs,
        llds: vec![],
        arrow_docs: vec![],
        citations: vec![],
        decision_docs: vec![],
        present_paths: vec![],
    }
}

fn position(line: u32, character: u32) -> Pos {
    Pos { line, character }
}

fn complete(repo: &LidRepo, uri: &str, text: &str, pos: Pos) -> Option<Vec<CompletionEntry>> {
    assert!(cursor_on_boundary(text, pos));
    completions_at_position(repo, uri, text, pos)
}

fn labels(items: &[CompletionEntry]) -> Vec<String> {
    items.iter().map(|i| i.label.clone()).collect()
}

#[test]
fn after_at_spec_space_offers_all_specs() {
    let repo = repo_with_specs(&["AUTH-001", "BILL-002"]);
    let resp = complete(&repo, "file:///repo/src/auth.rs", "// @spec ", position(0, 9)).unwrap();
    assert_eq!(labels(&resp), vec!["AUTH-001", "BILL-002"]);
}

#[test]
fn prefix_filters_by_start() {
    let repo = repo_with_specs(&["AUTH-001", "AUTH-002", "BILL-001"]);
    let resp = complete(&repo, "file:///repo/src/auth.rs", "// @spec AU", position(0, 11)).unwrap();
    assert_eq!(labels(&resp), vec!["AUTH-001", "AUTH-002"]);
}

#[test]
fn full_prefix_returns_single_exact_match() {
    let repo = repo_with_specs(&["AUTH-001", "AUTH-002"]);
    let resp =
        complete(&repo, "file:///repo/src/auth.rs", "// @spec AUTH-001", position(0, 17)).unwrap();
    assert_eq!(labels(&resp), vec!["AUTH-001"]);
}

#[test]
fn after_comma_offers_all_specs_again() {
    let repo = repo_with_specs(&["AUTH-001", "BILL-002"]);
    let resp =
        complete(&repo, "file:///repo/src/auth.rs", "// @spec AUTH-001, ", position(0, 19)).unwrap();
    assert_eq!(labels(&resp), vec!["AUTH-001", "BILL-002"]);
}

#[test]
fn after_comma_with_prefix_filters() {
    let repo = repo_with_specs(&["AUTH-001", "AUTH-002", "BILL-003"]);
    let resp =
        complete(&repo, "file:///repo/src/auth.rs", "// @spec AUTH-001, B", position(0, 20)).unwrap();
    assert_eq!(labels(&resp), vec!["BILL-003"]);
}

#[test]
fn outside_at_spec_context_returns_none() {
    let repo = repo_with_specs(&["AUTH-001"]);
    assert!(complete(&repo, "file:///repo/src/auth.rs", "fn login() {}", position(0, 5)).is_none());
}

#[test]
fn pseudo_keyword_does_not_trigger() {
    let repo = repo_with_specs(&["AUTH-001"]);
    let text = "// @specification of AUTH-";
    assert!(complete(&repo, "file:///repo/src/auth.rs", text, position(0, 26)).is_none());
}

#[test]
fn lowercase_after_at_spec_does_not_trigger() {
    let repo = repo_with_specs(&["AUTH-001"]);
    assert!(complete(&repo, "file:///repo/src/auth.rs", "// @spec foo", position(0, 12)).is_none());
}

#[test]
fn completion_item_carries_status_and_docs() {
    let repo = repo_with_specs(&["AUTH-001"]);
    let items = complete(&repo, "file:///repo/src/auth.rs", "// @spec ", position(0, 9)).unwrap();
    assert_eq!(items.len(), 1);
    let item = &items[0];
    assert_eq!(item.label, "AUTH-001");
    assert_eq!(item.kind, CompletionKind::Reference);
    assert!(item.detail.contains("implemented"));
    assert!(item.documentation.contains("AUTH-001"));
    assert!(item.documentation.contains("text for AUTH-001"));
}

#[test]
fn empty_repo_returns_empty_array() {
    let repo = repo_with_specs(&[]);
    let resp = complete(&repo, "file:///repo/src/auth.rs", "// @spec ", position(0, 9)).unwrap();
    assert_eq!(labels(&resp), Vec::<String>::new());
}

const ARROW_URI: &str = "file:///repo/docs/arrows/auth.md";
const NON_ARROW_URI: &str = "file:///repo/docs/intent/auth/auth-design.md";

const ARROW_TEXT: &str = "\
# Arrow: auth

## Status

ok

## References

### ";

#[test]
fn section_completions_trigger_on_triple_hash_in_references() {
    let repo = repo_with_specs(&[]);
    let resp = complete(&repo, ARROW_URI, ARROW_TEXT, position(8, 4)).unwrap();
    assert_eq!(labels(&resp).len(), 5);
}

#[test]
fn section_completions_return_five_items_with_docs() {
    let repo = repo_with_specs(&[]);
    let items = complete(&repo, ARROW_URI, ARROW_TEXT, position(8, 4)).unwrap();
    assert_eq!(items.len(), 5);
    let expected = ["HLD", "LLD", "EARS", "Tests", "Code"];
    for (item, name) in items.iter().zip(expected) {
        assert_eq!(item.label, name);
        assert_eq!(item.kind, CompletionKind::Keyword);
        assert_eq!(item.detail, format!("### {name}"));
        assert!(!item.documentation.is_empty());
    }
}

#[test]
fn section_completions_do_not_trigger_in_non_arrow_doc() {
    let repo = repo_with_specs(&[]);
    assert!(complete(&repo, NON_ARROW_URI, ARROW_TEXT, position(8, 4)).is_none());
}

#[test]
fn section_completions_do_not_trigger_outside_references_block() {
    let repo = repo_with_specs(&[]);
    let text = "\
## Architecture

### ";
    assert!(complete(&repo, ARROW_URI, text, position(2, 4)).is_none());
}

#[test]
fn section_completions_do_not_trigger_after_later_h2_overrides_references() {
    let repo = repo_with_specs(&[]);
    let text = "\
## References

### HLD

- docs/hld.md

## Architecture

### ";
    assert!(complete(&repo, ARROW_URI, text, position(8, 4)).is_none());
}

#[test]
fn section_completions_do_not_trigger_on_double_hash() {
    let repo = repo_with_specs(&[]);
    let text = "\
## References

## ";
    assert!(complete(&repo, ARROW_URI, text, position(2, 3)).is_none());
}

#[test]
fn in_references_block_false_with_no_preceding_h2() {
    assert!(!in_references_block("### ", 0));
    assert!(!in_references_block("some prose\n### ", 1));
}

#[test]
fn in_references_block_true_under_references_h2() {
    assert!(in_references_block("## References\n\n### ", 2));
}

#[test]
fn cursor_inside_multibyte_char_is_not_a_boundary() {
    assert!(!cursor_on_boundary("// é", position(0, 4)));
    assert!(cursor_on_boundary("// é", position(0, 5)));
    assert!(cursor_on_boundary("// é", position(0, 40)));
}

#[test]
fn at_spec_prefix_returns_typed_text() {
    assert_eq!(at_spec_prefix("// @spec AU"), Some("AU".to_string()));
    assert_eq!(at_spec_prefix("// @spec "), Some(String::new()));
    assert_eq!(at_spec_prefix("// nothing"), None);
}

#[test]
fn completions_come_sorted_by_label() {
    let repo = repo_with_specs(&["AUTH-010", "AUTH-002", "AUTH-001"]);
    let text = "// @spec ";
    let items = complete(&repo, "file:///repo/src/lib.rs", text, position(0, 9)).unwrap();
    assert_eq!(labels(&items), vec!["AUTH-001", "AUTH-002", "AUTH-010"]);
}
