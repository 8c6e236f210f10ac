use lid_core::ids::SpecId;
use lid_core::lsp::references::{locations_for, reference_sites_of, references_at_position};
use lid_core::lsp::{spec_id_at_cursor, Pos};
use lid_core::model::{ArrowIndex, CitationKind, SpecCitation, SpecFile, SpecLine, SpecStatus, Unmapped};
use lid_core::paths::join;
use lid_core::repo::LidRepo;

const ROOT: &str = "/repo";

fn make_repo(spec_ids: &[&str], citations: Vec<SpecCitation>) -> LidRepo {
    let specs = if spec_ids.is_empty() {
        vec![]
    } else {
        vec![SpecFile {
            path: join(ROOT, "docs/specs/auth-specs.md"),
            specs: spec_ids
                .iter()
                .enumerate()
                .map(|(i, id)| SpecLine {
                    id: SpecId::parse(id).unwrap(),
                    status: SpecStatus::Implemented,
                    text: "stub".into(),
                    line: i + 1,
                })
                .collect(),
            implementing_artifacts: vec![],
            lld: None,
            prefix: None,
        }]
    };
    LidRepo {
        root: ROOT.to_string(),
        index: ArrowIndex {
            schema_version: 1,
            last_updated: None,
            taxonomy: vec![],
            arrows: vec![],
            unmapped: Unmapped::default(),
        },
        specs,
        llds: vec![],
        arrow_docs: vec![],
        citations,
        decision_docs: vec![],
        present_paths: vec![],
    }
}

fn citation(id: &str, rel: &str, line: usize) -> SpecCitation {
    SpecCitation { id: SpecId::parse(id).unwrap(), file: join(ROOT, rel), line, kind: CitationKind::Code }
}

fn position(line: u32, character: u32) -> Pos {
    Pos { line, character }
}

#[test]
fn cursor_on_citation_returns_all_locations() {
    let repo = make_repo(
        &["AUTH-001"],
        vec![citation("AUTH-001", "src/a.rs", 12), citation("AUTH-001", "tests/b.rs", 5)],
    );
    let locs = references_at_position(&repo, "// @spec AUTH-001\n", position(0, 12), true).unwrap();
    assert_eq!(locs.len(), 3);
}

#[test]
fn cursor_on_definition_returns_all_locations() {
    let repo = make_repo(&["AUTH-001"], vec![citation("AUTH-001", "src/a.rs", 12)]);
    let text = "- [x] **AUTH-001**: requirement\n";
    let locs = references_at_position(&repo, text, position(0, 10), true).unwrap();
    assert_eq!(locs.len(), 2);
}

#[test]
fn include_declaration_false_omits_definition() {
    let repo = make_repo(&["AUTH-001"], vec![citation("AUTH-001", "src/a.rs", 12)]);
    let locs = references_at_position(&repo, "// @spec AUTH-001\n", position(0, 12), false).unwrap();
    assert_eq!(locs.len(), 1);
    assert!(locs[0].uri.ends_with("src/a.rs"));
    assert_eq!(locs[0].range.start.line, 11);
}

#[test]
fn cursor_outside_any_spec_id_returns_none() {
    let repo = make_repo(&["AUTH-001"], vec![]);
    assert!(references_at_position(&repo, "// @spec AUTH-001\n", position(0, 2), true).is_none());
}

#[test]
fn unknown_spec_at_cursor_returns_empty_when_no_locations() {
    let repo = make_repo(&["AUTH-001"], vec![]);
    let locs = references_at_position(&repo, "// @spec UNKNOWN-001\n", position(0, 12), true).unwrap();
    assert!(locs.is_empty(), "got {locs:?}");
}

#[test]
fn spec_id_at_cursor_picks_definition_over_citation_when_both_match() {
    let id = spec_id_at_cursor("- [x] **AUTH-001**: text\n", position(0, 10)).unwrap();
    assert_eq!(id.as_str(), "AUTH-001");
}

#[test]
fn sites_list_definition_then_citations() {
    let repo = make_repo(&["AUTH-001"], vec![citation("AUTH-001", "src/a.rs", 12)]);
    let id = SpecId::parse("AUTH-001").unwrap();
    let sites = reference_sites_of(&repo, &id, true);
    assert_eq!(
        sites,
        vec![
            ("/repo/docs/specs/auth-specs.md".to_string(), 1),
            ("/repo/src/a.rs".to_string(), 12)
        ]
    );
    let locs = locations_for(&sites, &vec![Some("u1".to_string()), None]);
    assert_eq!(locs.len(), 1);
    assert_eq!(locs[0].uri, "u1");
}
