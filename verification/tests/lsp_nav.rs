use lid_core::ids::SpecId;
use lid_core::lsp::{
    byte_range_to_lsp_range, definition_at_position, hover_at_position, line_at, saturate_u32,
    spec_id_at_cursor, status_label, whole_line, Pos,
};
use lid_core::model::{ArrowIndex, CitationKind, SpecCitation, SpecFile, SpecLine, SpecStatus, Unmapped};
use lid_core::paths::join;
use lid_core::repo::LidRepo;

fn make_repo_with_citations(
    spec_text: &str,
    spec_status: SpecStatus,
    line: usize,
    citation_lines: &[(&str, usize, CitationKind)],
) -> LidRepo {
    let root = "/repo".to_string();
    let citations = citation_lines
        .iter()
        .map(|(path, line, kind)| SpecCitation {
            id: SpecId::parse("AUTH-001").unwrap(),
            file: join(&root, path),
            line: *line,
            kind: *kind,
        })
        .collect();
    LidRepo {
        root: root.clone(),
        index: ArrowIndex {
            schema_version: 1,
            last_updated: None,
            taxonomy: vec![],
            arrows: vec![],
            unmapped: Unmapped::default(),
        },
        specs: vec![SpecFile {
            path: join(&root, "docs/specs/auth-specs.md"),
            specs: vec![SpecLine {
                id: SpecId::parse("AUTH-001").unwrap(),
                status: spec_status,
                text: spec_text.to_owned(),
                line,
            }],
            implementing_artifacts: vec![],
            lld: None,
            prefix: None,
        }],
        llds: vec![],
        arrow_docs: vec![],
        citations,
        decision_docs: vec![],
        present_paths: vec![],
    }
}

fn repo_with_spec(line: usize) -> LidRepo {
    make_repo_with_citations("text", SpecStatus::Implemented, line, &[])
}

fn position(line: u32, character: u32) -> Pos {
    Pos { line, character }
}

// ---- go to definition

#[test]
fn cursor_inside_citation_returns_spec_location() {
    let repo = repo_with_spec(5);
    let loc = definition_at_position(&repo.specs, "// @spec AUTH-001\n", position(0, 12)).unwrap();
    assert!(loc.uri.ends_with("docs/specs/auth-specs.md"), "got: {}", loc.uri);
    assert!(loc.uri.starts_with("file:///"), "got: {}", loc.uri);
    assert_eq!(loc.range.start.line, 4);
    assert_eq!(loc.range.end.line, 5);
}

#[test]
fn cursor_outside_citation_returns_none() {
    let repo = repo_with_spec(5);
    assert!(definition_at_position(&repo.specs, "// @spec AUTH-001\n", position(0, 2)).is_none());
}

#[test]
fn cursor_on_unknown_spec_returns_none() {
    let repo = repo_with_spec(5);
    assert!(definition_at_position(&repo.specs, "// @spec UNKNOWN-001\n", position(0, 12)).is_none());
}

#[test]
fn past_eof_returns_none() {
    let repo = repo_with_spec(5);
    assert!(definition_at_position(&repo.specs, "// @spec AUTH-001\n", position(99, 0)).is_none());
}

#[test]
fn line_one_translates_to_lsp_zero() {
    let repo = repo_with_spec(1);
    let loc = definition_at_position(&repo.specs, "// @spec AUTH-001\n", position(0, 12)).unwrap();
    assert_eq!(loc.range.start.line, 0);
    assert_eq!(loc.range.end.line, 1);
}

// ---- hover

#[test]
fn citation_hover_inside_spec_id_returns_spec_text() {
    let repo = make_repo_with_citations("logs in", SpecStatus::Implemented, 5, &[]);
    let hover = hover_at_position(&repo, "// @spec AUTH-001\n", position(0, 12)).unwrap();
    let m = hover.markdown;
    assert!(m.contains("AUTH-001"), "got: {m}");
    assert!(m.contains("logs in"), "got: {m}");
    assert!(m.contains("Defined at"), "got: {m}");
}

#[test]
fn citation_hover_outside_spec_id_returns_none() {
    let repo = repo_with_spec(5);
    assert!(hover_at_position(&repo, "// @spec AUTH-001\n", position(0, 2)).is_none());
}

#[test]
fn citation_hover_at_left_edge_of_spec_id_resolves() {
    let repo = repo_with_spec(5);
    assert!(hover_at_position(&repo, "// @spec AUTH-001\n", position(0, 9)).is_some());
}

#[test]
fn citation_hover_at_right_edge_of_spec_id_resolves() {
    let repo = repo_with_spec(5);
    assert!(hover_at_position(&repo, "// @spec AUTH-001\n", position(0, 17)).is_some());
}

#[test]
fn citation_hover_for_unknown_spec_returns_none() {
    let repo = repo_with_spec(5);
    assert!(hover_at_position(&repo, "// @spec UNKNOWN-001\n", position(0, 12)).is_none());
}

#[test]
fn citation_hover_on_line_without_at_spec_returns_none() {
    let repo = repo_with_spec(5);
    assert!(hover_at_position(&repo, "const SPECS = ['AUTH-001'];\n", position(0, 18)).is_none());
}

#[test]
fn hover_past_eof_returns_none() {
    let repo = repo_with_spec(5);
    assert!(hover_at_position(&repo, "// @spec AUTH-001\n", position(99, 0)).is_none());
}

#[test]
fn citation_hover_picks_correct_id_when_line_has_multiple() {
    let repo = repo_with_spec(5);
    assert!(hover_at_position(&repo, "// @spec AUTH-001, AUTH-002\n", position(0, 22)).is_none());
}

#[test]
fn definition_hover_shows_citation_list() {
    let repo = make_repo_with_citations(
        "When the user logs in, …",
        SpecStatus::Implemented,
        5,
        &[("src/auth/login.ts", 42, CitationKind::Code), ("tests/auth.test.ts", 5, CitationKind::Test)],
    );
    let text = "- [x] **AUTH-001**: When the user logs in, …\n";
    let m = hover_at_position(&repo, text, position(0, 10)).unwrap().markdown;
    assert!(m.contains("AUTH-001"), "got: {m}");
    assert!(m.contains("`[x]` implemented"), "got: {m}");
    assert!(m.contains("Cited in 2 places"), "got: {m}");
    assert!(m.contains("src/auth/login.ts:42"), "got: {m}");
    assert!(m.contains("tests/auth.test.ts:5"), "got: {m}");
}

#[test]
fn definition_hover_with_no_citations_says_so() {
    let repo = make_repo_with_citations("text", SpecStatus::Open, 5, &[]);
    let m = hover_at_position(&repo, "- [ ] **AUTH-001**: text\n", position(0, 10)).unwrap().markdown;
    assert!(m.contains("No `@spec` citations"), "got: {m}");
    assert!(m.contains("`[ ]` open"), "got: {m}");
}

#[test]
fn definition_hover_singular_when_one_citation() {
    let repo = make_repo_with_citations(
        "text",
        SpecStatus::Implemented,
        5,
        &[("src/x.rs", 1, CitationKind::Code)],
    );
    let m = hover_at_position(&repo, "- [x] **AUTH-001**: text\n", position(0, 10)).unwrap().markdown;
    assert!(m.contains("Cited in 1 place:"), "got: {m}");
    assert!(!m.contains("1 places"), "expected singular");
}

#[test]
fn definition_hover_outside_id_span_returns_none() {
    let repo = make_repo_with_citations("text", SpecStatus::Open, 5, &[]);
    assert!(hover_at_position(&repo, "- [x] **AUTH-001**: text\n", position(0, 22)).is_none());
}

#[test]
fn definition_hover_returns_range_covering_id() {
    let repo = make_repo_with_citations("text", SpecStatus::Open, 5, &[]);
    let hover = hover_at_position(&repo, "- [x] **AUTH-001**: text\n", position(0, 10)).unwrap();
    assert_eq!(hover.range.start.character, 8);
    assert_eq!(hover.range.end.character, 16);
}

#[test]
fn definition_hover_returns_none_on_non_spec_line() {
    let repo = make_repo_with_citations("text", SpecStatus::Open, 5, &[]);
    assert!(hover_at_position(&repo, "## Section header\n", position(0, 5)).is_none());
}

// ---- position helpers

#[test]
fn positions_convert_and_saturate() {
    assert_eq!(saturate_u32(7), 7);
    assert_eq!(saturate_u32(usize::MAX), u32::MAX);
    let r = byte_range_to_lsp_range(3, 8, 16);
    assert_eq!((r.start.line, r.start.character, r.end.line, r.end.character), (3, 8, 3, 16));
    let w = whole_line(5);
    assert_eq!((w.start.line, w.end.line), (4, 5));
    let z = whole_line(0);
    assert_eq!((z.start.line, z.end.line), (0, 1));
}

#[test]
fn line_lookup_and_cursor_id() {
    assert_eq!(line_at("a\nb\n", 1), Some("b".to_string()));
    assert_eq!(line_at("a\nb\n", 2), None);
    let id = spec_id_at_cursor("x @spec AB-12 y", position(0, 10)).unwrap();
    assert_eq!(id.as_str(), "AB-12");
    assert!(spec_id_at_cursor("x @spec AB-12 y", position(0, 1)).is_none());
    assert_eq!(status_label(SpecStatus::Deferred), "`[D]` deferred");
}
