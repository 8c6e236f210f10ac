use lid_core::error::LidError;
use lid_core::ids::SpecId;
use lid_core::model::{ArrowDoc, DecisionScope, LldDoc, SpecFile, SpecStatus};
use lid_core::parse::cmark::{parse_arrow_doc, parse_lld};
use lid_core::parse::markdown::{
    find_spec_line_match, parse_decision_doc, parse_spec_file, render_line, update_spec_status_in_text,
    update_spec_text_in_text,
};

fn parse(content: &str) -> Result<SpecFile, LidError> {
    parse_spec_file(content, "<inline>.md")
}

const UPSTREAM_SHAPED: &str = "\
# arrow-maintenance command-mode specs

**LLD**: docs/llds/arrow-maintenance.md
**Implementing artifacts**:
- plugins/arrow-maintenance/skills/arrow-maintenance/SKILL.md
- plugins/arrow-maintenance/skills/arrow-maintenance/references/index-schema.md

**Scope**: These specs cover the command-mode behavior.

Status markers: `[x]` implemented · `[ ]` active gap · `[D]` deferred

---

## Invocation Dispatch

- [x] **ARROW-MAINT-001**: When the user invokes `/arrow-maintenance`, the system SHALL run an audit-and-update pass.
- [ ] **ARROW-MAINT-002**: Future behavior not yet implemented.
- [D] **ARROW-MAINT-003**: Deferred for a later milestone.
";

#[test]
fn parses_status_markers() {
    let f = parse(UPSTREAM_SHAPED).unwrap();
    assert_eq!(f.specs.len(), 3);
    assert_eq!(f.specs[0].status, SpecStatus::Implemented);
    assert_eq!(f.specs[1].status, SpecStatus::Open);
    assert_eq!(f.specs[2].status, SpecStatus::Deferred);
}

#[test]
fn captures_ids_and_text() {
    let f = parse(UPSTREAM_SHAPED).unwrap();
    assert_eq!(f.specs[0].id.as_str(), "ARROW-MAINT-001");
    assert!(f.specs[0].text.starts_with("When the user invokes"));
}

#[test]
fn captures_line_numbers() {
    let f = parse(UPSTREAM_SHAPED).unwrap();
    assert_eq!(f.specs[0].line, 16);
    assert_eq!(f.specs[1].line, 17);
    assert_eq!(f.specs[2].line, 18);
}

#[test]
fn extracts_lld_header() {
    let f = parse(UPSTREAM_SHAPED).unwrap();
    assert_eq!(f.lld.as_deref(), Some("docs/llds/arrow-maintenance.md"));
}

#[test]
fn extracts_implementing_artifacts() {
    let f = parse(UPSTREAM_SHAPED).unwrap();
    assert_eq!(f.implementing_artifacts.len(), 2);
    assert_eq!(
        f.implementing_artifacts[0],
        "plugins/arrow-maintenance/skills/arrow-maintenance/SKILL.md"
    );
}

#[test]
fn empty_file_returns_empty_spec_file() {
    let f = parse("").unwrap();
    assert!(f.specs.is_empty());
    assert!(f.implementing_artifacts.is_empty());
    assert!(f.lld.is_none());
}

#[test]
fn file_with_no_lld_or_artifacts_still_parses() {
    let content = "\
# Just specs

- [x] **AUTH-001**: text.
- [ ] **AUTH-002**: more text.
";
    let f = parse(content).unwrap();
    assert_eq!(f.specs.len(), 2);
    assert!(f.lld.is_none());
    assert!(f.implementing_artifacts.is_empty());
}

#[test]
fn spec_section_breaks_artifact_capture() {
    let content = "\
**Implementing artifacts**:
- a.md
- b.md

## Body

- [x] **AUTH-001**: text.
";
    let f = parse(content).unwrap();
    assert_eq!(f.implementing_artifacts.len(), 2);
    assert_eq!(f.specs.len(), 1);
}

#[test]
fn artifact_capture_ends_on_non_bullet_line() {
    let content = "\
**Implementing artifacts**:
- a.md
some prose
- not-an-artifact.md
";
    let f = parse(content).unwrap();
    assert_eq!(f.implementing_artifacts.len(), 1);
    assert_eq!(f.implementing_artifacts[0], "a.md");
}

#[test]
fn malformed_spec_id_returns_markdown_error_with_line() {
    let content = "\
# Title

- [x] **A-Z**: invalid because no digit.
";
    let err = parse(content).unwrap_err();
    match err {
        LidError::Markdown { line, .. } => assert_eq!(line, 3),
        other => panic!("expected Markdown error, got {other:?}"),
    }
}

#[test]
fn ignores_non_spec_bullets() {
    let content = "\
- Just a regular bullet, not a spec.
- [x] Also not a spec (no bold id).
- [x] **DONE**: still not a spec (id lacks a hyphen).
";
    let f = parse(content).unwrap();
    assert!(f.specs.is_empty());
}

#[test]
fn find_spec_line_match_extracts_id_with_byte_range() {
    let line = "- [x] **AUTH-001**: requirement text";
    let m = find_spec_line_match(line).unwrap();
    assert_eq!(m.id.as_str(), "AUTH-001");
    assert_eq!(m.status, SpecStatus::Implemented);
    assert_eq!(m.text, "requirement text");
    assert_eq!(&line[m.id_byte_range.clone()], "AUTH-001");
}

#[test]
fn find_spec_line_match_handles_open_and_deferred_markers() {
    let open = find_spec_line_match("- [ ] **AUTH-002**: text").unwrap();
    assert_eq!(open.status, SpecStatus::Open);
    let deferred = find_spec_line_match("- [D] **AUTH-003**: text").unwrap();
    assert_eq!(deferred.status, SpecStatus::Deferred);
}

#[test]
fn find_spec_line_match_returns_none_for_non_spec_lines() {
    assert!(find_spec_line_match("just prose").is_none());
    assert!(find_spec_line_match("- a regular bullet").is_none());
    assert!(find_spec_line_match("- [x] not a spec id").is_none());
}

#[test]
fn find_spec_line_match_byte_range_counts_multibyte_text() {
    let line = "- [x] **ÉTÉ-1**: x";
    assert!(find_spec_line_match(line).is_none());
    let line = "- [x] **AB-1**: héllo";
    let m = find_spec_line_match(line).unwrap();
    assert_eq!(m.id_byte_range, 8..12);
    assert_eq!(m.text, "héllo");
}

#[test]
fn handles_real_upstream_specs_file() {
    let content = "\
**LLD**: docs/llds/arrow-maintenance.md
**Implementing artifacts**:
- plugins/arrow-maintenance/skills/arrow-maintenance/SKILL.md

- [x] **ARROW-MAINT-001**: When the user invokes `/arrow-maintenance` on a project where `docs/arrows/` is present, the system SHALL run an audit-and-update pass.
- [x] **ARROW-MAINT-018**: When an audit detects a candidate split or merge, the system SHALL surface the candidate as a finding.
";
    let f = parse(content).unwrap();
    assert_eq!(f.specs.len(), 2);
    assert_eq!(f.specs[0].id.as_str(), "ARROW-MAINT-001");
    assert_eq!(f.specs[1].id.as_str(), "ARROW-MAINT-018");
    assert_eq!(f.implementing_artifacts.len(), 1);
    assert!(f.lld.is_some());
}

fn arrow(content: &str) -> ArrowDoc {
    parse_arrow_doc(content, "<inline>.md")
}

const ARROW_DOC_SAMPLE: &str = "\
# Arrow: auth

## Status

**OK** — last audited 2026-04-01.

## References

### HLD

- docs/high-level-design.md §Authentication

### LLD

- docs/llds/auth.md

### EARS

- docs/specs/auth-specs.md

### Tests

- tests/auth/login.test.ts
- tests/auth/logout.test.ts

### Code

- src/auth/login.ts
- src/auth/logout.ts

## Spec Coverage

| Category | Spec IDs | Implemented |
| --- | --- | --- |
| auth | AUTH-001 to AUTH-010 | 10 |

## Key Findings

1. Coverage is complete.
";

#[test]
fn arrow_doc_collects_all_reference_categories() {
    let d = arrow(ARROW_DOC_SAMPLE);
    assert_eq!(d.references.hld.len(), 1);
    assert_eq!(d.references.lld, vec!["docs/llds/auth.md".to_owned()]);
    assert_eq!(d.references.ears, vec!["docs/specs/auth-specs.md".to_owned()]);
    assert_eq!(d.references.tests.len(), 2);
    assert_eq!(d.references.code.len(), 2);
}

#[test]
fn arrow_doc_preserves_hld_section_anchor() {
    let d = arrow(ARROW_DOC_SAMPLE);
    assert_eq!(d.references.hld[0], "docs/high-level-design.md §Authentication");
}

#[test]
fn arrow_doc_with_empty_content_yields_empty_references() {
    let d = arrow("");
    assert!(d.references.hld.is_empty());
    assert!(d.references.lld.is_empty());
}

#[test]
fn arrow_doc_ignores_bullets_outside_references_section() {
    let content = "\
## Status
- this is not a reference

## References

### LLD
- docs/llds/auth.md

## Spec Coverage
- also not a reference
";
    let d = arrow(content);
    assert_eq!(d.references.lld, vec!["docs/llds/auth.md".to_owned()]);
    assert!(d.references.hld.is_empty());
    assert!(d.references.tests.is_empty());
}

#[test]
fn arrow_doc_ignores_unknown_subsections() {
    let content = "\
## References

### Future-category

- docs/something.md

### LLD

- docs/llds/auth.md
";
    let d = arrow(content);
    assert_eq!(d.references.lld.len(), 1);
    assert!(d.references.hld.is_empty());
}

fn lld(content: &str) -> LldDoc {
    parse_lld(content, "<inline>.md")
}

#[test]
fn lld_with_no_decisions_section_yields_empty() {
    let content = "\
# LLD: auth

## Context and Design Philosophy

Some prose.

## Plugin Structure

Some prose.
";
    let d = lld(content);
    assert!(d.decisions.is_empty());
}

#[test]
fn lld_extracts_single_decision_row() {
    let content = "\
## Decisions & Alternatives

| Decision | Chosen | Alternatives | Rationale |
| --- | --- | --- | --- |
| Storage layer | PostgreSQL | SQLite, DynamoDB | Existing infra |
";
    let d = lld(content);
    assert_eq!(d.decisions.len(), 1);
    assert_eq!(d.decisions[0].decision, "Storage layer");
    assert_eq!(d.decisions[0].chosen, "PostgreSQL");
    assert_eq!(d.decisions[0].alternatives, "SQLite, DynamoDB");
    assert_eq!(d.decisions[0].rationale, "Existing infra");
    assert!(!d.decisions[0].inferred);
}

#[test]
fn lld_detects_inferred_marker_in_any_cell() {
    let content = "\
## Decisions & Alternatives

| Decision | Chosen | Alternatives | Rationale |
| --- | --- | --- | --- |
| Session store | Redis | DB table | Latency [inferred] |
| Cache key shape | Hash | Plain | Avoid collisions |
";
    let d = lld(content);
    assert_eq!(d.decisions.len(), 2);
    assert!(d.decisions[0].inferred);
    assert!(!d.decisions[1].inferred);
}

#[test]
fn lld_stops_capturing_at_next_h2() {
    let content = "\
## Decisions & Alternatives

| Decision | Chosen | Alternatives | Rationale |
| --- | --- | --- | --- |
| A | B | C | D |

## Open Questions

| not | a | decision | row |
| --- | --- | --- | --- |
| should | not | be | captured |
";
    let d = lld(content);
    assert_eq!(d.decisions.len(), 1);
    assert_eq!(d.decisions[0].decision, "A");
}

#[test]
fn lld_accepts_decisions_and_alternatives_alt_spelling() {
    let content = "\
## Decisions and Alternatives

| Decision | Chosen | Alternatives | Rationale |
| --- | --- | --- | --- |
| X | Y | Z | because |
";
    let d = lld(content);
    assert_eq!(d.decisions.len(), 1);
}

#[test]
fn lld_pads_short_rows_to_column_count() {
    let content = "\
## Decisions & Alternatives

| Decision | Chosen | Alternatives | Rationale |
| --- | --- | --- | --- |
| short | row |
| Valid | Row | Yes | Indeed |
";
    let d = lld(content);
    assert_eq!(d.decisions.len(), 2);
    assert_eq!(d.decisions[0].decision, "short");
    assert!(d.decisions[0].alternatives.is_empty());
    assert_eq!(d.decisions[1].decision, "Valid");
}

#[test]
fn update_spec_status_replaces_marker() {
    let content = "- [ ] **AUTH-001**: users shall log in.\n- [x] **AUTH-002**: sessions expire.\n";
    let id = SpecId::parse("AUTH-001").unwrap();
    let updated = update_spec_status_in_text(content, &id, SpecStatus::Implemented).unwrap();
    assert!(updated.contains("- [x] **AUTH-001**: users shall log in."));
    assert!(updated.contains("- [x] **AUTH-002**: sessions expire."));
    assert!(updated.ends_with('\n'));
}

#[test]
fn update_spec_status_returns_none_when_id_not_found() {
    let content = "- [ ] **AUTH-001**: text.\n";
    let id = SpecId::parse("AUTH-999").unwrap();
    assert!(update_spec_status_in_text(content, &id, SpecStatus::Open).is_none());
}

#[test]
fn parse_spec_file_extracts_yaml_frontmatter_prefix() {
    let content = "---\nprefix: AUTH\n---\n- [ ] **AUTH-001**: text.\n";
    let sf = parse_spec_file(content, "auth-specs.md").unwrap();
    assert_eq!(sf.prefix.as_deref(), Some("AUTH"));
    assert_eq!(sf.specs.len(), 1);
}

#[test]
fn parse_spec_file_no_frontmatter_yields_none_prefix() {
    let content = "- [ ] **AUTH-001**: text.\n";
    let sf = parse_spec_file(content, "auth-specs.md").unwrap();
    assert!(sf.prefix.is_none());
}

#[test]
fn parse_spec_file_frontmatter_without_prefix_key_yields_none() {
    let content = "---\ntitle: Auth\n---\n- [ ] **AUTH-001**: text.\n";
    let sf = parse_spec_file(content, "auth-specs.md").unwrap();
    assert!(sf.prefix.is_none());
}

#[test]
fn update_spec_status_preserves_trailing_newline() {
    let with_newline = "- [ ] **AUTH-001**: text.\n";
    let without_newline = "- [ ] **AUTH-001**: text.";
    let id = SpecId::parse("AUTH-001").unwrap();
    let updated_with = update_spec_status_in_text(with_newline, &id, SpecStatus::Deferred).unwrap();
    let updated_without =
        update_spec_status_in_text(without_newline, &id, SpecStatus::Deferred).unwrap();
    assert!(updated_with.ends_with('\n'));
    assert!(!updated_without.ends_with('\n'));
}

#[test]
fn status_update_reads_back() {
    let content = "# T\n- [ ] **AUTH-001**: users log in.\r\n- [x] **AUTH-002**: b.\n";
    let id = SpecId::parse("AUTH-001").unwrap();
    let out = update_spec_status_in_text(content, &id, SpecStatus::Deferred).unwrap();
    assert_eq!(out, "# T\n- [D] **AUTH-001**: users log in.\n- [x] **AUTH-002**: b.\n");
    let f = parse(&out).unwrap();
    assert_eq!(f.specs[0].status, SpecStatus::Deferred);
    assert_eq!(f.specs[0].text, "users log in.");
    assert_eq!(f.specs[1].status, SpecStatus::Implemented);
}

#[test]
fn text_update_keeps_status() {
    let content = "- [x] **AUTH-001**: old.\n- [ ] **AUTH-001**: second.";
    let id = SpecId::parse("AUTH-001").unwrap();
    let out = update_spec_text_in_text(content, &id, "new words").unwrap();
    assert_eq!(out, "- [x] **AUTH-001**: new words\n- [ ] **AUTH-001**: second.");
    let missing = SpecId::parse("AUTH-404").unwrap();
    assert!(update_spec_text_in_text(content, &missing, "x").is_none());
}

#[test]
fn parse_decision_doc_extracts_h1_title() {
    let content = "# Session Storage Strategy\n\nWe chose Redis because…\n";
    let doc = parse_decision_doc(content, "docs/decisions/session.md", DecisionScope::Project);
    assert_eq!(doc.title, "Session Storage Strategy");
    assert!(matches!(doc.scope, DecisionScope::Project));
}

#[test]
fn parse_decision_doc_trims_whitespace_in_title() {
    let content = "#   Spaced Title  \n\nProse.\n";
    let doc = parse_decision_doc(content, "foo.md", DecisionScope::Project);
    assert_eq!(doc.title, "Spaced Title");
}

#[test]
fn parse_decision_doc_returns_empty_title_when_no_h1() {
    let content = "## Not an H1\n\nSome prose.\n";
    let doc = parse_decision_doc(content, "foo.md", DecisionScope::Project);
    assert!(doc.title.is_empty(), "expected empty title, got {:?}", doc.title);
}

#[test]
fn parse_decision_doc_node_scope_is_preserved() {
    let content = "# Token Format\n";
    let doc = parse_decision_doc(
        content,
        "docs/intent/auth/decisions/token.md",
        DecisionScope::Node { segment: "auth".to_owned() },
    );
    match doc.scope {
        DecisionScope::Node { segment } => assert_eq!(segment, "auth"),
        other => panic!("unexpected scope {other:?}"),
    }
}

#[test]
fn rendered_spec_line_reads_back() {
    let line = render_line(SpecStatus::Deferred, "PAY-UI-7", "the text");
    assert_eq!(line, "- [D] **PAY-UI-7**: the text");
    let m = find_spec_line_match(&line).unwrap();
    assert_eq!(m.id.as_str(), "PAY-UI-7");
    assert_eq!(m.status, SpecStatus::Deferred);
    assert_eq!(m.text, "the text");
}

#[test]
fn text_update_parses_back_with_only_that_text_changed() {
    let content = "---\nprefix: AUTH\n---\n# T\n- [x] **AUTH-001**: old.\n- [ ] **AUTH-002**: other.\n";
    let id = SpecId::parse("AUTH-001").unwrap();
    let before = parse(content).unwrap();
    let out = update_spec_text_in_text(content, &id, "new words").unwrap();
    let after = parse(&out).unwrap();
    assert_eq!(after.prefix, before.prefix);
    assert_eq!(after.specs.len(), before.specs.len());
    assert_eq!(after.specs[0].text, "new words");
    assert_eq!(after.specs[0].status, before.specs[0].status);
    assert_eq!(after.specs[0].line, before.specs[0].line);
    assert_eq!(after.specs[1].text, before.specs[1].text);
    assert_eq!(after.specs[1].status, before.specs[1].status);
}

#[test]
fn status_update_twice_is_once_and_back_is_undo() {
    let content = "# T\n- [ ] **AUTH-001**: users log in.\n- [x] **AUTH-002**: b.\n";
    let id = SpecId::parse("AUTH-001").unwrap();
    let once = update_spec_status_in_text(content, &id, SpecStatus::Implemented).unwrap();
    let twice = update_spec_status_in_text(&once, &id, SpecStatus::Implemented).unwrap();
    assert_eq!(once, twice);
    let back = update_spec_status_in_text(&once, &id, SpecStatus::Open).unwrap();
    assert_eq!(back, content);
}

#[test]
fn text_update_twice_is_once_and_back_is_undo() {
    let content = "- [x] **AUTH-001**: old words\n- [ ] **AUTH-002**: b.";
    let id = SpecId::parse("AUTH-001").unwrap();
    let once = update_spec_text_in_text(content, &id, "new words").unwrap();
    assert_eq!(update_spec_text_in_text(&once, &id, "new words").unwrap(), once);
    assert_eq!(update_spec_text_in_text(&once, &id, "old words").unwrap(), content);
}
