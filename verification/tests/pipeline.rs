use lid_core::checks::{check_exit_code, default_checks, parse_only, run_checks, CheckId, Finding, Severity};
use lid_core::error::LidError;
use lid_core::ids::SegmentId;
use lid_core::model::{ArrowIndex, Segment, SpecCitation, Status, Unmapped};
use lid_core::parse::cmark::{parse_arrow_doc, parse_lld};
use lid_core::parse::markdown::parse_spec_file;
use lid_core::parse::source::scan_content;
use lid_core::paths::join;
use lid_core::report::{build_summary, render, RenderOptions};
use lid_core::repo::{select_md_paths, LidRepo};
use lid_core::scaffold::{arrow_stub_text, design_stub_text, init_detail, specs_stub_text, suggest_prefix};

const ROOT: &str = "/proj";

fn segment(detail: &str, blocks: &[&str], parent: Option<&str>, children: &[&str]) -> Segment {
    Segment {
        status: Status::Mapped,
        sampled: None,
        audited: None,
        audited_sha: None,
        blocks: blocks.iter().map(|b| SegmentId::parse(b).unwrap()).collect(),
        blocked_by: vec![],
        detail: detail.to_string(),
        next: None,
        drift: None,
        merged_into: None,
        children: children.iter().map(|c| SegmentId::parse(c).unwrap()).collect(),
        parent: parent.map(|p| SegmentId::parse(p).unwrap()),
    }
}

/// The repository read from `files` (project-relative path, content),
/// with the given index entries in key order.
fn repo_from(files: &[(&str, &str)], arrows: Vec<(&str, Segment)>, schema_version: u32) -> Result<LidRepo, LidError> {
    let abs: Vec<(String, &str)> = files.iter().map(|(p, c)| (join(ROOT, p), *c)).collect();
    let content_of = |p: &str| abs.iter().find(|(q, _)| q == p).map(|(_, c)| *c).unwrap();
    let under = |dir: &str| -> Vec<String> {
        let d = join(ROOT, dir);
        abs.iter().filter(|(p, _)| p.starts_with(&format!("{d}/"))).map(|(p, _)| p.clone()).collect()
    };
    let mut specs = Vec::new();
    for p in select_md_paths(&under("docs/intent"), "-specs.md") {
        specs.push(parse_spec_file(content_of(&p), &p)?);
    }
    let llds = select_md_paths(&under("docs/intent"), "-design.md")
        .iter()
        .map(|p| parse_lld(content_of(p), p))
        .collect();
    let arrow_docs = select_md_paths(&under("docs/arrows"), ".md")
        .iter()
        .map(|p| parse_arrow_doc(content_of(p), p))
        .collect();
    let mut citations: Vec<SpecCitation> = Vec::new();
    for (p, c) in &abs {
        scan_content(c, p, &mut citations);
    }
    let index = ArrowIndex {
        schema_version,
        last_updated: None,
        taxonomy: vec![],
        arrows: arrows.into_iter().map(|(k, s)| (SegmentId::parse(k).unwrap(), s)).collect(),
        unmapped: Unmapped::default(),
    };
    let mut repo = LidRepo::assemble(ROOT.to_string(), index, specs, llds, arrow_docs, citations, vec![])?;
    let present: Vec<String> = abs.iter().map(|(p, _)| p.clone()).collect();
    repo.present_paths = repo.probe_paths().into_iter().filter(|p| present.contains(p)).collect();
    Ok(repo)
}

const AUTH_ARROW: &str = "# Arrow: auth\n\n## References\n\n### LLD\n- docs/intent/auth/auth-design.md\n\n### EARS\n- docs/intent/auth/auth-specs.md\n";
const AUTH_DESIGN: &str = "\
# Design: auth

Some prose.

## Decisions & Alternatives

| Decision | Chosen | Alternatives | Rationale |
| --- | --- | --- | --- |
| Session store | Redis | Memcached | Latency |
";

fn minimal_files() -> Vec<(&'static str, &'static str)> {
    vec![
        ("docs/arrows/auth.md", AUTH_ARROW),
        ("docs/intent/auth/auth-design.md", AUTH_DESIGN),
        ("docs/intent/auth/auth-specs.md", "# auth\n\n- [x] **AUTH-001**: ok.\n"),
        ("tests/auth.test.ts", "// @spec AUTH-001\nit('logs in', () => {});\n"),
    ]
}

fn minimal_arrows() -> Vec<(&'static str, Segment)> {
    vec![("auth", segment("auth.md", &[], None, &[]))]
}

fn all_findings(repo: &LidRepo) -> Vec<Finding> {
    run_checks(&default_checks(), &None, repo)
}

fn plain(repo: &LidRepo, findings: &Vec<Finding>) -> String {
    render(&repo.root, findings, RenderOptions { color: false })
}

#[test]
fn check_succeeds_on_clean_repo() {
    let repo = repo_from(&minimal_files(), minimal_arrows(), 2).unwrap();
    let findings = all_findings(&repo);
    assert!(findings.is_empty(), "{findings:?}");
    assert_eq!(plain(&repo, &findings), "no findings\n");
    assert_eq!(check_exit_code(&findings, Severity::Error), 0);
}

#[test]
fn check_reports_schema_error_with_exit_one() {
    let mut files = minimal_files();
    files.push(("docs/arrows/session.md", "# Arrow: session\n"));
    let mut arrows = minimal_arrows();
    arrows.push(("session", segment("session.md", &["phantom-segment"], None, &[])));
    let repo = repo_from(&files, arrows, 2).unwrap();
    let findings = all_findings(&repo);
    assert_eq!(check_exit_code(&findings, Severity::Error), 1);
    assert!(plain(&repo, &findings).contains("phantom-segment"));
}

#[test]
fn check_reports_reverse_orphan_with_exit_one() {
    let mut files = minimal_files();
    files.push(("src/auth.rs", "// @spec AUTH-999\nfn login() {}\n"));
    let repo = repo_from(&files, minimal_arrows(), 2).unwrap();
    let findings = all_findings(&repo);
    assert_eq!(check_exit_code(&findings, Severity::Error), 1);
    assert!(plain(&repo, &findings).contains("AUTH-999"));
}

#[test]
fn check_json_output_parses_and_carries_summary() {
    let mut files = minimal_files();
    files.push(("src/auth.rs", "// @spec AUTH-999\nfn login() {}\n"));
    let repo = repo_from(&files, minimal_arrows(), 2).unwrap();
    let findings = all_findings(&repo);
    let s = build_summary(&findings);
    assert_eq!(s.findings, 1);
    assert_eq!(s.by_check, vec![("reverse-orphan".to_string(), 1)]);
    assert_eq!(findings[0].spec.as_ref().unwrap().as_str(), "AUTH-999");
}

#[test]
fn only_filter_runs_just_the_listed_check() {
    let mut files = minimal_files();
    files.push(("src/auth.rs", "// @spec AUTH-999\nfn login() {}\n"));
    let repo = repo_from(&files, minimal_arrows(), 2).unwrap();
    let only = parse_only(&vec!["schema".to_string()]).unwrap();
    let findings = run_checks(&default_checks(), &only, &repo);
    assert_eq!(plain(&repo, &findings), "no findings\n");
    assert_eq!(check_exit_code(&findings, Severity::Error), 0);
}

#[test]
fn fail_on_warning_promotes_orphan_to_exit_one() {
    let mut files = minimal_files();
    files.push((
        "docs/intent/lonely/lonely-design.md",
        "# Design: lonely\n\n## Decisions & Alternatives\n\n| Decision | Chosen | Alternatives | Rationale |\n| --- | --- | --- | --- |\n| Foo | Bar | Baz | Qux |\n",
    ));
    let repo = repo_from(&files, minimal_arrows(), 2).unwrap();
    let findings = all_findings(&repo);
    assert_eq!(check_exit_code(&findings, Severity::Error), 0);
    assert_eq!(check_exit_code(&findings, Severity::Warning), 1);
}

#[test]
fn check_exits_two_on_unsupported_schema_version() {
    match repo_from(&[], vec![], 1) {
        Err(LidError::UnsupportedSchemaVersion { found, supported }) => {
            assert_eq!(found, 1);
            assert_eq!(supported, vec![2]);
        }
        other => panic!("unexpected {other:?}"),
    }
}

#[test]
fn invalid_only_value_exits_two_with_helpful_error() {
    let err = parse_only(&vec!["bogus-check".to_string()]).unwrap_err();
    assert!(err.contains("bogus-check"), "{err}");
}

fn depth3_files() -> Vec<(&'static str, &'static str)> {
    vec![
        ("docs/arrows/checkout.md", "# Arrow: checkout\n\n## References\n\n### LLD\n- docs/intent/checkout/checkout-design.md\n"),
        (
            "docs/arrows/checkout/payment.md",
            "# Arrow: payment\n\n## References\n\n### LLD\n- docs/intent/checkout/payment/payment-design.md\n\n### EARS\n- docs/intent/checkout/payment/payment-specs.md\n",
        ),
        (
            "docs/arrows/checkout/payment/gateway.md",
            "# Arrow: gateway\n\n## References\n\n### LLD\n- docs/intent/checkout/payment/gateway/gateway-design.md\n\n### EARS\n- docs/intent/checkout/payment/gateway/gateway-specs.md\n",
        ),
        (
            "docs/intent/checkout/checkout-design.md",
            "# Design: checkout\n\n## Decisions & Alternatives\n\n| Decision | Chosen | Alternatives | Rationale |\n| --- | --- | --- | --- |\n| Decomposition | Split into payment module | Monolith | Separation of concerns |\n",
        ),
        (
            "docs/intent/checkout/payment/payment-design.md",
            "# Design: payment\n\n## Decisions & Alternatives\n\n| Decision | Chosen | Alternatives | Rationale |\n| --- | --- | --- | --- |\n| Payment provider | Stripe | PayPal | Better API |\n",
        ),
        (
            "docs/intent/checkout/payment/payment-specs.md",
            "---\nprefix: CHECKOUT-PAYMENT\n---\n\n# payment specs\n\n- [ ] **CHECKOUT-PAYMENT-001**: The system shall process payments.\n",
        ),
        (
            "docs/intent/checkout/payment/gateway/gateway-design.md",
            "# Design: gateway\n\n## Decisions & Alternatives\n\n| Decision | Chosen | Alternatives | Rationale |\n| --- | --- | --- | --- |\n| Gateway protocol | REST | gRPC | Broader ecosystem support |\n",
        ),
        (
            "docs/intent/checkout/payment/gateway/gateway-specs.md",
            "---\nprefix: CHECKOUT-PAYMENT-GATEWAY\n---\n\n# gateway specs\n\n- [ ] **CHECKOUT-PAYMENT-GATEWAY-001**: The system shall route requests to the gateway.\n",
        ),
    ]
}

fn depth3_arrows() -> Vec<(&'static str, Segment)> {
    vec![
        ("checkout", segment("checkout.md", &[], None, &["payment"])),
        ("gateway", segment("checkout/payment/gateway.md", &[], Some("payment"), &[])),
        ("payment", segment("checkout/payment.md", &[], Some("checkout"), &["gateway"])),
    ]
}

#[test]
fn depth3_clean_tree_produces_no_errors() {
    let repo = repo_from(&depth3_files(), depth3_arrows(), 2).unwrap();
    let findings = all_findings(&repo);
    assert_eq!(plain(&repo, &findings), "no findings\n", "{findings:?}");
}

#[test]
fn depth3_orphan_design_doc_is_detected() {
    let mut files = depth3_files();
    files.push((
        "docs/intent/checkout/payment/gateway/stale-design.md",
        "# Design: stale\n\n## Decisions & Alternatives\n\n| Decision | Chosen | Alternatives | Rationale |\n| --- | --- | --- | --- |\n| Stale | Yes | No | Testing |\n",
    ));
    let repo = repo_from(&files, depth3_arrows(), 2).unwrap();
    let findings = all_findings(&repo);
    assert_eq!(check_exit_code(&findings, Severity::Warning), 1);
    assert!(plain(&repo, &findings).contains("stale-design.md"));
}

#[test]
fn depth3_incorrect_spec_prefix_is_warned() {
    let mut files = depth3_files();
    files.retain(|(p, _)| !p.ends_with("gateway-specs.md"));
    files.push((
        "docs/intent/checkout/payment/gateway/gateway-specs.md",
        "---\nprefix: WRONG\n---\n\n# gateway specs\n\n- [ ] **WRONG-001**: stub.\n",
    ));
    let repo = repo_from(&files, depth3_arrows(), 2).unwrap();
    let only = parse_only(&vec!["path-coherent-prefix".to_string()]).unwrap();
    let findings = run_checks(&default_checks(), &only, &repo);
    assert_eq!(findings.len(), 1, "{findings:?}");
    assert_eq!(findings[0].check, CheckId::PathCoherentPrefix);
    assert!(findings[0].message.contains("WRONG"));
    assert!(findings[0].message.contains("CHECKOUT-PAYMENT-GATEWAY"));
}

fn discover_fixture() -> Vec<(&'static str, &'static str)> {
    vec![
        ("docs/arrows/auth.md", AUTH_ARROW),
        ("docs/arrows/README.md", "directory README"),
        ("docs/intent/auth/_template.md", "template"),
        (
            "docs/intent/auth/auth-specs.md",
            "# auth specs\n\n- [x] **AUTH-001**: When the user logs in, the system SHALL ...\n- [ ] **AUTH-002**: Another requirement.\n",
        ),
        ("docs/intent/auth/auth-design.md", AUTH_DESIGN),
        ("src/auth.rs", "// @spec AUTH-001\nfn login() {}\n"),
    ]
}

#[test]
fn discover_loads_all_artifact_categories() {
    let repo = repo_from(&discover_fixture(), minimal_arrows(), 2).unwrap();
    assert_eq!(repo.index.arrows.len(), 1);
    assert_eq!(repo.specs.len(), 1, "specs: {:?}", repo.specs);
    assert_eq!(repo.specs[0].specs.len(), 2);
    assert_eq!(repo.llds.len(), 1);
    assert_eq!(repo.llds[0].decisions.len(), 1);
    assert_eq!(repo.arrow_docs.len(), 1, "arrow_docs: {:?}", repo.arrow_docs);
}

#[test]
fn discover_collects_source_citations() {
    let repo = repo_from(&discover_fixture(), minimal_arrows(), 2).unwrap();
    assert!(
        repo.citations.iter().any(|c| c.id.as_str() == "AUTH-001"),
        "expected AUTH-001 citation, got {:?}",
        repo.citations
    );
}

#[test]
fn discover_rejects_unsupported_schema_version() {
    let err = repo_from(&[], vec![], 1).unwrap_err();
    assert!(matches!(err, LidError::UnsupportedSchemaVersion { found: 1, .. }), "got {err:?}");
}

#[test]
fn discover_propagates_markdown_errors() {
    let files = vec![("docs/intent/bad/bad-specs.md", "- [x] **A-Z**: missing digit\n")];
    let err = repo_from(&files, vec![], 2).unwrap_err();
    assert!(matches!(err, LidError::Markdown { .. }), "got {err:?}");
}

#[test]
fn init_then_check_passes() {
    let seg = "core";
    let detail = init_detail(seg);
    let arrow = arrow_stub_text(seg);
    let specs = specs_stub_text(seg, &suggest_prefix(seg, &vec![]));
    let design = design_stub_text(seg);
    let arrow_path = format!("docs/arrows/{detail}");
    let files = vec![
        (arrow_path.as_str(), arrow.as_str()),
        ("docs/intent/core/core-specs.md", specs.as_str()),
        ("docs/intent/core/core-design.md", design.as_str()),
    ];
    let mut core = segment(&detail, &[], None, &[]);
    core.status = Status::Unmapped;
    let repo = repo_from(&files, vec![(seg, core)], 2).unwrap();
    let findings = all_findings(&repo);
    assert_eq!(check_exit_code(&findings, Severity::Error), 0, "{}", plain(&repo, &findings));
}

#[test]
fn index_keys_ascend_as_in_a_map() {
    let mk = |keys: &[&str]| ArrowIndex {
        schema_version: 2,
        last_updated: None,
        taxonomy: vec![],
        arrows: keys.iter().map(|k| (SegmentId::parse(k).unwrap(), segment("x.md", &[], None, &[]))).collect(),
        unmapped: Unmapped::default(),
    };
    assert!(mk(&[]).has_ascending_keys());
    assert!(mk(&["auth", "billing", "core"]).has_ascending_keys());
    assert!(!mk(&["billing", "auth"]).has_ascending_keys());
    assert!(!mk(&["auth", "auth"]).has_ascending_keys());
}
