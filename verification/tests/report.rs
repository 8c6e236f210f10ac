use lid_core::checks::{Category, CheckId, Finding, Location, Severity};
use lid_core::ids::SpecId;
use lid_core::report::{build_summary, check_id_label, paint, render, severity_label, Paint, RenderOptions};

const ROOT: &str = "/repo";

fn finding(severity: Severity, check: CheckId, message: &str, line: Option<usize>) -> Finding {
    Finding {
        check,
        severity,
        category: Category::Schema,
        message: message.to_owned(),
        location: Some(Location { path: "/repo/src/auth.rs".to_string(), line }),
        spec: None,
        remediation: Some("do the thing".to_owned()),
    }
}

fn plain() -> RenderOptions {
    RenderOptions { color: false }
}

#[test]
fn empty_findings_yields_no_findings_line() {
    assert_eq!(render(ROOT, &vec![], plain()), "no findings\n");
}

#[test]
fn renders_findings_grouped_by_severity() {
    let findings = vec![
        finding(Severity::Warning, CheckId::Orphan, "warn one", None),
        finding(Severity::Error, CheckId::ReverseOrphan, "err one", Some(42)),
        finding(Severity::Error, CheckId::Schema, "err two", None),
    ];
    let out = render(ROOT, &findings, plain());
    let err_pos = out.find("ERRORS (2)").unwrap();
    let warn_pos = out.find("WARNINGS (1)").unwrap();
    assert!(err_pos < warn_pos, "got:\n{out}");
    assert!(out.contains("err one"));
    assert!(out.contains("err two"));
    assert!(out.contains("warn one"));
}

#[test]
fn renders_repo_relative_paths() {
    let mut f = finding(Severity::Error, CheckId::Schema, "boom", Some(7));
    f.location = Some(Location { path: "/repo/docs/arrows/auth.md".to_string(), line: Some(7) });
    let out = render(ROOT, &vec![f], plain());
    assert!(out.contains("docs/arrows/auth.md:7"), "got:\n{out}");
    assert!(!out.contains("/repo/docs"), "expected repo prefix stripped");
}

#[test]
fn no_color_output_has_no_ansi_escapes() {
    let findings = vec![finding(Severity::Error, CheckId::Schema, "boom", Some(1))];
    let out = render(ROOT, &findings, plain());
    assert!(!out.contains('\u{1b}'), "found ANSI escape: {out:?}");
}

#[test]
fn color_output_contains_ansi_escapes() {
    let findings = vec![finding(Severity::Error, CheckId::Schema, "boom", Some(1))];
    let out = render(ROOT, &findings, RenderOptions { color: true });
    assert!(out.contains('\u{1b}'), "expected ANSI escape, got:\n{out}");
}

#[test]
fn includes_summary_line() {
    let findings = vec![
        finding(Severity::Error, CheckId::Schema, "a", None),
        finding(Severity::Warning, CheckId::Orphan, "b", None),
    ];
    let out = render(ROOT, &findings, plain());
    assert!(out.contains("2 finding(s)"), "got:\n{out}");
}

#[test]
fn check_id_is_rendered_in_kebab_case() {
    let findings = vec![finding(Severity::Error, CheckId::ReverseOrphan, "x", Some(1))];
    let out = render(ROOT, &findings, plain());
    assert!(out.contains("[reverse-orphan]"), "got:\n{out}");
}

#[test]
fn remediation_arrow_appears_when_present() {
    let findings = vec![finding(Severity::Error, CheckId::Schema, "x", Some(1))];
    let out = render(ROOT, &findings, plain());
    assert!(out.contains("→ do the thing"), "got:\n{out}");
}

#[test]
fn finding_without_location_still_renders() {
    let mut f = finding(Severity::Warning, CheckId::Orphan, "no loc", None);
    f.location = None;
    let out = render(ROOT, &vec![f], plain());
    assert!(out.contains("[orphan]"), "got:\n{out}");
    assert!(out.contains("no loc"));
}

#[test]
fn finding_with_spec_id_does_not_break_rendering() {
    let mut f = finding(Severity::Error, CheckId::ReverseOrphan, "x", Some(1));
    f.spec = Some(SpecId::parse("AUTH-001").unwrap());
    let out = render(ROOT, &vec![f], plain());
    assert!(out.contains("[reverse-orphan]"));
}

#[test]
fn empty_findings_render_with_zero_summary() {
    let s = build_summary(&vec![]);
    assert_eq!(s.findings, 0);
    assert!(s.by_severity.is_empty());
    assert!(s.by_check.is_empty());
}

#[test]
fn summary_counts_severities() {
    let findings = vec![
        finding(Severity::Error, CheckId::Schema, "a", None),
        finding(Severity::Error, CheckId::Orphan, "b", None),
        finding(Severity::Warning, CheckId::Orphan, "c", None),
    ];
    let s = build_summary(&findings);
    assert_eq!(s.findings, 3);
    assert_eq!(s.by_severity, vec![("error".to_string(), 2), ("warning".to_string(), 1)]);
}

#[test]
fn summary_counts_checks_by_kebab_id() {
    let findings = vec![
        finding(Severity::Error, CheckId::ReverseOrphan, "a", None),
        finding(Severity::Error, CheckId::ReverseOrphan, "b", None),
        finding(Severity::Warning, CheckId::Orphan, "c", None),
    ];
    let s = build_summary(&findings);
    assert_eq!(s.by_check, vec![("orphan".to_string(), 1), ("reverse-orphan".to_string(), 2)]);
}

#[test]
fn labels_and_paint() {
    assert_eq!(severity_label(Severity::Info), "INFO");
    assert_eq!(check_id_label(CheckId::SpecIdFormat), "spec-id-format");
    assert_eq!(paint("x", Paint::CheckLabel, false), "x");
    let colored = paint("x", Paint::CheckLabel, true);
    assert!(colored.contains('\u{1b}') && colored.contains('x'), "{colored:?}");
}

#[test]
fn report_lists_each_finding_once_across_sections() {
    let findings = vec![
        finding(Severity::Info, CheckId::Dag, "info one", None),
        finding(Severity::Warning, CheckId::Orphan, "warn one", Some(3)),
        finding(Severity::Error, CheckId::Schema, "err one", Some(9)),
        finding(Severity::Warning, CheckId::Coverage, "warn two", None),
    ];
    let out = render(ROOT, &findings, plain());
    for m in ["info one", "warn one", "err one", "warn two"] {
        assert_eq!(out.matches(m).count(), 1, "got:\n{out}");
    }
    assert!(out.contains("ERRORS (1)"));
    assert!(out.contains("WARNINGS (2)"));
    assert!(out.contains("INFO (1)"));
    assert!(out.ends_with("4 finding(s)\n"), "got:\n{out}");
}

#[test]
fn summary_counts_add_up_to_the_total() {
    let findings = vec![
        finding(Severity::Info, CheckId::Dag, "a", None),
        finding(Severity::Error, CheckId::Schema, "b", None),
        finding(Severity::Warning, CheckId::Orphan, "c", None),
        finding(Severity::Warning, CheckId::Schema, "d", Some(2)),
        finding(Severity::Error, CheckId::LldDecisions, "e", None),
    ];
    let s = build_summary(&findings);
    assert_eq!(s.findings, 5);
    assert_eq!(s.by_severity.iter().map(|p| p.1).sum::<usize>(), 5);
    assert_eq!(s.by_check.iter().map(|p| p.1).sum::<usize>(), 5);
    assert_eq!(s.by_check, vec![
        ("dag".to_string(), 1),
        ("lld-decisions".to_string(), 1),
        ("orphan".to_string(), 1),
        ("schema".to_string(), 2),
    ]);
}

#[test]
fn report_section_ordered_by_check_then_location() {
    let findings = vec![
        finding(Severity::Error, CheckId::Orphan, "orphan one", Some(1)),
        finding(Severity::Error, CheckId::Schema, "schema nine", Some(9)),
        finding(Severity::Error, CheckId::Schema, "schema two", Some(2)),
    ];
    let out = render(ROOT, &findings, plain());
    let two = out.find("schema two").unwrap();
    let nine = out.find("schema nine").unwrap();
    let orphan = out.find("orphan one").unwrap();
    assert!(two < nine && nine < orphan, "got:\n{out}");
}

#[test]
fn each_paint_gives_its_exact_escape_codes() {
    assert_eq!(paint("x", Paint::ErrorHeader, true), "\u{1b}[31;1mx\u{1b}[0m");
    assert_eq!(paint("x", Paint::WarningHeader, true), "\u{1b}[33;1mx\u{1b}[0m");
    assert_eq!(paint("x", Paint::InfoHeader, true), "\u{1b}[34;1mx\u{1b}[0m");
    assert_eq!(paint("x", Paint::CheckLabel, true), "\u{1b}[2mx\u{1b}[0m");
    assert_eq!(paint("x", Paint::LocationLabel, true), "\u{1b}[36mx\u{1b}[0m");
    assert_eq!(paint("x", Paint::Remediation, true), "\u{1b}[32mx\u{1b}[0m");
}
