use lid_core::model::{CitationKind, SpecCitation};
use lid_core::parse::source::{classify_path, find_citations_in_line, is_test_filename, scan_content};

fn scan(content: &str, path: &str) -> Vec<SpecCitation> {
    let mut out = Vec::new();
    scan_content(content, path, &mut out);
    out
}

#[test]
fn finds_single_citation() {
    let out = scan("// @spec AUTH-001\nfn login() {}\n", "src/auth.rs");
    assert_eq!(out.len(), 1);
    assert_eq!(out[0].id.as_str(), "AUTH-001");
    assert_eq!(out[0].line, 1);
}

#[test]
fn finds_multiple_citations_on_one_line() {
    let out = scan("// @spec AUTH-001, AUTH-002, AUTH-003\nfn login() {}\n", "src/auth.rs");
    assert_eq!(out.len(), 3);
    assert_eq!(out[0].id.as_str(), "AUTH-001");
    assert_eq!(out[1].id.as_str(), "AUTH-002");
    assert_eq!(out[2].id.as_str(), "AUTH-003");
}

#[test]
fn captures_correct_line_numbers() {
    let content = "\
fn one() {}
// @spec AUTH-001
fn two() {}

// @spec AUTH-002
fn three() {}
";
    let out = scan(content, "src/auth.rs");
    assert_eq!(out.len(), 2);
    assert_eq!(out[0].line, 2);
    assert_eq!(out[1].line, 5);
}

#[test]
fn ignores_lines_without_at_spec_keyword() {
    assert!(scan("const SPEC_NAMES = ['AUTH-001'];\n", "src/x.ts").is_empty());
}

#[test]
fn ignores_at_specification_pseudo_keyword() {
    assert!(scan("// @specification of AUTH-001 follows\n", "src/x.ts").is_empty());
}

#[test]
fn ignores_no_digit_pseudo_id() {
    assert!(scan("// @spec A-Z\nfn x() {}\n", "src/x.rs").is_empty());
}

#[test]
fn ignores_mid_camelcase_hits() {
    let out = scan("// @spec AUTH-001 see also GSI-ByReminderDue\n", "src/x.ts");
    assert_eq!(out.len(), 1);
    assert_eq!(out[0].id.as_str(), "AUTH-001");
}

#[test]
fn classifies_code_paths() {
    let out = scan("// @spec AUTH-001\n", "src/auth/login.ts");
    assert_eq!(out[0].kind, CitationKind::Code);
}

#[test]
fn classifies_test_paths_via_directory() {
    let out = scan("// @spec AUTH-001\n", "tests/auth/login.ts");
    assert_eq!(out[0].kind, CitationKind::Test);
}

#[test]
fn classifies_test_paths_via_filename_convention() {
    for path in [
        "src/auth/login.test.ts",
        "src/auth/login.spec.ts",
        "internal/auth/login_test.go",
        "auth/test_login.py",
    ] {
        let out = scan("# @spec AUTH-001\n", path);
        assert_eq!(out[0].kind, CitationKind::Test, "path: {path}");
    }
}

#[test]
fn classifies_spec_doc_paths() {
    let out = scan("- @spec AUTH-001\n", "docs/specs/auth-specs.md");
    assert_eq!(out[0].kind, CitationKind::Spec);
}

#[test]
fn markdown_under_tests_directory_is_not_classified_as_test() {
    let out = scan("@spec AUTH-001 — illustrative example\n", "crates/cli/tests/fixtures/sample.md");
    assert_eq!(out[0].kind, CitationKind::Other);
}

#[test]
fn yaml_files_classify_as_other() {
    let out = scan("# @spec AUTH-001\n", "ci/pipeline.yaml");
    assert_eq!(out[0].kind, CitationKind::Other);
}

#[test]
fn find_citations_in_line_returns_byte_ranges() {
    let line = "// @spec AUTH-001, AUTH-002 trailing comment";
    let cits = find_citations_in_line(line);
    assert_eq!(cits.len(), 2);
    assert_eq!(cits[0].id.as_str(), "AUTH-001");
    assert_eq!(&line[cits[0].byte_range.clone()], "AUTH-001");
    assert_eq!(cits[1].id.as_str(), "AUTH-002");
    assert_eq!(&line[cits[1].byte_range.clone()], "AUTH-002");
}

#[test]
fn find_citations_in_line_ignores_lines_without_at_spec() {
    assert!(find_citations_in_line("const NAMES = ['AUTH-001'];").is_empty());
}

#[test]
fn citation_paths_are_returned_verbatim() {
    let out = scan("// @spec AUTH-001\n", "relative/path/auth.rs");
    assert_eq!(out[0].file, "relative/path/auth.rs");
}

#[test]
fn scan_content_appends_after_existing() {
    let mut out = scan("// @spec A-1\n", "a.rs");
    scan_content("x\n// @spec B-2 and @spec C-3\n", "b.rs", &mut out);
    let ids: Vec<&str> = out.iter().map(|c| c.id.as_str()).collect();
    assert_eq!(ids, vec!["A-1", "B-2", "C-3"]);
    assert_eq!(out[1].line, 2);
}

#[test]
fn test_filename_conventions() {
    assert!(is_test_filename("x/login.test.ts"));
    assert!(is_test_filename("login_test.go"));
    assert!(is_test_filename("test_login.py"));
    assert!(!is_test_filename("src/login.ts"));
    assert_eq!(classify_path("src/main.rs"), CitationKind::Code);
}

#[test]
fn citation_kind_as_str_matches_serde() {
    for (k, expected) in [
        (CitationKind::Code, "\"code\""),
        (CitationKind::Test, "\"test\""),
        (CitationKind::Spec, "\"spec\""),
        (CitationKind::Other, "\"other\""),
    ] {
        assert_eq!(k.as_str(), expected.trim_matches('"'));
    }
}

#[test]
fn non_ascii_letter_after_keyword_is_a_word_continuation() {
    assert!(scan("// @specé AUTH-001\n", "src/x.rs").is_empty());
    assert_eq!(scan("// @spec\u{a0}AUTH-001\n", "src/x.rs").len(), 1);
}

#[test]
fn word_boundary_follows_unicode_word_characters() {
    // A combining mark and connector punctuation continue the word.
    assert!(scan("// @spec\u{301} AUTH-001\n", "src/x.rs").is_empty());
    assert!(scan("// @spec\u{203F} AUTH-001\n", "src/x.rs").is_empty());
    // A superscript digit is numeric but not a word character.
    assert_eq!(scan("// @spec\u{B2} AUTH-001\n", "src/x.rs").len(), 1);
}
