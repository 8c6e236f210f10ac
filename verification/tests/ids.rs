use lid_core::ids::{GitSha, SpecId};

#[test]
fn parses_two_segment_id() {
    let id = SpecId::parse("AUTH-001").unwrap();
    assert_eq!(id.as_str(), "AUTH-001");
    assert_eq!(id.as_str().to_string(), "AUTH-001");
}

#[test]
fn parses_three_segment_id() {
    assert!(SpecId::parse("AUTH-UI-001").is_ok());
}

#[test]
fn parses_four_segment_id() {
    assert!(SpecId::parse("AUTH-LOGIN-UI-001").is_ok());
}

#[test]
fn parses_real_world_examples_from_lid_upstream() {
    for s in [
        "ARROW-MAINT-001",
        "LID-COACH-053",
        "BIDIFF-007",
        "MKT-SITE-047",
        "PROJ-STRUCT-041",
    ] {
        assert!(SpecId::parse(s).is_ok(), "should parse: {s}");
    }
}

#[test]
fn rejects_lowercase() {
    assert!(SpecId::parse("auth-001").is_err());
    assert!(SpecId::parse("Auth-001").is_err());
}

#[test]
fn rejects_no_hyphen() {
    assert!(SpecId::parse("AUTH001").is_err());
    assert!(SpecId::parse("AUTH").is_err());
}

#[test]
fn rejects_no_digit() {
    assert!(SpecId::parse("A-Z").is_err());
    assert!(SpecId::parse("AUTH-UI").is_err());
}

#[test]
fn rejects_trailing_or_leading_hyphen() {
    assert!(SpecId::parse("-AUTH-001").is_err());
    assert!(SpecId::parse("AUTH-001-").is_err());
    assert!(SpecId::parse("AUTH--001").is_err());
}

#[test]
fn rejects_leading_digit() {
    assert!(SpecId::parse("1AUTH-001").is_err());
}

#[test]
fn rejects_empty() {
    assert!(SpecId::parse("").is_err());
}

#[test]
fn parses_short_sha() {
    assert!(GitSha::parse("a1b2c3d").is_ok());
}

#[test]
fn parses_full_sha() {
    let full = "a1b2c3d4e5f6789012345678901234567890abcd";
    assert_eq!(full.len(), 40);
    assert!(GitSha::parse(full).is_ok());
}

#[test]
fn rejects_uppercase_sha() {
    assert!(GitSha::parse("A1B2C3D").is_err());
}

#[test]
fn rejects_non_hex() {
    assert!(GitSha::parse("ghijklm").is_err());
}

#[test]
fn rejects_too_short() {
    assert!(GitSha::parse("a1b2c3").is_err());
}

#[test]
fn rejects_too_long() {
    let too_long = "a".repeat(41);
    assert!(GitSha::parse(&too_long).is_err());
}

#[test]
fn well_shaped_spec_ids_parse() {
    for s in ["A-1", "AB-CD-12", "AUTH-UI-X-0001", "Q-Z-9"] {
        assert!(SpecId::parse(s).is_ok(), "should parse: {s}");
    }
}

#[test]
fn well_shaped_short_shas_parse() {
    for s in ["0123456", "abcdef0", "0123456789abcdef0123456789abcdef01234567"] {
        assert!(GitSha::parse(s).is_ok(), "should parse: {s}");
    }
}

#[test]
fn parse_never_panics() {
    for s in ["", "-", "--", "é", "AUTH-é1", "\u{0}", "A-", "a", "ÄB-1"] {
        let _ = SpecId::parse(s);
        let _ = GitSha::parse(s);
    }
}

#[test]
fn invalid_spec_id_error_names_the_value() {
    match SpecId::parse("auth-001") {
        Err(lid_core::error::LidError::InvalidSpecId { value, .. }) => assert_eq!(value, "auth-001"),
        other => panic!("unexpected {other:?}"),
    }
}
