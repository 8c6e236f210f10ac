use lid_core::checks::arrow_doc_structure::ArrowDocStructureCheck;
use lid_core::checks::coverage::CoverageCheck;
use lid_core::checks::dag::DagCheck;
use lid_core::checks::decisions_structure::DecisionsStructureCheck;
use lid_core::checks::implementing_artifacts::ImplementingArtifactsCheck;
use lid_core::checks::lld_decisions::LldDecisionsCheck;
use lid_core::checks::orphans::OrphanCheck;
use lid_core::checks::path_coherent_prefix::PathCoherentPrefixCheck;
use lid_core::checks::references::ReferenceCoherenceCheck;
use lid_core::checks::reverse_orphan::ReverseOrphanCheck;
use lid_core::checks::schema::SchemaCheck;
use lid_core::checks::spec_id_format::SpecIdFormatCheck;
use lid_core::checks::spec_status_counts::SpecStatusCountsCheck;
use lid_core::checks::{
    check_exit_code, default_checks, fails_at, finding_at, parse_only, Category, Check, CheckId,
    Severity,
};

const ALL_NINE: [CheckId; 9] = [
    CheckId::Schema,
    CheckId::ReferenceCoherence,
    CheckId::Coverage,
    CheckId::Orphan,
    CheckId::ReverseOrphan,
    CheckId::SpecIdFormat,
    CheckId::SpecStatusCounts,
    CheckId::LldDecisions,
    CheckId::Dag,
];

#[test]
fn check_id_is_arrow_doc_structure() {
    assert_eq!(ArrowDocStructureCheck.id(), CheckId::ArrowDocStructure);
}

#[test]
fn check_id_is_coverage() {
    assert_eq!(CoverageCheck.id(), CheckId::Coverage);
}

#[test]
fn check_id_is_dag() {
    assert_eq!(DagCheck.id(), CheckId::Dag);
}

#[test]
fn check_id_is_decisions_structure() {
    assert_eq!(DecisionsStructureCheck.id(), CheckId::DecisionsStructure);
}

#[test]
fn check_id_is_implementing_artifacts() {
    assert_eq!(ImplementingArtifactsCheck.id(), CheckId::ImplementingArtifacts);
}

#[test]
fn check_id_is_lld_decisions() {
    assert_eq!(LldDecisionsCheck.id(), CheckId::LldDecisions);
}

#[test]
fn check_id_is_orphan() {
    assert_eq!(OrphanCheck.id(), CheckId::Orphan);
}

#[test]
fn check_id_is_path_coherent_prefix() {
    assert_eq!(PathCoherentPrefixCheck.id(), CheckId::PathCoherentPrefix);
}

#[test]
fn check_id_is_reference_coherence() {
    assert_eq!(ReferenceCoherenceCheck.id(), CheckId::ReferenceCoherence);
}

#[test]
fn check_id_is_reverse_orphan() {
    assert_eq!(ReverseOrphanCheck.id(), CheckId::ReverseOrphan);
}

#[test]
fn check_id_is_schema() {
    assert_eq!(SchemaCheck.id(), CheckId::Schema);
}

#[test]
fn check_id_is_spec_id_format() {
    assert_eq!(SpecIdFormatCheck.id(), CheckId::SpecIdFormat);
}

#[test]
fn check_id_is_spec_status_counts() {
    assert_eq!(SpecStatusCountsCheck.id(), CheckId::SpecStatusCounts);
}

#[test]
fn severity_orders_info_lt_warning_lt_error() {
    assert!(Severity::Info < Severity::Warning);
    assert!(Severity::Warning < Severity::Error);
}

#[test]
fn check_id_as_str_matches_serde_representation() {
    let expected = [
        "schema",
        "reference-coherence",
        "coverage",
        "orphan",
        "reverse-orphan",
        "spec-id-format",
        "spec-status-counts",
        "lld-decisions",
        "dag",
    ];
    for (id, name) in ALL_NINE.iter().zip(expected) {
        assert_eq!(id.as_str(), name, "as_str() for {id:?}");
    }
}

#[test]
fn check_id_from_str_roundtrips() {
    for id in ALL_NINE {
        let back: CheckId = id.as_str().parse().unwrap();
        assert_eq!(back, id);
    }
}

#[test]
fn check_id_from_str_rejects_unknown() {
    let err: Result<CheckId, _> = "bogus-check".parse();
    assert!(err.is_err());
}

#[test]
fn severity_from_str_accepts_each_lowercase_form() {
    assert_eq!("error".parse::<Severity>().unwrap(), Severity::Error);
    assert_eq!("warning".parse::<Severity>().unwrap(), Severity::Warning);
    assert_eq!("info".parse::<Severity>().unwrap(), Severity::Info);
}

#[test]
fn severity_from_str_rejects_unknown() {
    assert!("bogus".parse::<Severity>().is_err());
}

#[test]
fn severity_serializes_lowercase() {
    assert_eq!(Severity::Warning.as_str(), "warning");
}

#[test]
fn check_id_serializes_kebab_case() {
    assert_eq!(CheckId::Schema.as_str(), "schema");
    assert_eq!(CheckId::ReferenceCoherence.as_str(), "reference-coherence");
    assert_eq!(CheckId::ReverseOrphan.as_str(), "reverse-orphan");
}

#[test]
fn every_check_name_round_trips() {
    for id in default_checks() {
        assert_eq!(CheckId::from_name(id.as_str()), Some(id));
    }
}

#[test]
fn unknown_names_are_reported_with_the_value() {
    assert_eq!(
        CheckId::parse_name("nope"),
        Err("unknown check id `nope`".to_string())
    );
    assert_eq!(
        Severity::parse_name("fatal"),
        Err("unknown severity `fatal` (expected one of: error, warning, info)".to_string())
    );
}

#[test]
fn default_checks_lists_every_check_once() {
    let ids = default_checks();
    assert_eq!(ids.len(), 13);
    assert_eq!(ids[0], CheckId::Schema);
    assert_eq!(ids[12], CheckId::DecisionsStructure);
    for (i, a) in ids.iter().enumerate() {
        for b in ids.iter().skip(i + 1) {
            assert_ne!(a, b);
        }
    }
}

#[test]
fn only_filter_absent_when_no_values() {
    assert_eq!(parse_only(&vec![]), Ok(None));
}

#[test]
fn only_filter_keeps_check_order_and_drops_duplicates() {
    let vals = vec!["dag".to_string(), "schema".to_string(), "dag".to_string()];
    assert_eq!(parse_only(&vals), Ok(Some(vec![CheckId::Schema, CheckId::Dag])));
}

#[test]
fn only_filter_rejects_first_unknown_value() {
    let vals = vec!["schema".to_string(), "bogus".to_string(), "worse".to_string()];
    assert_eq!(
        parse_only(&vals),
        Err("invalid --only value: unknown check id `bogus`".to_string())
    );
}

#[test]
fn exit_code_follows_fail_on_threshold() {
    let warn = finding_at(
        CheckId::Coverage,
        Severity::Warning,
        Category::Coverage,
        "w".to_string(),
        "a.md".to_string(),
        None,
    );
    let fs = vec![warn];
    assert!(!fails_at(&fs, Severity::Error));
    assert!(fails_at(&fs, Severity::Warning));
    assert!(fails_at(&fs, Severity::Info));
    assert_eq!(check_exit_code(&fs, Severity::Error), 0);
    assert_eq!(check_exit_code(&fs, Severity::Warning), 1);
    assert_eq!(check_exit_code(&vec![], Severity::Info), 0);
}

#[test]
fn severity_threshold_comparison() {
    assert!(Severity::Error.at_least(Severity::Warning));
    assert!(!Severity::Info.at_least(Severity::Warning));
    assert!(Severity::Warning.at_least(Severity::Warning));
    assert_eq!(Severity::Info.rank(), 0);
    assert_eq!(Severity::Error.rank(), 2);
}
