use syntaqlite::config::{AnalysisMode, CheckConfig, CheckLevel, ValidationConfig};
use syntaqlite::diagnostics::{DiagnosticMessage, Severity};

#[test]
fn check_level_parse() {
    assert_eq!(CheckLevel::parse("allow").unwrap(), CheckLevel::Allow);
    assert_eq!(CheckLevel::parse("warn").unwrap(), CheckLevel::Warn);
    assert_eq!(CheckLevel::parse("deny").unwrap(), CheckLevel::Deny);
    assert!(CheckLevel::parse("invalid").is_err());
}

#[test]
fn check_level_to_severity() {
    assert_eq!(CheckLevel::Allow.to_severity(), None);
    assert_eq!(CheckLevel::Warn.to_severity(), Some(Severity::Warning));
    assert_eq!(CheckLevel::Deny.to_severity(), Some(Severity::Error));
}

#[test]
fn default_levels() {
    let c = CheckConfig::default();
    assert_eq!(c.parse_errors(), CheckLevel::Deny);
    assert_eq!(c.unknown_table(), CheckLevel::Warn);
    assert_eq!(c.unknown_column(), CheckLevel::Warn);
    assert_eq!(c.unknown_function(), CheckLevel::Warn);
    assert_eq!(c.function_arity(), CheckLevel::Warn);
    assert_eq!(c.cte_columns(), CheckLevel::Deny);
}

#[test]
fn builder_individual() {
    let c = CheckConfig::default().with_unknown_table(CheckLevel::Deny);
    assert_eq!(c.unknown_table(), CheckLevel::Deny);
    assert_eq!(c.unknown_column(), CheckLevel::Warn); // unchanged
}

#[test]
fn builder_schema_group() {
    let c = CheckConfig::default().with_schema(CheckLevel::Allow);
    assert_eq!(c.unknown_table(), CheckLevel::Allow);
    assert_eq!(c.unknown_column(), CheckLevel::Allow);
    assert_eq!(c.unknown_function(), CheckLevel::Allow);
    assert_eq!(c.function_arity(), CheckLevel::Allow);
    // Non-schema checks unchanged.
    assert_eq!(c.parse_errors(), CheckLevel::Deny);
    assert_eq!(c.cte_columns(), CheckLevel::Deny);
}

#[test]
fn builder_all_group() {
    let c = CheckConfig::default().with_all(CheckLevel::Allow);
    assert_eq!(c.parse_errors(), CheckLevel::Allow);
    assert_eq!(c.unknown_table(), CheckLevel::Allow);
    assert_eq!(c.cte_columns(), CheckLevel::Allow);
}

#[test]
fn set_by_name_works() {
    let c = CheckConfig::default().set_by_name("unknown-table", CheckLevel::Deny).unwrap();
    assert_eq!(c.unknown_table(), CheckLevel::Deny);
}

#[test]
fn set_by_name_unknown_category_errors() {
    let result = CheckConfig::default().set_by_name("nonexistent", CheckLevel::Warn);
    assert!(result.is_err());
}

#[test]
fn with_strict_schema_sets_deny() {
    let config = ValidationConfig::default().with_strict_schema();
    assert_eq!(config.checks().unknown_table(), CheckLevel::Deny);
    assert_eq!(config.checks().unknown_column(), CheckLevel::Deny);
    assert_eq!(config.checks().unknown_function(), CheckLevel::Deny);
    assert_eq!(config.checks().function_arity(), CheckLevel::Deny);
    // Non-schema checks unchanged.
    assert_eq!(config.checks().cte_columns(), CheckLevel::Deny);
    assert_eq!(config.checks().parse_errors(), CheckLevel::Deny);
}

#[test]
fn check_level_parse_error_message() {
    match CheckLevel::parse("loud") {
        Err(e) => assert_eq!(e, "invalid check level: \"loud\" (expected allow, warn, or deny)"),
        Ok(_) => panic!("expected an error"),
    }
}

#[test]
fn set_by_name_unknown_category_message() {
    match CheckConfig::default().set_by_name("nonexistent", CheckLevel::Warn) {
        Err(e) => assert_eq!(e, "unknown check category: nonexistent"),
        Ok(_) => panic!("expected an error"),
    }
}

#[test]
fn set_by_name_covers_every_listed_name() {
    for name in CheckConfig::category_names().into_iter().chain(CheckConfig::group_names()) {
        assert!(CheckConfig::default().set_by_name(name, CheckLevel::Allow).is_ok(), "{name}");
    }
}

#[test]
fn set_by_name_schema_group_leaves_parse_errors() {
    let c = CheckConfig::default().set_by_name("schema", CheckLevel::Allow).unwrap();
    assert_eq!(c.unknown_function(), CheckLevel::Allow);
    assert_eq!(c.function_arity(), CheckLevel::Allow);
    assert_eq!(c.parse_errors(), CheckLevel::Deny);
    assert_eq!(c.cte_columns(), CheckLevel::Deny);
    let all = CheckConfig::default().set_by_name("all", CheckLevel::Warn).unwrap();
    assert_eq!(all.parse_errors(), CheckLevel::Warn);
    assert_eq!(all.cte_columns(), CheckLevel::Warn);
}

#[test]
fn level_for_follows_message_category() {
    let c = CheckConfig::default().with_unknown_column(CheckLevel::Allow);
    assert_eq!(c.level_for(&DiagnosticMessage::UnknownColumn { column: "x".into(), table: None }), CheckLevel::Allow);
    assert_eq!(c.level_for(&DiagnosticMessage::UnknownTable { name: "t".into() }), CheckLevel::Warn);
    assert_eq!(c.level_for(&DiagnosticMessage::Other("syntax".into())), CheckLevel::Deny);
    assert_eq!(
        c.level_for(&DiagnosticMessage::FunctionArity { name: "f".into(), expected: vec![1], got: 2 }),
        CheckLevel::Warn
    );
}

#[test]
fn validation_config_defaults_and_builders() {
    let c = ValidationConfig::default();
    assert_eq!(c.suggestion_threshold(), 2);
    assert_eq!(c.checks().unknown_table(), CheckLevel::Warn);
    let c = c.with_suggestion_threshold(0).with_checks(CheckConfig::default().with_all(CheckLevel::Deny));
    assert_eq!(c.suggestion_threshold(), 0);
    assert_eq!(c.checks().parse_errors(), CheckLevel::Deny);
    assert_eq!(AnalysisMode::default(), AnalysisMode::Document);
}
