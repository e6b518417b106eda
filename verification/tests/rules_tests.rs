use std::str::FromStr;

use exspec::extractor::{TestAnalysis, TestFunction};
use exspec::rules::{evaluate_rules, Config, RuleId, Severity};

fn make_func(name: &str, analysis: TestAnalysis) -> TestFunction {
    TestFunction {
        name: name.to_string(),
        file: "test.py".to_string(),
        line: 1,
        end_line: 10,
        analysis,
    }
}

#[test]
fn severity_ordering() {
    assert!(Severity::Block > Severity::Warn);
    assert!(Severity::Warn > Severity::Info);
}

#[test]
fn severity_as_str_roundtrip() {
    for severity in [Severity::Block, Severity::Warn, Severity::Info] {
        let s = severity.as_str();
        let parsed = Severity::from_str(s).unwrap();
        assert_eq!(parsed, severity);
    }
}

#[test]
fn severity_to_exit_code() {
    assert_eq!(Severity::Block.exit_code(), 1);
    assert_eq!(Severity::Warn.exit_code(), 0);
    assert_eq!(Severity::Info.exit_code(), 0);
}

#[test]
fn severity_from_str_invalid() {
    assert!(Severity::from_str("UNKNOWN").is_err());
}

#[test]
fn rule_id_display() {
    let id = RuleId::new("T001");
    assert_eq!(id.to_string(), "T001");
}

#[test]
fn t001_assertion_count_zero_produces_block() {
    let funcs = vec![make_func(
        "test_no_assert",
        TestAnalysis {
            assertion_count: 0,
            ..Default::default()
        },
    )];
    let diags = evaluate_rules(&funcs, &Config::default());
    assert_eq!(diags.len(), 1);
    assert_eq!(diags[0].rule, RuleId::new("T001"));
    assert_eq!(diags[0].severity, Severity::Block);
}

#[test]
fn t001_assertion_count_positive_no_diagnostic() {
    let funcs = vec![make_func(
        "test_with_assert",
        TestAnalysis {
            assertion_count: 1,
            ..Default::default()
        },
    )];
    let diags = evaluate_rules(&funcs, &Config::default());
    assert!(diags.is_empty());
}

#[test]
fn t002_mock_count_exceeds_threshold_produces_warn() {
    let funcs = vec![make_func(
        "test_many_mocks",
        TestAnalysis {
            assertion_count: 1,
            mock_count: 6,
            mock_classes: vec![
                "a".into(),
                "b".into(),
                "c".into(),
                "d".into(),
                "e".into(),
                "f".into(),
            ],
            ..Default::default()
        },
    )];
    let diags = evaluate_rules(&funcs, &Config::default());
    assert_eq!(diags.len(), 1);
    assert_eq!(diags[0].rule, RuleId::new("T002"));
    assert_eq!(diags[0].severity, Severity::Warn);
}

#[test]
fn t002_mock_count_within_threshold_no_diagnostic() {
    let funcs = vec![make_func(
        "test_few_mocks",
        TestAnalysis {
            assertion_count: 1,
            mock_count: 2,
            mock_classes: vec!["db".into()],
            ..Default::default()
        },
    )];
    let diags = evaluate_rules(&funcs, &Config::default());
    assert!(diags.is_empty());
}

#[test]
fn t002_mock_class_count_exceeds_threshold_alone_produces_warn() {
    let funcs = vec![make_func(
        "test_many_classes",
        TestAnalysis {
            assertion_count: 1,
            mock_count: 4,
            mock_classes: vec!["a".into(), "b".into(), "c".into(), "d".into()],
            ..Default::default()
        },
    )];
    let diags = evaluate_rules(&funcs, &Config::default());
    assert_eq!(diags.len(), 1);
    assert_eq!(diags[0].rule, RuleId::new("T002"));
}

#[test]
fn t003_line_count_exceeds_threshold_produces_warn() {
    let funcs = vec![make_func(
        "test_giant",
        TestAnalysis {
            assertion_count: 1,
            line_count: 73,
            ..Default::default()
        },
    )];
    let diags = evaluate_rules(&funcs, &Config::default());
    assert_eq!(diags.len(), 1);
    assert_eq!(diags[0].rule, RuleId::new("T003"));
    assert_eq!(diags[0].severity, Severity::Warn);
}

#[test]
fn t003_line_count_at_threshold_no_diagnostic() {
    let funcs = vec![make_func(
        "test_boundary",
        TestAnalysis {
            assertion_count: 1,
            line_count: 50,
            ..Default::default()
        },
    )];
    let diags = evaluate_rules(&funcs, &Config::default());
    assert!(diags.is_empty());
}

#[test]
fn disabled_rule_not_reported() {
    let funcs = vec![make_func(
        "test_no_assert",
        TestAnalysis {
            assertion_count: 0,
            ..Default::default()
        },
    )];
    let config = Config {
        disabled_rules: vec![RuleId::new("T001")],
        ..Config::default()
    };
    let diags = evaluate_rules(&funcs, &config);
    assert!(diags.is_empty());
}

#[test]
fn suppressed_rule_not_reported() {
    let funcs = vec![make_func(
        "test_many_mocks",
        TestAnalysis {
            assertion_count: 1,
            mock_count: 6,
            mock_classes: vec![
                "a".into(),
                "b".into(),
                "c".into(),
                "d".into(),
                "e".into(),
                "f".into(),
            ],
            suppressed_rules: vec![RuleId::new("T002")],
            ..Default::default()
        },
    )];
    let diags = evaluate_rules(&funcs, &Config::default());
    assert!(diags.is_empty());
}

#[test]
fn multiple_violations_reported() {
    let funcs = vec![make_func(
        "test_bad",
        TestAnalysis {
            assertion_count: 0,
            line_count: 73,
            ..Default::default()
        },
    )];
    let diags = evaluate_rules(&funcs, &Config::default());
    assert_eq!(diags.len(), 2);
    let rule_ids: Vec<&str> = diags.iter().map(|d| d.rule.0.as_str()).collect();
    assert!(rule_ids.contains(&"T001"));
    assert!(rule_ids.contains(&"T003"));
}

// --- Messages, parsing and composition ---

#[test]
fn rule_messages_render_counts() {
    let funcs = vec![make_func(
        "test_bad",
        TestAnalysis {
            assertion_count: 0,
            mock_count: 12,
            mock_classes: vec!["a".into(), "b".into(), "c".into(), "d".into()],
            line_count: 107,
            ..Default::default()
        },
    )];
    let diags = evaluate_rules(&funcs, &Config::default());
    assert_eq!(diags.len(), 3);
    assert_eq!(diags[0].message, "assertion-free: test has no assertions");
    assert_eq!(
        diags[1].message,
        "mock-overuse: 12 mocks (4 classes), threshold: 5 mocks / 3 classes"
    );
    assert_eq!(diags[2].message, "giant-test: 107 lines, threshold: 50");
    assert_eq!(diags[2].file, "test.py");
    assert_eq!(diags[2].line, Some(1));
    assert!(diags[2].details.is_none());
}

#[test]
fn severity_parse_error_quotes_input() {
    assert_eq!(Severity::parse("warn"), Err("unknown severity: warn".to_string()));
    assert_eq!(Severity::parse("WARN"), Ok(Severity::Warn));
}

#[test]
fn evaluate_rules_concatenates_per_function() {
    let a = make_func("a", TestAnalysis { assertion_count: 0, ..Default::default() });
    let b = make_func("b", TestAnalysis { assertion_count: 1, line_count: 60, ..Default::default() });
    let both = evaluate_rules(&[a.clone(), b.clone()], &Config::default());
    let first = evaluate_rules(&[a], &Config::default());
    let second = evaluate_rules(&[b], &Config::default());
    assert_eq!(both.len(), first.len() + second.len());
    assert_eq!(both[0].rule, first[0].rule);
    assert_eq!(both[1].rule, second[0].rule);
}

#[test]
fn config_default_thresholds() {
    let c = Config::default();
    assert_eq!(c.mock_max, 5);
    assert_eq!(c.mock_class_max, 3);
    assert_eq!(c.test_max_lines, 50);
    assert!(c.disabled_rules.is_empty());
}

#[test]
fn every_diagnostic_points_at_its_function() {
    let mut a = make_func("test_a", TestAnalysis { assertion_count: 0, line_count: 80, ..Default::default() });
    a.file = "a.py".to_string();
    a.line = 3;
    let mut b = make_func("test_b", TestAnalysis { assertion_count: 2, mock_count: 9, ..Default::default() });
    b.file = "b.py".to_string();
    b.line = 12;
    let diags = evaluate_rules(&[a, b], &Config::default());
    let places: Vec<(String, Option<usize>, bool)> =
        diags.iter().map(|d| (d.file.clone(), d.line, d.details.is_none())).collect();
    assert_eq!(
        places,
        vec![
            ("a.py".to_string(), Some(3), true),
            ("a.py".to_string(), Some(3), true),
            ("b.py".to_string(), Some(12), true),
        ]
    );
    // Only T001 blocks.
    for d in &diags {
        assert_eq!(d.severity == Severity::Block, d.rule.0 == "T001");
    }
}
