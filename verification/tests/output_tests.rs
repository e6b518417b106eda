use exspec::extractor::{TestAnalysis, TestFunction};
use exspec::output::{compute_exit_code, format_terminal, report_format, summarize, OutputFormat, GUIDANCE};
use exspec::rules::{evaluate_rules, Config};
use exspec::rules::{Diagnostic, RuleId, Severity};

fn block_diag() -> Diagnostic {
    Diagnostic {
        rule: RuleId::new("T001"),
        severity: Severity::Block,
        file: "test.py".to_string(),
        line: Some(10),
        message: "assertion-free: test has no assertions".to_string(),
        details: None,
    }
}

fn warn_diag() -> Diagnostic {
    Diagnostic {
        rule: RuleId::new("T003"),
        severity: Severity::Warn,
        file: "test.py".to_string(),
        line: Some(5),
        message: "giant-test: 73 lines, threshold: 50".to_string(),
        details: None,
    }
}

#[test]
fn terminal_format_has_summary_header() {
    let output = format_terminal(&[block_diag()], 1, 1);
    assert!(output.starts_with("exspec v"));
    assert!(output.contains("1 test files"));
    assert!(output.contains("1 test functions"));
}

#[test]
fn terminal_format_has_score_footer() {
    let output = format_terminal(&[block_diag()], 1, 1);
    assert!(output.contains("Score: BLOCK 1 | WARN 0 | INFO 0 | PASS 0"));
}

#[test]
fn terminal_format_block() {
    let output = format_terminal(&[block_diag()], 1, 1);
    assert!(output.contains("BLOCK test.py:10 T001 assertion-free: test has no assertions"));
}

#[test]
fn terminal_format_warn() {
    let output = format_terminal(&[warn_diag()], 1, 1);
    assert!(output.contains("WARN test.py:5 T003 giant-test: 73 lines, threshold: 50"));
}

#[test]
fn terminal_format_multiple() {
    let output = format_terminal(&[block_diag(), warn_diag()], 2, 2);
    assert!(output.contains("BLOCK"));
    assert!(output.contains("WARN"));
}

#[test]
fn terminal_format_empty_has_header_and_footer() {
    let output = format_terminal(&[], 0, 0);
    assert!(output.contains("exspec v"));
    assert!(output.contains("Score:"));
}

#[test]
fn terminal_format_zero_files_shows_guidance() {
    let output = format_terminal(&[], 0, 0);
    assert!(
        output.contains("No test files found"),
        "expected guidance message, got: {output}"
    );
}

#[test]
fn pass_count_with_multi_violation_function() {
    let d1 = Diagnostic {
        rule: RuleId::new("T001"),
        severity: Severity::Block,
        file: "test.py".to_string(),
        line: Some(10),
        message: "assertion-free".to_string(),
        details: None,
    };
    let d2 = Diagnostic {
        rule: RuleId::new("T003"),
        severity: Severity::Warn,
        file: "test.py".to_string(),
        line: Some(10),
        message: "giant-test".to_string(),
        details: None,
    };
    let output = format_terminal(&[d1, d2], 1, 2);
    assert!(output.contains("PASS 1"), "expected PASS 1, got: {output}");
}

#[test]
fn pass_count_excludes_file_level_diagnostics() {
    let d1 = Diagnostic {
        rule: RuleId::new("T004"),
        severity: Severity::Info,
        file: "test.py".to_string(),
        line: None,
        message: "no-parameterized".to_string(),
        details: None,
    };
    let output = format_terminal(&[d1], 1, 1);
    assert!(output.contains("PASS 1"), "expected PASS 1, got: {output}");
}

#[test]
fn terminal_format_nonzero_files_no_guidance() {
    let output = format_terminal(&[], 1, 0);
    assert!(!output.contains("No test files found"));
}

#[test]
fn exit_code_block_returns_1() {
    assert_eq!(compute_exit_code(&[block_diag()], false), 1);
}

#[test]
fn exit_code_warn_only_returns_0() {
    assert_eq!(compute_exit_code(&[warn_diag()], false), 0);
}

#[test]
fn exit_code_strict_warn_returns_1() {
    assert_eq!(compute_exit_code(&[warn_diag()], true), 1);
}

#[test]
fn exit_code_empty_returns_0() {
    assert_eq!(compute_exit_code(&[], false), 0);
}

// --- Whole reports ---

#[test]
fn terminal_report_exact_text() {
    let output = format_terminal(&[block_diag(), warn_diag()], 3, 12);
    assert_eq!(
        output,
        "exspec v0.1.0 -- 3 test files, 12 test functions\n\
         BLOCK test.py:10 T001 assertion-free: test has no assertions\n\
         WARN test.py:5 T003 giant-test: 73 lines, threshold: 50\n\
         Score: BLOCK 1 | WARN 1 | INFO 0 | PASS 10"
    );
}

#[test]
fn terminal_report_empty_exact_text() {
    let output = format_terminal(&[], 0, 0);
    assert_eq!(
        output,
        "exspec v0.1.0 -- 0 test files, 0 test functions\n\
         No test files found. Check --lang filter or run from a directory containing test files.\n\
         Score: BLOCK 0 | WARN 0 | INFO 0 | PASS 0"
    );
}

#[test]
fn pass_count_never_below_zero() {
    let output = format_terminal(&[block_diag(), warn_diag()], 1, 1);
    assert!(output.ends_with("PASS 0"));
}

#[test]
fn summary_counts_each_severity() {
    let info = Diagnostic {
        rule: RuleId::new("T004"),
        severity: Severity::Info,
        file: "other.py".to_string(),
        line: Some(10),
        message: "x".to_string(),
        details: None,
    };
    let s = summarize(&[block_diag(), warn_diag(), info], 2, 5);
    assert_eq!((s.files, s.functions, s.block, s.warn, s.info, s.pass), (2, 5, 1, 1, 1, 2));
}

#[test]
fn exit_code_block_wins_over_strict() {
    assert_eq!(compute_exit_code(&[warn_diag(), block_diag()], false), 1);
    assert_eq!(compute_exit_code(&[warn_diag(), block_diag()], true), 1);
}

#[test]
fn pass_and_violated_add_up_for_rule_diagnostics() {
    let func = |name: &str, line: usize, assertion_count: usize, line_count: usize| TestFunction {
        name: name.to_string(),
        file: "t.py".to_string(),
        line,
        end_line: line + 1,
        analysis: TestAnalysis { assertion_count, line_count, ..Default::default() },
    };
    let functions = vec![func("a", 1, 0, 90), func("b", 10, 1, 5), func("c", 20, 0, 5), func("d", 30, 3, 3)];
    let diags = evaluate_rules(&functions, &Config::default());
    assert_eq!(diags.len(), 3);
    let s = summarize(&diags, 1, functions.len());
    // a (two diagnostics) and c are violated; b and d pass.
    assert_eq!(s.pass, 2);
    assert_eq!(s.block + s.warn + s.info, diags.len());
}

#[test]
fn file_level_diagnostics_leave_all_passing() {
    let d = Diagnostic {
        rule: RuleId::new("T000"),
        severity: Severity::Info,
        file: "x.py".to_string(),
        line: None,
        message: "file".to_string(),
        details: None,
    };
    let s = summarize(&[d.clone(), d], 1, 4);
    assert_eq!(s.pass, 4);
    assert_eq!(s.info, 2);
}

#[test]
fn report_format_by_name() {
    assert_eq!(report_format("json"), OutputFormat::Json);
    assert_eq!(report_format("terminal"), OutputFormat::Terminal);
    assert_eq!(report_format("sarif"), OutputFormat::Terminal);
    assert_eq!(report_format("JSON"), OutputFormat::Terminal);
}

#[test]
fn guidance_line_is_the_second_line() {
    let out = format_terminal(&[], 0, 0);
    assert_eq!(out.lines().nth(1), Some(GUIDANCE));
}
