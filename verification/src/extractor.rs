//! What an analysis of a test file yields, and the interface of a language
//! front end.

use vstd::prelude::*;
use crate::rules::{Diagnostic, RuleId};

verus! {

/// The facts about one test function that the rules look at.
#[derive(Debug, Clone)]
pub struct TestAnalysis {
    pub assertion_count: usize,
    pub mock_count: usize,
    pub mock_classes: Vec<String>,
    pub line_count: usize,
    pub suppressed_rules: Vec<RuleId>,
}

impl Default for TestAnalysis {
    fn default() -> (r: Self)
        ensures
            r.assertion_count == 0,
            r.mock_count == 0,
            r.mock_classes@.len() == 0,
            r.line_count == 0,
            r.suppressed_rules@.len() == 0,
    {
        TestAnalysis {
            assertion_count: 0,
            mock_count: 0,
            mock_classes: Vec::new(),
            line_count: 0,
            suppressed_rules: Vec::new(),
        }
    }
}

/// A test function found in a file; `line` and `end_line` are 1-based and
/// inclusive.
#[derive(Debug, Clone)]
pub struct TestFunction {
    pub name: String,
    pub file: String,
    pub line: usize,
    pub end_line: usize,
    pub analysis: TestAnalysis,
}

/// The test functions of one file, with the file-level facts.
#[derive(Debug, Clone)]
pub struct FileAnalysis {
    pub file: String,
    pub functions: Vec<TestFunction>,
    pub has_pbt_import: bool,
    pub has_contract_import: bool,
    pub has_error_test: bool,
    pub has_relational_assertion: bool,
    pub parameterized_count: usize,
}

/// A language front end: finds the test functions of a source file and
/// reports the diagnostics for them.
pub trait LanguageExtractor {
    fn extract_test_functions(&self, source: &str, file_path: &str) -> Vec<TestFunction>;

    fn check(&self, source: &str, file_path: &str) -> Vec<Diagnostic>;
}

} // verus!
