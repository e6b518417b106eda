//! The language front ends: Python and TypeScript.

use vstd::prelude::*;
use crate::extractor::{LanguageExtractor, TestFunction};
use crate::rules::Diagnostic;

verus! {

/// The Python front end.
pub struct PythonExtractor;

impl PythonExtractor {
    pub fn new() -> (r: Self)
        ensures
            r == PythonExtractor,
    {
        PythonExtractor
    }

    /// A `tree_sitter::Parser` (`Parser::new`, then `Parser::set_language`)
    /// set to the Python grammar of `tree-sitter-python`.  Setting the
    /// language fails only when the grammar's ABI version does not fit the
    /// `tree-sitter` library, and the two crates are taken in fitting
    /// versions.  Nothing is claimed of the parser.
    #[verifier::external_body]
    pub fn parser() -> tree_sitter::Parser {
        let mut parser = tree_sitter::Parser::new();
        parser.set_language(&tree_sitter_python::LANGUAGE.into()).expect("failed to load Python grammar");
        parser
    }
}

impl Default for PythonExtractor {
    fn default() -> (r: Self)
        ensures
            r == PythonExtractor,
    {
        PythonExtractor::new()
    }
}

impl LanguageExtractor for PythonExtractor {
    /// No test function is extracted yet.
    fn extract_test_functions(&self, source: &str, file_path: &str) -> (r: Vec<TestFunction>)
        ensures
            r@.len() == 0,
    {
        Vec::new()
    }

    /// No diagnostic is reported yet.
    fn check(&self, source: &str, file_path: &str) -> (r: Vec<Diagnostic>)
        ensures
            r@.len() == 0,
    {
        Vec::new()
    }
}

/// The TypeScript front end.
pub struct TypeScriptExtractor;

impl TypeScriptExtractor {
    pub fn new() -> (r: Self)
        ensures
            r == TypeScriptExtractor,
    {
        TypeScriptExtractor
    }

    /// A `tree_sitter::Parser` (`Parser::new`, then `Parser::set_language`)
    /// set to the TypeScript grammar of `tree-sitter-typescript`.  Setting
    /// the language fails only when the grammar's ABI version does not fit
    /// the `tree-sitter` library, and the two crates are taken in fitting
    /// versions.  Nothing is claimed of the parser.
    #[verifier::external_body]
    pub fn parser() -> tree_sitter::Parser {
        let mut parser = tree_sitter::Parser::new();
        parser.set_language(&tree_sitter_typescript::LANGUAGE_TYPESCRIPT.into()).expect("failed to load TypeScript grammar");
        parser
    }
}

impl Default for TypeScriptExtractor {
    fn default() -> (r: Self)
        ensures
            r == TypeScriptExtractor,
    {
        TypeScriptExtractor::new()
    }
}

impl LanguageExtractor for TypeScriptExtractor {
    /// No test function is extracted yet.
    fn extract_test_functions(&self, source: &str, file_path: &str) -> (r: Vec<TestFunction>)
        ensures
            r@.len() == 0,
    {
        Vec::new()
    }

    /// No diagnostic is reported yet.
    fn check(&self, source: &str, file_path: &str) -> (r: Vec<Diagnostic>)
        ensures
            r@.len() == 0,
    {
        Vec::new()
    }
}

} // verus!
