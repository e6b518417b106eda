use exspec::extractor::LanguageExtractor;
use exspec::lang::{PythonExtractor, TypeScriptExtractor};

#[test]
fn parse_python_source() {
    let source = "def test_example():\n    pass\n";
    let mut parser = PythonExtractor::parser();
    let tree = parser.parse(source, None).unwrap();
    assert_eq!(tree.root_node().kind(), "module");
}

#[test]
fn python_extractor_implements_language_extractor() {
    let extractor = PythonExtractor::new();
    let _: &dyn LanguageExtractor = &extractor;
}

#[test]
fn parse_typescript_source() {
    let source = "const x: number = 42;\n";
    let mut parser = TypeScriptExtractor::parser();
    let tree = parser.parse(source, None).unwrap();
    assert_eq!(tree.root_node().kind(), "program");
}

#[test]
fn typescript_extractor_implements_language_extractor() {
    let extractor = TypeScriptExtractor::new();
    let _: &dyn LanguageExtractor = &extractor;
}

#[test]
fn extractors_report_nothing_yet() {
    let py = PythonExtractor::default();
    assert!(py.extract_test_functions("def test_a():\n    assert 1\n", "test_a.py").is_empty());
    assert!(py.check("def test_a():\n    pass\n", "test_a.py").is_empty());
    let ts = TypeScriptExtractor::default();
    assert!(ts.extract_test_functions("it('a', () => {});", "a.test.ts").is_empty());
    assert!(ts.check("it('a', () => {});", "a.test.ts").is_empty());
}
