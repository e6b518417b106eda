use exspec::extractor::{FileAnalysis, TestAnalysis, TestFunction};
use exspec::query_utils::{
    apply_custom_assertion_fallback, apply_same_file_helper_tracing, helper_counts, saturating_total, capture_index, collect_mock_class_names, count_captures,
    count_captures_within_context, count_custom_assertion_lines, count_duplicate_literals,
    extract_suppression_from_previous_line, has_any_match, line_start_offsets, max_multiplicity,
};
use tree_sitter::Query;

#[test]
fn suppression_from_first_line_returns_empty() {
    assert!(extract_suppression_from_previous_line("any source", 0).is_empty());
}

#[test]
fn suppression_from_previous_line_parses_comment() {
    let source = "// exspec-ignore: T001\nfn test_foo() {}";
    let result = extract_suppression_from_previous_line(source, 1);
    assert_eq!(result.len(), 1);
    assert_eq!(result[0].0, "T001");
}

#[test]
fn suppression_from_previous_line_no_comment() {
    let source = "// normal comment\nfn test_foo() {}";
    let result = extract_suppression_from_previous_line(source, 1);
    assert!(result.is_empty());
}

#[test]
fn suppression_out_of_bounds_returns_empty() {
    let source = "single line";
    let result = extract_suppression_from_previous_line(source, 5);
    assert!(result.is_empty());
}

#[test]
fn suppression_from_previous_line_with_crlf() {
    let source = "# exspec-ignore: T002 \r\ndef test_foo():\r\n    pass\r\n";
    let result = extract_suppression_from_previous_line(source, 1);
    assert_eq!(result.len(), 1);
    assert_eq!(result[0].0, "T002");
}

fn python_language() -> tree_sitter::Language {
    tree_sitter_python::LANGUAGE.into()
}

fn parse(source: &str) -> tree_sitter::Tree {
    let mut parser = tree_sitter::Parser::new();
    parser.set_language(&python_language()).unwrap();
    parser.parse(source, None).unwrap()
}

fn private_query() -> Query {
    Query::new(
        &python_language(),
        "(attribute attribute: (identifier) @private_access (#match? @private_access \"^_[^_]\"))",
    )
    .unwrap()
}

#[test]
fn count_captures_within_context_basic() {
    let source = "def test_foo():\n    assert obj._count == 1\n";
    let tree = parse(source);
    let root = tree.root_node();
    let assertion_query = Query::new(&python_language(), "(assert_statement) @assertion").unwrap();
    let count = count_captures_within_context(
        &assertion_query,
        "assertion",
        &private_query(),
        "private_access",
        root,
        source.as_bytes(),
    );
    assert_eq!(count, 1, "should detect _count inside assert statement");
}

#[test]
fn count_captures_within_context_outside() {
    let source = "def test_foo():\n    x = obj._count\n    assert x == 1\n";
    let tree = parse(source);
    let root = tree.root_node();
    let assertion_query = Query::new(&python_language(), "(assert_statement) @assertion").unwrap();
    let count = count_captures_within_context(
        &assertion_query,
        "assertion",
        &private_query(),
        "private_access",
        root,
        source.as_bytes(),
    );
    assert_eq!(count, 0, "_count is outside assert, should not count");
}

#[test]
fn count_captures_within_context_no_outer() {
    let source = "def test_foo():\n    x = obj._count\n";
    let tree = parse(source);
    let root = tree.root_node();
    let assertion_query = Query::new(&python_language(), "(assert_statement) @assertion").unwrap();
    let count = count_captures_within_context(
        &assertion_query,
        "assertion",
        &private_query(),
        "private_access",
        root,
        source.as_bytes(),
    );
    assert_eq!(count, 0, "no assertions, should return 0");
}

#[test]
fn count_captures_missing_capture_returns_zero() {
    let lang = python_language();
    let query = Query::new(&lang, "(assert_statement) @assertion").unwrap();
    let source = "def test_foo():\n    assert True\n";
    let tree = parse(source);
    let root = tree.root_node();
    let count = count_captures(&query, "nonexistent", root, source.as_bytes());
    assert_eq!(count, 0, "missing capture name should return 0, not panic");
}

#[test]
fn collect_mock_class_names_missing_capture_returns_empty() {
    let lang = python_language();
    let query = Query::new(&lang, "(assert_statement) @assertion").unwrap();
    let source = "def test_foo():\n    assert True\n";
    let tree = parse(source);
    let root = tree.root_node();
    let names = collect_mock_class_names(&query, root, source.as_bytes(), |s| s.to_string());
    assert!(names.is_empty(), "missing @var_name capture should return empty vec, not panic");
}

#[test]
fn count_captures_within_context_missing_capture() {
    let source = "def test_foo():\n    assert obj._count == 1\n";
    let tree = parse(source);
    let root = tree.root_node();
    let assertion_query = Query::new(&python_language(), "(assert_statement) @assertion").unwrap();
    let count = count_captures_within_context(
        &assertion_query,
        "nonexistent",
        &private_query(),
        "private_access",
        root,
        source.as_bytes(),
    );
    assert_eq!(count, 0, "missing outer capture should return 0");
    let count = count_captures_within_context(
        &assertion_query,
        "assertion",
        &private_query(),
        "nonexistent",
        root,
        source.as_bytes(),
    );
    assert_eq!(count, 0, "missing inner capture should return 0");
}

#[test]
fn count_duplicate_literals_detects_repeated_value() {
    let source = "def test_foo():\n    assert calc(1) == 42\n    assert calc(2) == 42\n    assert calc(3) == 42\n";
    let tree = parse(source);
    let root = tree.root_node();
    let assertion_query = Query::new(&python_language(), "(assert_statement) @assertion").unwrap();
    let count = count_duplicate_literals(&assertion_query, root, source.as_bytes(), &["integer", "float", "string"]);
    assert_eq!(count, 3, "42 appears 3 times in assertions");
}

#[test]
fn count_duplicate_literals_trivial_excluded() {
    let source = "def test_foo():\n    assert calc(1) == 0\n    assert calc(2) == 0\n    assert calc(1) == 0\n";
    let tree = parse(source);
    let root = tree.root_node();
    let assertion_query = Query::new(&python_language(), "(assert_statement) @assertion").unwrap();
    let count = count_duplicate_literals(&assertion_query, root, source.as_bytes(), &["integer", "float", "string"]);
    assert_eq!(count, 0, "0, 1, 2 are all trivial and should be excluded");
}

#[test]
fn count_duplicate_literals_no_assertions() {
    let source = "def test_foo():\n    x = 42\n    y = 42\n    z = 42\n";
    let tree = parse(source);
    let root = tree.root_node();
    let assertion_query = Query::new(&python_language(), "(assert_statement) @assertion").unwrap();
    let count = count_duplicate_literals(&assertion_query, root, source.as_bytes(), &["integer", "float", "string"]);
    assert_eq!(count, 0, "no assertions, should return 0");
}

#[test]
fn count_duplicate_literals_missing_capture() {
    let source = "def test_foo():\n    assert 42 == 42\n";
    let tree = parse(source);
    let root = tree.root_node();
    let query = Query::new(&python_language(), "(assert_statement) @something_else").unwrap();
    let count = count_duplicate_literals(&query, root, source.as_bytes(), &["integer"]);
    assert_eq!(count, 0, "missing @assertion capture should return 0");
}

#[test]
fn count_custom_assertion_lines_empty_patterns() {
    let lines = vec!["util.assertEqual(x, 1)", "assert True"];
    assert_eq!(count_custom_assertion_lines(&lines, &[]), 0);
}

#[test]
fn count_custom_assertion_lines_matching() {
    let lines = vec!["    util.assertEqual(x, 1)", "    util.assertEqual(y, 2)", "    print(result)"];
    let patterns = vec!["util.assertEqual(".to_string()];
    assert_eq!(count_custom_assertion_lines(&lines, &patterns), 2);
}

#[test]
fn count_custom_assertion_lines_in_comment() {
    let lines = vec!["    # util.assertEqual(x, 1)", "    pass"];
    let patterns = vec!["util.assertEqual(".to_string()];
    assert_eq!(count_custom_assertion_lines(&lines, &patterns), 1);
}

#[test]
fn count_custom_assertion_lines_no_match() {
    let lines = vec!["    result = compute(42)", "    print(result)"];
    let patterns = vec!["util.assertEqual(".to_string()];
    assert_eq!(count_custom_assertion_lines(&lines, &patterns), 0);
}

#[test]
fn count_custom_assertion_lines_multiple_occurrences() {
    let lines = vec!["    myAssert(a) and myAssert(b)", "    myAssert(c)"];
    let patterns = vec!["myAssert(".to_string()];
    assert_eq!(count_custom_assertion_lines(&lines, &patterns), 2);
}

#[test]
fn count_custom_assertion_lines_multiple_patterns() {
    let lines = vec!["    customCheck(x)"];
    let patterns = vec!["util.assertEqual(".to_string(), "customCheck(".to_string()];
    assert_eq!(count_custom_assertion_lines(&lines, &patterns), 1);
}

fn one_function_file(line: usize, end_line: usize, assertion_count: usize) -> FileAnalysis {
    FileAnalysis {
        file: "test.py".to_string(),
        functions: vec![TestFunction {
            name: "test_foo".to_string(),
            file: "test.py".to_string(),
            line,
            end_line,
            analysis: TestAnalysis {
                assertion_count,
                ..Default::default()
            },
        }],
        has_pbt_import: false,
        has_contract_import: false,
        has_error_test: false,
        has_relational_assertion: false,
        parameterized_count: 0,
    }
}

#[test]
fn apply_fallback_skips_functions_with_assertions() {
    let source = "def test_foo():\n    util.assertEqual(x, 1)\n    assert True\n";
    let mut analysis = one_function_file(1, 3, 1);
    let patterns = vec!["util.assertEqual(".to_string()];
    apply_custom_assertion_fallback(&mut analysis, source, &patterns);
    assert_eq!(analysis.functions[0].analysis.assertion_count, 1);
}

#[test]
fn apply_fallback_increments_assertion_count() {
    let source = "def test_foo():\n    util.assertEqual(x, 1)\n    util.assertEqual(y, 2)\n";
    let mut analysis = one_function_file(1, 3, 0);
    let patterns = vec!["util.assertEqual(".to_string()];
    apply_custom_assertion_fallback(&mut analysis, source, &patterns);
    assert_eq!(analysis.functions[0].analysis.assertion_count, 2);
}

#[test]
fn apply_fallback_empty_patterns_noop() {
    let source = "def test_foo():\n    util.assertEqual(x, 1)\n";
    let mut analysis = one_function_file(1, 2, 0);
    apply_custom_assertion_fallback(&mut analysis, source, &[]);
    assert_eq!(analysis.functions[0].analysis.assertion_count, 0);
}

#[test]
fn empty_string_pattern_ignored() {
    let lines = vec!["assert True", "x = 1", "print(result)"];
    let patterns = vec!["".to_string()];
    assert_eq!(
        count_custom_assertion_lines(&lines, &patterns),
        0,
        "empty string pattern should not match any line"
    );
}

#[test]
fn mixed_empty_and_valid_patterns() {
    let lines = vec!["    assert_custom(x)", "    print(result)"];
    let patterns = vec!["".to_string(), "assert_custom".to_string()];
    assert_eq!(count_custom_assertion_lines(&lines, &patterns), 1, "only valid patterns should match");
}

#[test]
fn whitespace_only_pattern_matches() {
    let lines = vec!["assert_true", "no_space_here"];
    let patterns = vec![" ".to_string()];
    assert_eq!(
        count_custom_assertion_lines(&lines, &patterns),
        0,
        "whitespace pattern should not match lines without spaces"
    );
    let lines_with_space = vec!["assert true", "nospace"];
    assert_eq!(
        count_custom_assertion_lines(&lines_with_space, &patterns),
        1,
        "whitespace pattern should match lines containing spaces"
    );
}

#[test]
fn apply_fallback_end_line_exceeds_source() {
    let source = "def test_foo():\n    custom_assert(x)\n";
    let mut analysis = one_function_file(1, 12, 0);
    let patterns = vec!["custom_assert".to_string()];
    apply_custom_assertion_fallback(&mut analysis, source, &patterns);
    assert_eq!(
        analysis.functions[0].analysis.assertion_count, 1,
        "should handle end_line > source length without panic"
    );
}

#[test]
fn apply_fallback_empty_string_pattern_noop() {
    let source = "def test_foo():\n    some_call(x)\n    another_call(y)\n";
    let mut analysis = one_function_file(1, 3, 0);
    let patterns = vec!["".to_string()];
    apply_custom_assertion_fallback(&mut analysis, source, &patterns);
    assert_eq!(
        analysis.functions[0].analysis.assertion_count, 0,
        "empty-string-only patterns should not increment assertion_count"
    );
}

// --- Own tests ---

#[test]
fn apply_fallback_counts_only_body_lines() {
    let source = "util.check(a)\ndef test_foo():\n    util.check(b)\nutil.check(c)\n";
    let mut analysis = one_function_file(2, 3, 0);
    let patterns = vec!["util.check(".to_string()];
    apply_custom_assertion_fallback(&mut analysis, source, &patterns);
    assert_eq!(analysis.functions[0].analysis.assertion_count, 1);
}

#[test]
fn apply_fallback_line_zero_starts_at_first_line() {
    let source = "util.check(a)\nutil.check(b)\n";
    let mut analysis = one_function_file(0, 1, 0);
    let patterns = vec!["util.check(".to_string()];
    apply_custom_assertion_fallback(&mut analysis, source, &patterns);
    assert_eq!(analysis.functions[0].analysis.assertion_count, 1);
}

#[test]
fn has_any_match_finds_assertion() {
    let source = "def test_foo():\n    assert True\n";
    let tree = parse(source);
    let query = Query::new(&python_language(), "(assert_statement) @assertion").unwrap();
    assert!(has_any_match(&query, "assertion", tree.root_node(), source.as_bytes()));
    assert!(!has_any_match(&query, "other", tree.root_node(), source.as_bytes()));
    assert_eq!(count_captures(&query, "assertion", tree.root_node(), source.as_bytes()), 1);
}

#[test]
fn collect_mock_class_names_sorted_and_unique() {
    let source = "def test_foo():\n    mock_b = 1\n    mock_a = 2\n    mock_b = 3\n";
    let tree = parse(source);
    let query = Query::new(
        &python_language(),
        "(assignment left: (identifier) @var_name (#match? @var_name \"^mock_\"))",
    )
    .unwrap();
    let names = collect_mock_class_names(&query, tree.root_node(), source.as_bytes(), |s| {
        s.trim_start_matches("mock_").to_uppercase()
    });
    assert_eq!(names, vec!["A".to_string(), "B".to_string()]);
}

#[test]
fn capture_index_is_first_position() {
    let names = vec!["a".to_string(), "b".to_string(), "a".to_string()];
    assert_eq!(capture_index(&names, "a"), Some(0));
    assert_eq!(capture_index(&names, "b"), Some(1));
    assert_eq!(capture_index(&names, "c"), None);
}

#[test]
fn max_multiplicity_counts_most_frequent() {
    let texts: Vec<String> = vec!["x", "y", "x", "z", "x", "y"].into_iter().map(String::from).collect();
    assert_eq!(max_multiplicity(&texts), 3);
    assert_eq!(max_multiplicity(&Vec::new()), 0);
}

#[test]
fn line_starts_follow_newlines() {
    assert_eq!(line_start_offsets(b"ab\ncd\n"), vec![0, 3, 6]);
    assert_eq!(line_start_offsets(b""), vec![0]);
}

#[test]
fn apply_fallback_twice_is_once() {
    let source = "def test_foo():\n    util.assertEqual(x, 1)\n    util.assertEqual(y, 2)\n";
    let patterns = vec!["util.assertEqual(".to_string()];
    let mut once = one_function_file(1, 3, 0);
    apply_custom_assertion_fallback(&mut once, source, &patterns);
    assert_eq!(once.functions[0].analysis.assertion_count, 2);
    let mut twice = once.clone();
    apply_custom_assertion_fallback(&mut twice, source, &patterns);
    assert_eq!(twice.functions[0].analysis.assertion_count, 2);
    // A function that stays without assertions stays so.
    let mut none = one_function_file(1, 3, 0);
    let other = vec!["expect(".to_string()];
    apply_custom_assertion_fallback(&mut none, source, &other);
    apply_custom_assertion_fallback(&mut none, source, &other);
    assert_eq!(none.functions[0].analysis.assertion_count, 0);
}

#[test]
fn helper_tracing_adds_assertions_of_called_helpers() {
    let source = "def check(x):\n    assert x == 1\n    assert x > 0\n\ndef test_a():\n    check(1)\n    check(2)\n\ndef test_b():\n    pass\n\ndef test_c():\n    unknown()\n    assert True\n";
    let tree = parse(source);
    let call_query = Query::new(&python_language(), "(call function: (identifier) @call_name)").unwrap();
    let def_query = Query::new(
        &python_language(),
        "(function_definition name: (identifier) @def_name body: (block) @def_body)",
    )
    .unwrap();
    let assertion_query = Query::new(&python_language(), "(assert_statement) @assertion").unwrap();
    let func = |name: &str, line: usize, end_line: usize, assertion_count: usize| TestFunction {
        name: name.to_string(),
        file: "test_x.py".to_string(),
        line,
        end_line,
        analysis: TestAnalysis { assertion_count, ..Default::default() },
    };
    let mut analysis = FileAnalysis {
        file: "test_x.py".to_string(),
        functions: vec![func("test_a", 5, 7, 0), func("test_b", 9, 10, 0), func("test_c", 12, 14, 1)],
        has_pbt_import: false,
        has_contract_import: false,
        has_error_test: false,
        has_relational_assertion: false,
        parameterized_count: 0,
    };
    apply_same_file_helper_tracing(&mut analysis, &tree, source.as_bytes(), &call_query, &def_query, &assertion_query);
    // check is traced once, however often it is called.
    assert_eq!(analysis.functions[0].analysis.assertion_count, 2);
    assert_eq!(analysis.functions[1].analysis.assertion_count, 0);
    assert_eq!(analysis.functions[2].analysis.assertion_count, 1);
}

#[test]
fn helper_counts_follow_last_definitions() {
    let defs = vec![("a".to_string(), (1, 2)), ("b".to_string(), (3, 4)), ("a".to_string(), (5, 6))];
    let def_counts = vec![10, 20, 30];
    let called = vec!["a".to_string(), "c".to_string(), "b".to_string()];
    assert_eq!(helper_counts(&called, &defs, &def_counts), vec![30, 20]);
}

#[test]
fn saturating_total_sums_and_stops_at_max() {
    assert_eq!(saturating_total(&vec![]), 0);
    assert_eq!(saturating_total(&vec![2, 3, 4]), 9);
    assert_eq!(saturating_total(&vec![usize::MAX - 1, 1, 5]), usize::MAX);
}

fn cap(index: usize, start: usize, end: usize) -> exspec::syntax::Capture {
    exspec::syntax::Capture { index, start, end }
}

#[test]
fn named_captures_count_by_first_name_position() {
    let names = vec!["a".to_string(), "b".to_string(), "a".to_string()];
    let matches = vec![vec![cap(0, 0, 1), cap(1, 1, 2)], vec![cap(0, 3, 4), cap(2, 5, 6)]];
    assert_eq!(exspec::query_utils::count_named_captures(&names, "a", &matches), 2);
    assert_eq!(exspec::query_utils::count_named_captures(&names, "b", &matches), 1);
    assert_eq!(exspec::query_utils::count_named_captures(&names, "c", &matches), 0);
    assert!(exspec::query_utils::any_named_capture(&names, "b", &matches));
    assert!(!exspec::query_utils::any_named_capture(&names, "c", &matches));
}

#[test]
fn count_in_context_needs_an_outer_range() {
    let outer_names = vec!["assertion".to_string()];
    let inner_names = vec!["x".to_string()];
    let outer = vec![vec![cap(0, 10, 20)]];
    let inner = vec![vec![cap(0, 12, 15)], vec![cap(0, 18, 25)], vec![cap(0, 10, 20)]];
    assert_eq!(exspec::query_utils::count_in_context(&outer_names, "assertion", &outer, &inner_names, "x", &inner), 2);
    assert_eq!(exspec::query_utils::count_in_context(&outer_names, "other", &outer, &inner_names, "x", &inner), 0);
    assert_eq!(exspec::query_utils::count_in_context(&outer_names, "assertion", &outer, &inner_names, "y", &inner), 0);
}

#[test]
fn literal_repeats_over_visited_nodes() {
    let source = b"assert f(1) == 42 and g(42) == 'a' and h('a') == 7 and 42";
    // Offsets of the literal nodes in the source.
    let nodes: Vec<(&str, usize, usize)> = vec![
        ("integer", 9, 10),   // 1: trivial
        ("integer", 15, 17),  // 42
        ("integer", 24, 26),  // 42
        ("string", 31, 34),   // 'a'
        ("string", 41, 44),   // 'a'
        ("identifier", 24, 26),
        ("integer", 55, 57),  // 42, outside the assertion range
    ];
    let ranges = vec![(0, 50)];
    assert_eq!(exspec::query_utils::literal_repeats(&nodes, &["integer", "string"], &ranges, source), 2);
    assert_eq!(exspec::query_utils::literal_repeats(&nodes, &["float"], &ranges, source), 0);
}

#[test]
fn traced_count_adds_each_called_helper_once() {
    let source = b"b() a() b() c()";
    let call_names = vec!["call_name".to_string()];
    let call_matches = vec![vec![cap(0, 0, 1)], vec![cap(0, 4, 5)], vec![cap(0, 8, 9)], vec![cap(0, 12, 13)]];
    let defs = vec![("a".to_string(), (1, 2)), ("b".to_string(), (3, 4)), ("b".to_string(), (5, 6))];
    let def_counts = vec![1, 100, 3];
    // a: 1, b: its last definition, 3; c: no definition.
    assert_eq!(exspec::query_utils::traced_count(&call_names, &call_matches, &defs, &def_counts, source), 4);
    // Without a call_name capture nothing is traced.
    let other_names = vec!["callee".to_string()];
    assert_eq!(exspec::query_utils::traced_count(&other_names, &call_matches, &defs, &def_counts, source), 0);
    // The sum stops at usize::MAX.
    let big = vec![usize::MAX, 0, 1];
    assert_eq!(exspec::query_utils::traced_count(&call_names, &call_matches, &defs, &big, source), usize::MAX);
}

#[test]
fn mock_class_names_from_var_name_captures() {
    let source = b"mock_user mock_order mock_user";
    let names = vec!["other".to_string(), "var_name".to_string()];
    let matches = vec![vec![cap(1, 0, 9), cap(0, 0, 4)], vec![cap(1, 10, 20)], vec![cap(1, 21, 30)]];
    let r = exspec::query_utils::mock_class_names(&names, &matches, source, |s: &str| s.trim_start_matches("mock_").to_string());
    assert_eq!(r, vec!["order".to_string(), "user".to_string()]);
}

#[test]
fn helper_tracing_counts_a_helper_called_twice_once() {
    let src = "def h():\n    assert x\ndef t():\n    h()\n    h()\n";
    let tree = parse(src);
    let call_query = Query::new(&python_language(), "(call function: (identifier) @call_name)").unwrap();
    let def_query = Query::new(
        &python_language(),
        "(function_definition name: (identifier) @def_name body: (block) @def_body)",
    )
    .unwrap();
    let assertion_query = Query::new(&python_language(), "(assert_statement) @assertion").unwrap();
    let mut analysis = FileAnalysis {
        file: "t.py".to_string(),
        functions: vec![TestFunction {
            name: "t".to_string(),
            file: "t.py".to_string(),
            line: 3,
            end_line: 5,
            analysis: TestAnalysis::default(),
        }],
        has_pbt_import: false,
        has_contract_import: false,
        has_error_test: false,
        has_relational_assertion: false,
        parameterized_count: 0,
    };
    apply_same_file_helper_tracing(&mut analysis, &tree, src.as_bytes(), &call_query, &def_query, &assertion_query);
    assert_eq!(analysis.functions.len(), 1);
    assert_eq!(analysis.functions[0].analysis.assertion_count, 1);
}

#[test]
fn checked_queries_need_the_whole_source() {
    let source = "def test_foo():\n    assert calc(1) == 42\n    assert calc(2) == 42\n";
    let tree = parse(source);
    let root = tree.root_node();
    let q = Query::new(&python_language(), "(assert_statement) @assertion").unwrap();
    let short = &source.as_bytes()[..10];
    assert_eq!(exspec::query_utils::count_captures_checked(&q, "assertion", root, source.as_bytes()), Some(2));
    assert_eq!(exspec::query_utils::count_captures_checked(&q, "assertion", root, short), None);
    assert_eq!(exspec::query_utils::has_any_match_checked(&q, "assertion", root, source.as_bytes()), Some(true));
    assert_eq!(exspec::query_utils::has_any_match_checked(&q, "assertion", root, short), None);
    assert_eq!(
        exspec::query_utils::count_duplicate_literals_checked(&q, root, source.as_bytes(), &["integer"]),
        Some(2)
    );
    assert_eq!(exspec::query_utils::count_duplicate_literals_checked(&q, root, short, &["integer"]), None);
    assert_eq!(
        exspec::query_utils::count_captures_within_context_checked(&q, "assertion", &q, "assertion", root, short),
        None
    );
    let mocks = exspec::query_utils::collect_mock_class_names_checked(&q, root, short, |s: &str| s.to_string());
    assert!(mocks.is_none());
}

#[test]
fn checked_helper_tracing_leaves_a_short_source_alone() {
    let source = "def h():\n    assert x\ndef t():\n    h()\n";
    let tree = parse(source);
    let call_query = Query::new(&python_language(), "(call function: (identifier) @call_name)").unwrap();
    let def_query = Query::new(&python_language(), "(function_definition name: (identifier) @def_name body: (block) @def_body)").unwrap();
    let assertion_query = Query::new(&python_language(), "(assert_statement) @assertion").unwrap();
    let mut analysis = FileAnalysis {
        file: "t.py".to_string(),
        functions: vec![TestFunction {
            name: "t".to_string(),
            file: "t.py".to_string(),
            line: 3,
            end_line: 4,
            analysis: TestAnalysis::default(),
        }],
        has_pbt_import: false,
        has_contract_import: false,
        has_error_test: false,
        has_relational_assertion: false,
        parameterized_count: 0,
    };
    let ran = exspec::query_utils::apply_same_file_helper_tracing_checked(
        &mut analysis, &tree, &source.as_bytes()[..5], &call_query, &def_query, &assertion_query,
    );
    assert!(!ran);
    assert_eq!(analysis.functions[0].analysis.assertion_count, 0);
    let ran = exspec::query_utils::apply_same_file_helper_tracing_checked(
        &mut analysis, &tree, source.as_bytes(), &call_query, &def_query, &assertion_query,
    );
    assert!(ran);
    assert_eq!(analysis.functions[0].analysis.assertion_count, 1);
}
