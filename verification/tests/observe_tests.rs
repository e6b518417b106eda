use exspec::observe::{
    candidate_files, collect_import_matches, enter_barrel, record_import, first_within_root, map_by_stems, map_test_files,
    nested_symbols, push_result, re_export_applies, record_matches,
    BarrelAnswer, BarrelReExport, BarrelRequest, BarrelWalk, ImportMapping, MappingStrategy, ObserveExtractor, ProductionFunction,
    MAX_BARREL_DEPTH,
};
use std::path::Path;

struct MockExtractor;

impl ObserveExtractor for MockExtractor {
    fn extract_production_functions(&self, _source: &str, _file_path: &str) -> Vec<ProductionFunction> {
        vec![]
    }
    fn extract_imports(&self, _source: &str, _file_path: &str) -> Vec<ImportMapping> {
        vec![]
    }
    fn extract_all_import_specifiers(&self, _source: &str) -> Vec<(String, Vec<String>)> {
        vec![]
    }
    fn extract_barrel_re_exports(&self, _source: &str, _file_path: &str) -> Vec<BarrelReExport> {
        vec![]
    }
    fn source_extensions(&self) -> &[&str] {
        &["ts", "tsx", "js", "jsx"]
    }
    fn index_file_names(&self) -> &[&str] {
        &["index.ts", "index.tsx"]
    }
    fn production_stem<'a>(&self, path: &'a str) -> Option<&'a str> {
        Path::new(path).file_stem()?.to_str()
    }
    fn test_stem<'a>(&self, path: &'a str) -> Option<&'a str> {
        let stem = Path::new(path).file_stem()?.to_str()?;
        stem.strip_suffix(".spec").or_else(|| stem.strip_suffix(".test"))
    }
    fn is_non_sut_helper(&self, _file_path: &str, _is_known_production: bool) -> bool {
        false
    }
}

struct ConfigurableMockExtractor {
    helper_file_paths: Vec<String>,
}

impl ConfigurableMockExtractor {
    fn new() -> Self {
        Self { helper_file_paths: vec![] }
    }

    fn with_helpers(helper_paths: Vec<String>) -> Self {
        Self { helper_file_paths: helper_paths }
    }
}

impl ObserveExtractor for ConfigurableMockExtractor {
    fn extract_production_functions(&self, _source: &str, _file_path: &str) -> Vec<ProductionFunction> {
        vec![]
    }
    fn extract_imports(&self, _source: &str, _file_path: &str) -> Vec<ImportMapping> {
        vec![]
    }
    fn extract_all_import_specifiers(&self, _source: &str) -> Vec<(String, Vec<String>)> {
        vec![]
    }
    fn extract_barrel_re_exports(&self, _source: &str, _file_path: &str) -> Vec<BarrelReExport> {
        vec![]
    }
    fn source_extensions(&self) -> &[&str] {
        &["ts", "tsx"]
    }
    fn index_file_names(&self) -> &[&str] {
        &["index.ts"]
    }
    fn production_stem<'a>(&self, path: &'a str) -> Option<&'a str> {
        Path::new(path).file_stem()?.to_str()
    }
    fn test_stem<'a>(&self, path: &'a str) -> Option<&'a str> {
        let stem = Path::new(path).file_stem()?.to_str()?;
        stem.strip_suffix(".spec").or_else(|| stem.strip_suffix(".test"))
    }
    fn is_non_sut_helper(&self, file_path: &str, _is_known_production: bool) -> bool {
        self.helper_file_paths.iter().any(|h| h == file_path)
    }
}

#[test]
fn tc01_map_test_files_stem_matching() {
    let mock = MockExtractor;
    let production = vec!["src/user.service.ts".to_string()];
    let tests = vec!["src/user.service.spec.ts".to_string()];
    let result = map_test_files(&mock, &production, &tests);
    assert_eq!(result.len(), 1);
    assert_eq!(result[0].production_file, "src/user.service.ts");
    assert_eq!(result[0].test_files, vec!["src/user.service.spec.ts"]);
    assert_eq!(result[0].strategy, MappingStrategy::FileNameConvention);
}

#[test]
fn tc01b_map_test_files_no_match() {
    let mock = MockExtractor;
    let production = vec!["src/user.service.ts".to_string()];
    let tests = vec!["src/order.service.spec.ts".to_string()];
    let result = map_test_files(&mock, &production, &tests);
    assert_eq!(result.len(), 1);
    assert!(result[0].test_files.is_empty());
}

#[test]
fn tc03_is_barrel_file_default_impl() {
    let mock = MockExtractor;
    assert!(mock.is_barrel_file("src/index.ts"));
    assert!(mock.is_barrel_file("src/index.tsx"));
    assert!(!mock.is_barrel_file("src/user.service.ts"));
    assert!(!mock.is_barrel_file("src/index.rs"));
}

#[test]
fn tc06_trait_is_send_sync() {
    fn assert_send_sync<T: Send + Sync>() {}
    assert_send_sync::<MockExtractor>();
    let _: Box<dyn ObserveExtractor + Send + Sync> = Box::new(MockExtractor);
}

#[test]
fn core_cim_01_barrel_file_skips_direct_match_branch() {
    let ext = ConfigurableMockExtractor::new();
    let barrel_path = "/project/src/index.ts";
    let canonical_to_idx: Vec<(String, usize)> = vec![(barrel_path.to_string(), 0)];
    let mut indices: Vec<usize> = Vec::new();
    // The barrel re-exports nothing that could be resolved.
    let barrel_resolution: Vec<String> = vec![];
    collect_import_matches(&ext, barrel_path, &canonical_to_idx, &mut indices, &barrel_resolution);
    assert!(indices.is_empty(), "barrel path itself must not be added via direct-match branch");
}

#[test]
fn core_cim_02_non_barrel_direct_match() {
    let ext = ConfigurableMockExtractor::new();
    let prod_path = "/project/src/user.service.ts";
    let canonical_to_idx: Vec<(String, usize)> = vec![(prod_path.to_string(), 0)];
    let mut indices: Vec<usize> = Vec::new();
    collect_import_matches(&ext, prod_path, &canonical_to_idx, &mut indices, &[]);
    assert!(indices.contains(&0), "production file index must be inserted for non-barrel direct match");
    assert_eq!(indices.len(), 1);
}

#[test]
fn core_cim_03_helper_file_skipped() {
    let helper_path = "/project/src/test-utils.ts";
    let ext = ConfigurableMockExtractor::with_helpers(vec![helper_path.to_string()]);
    let canonical_to_idx: Vec<(String, usize)> = vec![(helper_path.to_string(), 0)];
    let mut indices: Vec<usize> = Vec::new();
    collect_import_matches(&ext, helper_path, &canonical_to_idx, &mut indices, &[]);
    assert!(indices.is_empty(), "helper files must be skipped and not added to indices");
}

#[test]
fn core_cim_04_unknown_file_skipped() {
    let ext = ConfigurableMockExtractor::new();
    let unknown_path = "/project/src/unknown.service.ts";
    let canonical_to_idx: Vec<(String, usize)> = Vec::new();
    let mut indices: Vec<usize> = Vec::new();
    collect_import_matches(&ext, unknown_path, &canonical_to_idx, &mut indices, &[]);
    assert!(indices.is_empty(), "file not in canonical_to_idx must be skipped");
}

#[test]
fn barrel_resolution_records_reexported_production_files() {
    let helper = "/project/src/test-utils.ts".to_string();
    let ext = ConfigurableMockExtractor::with_helpers(vec![helper.clone()]);
    let canonical_to_idx: Vec<(String, usize)> = vec![
        ("/project/src/user.service.ts".to_string(), 0),
        ("/project/src/order.service.ts".to_string(), 1),
        (helper.clone(), 2),
    ];
    let mut indices: Vec<usize> = vec![1];
    let resolved = vec![
        "/project/src/user.service.ts".to_string(),
        helper,
        "/project/src/order.service.ts".to_string(),
        "/project/src/unknown.ts".to_string(),
    ];
    collect_import_matches(&ext, "/project/src/index.ts", &canonical_to_idx, &mut indices, &resolved);
    assert_eq!(indices, vec![1, 0]);
}

#[test]
fn record_matches_adds_each_index_once() {
    let files = vec!["a.ts".to_string(), "b.ts".to_string(), "a.ts".to_string()];
    let helpers = vec![false, true, false];
    let map = vec![("a.ts".to_string(), 3), ("b.ts".to_string(), 4)];
    let mut indices: Vec<usize> = Vec::new();
    record_matches(&files, &helpers, &map, &mut indices);
    assert_eq!(indices, vec![3]);
}

#[test]
fn map_by_stems_requires_same_directory() {
    let production = vec!["src/a.ts".to_string(), "src/b.ts".to_string()];
    let production_stems = vec![Some("a".to_string()), None];
    let tests = vec!["src/a.spec.ts".to_string(), "test/a.spec.ts".to_string(), "src/b.spec.ts".to_string()];
    let test_stems = vec![Some("a".to_string()), Some("a".to_string()), Some("b".to_string())];
    let result = map_by_stems(&production, &production_stems, &tests, &test_stems);
    assert_eq!(result.len(), 2);
    assert_eq!(result[0].test_files, vec!["src/a.spec.ts".to_string()]);
    assert!(result[1].test_files.is_empty());
}

#[test]
fn candidate_files_with_and_without_extension() {
    let exts = ["ts", "tsx"];
    let index = ["index.ts"];
    assert_eq!(candidate_files(&exts, &index, "/p/src/user.ts"), vec!["/p/src/user.ts".to_string()]);
    assert_eq!(
        candidate_files(&exts, &index, "/p/src/user"),
        vec![
            "/p/src/user.ts".to_string(),
            "/p/src/user.tsx".to_string(),
            "/p/src/user/index.ts".to_string(),
        ]
    );
    // An extension that the language does not have is not one of its own.
    assert_eq!(
        candidate_files(&exts, &index, "/p/src/user.service"),
        vec![
            "/p/src/user.service.ts".to_string(),
            "/p/src/user.service.tsx".to_string(),
            "/p/src/user.service/index.ts".to_string(),
        ]
    );
}

#[test]
fn first_within_root_skips_outside_and_missing() {
    let canonical = vec![None, Some("/other/a.ts".to_string()), Some("/project/src/a.ts".to_string())];
    assert_eq!(first_within_root(&canonical, "/project"), Some("/project/src/a.ts".to_string()));
    assert_eq!(first_within_root(&canonical, "/nowhere"), None);
    // Components are compared whole.
    let canonical2 = vec![Some("/projectx/a.ts".to_string())];
    assert_eq!(first_within_root(&canonical2, "/project"), None);
}

fn re_export(symbols: &[&str], wildcard: bool, namespace_wildcard: bool) -> BarrelReExport {
    BarrelReExport {
        symbols: symbols.iter().map(|s| s.to_string()).collect(),
        from_specifier: "./user".to_string(),
        wildcard,
        namespace_wildcard,
    }
}

#[test]
fn re_export_applies_by_symbol_overlap() {
    let wanted = vec!["UserService".to_string()];
    assert!(re_export_applies(&re_export(&["UserService", "Other"], false, false), &wanted));
    assert!(!re_export_applies(&re_export(&["Other"], false, false), &wanted));
    assert!(re_export_applies(&re_export(&[], true, false), &wanted));
    assert!(re_export_applies(&re_export(&["Other"], false, false), &[]));
}

#[test]
fn nested_symbols_drop_for_namespace() {
    let wanted = vec!["A".to_string(), "B".to_string()];
    assert!(nested_symbols(&re_export(&[], true, true), &wanted).is_empty());
    assert_eq!(nested_symbols(&re_export(&[], true, false), &wanted), wanted);
}

#[test]
fn push_result_keeps_first_occurrence() {
    let mut results = vec!["a".to_string()];
    push_result(&mut results, "b".to_string());
    push_result(&mut results, "a".to_string());
    assert_eq!(results, vec!["a".to_string(), "b".to_string()]);
}

#[test]
fn barrel_depth_limit_is_three() {
    assert_eq!(MAX_BARREL_DEPTH, 3);
}

#[test]
fn enter_barrel_once_and_below_depth() {
    let mut visited: Vec<String> = Vec::new();
    assert!(enter_barrel(0, "/p/index.ts", &mut visited));
    assert!(!enter_barrel(1, "/p/index.ts", &mut visited));
    assert!(enter_barrel(2, "/p/a/index.ts", &mut visited));
    assert!(!enter_barrel(MAX_BARREL_DEPTH, "/p/b/index.ts", &mut visited));
    assert_eq!(visited, vec!["/p/index.ts".to_string(), "/p/a/index.ts".to_string()]);
}

#[test]
fn import_matches_never_repeat_an_index() {
    let ext = ConfigurableMockExtractor::new();
    let canonical_to_idx: Vec<(String, usize)> =
        vec![("/p/a.ts".to_string(), 0), ("/p/b.ts".to_string(), 1)];
    let mut indices: Vec<usize> = vec![0];
    collect_import_matches(&ext, "/p/a.ts", &canonical_to_idx, &mut indices, &[]);
    assert_eq!(indices, vec![0]);
    let resolved = vec!["/p/b.ts".to_string(), "/p/a.ts".to_string(), "/p/b.ts".to_string()];
    collect_import_matches(&ext, "/p/index.ts", &canonical_to_idx, &mut indices, &resolved);
    assert_eq!(indices, vec![0, 1]);
}

/// A language whose barrel "sources" list re-exports one per line as
/// `specifier|symbols|wildcard|namespace`.
struct BarrelMock;

impl ObserveExtractor for BarrelMock {
    fn extract_production_functions(&self, _source: &str, _file_path: &str) -> Vec<ProductionFunction> {
        vec![]
    }
    fn extract_imports(&self, _source: &str, _file_path: &str) -> Vec<ImportMapping> {
        vec![]
    }
    fn extract_all_import_specifiers(&self, _source: &str) -> Vec<(String, Vec<String>)> {
        vec![]
    }
    fn extract_barrel_re_exports(&self, source: &str, _file_path: &str) -> Vec<BarrelReExport> {
        source
            .lines()
            .map(|l| {
                let parts: Vec<&str> = l.split('|').collect();
                BarrelReExport {
                    from_specifier: parts[0].to_string(),
                    symbols: parts[1].split(',').filter(|s| !s.is_empty()).map(|s| s.to_string()).collect(),
                    wildcard: parts[2] == "1",
                    namespace_wildcard: parts[3] == "1",
                }
            })
            .collect()
    }
    fn source_extensions(&self) -> &[&str] {
        &["ts"]
    }
    fn index_file_names(&self) -> &[&str] {
        &["index.ts"]
    }
    fn production_stem<'a>(&self, path: &'a str) -> Option<&'a str> {
        Path::new(path).file_stem()?.to_str()
    }
    fn test_stem<'a>(&self, _path: &'a str) -> Option<&'a str> {
        None
    }
    fn is_non_sut_helper(&self, file_path: &str, _is_known_production: bool) -> bool {
        file_path.contains("helper")
    }
    fn file_exports_any_symbol(&self, path: &str, _symbols: &[String]) -> bool {
        !path.contains("noexport")
    }
}

/// Runs a barrel walk against an in-memory file system; gives the results
/// and the barrel files read, in order.
fn run_walk(
    files: &[(&str, &str)],
    resolutions: &[(&str, &str, &str)],
    start: &str,
    symbols: &[String],
    root: &str,
) -> (Vec<String>, Vec<String>) {
    let ext = BarrelMock;
    let exists = |p: &str| files.iter().any(|(f, _)| *f == p);
    let mut reads = Vec::new();
    let (mut walk, mut request) = BarrelWalk::new(start, symbols, root);
    loop {
        let reply = match request {
            BarrelRequest::Done => break,
            BarrelRequest::CanonicalBarrel(p) | BarrelRequest::CanonicalTarget(p) => {
                BarrelAnswer::Path(if exists(&p) { Some(p.clone()) } else { None })
            }
            BarrelRequest::ReadBarrel(p) => {
                reads.push(p.clone());
                BarrelAnswer::Text(files.iter().find(|(f, _)| *f == p.as_str()).map(|(_, t)| t.to_string()))
            }
            BarrelRequest::ReExports(text, path) => BarrelAnswer::ReExports(ext.extract_barrel_re_exports(&text, &path)),
            BarrelRequest::Resolve(spec, from) => BarrelAnswer::Path(
                resolutions
                    .iter()
                    .find(|(s, f, _)| *s == spec.as_str() && *f == from.as_str())
                    .map(|(_, _, to)| to.to_string()),
            ),
            BarrelRequest::IsBarrel(p) => BarrelAnswer::Flag(ext.is_barrel_file(&p)),
            BarrelRequest::IsHelper(p) => BarrelAnswer::Flag(ext.is_non_sut_helper(&p, false)),
            BarrelRequest::ExportsAny(p, wanted) => BarrelAnswer::Flag(ext.file_exports_any_symbol(&p, &wanted)),
        };
        request = walk.answer(reply);
    }
    (walk.into_results(), reads)
}

#[test]
fn barrel_walk_follows_nested_barrels_depth_first() {
    let files = [
        ("/p/index.ts", "./user|UserService|0|0\n./nested|x|1|0\n./helper|UserService|0|0\n./order|Other|0|0"),
        ("/p/nested/index.ts", "./deep|a|1|0"),
        ("/p/user.ts", ""),
        ("/p/nested/deep.ts", ""),
        ("/p/helper.ts", ""),
        ("/p/order.ts", ""),
    ];
    let resolutions = [
        ("./user", "/p/index.ts", "/p/user.ts"),
        ("./nested", "/p/index.ts", "/p/nested/index.ts"),
        ("./helper", "/p/index.ts", "/p/helper.ts"),
        ("./order", "/p/index.ts", "/p/order.ts"),
        ("./deep", "/p/nested/index.ts", "/p/nested/deep.ts"),
    ];
    let (results, reads) = run_walk(&files, &resolutions, "/p/index.ts", &["UserService".to_string()], "/p");
    assert_eq!(results, vec!["/p/user.ts".to_string(), "/p/nested/deep.ts".to_string()]);
    assert_eq!(reads, vec!["/p/index.ts".to_string(), "/p/nested/index.ts".to_string()]);
}

#[test]
fn barrel_walk_reads_each_barrel_once_and_keeps_to_the_root() {
    let files = [
        ("/p/a/index.ts", "../b|x|1|0\n../out|x|1|0\n./same|x|1|0\n./same2|x|1|0"),
        ("/p/b/index.ts", "../a|x|1|0"),
        ("/q/out.ts", ""),
        ("/p/a/same.ts", ""),
    ];
    let resolutions = [
        ("../b", "/p/a/index.ts", "/p/b/index.ts"),
        ("../a", "/p/b/index.ts", "/p/a/index.ts"),
        ("../out", "/p/a/index.ts", "/q/out.ts"),
        ("./same", "/p/a/index.ts", "/p/a/same.ts"),
        ("./same2", "/p/a/index.ts", "/p/a/same.ts"),
    ];
    let (results, reads) = run_walk(&files, &resolutions, "/p/a/index.ts", &[], "/p");
    assert_eq!(results, vec!["/p/a/same.ts".to_string()]);
    assert_eq!(reads, vec!["/p/a/index.ts".to_string(), "/p/b/index.ts".to_string()]);
}

#[test]
fn barrel_walk_stops_at_depth_three() {
    let files = [
        ("/p/1/index.ts", "../2|x|1|0"),
        ("/p/2/index.ts", "../3|x|1|1"),
        ("/p/3/index.ts", "../4|x|1|0\n./leaf|x|1|0"),
        ("/p/4/index.ts", "./leaf|x|1|0"),
        ("/p/3/leaf.ts", ""),
        ("/p/4/leaf.ts", ""),
    ];
    let resolutions = [
        ("../2", "/p/1/index.ts", "/p/2/index.ts"),
        ("../3", "/p/2/index.ts", "/p/3/index.ts"),
        ("../4", "/p/3/index.ts", "/p/4/index.ts"),
        ("./leaf", "/p/3/index.ts", "/p/3/leaf.ts"),
        ("./leaf", "/p/4/index.ts", "/p/4/leaf.ts"),
    ];
    let (results, reads) = run_walk(&files, &resolutions, "/p/1/index.ts", &["Sym".to_string()], "/p");
    assert_eq!(results, vec!["/p/3/leaf.ts".to_string()]);
    assert_eq!(reads.len(), 3);
}

#[test]
fn barrel_walk_of_missing_barrel_is_empty() {
    let (results, reads) = run_walk(&[], &[], "/p/index.ts", &[], "/p");
    assert!(results.is_empty());
    assert!(reads.is_empty());
}

#[test]
fn barrel_walk_skips_wildcard_targets_that_export_nothing_asked() {
    let files = [
        ("/p/index.ts", "./noexport|x|1|0\n./plain|x|1|0\n./named|Sym|0|0"),
        ("/p/noexport.ts", ""),
        ("/p/plain.ts", ""),
        ("/p/named_noexport.ts", ""),
    ];
    let resolutions = [
        ("./noexport", "/p/index.ts", "/p/noexport.ts"),
        ("./plain", "/p/index.ts", "/p/plain.ts"),
        ("./named", "/p/index.ts", "/p/named_noexport.ts"),
    ];
    let (results, _) = run_walk(&files, &resolutions, "/p/index.ts", &["Sym".to_string()], "/p");
    // The named re-export is not a wildcard, so its file is kept.
    assert_eq!(results, vec!["/p/plain.ts".to_string(), "/p/named_noexport.ts".to_string()]);
    // Without symbols asked, nothing is skipped.
    let (all, _) = run_walk(&files, &resolutions, "/p/index.ts", &[], "/p");
    assert_eq!(all.len(), 3);
}

#[test]
fn record_import_direct_and_barrel() {
    let map = vec![("/p/a.ts".to_string(), 0), ("/p/b.ts".to_string(), 1)];
    let mut indices: Vec<usize> = Vec::new();
    record_import("/p/a.ts", false, &vec![false], &map, &mut indices, &[]);
    assert_eq!(indices, vec![0]);
    record_import("/p/b.ts", false, &vec![true], &map, &mut indices, &[]);
    assert_eq!(indices, vec![0]);
    let resolved = vec!["/p/b.ts".to_string(), "/p/a.ts".to_string()];
    record_import("/p/index.ts", true, &vec![false, false], &map, &mut indices, &resolved);
    assert_eq!(indices, vec![0, 1]);
}
