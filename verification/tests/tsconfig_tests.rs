use exspec::tsconfig::{extends_file, tsconfig_candidates, PathAlias, TsconfigPaths};
use std::path::{Path, PathBuf};
use tempfile::TempDir;

fn dir_str(dir: &TempDir) -> String {
    dir.path().to_str().unwrap().to_string()
}

fn parse(json: &str, dir: &TempDir) -> Option<TsconfigPaths> {
    TsconfigPaths::from_str_with(json, &dir_str(dir), Vec::new())
}

#[test]
fn test_parse_basic_alias() {
    let json = r#"{"compilerOptions":{"baseUrl":".","paths":{"@app/*":["src/*"]}}}"#;
    let dir = TempDir::new().unwrap();
    let tc = parse(json, &dir).expect("expected Some(TsconfigPaths)");
    assert_eq!(tc.aliases.len(), 1, "expected 1 alias");
    let alias = &tc.aliases[0];
    assert_eq!(alias.prefix, "@app/");
    assert_eq!(alias.targets, vec![("src/".to_string(), "".to_string())]);
}

#[test]
fn test_parse_multiple_targets() {
    let json = r#"{"compilerOptions":{"baseUrl":".","paths":{"@app/*":["src/*","lib/*"]}}}"#;
    let dir = TempDir::new().unwrap();
    let tc = parse(json, &dir).expect("expected Some(TsconfigPaths)");
    let alias = &tc.aliases[0];
    assert_eq!(alias.targets.len(), 2, "expected 2 targets");
}

#[test]
fn test_base_url_defaults_to_tsconfig_dir() {
    let json = r#"{"compilerOptions":{"paths":{"@app/*":["src/*"]}}}"#;
    let dir = TempDir::new().unwrap();
    let tc = parse(json, &dir).expect("expected Some(TsconfigPaths)");
    assert_eq!(Path::new(&tc.base_url), dir.path(), "expected base_url to equal tsconfig_dir");
}

#[test]
fn test_exact_match_no_wildcard() {
    let dir = TempDir::new().unwrap();
    let json = r#"{"compilerOptions":{"baseUrl":".","paths":{"@config":["src/config/index"]}}}"#;
    let tc = parse(json, &dir).expect("expected Some");
    let result = tc.resolve_alias("@config").map(PathBuf::from);
    let expected = dir.path().join("src/config/index");
    assert_eq!(result, Some(expected), "expected exact match resolution");
}

#[test]
fn test_extends_chain_inherits_paths() {
    let dir = TempDir::new().unwrap();
    let base_json = r#"{"compilerOptions":{"baseUrl":".","paths":{"@base/*":["base_src/*"]}}}"#;
    let child_json = r#"{"extends":"./tsconfig.base.json","compilerOptions":{"baseUrl":"."}}"#;

    let (base_file, base_dir) = extends_file(child_json, &dir_str(&dir), 0).expect("a relative extends");
    assert_eq!(PathBuf::from(&base_file), dir.path().join("tsconfig.base.json"));
    assert_eq!(Path::new(&base_dir), dir.path());
    // The file that the base extends: none.
    assert!(extends_file(base_json, &base_dir, 1).is_none());

    let levels = vec![(child_json.to_string(), dir_str(&dir)), (base_json.to_string(), base_dir)];
    let tc = TsconfigPaths::from_chain(&levels).expect("expected Some(TsconfigPaths) with inherited paths");
    assert!(
        tc.aliases.iter().any(|a| a.prefix == "@base/"),
        "expected @base/ alias inherited from base, got {:?}",
        tc.aliases
    );
}

#[test]
fn test_extends_child_overrides() {
    let dir = TempDir::new().unwrap();
    let base_json = r#"{"compilerOptions":{"baseUrl":".","paths":{"@app/*":["lib/*"]}}}"#;
    let child_json = r#"{"extends":"./tsconfig.base.json","compilerOptions":{"baseUrl":".","paths":{"@app/*":["src/*"]}}}"#;

    let (_, base_dir) = extends_file(child_json, &dir_str(&dir), 0).expect("a relative extends");
    let levels = vec![(child_json.to_string(), dir_str(&dir)), (base_json.to_string(), base_dir)];
    let tc = TsconfigPaths::from_chain(&levels).expect("expected Some(TsconfigPaths)");
    let app_alias = tc.aliases.iter().find(|a| a.prefix == "@app/");
    assert!(app_alias.is_some(), "expected @app/ alias");
    let targets = &app_alias.unwrap().targets;
    assert_eq!(targets, &[("src/".to_string(), "".to_string())], "got {:?}", targets);
}

#[test]
fn test_discover_tsconfig_in_parent() {
    let dir = TempDir::new().unwrap();
    let sub = dir.path().join("sub");
    let candidates = tsconfig_candidates(sub.to_str().unwrap());
    assert_eq!(PathBuf::from(&candidates[0]), sub.join("tsconfig.json"));
    assert_eq!(PathBuf::from(&candidates[1]), dir.path().join("tsconfig.json"));
}

#[test]
fn test_resolve_alias_no_match() {
    let dir = TempDir::new().unwrap();
    let json = r#"{"compilerOptions":{"baseUrl":".","paths":{"@app/*":["src/*"]}}}"#;
    let tc = parse(json, &dir).expect("expected Some");
    assert!(tc.resolve_alias("lodash").is_none(), "expected None for non-alias specifier 'lodash'");
}

#[test]
fn test_resolve_alias_with_wildcard() {
    let dir = TempDir::new().unwrap();
    let json = r#"{"compilerOptions":{"baseUrl":".","paths":{"@app/*":["src/*"]}}}"#;
    let tc = parse(json, &dir).expect("expected Some");
    let result = tc.resolve_alias("@app/services/foo").map(PathBuf::from);
    let expected = dir.path().join("src/services/foo");
    assert_eq!(result, Some(expected), "expected wildcard resolution to src/services/foo");
}

#[test]
fn tsconfig_rejects_invalid_or_empty() {
    assert!(TsconfigPaths::from_str_with("{ // comment\n}", "/p", Vec::new()).is_none());
    assert!(TsconfigPaths::from_str_with(r#"{"paths":{"@a/*":["a/*"]}}"#, "/p", Vec::new()).is_none());
    assert!(TsconfigPaths::from_str_with(r#"{"compilerOptions":{"baseUrl":"."}}"#, "/p", Vec::new()).is_none());
    assert!(TsconfigPaths::from_str_with(r#"{"compilerOptions":{"paths":{}}}"#, "/p", Vec::new()).is_none());
}

#[test]
fn tsconfig_inherited_aliases_come_first_and_are_overridden() {
    let inherited = vec![
        PathAlias { prefix: "@a/".to_string(), suffix: String::new(), targets: vec![("old/".to_string(), String::new())] },
        PathAlias { prefix: "@b/".to_string(), suffix: String::new(), targets: vec![("b/".to_string(), String::new())] },
    ];
    let json = r#"{"compilerOptions":{"baseUrl":"src","paths":{"@a/*":["new/*"],"@c":["c.ts"],"@x/*.js":["x/*.ts",3]}}}"#;
    let tc = TsconfigPaths::from_str_with(json, "/p", inherited).expect("aliases");
    assert_eq!(tc.base_url, "/p/src");
    let prefixes: Vec<&str> = tc.aliases.iter().map(|a| a.prefix.as_str()).collect();
    assert_eq!(prefixes, vec!["@b/", "@a/", "@c", "@x/"]);
    assert_eq!(tc.aliases[1].targets, vec![("new/".to_string(), String::new())]);
    assert_eq!(tc.aliases[3].suffix, ".js");
    assert_eq!(tc.aliases[3].targets, vec![("x/".to_string(), ".ts".to_string())]);
    // An exact alias keeps the whole pattern as its prefix.
    assert_eq!(tc.resolve_alias("@c"), Some("/p/src/c.ts".to_string()));
    assert_eq!(tc.resolve_alias("@x/util.js"), Some("/p/src/x/util.ts".to_string()));
    assert_eq!(tc.resolve_alias("@b/y"), Some("/p/src/b/y".to_string()));
    // Only inherited aliases: still aliases.
    let only_parent = vec![PathAlias { prefix: "@q/".to_string(), suffix: String::new(), targets: vec![] }];
    let tc2 = TsconfigPaths::from_str_with(r#"{"compilerOptions":{}}"#, "/p", only_parent).expect("inherited");
    assert_eq!(tc2.aliases.len(), 1);
    assert_eq!(tc2.resolve_alias("@q/z"), None);
}

#[test]
fn extends_only_relative_and_below_depth_three() {
    let json = r#"{"extends":"../base/tsconfig.json"}"#;
    let (file, dir) = extends_file(json, "/p/app", 2).expect("followed at depth 2");
    assert_eq!(file, "/p/app/../base/tsconfig.json");
    assert_eq!(dir, "/p/app/../base");
    assert!(extends_file(json, "/p/app", 3).is_none());
    assert!(extends_file(r#"{"extends":"@tsconfig/node18/tsconfig.json"}"#, "/p", 0).is_none());
    assert!(extends_file(r#"{"extends":3}"#, "/p", 0).is_none());
    assert!(extends_file("not json", "/p", 0).is_none());
}

#[test]
fn tsconfig_candidates_walk_up_to_the_root() {
    assert_eq!(
        tsconfig_candidates("/a/b"),
        vec!["/a/b/tsconfig.json".to_string(), "/a/tsconfig.json".to_string(), "/tsconfig.json".to_string()]
    );
    let deep = "/1/2/3/4/5/6/7/8/9/10/11/12";
    let c = tsconfig_candidates(deep);
    assert_eq!(c.len(), 13);
    assert_eq!(c[9], "/1/2/3/tsconfig.json");
    assert_eq!(c[12], "/tsconfig.json");
    assert_eq!(tsconfig_candidates("rel/dir"), vec![
        "rel/dir/tsconfig.json".to_string(),
        "rel/tsconfig.json".to_string(),
        "tsconfig.json".to_string(),
    ]);
}
