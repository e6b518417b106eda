use exspec::init::{
    detect_frameworks, detect_languages, generate_toml, get_custom_patterns, language_marker_files, plan_init, InitOutcome,
    ProjectFiles,
};

fn markers(names: &[&str]) -> Vec<String> {
    names.iter().map(|s| s.to_string()).collect()
}

fn no_files() -> ProjectFiles {
    ProjectFiles {
        has_conftest_py: false,
        has_manage_py: false,
        pyproject_toml: None,
        requirements_txt: None,
        package_json: None,
        composer_json: None,
    }
}

#[test]
fn init_tc01_detect_python_via_pyproject_toml() {
    assert_eq!(detect_languages(&markers(&["pyproject.toml"])), vec!["python".to_string()]);
}

#[test]
fn init_tc02_detect_typescript_via_package_json() {
    assert_eq!(detect_languages(&markers(&["package.json"])), vec!["typescript".to_string()]);
}

#[test]
fn init_tc03_detect_php_via_composer_json() {
    assert_eq!(detect_languages(&markers(&["composer.json"])), vec!["php".to_string()]);
}

#[test]
fn init_tc04_detect_rust_via_cargo_toml() {
    assert_eq!(detect_languages(&markers(&["Cargo.toml"])), vec!["rust".to_string()]);
}

#[test]
fn init_tc05_detect_multiple_languages_sorted() {
    let result = detect_languages(&markers(&["package.json", "pyproject.toml"]));
    assert_eq!(result, vec!["python".to_string(), "typescript".to_string()]);
}

#[test]
fn init_tc06_generate_toml_single_language() {
    let langs = vec!["python".to_string()];
    let result = generate_toml(&langs, &[]);
    assert!(result.contains(r#"lang = ["python"]"#), "got: {result}");
}

#[test]
fn init_tc07_empty_directory_returns_empty_vec() {
    let result = detect_languages(&[]);
    assert!(result.is_empty(), "Expected empty Vec, got: {result:?}");
}

#[test]
fn init_tc08_generate_toml_multiple_languages_with_ignores() {
    let langs = vec!["python".to_string(), "typescript".to_string()];
    let result = generate_toml(&langs, &[]);
    assert!(result.contains(r#"lang = ["python", "typescript"]"#), "got: {result}");
    assert!(result.contains(".venv"), "got: {result}");
    assert!(result.contains("node_modules"), "got: {result}");
}

#[test]
fn init_tc09_detect_pytest_via_conftest_py() {
    let project = ProjectFiles { has_conftest_py: true, pyproject_toml: Some(String::new()), ..no_files() };
    let result = detect_frameworks(&["python".to_string()], &project);
    assert!(result.contains(&"pytest".to_string()), "got: {result:?}");
}

#[test]
fn init_tc10_detect_django_via_manage_py() {
    let project = ProjectFiles { has_manage_py: true, pyproject_toml: Some(String::new()), ..no_files() };
    let result = detect_frameworks(&["python".to_string()], &project);
    assert!(result.contains(&"django".to_string()), "got: {result:?}");
}

#[test]
fn init_tc11_detect_jest_via_package_json() {
    let project = ProjectFiles {
        package_json: Some(r#"{"devDependencies":{"jest":"^29.0.0"}}"#.to_string()),
        ..no_files()
    };
    let result = detect_frameworks(&["typescript".to_string()], &project);
    assert!(result.contains(&"jest".to_string()), "got: {result:?}");
}

#[test]
fn init_tc12_detect_laravel_via_composer_json() {
    let project = ProjectFiles {
        composer_json: Some(r#"{"require":{"laravel/framework":"^10.0"}}"#.to_string()),
        ..no_files()
    };
    let result = detect_frameworks(&["php".to_string()], &project);
    assert!(result.contains(&"laravel".to_string()), "got: {result:?}");
}

#[test]
fn init_tc13_get_custom_patterns_for_laravel() {
    let frameworks = vec!["laravel".to_string()];
    let mut result = get_custom_patterns(&frameworks);
    result.sort();
    assert_eq!(
        result,
        vec!["expects".to_string(), "shouldBeCalled".to_string(), "shouldReceive".to_string()]
    );
}

#[test]
fn init_tc14_get_custom_patterns_for_pytest() {
    let frameworks = vec!["pytest".to_string()];
    let result = get_custom_patterns(&frameworks);
    assert!(result.contains(&"mock.assert_*".to_string()), "got: {result:?}");
}

#[test]
fn init_tc15_generate_toml_with_custom_patterns_for_pytest() {
    let langs = vec!["python".to_string()];
    let frameworks = vec!["pytest".to_string()];
    let result = generate_toml(&langs, &frameworks);
    assert!(result.contains(r#"custom_patterns = ["mock.assert_*"]"#), "got: {result}");
}

#[test]
fn generate_toml_exact_text_without_patterns() {
    let langs = vec!["python".to_string(), "typescript".to_string()];
    let result = generate_toml(&langs, &[]);
    assert_eq!(
        result,
        "# Generated by `exspec init`\n\n[general]\nlang = [\"python\", \"typescript\"]\n\n[paths]\nignore = [\".next\", \".venv\", \"__pycache__\", \"dist\", \"node_modules\"]\n"
    );
}

#[test]
fn generate_toml_exact_text_with_patterns() {
    let langs = vec!["php".to_string(), "rust".to_string()];
    let frameworks = vec!["laravel".to_string(), "pest".to_string()];
    let result = generate_toml(&langs, &frameworks);
    assert_eq!(
        result,
        "# Generated by `exspec init`\n\n[general]\nlang = [\"php\", \"rust\"]\n\n[assertions]\ncustom_patterns = [\"expect(\", \"expects\", \"shouldBeCalled\", \"shouldReceive\"]\n\n[paths]\nignore = [\"target\", \"vendor\"]\n"
    );
}

#[test]
fn generate_toml_no_languages() {
    let result = generate_toml(&[], &[]);
    assert_eq!(result, "# Generated by `exspec init`\n\n[general]\nlang = []\n\n[paths]\nignore = []\n");
}

#[test]
fn custom_patterns_sorted_and_unique() {
    let frameworks = vec!["pytest".to_string(), "laravel".to_string(), "pest".to_string(), "laravel".to_string(), "jest".to_string()];
    assert_eq!(
        get_custom_patterns(&frameworks),
        vec![
            "expect(".to_string(),
            "expects".to_string(),
            "mock.assert_*".to_string(),
            "shouldBeCalled".to_string(),
            "shouldReceive".to_string(),
        ]
    );
    assert!(get_custom_patterns(&["jest".to_string()]).is_empty());
}

#[test]
fn detect_languages_all_markers() {
    let all: Vec<String> = language_marker_files().iter().map(|s| s.to_string()).collect();
    assert_eq!(
        detect_languages(&all),
        vec!["php".to_string(), "python".to_string(), "rust".to_string(), "typescript".to_string()]
    );
    assert_eq!(detect_languages(&markers(&["setup.py"])), vec!["python".to_string()]);
    assert_eq!(detect_languages(&markers(&["requirements.txt"])), vec!["python".to_string()]);
    assert!(detect_languages(&markers(&["README.md"])).is_empty());
}

#[test]
fn detect_frameworks_python_dependencies_lowercased() {
    let project = ProjectFiles {
        pyproject_toml: Some("[project]\ndependencies = [\"Flask\", \"FastAPI\"]".to_string()),
        requirements_txt: Some("PyTest==8.0".to_string()),
        ..no_files()
    };
    let result = detect_frameworks(&["python".to_string()], &project);
    assert_eq!(result, vec!["fastapi".to_string(), "flask".to_string(), "pytest".to_string()]);
}

#[test]
fn detect_frameworks_all_sorted() {
    let project = ProjectFiles {
        has_conftest_py: true,
        has_manage_py: true,
        pyproject_toml: None,
        requirements_txt: None,
        package_json: Some(
            r#"{"devDependencies":{"jest":"1","vitest":"1"},"dependencies":{"@nestjs/core":"10"}}"#.to_string(),
        ),
        composer_json: Some(
            r#"{"require":{"laravel/framework":"10"},"require-dev":{"phpunit/phpunit":"10","pestphp/pest":"2"}}"#
                .to_string(),
        ),
    };
    let langs = vec!["php".to_string(), "python".to_string(), "typescript".to_string()];
    assert_eq!(
        detect_frameworks(&langs, &project),
        vec![
            "django".to_string(),
            "jest".to_string(),
            "laravel".to_string(),
            "nestjs".to_string(),
            "pest".to_string(),
            "phpunit".to_string(),
            "pytest".to_string(),
            "vitest".to_string(),
        ]
    );
}

#[test]
fn detect_frameworks_ignores_other_languages_and_bad_json() {
    let project = ProjectFiles {
        has_manage_py: true,
        package_json: Some("{ not json".to_string()),
        composer_json: Some(r#"["laravel/framework"]"#.to_string()),
        ..no_files()
    };
    // Django is only looked for in a Python project.
    assert!(detect_frameworks(&["typescript".to_string(), "php".to_string()], &project).is_empty());
    // jest in dependencies (not devDependencies) does not count.
    let p2 = ProjectFiles { package_json: Some(r#"{"dependencies":{"jest":"1"}}"#.to_string()), ..no_files() };
    assert!(detect_frameworks(&["typescript".to_string()], &p2).is_empty());
}

#[test]
fn plan_init_decisions() {
    let langs = vec!["python".to_string()];
    let fws = vec!["pytest".to_string()];
    assert!(matches!(plan_init(true, false, false, &langs, &fws), InitOutcome::AlreadyExists));
    assert!(matches!(plan_init(false, false, false, &[], &[]), InitOutcome::NoLanguages));
    assert!(matches!(plan_init(true, true, false, &[], &[]), InitOutcome::NoLanguages));
    match plan_init(true, true, false, &langs, &fws) {
        InitOutcome::Write(t) => assert_eq!(t, generate_toml(&langs, &fws)),
        other => panic!("expected Write, got {other:?}"),
    }
    match plan_init(false, false, true, &langs, &[]) {
        InitOutcome::Print(t) => assert!(t.contains(r#"lang = ["python"]"#)),
        other => panic!("expected Print, got {other:?}"),
    }
}
