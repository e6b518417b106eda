//! `exspec init`: which languages and frameworks a project uses, and the
//! configuration file generated for it.

use vstd::prelude::*;
use crate::json::{get_member, json_get, parse_json, parsed_json, Json, JsonValue};
use crate::order::{lemma_lex_transitive, lex_lt, strictly_sorted};
use crate::text::{chars_of_strings, chars_eq, chars_of, contains, contains_chars, push_str, strings_view};

verus! {

/// Whether a list of names holds the given name.
fn has_name(names: &Vec<Vec<char>>, name: &str) -> (r: bool)
    ensures
        r == names@.map_values(|c: Vec<char>| c@).contains(name@),
{
    let ghost nv = names@.map_values(|c: Vec<char>| c@);
    let target = chars_of(name);
    let n = names.len();
    let mut i: usize = 0;
    while i < n
        invariant
            n == names.len(),
            i <= n,
            nv == names@.map_values(|c: Vec<char>| c@),
            target@ == name@,
            forall|j: int| 0 <= j < i ==> nv[j] != name@,
        decreases n - i,
    {
        if chars_eq(&names[i], &target) {
            assert(nv[i as int] == name@);
            return true;
        }
        assert(nv[i as int] == names@[i as int]@);
        i = i + 1;
    }
    false
}

/// `seq![x]` when `cond` holds, else nothing.
pub open spec fn when(cond: bool, x: Seq<char>) -> Seq<Seq<char>> {
    if cond { seq![x] } else { Seq::empty() }
}

/// The custom assertion patterns that a set of frameworks calls for, sorted
/// and without repetition: `expect(` for pest; `expects`,
/// `shouldBeCalled`, `shouldReceive` for laravel; `mock.assert_*` for
/// pytest.
pub open spec fn custom_patterns_for(frameworks: Seq<Seq<char>>) -> Seq<Seq<char>> {
    let pest = frameworks.contains("pest"@);
    let laravel = frameworks.contains("laravel"@);
    let pytest = frameworks.contains("pytest"@);
    when(pest, "expect("@) + when(laravel, "expects"@) + when(pytest, "mock.assert_*"@) + when(
        laravel,
        "shouldBeCalled"@,
    ) + when(laravel, "shouldReceive"@)
}

fn push_when(out: &mut Vec<String>, cond: bool, s: &str)
    ensures
        strings_view(final(out)@) == strings_view(old(out)@) + when(cond, s@),
{
    let ghost before = out@;
    if cond {
        out.push(String::from_str(s));
        assert(strings_view(out@) =~= strings_view(before).push(s@));
    } else {
        assert(strings_view(out@) =~= strings_view(before) + when(cond, s@));
    }
}

/// The custom assertion patterns for the detected frameworks.
pub fn get_custom_patterns(frameworks: &[String]) -> (r: Vec<String>)
    ensures
        strings_view(r@) == custom_patterns_for(strings_view(frameworks@)),
{
    let fws = chars_of_strings(frameworks);
    let pest = has_name(&fws, "pest");
    let laravel = has_name(&fws, "laravel");
    let pytest = has_name(&fws, "pytest");
    let mut r: Vec<String> = Vec::new();
    push_when(&mut r, pest, "expect(");
    push_when(&mut r, laravel, "expects");
    push_when(&mut r, pytest, "mock.assert_*");
    push_when(&mut r, laravel, "shouldBeCalled");
    push_when(&mut r, laravel, "shouldReceive");
    assert(strings_view(r@) =~= custom_patterns_for(strings_view(frameworks@)));
    r
}

/// The files whose presence in a directory marks a language.
pub fn language_marker_files() -> (r: Vec<&'static str>)
    ensures
        r@.map_values(|s: &str| s@) == seq![
            "pyproject.toml"@, "requirements.txt"@, "setup.py"@, "package.json"@,
            "composer.json"@, "Cargo.toml"@,
        ],
{
    let r = vec!["pyproject.toml", "requirements.txt", "setup.py", "package.json", "composer.json", "Cargo.toml"];
    assert(r@.map_values(|s: &str| s@) =~= seq![
        "pyproject.toml"@, "requirements.txt"@, "setup.py"@, "package.json"@,
        "composer.json"@, "Cargo.toml"@,
    ]);
    r
}

/// The languages marked by the files present in a directory, sorted:
/// php (`composer.json`), python (`pyproject.toml`, `requirements.txt` or
/// `setup.py`), rust (`Cargo.toml`), typescript (`package.json`).
pub open spec fn languages_for(present: Seq<Seq<char>>) -> Seq<Seq<char>> {
    when(present.contains("composer.json"@), "php"@) + when(
        present.contains("pyproject.toml"@) || present.contains("requirements.txt"@)
            || present.contains("setup.py"@),
        "python"@,
    ) + when(present.contains("Cargo.toml"@), "rust"@) + when(present.contains("package.json"@), "typescript"@)
}

/// The languages of a project, given the names of the marker files (see
/// `language_marker_files`) that exist in its directory.
pub fn detect_languages(present_markers: &[String]) -> (r: Vec<String>)
    ensures
        strings_view(r@) == languages_for(strings_view(present_markers@)),
{
    let present = chars_of_strings(present_markers);
    let php = has_name(&present, "composer.json");
    let python = has_name(&present, "pyproject.toml") || has_name(&present, "requirements.txt")
        || has_name(&present, "setup.py");
    let rust = has_name(&present, "Cargo.toml");
    let ts = has_name(&present, "package.json");
    let mut r: Vec<String> = Vec::new();
    push_when(&mut r, php, "php");
    push_when(&mut r, python, "python");
    push_when(&mut r, rust, "rust");
    push_when(&mut r, ts, "typescript");
    assert(strings_view(r@) =~= languages_for(strings_view(present_markers@)));
    r
}

/// The directories to ignore for a set of languages, sorted and without
/// repetition.
pub open spec fn ignores_for(languages: Seq<Seq<char>>) -> Seq<Seq<char>> {
    let python = languages.contains("python"@);
    let ts = languages.contains("typescript"@);
    let php = languages.contains("php"@);
    let rust = languages.contains("rust"@);
    when(ts, ".next"@) + when(python, ".venv"@) + when(python, "__pycache__"@) + when(ts, "dist"@)
        + when(ts, "node_modules"@) + when(rust, "target"@) + when(php, "vendor"@)
}

/// An item in double quotes.
pub open spec fn quoted(s: Seq<char>) -> Seq<char> {
    "\""@ + s + "\""@
}

/// Items in double quotes, separated by `", "`.
pub open spec fn quoted_list(items: Seq<Seq<char>>) -> Seq<char>
    decreases items.len(),
{
    if items.len() == 0 {
        Seq::empty()
    } else if items.len() == 1 {
        quoted(items[0])
    } else {
        quoted_list(items.drop_last()) + ", "@ + quoted(items.last())
    }
}

/// The generated `.exspec.toml`.
pub open spec fn toml_text(languages: Seq<Seq<char>>, frameworks: Seq<Seq<char>>) -> Seq<char> {
    let patterns = custom_patterns_for(frameworks);
    "# Generated by `exspec init`\n\n[general]\nlang = ["@ + quoted_list(languages) + "]\n"@
        + (if patterns.len() > 0 {
        "\n[assertions]\ncustom_patterns = ["@ + quoted_list(patterns) + "]\n"@
    } else {
        Seq::empty()
    }) + "\n[paths]\nignore = ["@ + quoted_list(ignores_for(languages)) + "]\n"@
}

fn push_quoted_list(out: &mut String, items: &[String])
    ensures
        final(out)@ == old(out)@ + quoted_list(strings_view(items@)),
{
    let ghost v = strings_view(items@);
    let n = items.len();
    let mut i: usize = 0;
    assert(v.take(0) =~= Seq::<Seq<char>>::empty());
    while i < n
        invariant
            n == items.len(),
            i <= n,
            v == strings_view(items@),
            out@ == old(out)@ + quoted_list(v.take(i as int)),
        decreases n - i,
    {
        let ghost before = out@;
        if i > 0 {
            push_str(out, ", ");
        }
        push_str(out, "\"");
        push_str(out, items[i].as_str());
        push_str(out, "\"");
        proof {
            let t = v.take(i + 1);
            assert(t.drop_last() =~= v.take(i as int));
            assert(t.last() == items@[i as int]@);
            if i == 0 {
                assert(out@ =~= old(out)@ + quoted_list(t));
            } else {
                assert(out@ =~= old(out)@ + quoted_list(t));
            }
        }
        i = i + 1;
    }
    assert(v.take(n as int) =~= v);
}

/// The minimal `.exspec.toml` for the detected languages and frameworks:
/// the languages, the custom assertion patterns of the frameworks (when
/// there are any), and the directories to ignore.
pub fn generate_toml(languages: &[String], frameworks: &[String]) -> (r: String)
    ensures
        r@ == toml_text(strings_view(languages@), strings_view(frameworks@)),
{
    let langs = chars_of_strings(languages);
    let python = has_name(&langs, "python");
    let ts = has_name(&langs, "typescript");
    let php = has_name(&langs, "php");
    let rust = has_name(&langs, "rust");
    let mut ignores: Vec<String> = Vec::new();
    push_when(&mut ignores, ts, ".next");
    push_when(&mut ignores, python, ".venv");
    push_when(&mut ignores, python, "__pycache__");
    push_when(&mut ignores, ts, "dist");
    push_when(&mut ignores, ts, "node_modules");
    push_when(&mut ignores, rust, "target");
    push_when(&mut ignores, php, "vendor");
    assert(strings_view(ignores@) =~= ignores_for(strings_view(languages@)));

    let mut out = String::new();
    push_str(&mut out, "# Generated by `exspec init`\n\n[general]\nlang = [");
    push_quoted_list(&mut out, languages);
    push_str(&mut out, "]\n");
    let patterns = get_custom_patterns(frameworks);
    if patterns.len() > 0 {
        push_str(&mut out, "\n[assertions]\ncustom_patterns = [");
        push_quoted_list(&mut out, patterns.as_slice());
        push_str(&mut out, "]\n");
    }
    push_str(&mut out, "\n[paths]\nignore = [");
    push_quoted_list(&mut out, ignores.as_slice());
    push_str(&mut out, "]\n");
    assert(out@ =~= toml_text(strings_view(languages@), strings_view(frameworks@)));
    out
}



/// What `exspec init` does in a directory.
#[derive(Debug)]
pub enum InitOutcome {
    /// `.exspec.toml` exists and `--force` was not given: an error.
    AlreadyExists,
    /// No language marker was found: a warning, and nothing is written.
    NoLanguages,
    /// `--dry-run`: the configuration is printed.
    Print(String),
    /// The configuration is written to `.exspec.toml`.
    Write(String),
}

/// The decision of `exspec init`, given whether `.exspec.toml` exists, the
/// flags, and the detected languages and frameworks: an existing file is
/// kept unless forced; without languages nothing is generated; otherwise
/// the generated configuration is printed (dry run) or written.
pub fn plan_init(config_exists: bool, force: bool, dry_run: bool, languages: &[String], frameworks: &[String]) -> (r: InitOutcome)
    ensures
        (config_exists && !force) <==> r is AlreadyExists,
        r is NoLanguages <==> (!(config_exists && !force) && languages@.len() == 0),
        r matches InitOutcome::Print(t) ==> dry_run && t@ == toml_text(strings_view(languages@), strings_view(frameworks@)),
        r matches InitOutcome::Write(t) ==> !dry_run && t@ == toml_text(strings_view(languages@), strings_view(frameworks@)),
        (!(config_exists && !force) && languages@.len() > 0) ==> (if dry_run { r is Print } else { r is Write }),
{
    if config_exists && !force {
        return InitOutcome::AlreadyExists;
    }
    if languages.len() == 0 {
        return InitOutcome::NoLanguages;
    }
    let toml = generate_toml(languages, frameworks);
    if dry_run {
        InitOutcome::Print(toml)
    } else {
        InitOutcome::Write(toml)
    }
}
// ---------------------------------------------------------------------------
// Frameworks
// ---------------------------------------------------------------------------

/// What a project directory holds that tells its frameworks apart: whether
/// `conftest.py` and `manage.py` exist, and the texts of the dependency
/// files that could be read (`None` when missing or unreadable).
pub struct ProjectFiles {
    pub has_conftest_py: bool,
    pub has_manage_py: bool,
    pub pyproject_toml: Option<String>,
    pub requirements_txt: Option<String>,
    pub package_json: Option<String>,
    pub composer_json: Option<String>,
}

/// What `str::to_lowercase` makes of a text.
pub uninterp spec fn lowercase(s: Seq<char>) -> Seq<char>;

/// `str::to_lowercase`.  The contract claims only that the result is a
/// function of the text (named `lowercase`).
#[verifier::external_body]
fn to_lowercase(s: &str) -> (r: String)
    ensures
        r@ == lowercase(s@),
{
    s.to_lowercase()
}

pub open spec fn text_or_empty(t: Option<String>) -> Seq<char> {
    match t {
        Some(s) => s@,
        None => Seq::empty(),
    }
}

/// The JSON document of a file text, if it parses.
pub open spec fn json_of(t: Option<String>) -> Option<Json> {
    match t {
        Some(s) => parsed_json(s@),
        None => None,
    }
}

/// The object member `outer` of a document has a member `inner`.
pub open spec fn has_nested_member(doc: Option<Json>, outer: Seq<char>, inner: Seq<char>) -> bool {
    match doc {
        Some(d) => match json_get(d, outer) {
            Some(o) => json_get(o, inner) is Some,
            None => false,
        },
        None => false,
    }
}

/// The lowercased Python dependency texts (`pyproject.toml`, then
/// `requirements.txt`, joined by a newline).
pub open spec fn python_dependency_text(p: ProjectFiles) -> Seq<char> {
    lowercase(text_or_empty(p.pyproject_toml) + "\n"@ + text_or_empty(p.requirements_txt))
}

/// The frameworks of a project, sorted and without repetition:
/// for Python, pytest (`conftest.py` or `pytest` in the dependencies),
/// django (`manage.py`), flask and fastapi (in the dependencies); for
/// TypeScript, jest and vitest (dev dependencies of `package.json`) and
/// nestjs (`@nestjs/core` among its dependencies); for PHP, phpunit and pest
/// (`require-dev` of `composer.json`) and laravel (`laravel/framework` in
/// `require`).
pub open spec fn frameworks_for(languages: Seq<Seq<char>>, p: ProjectFiles) -> Seq<Seq<char>> {
    let py = languages.contains("python"@);
    let ts = languages.contains("typescript"@);
    let php = languages.contains("php"@);
    let text = python_dependency_text(p);
    let pkg = json_of(p.package_json);
    let comp = json_of(p.composer_json);
    when(py && p.has_manage_py, "django"@)
        + when(py && contains(text, "fastapi"@), "fastapi"@)
        + when(py && contains(text, "flask"@), "flask"@)
        + when(ts && has_nested_member(pkg, "devDependencies"@, "jest"@), "jest"@)
        + when(php && has_nested_member(comp, "require"@, "laravel/framework"@), "laravel"@)
        + when(ts && has_nested_member(pkg, "dependencies"@, "@nestjs/core"@), "nestjs"@)
        + when(php && has_nested_member(comp, "require-dev"@, "pestphp/pest"@), "pest"@)
        + when(php && has_nested_member(comp, "require-dev"@, "phpunit/phpunit"@), "phpunit"@)
        + when(py && (p.has_conftest_py || contains(text, "pytest"@)), "pytest"@)
        + when(ts && has_nested_member(pkg, "devDependencies"@, "vitest"@), "vitest"@)
}

fn parse_file(t: &Option<String>) -> (r: Option<JsonValue>)
    ensures
        match r {
            Some(v) => json_of(*t) == Some(v@),
            None => json_of(*t) is None,
        },
{
    match t {
        Some(s) => parse_json(s.as_str()),
        None => None,
    }
}

fn nested_member(doc: &Option<JsonValue>, outer: &str, inner: &str) -> (r: bool)
    ensures
        r == has_nested_member(match doc { Some(d) => Some(d@), None => None }, outer@, inner@),
{
    match doc {
        Some(d) => match get_member(d, outer) {
            Some(o) => get_member(o, inner).is_some(),
            None => false,
        },
        None => false,
    }
}

/// Whether the Python dependency texts mention fastapi, flask and pytest.
fn python_mentions(project: &ProjectFiles) -> (r: (bool, bool, bool))
    ensures
        r.0 == contains(python_dependency_text(*project), "fastapi"@),
        r.1 == contains(python_dependency_text(*project), "flask"@),
        r.2 == contains(python_dependency_text(*project), "pytest"@),
{
    let mut joined = String::new();
    match &project.pyproject_toml {
        Some(t) => push_str(&mut joined, t.as_str()),
        None => {},
    }
    push_str(&mut joined, "\n");
    match &project.requirements_txt {
        Some(t) => push_str(&mut joined, t.as_str()),
        None => {},
    }
    assert(joined@ =~= text_or_empty(project.pyproject_toml) + "\n"@ + text_or_empty(project.requirements_txt));
    let lower = to_lowercase(joined.as_str());
    let text = chars_of(lower.as_str());
    let fastapi = chars_of("fastapi");
    let flask = chars_of("flask");
    let pytest = chars_of("pytest");
    (contains_chars(&text, &fastapi), contains_chars(&text, &flask), contains_chars(&text, &pytest))
}

/// The framework names whose flags hold, in the order of `frameworks_for`.
fn framework_names(
    c1: bool, c2: bool, c3: bool, c4: bool, c5: bool, c6: bool, c7: bool, c8: bool, c9: bool, c10: bool,
) -> (r: Vec<String>)
    ensures
        strings_view(r@) == when(c1, "django"@) + when(c2, "fastapi"@) + when(c3, "flask"@) + when(c4, "jest"@)
            + when(c5, "laravel"@) + when(c6, "nestjs"@) + when(c7, "pest"@) + when(c8, "phpunit"@)
            + when(c9, "pytest"@) + when(c10, "vitest"@),
{
    let mut r: Vec<String> = Vec::new();
    assert(strings_view(r@) =~= Seq::<Seq<char>>::empty());
    push_when(&mut r, c1, "django");
    assert(strings_view(r@) =~= when(c1, "django"@));
    push_when(&mut r, c2, "fastapi");
    push_when(&mut r, c3, "flask");
    push_when(&mut r, c4, "jest");
    push_when(&mut r, c5, "laravel");
    push_when(&mut r, c6, "nestjs");
    push_when(&mut r, c7, "pest");
    push_when(&mut r, c8, "phpunit");
    push_when(&mut r, c9, "pytest");
    push_when(&mut r, c10, "vitest");
    r
}

/// The frameworks of a project (see `frameworks_for`).
pub fn detect_frameworks(languages: &[String], project: &ProjectFiles) -> (r: Vec<String>)
    ensures
        strings_view(r@) == frameworks_for(strings_view(languages@), *project),
{
    let langs = chars_of_strings(languages);
    let py = has_name(&langs, "python");
    let ts = has_name(&langs, "typescript");
    let php = has_name(&langs, "php");
    let (has_fastapi, has_flask, has_pytest) = python_mentions(project);
    let pkg = parse_file(&project.package_json);
    let comp = parse_file(&project.composer_json);
    let c4 = ts && nested_member(&pkg, "devDependencies", "jest");
    let c5 = php && nested_member(&comp, "require", "laravel/framework");
    let c6 = ts && nested_member(&pkg, "dependencies", "@nestjs/core");
    let c7 = php && nested_member(&comp, "require-dev", "pestphp/pest");
    let c8 = php && nested_member(&comp, "require-dev", "phpunit/phpunit");
    let c10 = ts && nested_member(&pkg, "devDependencies", "vitest");
    let r = framework_names(
        py && project.has_manage_py,
        py && has_fastapi,
        py && has_flask,
        c4,
        c5,
        c6,
        c7,
        c8,
        py && (project.has_conftest_py || has_pytest),
        c10,
    );
    r
}


// ---------------------------------------------------------------------------
// Laws: every list that `init` produces is sorted and free of repetition
// ---------------------------------------------------------------------------

proof fn extend_sorted(a: Seq<Seq<char>>, c: bool, x: Seq<char>, next: Seq<char>)
    requires
        strictly_sorted(a),
        forall|i: int| 0 <= i < a.len() ==> lex_lt(#[trigger] a[i], x),
        lex_lt(x, next),
    ensures
        strictly_sorted(a + when(c, x)),
        forall|i: int| 0 <= i < (a + when(c, x)).len() ==> lex_lt(#[trigger] (a + when(c, x))[i], next),
{
    let b = a + when(c, x);
    assert forall|i: int| 0 <= i < b.len() implies lex_lt(#[trigger] b[i], next) by {
        if i < a.len() {
            assert(b[i] == a[i]);
            lemma_lex_transitive(a[i], x, next);
        }
    }
    assert forall|i: int, j: int| 0 <= i < j < b.len() implies lex_lt(#[trigger] b[i], #[trigger] b[j]) by {
        if j < a.len() {
            assert(b[i] == a[i] && b[j] == a[j]);
        } else {
            assert(b[i] == a[i]);
        }
    }
}

proof fn extend_sorted_last(a: Seq<Seq<char>>, c: bool, x: Seq<char>)
    requires
        strictly_sorted(a),
        forall|i: int| 0 <= i < a.len() ==> lex_lt(#[trigger] a[i], x),
    ensures
        strictly_sorted(a + when(c, x)),
{
    let b = a + when(c, x);
    assert forall|i: int, j: int| 0 <= i < j < b.len() implies lex_lt(#[trigger] b[i], #[trigger] b[j]) by {
        if j < a.len() {
            assert(b[i] == a[i] && b[j] == a[j]);
        } else {
            assert(b[i] == a[i]);
        }
    }
}

proof fn start_sorted(c: bool, x: Seq<char>, next: Seq<char>)
    requires
        lex_lt(x, next),
    ensures
        strictly_sorted(when(c, x)),
        forall|i: int| 0 <= i < when(c, x).len() ==> lex_lt(#[trigger] when(c, x)[i], next),
{
}

/// The languages that `detect_languages` reports are sorted and free of
/// repetition, whatever markers are present.
pub proof fn languages_sorted(present: Seq<Seq<char>>)
    ensures
        strictly_sorted(languages_for(present)),
{
    reveal_strlit("php");
    reveal_strlit("python");
    reveal_strlit("rust");
    reveal_strlit("typescript");
    reveal_with_fuel(lex_lt, 3);
    assert(lex_lt("php"@, "python"@));
    assert(lex_lt("python"@, "rust"@));
    assert(lex_lt("rust"@, "typescript"@));
    let c1 = present.contains("composer.json"@);
    let c2 = present.contains("pyproject.toml"@) || present.contains("requirements.txt"@) || present.contains("setup.py"@);
    let c3 = present.contains("Cargo.toml"@);
    let c4 = present.contains("package.json"@);
    start_sorted(c1, "php"@, "python"@);
    extend_sorted(when(c1, "php"@), c2, "python"@, "rust"@);
    extend_sorted(when(c1, "php"@) + when(c2, "python"@), c3, "rust"@, "typescript"@);
    extend_sorted_last(when(c1, "php"@) + when(c2, "python"@) + when(c3, "rust"@), c4, "typescript"@);
}

/// The custom assertion patterns are sorted and free of repetition,
/// whatever frameworks are given (in whatever order, repeated or not).
pub proof fn custom_patterns_sorted(frameworks: Seq<Seq<char>>)
    ensures
        strictly_sorted(custom_patterns_for(frameworks)),
{
    reveal_strlit("expect(");
    reveal_strlit("expects");
    reveal_strlit("mock.assert_*");
    reveal_strlit("shouldBeCalled");
    reveal_strlit("shouldReceive");
    reveal_with_fuel(lex_lt, 8);
    assert(lex_lt("expect("@, "expects"@));
    assert(lex_lt("expects"@, "mock.assert_*"@));
    assert(lex_lt("mock.assert_*"@, "shouldBeCalled"@));
    assert(lex_lt("shouldBeCalled"@, "shouldReceive"@));
    let pest = frameworks.contains("pest"@);
    let laravel = frameworks.contains("laravel"@);
    let pytest = frameworks.contains("pytest"@);
    start_sorted(pest, "expect("@, "expects"@);
    extend_sorted(when(pest, "expect("@), laravel, "expects"@, "mock.assert_*"@);
    extend_sorted(when(pest, "expect("@) + when(laravel, "expects"@), pytest, "mock.assert_*"@, "shouldBeCalled"@);
    extend_sorted(
        when(pest, "expect("@) + when(laravel, "expects"@) + when(pytest, "mock.assert_*"@),
        laravel,
        "shouldBeCalled"@,
        "shouldReceive"@,
    );
    extend_sorted_last(
        when(pest, "expect("@) + when(laravel, "expects"@) + when(pytest, "mock.assert_*"@) + when(laravel, "shouldBeCalled"@),
        laravel,
        "shouldReceive"@,
    );
}

/// The directories to ignore are sorted and free of repetition.
pub proof fn ignores_sorted(languages: Seq<Seq<char>>)
    ensures
        strictly_sorted(ignores_for(languages)),
{
    reveal_strlit(".next");
    reveal_strlit(".venv");
    reveal_strlit("__pycache__");
    reveal_strlit("dist");
    reveal_strlit("node_modules");
    reveal_strlit("target");
    reveal_strlit("vendor");
    reveal_with_fuel(lex_lt, 3);
    assert(lex_lt(".next"@, ".venv"@));
    assert(lex_lt(".venv"@, "__pycache__"@));
    assert(lex_lt("__pycache__"@, "dist"@));
    assert(lex_lt("dist"@, "node_modules"@));
    assert(lex_lt("node_modules"@, "target"@));
    assert(lex_lt("target"@, "vendor"@));
    let python = languages.contains("python"@);
    let ts = languages.contains("typescript"@);
    let php = languages.contains("php"@);
    let rust = languages.contains("rust"@);
    let s1 = when(ts, ".next"@);
    let s2 = s1 + when(python, ".venv"@);
    let s3 = s2 + when(python, "__pycache__"@);
    let s4 = s3 + when(ts, "dist"@);
    let s5 = s4 + when(ts, "node_modules"@);
    let s6 = s5 + when(rust, "target"@);
    start_sorted(ts, ".next"@, ".venv"@);
    extend_sorted(s1, python, ".venv"@, "__pycache__"@);
    extend_sorted(s2, python, "__pycache__"@, "dist"@);
    extend_sorted(s3, ts, "dist"@, "node_modules"@);
    extend_sorted(s4, ts, "node_modules"@, "target"@);
    extend_sorted(s5, rust, "target"@, "vendor"@);
    extend_sorted_last(s6, php, "vendor"@);
}

proof fn framework_names_ordered()
    ensures
        lex_lt("django"@, "fastapi"@),
        lex_lt("fastapi"@, "flask"@),
        lex_lt("flask"@, "jest"@),
        lex_lt("jest"@, "laravel"@),
        lex_lt("laravel"@, "nestjs"@),
        lex_lt("nestjs"@, "pest"@),
        lex_lt("pest"@, "phpunit"@),
        lex_lt("phpunit"@, "pytest"@),
        lex_lt("pytest"@, "vitest"@),
{
    reveal_strlit("django");
    reveal_strlit("fastapi");
    reveal_strlit("flask");
    reveal_strlit("jest");
    reveal_strlit("laravel");
    reveal_strlit("nestjs");
    reveal_strlit("pest");
    reveal_strlit("phpunit");
    reveal_strlit("pytest");
    reveal_strlit("vitest");
    reveal_with_fuel(lex_lt, 3);
}

proof fn framework_names_sorted(
    c1: bool, c2: bool, c3: bool, c4: bool, c5: bool, c6: bool, c7: bool, c8: bool, c9: bool, c10: bool,
)
    ensures
        strictly_sorted(when(c1, "django"@) + when(c2, "fastapi"@) + when(c3, "flask"@) + when(c4, "jest"@)
            + when(c5, "laravel"@) + when(c6, "nestjs"@) + when(c7, "pest"@) + when(c8, "phpunit"@)
            + when(c9, "pytest"@) + when(c10, "vitest"@)),
{
    framework_names_ordered();
    let s1 = when(c1, "django"@);
    let s2 = s1 + when(c2, "fastapi"@);
    let s3 = s2 + when(c3, "flask"@);
    let s4 = s3 + when(c4, "jest"@);
    let s5 = s4 + when(c5, "laravel"@);
    let s6 = s5 + when(c6, "nestjs"@);
    let s7 = s6 + when(c7, "pest"@);
    let s8 = s7 + when(c8, "phpunit"@);
    let s9 = s8 + when(c9, "pytest"@);
    start_sorted(c1, "django"@, "fastapi"@);
    extend_sorted(s1, c2, "fastapi"@, "flask"@);
    extend_sorted(s2, c3, "flask"@, "jest"@);
    extend_sorted(s3, c4, "jest"@, "laravel"@);
    extend_sorted(s4, c5, "laravel"@, "nestjs"@);
    extend_sorted(s5, c6, "nestjs"@, "pest"@);
    extend_sorted(s6, c7, "pest"@, "phpunit"@);
    extend_sorted(s7, c8, "phpunit"@, "pytest"@);
    extend_sorted(s8, c9, "pytest"@, "vitest"@);
    extend_sorted_last(s9, c10, "vitest"@);
}

/// The frameworks that `detect_frameworks` reports are sorted and free of
/// repetition, whatever the project holds.
pub proof fn frameworks_sorted(languages: Seq<Seq<char>>, p: ProjectFiles)
    ensures
        strictly_sorted(frameworks_for(languages, p)),
{
    let py = languages.contains("python"@);
    let ts = languages.contains("typescript"@);
    let php = languages.contains("php"@);
    let text = python_dependency_text(p);
    let pkg = json_of(p.package_json);
    let comp = json_of(p.composer_json);
    framework_names_sorted(
        py && p.has_manage_py,
        py && contains(text, "fastapi"@),
        py && contains(text, "flask"@),
        ts && has_nested_member(pkg, "devDependencies"@, "jest"@),
        php && has_nested_member(comp, "require"@, "laravel/framework"@),
        ts && has_nested_member(pkg, "dependencies"@, "@nestjs/core"@),
        php && has_nested_member(comp, "require-dev"@, "pestphp/pest"@),
        php && has_nested_member(comp, "require-dev"@, "phpunit/phpunit"@),
        py && (p.has_conftest_py || contains(text, "pytest"@)),
        ts && has_nested_member(pkg, "devDependencies"@, "vitest"@),
    );
}

} // verus!
