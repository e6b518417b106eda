//! The command line of the analyzer and the test files it picks up.

use vstd::prelude::*;
use crate::paths::{file_name_of, path_file_name};
use crate::order::{insert_sorted, strictly_sorted};
use crate::text::{chars_of, strings_view};
use crate::tsconfig::{ends_with, starts_with};

verus! {

/// The options of a run: the path to analyze (`.` by default), the output
/// format (`terminal` by default), an optional language filter, and whether
/// warnings fail the run.
pub struct Cli {
    pub path: String,
    pub format: String,
    pub lang: Option<String>,
    pub strict: bool,
}

/// A Python test file: its file name starts with `test_` or ends with
/// `_test.py`, and ends with `.py`.
pub open spec fn python_test_file(path: Seq<char>) -> bool {
    let f = match file_name_of(path) {
        Some(f) => f,
        None => Seq::empty(),
    };
    (starts_with(f, "test_"@) || ends_with(f, "_test.py"@)) && ends_with(f, ".py"@)
}

fn ends_with_str(p: &Vec<char>, q: &str) -> (r: bool)
    ensures
        r == ends_with(p@, q@),
{
    let qv = chars_of(q);
    if qv.len() > p.len() {
        return false;
    }
    let tail = crate::text::slice_chars(p, p.len() - qv.len(), p.len());
    crate::text::chars_eq(&tail, &qv)
}

fn starts_with_str(p: &Vec<char>, q: &str) -> (r: bool)
    ensures
        r == starts_with(p@, q@),
{
    let qv = chars_of(q);
    if qv.len() > p.len() {
        return false;
    }
    let head = crate::text::slice_chars(p, 0, qv.len());
    crate::text::chars_eq(&head, &qv)
}

/// Whether a path names a Python test file.
pub fn is_python_test_file(path: &str) -> (r: bool)
    ensures
        r == python_test_file(path@),
{
    let name = match path_file_name(path) {
        Some(f) => chars_of(f.as_str()),
        None => Vec::new(),
    };
    (starts_with_str(&name, "test_") || ends_with_str(&name, "_test.py")) && ends_with_str(&name, ".py")
}


/// The Python test files among the first `i` paths.
pub open spec fn tests_among(paths: Seq<String>, i: int) -> Set<Seq<char>> {
    Set::new(|x: Seq<char>| python_test_file(x) && exists|j: int| 0 <= j < i && (#[trigger] paths[j])@ == x)
}

proof fn lemma_tests_among_step(paths: Seq<String>, i: int)
    requires
        0 <= i < paths.len(),
    ensures
        tests_among(paths, i + 1) == (if python_test_file(paths[i]@) {
            tests_among(paths, i).insert(paths[i]@)
        } else {
            tests_among(paths, i)
        }),
{
    let next = if python_test_file(paths[i]@) { tests_among(paths, i).insert(paths[i]@) } else { tests_among(paths, i) };
    assert forall|x: Seq<char>| tests_among(paths, i + 1).contains(x) <==> next.contains(x) by {
        if tests_among(paths, i + 1).contains(x) {
            let j = choose|j: int| 0 <= j < i + 1 && (#[trigger] paths[j])@ == x;
            if j < i {
                assert(tests_among(paths, i).contains(x));
            }
        }
        if tests_among(paths, i).contains(x) {
            let j = choose|j: int| 0 <= j < i && (#[trigger] paths[j])@ == x;
            assert(0 <= j < i + 1 && paths[j]@ == x);
        }
        if python_test_file(paths[i]@) && x == paths[i]@ {
            assert(0 <= i < i + 1 && paths[i]@ == x);
        }
    }
    assert(tests_among(paths, i + 1) =~= next);
}

/// The Python test files among the given paths, sorted and without
/// repetition (the paths that `is_python_test_file` accepts).
pub fn python_test_files(paths: &[String]) -> (r: Vec<String>)
    ensures
        strictly_sorted(strings_view(r@)),
        forall|x: Seq<char>| strings_view(r@).contains(x) <==> (strings_view(paths@).contains(x) && python_test_file(x)),
{
    let mut r: Vec<String> = Vec::new();
    let n = paths.len();
    let mut i: usize = 0;
    assert(strings_view(r@).to_set() =~= tests_among(paths@, 0));
    while i < n
        invariant
            n == paths@.len(),
            i <= n,
            strictly_sorted(strings_view(r@)),
            strings_view(r@).to_set() == tests_among(paths@, i as int),
        decreases n - i,
    {
        proof {
            lemma_tests_among_step(paths@, i as int);
        }
        if is_python_test_file(paths[i].as_str()) {
            insert_sorted(&mut r, paths[i].clone());
        }
        i = i + 1;
    }
    let ghost rv = strings_view(r@);
    let ghost pv = strings_view(paths@);
    assert forall|x: Seq<char>| #[trigger] rv.contains(x) <==> (pv.contains(x) && python_test_file(x)) by {
        assert(rv.contains(x) <==> rv.to_set().contains(x));
        if pv.contains(x) {
            let j = choose|j: int| 0 <= j < pv.len() && pv[j] == x;
            assert(paths@[j]@ == x);
        }
        if tests_among(paths@, n as int).contains(x) {
            let j = choose|j: int| 0 <= j < n && (#[trigger] paths@[j])@ == x;
            assert(pv[j] == x);
        }
    }
    r
}

} // verus!
