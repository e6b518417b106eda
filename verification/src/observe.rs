//! Mapping production files to the test files that exercise them: by file
//! name (same directory and stem) and by import tracing.

use vstd::prelude::*;
use crate::paths::{dir_of, directory_of, extension_of, file_name_of, path_extension, path_file_name};
use crate::text::{chars_eq, chars_of, push_str, strings_view};

verus! {

// ---------------------------------------------------------------------------
// Types
// ---------------------------------------------------------------------------

#[derive(Debug, Clone, PartialEq)]
pub struct ProductionFunction {
    pub name: String,
    pub file: String,
    pub line: usize,
    pub class_name: Option<String>,
    pub is_exported: bool,
}

#[derive(Debug, Clone, Copy, PartialEq, Eq, Structural)]
pub enum MappingStrategy {
    FileNameConvention,
    ImportTracing,
}

/// The test files found for one production file, and how they were found.
#[derive(Debug, Clone, PartialEq)]
pub struct FileMapping {
    pub production_file: String,
    pub test_files: Vec<String>,
    pub strategy: MappingStrategy,
}

#[derive(Debug, Clone, PartialEq)]
pub struct ImportMapping {
    pub symbol_name: String,
    pub module_specifier: String,
    pub file: String,
    pub line: usize,
    pub symbols: Vec<String>,
}

/// A re-export of a barrel (index) file.
#[derive(Debug, Clone, PartialEq)]
pub struct BarrelReExport {
    pub symbols: Vec<String>,
    pub from_specifier: String,
    pub wildcard: bool,
    /// True when this is a namespace re-export (`export * as Ns from '...'`).
    /// The namespace name changes the symbol space, so nested resolution must
    /// treat this as an opaque wildcard (symbols dropped on recursion).
    pub namespace_wildcard: bool,
}

/// The deepest chain of barrel files that is followed.
pub const MAX_BARREL_DEPTH: usize = 3;

// ---------------------------------------------------------------------------
// The language interface
// ---------------------------------------------------------------------------

/// Whether `names` holds `name`.
fn has_str(names: &[&str], name: &Vec<char>) -> (r: bool)
    ensures
        r == names@.map_values(|s: &str| s@).contains(name@),
{
    let ghost nv = names@.map_values(|s: &str| s@);
    let n = names.len();
    let mut i: usize = 0;
    while i < n
        invariant
            n == names@.len(),
            i <= n,
            nv == names@.map_values(|s: &str| s@),
            forall|j: int| 0 <= j < i ==> nv[j] != name@,
        decreases n - i,
    {
        let c = chars_of(names[i]);
        assert(nv[i as int] == names@[i as int]@);
        if chars_eq(&c, name) {
            return true;
        }
        i = i + 1;
    }
    false
}

/// A path names a barrel file when its file name is one of the index file
/// names of the language.
pub open spec fn is_barrel_path(path: Seq<char>, index_names: Seq<Seq<char>>) -> bool {
    index_names.contains(match file_name_of(path) {
        Some(f) => f,
        None => Seq::empty(),
    })
}

/// Whether `path` names a barrel file (its file name is an index file name).
pub fn barrel_path(path: &str, index_names: &[&str]) -> (r: bool)
    ensures
        r == is_barrel_path(path@, index_names@.map_values(|s: &str| s@)),
{
    let name = match path_file_name(path) {
        Some(f) => chars_of(f.as_str()),
        None => Vec::new(),
    };
    has_str(index_names, &name)
}

/// What the observation of a language needs from its front end.
pub trait ObserveExtractor: Send + Sync {
    fn extract_production_functions(&self, source: &str, file_path: &str) -> Vec<ProductionFunction>;

    fn extract_imports(&self, source: &str, file_path: &str) -> Vec<ImportMapping>;

    fn extract_all_import_specifiers(&self, source: &str) -> Vec<(String, Vec<String>)>;

    fn extract_barrel_re_exports(&self, source: &str, file_path: &str) -> Vec<BarrelReExport>;

    fn source_extensions(&self) -> &[&str];

    fn index_file_names(&self) -> &[&str];

    fn production_stem<'a>(&self, path: &'a str) -> Option<&'a str>;

    fn test_stem<'a>(&self, path: &'a str) -> Option<&'a str>;

    fn is_non_sut_helper(&self, file_path: &str, is_known_production: bool) -> bool;

    /// Whether the file name of `path` is one of `index_file_names`.
    fn is_barrel_file(&self, path: &str) -> bool {
        barrel_path(path, self.index_file_names())
    }

    /// By default every file counts as exporting the symbols.
    fn file_exports_any_symbol(&self, path: &str, symbols: &[String]) -> (r: bool)
        default_ensures
            r,
    {
        true
    }

    /// By default no import is resolved through aliases.
    fn resolve_alias_imports(&self, source: &str, scan_root: &str) -> (r: Vec<(String, Vec<String>, Option<String>)>)
        default_ensures
            r@.len() == 0,
    {
        Vec::new()
    }
}


// ---------------------------------------------------------------------------
// Layer 1: file name convention
// ---------------------------------------------------------------------------

pub open spec fn opt_view(o: Option<String>) -> Option<Seq<char>> {
    match o {
        Some(s) => Some(s@),
        None => None,
    }
}

pub open spec fn opt_views(v: Seq<Option<String>>) -> Seq<Option<Seq<char>>> {
    v.map_values(|o: Option<String>| opt_view(o))
}

/// A test file belongs to a production file when both have a stem, the
/// stems are equal, and both lie in the same directory.
pub open spec fn stems_match(production: Seq<char>, production_stem: Option<Seq<char>>, test: Seq<char>, test_stem: Option<Seq<char>>) -> bool {
    production_stem is Some && test_stem == production_stem && dir_of(test) == dir_of(production)
}

/// The test files that belong to a production file, in their order.
pub open spec fn matching_tests(
    production: Seq<char>,
    production_stem: Option<Seq<char>>,
    tests: Seq<Seq<char>>,
    test_stems: Seq<Option<Seq<char>>>,
) -> Seq<Seq<char>>
    decreases tests.len(),
{
    if tests.len() == 0 || test_stems.len() != tests.len() {
        Seq::empty()
    } else {
        matching_tests(production, production_stem, tests.drop_last(), test_stems.drop_last()) + (if stems_match(
            production,
            production_stem,
            tests.last(),
            test_stems.last(),
        ) {
            seq![tests.last()]
        } else {
            Seq::empty()
        })
    }
}

/// One mapping per production file, in order, found by file name.
pub open spec fn mapping_by_stems(
    mappings: Seq<FileMapping>,
    production: Seq<Seq<char>>,
    production_stems: Seq<Option<Seq<char>>>,
    tests: Seq<Seq<char>>,
    test_stems: Seq<Option<Seq<char>>>,
) -> bool {
    &&& mappings.len() == production.len()
    &&& forall|i: int| 0 <= i < mappings.len() ==> {
        &&& (#[trigger] mappings[i]).production_file@ == production[i]
        &&& strings_view(mappings[i].test_files@) == matching_tests(production[i], production_stems[i], tests, test_stems)
        &&& mappings[i].strategy == MappingStrategy::FileNameConvention
    }
}

fn opt_eq(a: &Option<String>, b: &Option<String>) -> (r: bool)
    ensures
        r == (opt_view(*a) == opt_view(*b)),
{
    match (a, b) {
        (Some(x), Some(y)) => *x == *y,
        (None, None) => true,
        _ => false,
    }
}

fn tests_for(
    production: &String,
    production_stem: &Option<String>,
    tests: &[String],
    test_dirs: &Vec<String>,
    test_stems: &Vec<Option<String>>,
) -> (r: Vec<String>)
    requires
        test_dirs@.len() == tests@.len(),
        test_stems@.len() == tests@.len(),
        forall|j: int| 0 <= j < tests@.len() ==> (#[trigger] test_dirs@[j])@ == dir_of(tests@[j]@),
    ensures
        strings_view(r@) == matching_tests(production@, opt_view(*production_stem), strings_view(tests@), opt_views(test_stems@)),
{
    let ghost tv = strings_view(tests@);
    let ghost sv = opt_views(test_stems@);
    let pdir = directory_of(production.as_str());
    let n = tests.len();
    let mut r: Vec<String> = Vec::new();
    let mut i: usize = 0;
    while i < n
        invariant
            n == tests@.len(),
            test_dirs@.len() == n,
            test_stems@.len() == n,
            forall|j: int| 0 <= j < n ==> (#[trigger] test_dirs@[j])@ == dir_of(tests@[j]@),
            tv == strings_view(tests@),
            sv == opt_views(test_stems@),
            pdir@ == dir_of(production@),
            i <= n,
            strings_view(r@) == matching_tests(production@, opt_view(*production_stem), tv.take(i as int), sv.take(i as int)),
        decreases n - i,
    {
        let ghost before = r@;
        assert(tv.take(i + 1).drop_last() =~= tv.take(i as int));
        assert(sv.take(i + 1).drop_last() =~= sv.take(i as int));
        assert(tv[i as int] == tests@[i as int]@);
        assert(sv[i as int] == opt_view(test_stems@[i as int]));
        if production_stem.is_some() && opt_eq(&test_stems[i], production_stem) && test_dirs[i] == pdir {
            r.push(tests[i].clone());
            assert(strings_view(r@) =~= strings_view(before).push(tests@[i as int]@));
        }
        i = i + 1;
    }
    assert(tv.take(n as int) =~= tv);
    assert(sv.take(n as int) =~= sv);
    r
}

/// Given the stem of each test file (`test_stems[k]` for `tests[k]`), a
/// test file is listed for a production file exactly when some test file
/// with that path has a stem equal to the production file's stem (which
/// exists) and lies in the same directory.
pub proof fn test_listed_iff_stems_agree(
    production: Seq<char>,
    production_stem: Option<Seq<char>>,
    tests: Seq<Seq<char>>,
    test_stems: Seq<Option<Seq<char>>>,
    t: Seq<char>,
)
    requires
        test_stems.len() == tests.len(),
    ensures
        matching_tests(production, production_stem, tests, test_stems).contains(t) <==> exists|k: int|
            0 <= k < tests.len() && #[trigger] tests[k] == t && production_stem is Some && test_stems[k] == production_stem
                && dir_of(t) == dir_of(production),
    decreases tests.len(),
{
    if tests.len() > 0 {
        let td = tests.drop_last();
        let sd = test_stems.drop_last();
        test_listed_iff_stems_agree(production, production_stem, td, sd, t);
        let prev = matching_tests(production, production_stem, td, sd);
        let m = matching_tests(production, production_stem, tests, test_stems);
        let last = tests.len() - 1;
        if m.contains(t) {
            let i = choose|i: int| 0 <= i < m.len() && m[i] == t;
            if i < prev.len() {
                assert(m[i] == prev[i]);
                assert(prev.contains(t));
                let k = choose|k: int| 0 <= k < td.len() && #[trigger] td[k] == t && production_stem is Some && sd[k] == production_stem
                    && dir_of(t) == dir_of(production);
                assert(tests[k] == td[k] && test_stems[k] == sd[k]);
            } else {
                assert(tests[last] == t);
            }
        }
        if exists|k: int| 0 <= k < tests.len() && #[trigger] tests[k] == t && production_stem is Some && test_stems[k] == production_stem
            && dir_of(t) == dir_of(production) {
            let k = choose|k: int| 0 <= k < tests.len() && #[trigger] tests[k] == t && production_stem is Some && test_stems[k] == production_stem
                && dir_of(t) == dir_of(production);
            if k < last {
                assert(td[k] == t && sd[k] == test_stems[k]);
                assert(prev.contains(t));
                let i = choose|i: int| 0 <= i < prev.len() && prev[i] == t;
                assert(m[i] == t);
            } else {
                assert(m[m.len() - 1] == t);
            }
        }
    }
}

/// Layer 1 of the mapping, given the stems that the language gives each
/// file (`None` when a file has none): each production file gets the test
/// files of the same directory and stem.
pub fn map_by_stems(
    production_files: &[String],
    production_stems: &Vec<Option<String>>,
    test_files: &[String],
    test_stems: &Vec<Option<String>>,
) -> (r: Vec<FileMapping>)
    requires
        production_stems@.len() == production_files@.len(),
        test_stems@.len() == test_files@.len(),
    ensures
        mapping_by_stems(r@, strings_view(production_files@), opt_views(production_stems@), strings_view(test_files@), opt_views(test_stems@)),
{
    let nt = test_files.len();
    let mut test_dirs: Vec<String> = Vec::new();
    let mut k: usize = 0;
    while k < nt
        invariant
            nt == test_files@.len(),
            k <= nt,
            test_dirs@.len() == k,
            forall|j: int| 0 <= j < k ==> (#[trigger] test_dirs@[j])@ == dir_of(test_files@[j]@),
        decreases nt - k,
    {
        test_dirs.push(directory_of(test_files[k].as_str()));
        k = k + 1;
    }
    let n = production_files.len();
    let mut r: Vec<FileMapping> = Vec::new();
    let mut i: usize = 0;
    while i < n
        invariant
            n == production_files@.len(),
            production_stems@.len() == n,
            test_stems@.len() == test_files@.len(),
            test_dirs@.len() == test_files@.len(),
            forall|j: int| 0 <= j < test_files@.len() ==> (#[trigger] test_dirs@[j])@ == dir_of(test_files@[j]@),
            i <= n,
            r@.len() == i,
            forall|j: int| 0 <= j < i ==> {
                &&& (#[trigger] r@[j]).production_file@ == production_files@[j]@
                &&& strings_view(r@[j].test_files@) == matching_tests(production_files@[j]@, opt_view(production_stems@[j]), strings_view(test_files@), opt_views(test_stems@))
                &&& r@[j].strategy == MappingStrategy::FileNameConvention
            },
        decreases n - i,
    {
        let matches = tests_for(&production_files[i], &production_stems[i], test_files, &test_dirs, test_stems);
        r.push(FileMapping {
            production_file: production_files[i].clone(),
            test_files: matches,
            strategy: MappingStrategy::FileNameConvention,
        });
        i = i + 1;
    }
    r
}

/// Every listed test file is one of the test files and lies in the
/// directory of the production file.
pub open spec fn tests_in_same_directory(m: FileMapping, tests: Seq<Seq<char>>) -> bool {
    forall|j: int| 0 <= j < m.test_files@.len() ==> tests.contains((#[trigger] m.test_files@[j])@)
        && dir_of(m.test_files@[j]@) == dir_of(m.production_file@)
}

proof fn lemma_matching_tests_sound(
    production: Seq<char>,
    production_stem: Option<Seq<char>>,
    tests: Seq<Seq<char>>,
    test_stems: Seq<Option<Seq<char>>>,
)
    ensures
        forall|j: int| 0 <= j < matching_tests(production, production_stem, tests, test_stems).len() ==>
            tests.contains(#[trigger] matching_tests(production, production_stem, tests, test_stems)[j])
            && dir_of(matching_tests(production, production_stem, tests, test_stems)[j]) == dir_of(production),
    decreases tests.len(),
{
    if tests.len() > 0 && test_stems.len() == tests.len() {
        let m = matching_tests(production, production_stem, tests, test_stems);
        let prev = matching_tests(production, production_stem, tests.drop_last(), test_stems.drop_last());
        lemma_matching_tests_sound(production, production_stem, tests.drop_last(), test_stems.drop_last());
        assert forall|j: int| 0 <= j < m.len() implies tests.contains(#[trigger] m[j]) && dir_of(m[j]) == dir_of(production) by {
            if j < prev.len() {
                assert(m[j] == prev[j]);
                let k = choose|k: int| 0 <= k < tests.drop_last().len() && tests.drop_last()[k] == prev[j];
                assert(tests[k] == m[j]);
            } else {
                assert(m[j] == tests.last());
                assert(tests[tests.len() - 1] == m[j]);
            }
        }
    }
}

/// Layer 1: maps each production file to the test files of the same
/// directory whose test stem equals the production file's stem (as the
/// language front end gives them): the result is `mapping_by_stems` for
/// the stems that the language gave.  Whatever the stems, there is one
/// mapping per production file, in order, and each listed test file is one
/// of the test files, in the production file's directory.
pub fn map_test_files(ext: &dyn ObserveExtractor, production_files: &[String], test_files: &[String]) -> (r: Vec<FileMapping>)
    ensures
        r@.len() == production_files@.len(),
        forall|i: int| 0 <= i < r@.len() ==> {
            &&& (#[trigger] r@[i]).production_file@ == production_files@[i]@
            &&& r@[i].strategy == MappingStrategy::FileNameConvention
            &&& tests_in_same_directory(r@[i], strings_view(test_files@))
        },
        exists|ps: Seq<Option<Seq<char>>>, ts: Seq<Option<Seq<char>>>|
            #![trigger mapping_by_stems(r@, strings_view(production_files@), ps, strings_view(test_files@), ts)]
            ps.len() == production_files@.len() && ts.len() == test_files@.len()
                && mapping_by_stems(r@, strings_view(production_files@), ps, strings_view(test_files@), ts),
{
    let mut test_stems: Vec<Option<String>> = Vec::new();
    let nt = test_files.len();
    let mut k: usize = 0;
    while k < nt
        invariant
            nt == test_files@.len(),
            k <= nt,
            test_stems@.len() == k,
        decreases nt - k,
    {
        let s = match ext.test_stem(test_files[k].as_str()) {
            Some(s) => Some(String::from_str(s)),
            None => None,
        };
        test_stems.push(s);
        k = k + 1;
    }
    let mut production_stems: Vec<Option<String>> = Vec::new();
    let np = production_files.len();
    let mut j: usize = 0;
    while j < np
        invariant
            np == production_files@.len(),
            j <= np,
            production_stems@.len() == j,
        decreases np - j,
    {
        let s = match ext.production_stem(production_files[j].as_str()) {
            Some(s) => Some(String::from_str(s)),
            None => None,
        };
        production_stems.push(s);
        j = j + 1;
    }
    let r = map_by_stems(production_files, &production_stems, test_files, &test_stems);
    assert forall|i: int| 0 <= i < r@.len() implies tests_in_same_directory(#[trigger] r@[i], strings_view(test_files@)) by {
        assert(strings_view(production_files@)[i] == production_files@[i]@);
        lemma_matching_tests_sound(production_files@[i]@, opt_views(production_stems@)[i], strings_view(test_files@), opt_views(test_stems@));
        let m = matching_tests(production_files@[i]@, opt_views(production_stems@)[i], strings_view(test_files@), opt_views(test_stems@));
        assert forall|j: int| 0 <= j < r@[i].test_files@.len() implies strings_view(test_files@).contains((#[trigger] r@[i].test_files@[j])@)
            && dir_of(r@[i].test_files@[j]@) == dir_of(r@[i].production_file@) by {
            assert(strings_view(r@[i].test_files@)[j] == r@[i].test_files@[j]@);
            assert(m[j] == r@[i].test_files@[j]@);
        }
    }
    assert(opt_views(production_stems@).len() == production_files@.len());
    assert(opt_views(test_stems@).len() == test_files@.len());
    r
}


// ---------------------------------------------------------------------------
// Layer 2: import tracing
// ---------------------------------------------------------------------------

/// The index that a canonical path has among the production files (the
/// first entry for it).
pub open spec fn index_of(map: Seq<(String, usize)>, key: Seq<char>) -> Option<usize>
    decreases map.len(),
{
    if map.len() == 0 {
        None
    } else if map[0].0@ == key {
        Some(map[0].1)
    } else {
        index_of(map.drop_first(), key)
    }
}

/// `indices` with `x` added unless it is there already.
pub open spec fn add_index(indices: Seq<usize>, x: usize) -> Seq<usize> {
    if indices.contains(x) { indices } else { indices.push(x) }
}

/// The indices after recording the matched production files: each file
/// that is not a helper and is a known production file adds its index.
pub open spec fn recorded_indices(
    indices: Seq<usize>,
    files: Seq<Seq<char>>,
    helpers: Seq<bool>,
    map: Seq<(String, usize)>,
) -> Seq<usize>
    decreases files.len(),
{
    if files.len() == 0 || helpers.len() != files.len() {
        indices
    } else {
        let prev = recorded_indices(indices, files.drop_last(), helpers.drop_last(), map);
        if !helpers.last() && index_of(map, files.last()) is Some {
            add_index(prev, index_of(map, files.last())->Some_0)
        } else {
            prev
        }
    }
}

fn index_lookup(map: &Vec<(String, usize)>, key: &str) -> (r: Option<usize>)
    ensures
        r == index_of(map@, key@),
{
    let n = map.len();
    let mut i: usize = 0;
    assert(map@.subrange(0, n as int) =~= map@);
    while i < n
        invariant
            n == map@.len(),
            i <= n,
            index_of(map@, key@) == index_of(map@.subrange(i as int, n as int), key@),
        decreases n - i,
    {
        assert(map@.subrange(i as int, n as int).drop_first() =~= map@.subrange(i + 1, n as int));
        if crate::text::str_eq(map[i].0.as_str(), key) {
            return Some(map[i].1);
        }
        i = i + 1;
    }
    None
}

fn add_unique(indices: &mut Vec<usize>, x: usize)
    ensures
        final(indices)@ == add_index(old(indices)@, x),
{
    let n = indices.len();
    let mut i: usize = 0;
    while i < n
        invariant
            n == indices@.len(),
            i <= n,
            forall|j: int| 0 <= j < i ==> indices@[j] != x,
        decreases n - i,
    {
        if indices[i] == x {
            return;
        }
        i = i + 1;
    }
    indices.push(x);
}

proof fn lemma_recorded_from_wider(
    old_indices: Seq<usize>,
    new_indices: Seq<usize>,
    files: Seq<Seq<char>>,
    all: Seq<Seq<char>>,
    map: Seq<(String, usize)>,
)
    requires
        recorded_from(old_indices, new_indices, files, map),
        forall|j: int| 0 <= j < files.len() ==> all.contains(#[trigger] files[j]),
    ensures
        recorded_from(old_indices, new_indices, all, map),
{
    assert forall|k: int| old_indices.len() <= k < new_indices.len() implies #[trigger] index_among(all, map, new_indices[k]) by {
        assert(index_among(files, map, new_indices[k]));
        let j = choose|j: int| 0 <= j < files.len() && index_of(map, files[j]) == Some(new_indices[k]);
        assert(all.contains(files[j]));
        let i = choose|i: int| 0 <= i < all.len() && all[i] == files[j];
        assert(index_of(map, all[i]) == Some(new_indices[k]));
    }
}

/// Recording keeps the indices free of repetition: each production file
/// counts once, however many imports lead to it.
pub proof fn recorded_indices_unique(indices: Seq<usize>, files: Seq<Seq<char>>, helpers: Seq<bool>, map: Seq<(String, usize)>)
    requires
        indices.no_duplicates(),
    ensures
        recorded_indices(indices, files, helpers, map).no_duplicates(),
    decreases files.len(),
{
    if files.len() > 0 && helpers.len() == files.len() {
        recorded_indices_unique(indices, files.drop_last(), helpers.drop_last(), map);
        let prev = recorded_indices(indices, files.drop_last(), helpers.drop_last(), map);
        if !helpers.last() && index_of(map, files.last()) is Some {
            add_index_unique(prev, index_of(map, files.last())->Some_0);
        }
    }
}

/// Adding an index that is not there keeps the indices free of repetition.
pub proof fn add_index_unique(indices: Seq<usize>, x: usize)
    requires
        indices.no_duplicates(),
    ensures
        add_index(indices, x).no_duplicates(),
        add_index(indices, x).to_set() == indices.to_set().insert(x),
{
    if !indices.contains(x) {
        let r = indices.push(x);
        assert forall|i: int, j: int| 0 <= i < r.len() && 0 <= j < r.len() && i != j implies r[i] != r[j] by {
            if i == indices.len() as int {
                assert(r[j] == indices[j]);
            } else if j == indices.len() as int {
                assert(r[i] == indices[i]);
            }
        }
    }
    let r = add_index(indices, x);
    assert forall|y: usize| r.to_set().contains(y) <==> indices.to_set().insert(x).contains(y) by {
        if r.contains(y) && y != x {
            let k = choose|k: int| 0 <= k < r.len() && r[k] == y;
            assert(indices[k] == y);
        }
        if indices.contains(y) {
            let k = choose|k: int| 0 <= k < indices.len() && indices[k] == y;
            assert(r[k] == y);
        }
        if y == x && !indices.contains(x) {
            assert(r[indices.len() as int] == x);
        }
    }
    assert(r.to_set() =~= indices.to_set().insert(x));
}

/// Records the production files among `files` (with, for each, whether the
/// language counts it as a helper that is not under test).
pub fn record_matches(files: &[String], helpers: &Vec<bool>, canonical_to_idx: &Vec<(String, usize)>, indices: &mut Vec<usize>)
    requires
        helpers@.len() == files@.len(),
    ensures
        final(indices)@ == recorded_indices(old(indices)@, strings_view(files@), helpers@, canonical_to_idx@),
        old(indices)@.no_duplicates() ==> final(indices)@.no_duplicates(),
{
    let ghost fv = strings_view(files@);
    let n = files.len();
    let mut i: usize = 0;
    while i < n
        invariant
            n == files@.len(),
            helpers@.len() == n,
            fv == strings_view(files@),
            i <= n,
            indices@ == recorded_indices(old(indices)@, fv.take(i as int), helpers@.take(i as int), canonical_to_idx@),
        decreases n - i,
    {
        assert(fv.take(i + 1).drop_last() =~= fv.take(i as int));
        assert(helpers@.take(i + 1).drop_last() =~= helpers@.take(i as int));
        assert(fv[i as int] == files@[i as int]@);
        if !helpers[i] {
            match index_lookup(canonical_to_idx, files[i].as_str()) {
                Some(x) => add_unique(indices, x),
                None => {},
            }
        }
        i = i + 1;
    }
    assert(fv.take(n as int) =~= fv);
    assert(helpers@.take(n as int) =~= helpers@);
    proof {
        if old(indices)@.no_duplicates() {
            recorded_indices_unique(old(indices)@, fv, helpers@, canonical_to_idx@);
        }
    }
}

/// Every index recorded is the index of one of the given files, and the
/// earlier indices stay in front.
pub open spec fn recorded_from(old_indices: Seq<usize>, new_indices: Seq<usize>, files: Seq<Seq<char>>, map: Seq<(String, usize)>) -> bool {
    &&& old_indices.len() <= new_indices.len()
    &&& new_indices.subrange(0, old_indices.len() as int) == old_indices
    &&& forall|k: int| old_indices.len() <= k < new_indices.len() ==> #[trigger] index_among(files, map, new_indices[k])
}

/// `x` is the index of one of the files.
pub open spec fn index_among(files: Seq<Seq<char>>, map: Seq<(String, usize)>, x: usize) -> bool {
    exists|j: int| 0 <= j < files.len() && index_of(map, files[j]) == Some(x)
}

proof fn lemma_recorded_from(indices: Seq<usize>, files: Seq<Seq<char>>, helpers: Seq<bool>, map: Seq<(String, usize)>)
    ensures
        recorded_from(indices, recorded_indices(indices, files, helpers, map), files, map),
    decreases files.len(),
{
    if files.len() > 0 && helpers.len() == files.len() {
        let prev = recorded_indices(indices, files.drop_last(), helpers.drop_last(), map);
        lemma_recorded_from(indices, files.drop_last(), helpers.drop_last(), map);
        let r = recorded_indices(indices, files, helpers, map);
        assert forall|k: int| indices.len() <= k < r.len() implies #[trigger] index_among(files, map, r[k]) by {
            if k < prev.len() {
                assert(index_among(files.drop_last(), map, prev[k]));
                let j = choose|j: int| 0 <= j < files.drop_last().len() && index_of(map, files.drop_last()[j]) == Some(prev[k]);
                assert(r[k] == prev[k]);
                assert(files[j] == files.drop_last()[j]);
            } else {
                assert(index_of(map, files[files.len() - 1]) == Some(r[k]));
            }
        }
        assert(r.subrange(0, indices.len() as int) =~= indices) by {
            assert(prev.subrange(0, indices.len() as int) == indices);
            assert forall|k: int| 0 <= k < indices.len() implies r[k] == prev[k] by {}
        }
    } else {
        assert(indices.subrange(0, indices.len() as int) =~= indices);
    }
}

/// The files that an import records: those that a barrel re-exports
/// (`barrel_resolution`) when the resolved file is a barrel, else the
/// resolved file itself.
pub open spec fn import_files(resolved: Seq<char>, is_barrel: bool, barrel_resolution: Seq<Seq<char>>) -> Seq<Seq<char>> {
    if is_barrel { barrel_resolution } else { seq![resolved] }
}

/// Recording keeps every index recorded before, and afterwards holds the
/// index of each file that is a known production file and no helper.
pub proof fn recorded_indices_hold_matches(indices: Seq<usize>, files: Seq<Seq<char>>, helpers: Seq<bool>, map: Seq<(String, usize)>)
    requires
        helpers.len() == files.len(),
    ensures
        forall|x: usize| indices.contains(x) ==> #[trigger] recorded_indices(indices, files, helpers, map).contains(x),
        forall|j: int| 0 <= j < files.len() && !helpers[j] && #[trigger] index_of(map, files[j]) is Some
            ==> recorded_indices(indices, files, helpers, map).contains(index_of(map, files[j])->Some_0),
    decreases files.len(),
{
    if files.len() > 0 {
        let fs = files.drop_last();
        let hs = helpers.drop_last();
        recorded_indices_hold_matches(indices, fs, hs, map);
        let prev = recorded_indices(indices, fs, hs, map);
        let r = recorded_indices(indices, files, helpers, map);
        assert forall|x: usize| prev.contains(x) implies r.contains(x) by {
            if !helpers.last() && index_of(map, files.last()) is Some {
                let y = index_of(map, files.last())->Some_0;
                if !prev.contains(y) {
                    let i = choose|i: int| 0 <= i < prev.len() && prev[i] == x;
                    assert(r[i] == x);
                }
            }
        }
        assert forall|j: int| 0 <= j < files.len() && !helpers[j] && #[trigger] index_of(map, files[j]) is Some
            implies r.contains(index_of(map, files[j])->Some_0) by {
            if j < fs.len() {
                assert(fs[j] == files[j] && hs[j] == helpers[j]);
                assert(prev.contains(index_of(map, fs[j])->Some_0));
            } else {
                let y = index_of(map, files.last())->Some_0;
                if !prev.contains(y) {
                    assert(r[prev.len() as int] == y);
                }
            }
        }
    }
}

/// A direct import of a known production file that is no helper records
/// its index, once; a helper or an unknown file records nothing.
pub proof fn direct_import_records_its_index(indices: Seq<usize>, resolved: Seq<char>, is_helper: bool, map: Seq<(String, usize)>)
    ensures
        recorded_indices(indices, import_files(resolved, false, Seq::empty()), seq![is_helper], map) == (match index_of(map, resolved) {
            Some(x) => if is_helper { indices } else { add_index(indices, x) },
            None => indices,
        }),
{
    let files = import_files(resolved, false, Seq::empty());
    assert(files.drop_last() =~= Seq::<Seq<char>>::empty());
    assert(seq![is_helper].drop_last() =~= Seq::<bool>::empty());
    assert(recorded_indices(indices, Seq::<Seq<char>>::empty(), Seq::<bool>::empty(), map) == indices);
    assert(files.last() == resolved);
    assert(seq![is_helper].last() == is_helper);
}

/// Records the production files of an import, given the language's answers:
/// whether the resolved file is a barrel, and, for each file recorded,
/// whether it is a helper that is not under test.
pub fn record_import(
    resolved: &str,
    is_barrel: bool,
    helpers: &Vec<bool>,
    canonical_to_idx: &Vec<(String, usize)>,
    indices: &mut Vec<usize>,
    barrel_resolution: &[String],
)
    requires
        helpers@.len() == (if is_barrel { barrel_resolution@.len() } else { 1 }),
    ensures
        final(indices)@ == recorded_indices(
            old(indices)@,
            import_files(resolved@, is_barrel, strings_view(barrel_resolution@)),
            helpers@,
            canonical_to_idx@,
        ),
        old(indices)@.no_duplicates() ==> final(indices)@.no_duplicates(),
{
    if is_barrel {
        record_matches(barrel_resolution, helpers, canonical_to_idx, indices);
    } else {
        let one: Vec<String> = vec![String::from_str(resolved)];
        assert(strings_view(one@) =~= seq![resolved@]);
        record_matches(one.as_slice(), helpers, canonical_to_idx, indices);
    }
}

/// Records the production file that an import resolves to: through the
/// files that a barrel file re-exports (`barrel_resolution`, as
/// `resolve_barrel_exports` finds them) when the language counts the
/// resolved file as a barrel, else the resolved file itself; files that the
/// language counts as helpers, and files that are not production files, are
/// skipped.  Whatever the language answers, the earlier indices stay, and
/// each new one is the index of the resolved file or of a re-exported one.
pub fn collect_import_matches(
    ext: &dyn ObserveExtractor,
    resolved: &str,
    canonical_to_idx: &Vec<(String, usize)>,
    indices: &mut Vec<usize>,
    barrel_resolution: &[String],
)
    ensures
        exists|is_barrel: bool, helpers: Seq<bool>| #![trigger import_files(resolved@, is_barrel, strings_view(barrel_resolution@)), recorded_indices(old(indices)@, import_files(resolved@, is_barrel, strings_view(barrel_resolution@)), helpers, canonical_to_idx@)]
            helpers.len() == import_files(resolved@, is_barrel, strings_view(barrel_resolution@)).len()
            && final(indices)@ == recorded_indices(
                old(indices)@,
                import_files(resolved@, is_barrel, strings_view(barrel_resolution@)),
                helpers,
                canonical_to_idx@,
            ),
        recorded_from(old(indices)@, final(indices)@, seq![resolved@] + strings_view(barrel_resolution@), canonical_to_idx@),
        old(indices)@.no_duplicates() ==> final(indices)@.no_duplicates(),
{
    let ghost all = seq![resolved@] + strings_view(barrel_resolution@);
    let ghost start = indices@;
    let is_barrel = ext.is_barrel_file(resolved);
    let mut helpers: Vec<bool> = Vec::new();
    if is_barrel {
        let n = barrel_resolution.len();
        let mut i: usize = 0;
        while i < n
            invariant
                n == barrel_resolution@.len(),
                i <= n,
                helpers@.len() == i,
            decreases n - i,
        {
            let known = index_lookup(canonical_to_idx, barrel_resolution[i].as_str()).is_some();
            helpers.push(ext.is_non_sut_helper(barrel_resolution[i].as_str(), known));
            i = i + 1;
        }
    } else {
        let known = index_lookup(canonical_to_idx, resolved).is_some();
        helpers.push(ext.is_non_sut_helper(resolved, known));
    }
    let ghost files = import_files(resolved@, is_barrel, strings_view(barrel_resolution@));
    record_import(resolved, is_barrel, &helpers, canonical_to_idx, indices, barrel_resolution);
    proof {
        lemma_recorded_from(start, files, helpers@, canonical_to_idx@);
        assert forall|j: int| 0 <= j < files.len() implies all.contains(#[trigger] files[j]) by {
            if is_barrel {
                assert(all[j + 1] == files[j]);
            } else {
                assert(all[0] == files[j]);
            }
        }
        lemma_recorded_from_wider(start, indices@, files, all, canonical_to_idx@);
        assert(recorded_from(start, indices@, all, canonical_to_idx@));
    }
}

// ---------------------------------------------------------------------------
// Resolving an import to a file
// ---------------------------------------------------------------------------

/// Whether `path` lies under `root`, component by component (what
/// `Path::starts_with` says).
pub uninterp spec fn path_under(path: Seq<char>, root: Seq<char>) -> bool;

/// `Path::new(path).starts_with(root)`.  The contract claims only that the
/// answer is a function of the two texts (named `path_under`).
#[verifier::external_body]
pub(crate) fn path_starts_with(path: &str, root: &str) -> (r: bool)
    ensures
        r == path_under(path@, root@),
{
    std::path::Path::new(path).starts_with(root)
}

/// The files to probe for an import base, in order: the base itself when it
/// already has one of the language's extensions; otherwise the base with
/// each extension appended, then each index file inside the base directory.
pub open spec fn import_candidates(extensions: Seq<Seq<char>>, index_names: Seq<Seq<char>>, base: Seq<char>) -> Seq<Seq<char>> {
    let known = match extension_of(base) {
        Some(e) => extensions.contains(e),
        None => false,
    };
    if known {
        seq![base]
    } else {
        extensions.map_values(|e: Seq<char>| base + "."@ + e) + index_names.map_values(|n: Seq<char>| base + "/"@ + n)
    }
}

fn suffixed(base: &str, sep: &str, items: &[&str], out: &mut Vec<String>)
    ensures
        strings_view(final(out)@) == strings_view(old(out)@) + items@.map_values(|s: &str| s@).map_values(|e: Seq<char>| base@ + sep@ + e),
{
    let ghost start = strings_view(out@);
    let ghost iv = items@.map_values(|s: &str| s@);
    let n = items.len();
    let mut i: usize = 0;
    while i < n
        invariant
            n == items@.len(),
            iv == items@.map_values(|s: &str| s@),
            i <= n,
            strings_view(out@) == start + iv.take(i as int).map_values(|e: Seq<char>| base@ + sep@ + e),
        decreases n - i,
    {
        let mut c = String::new();
        push_str(&mut c, base);
        push_str(&mut c, sep);
        push_str(&mut c, items[i]);
        let ghost before = strings_view(out@);
        out.push(c);
        assert(strings_view(out@) =~= before.push(base@ + sep@ + iv[i as int]));
        assert(iv.take(i + 1).map_values(|e: Seq<char>| base@ + sep@ + e) =~=
            iv.take(i as int).map_values(|e: Seq<char>| base@ + sep@ + e).push(base@ + sep@ + iv[i as int]));
        i = i + 1;
    }
    assert(iv.take(n as int) =~= iv);
}

/// The files to probe for an import base (see `import_candidates`).
pub fn candidate_files(extensions: &[&str], index_names: &[&str], base: &str) -> (r: Vec<String>)
    ensures
        strings_view(r@) == import_candidates(
            extensions@.map_values(|s: &str| s@),
            index_names@.map_values(|s: &str| s@),
            base@,
        ),
{
    let known = match path_extension(base) {
        Some(e) => has_str(extensions, &chars_of(e.as_str())),
        None => false,
    };
    let mut r: Vec<String> = Vec::new();
    if known {
        r.push(String::from_str(base));
        assert(strings_view(r@) =~= seq![base@]);
    } else {
        suffixed(base, ".", extensions, &mut r);
        suffixed(base, "/", index_names, &mut r);
        assert(strings_view(r@) =~= import_candidates(
            extensions@.map_values(|s: &str| s@),
            index_names@.map_values(|s: &str| s@),
            base@,
        ));
    }
    r
}

pub open spec fn opt_strings(v: Seq<Option<String>>) -> Seq<Option<Seq<char>>> {
    v.map_values(|o: Option<String>| opt_view(o))
}

/// The first canonical path (`None` where a candidate does not exist) that
/// lies under the root, looking from index `i` on.
pub open spec fn first_under_root(canonical: Seq<Option<Seq<char>>>, root: Seq<char>, i: int) -> Option<Seq<char>>
    decreases canonical.len() - i,
{
    if i < 0 || i >= canonical.len() {
        None
    } else {
        match canonical[i] {
            Some(c) => if path_under(c, root) { Some(c) } else { first_under_root(canonical, root, i + 1) },
            None => first_under_root(canonical, root, i + 1),
        }
    }
}

/// The first of the canonical candidates that lies under the root.
pub fn first_within_root(canonical: &[Option<String>], root: &str) -> (r: Option<String>)
    ensures
        opt_view(r) == first_under_root(opt_strings(canonical@), root@, 0),
{
    let ghost cv = opt_strings(canonical@);
    let n = canonical.len();
    let mut i: usize = 0;
    while i < n
        invariant
            n == canonical@.len(),
            cv == opt_strings(canonical@),
            i <= n,
            first_under_root(cv, root@, 0) == first_under_root(cv, root@, i as int),
        decreases n - i,
    {
        assert(cv[i as int] == opt_view(canonical@[i as int]));
        match &canonical[i] {
            Some(c) => {
                if path_starts_with(c.as_str(), root) {
                    return Some(c.clone());
                }
            },
            None => {},
        }
        i = i + 1;
    }
    None
}

// ---------------------------------------------------------------------------
// Following barrel files
// ---------------------------------------------------------------------------

/// Whether a barrel file is read at the given nesting depth: only below
/// `MAX_BARREL_DEPTH`, and only the first time that its canonical path is
/// met, which is then recorded as visited.
pub fn enter_barrel(depth: usize, canonical: &str, visited: &mut Vec<String>) -> (r: bool)
    ensures
        r == (depth < MAX_BARREL_DEPTH && !strings_view(old(visited)@).contains(canonical@)),
        r ==> strings_view(final(visited)@) == strings_view(old(visited)@).push(canonical@),
        !r ==> final(visited)@ == old(visited)@,
{
    if depth >= MAX_BARREL_DEPTH {
        return false;
    }
    let ghost vv = strings_view(visited@);
    let n = visited.len();
    let mut i: usize = 0;
    while i < n
        invariant
            n == visited@.len(),
            vv == strings_view(visited@),
            i <= n,
            forall|j: int| 0 <= j < i ==> vv[j] != canonical@,
        decreases n - i,
    {
        assert(vv[i as int] == visited@[i as int]@);
        if crate::text::str_eq(visited[i].as_str(), canonical) {
            return false;
        }
        i = i + 1;
    }
    visited.push(String::from_str(canonical));
    assert(strings_view(visited@) =~= vv.push(canonical@));
    true
}

pub open spec fn symbols_overlap(wanted: Seq<Seq<char>>, exported: Seq<Seq<char>>) -> bool {
    exists|i: int| 0 <= i < wanted.len() && exported.contains(#[trigger] wanted[i])
}

/// A re-export is followed when it is a wildcard, when no symbol is asked
/// for, or when it re-exports one of the asked symbols.
pub open spec fn re_export_followed(re: BarrelReExport, symbols: Seq<Seq<char>>) -> bool {
    re.wildcard || symbols.len() == 0 || symbols_overlap(symbols, strings_view(re.symbols@))
}

/// Whether a re-export of a barrel file is followed for the asked symbols.
pub fn re_export_applies(re: &BarrelReExport, symbols: &[String]) -> (r: bool)
    ensures
        r == re_export_followed(*re, strings_view(symbols@)),
{
    if re.wildcard || symbols.len() == 0 {
        return true;
    }
    let exported = crate::text::chars_of_strings(re.symbols.as_slice());
    let ghost ev = strings_view(re.symbols@);
    let ghost sv = strings_view(symbols@);
    let n = symbols.len();
    let mut i: usize = 0;
    while i < n
        invariant
            n == symbols@.len(),
            sv == strings_view(symbols@),
            ev == strings_view(re.symbols@),
            exported@.map_values(|c: Vec<char>| c@) == ev,
            i <= n,
            forall|j: int| 0 <= j < i ==> !ev.contains(#[trigger] sv[j]),
        decreases n - i,
    {
        let c = chars_of(symbols[i].as_str());
        assert(sv[i as int] == c@);
        if crate::text::chars_in(&exported, &c) {
            return true;
        }
        i = i + 1;
    }
    false
}

/// The symbols asked for in a nested barrel: a namespace re-export changes
/// the names, so it asks for none (every export); otherwise the same ones.
pub fn nested_symbols(re: &BarrelReExport, symbols: &[String]) -> (r: Vec<String>)
    ensures
        re.namespace_wildcard ==> r@.len() == 0,
        !re.namespace_wildcard ==> strings_view(r@) == strings_view(symbols@),
{
    if re.namespace_wildcard {
        return Vec::new();
    }
    let n = symbols.len();
    let mut r: Vec<String> = Vec::new();
    let mut i: usize = 0;
    while i < n
        invariant
            n == symbols@.len(),
            i <= n,
            strings_view(r@) == strings_view(symbols@.take(i as int)),
        decreases n - i,
    {
        let ghost before = r@;
        r.push(symbols[i].clone());
        assert(strings_view(r@) =~= strings_view(before).push(symbols@[i as int]@));
        assert(strings_view(symbols@.take(i + 1)) =~= strings_view(symbols@.take(i as int)).push(symbols@[i as int]@));
        i = i + 1;
    }
    assert(symbols@.take(n as int) =~= symbols@);
    r
}

/// Adds a resolved production file to the results unless it is there.
pub fn push_result(results: &mut Vec<String>, file: String)
    ensures
        strings_view(final(results)@) == (if strings_view(old(results)@).contains(file@) {
            strings_view(old(results)@)
        } else {
            strings_view(old(results)@).push(file@)
        }),
{
    let ghost rv = strings_view(results@);
    let n = results.len();
    let mut i: usize = 0;
    while i < n
        invariant
            n == results@.len(),
            rv == strings_view(results@),
            i <= n,
            forall|j: int| 0 <= j < i ==> rv[j] != file@,
        decreases n - i,
    {
        assert(rv[i as int] == results@[i as int]@);
        if results[i] == file {
            return;
        }
        i = i + 1;
    }
    results.push(file);
    assert(strings_view(results@) =~= rv.push(file@));
}


// ---------------------------------------------------------------------------
// The walk over barrel files
// ---------------------------------------------------------------------------

/// Where a barrel file of the walk stands.
#[derive(Debug, Clone, Copy, PartialEq, Eq, Structural)]
pub enum WalkStage {
    /// Waiting for the canonical path of the barrel file.
    Canonical,
    /// Waiting for the text of the barrel file.
    Source,
    /// Waiting for the re-exports that the language finds in that text.
    Listing,
    /// Ready to look at the next re-export.
    Scan,
    /// Waiting for the file that the current re-export resolves to.
    Resolve,
    /// Waiting to learn whether that file is a barrel.
    BarrelCheck,
    /// Waiting to learn whether that file is a helper not under test.
    HelperCheck,
    /// Waiting to learn whether that file exports one of the symbols.
    ExportCheck,
    /// Waiting for the canonical path of that file.
    Target,
}

/// A barrel file that the walk has open: its path, the symbols asked of
/// it, its nesting depth, its re-exports and the next one to look at, and
/// the file that the current re-export resolved to.
pub struct BarrelFrame {
    pub path: String,
    pub symbols: Vec<String>,
    pub depth: usize,
    pub re_exports: Vec<BarrelReExport>,
    pub next: usize,
    pub stage: WalkStage,
    pub target: String,
}

/// What the walk needs next, from the file system or from the language.
#[derive(Debug)]
pub enum BarrelRequest {
    /// The canonical path of a barrel file (`BarrelAnswer::Path`).
    CanonicalBarrel(String),
    /// The text of a barrel file (`BarrelAnswer::Text`).
    ReadBarrel(String),
    /// The re-exports in a barrel's text, with the barrel's path
    /// (`BarrelAnswer::ReExports`).
    ReExports(String, String),
    /// The source file that a specifier resolves to from a file
    /// (`BarrelAnswer::Path`; `None` when there is none under the root).
    Resolve(String, String),
    /// Whether a file is a barrel (`BarrelAnswer::Flag`).
    IsBarrel(String),
    /// Whether a file is a helper that is not under test
    /// (`BarrelAnswer::Flag`).
    IsHelper(String),
    /// Whether a file exports one of the symbols (`BarrelAnswer::Flag`).
    ExportsAny(String, Vec<String>),
    /// The canonical path of a resolved file (`BarrelAnswer::Path`).
    CanonicalTarget(String),
    /// The walk is over; the results are complete.
    Done,
}

/// The answer to a `BarrelRequest`.
pub enum BarrelAnswer {
    Path(Option<String>),
    Text(Option<String>),
    ReExports(Vec<BarrelReExport>),
    Flag(bool),
}

/// The walk over barrel files that finds the production files re-exported
/// for some symbols: depth first, each barrel file once, at most
/// `MAX_BARREL_DEPTH` deep.  The file system and the language are asked
/// through `BarrelRequest`s.
pub struct BarrelWalk {
    pub root: String,
    pub frames: Vec<BarrelFrame>,
    pub visited: Vec<String>,
    pub results: Vec<String>,
}

/// The stages that wait for something about the current re-export.
pub open spec fn at_re_export(stage: WalkStage) -> bool {
    stage == WalkStage::Resolve || stage == WalkStage::BarrelCheck || stage == WalkStage::HelperCheck
        || stage == WalkStage::ExportCheck || stage == WalkStage::Target
}

pub open spec fn frame_ok(f: BarrelFrame, i: int) -> bool {
    &&& f.depth == i
    &&& f.next <= f.re_exports@.len()
    &&& at_re_export(f.stage) ==> f.next < f.re_exports@.len()
}

/// The work still ahead of the open frames: the re-exports each has yet to
/// look at, and one for closing it.
pub open spec fn pending(frames: Seq<BarrelFrame>) -> nat
    decreases frames.len(),
{
    if frames.len() == 0 {
        0
    } else {
        pending(frames.drop_last()) + (frames.last().re_exports@.len() - frames.last().next) as nat + 1
    }
}

/// A frame of the walk with its texts as character sequences.
pub struct FrameView {
    pub path: Seq<char>,
    pub symbols: Seq<Seq<char>>,
    pub depth: int,
    pub re_exports: Seq<BarrelReExport>,
    pub next: int,
    pub stage: WalkStage,
    pub target: Seq<char>,
}

pub open spec fn frame_view(f: BarrelFrame) -> FrameView {
    FrameView {
        path: f.path@,
        symbols: strings_view(f.symbols@),
        depth: f.depth as int,
        re_exports: f.re_exports@,
        next: f.next as int,
        stage: f.stage,
        target: f.target@,
    }
}

pub open spec fn frames_view(fs: Seq<BarrelFrame>) -> Seq<FrameView> {
    fs.map_values(|f: BarrelFrame| frame_view(f))
}

/// A request with its texts as character sequences.
pub enum RequestView {
    CanonicalBarrel(Seq<char>),
    ReadBarrel(Seq<char>),
    ReExports(Seq<char>, Seq<char>),
    Resolve(Seq<char>, Seq<char>),
    IsBarrel(Seq<char>),
    IsHelper(Seq<char>),
    ExportsAny(Seq<char>, Seq<Seq<char>>),
    CanonicalTarget(Seq<char>),
    Done,
}

pub open spec fn request_view(r: BarrelRequest) -> RequestView {
    match r {
        BarrelRequest::CanonicalBarrel(p) => RequestView::CanonicalBarrel(p@),
        BarrelRequest::ReadBarrel(p) => RequestView::ReadBarrel(p@),
        BarrelRequest::ReExports(t, p) => RequestView::ReExports(t@, p@),
        BarrelRequest::Resolve(s, f) => RequestView::Resolve(s@, f@),
        BarrelRequest::IsBarrel(p) => RequestView::IsBarrel(p@),
        BarrelRequest::IsHelper(p) => RequestView::IsHelper(p@),
        BarrelRequest::ExportsAny(p, syms) => RequestView::ExportsAny(p@, strings_view(syms@)),
        BarrelRequest::CanonicalTarget(p) => RequestView::CanonicalTarget(p@),
        BarrelRequest::Done => RequestView::Done,
    }
}

/// A frame at another stage, all else equal.
pub open spec fn with_stage(f: FrameView, stage: WalkStage) -> FrameView {
    FrameView {
        path: f.path,
        symbols: f.symbols,
        depth: f.depth,
        re_exports: f.re_exports,
        next: f.next,
        stage: stage,
        target: f.target,
    }
}

/// A frame at another stage, with the file that its re-export resolved to.
pub open spec fn with_target(f: FrameView, stage: WalkStage, target: Seq<char>) -> FrameView {
    FrameView {
        path: f.path,
        symbols: f.symbols,
        depth: f.depth,
        re_exports: f.re_exports,
        next: f.next,
        stage: stage,
        target: target,
    }
}

/// A frame that moves on to its next re-export.
pub open spec fn moved_on(f: FrameView) -> FrameView {
    FrameView {
        path: f.path,
        symbols: f.symbols,
        depth: f.depth,
        re_exports: f.re_exports,
        next: f.next + 1,
        stage: WalkStage::Scan,
        target: f.target,
    }
}

pub open spec fn frame_weight(f: FrameView) -> nat {
    if 0 <= f.next <= f.re_exports.len() { (f.re_exports.len() - f.next) as nat + 1 } else { 1 }
}

/// The work ahead of a list of frames (see `pending`).
pub open spec fn weight(fs: Seq<FrameView>) -> nat
    decreases fs.len(),
{
    if fs.len() == 0 {
        0
    } else {
        weight(fs.drop_last()) + frame_weight(fs.last())
    }
}

pub proof fn lemma_weight_push(fs: Seq<FrameView>, f: FrameView)
    ensures
        weight(fs.push(f)) == weight(fs) + frame_weight(f),
{
    assert(fs.push(f).drop_last() =~= fs);
}

/// What the walk does on its own, from the innermost frame: a frame that
/// is through is closed; a re-export that is not followed is passed over;
/// at the first one that is followed, the walk asks where it resolves to.
/// The result is the frames and the request that follow.
pub open spec fn scan(fs: Seq<FrameView>) -> (Seq<FrameView>, RequestView)
    decreases weight(fs),
{
    if fs.len() == 0 {
        (fs, RequestView::Done)
    } else {
        let f = fs.last();
        let rest = fs.drop_last();
        proof {
            lemma_weight_push(rest, f);
            lemma_weight_push(rest, moved_on(f));
            assert(rest.push(f) =~= fs);
        }
        if f.next < 0 || f.next >= f.re_exports.len() {
            scan(rest)
        } else if !re_export_followed(f.re_exports[f.next], f.symbols) {
            scan(rest.push(moved_on(f)))
        } else {
            (
                rest.push(with_stage(f, WalkStage::Resolve)),
                RequestView::Resolve(f.re_exports[f.next].from_specifier@, f.path),
            )
        }
    }
}

/// The frame of a nested barrel file reached from frame `f`.
pub open spec fn child_frame(f: FrameView, path: Seq<char>) -> FrameView {
    FrameView {
        path: path,
        symbols: if f.re_exports[f.next].namespace_wildcard { Seq::empty() } else { f.symbols },
        depth: f.depth + 1,
        re_exports: Seq::empty(),
        next: 0,
        stage: WalkStage::Canonical,
        target: Seq::empty(),
    }
}

/// What an answer to the request of the innermost frame leads to: the
/// frames and request after it (the visited barrels and results are said
/// apart, in `answer`).
///  - The canonical path of a barrel: a path not yet visited, below the
///    depth limit, is recorded and the barrel is read; otherwise the frame
///    is closed (`scan` of the rest).
///  - The text of a barrel: the language is asked for its re-exports,
///    which are then looked at from the first.
///  - Where a re-export resolves to: nothing moves on; a file is asked
///    about in turn: a barrel opens a nested frame below the depth limit
///    (else the walk moves on); a helper is passed over; for a wildcard
///    re-export with symbols asked, a file that exports none of them is
///    passed over; any other file is checked for its canonical path.
///  - The canonical path of such a file: the walk moves on (the result, if
///    any, is recorded).
pub open spec fn answer_outcome(fv: Seq<FrameView>, visited: Seq<Seq<char>>, reply: BarrelAnswer) -> (Seq<FrameView>, RequestView) {
    let f = fv.last();
    let rest = fv.drop_last();
    let moved = scan(rest.push(moved_on(f)));
    match (f.stage, reply) {
        (WalkStage::Canonical, BarrelAnswer::Path(Some(c))) =>
            if f.depth < MAX_BARREL_DEPTH && !visited.contains(c@) {
                (rest.push(with_stage(f, WalkStage::Source)), RequestView::ReadBarrel(f.path))
            } else {
                scan(rest)
            },
        (WalkStage::Source, BarrelAnswer::Text(Some(t))) =>
            (rest.push(with_stage(f, WalkStage::Listing)), RequestView::ReExports(t@, f.path)),
        (WalkStage::Listing, BarrelAnswer::ReExports(rs)) => scan(rest.push(FrameView {
            path: f.path,
            symbols: f.symbols,
            depth: f.depth,
            re_exports: rs@,
            next: 0,
            stage: WalkStage::Scan,
            target: f.target,
        })),
        (WalkStage::Resolve, BarrelAnswer::Path(Some(p))) =>
            (rest.push(with_target(f, WalkStage::BarrelCheck, p@)), RequestView::IsBarrel(p@)),
        (WalkStage::Resolve, _) => moved,
        (WalkStage::BarrelCheck, BarrelAnswer::Flag(true)) =>
            if f.depth + 1 < MAX_BARREL_DEPTH {
                (rest.push(moved_on(f)).push(child_frame(f, f.target)), RequestView::CanonicalBarrel(f.target))
            } else {
                moved
            },
        (WalkStage::BarrelCheck, _) => (rest.push(with_stage(f, WalkStage::HelperCheck)), RequestView::IsHelper(f.target)),
        (WalkStage::HelperCheck, BarrelAnswer::Flag(false)) =>
            if f.symbols.len() > 0 && f.re_exports[f.next].wildcard {
                (rest.push(with_stage(f, WalkStage::ExportCheck)), RequestView::ExportsAny(f.target, f.symbols))
            } else {
                (rest.push(with_stage(f, WalkStage::Target)), RequestView::CanonicalTarget(f.target))
            },
        (WalkStage::HelperCheck, _) => moved,
        (WalkStage::ExportCheck, BarrelAnswer::Flag(true)) =>
            (rest.push(with_stage(f, WalkStage::Target)), RequestView::CanonicalTarget(f.target)),
        (WalkStage::ExportCheck, _) => moved,
        (WalkStage::Target, _) => moved,
        _ => scan(rest),
    }
}

/// The results after the answer: the canonical path of a checked file is
/// added when it lies under the root and is not a result already.
pub open spec fn results_after(stage: WalkStage, reply: BarrelAnswer, root: Seq<char>, results: Seq<Seq<char>>) -> Seq<Seq<char>> {
    match (stage, reply) {
        (WalkStage::Target, BarrelAnswer::Path(Some(c))) =>
            if path_under(c@, root) && !results.contains(c@) { results.push(c@) } else { results },
        _ => results,
    }
}

/// The visited barrels after the answer: the canonical path of a barrel
/// that is read is added.
pub open spec fn visited_after(f: FrameView, reply: BarrelAnswer, visited: Seq<Seq<char>>) -> Seq<Seq<char>> {
    match (f.stage, reply) {
        (WalkStage::Canonical, BarrelAnswer::Path(Some(c))) =>
            if f.depth < MAX_BARREL_DEPTH && !visited.contains(c@) { visited.push(c@) } else { visited },
        _ => visited,
    }
}

/// On its own the walk asks only where a re-export resolves to, or is done.
pub proof fn lemma_scan_requests(fs: Seq<FrameView>)
    ensures
        scan(fs).1 is Resolve || scan(fs).1 is Done,
        scan(fs).0.len() == 0 || scan(fs).0.last().stage == WalkStage::Resolve,
    decreases weight(fs),
{
    if fs.len() > 0 {
        let f = fs.last();
        let rest = fs.drop_last();
        lemma_weight_push(rest, f);
        lemma_weight_push(rest, moved_on(f));
        assert(rest.push(f) =~= fs);
        if f.next < 0 || f.next >= f.re_exports.len() {
            lemma_scan_requests(rest);
        } else if !re_export_followed(f.re_exports[f.next], f.symbols) {
            lemma_scan_requests(rest.push(moved_on(f)));
        }
    }
}

/// A file becomes a result only after the language said it is neither a
/// barrel nor a helper: an answer leads to the request for the canonical
/// path of a resolved file (after which the file is recorded) only at the
/// helper check, on the answer that the file is no helper, or at the export
/// check, on the answer that it exports one of the symbols; it leads to the
/// export check only on the answer that the file is no helper, and to the
/// helper check only at the barrel check, on an answer other than that the
/// file is a barrel.  Each of these requests names the file that the
/// re-export resolved to, and the frame keeps it.
pub proof fn results_pass_the_language_checks(fv: Seq<FrameView>, visited: Seq<Seq<char>>, reply: BarrelAnswer)
    requires
        fv.len() > 0,
    ensures
        ({
            let f = fv.last();
            let (nf, req) = answer_outcome(fv, visited, reply);
            &&& req matches RequestView::CanonicalTarget(p) ==> {
                &&& p == f.target
                &&& nf == fv.drop_last().push(with_stage(f, WalkStage::Target))
                &&& (f.stage == WalkStage::HelperCheck && reply == BarrelAnswer::Flag(false))
                    || (f.stage == WalkStage::ExportCheck && reply == BarrelAnswer::Flag(true))
            }
            &&& req matches RequestView::ExportsAny(p, _) ==> {
                &&& p == f.target
                &&& nf == fv.drop_last().push(with_stage(f, WalkStage::ExportCheck))
                &&& f.stage == WalkStage::HelperCheck && reply == BarrelAnswer::Flag(false)
            }
            &&& req matches RequestView::IsHelper(p) ==> {
                &&& p == f.target
                &&& nf == fv.drop_last().push(with_stage(f, WalkStage::HelperCheck))
                &&& f.stage == WalkStage::BarrelCheck && reply != BarrelAnswer::Flag(true)
            }
        }),
{
    let f = fv.last();
    let rest = fv.drop_last();
    lemma_scan_requests(rest);
    lemma_scan_requests(rest.push(moved_on(f)));
    if let BarrelAnswer::ReExports(rs) = reply {
        lemma_scan_requests(rest.push(FrameView {
            path: f.path,
            symbols: f.symbols,
            depth: f.depth,
            re_exports: rs@,
            next: 0,
            stage: WalkStage::Scan,
            target: f.target,
        }));
    }
}

/// How far a frame still has to go, compared first to last: the steps
/// before its re-exports are known (canonical path, text, listing), then
/// the re-exports still ahead, then the step at the current re-export.
pub open spec fn frame_key(f: FrameView) -> (nat, nat, nat) {
    let before_listing: nat = match f.stage {
        WalkStage::Canonical => 3,
        WalkStage::Source => 2,
        WalkStage::Listing => 1,
        _ => 0,
    };
    let ahead: nat = if 0 <= f.next <= f.re_exports.len() { (f.re_exports.len() - f.next) as nat } else { 0 };
    let step: nat = match f.stage {
        WalkStage::Scan => 5,
        WalkStage::Resolve => 4,
        WalkStage::BarrelCheck => 3,
        WalkStage::HelperCheck => 2,
        WalkStage::ExportCheck => 1,
        _ => 0,
    };
    (before_listing, ahead, step)
}

/// `a` comes before `b` in the lexicographic order of the triples.
pub open spec fn key_below(a: (nat, nat, nat), b: (nat, nat, nat)) -> bool {
    a.0 < b.0 || (a.0 == b.0 && (a.1 < b.1 || (a.1 == b.1 && a.2 < b.2)))
}

/// The frames `a` are further on than the frames `b`: compared from the
/// outermost frame by `frame_key`, the first difference is smaller in
/// `a`, or `a` is a proper prefix of `b`.
pub open spec fn walk_below(a: Seq<FrameView>, b: Seq<FrameView>) -> bool
    decreases b.len(),
{
    if b.len() == 0 {
        false
    } else if a.len() == 0 {
        true
    } else if key_below(frame_key(a[0]), frame_key(b[0])) {
        true
    } else if frame_key(a[0]) == frame_key(b[0]) {
        walk_below(a.drop_first(), b.drop_first())
    } else {
        false
    }
}

proof fn lemma_walk_below_trans(a: Seq<FrameView>, b: Seq<FrameView>, c: Seq<FrameView>)
    requires
        walk_below(a, b),
        walk_below(b, c),
    ensures
        walk_below(a, c),
    decreases c.len(),
{
    if a.len() > 0 && b.len() > 0 && c.len() > 0 && frame_key(a[0]) == frame_key(b[0]) && frame_key(b[0]) == frame_key(c[0]) {
        lemma_walk_below_trans(a.drop_first(), b.drop_first(), c.drop_first());
    }
}

/// A frame further on, in place of the innermost one, followed by any
/// frames, is further on.
proof fn lemma_walk_below_at(rest: Seq<FrameView>, x: FrameView, f: FrameView, tail: Seq<FrameView>)
    requires
        key_below(frame_key(x), frame_key(f)),
    ensures
        walk_below(rest.push(x) + tail, rest.push(f)),
    decreases rest.len(),
{
    let a = rest.push(x) + tail;
    let b = rest.push(f);
    if rest.len() > 0 {
        assert(a[0] == rest[0] && b[0] == rest[0]);
        assert(a.drop_first() =~= rest.drop_first().push(x) + tail);
        assert(b.drop_first() =~= rest.drop_first().push(f));
        lemma_walk_below_at(rest.drop_first(), x, f, tail);
    } else {
        assert(a[0] == x && b[0] == f);
    }
}

/// Closing the innermost frame goes further on.
proof fn lemma_walk_below_prefix(rest: Seq<FrameView>, f: FrameView)
    ensures
        walk_below(rest, rest.push(f)),
    decreases rest.len(),
{
    if rest.len() > 0 {
        assert(rest.push(f).drop_first() =~= rest.drop_first().push(f));
        lemma_walk_below_prefix(rest.drop_first(), f);
    }
}

/// Every frame looks at its re-exports.
pub open spec fn all_scanning(fs: Seq<FrameView>) -> bool {
    forall|i: int| 0 <= i < fs.len() ==> (#[trigger] fs[i]).stage == WalkStage::Scan
}

/// What the walk does on its own never goes back.
proof fn lemma_scan_goes_on(fs: Seq<FrameView>)
    requires
        all_scanning(fs),
    ensures
        scan(fs).0 == fs || walk_below(scan(fs).0, fs),
    decreases weight(fs),
{
    if fs.len() > 0 {
        let f = fs.last();
        let rest = fs.drop_last();
        lemma_weight_push(rest, f);
        lemma_weight_push(rest, moved_on(f));
        assert(rest.push(f) =~= fs);
        assert(rest.push(f) + Seq::<FrameView>::empty() =~= rest.push(f));
        assert(f.stage == WalkStage::Scan);
        if f.next < 0 || f.next >= f.re_exports.len() {
            lemma_walk_below_prefix(rest, f);
            lemma_scan_goes_on(rest);
            if scan(rest).0 != rest {
                lemma_walk_below_trans(scan(rest).0, rest, fs);
            }
        } else if !re_export_followed(f.re_exports[f.next], f.symbols) {
            let m = rest.push(moved_on(f));
            assert(m + Seq::<FrameView>::empty() =~= m);
            lemma_walk_below_at(rest, moved_on(f), f, Seq::empty());
            assert forall|i: int| 0 <= i < m.len() implies (#[trigger] m[i]).stage == WalkStage::Scan by {
                if i < rest.len() {
                    assert(m[i] == fs[i]);
                }
            }
            lemma_scan_goes_on(m);
            if scan(m).0 != m {
                lemma_walk_below_trans(scan(m).0, m, fs);
            }
        } else {
            let r = rest.push(with_stage(f, WalkStage::Resolve));
            assert(r + Seq::<FrameView>::empty() =~= r);
            lemma_walk_below_at(rest, with_stage(f, WalkStage::Resolve), f, Seq::empty());
        }
    }
}

/// Every answer takes the walk further on: the frames after it are below
/// the frames before it in the order `walk_below` (the lexicographic order
/// of the frames' `frame_key`s, from the outermost frame, in which a proper
/// prefix is lower).  A nested barrel opens only after its parent frame has
/// moved past the re-export that leads to it, and frames are at most
/// `MAX_BARREL_DEPTH` deep (see `BarrelWalk::well_formed`).
pub proof fn answers_go_on(fv: Seq<FrameView>, visited: Seq<Seq<char>>, reply: BarrelAnswer)
    requires
        fv.len() > 0,
        forall|i: int| 0 <= i < fv.len() - 1 ==> (#[trigger] fv[i]).stage == WalkStage::Scan,
        0 <= fv.last().next <= fv.last().re_exports.len(),
        at_re_export(fv.last().stage) ==> fv.last().next < fv.last().re_exports.len(),
    ensures
        walk_below(answer_outcome(fv, visited, reply).0, fv),
{
    let f = fv.last();
    let rest = fv.drop_last();
    assert(rest.push(f) =~= fv);
    assert forall|i: int| 0 <= i < rest.len() implies (#[trigger] rest[i]).stage == WalkStage::Scan by {
        assert(rest[i] == fv[i]);
    }
    let e = Seq::<FrameView>::empty();
    // Closing the frame.
    lemma_walk_below_prefix(rest, f);
    lemma_scan_goes_on(rest);
    if scan(rest).0 != rest {
        lemma_walk_below_trans(scan(rest).0, rest, fv);
    }
    // Moving on to the next re-export.
    let m = rest.push(moved_on(f));
    assert(m + e =~= m);
    assert forall|i: int| 0 <= i < m.len() implies (#[trigger] m[i]).stage == WalkStage::Scan by {
        if i < rest.len() {
            assert(m[i] == rest[i]);
        }
    }
    if at_re_export(f.stage) {
        lemma_walk_below_at(rest, moved_on(f), f, e);
        lemma_scan_goes_on(m);
        if scan(m).0 != m {
            lemma_walk_below_trans(scan(m).0, m, fv);
        }
    }
    match (f.stage, reply) {
        (WalkStage::Canonical, BarrelAnswer::Path(Some(c))) => {
            let x = with_stage(f, WalkStage::Source);
            assert(rest.push(x) + e =~= rest.push(x));
            lemma_walk_below_at(rest, x, f, e);
        },
        (WalkStage::Source, BarrelAnswer::Text(Some(t))) => {
            let x = with_stage(f, WalkStage::Listing);
            assert(rest.push(x) + e =~= rest.push(x));
            lemma_walk_below_at(rest, x, f, e);
        },
        (WalkStage::Listing, BarrelAnswer::ReExports(rs)) => {
            let x = FrameView {
                path: f.path,
                symbols: f.symbols,
                depth: f.depth,
                re_exports: rs@,
                next: 0,
                stage: WalkStage::Scan,
                target: f.target,
            };
            let l = rest.push(x);
            assert(l + e =~= l);
            lemma_walk_below_at(rest, x, f, e);
            assert forall|i: int| 0 <= i < l.len() implies (#[trigger] l[i]).stage == WalkStage::Scan by {
                if i < rest.len() {
                    assert(l[i] == rest[i]);
                }
            }
            lemma_scan_goes_on(l);
            if scan(l).0 != l {
                lemma_walk_below_trans(scan(l).0, l, fv);
            }
        },
        (WalkStage::Resolve, BarrelAnswer::Path(Some(p))) => {
            let x = with_target(f, WalkStage::BarrelCheck, p@);
            assert(rest.push(x) + e =~= rest.push(x));
            lemma_walk_below_at(rest, x, f, e);
        },
        (WalkStage::BarrelCheck, BarrelAnswer::Flag(true)) => {
            let c = seq![child_frame(f, f.target)];
            assert(rest.push(moved_on(f)) + c =~= rest.push(moved_on(f)).push(child_frame(f, f.target)));
            lemma_walk_below_at(rest, moved_on(f), f, c);
        },
        (WalkStage::BarrelCheck, _) => {
            let x = with_stage(f, WalkStage::HelperCheck);
            assert(rest.push(x) + e =~= rest.push(x));
            lemma_walk_below_at(rest, x, f, e);
        },
        (WalkStage::HelperCheck, BarrelAnswer::Flag(false)) => {
            let x = with_stage(f, WalkStage::ExportCheck);
            let y = with_stage(f, WalkStage::Target);
            assert(rest.push(x) + e =~= rest.push(x));
            assert(rest.push(y) + e =~= rest.push(y));
            lemma_walk_below_at(rest, x, f, e);
            lemma_walk_below_at(rest, y, f, e);
        },
        (WalkStage::ExportCheck, BarrelAnswer::Flag(true)) => {
            let y = with_stage(f, WalkStage::Target);
            assert(rest.push(y) + e =~= rest.push(y));
            lemma_walk_below_at(rest, y, f, e);
        },
        _ => {},
    }
}

/// The barrel read that an answer leads to: the canonical path of a barrel
/// and the depth at which it is read, when the answer is that path, the
/// depth is below `MAX_BARREL_DEPTH` and the path was not visited yet.
pub open spec fn read_after(f: FrameView, reply: BarrelAnswer, visited: Seq<Seq<char>>) -> Seq<(Seq<char>, int)> {
    match (f.stage, reply) {
        (WalkStage::Canonical, BarrelAnswer::Path(Some(c))) =>
            if f.depth < MAX_BARREL_DEPTH && !visited.contains(c@) { seq![(c@, f.depth)] } else { Seq::empty() },
        _ => Seq::empty(),
    }
}

/// A whole run of the walk on a list of answers, one `answer` each (see
/// `BarrelWalk::answer`), from frames, visited barrels and results, with
/// the root: the frames, visited barrels and results at its end, and the
/// barrels read on the way, with their depths.  The run stops when the
/// answers run out or the walk waits for none (no frame, or the innermost
/// frame looks at its re-exports).
pub open spec fn walk_run(
    fv: Seq<FrameView>,
    visited: Seq<Seq<char>>,
    results: Seq<Seq<char>>,
    root: Seq<char>,
    replies: Seq<BarrelAnswer>,
) -> (Seq<FrameView>, Seq<Seq<char>>, Seq<Seq<char>>, Seq<(Seq<char>, int)>)
    decreases replies.len(),
{
    if replies.len() == 0 || fv.len() == 0 || fv.last().stage == WalkStage::Scan {
        (fv, visited, results, Seq::empty())
    } else {
        let reply = replies[0];
        let f = fv.last();
        let next = walk_run(
            answer_outcome(fv, visited, reply).0,
            visited_after(f, reply, visited),
            results_after(f.stage, reply, root, results),
            root,
            replies.drop_first(),
        );
        (next.0, next.1, next.2, read_after(f, reply, visited) + next.3)
    }
}

/// Over a whole run of the walk, each barrel file is read at most once and
/// only below `MAX_BARREL_DEPTH`: the visited barrels at the end are those
/// at the start followed by the barrels read, in order, and hold no path
/// twice; the results at the start stay at the front of the results, which
/// hold no path twice.
pub proof fn barrels_read_once(
    fv: Seq<FrameView>,
    visited: Seq<Seq<char>>,
    results: Seq<Seq<char>>,
    root: Seq<char>,
    replies: Seq<BarrelAnswer>,
)
    requires
        visited.no_duplicates(),
        results.no_duplicates(),
    ensures
        ({
            let (_, vis, res, reads) = walk_run(fv, visited, results, root, replies);
            &&& vis == visited + reads.map_values(|x: (Seq<char>, int)| x.0)
            &&& vis.no_duplicates()
            &&& forall|k: int| 0 <= k < reads.len() ==> (#[trigger] reads[k]).1 < MAX_BARREL_DEPTH
            &&& res.len() >= results.len()
            &&& res.take(results.len() as int) == results
            &&& res.no_duplicates()
        }),
    decreases replies.len(),
{
    if replies.len() == 0 || fv.len() == 0 || fv.last().stage == WalkStage::Scan {
        assert(visited + Seq::<(Seq<char>, int)>::empty().map_values(|x: (Seq<char>, int)| x.0) =~= visited);
        assert(results.take(results.len() as int) =~= results);
    } else {
        let reply = replies[0];
        let f = fv.last();
        let nf = answer_outcome(fv, visited, reply).0;
        let nv = visited_after(f, reply, visited);
        let nr = results_after(f.stage, reply, root, results);
        let read = read_after(f, reply, visited);
        assert(nv == visited + read.map_values(|x: (Seq<char>, int)| x.0)) by {
            match (f.stage, reply) {
                (WalkStage::Canonical, BarrelAnswer::Path(Some(c))) => {
                    if f.depth < MAX_BARREL_DEPTH && !visited.contains(c@) {
                        assert(visited + read.map_values(|x: (Seq<char>, int)| x.0) =~= visited.push(c@));
                    } else {
                        assert(visited + read.map_values(|x: (Seq<char>, int)| x.0) =~= visited);
                    }
                },
                _ => {
                    assert(visited + read.map_values(|x: (Seq<char>, int)| x.0) =~= visited);
                },
            }
        }
        assert(nv.no_duplicates()) by {
            if nv != visited {
                match (f.stage, reply) {
                    (WalkStage::Canonical, BarrelAnswer::Path(Some(c))) => {
                        assert(nv == visited.push(c@));
                        assert(!visited.contains(c@));
                        assert forall|i: int, j: int| 0 <= i < j < nv.len() implies nv[i] != nv[j] by {
                            if j == visited.len() {
                                assert(nv[i] == visited[i]);
                                assert(visited.contains(visited[i]));
                            }
                        }
                    },
                    _ => {},
                }
            }
        }
        assert(nr.no_duplicates() && nr.take(results.len() as int) =~= results) by {
            if nr != results {
                match (f.stage, reply) {
                    (WalkStage::Target, BarrelAnswer::Path(Some(c))) => {
                        assert(nr == results.push(c@));
                        assert(!results.contains(c@));
                        assert forall|i: int, j: int| 0 <= i < j < nr.len() implies nr[i] != nr[j] by {
                            if j == results.len() {
                                assert(results[i] == nr[i]);
                                assert(results.contains(results[i]));
                            }
                        }
                    },
                    _ => {},
                }
            }
        }
        barrels_read_once(nf, nv, nr, root, replies.drop_first());
        let (_, vis, res, rest_reads) = walk_run(nf, nv, nr, root, replies.drop_first());
        let reads = read + rest_reads;
        assert(reads.map_values(|x: (Seq<char>, int)| x.0) =~= read.map_values(|x: (Seq<char>, int)| x.0) + rest_reads.map_values(|x: (Seq<char>, int)| x.0));
        assert(vis =~= visited + reads.map_values(|x: (Seq<char>, int)| x.0));
        assert forall|k: int| 0 <= k < reads.len() implies (#[trigger] reads[k]).1 < MAX_BARREL_DEPTH by {
            if k < read.len() {
                assert(reads[k] == read[k]);
            } else {
                assert(reads[k] == rest_reads[k - read.len()]);
            }
        }
        assert(nr.len() >= results.len());
        assert forall|i: int| 0 <= i < results.len() implies res[i] == results[i] by {
            assert(res.take(nr.len() as int)[i] == nr[i]);
            assert(nr.take(results.len() as int)[i] == results[i]);
        }
        assert(res.take(results.len() as int) =~= results);
    }
}

/// The innermost frame after an answer is at a stage that waits on the
/// language only with the request that asks it.
proof fn lemma_top_stage_request(fv: Seq<FrameView>, visited: Seq<Seq<char>>, reply: BarrelAnswer)
    requires
        fv.len() > 0,
    ensures
        ({
            let (nf, req) = answer_outcome(fv, visited, reply);
            &&& nf.len() > 0 && nf.last().stage == WalkStage::HelperCheck ==> req is IsHelper
            &&& nf.len() > 0 && nf.last().stage == WalkStage::ExportCheck ==> req is ExportsAny
            &&& nf.len() > 0 && nf.last().stage == WalkStage::Target ==> req is CanonicalTarget
        }),
{
    let f = fv.last();
    let rest = fv.drop_last();
    lemma_scan_requests(rest);
    lemma_scan_requests(rest.push(moved_on(f)));
    if let BarrelAnswer::ReExports(rs) = reply {
        lemma_scan_requests(rest.push(FrameView {
            path: f.path,
            symbols: f.symbols,
            depth: f.depth,
            re_exports: rs@,
            next: 0,
            stage: WalkStage::Scan,
            target: f.target,
        }));
    }
}

/// What happened at each answer of a run of the walk (see `walk_run`): the
/// stage of the innermost frame, the file its re-export resolved to, and
/// the answer.
pub open spec fn walk_events(
    fv: Seq<FrameView>,
    visited: Seq<Seq<char>>,
    results: Seq<Seq<char>>,
    root: Seq<char>,
    replies: Seq<BarrelAnswer>,
) -> Seq<(WalkStage, Seq<char>, BarrelAnswer)>
    decreases replies.len(),
{
    if replies.len() == 0 || fv.len() == 0 || fv.last().stage == WalkStage::Scan {
        Seq::empty()
    } else {
        let reply = replies[0];
        let f = fv.last();
        seq![(f.stage, f.target, reply)] + walk_events(
            answer_outcome(fv, visited, reply).0,
            visited_after(f, reply, visited),
            results_after(f.stage, reply, root, results),
            root,
            replies.drop_first(),
        )
    }
}

/// The events hold an answer other than "a barrel" about the file `t`.
pub open spec fn passed_barrel_check(h: Seq<(WalkStage, Seq<char>, BarrelAnswer)>, t: Seq<char>) -> bool {
    exists|i: int| 0 <= i < h.len() && (#[trigger] h[i]).0 == WalkStage::BarrelCheck && h[i].1 == t && h[i].2 != BarrelAnswer::Flag(true)
}

/// The events hold the answer "not a helper" about the file `t`.
pub open spec fn passed_helper_check(h: Seq<(WalkStage, Seq<char>, BarrelAnswer)>, t: Seq<char>) -> bool {
    exists|i: int| 0 <= i < h.len() && #[trigger] h[i] == (WalkStage::HelperCheck, t, BarrelAnswer::Flag(false))
}

/// The innermost frame waits on the helper check, the export check or the
/// canonical path of its resolved file only after the events passed that
/// file through the checks before.
pub open spec fn checks_passed(fv: Seq<FrameView>, h: Seq<(WalkStage, Seq<char>, BarrelAnswer)>) -> bool {
    fv.len() > 0 ==> {
        let f = fv.last();
        &&& (f.stage == WalkStage::HelperCheck || f.stage == WalkStage::ExportCheck || f.stage == WalkStage::Target)
            ==> passed_barrel_check(h, f.target)
        &&& (f.stage == WalkStage::ExportCheck || f.stage == WalkStage::Target) ==> passed_helper_check(h, f.target)
    }
}

proof fn lemma_passed_push(h: Seq<(WalkStage, Seq<char>, BarrelAnswer)>, e: (WalkStage, Seq<char>, BarrelAnswer), t: Seq<char>)
    ensures
        passed_barrel_check(h, t) ==> passed_barrel_check(h.push(e), t),
        passed_helper_check(h, t) ==> passed_helper_check(h.push(e), t),
{
    if passed_barrel_check(h, t) {
        let i = choose|i: int| 0 <= i < h.len() && (#[trigger] h[i]).0 == WalkStage::BarrelCheck && h[i].1 == t && h[i].2 != BarrelAnswer::Flag(true);
        assert(h.push(e)[i] == h[i]);
    }
    if passed_helper_check(h, t) {
        let i = choose|i: int| 0 <= i < h.len() && #[trigger] h[i] == (WalkStage::HelperCheck, t, BarrelAnswer::Flag(false));
        assert(h.push(e)[i] == h[i]);
    }
}

/// Over a whole run of the walk, a file becomes a result only after the
/// language said, earlier, that it is not a barrel and not a helper: at
/// each answer given while the innermost frame waits for the canonical path
/// of its resolved file (the only answers that add a result, see
/// `results_after`), the events before it hold an answer other than "a
/// barrel" and the answer "not a helper" about that file.  A walk starts
/// (`BarrelWalk::new`) with no events and a frame that waits for its
/// barrel's canonical path, where `checks_passed` holds.
pub proof fn results_checked_in_run(
    fv: Seq<FrameView>,
    visited: Seq<Seq<char>>,
    results: Seq<Seq<char>>,
    root: Seq<char>,
    replies: Seq<BarrelAnswer>,
    history: Seq<(WalkStage, Seq<char>, BarrelAnswer)>,
)
    requires
        checks_passed(fv, history),
    ensures
        forall|k: int| 0 <= k < walk_events(fv, visited, results, root, replies).len()
            && (#[trigger] walk_events(fv, visited, results, root, replies)[k]).0 == WalkStage::Target ==> {
                let ev = walk_events(fv, visited, results, root, replies);
                &&& passed_barrel_check(history + ev.take(k), ev[k].1)
                &&& passed_helper_check(history + ev.take(k), ev[k].1)
            },
    decreases replies.len(),
{
    let ev = walk_events(fv, visited, results, root, replies);
    if !(replies.len() == 0 || fv.len() == 0 || fv.last().stage == WalkStage::Scan) {
        let reply = replies[0];
        let f = fv.last();
        let (nf, req) = answer_outcome(fv, visited, reply);
        let nv = visited_after(f, reply, visited);
        let nr = results_after(f.stage, reply, root, results);
        let e = (f.stage, f.target, reply);
        let h2 = history.push(e);
        results_pass_the_language_checks(fv, visited, reply);
        lemma_top_stage_request(fv, visited, reply);
        lemma_passed_push(history, e, f.target);
        assert(checks_passed(nf, h2)) by {
            if nf.len() > 0 {
                let g = nf.last();
                if g.stage == WalkStage::HelperCheck {
                    assert(h2[history.len() as int] == e);
                } else if g.stage == WalkStage::ExportCheck {
                    assert(h2[history.len() as int] == e);
                } else if g.stage == WalkStage::Target {
                    assert(h2[history.len() as int] == e);
                }
            }
        }
        results_checked_in_run(nf, nv, nr, root, replies.drop_first(), h2);
        let rest = walk_events(nf, nv, nr, root, replies.drop_first());
        assert(ev == seq![e] + rest);
        assert forall|k: int| 0 <= k < ev.len() && (#[trigger] ev[k]).0 == WalkStage::Target implies {
            &&& passed_barrel_check(history + ev.take(k), ev[k].1)
            &&& passed_helper_check(history + ev.take(k), ev[k].1)
        } by {
            if k == 0 {
                assert(history + ev.take(0) =~= history);
            } else {
                assert(ev[k] == rest[k - 1]);
                assert(history + ev.take(k) =~= h2 + rest.take(k - 1));
            }
        }
    }
}

/// A copy of a list of texts.
fn copy_strings(v: &Vec<String>) -> (r: Vec<String>)
    ensures
        strings_view(r@) == strings_view(v@),
{
    let mut r: Vec<String> = Vec::new();
    let n = v.len();
    let mut i: usize = 0;
    while i < n
        invariant
            n == v@.len(),
            i <= n,
            strings_view(r@) == strings_view(v@.take(i as int)),
        decreases n - i,
    {
        let ghost before = r@;
        r.push(v[i].clone());
        assert(strings_view(r@) =~= strings_view(before).push(v@[i as int]@));
        assert(strings_view(v@.take(i + 1)) =~= strings_view(v@.take(i as int)).push(v@[i as int]@));
        i = i + 1;
    }
    assert(v@.take(n as int) =~= v@);
    r
}

impl BarrelWalk {
    /// The invariant of the walk: frame `i` is at depth `i` (so fewer than
    /// `MAX_BARREL_DEPTH` frames are open), only the innermost frame waits
    /// for an answer, every barrel file is visited once, and the results
    /// are distinct files under the root.
    pub open spec fn well_formed(&self) -> bool {
        &&& self.frames@.len() <= MAX_BARREL_DEPTH
        &&& forall|i: int| 0 <= i < self.frames@.len() ==> frame_ok(#[trigger] self.frames@[i], i)
        &&& forall|i: int| 0 <= i < self.frames@.len() - 1 ==> (#[trigger] self.frames@[i]).stage == WalkStage::Scan
        &&& strings_view(self.visited@).no_duplicates()
        &&& strings_view(self.results@).no_duplicates()
        &&& forall|i: int| 0 <= i < self.results@.len() ==> path_under((#[trigger] self.results@[i])@, self.root@)
    }

    /// The walk waits for the answer to a request.
    pub open spec fn awaiting(&self) -> bool {
        self.frames@.len() > 0 && self.frames@.last().stage != WalkStage::Scan
    }

    /// Starts a walk from a barrel file, for the given symbols, keeping the
    /// files under the canonical root; the first request is the canonical
    /// path of the barrel file.
    pub fn new(barrel: &str, symbols: &[String], canonical_root: &str) -> (r: (BarrelWalk, BarrelRequest))
        ensures
            r.0.well_formed(),
            r.0.awaiting(),
            r.0.root@ == canonical_root@,
            r.0.results@.len() == 0,
            r.0.visited@.len() == 0,
            frames_view(r.0.frames@) == seq![FrameView {
                path: barrel@,
                symbols: strings_view(symbols@),
                depth: 0,
                re_exports: Seq::empty(),
                next: 0,
                stage: WalkStage::Canonical,
                target: Seq::empty(),
            }],
            r.1 matches BarrelRequest::CanonicalBarrel(p) && p@ == barrel@,
    {
        let mut syms: Vec<String> = Vec::new();
        let n = symbols.len();
        let mut i: usize = 0;
        while i < n
            invariant
                n == symbols@.len(),
                i <= n,
                strings_view(syms@) == strings_view(symbols@.take(i as int)),
            decreases n - i,
        {
            let ghost before = syms@;
            syms.push(symbols[i].clone());
            assert(strings_view(syms@) =~= strings_view(before).push(symbols@[i as int]@));
            assert(strings_view(symbols@.take(i + 1)) =~= strings_view(symbols@.take(i as int)).push(symbols@[i as int]@));
            i = i + 1;
        }
        assert(symbols@.take(n as int) =~= symbols@);
        let frame = BarrelFrame {
            path: String::from_str(barrel),
            symbols: syms,
            depth: 0,
            re_exports: Vec::new(),
            next: 0,
            stage: WalkStage::Canonical,
            target: String::new(),
        };
        let mut frames: Vec<BarrelFrame> = Vec::new();
        frames.push(frame);
        let walk = BarrelWalk { root: String::from_str(canonical_root), frames, visited: Vec::new(), results: Vec::new() };
        assert(strings_view(walk.visited@) =~= Seq::<Seq<char>>::empty());
        assert(strings_view(walk.results@) =~= Seq::<Seq<char>>::empty());
        assert(frames_view(walk.frames@) =~= seq![frame_view(walk.frames@[0])]);
        (walk, BarrelRequest::CanonicalBarrel(String::from_str(barrel)))
    }

    /// Looks at the re-exports of the innermost frame until something
    /// outside the walk is needed, closing the frames that are through.
    fn advance(&mut self) -> (r: BarrelRequest)
        requires
            old(self).well_formed(),
            old(self).frames@.len() > 0 ==> old(self).frames@.last().stage == WalkStage::Scan,
        ensures
            final(self).well_formed(),
            final(self).root == old(self).root,
            final(self).results@ == old(self).results@,
            final(self).visited@ == old(self).visited@,
            r is Done <==> final(self).frames@.len() == 0,
            !(r is Done) ==> final(self).awaiting(),
            (frames_view(final(self).frames@), request_view(r)) == scan(frames_view(old(self).frames@)),
    {
        loop
            invariant
                self.well_formed(),
                self.root == old(self).root,
                self.results@ == old(self).results@,
                self.visited@ == old(self).visited@,
                self.frames@.len() > 0 ==> self.frames@.last().stage == WalkStage::Scan,
                scan(frames_view(self.frames@)) == scan(frames_view(old(self).frames@)),
            decreases pending(self.frames@),
        {
            let ghost before = self.frames@;
            let ghost fv = frames_view(before);
            match self.frames.pop() {
                None => {
                    assert(fv.len() == 0);
                    return BarrelRequest::Done;
                },
                Some(f) => {
                    let mut f = f;
                    assert(self.frames@ == before.drop_last());
                    assert(frame_ok(before[before.len() - 1], before.len() - 1));
                    assert(fv.last() == frame_view(f));
                    assert(frames_view(before.drop_last()) =~= fv.drop_last());
                    if f.next >= f.re_exports.len() {
                        assert(pending(before) == pending(self.frames@) + 1);
                        continue;
                    }
                    if !re_export_applies(&f.re_exports[f.next], f.symbols.as_slice()) {
                        f.next = f.next + 1;
                        self.frames.push(f);
                        assert(self.frames@.drop_last() =~= before.drop_last());
                        assert(frames_view(self.frames@) =~= fv.drop_last().push(moved_on(fv.last())));
                        continue;
                    }
                    let spec = f.re_exports[f.next].from_specifier.clone();
                    let from = f.path.clone();
                    f.stage = WalkStage::Resolve;
                    self.frames.push(f);
                    assert(frames_view(self.frames@) =~= fv.drop_last().push(with_stage(fv.last(), WalkStage::Resolve)));
                    return BarrelRequest::Resolve(spec, from);
                },
            }
        }
    }

    /// Takes the answer to the last request and says what is needed next
    /// (see `answer_outcome`, `visited_after` and `results_after`).
    pub fn answer(&mut self, reply: BarrelAnswer) -> (r: BarrelRequest)
        requires
            old(self).well_formed(),
            old(self).awaiting(),
        ensures
            final(self).well_formed(),
            final(self).root == old(self).root,
            r is Done <==> final(self).frames@.len() == 0,
            !(r is Done) ==> final(self).awaiting(),
            (frames_view(final(self).frames@), request_view(r)) == answer_outcome(
                frames_view(old(self).frames@),
                strings_view(old(self).visited@),
                reply,
            ),
            walk_below(frames_view(final(self).frames@), frames_view(old(self).frames@)),
            strings_view(final(self).visited@) == visited_after(
                frames_view(old(self).frames@).last(),
                reply,
                strings_view(old(self).visited@),
            ),
            strings_view(final(self).results@) == results_after(
                old(self).frames@.last().stage,
                reply,
                old(self).root@,
                strings_view(old(self).results@),
            ),
    {
        let ghost start = self.results@;
        let ghost before = self.frames@;
        let ghost fv = frames_view(before);
        let ghost fl = fv.last();
        let ghost rest = fv.drop_last();
        let ghost vis0 = strings_view(self.visited@);
        let ghost res0 = strings_view(self.results@);
        let ghost spec_reply = reply;
        proof {
            assert forall|i: int| 0 <= i < fv.len() - 1 implies (#[trigger] fv[i]).stage == WalkStage::Scan by {
                assert(fv[i] == frame_view(before[i]));
            }
            assert(fl == frame_view(before[before.len() - 1]));
            answers_go_on(fv, vis0, spec_reply);
        }
        let ghost mut expected: Seq<FrameView> = Seq::empty();
        let mut f = match self.frames.pop() {
            Some(f) => f,
            None => return BarrelRequest::Done,
        };
        assert(self.frames@ == before.drop_last());
        assert(f == before[before.len() - 1]);
        assert(frame_ok(f, before.len() - 1));
        assert(fl == frame_view(f));
        assert(frames_view(self.frames@) =~= rest);
        proof {
            expected = rest;
        }
        match f.stage {
            WalkStage::Canonical => {
                match reply {
                    BarrelAnswer::Path(Some(c)) => {
                        if enter_barrel(f.depth, c.as_str(), &mut self.visited) {
                            f.stage = WalkStage::Source;
                            let p = f.path.clone();
                            self.frames.push(f);
                            assert(frames_view(self.frames@) =~= rest.push(with_stage(fl, WalkStage::Source)));
                            return BarrelRequest::ReadBarrel(p);
                        }
                    },
                    _ => {},
                }
            },
            WalkStage::Source => {
                match reply {
                    BarrelAnswer::Text(Some(t)) => {
                        f.stage = WalkStage::Listing;
                        let p = f.path.clone();
                        self.frames.push(f);
                        assert(frames_view(self.frames@) =~= rest.push(with_stage(fl, WalkStage::Listing)));
                        return BarrelRequest::ReExports(t, p);
                    },
                    _ => {},
                }
            },
            WalkStage::Listing => {
                match reply {
                    BarrelAnswer::ReExports(rs) => {
                        f.re_exports = rs;
                        f.next = 0;
                        f.stage = WalkStage::Scan;
                        proof {
                            expected = rest.push(frame_view(f));
                        }
                        self.frames.push(f);
                        assert(frames_view(self.frames@) =~= expected);
                    },
                    _ => {},
                }
            },
            WalkStage::Resolve => {
                let count = f.re_exports.len();
                assert(f.next < count);
                match reply {
                    BarrelAnswer::Path(Some(p)) => {
                        f.target = p;
                        f.stage = WalkStage::BarrelCheck;
                        let q = f.target.clone();
                        self.frames.push(f);
                        assert(frames_view(self.frames@) =~= rest.push(with_target(fl, WalkStage::BarrelCheck, q@)));
                        return BarrelRequest::IsBarrel(q);
                    },
                    _ => {
                        f.next = f.next + 1;
                        f.stage = WalkStage::Scan;
                        proof {
                            expected = rest.push(moved_on(fl));
                        }
                        self.frames.push(f);
                        assert(frames_view(self.frames@) =~= expected);
                    },
                }
            },
            WalkStage::BarrelCheck => {
                let count = f.re_exports.len();
                assert(f.next < count);
                match reply {
                    BarrelAnswer::Flag(true) => {
                        let nested = nested_symbols(&f.re_exports[f.next], f.symbols.as_slice());
                        let d = f.depth;
                        let child_path = f.target.clone();
                        f.next = f.next + 1;
                        f.stage = WalkStage::Scan;
                        self.frames.push(f);
                        proof {
                            expected = rest.push(moved_on(fl));
                        }
                        assert(frames_view(self.frames@) =~= expected);
                        if d + 1 < MAX_BARREL_DEPTH {
                            let child = BarrelFrame {
                                path: child_path.clone(),
                                symbols: nested,
                                depth: d + 1,
                                re_exports: Vec::new(),
                                next: 0,
                                stage: WalkStage::Canonical,
                                target: String::new(),
                            };
                            self.frames.push(child);
                            assert(strings_view(child.symbols@) =~= child_frame(fl, fl.target).symbols);
                            assert(frame_view(child) == child_frame(fl, fl.target));
                            assert(frames_view(self.frames@) =~= expected.push(child_frame(fl, fl.target)));
                            return BarrelRequest::CanonicalBarrel(child_path);
                        }
                    },
                    _ => {
                        f.stage = WalkStage::HelperCheck;
                        let q = f.target.clone();
                        self.frames.push(f);
                        assert(frames_view(self.frames@) =~= rest.push(with_stage(fl, WalkStage::HelperCheck)));
                        return BarrelRequest::IsHelper(q);
                    },
                }
            },
            WalkStage::HelperCheck => {
                let count = f.re_exports.len();
                assert(f.next < count);
                match reply {
                    BarrelAnswer::Flag(false) => {
                        if f.symbols.len() > 0 && f.re_exports[f.next].wildcard {
                            f.stage = WalkStage::ExportCheck;
                            let q = f.target.clone();
                            let syms = copy_strings(&f.symbols);
                            self.frames.push(f);
                            assert(frames_view(self.frames@) =~= rest.push(with_stage(fl, WalkStage::ExportCheck)));
                            return BarrelRequest::ExportsAny(q, syms);
                        } else {
                            f.stage = WalkStage::Target;
                            let q = f.target.clone();
                            self.frames.push(f);
                            assert(frames_view(self.frames@) =~= rest.push(with_stage(fl, WalkStage::Target)));
                            return BarrelRequest::CanonicalTarget(q);
                        }
                    },
                    _ => {
                        f.next = f.next + 1;
                        f.stage = WalkStage::Scan;
                        proof {
                            expected = rest.push(moved_on(fl));
                        }
                        self.frames.push(f);
                        assert(frames_view(self.frames@) =~= expected);
                    },
                }
            },
            WalkStage::ExportCheck => {
                let count = f.re_exports.len();
                assert(f.next < count);
                match reply {
                    BarrelAnswer::Flag(true) => {
                        f.stage = WalkStage::Target;
                        let q = f.target.clone();
                        self.frames.push(f);
                        assert(frames_view(self.frames@) =~= rest.push(with_stage(fl, WalkStage::Target)));
                        return BarrelRequest::CanonicalTarget(q);
                    },
                    _ => {
                        f.next = f.next + 1;
                        f.stage = WalkStage::Scan;
                        proof {
                            expected = rest.push(moved_on(fl));
                        }
                        self.frames.push(f);
                        assert(frames_view(self.frames@) =~= expected);
                    },
                }
            },
            WalkStage::Target => {
                let count = f.re_exports.len();
                assert(f.next < count);
                match reply {
                    BarrelAnswer::Path(Some(c)) => {
                        if path_starts_with(c.as_str(), self.root.as_str()) {
                            let ghost old_results = strings_view(self.results@);
                            push_result(&mut self.results, c);
                            proof {
                                let nr = strings_view(self.results@);
                                if !old_results.contains(c@) {
                                    assert(nr == old_results.push(c@));
                                    assert forall|i: int, j: int| 0 <= i < nr.len() && 0 <= j < nr.len() && i != j implies nr[i] != nr[j] by {
                                        if i == old_results.len() as int {
                                            assert(nr[j] == old_results[j]);
                                        } else if j == old_results.len() as int {
                                            assert(nr[i] == old_results[i]);
                                        }
                                    }
                                }
                                assert forall|i: int| 0 <= i < self.results@.len() implies path_under((#[trigger] self.results@[i])@, self.root@) by {
                                    assert(nr[i] == self.results@[i]@);
                                    if i < old_results.len() {
                                        assert(old_results[i] == nr[i]);
                                        assert(old_results[i] == start[i]@);
                                    }
                                }
                            }
                        }
                    },
                    _ => {},
                }
                f.next = f.next + 1;
                f.stage = WalkStage::Scan;
                proof {
                    expected = rest.push(moved_on(fl));
                }
                self.frames.push(f);
                assert(frames_view(self.frames@) =~= expected);
            },
            WalkStage::Scan => {
                self.frames.push(f);
            },
        }
        assert(frames_view(self.frames@) == expected);
        let r = self.advance();
        assert((frames_view(self.frames@), request_view(r)) == scan(expected));
        r
    }

    /// The production files found: distinct canonical paths under the root,
    /// in the order in which they were found.
    pub fn into_results(self) -> (r: Vec<String>)
        requires
            self.well_formed(),
        ensures
            r@ == self.results@,
            strings_view(r@).no_duplicates(),
            forall|i: int| 0 <= i < r@.len() ==> path_under((#[trigger] r@[i])@, self.root@),
    {
        self.results
    }
}

} // verus!
