//! Counting helpers of the analyzer: custom assertion patterns, suppression
//! comments on the line before a test, and the queries over syntax trees.

use vstd::prelude::*;
use vstd::utf8::{decode_utf8, valid_utf8};
use crate::extractor::{FileAnalysis, TestAnalysis, TestFunction};
use crate::rules::{rule_ids, RuleId};
use crate::suppress::{suppressed_by, suppression_of_chars};
use crate::order::{insert_sorted, strictly_sorted};
use crate::syntax::{
    descendant_for_range, node_child, node_child_count, node_descendant_count, node_end, node_kind, node_start,
    query_capture_names, query_matches, query_matches_in_range, root_node, utf8_text, Capture,
    capture_names_of, node_results, range_results, root_of, start_of, end_of, kind_of, child_count_of, child_of,
    descendant_count_of, descendant_in,
};
use crate::text::{chars_of, chars_of_strings, contains, contains_chars, lines_chars, lines_of, strings_view, str_eq, split_on, strip_cr, terminated_lines, lemma_split_terminated, lemma_split_on_at_sep, lemma_split_on_without_sep, lemma_split_on_nonempty};

verus! {

// ---------------------------------------------------------------------------
// Custom assertion patterns
// ---------------------------------------------------------------------------

/// A line counts as a custom assertion when some non-empty pattern occurs
/// in it as a plain substring.
pub open spec fn line_matches(line: Seq<char>, patterns: Seq<Seq<char>>) -> bool {
    exists|j: int| 0 <= j < patterns.len() && patterns[j].len() > 0 && contains(line, patterns[j])
}

/// The number of lines that count as custom assertions.
pub open spec fn count_matching(lines: Seq<Seq<char>>, patterns: Seq<Seq<char>>) -> nat
    decreases lines.len(),
{
    if lines.len() == 0 {
        0
    } else {
        count_matching(lines.drop_last(), patterns) + (if line_matches(lines.last(), patterns) { 1nat } else { 0nat })
    }
}

/// A line never counts more than once, so the count is at most the number
/// of lines.
pub proof fn lemma_count_matching_bounded(lines: Seq<Seq<char>>, patterns: Seq<Seq<char>>)
    ensures
        count_matching(lines, patterns) <= lines.len(),
    decreases lines.len(),
{
    if lines.len() > 0 {
        lemma_count_matching_bounded(lines.drop_last(), patterns);
    }
}

fn line_matches_exec(line: &Vec<char>, patterns: &Vec<Vec<char>>) -> (r: bool)
    ensures
        r == line_matches(line@, patterns@.map_values(|p: Vec<char>| p@)),
{
    let ghost ps = patterns@.map_values(|p: Vec<char>| p@);
    let n = patterns.len();
    let mut j: usize = 0;
    while j < n
        invariant
            n == patterns.len(),
            j <= n,
            ps == patterns@.map_values(|p: Vec<char>| p@),
            forall|k: int| 0 <= k < j ==> !(ps[k].len() > 0 && contains(line@, ps[k])),
        decreases n - j,
    {
        if patterns[j].len() > 0 && contains_chars(line, &patterns[j]) {
            assert(ps[j as int] == patterns@[j as int]@);
            return true;
        }
        assert(ps[j as int] == patterns@[j as int]@);
        j = j + 1;
    }
    false
}

/// Counts the lines `lines[from..to]` that count as custom assertions.
fn count_matching_range(lines: &Vec<Vec<char>>, from: usize, to: usize, patterns: &Vec<Vec<char>>) -> (r: usize)
    requires
        from <= to <= lines@.len(),
    ensures
        r == count_matching(
            lines@.map_values(|l: Vec<char>| l@).subrange(from as int, to as int),
            patterns@.map_values(|p: Vec<char>| p@),
        ),
{
    let ghost ls = lines@.map_values(|l: Vec<char>| l@);
    let ghost ps = patterns@.map_values(|p: Vec<char>| p@);
    let mut count: usize = 0;
    let mut i: usize = from;
    while i < to
        invariant
            from <= i <= to <= lines@.len(),
            ls == lines@.map_values(|l: Vec<char>| l@),
            ps == patterns@.map_values(|p: Vec<char>| p@),
            count == count_matching(ls.subrange(from as int, i as int), ps),
            count <= i - from,
        decreases to - i,
    {
        let m = line_matches_exec(&lines[i], patterns);
        assert(ls.subrange(from as int, i + 1).drop_last() =~= ls.subrange(from as int, i as int));
        assert(ls[i as int] == lines@[i as int]@);
        if m {
            count = count + 1;
        }
        i = i + 1;
    }
    count
}

/// Text-based fallback for assertion detection: the number of lines that
/// contain some non-empty pattern as a substring (a line counts once, however
/// many patterns or occurrences it holds; comments and strings count too).
pub fn count_custom_assertion_lines(source_lines: &[&str], patterns: &[String]) -> (r: usize)
    ensures
        r == count_matching(
            source_lines@.map_values(|l: &str| l@),
            strings_view(patterns@),
        ),
        patterns@.len() == 0 ==> r == 0,
{
    let ghost pv = strings_view(patterns@);
    let pats = chars_of_strings(patterns);
    let n = source_lines.len();
    let mut lines: Vec<Vec<char>> = Vec::new();
    let mut i: usize = 0;
    while i < n
        invariant
            n == source_lines@.len(),
            i <= n,
            lines@.map_values(|l: Vec<char>| l@) == source_lines@.take(i as int).map_values(|l: &str| l@),
        decreases n - i,
    {
        let c = chars_of(source_lines[i]);
        let ghost before = lines@;
        lines.push(c);
        assert(lines@.map_values(|l: Vec<char>| l@) =~= before.map_values(|l: Vec<char>| l@).push(source_lines@[i as int]@));
        assert(source_lines@.take((i + 1) as int).map_values(|l: &str| l@) =~= source_lines@.take(i as int).map_values(|l: &str| l@).push(source_lines@[i as int]@));
        i = i + 1;
    }
    assert(source_lines@.take(n as int) =~= source_lines@);
    let r = count_matching_range(&lines, 0, n, &pats);
    assert(lines@.map_values(|l: Vec<char>| l@).subrange(0, n as int) =~= lines@.map_values(|l: Vec<char>| l@));
    proof {
        if patterns@.len() == 0 {
            lemma_count_matching_no_patterns(source_lines@.map_values(|l: &str| l@), pv);
        }
    }
    r
}

proof fn lemma_count_matching_no_patterns(lines: Seq<Seq<char>>, patterns: Seq<Seq<char>>)
    requires
        patterns.len() == 0,
    ensures
        count_matching(lines, patterns) == 0,
    decreases lines.len(),
{
    if lines.len() > 0 {
        lemma_count_matching_no_patterns(lines.drop_last(), patterns);
    }
}

/// The 0-based line range `[start, end)` of a function's body within a text
/// of `n` lines: from `line - 1` (saturating) to `min(end_line, n)`.
pub open spec fn body_range(f: TestFunction, n: nat) -> (int, int) {
    let start = if f.line >= 1 { f.line - 1 } else { 0 };
    let end = if f.end_line <= n { f.end_line as int } else { n as int };
    (start, end)
}

/// A function with another assertion count, all else equal.
pub open spec fn with_assertion_count(f: TestFunction, count: int) -> TestFunction {
    TestFunction {
        name: f.name,
        file: f.file,
        line: f.line,
        end_line: f.end_line,
        analysis: TestAnalysis {
            assertion_count: count as usize,
            mock_count: f.analysis.mock_count,
            mock_classes: f.analysis.mock_classes,
            line_count: f.analysis.line_count,
            suppressed_rules: f.analysis.suppressed_rules,
        },
    }
}

/// What the custom assertion fallback makes of one function: a function that
/// has no assertion gets the number of its body lines that count as custom
/// assertions; any other function is left as it is.
pub open spec fn fallback_function(f: TestFunction, lines: Seq<Seq<char>>, patterns: Seq<Seq<char>>) -> TestFunction {
    let (start, end) = body_range(f, lines.len());
    if f.analysis.assertion_count > 0 || start >= end {
        f
    } else {
        with_assertion_count(f, count_matching(lines.subrange(start, end), patterns) as int)
    }
}

/// Applies the custom assertion fallback to the functions of a file that
/// have no detected assertion; all others stay untouched, and with no
/// pattern nothing changes.
pub fn apply_custom_assertion_fallback(analysis: &mut FileAnalysis, source: &str, patterns: &[String])
    ensures
        final(analysis).file == old(analysis).file,
        final(analysis).has_pbt_import == old(analysis).has_pbt_import,
        final(analysis).has_contract_import == old(analysis).has_contract_import,
        final(analysis).has_error_test == old(analysis).has_error_test,
        final(analysis).has_relational_assertion == old(analysis).has_relational_assertion,
        final(analysis).parameterized_count == old(analysis).parameterized_count,
        final(analysis).functions@.len() == old(analysis).functions@.len(),
        patterns@.len() == 0 ==> final(analysis).functions@ == old(analysis).functions@,
        patterns@.len() > 0 ==> forall|i: int| 0 <= i < old(analysis).functions@.len() ==>
            #[trigger] final(analysis).functions@[i] == fallback_function(
                old(analysis).functions@[i],
                lines_of(source@),
                strings_view(patterns@),
            ),
{
    if patterns.len() == 0 {
        return;
    }
    let pats = chars_of_strings(patterns);
    let src = chars_of(source);
    let lines = lines_chars(&src);
    let ghost ls = lines@.map_values(|l: Vec<char>| l@);
    let ghost ps = strings_view(patterns@);
    let nlines = lines.len();
    let mut funcs: Vec<TestFunction> = Vec::new();
    std::mem::swap(&mut funcs, &mut analysis.functions);
    let ghost old_funcs = funcs@;
    let mut out: Vec<TestFunction> = Vec::new();
    for f in it: funcs.into_iter()
        invariant
            it.seq() == old_funcs,
            nlines == lines@.len(),
            ls == lines@.map_values(|l: Vec<char>| l@),
            ls == lines_of(source@),
            ps == pats@.map_values(|p: Vec<char>| p@),
            out@.len() == it.index(),
            forall|j: int| 0 <= j < it.index() ==> #[trigger] out@[j] == fallback_function(old_funcs[j], ls, ps),
    {
        let mut f = f;
        if f.analysis.assertion_count == 0 {
            let start = if f.line >= 1 { f.line - 1 } else { 0 };
            let end = if f.end_line <= nlines { f.end_line } else { nlines };
            if start < end {
                let count = count_matching_range(&lines, start, end, &pats);
                proof {
                    assert(ls.subrange(start as int, end as int) == lines@.map_values(|l: Vec<char>| l@).subrange(start as int, end as int));
                }
                f.analysis.assertion_count = count;
            }
        }
        out.push(f);
    }
    analysis.functions = out;
}

/// The custom assertion fallback never lowers an assertion count, counts at
/// most the lines of the function's body, and applying it a second time
/// changes nothing.
pub proof fn fallback_laws(f: TestFunction, lines: Seq<Seq<char>>, patterns: Seq<Seq<char>>)
    ensures
        fallback_function(f, lines, patterns).analysis.assertion_count >= f.analysis.assertion_count,
        f.analysis.assertion_count == 0 ==> fallback_function(f, lines, patterns).analysis.assertion_count
            <= f.end_line,
        fallback_function(fallback_function(f, lines, patterns), lines, patterns) == fallback_function(f, lines, patterns),
        patterns.len() == 0 ==> fallback_function(f, lines, patterns) == f,
{
    let (start, end) = body_range(f, lines.len());
    if f.analysis.assertion_count == 0 && start < end {
        let body = lines.subrange(start, end);
        lemma_count_matching_bounded(body, patterns);
        let c = count_matching(body, patterns);
        assert(c <= f.end_line);
        let g = fallback_function(f, lines, patterns);
        assert(g.analysis.assertion_count == c);
        assert(body_range(g, lines.len()) == body_range(f, lines.len()));
        if c == 0 {
            assert(g.analysis == f.analysis);
            assert(g == f);
        }
        if patterns.len() == 0 {
            lemma_count_matching_no_patterns(body, patterns);
            assert(g.analysis == f.analysis);
        }
    }
}

// ---------------------------------------------------------------------------
// Suppression comment on the line before a test
// ---------------------------------------------------------------------------

/// The rule ids suppressed by the comment on the line before row `start_row`
/// (0-based): none for the first row or a row past the end of the text.
pub open spec fn suppressed_before_row(source: Seq<char>, start_row: nat) -> Seq<Seq<char>> {
    if start_row == 0 {
        Seq::empty()
    } else {
        let ls = lines_of(source);
        let prev = if start_row - 1 < ls.len() { ls[start_row - 1] } else { Seq::<char>::empty() };
        suppressed_by(prev)
    }
}

/// The suppression of a test comes from the line directly before it: for
/// a test on row `start_row` (0-based) with `0 < start_row <= ` the number
/// of lines, the rule ids are those that line `start_row - 1` of the source
/// suppresses; a test on the first row, or past the last line, has none.
pub proof fn suppression_comes_from_previous_line(source: Seq<char>, start_row: nat)
    ensures
        0 < start_row <= lines_of(source).len() ==> suppressed_before_row(source, start_row) == suppressed_by(lines_of(source)[start_row - 1]),
        start_row == 0 ==> suppressed_before_row(source, start_row).len() == 0,
        start_row > lines_of(source).len() ==> suppressed_before_row(source, start_row) == suppressed_by(Seq::empty()),
{
}

/// A test right after a comment line gets what that comment suppresses,
/// whatever the lines before it and the text after it: in a text made of
/// some lines (each followed by a line break), then the comment line and a
/// line break, then anything, the test on the row after the comment gets
/// the rule ids of the comment (without a carriage return at its end).
pub proof fn suppression_of_the_comment_above(before: Seq<Seq<char>>, comment: Seq<char>, after: Seq<char>)
    requires
        forall|i: int| 0 <= i < before.len() ==> !(#[trigger] before[i]).contains('\n'),
        !comment.contains('\n'),
    ensures
        suppressed_before_row(terminated_lines(before) + comment + seq!['\n'] + after, before.len() + 1)
            == suppressed_by(strip_cr(comment)),
{
    let text = terminated_lines(before) + comment + seq!['\n'] + after;
    let x = comment + seq!['\n'] + after;
    assert(text =~= terminated_lines(before) + x);
    lemma_split_terminated(before, x);
    lemma_split_on_at_sep(comment, after, '\n');
    lemma_split_on_without_sep(comment, '\n');
    lemma_split_on_nonempty(after, '\n');
    let p = split_on(text, '\n');
    assert(p =~= before + seq![comment] + split_on(after, '\n'));
    assert(p[before.len() as int] == comment);
    assert(p.drop_last()[before.len() as int] == comment);
    assert(lines_of(text)[before.len() as int] == strip_cr(comment));
}

pub fn extract_suppression_from_previous_line(source: &str, start_row: usize) -> (r: Vec<RuleId>)
    ensures
        rule_ids(r@) == suppressed_before_row(source@, start_row as nat),
{
    if start_row == 0 {
        return Vec::new();
    }
    let src = chars_of(source);
    let lines = lines_chars(&src);
    assert(lines@.len() == lines_of(source@).len());
    if start_row - 1 < lines.len() {
        assert(lines@[start_row - 1]@ == lines_of(source@)[start_row - 1]);
        suppression_of_chars(&lines[start_row - 1])
    } else {
        let empty: Vec<char> = Vec::new();
        suppression_of_chars(&empty)
    }
}


// ---------------------------------------------------------------------------
// Queries over syntax trees
// ---------------------------------------------------------------------------

/// The first position of `name` among the capture names, from `i` on.
pub open spec fn name_position(names: Seq<Seq<char>>, name: Seq<char>, i: int) -> Option<int>
    decreases names.len() - i,
{
    if i < 0 || i >= names.len() {
        None
    } else if names[i] == name {
        Some(i)
    } else {
        name_position(names, name, i + 1)
    }
}

/// The index of a capture name (`Query::capture_index_for_name`): its first
/// position among the query's capture names.
pub fn capture_index(names: &Vec<String>, name: &str) -> (r: Option<usize>)
    ensures
        match r {
            Some(i) => name_position(strings_view(names@), name@, 0) == Some(i as int),
            None => name_position(strings_view(names@), name@, 0) is None,
        },
{
    let ghost nv = strings_view(names@);
    let n = names.len();
    let mut i: usize = 0;
    while i < n
        invariant
            n == names@.len(),
            nv == strings_view(names@),
            i <= n,
            name_position(nv, name@, 0) == name_position(nv, name@, i as int),
        decreases n - i,
    {
        assert(nv[i as int] == names@[i as int]@);
        if str_eq(names[i].as_str(), name) {
            return Some(i);
        }
        i = i + 1;
    }
    None
}

/// The captures of all matches, match after match.
pub open spec fn flatten_matches(ms: Seq<Seq<Capture>>) -> Seq<Capture>
    decreases ms.len(),
{
    if ms.len() == 0 {
        Seq::empty()
    } else {
        flatten_matches(ms.drop_last()) + ms.last()
    }
}

pub open spec fn matches_view(ms: Seq<Vec<Capture>>) -> Seq<Seq<Capture>> {
    ms.map_values(|m: Vec<Capture>| m@)
}

/// The captures of all matches, match after match.
pub fn flatten(ms: &Vec<Vec<Capture>>) -> (r: Vec<Capture>)
    ensures
        r@ == flatten_matches(matches_view(ms@)),
{
    let ghost mv = matches_view(ms@);
    let mut r: Vec<Capture> = Vec::new();
    let n = ms.len();
    let mut i: usize = 0;
    while i < n
        invariant
            n == ms@.len(),
            mv == matches_view(ms@),
            i <= n,
            r@ == flatten_matches(mv.take(i as int)),
        decreases n - i,
    {
        assert(mv.take(i + 1).drop_last() =~= mv.take(i as int));
        assert(mv[i as int] == ms@[i as int]@);
        let ghost before = r@;
        let m = &ms[i];
        let k = m.len();
        let mut j: usize = 0;
        while j < k
            invariant
                k == m@.len(),
                j <= k,
                r@ == before + m@.take(j as int),
            decreases k - j,
        {
            r.push(m[j]);
            assert(m@.take(j + 1) =~= m@.take(j as int).push(m@[j as int]));
            j = j + 1;
        }
        assert(m@.take(k as int) =~= m@);
        i = i + 1;
    }
    assert(mv.take(n as int) =~= mv);
    r
}

/// The captures of one capture name.
pub open spec fn captures_named(cs: Seq<Capture>, idx: usize) -> Seq<Capture> {
    cs.filter(|c: Capture| c.index == idx)
}

/// The captures with the given index.
pub fn select_captures(cs: &Vec<Capture>, idx: usize) -> (r: Vec<Capture>)
    ensures
        r@ == captures_named(cs@, idx),
{
    let mut r: Vec<Capture> = Vec::new();
    let n = cs.len();
    let mut i: usize = 0;
    while i < n
        invariant
            n == cs@.len(),
            i <= n,
            r@ == captures_named(cs@.take(i as int), idx),
        decreases n - i,
    {
        proof {
            reveal_with_fuel(Seq::filter, 1);
            assert(cs@.take(i + 1).drop_last() =~= cs@.take(i as int));
        }
        if cs[i].index == idx {
            r.push(cs[i]);
        }
        i = i + 1;
    }
    assert(cs@.take(n as int) =~= cs@);
    r
}

/// The captures of the matches that carry the capture name (the first
/// position of the name among the capture names); none when the names do
/// not hold it.
pub open spec fn named_captures(names: Seq<Seq<char>>, name: Seq<char>, ms: Seq<Seq<Capture>>) -> Seq<Capture> {
    match name_position(names, name, 0) {
        Some(i) => captures_named(flatten_matches(ms), i as usize),
        None => Seq::empty(),
    }
}

/// The captures of the matches that carry the capture name.
pub fn select_named(names: &Vec<String>, name: &str, matches: &Vec<Vec<Capture>>) -> (r: Vec<Capture>)
    ensures
        r@ == named_captures(strings_view(names@), name@, matches_view(matches@)),
{
    match capture_index(names, name) {
        Some(idx) => {
            let all = flatten(matches);
            select_captures(&all, idx)
        },
        None => Vec::new(),
    }
}

/// How many captures of the matches carry the capture name (0 when the
/// names do not hold it).
pub fn count_named_captures(names: &Vec<String>, name: &str, matches: &Vec<Vec<Capture>>) -> (r: usize)
    ensures
        r == named_captures(strings_view(names@), name@, matches_view(matches@)).len(),
{
    let sel = select_named(names, name, matches);
    sel.len()
}

/// Whether some capture of the matches carries the capture name.
pub fn any_named_capture(names: &Vec<String>, name: &str, matches: &Vec<Vec<Capture>>) -> (r: bool)
    ensures
        r == (named_captures(strings_view(names@), name@, matches_view(matches@)).len() > 0),
{
    count_named_captures(names, name, matches) > 0
}

/// Counts the captures named `capture_name` in the matches of `query` over
/// `node` (0 when the query has no such capture): `count_named_captures` of
/// the query's capture names and matches.  `source` is the text of the
/// tree, so it reaches to the end of the node.
pub fn count_captures(query: &tree_sitter::Query, capture_name: &str, node: tree_sitter::Node, source: &[u8]) -> (r: usize)
    requires
        end_of(node) <= source@.len(),
    ensures
        r == named_captures(capture_names_of(*query), capture_name@, node_results(*query, node, source@)).len(),
{
    let names = query_capture_names(query);
    let matches = query_matches(query, node, source);
    count_named_captures(&names, capture_name, &matches)
}

/// Whether some match of `query` over `node` has a capture named
/// `capture_name` (never, when the query has no such capture):
/// `any_named_capture` of the query's capture names and matches.
pub fn has_any_match(query: &tree_sitter::Query, capture_name: &str, node: tree_sitter::Node, source: &[u8]) -> (r: bool)
    requires
        end_of(node) <= source@.len(),
    ensures
        r == (named_captures(capture_names_of(*query), capture_name@, node_results(*query, node, source@)).len() > 0),
{
    let names = query_capture_names(query);
    let matches = query_matches(query, node, source);
    any_named_capture(&names, capture_name, &matches)
}

/// The byte ranges of captures.
pub open spec fn ranges_of(cs: Seq<Capture>) -> Seq<(usize, usize)> {
    cs.map_values(|c: Capture| (c.start, c.end))
}

fn ranges(cs: &Vec<Capture>) -> (r: Vec<(usize, usize)>)
    ensures
        r@ == ranges_of(cs@),
{
    let mut r: Vec<(usize, usize)> = Vec::new();
    let n = cs.len();
    let mut i: usize = 0;
    while i < n
        invariant
            n == cs@.len(),
            i <= n,
            r@ == ranges_of(cs@.take(i as int)),
        decreases n - i,
    {
        r.push((cs[i].start, cs[i].end));
        assert(ranges_of(cs@.take(i + 1)) =~= ranges_of(cs@.take(i as int)).push((cs@[i as int].start, cs@[i as int].end)));
        i = i + 1;
    }
    assert(cs@.take(n as int) =~= cs@);
    r
}

/// The byte ranges of the captures named `capture_name` in the matches of
/// `query` over `node` (none when the query has no such capture).
fn collect_capture_ranges(query: &tree_sitter::Query, capture_name: &str, node: tree_sitter::Node, source: &[u8]) -> (r: Vec<(usize, usize)>)
    requires
        end_of(node) <= source@.len(),
    ensures
        r@ == ranges_of(named_captures(capture_names_of(*query), capture_name@, node_results(*query, node, source@))),
{
    let names = query_capture_names(query);
    let matches = query_matches(query, node, source);
    let sel = select_named(&names, capture_name, &matches);
    ranges(&sel)
}

/// A byte range lies within one of the ranges.
pub open spec fn within_some(start: usize, end: usize, ranges: Seq<(usize, usize)>) -> bool {
    exists|k: int| 0 <= k < ranges.len() && start >= (#[trigger] ranges[k]).0 && end <= ranges[k].1
}

fn within_any(start: usize, end: usize, ranges: &Vec<(usize, usize)>) -> (r: bool)
    ensures
        r == within_some(start, end, ranges@),
{
    let n = ranges.len();
    let mut k: usize = 0;
    while k < n
        invariant
            n == ranges@.len(),
            k <= n,
            forall|j: int| 0 <= j < k ==> !(start >= (#[trigger] ranges@[j]).0 && end <= ranges@[j].1),
        decreases n - k,
    {
        if start >= ranges[k].0 && end <= ranges[k].1 {
            return true;
        }
        k = k + 1;
    }
    false
}

/// The captures that lie within one of the ranges.
pub open spec fn captures_within(cs: Seq<Capture>, ranges: Seq<(usize, usize)>) -> Seq<Capture> {
    cs.filter(|c: Capture| within_some(c.start, c.end, ranges))
}

/// How many of the captures lie within one of the ranges.
pub fn count_within(cs: &Vec<Capture>, ranges: &Vec<(usize, usize)>) -> (r: usize)
    ensures
        r == captures_within(cs@, ranges@).len(),
{
    let mut count: usize = 0;
    let n = cs.len();
    let mut i: usize = 0;
    while i < n
        invariant
            n == cs@.len(),
            i <= n,
            count == captures_within(cs@.take(i as int), ranges@).len(),
            count <= i,
        decreases n - i,
    {
        proof {
            reveal_with_fuel(Seq::filter, 1);
            assert(cs@.take(i + 1).drop_last() =~= cs@.take(i as int));
        }
        if within_any(cs[i].start, cs[i].end, ranges) {
            count = count + 1;
        }
        i = i + 1;
    }
    assert(cs@.take(n as int) =~= cs@);
    count
}

/// How many captures named `inner_name` lie within the range of some
/// capture named `outer_name`: none when there is no such outer capture.
pub open spec fn context_count(
    outer_names: Seq<Seq<char>>,
    outer_name: Seq<char>,
    outer_ms: Seq<Seq<Capture>>,
    inner_names: Seq<Seq<char>>,
    inner_name: Seq<char>,
    inner_ms: Seq<Seq<Capture>>,
) -> nat {
    let ranges = ranges_of(named_captures(outer_names, outer_name, outer_ms));
    if ranges.len() == 0 {
        0
    } else {
        captures_within(named_captures(inner_names, inner_name, inner_ms), ranges).len()
    }
}

/// How many inner captures lie within an outer capture (see
/// `context_count`), given both queries' capture names and matches.
pub fn count_in_context(
    outer_names: &Vec<String>,
    outer_name: &str,
    outer_matches: &Vec<Vec<Capture>>,
    inner_names: &Vec<String>,
    inner_name: &str,
    inner_matches: &Vec<Vec<Capture>>,
) -> (r: usize)
    ensures
        r == context_count(
            strings_view(outer_names@),
            outer_name@,
            matches_view(outer_matches@),
            strings_view(inner_names@),
            inner_name@,
            matches_view(inner_matches@),
        ),
{
    let outer_sel = select_named(outer_names, outer_name, outer_matches);
    let outer = ranges(&outer_sel);
    if outer.len() == 0 {
        return 0;
    }
    let inner = select_named(inner_names, inner_name, inner_matches);
    count_within(&inner, &outer)
}

/// Counts the captures named `inner_capture` of `inner_query` whose byte
/// range lies within the range of some capture named `outer_capture` of
/// `outer_query` (0 when either query lacks its capture): `count_in_context`
/// of the two queries' capture names and matches.
pub fn count_captures_within_context(
    outer_query: &tree_sitter::Query,
    outer_capture: &str,
    inner_query: &tree_sitter::Query,
    inner_capture: &str,
    node: tree_sitter::Node,
    source: &[u8],
) -> (r: usize)
    requires
        end_of(node) <= source@.len(),
    ensures
        r == context_count(
            capture_names_of(*outer_query),
            outer_capture@,
            node_results(*outer_query, node, source@),
            capture_names_of(*inner_query),
            inner_capture@,
            node_results(*inner_query, node, source@),
        ),
{
    let outer_names = query_capture_names(outer_query);
    let outer_matches = query_matches(outer_query, node, source);
    let inner_names = query_capture_names(inner_query);
    let inner_matches = query_matches(inner_query, node, source);
    count_in_context(&outer_names, outer_capture, &outer_matches, &inner_names, inner_capture, &inner_matches)
}

/// The texts of the captures, decoded as UTF-8; captures whose bytes are
/// not valid UTF-8, or lie outside the source, are skipped.
pub open spec fn capture_texts(cs: Seq<Capture>, source: Seq<u8>) -> Seq<Seq<char>>
    decreases cs.len(),
{
    if cs.len() == 0 {
        Seq::empty()
    } else {
        let c = cs.last();
        capture_texts(cs.drop_last(), source) + (if c.start <= c.end <= source.len() && valid_utf8(
            source.subrange(c.start as int, c.end as int),
        ) {
            seq![decode_utf8(source.subrange(c.start as int, c.end as int))]
        } else {
            Seq::empty()
        })
    }
}

/// The texts of the captures (see `capture_texts`).
pub fn texts_of(cs: &Vec<Capture>, source: &[u8]) -> (r: Vec<String>)
    ensures
        strings_view(r@) == capture_texts(cs@, source@),
{
    let mut r: Vec<String> = Vec::new();
    let n = cs.len();
    let mut i: usize = 0;
    while i < n
        invariant
            n == cs@.len(),
            i <= n,
            strings_view(r@) == capture_texts(cs@.take(i as int), source@),
        decreases n - i,
    {
        assert(cs@.take(i + 1).drop_last() =~= cs@.take(i as int));
        let c = cs[i];
        if c.start <= c.end && c.end <= source.len() {
            match utf8_text(source, c.start, c.end) {
                Some(t) => {
                    let ghost before = r@;
                    r.push(t);
                    assert(strings_view(r@) =~= strings_view(before).push(t@));
                },
                None => {},
            }
        }
        i = i + 1;
    }
    assert(cs@.take(n as int) =~= cs@);
    r
}

proof fn lemma_push_to_set(s: Seq<Seq<char>>, x: Seq<char>)
    ensures
        s.push(x).to_set() == s.to_set().insert(x),
{
    let t = s.push(x);
    assert forall|y: Seq<char>| t.contains(y) <==> s.contains(y) || y == x by {
        if t.contains(y) {
            let j = choose|j: int| 0 <= j < t.len() && #[trigger] t[j] == y;
            if j < s.len() {
                assert(s[j] == y);
            }
        }
        if s.contains(y) {
            let j = choose|j: int| 0 <= j < s.len() && #[trigger] s[j] == y;
            assert(t[j] == y);
        }
        if y == x {
            assert(t[s.len() as int] == y);
        }
    }
    assert(t.to_set() =~= s.to_set().insert(x));
}

/// The distinct names, sorted.
pub fn sorted_names(names: Vec<String>) -> (r: Vec<String>)
    ensures
        strictly_sorted(strings_view(r@)),
        strings_view(r@).to_set() == strings_view(names@).to_set(),
{
    let ghost nv = strings_view(names@);
    let mut r: Vec<String> = Vec::new();
    assert(strings_view(r@).to_set() =~= nv.take(0).to_set());
    for x in it: names.into_iter()
        invariant
            it.seq() == names@,
            nv == strings_view(names@),
            strictly_sorted(strings_view(r@)),
            strings_view(r@).to_set() == nv.take(it.index() as int).to_set(),
    {
        let ghost k = it.index();
        proof {
            assert(nv[k as int] == x@);
            lemma_push_to_set(nv.take(k as int), x@);
            assert(nv.take(k + 1) =~= nv.take(k as int).push(x@));
        }
        insert_sorted(&mut r, x);
    }
    assert(nv.take(names@.len() as int) =~= nv);
    r
}

/// `x` is a name that `extract_name` can give for some text.
pub open spec fn name_from<F: Fn(&str) -> String>(extract_name: F, x: Seq<char>) -> bool {
    exists|s: &str, y: String| call_ensures(extract_name, (s,), y) && y@ == x
}

/// `y` is what `extract_name` can give for the text `text`.
pub open spec fn name_given<F: Fn(&str) -> String>(extract_name: F, text: Seq<char>, y: String) -> bool {
    exists|s: &str| s@ == text && call_ensures(extract_name, (s,), y)
}

/// The distinct class names of the mocks, given a query's capture names and
/// matches: the texts of the `@var_name` captures, each mapped by
/// `extract_name`, sorted and without repetition; none when the names do
/// not hold `var_name`.
pub fn mock_class_names<F>(names: &Vec<String>, matches: &Vec<Vec<Capture>>, source: &[u8], extract_name: F) -> (r: Vec<String>)
    where
        F: Fn(&str) -> String,
    requires
        forall|s: &str| extract_name.requires((s,)),
    ensures
        strictly_sorted(strings_view(r@)),
        exists|ys: Seq<String>| #![trigger strings_view(ys)] {
            &&& ys.len() == capture_texts(named_captures(strings_view(names@), "var_name"@, matches_view(matches@)), source@).len()
            &&& forall|k: int| 0 <= k < ys.len() ==> #[trigger] name_given::<F>(
                extract_name,
                capture_texts(named_captures(strings_view(names@), "var_name"@, matches_view(matches@)), source@)[k],
                ys[k],
            )
            &&& strings_view(r@).to_set() == strings_view(ys).to_set()
        },
        forall|k: int| 0 <= k < r@.len() ==> name_from::<F>(extract_name, (#[trigger] r@[k])@),
{
    let sel = select_named(names, "var_name", matches);
    let vars = texts_of(&sel, source);
    let ghost texts = capture_texts(named_captures(strings_view(names@), "var_name"@, matches_view(matches@)), source@);
    assert(strings_view(vars@) == texts);
    let mut extracted: Vec<String> = Vec::new();
    let ghost mut inputs: Seq<&str> = Seq::empty();
    let n = vars.len();
    let mut i: usize = 0;
    while i < n
        invariant
            n == vars@.len(),
            i <= n,
            strings_view(vars@) == texts,
            forall|s: &str| extract_name.requires((s,)),
            inputs.len() == extracted@.len(),
            extracted@.len() == i,
            forall|k: int| 0 <= k < extracted@.len() ==> call_ensures(extract_name, (inputs[k],), #[trigger] extracted@[k]),
            forall|k: int| 0 <= k < extracted@.len() ==> (#[trigger] inputs[k])@ == texts[k],
        decreases n - i,
    {
        let v = vars[i].as_str();
        let y = extract_name(v);
        proof {
            assert(strings_view(vars@)[i as int] == vars@[i as int]@);
            inputs = inputs.push(v);
        }
        extracted.push(y);
        i = i + 1;
    }
    let ghost ev = extracted@;
    assert forall|k: int| 0 <= k < ev.len() implies #[trigger] name_given::<F>(extract_name, texts[k], ev[k]) by {
        assert(inputs[k]@ == texts[k] && call_ensures(extract_name, (inputs[k],), ev[k]));
    }
    let r = sorted_names(extracted);
    assert forall|k: int| 0 <= k < r@.len() implies name_from::<F>(extract_name, (#[trigger] r@[k])@) by {
        assert(strings_view(r@)[k] == r@[k]@);
        assert(strings_view(r@).to_set().contains(r@[k]@));
        assert(strings_view(ev).to_set().contains(r@[k]@));
        let j = choose|j: int| 0 <= j < strings_view(ev).len() && strings_view(ev)[j] == r@[k]@;
        assert(strings_view(ev)[j] == ev[j]@);
        assert(call_ensures(extract_name, (inputs[j],), ev[j]) && ev[j]@ =~= r@[k]@);
    }
    assert(strings_view(r@).to_set() == strings_view(ev).to_set());
    r
}

/// The distinct class names of the mocks that `query` captures as
/// `@var_name` over `node` (each variable text mapped by `extract_name`),
/// sorted; none when the query has no `@var_name` capture:
/// `mock_class_names` of the query's capture names and matches.
pub fn collect_mock_class_names<F>(query: &tree_sitter::Query, node: tree_sitter::Node, source: &[u8], extract_name: F) -> (r: Vec<String>)
    where
        F: Fn(&str) -> String,
    requires
        forall|s: &str| extract_name.requires((s,)),
        end_of(node) <= source@.len(),
    ensures
        strictly_sorted(strings_view(r@)),
        exists|ys: Seq<String>| #![trigger strings_view(ys)] {
            &&& ys.len() == capture_texts(named_captures(capture_names_of(*query), "var_name"@, node_results(*query, node, source@)), source@).len()
            &&& forall|k: int| 0 <= k < ys.len() ==> #[trigger] name_given::<F>(
                extract_name,
                capture_texts(named_captures(capture_names_of(*query), "var_name"@, node_results(*query, node, source@)), source@)[k],
                ys[k],
            )
            &&& strings_view(r@).to_set() == strings_view(ys).to_set()
        },
        forall|k: int| 0 <= k < r@.len() ==> name_from::<F>(extract_name, (#[trigger] r@[k])@),
{
    let names = query_capture_names(query);
    let matches = query_matches(query, node, source);
    mock_class_names(&names, &matches, source, extract_name)
}


// ---------------------------------------------------------------------------
// Repeated literals in assertions
// ---------------------------------------------------------------------------

/// Literals too common to count as repeated values (across languages).
pub open spec fn trivial_literals() -> Seq<Seq<char>> {
    seq![
        "0"@, "1"@, "2"@, "true"@, "false"@, "True"@, "False"@, "None"@, "null"@, "undefined"@,
        "nil"@, "\"\""@, "''"@, "0.0"@, "1.0"@,
    ]
}

/// Whether a literal text is one of the trivial ones.
pub fn is_trivial_literal(text: &str) -> (r: bool)
    ensures
        r == trivial_literals().contains(text@),
{
    let list: Vec<&str> = vec!["0", "1", "2", "true", "false", "True", "False", "None", "null", "undefined", "nil", "\"\"", "''", "0.0", "1.0"];
    let ghost lv = list@.map_values(|s: &str| s@);
    assert(lv =~= trivial_literals());
    let n = list.len();
    let mut i: usize = 0;
    while i < n
        invariant
            n == list@.len(),
            lv == list@.map_values(|s: &str| s@),
            lv == trivial_literals(),
            i <= n,
            forall|j: int| 0 <= j < i ==> lv[j] != text@,
        decreases n - i,
    {
        assert(lv[i as int] == list@[i as int]@);
        if str_eq(list[i], text) {
            assert(trivial_literals()[i as int] == text@);
            return true;
        }
        i = i + 1;
    }
    false
}

/// How often `t` occurs in `s`.
pub open spec fn multiplicity(s: Seq<Seq<char>>, t: Seq<char>) -> nat {
    s.filter(|x: Seq<char>| x == t).len()
}

/// The largest number of times that any text occurs (0 for no text).
pub fn max_multiplicity(texts: &Vec<String>) -> (r: usize)
    ensures
        texts@.len() == 0 ==> r == 0,
        texts@.len() > 0 ==> exists|i: int| 0 <= i < texts@.len() && r == multiplicity(strings_view(texts@), #[trigger] strings_view(texts@)[i]),
        forall|i: int| 0 <= i < texts@.len() ==> multiplicity(strings_view(texts@), #[trigger] strings_view(texts@)[i]) <= r,
{
    let ghost tv = strings_view(texts@);
    let n = texts.len();
    let mut best: usize = 0;
    let mut i: usize = 0;
    while i < n
        invariant
            n == texts@.len(),
            tv == strings_view(texts@),
            i <= n,
            i == 0 ==> best == 0,
            i > 0 ==> exists|k: int| 0 <= k < i && best == multiplicity(tv, #[trigger] tv[k]),
            forall|k: int| 0 <= k < i ==> multiplicity(tv, #[trigger] tv[k]) <= best,
        decreases n - i,
    {
        let mut c: usize = 0;
        let mut j: usize = 0;
        while j < n
            invariant
                n == texts@.len(),
                tv == strings_view(texts@),
                i < n,
                j <= n,
                c == tv.take(j as int).filter(|x: Seq<char>| x == tv[i as int]).len(),
                c <= j,
            decreases n - j,
        {
            proof {
                reveal_with_fuel(Seq::filter, 1);
                assert(tv.take(j + 1).drop_last() =~= tv.take(j as int));
                assert(tv[j as int] == texts@[j as int]@);
                assert(tv[i as int] == texts@[i as int]@);
            }
            if texts[j] == texts[i] {
                c = c + 1;
            }
            j = j + 1;
        }
        assert(tv.take(n as int) =~= tv);
        assert(c == multiplicity(tv, tv[i as int]));
        if c > best || i == 0 {
            best = c;
        }
        i = i + 1;
    }
    best
}

/// A node counts as a literal of an assertion when its kind is one of the
/// literal kinds and its range lies within an assertion.
pub fn literal_in_assertion(kind: &str, literal_kinds: &[&str], start: usize, end: usize, ranges: &Vec<(usize, usize)>) -> (r: bool)
    ensures
        r == (literal_kinds@.map_values(|k: &str| k@).contains(kind@) && within_some(start, end, ranges@)),
{
    let ghost kv = literal_kinds@.map_values(|k: &str| k@);
    let n = literal_kinds.len();
    let mut found = false;
    let mut i: usize = 0;
    while i < n
        invariant
            n == literal_kinds@.len(),
            kv == literal_kinds@.map_values(|k: &str| k@),
            i <= n,
            found == exists|j: int| 0 <= j < i && kv[j] == kind@,
        decreases n - i,
    {
        assert(kv[i as int] == literal_kinds@[i as int]@);
        if str_eq(literal_kinds[i], kind) {
            found = true;
        }
        i = i + 1;
    }
    found && within_any(start, end, ranges)
}

/// Whether a byte range overlaps one of the ranges.
pub fn overlaps_any(start: usize, end: usize, ranges: &Vec<(usize, usize)>) -> (r: bool)
    ensures
        r == exists|k: int| 0 <= k < ranges@.len() && end > (#[trigger] ranges@[k]).0 && start < ranges@[k].1,
{
    let n = ranges.len();
    let mut k: usize = 0;
    while k < n
        invariant
            n == ranges@.len(),
            k <= n,
            forall|j: int| 0 <= j < k ==> !(end > (#[trigger] ranges@[j]).0 && start < ranges@[j].1),
        decreases n - k,
    {
        if end > ranges[k].0 && start < ranges[k].1 {
            return true;
        }
        k = k + 1;
    }
    false
}

/// The texts of a list of string slices.
pub open spec fn kinds_view(kinds: Seq<&str>) -> Seq<Seq<char>> {
    kinds.map_values(|k: &str| k@)
}

/// The texts of the literals among visited nodes (kind, start, end): nodes
/// of one of the literal kinds, within an assertion range, whose bytes lie
/// in the source and are UTF-8, and whose text is not a trivial literal.
pub open spec fn literal_texts(
    nodes: Seq<(Seq<char>, usize, usize)>,
    kinds: Seq<Seq<char>>,
    ranges: Seq<(usize, usize)>,
    source: Seq<u8>,
) -> Seq<Seq<char>>
    decreases nodes.len(),
{
    if nodes.len() == 0 {
        Seq::empty()
    } else {
        let (k, st, en) = nodes.last();
        literal_texts(nodes.drop_last(), kinds, ranges, source) + (if kinds.contains(k) && within_some(st, en, ranges)
            && st <= en <= source.len() && valid_utf8(source.subrange(st as int, en as int))
            && !trivial_literals().contains(decode_utf8(source.subrange(st as int, en as int))) {
            seq![decode_utf8(source.subrange(st as int, en as int))]
        } else {
            Seq::empty()
        })
    }
}

/// `r` is the largest number of times that any of the texts occurs (0 for
/// no text).
pub open spec fn max_repeat_is(texts: Seq<Seq<char>>, r: usize) -> bool {
    &&& texts.len() == 0 ==> r == 0
    &&& texts.len() > 0 ==> exists|i: int| 0 <= i < texts.len() && r == multiplicity(texts, #[trigger] texts[i])
    &&& forall|i: int| 0 <= i < texts.len() ==> multiplicity(texts, #[trigger] texts[i]) <= r
}

/// Visited nodes (kind, start, end) with their kinds as texts.
pub open spec fn nodes_view(nodes: Seq<(&str, usize, usize)>) -> Seq<(Seq<char>, usize, usize)> {
    nodes.map_values(|x: (&str, usize, usize)| (x.0@, x.1, x.2))
}

/// The largest number of times that a literal text (see `literal_texts`)
/// occurs among the visited nodes; 0 when there is none.
pub fn literal_repeats(nodes: &Vec<(&str, usize, usize)>, literal_kinds: &[&str], ranges: &Vec<(usize, usize)>, source: &[u8]) -> (r: usize)
    ensures
        max_repeat_is(literal_texts(nodes_view(nodes@), kinds_view(literal_kinds@), ranges@, source@), r),
{
    let ghost kv = kinds_view(literal_kinds@);
    let ghost nv = nodes_view(nodes@);
    let mut texts: Vec<String> = Vec::new();
    let n = nodes.len();
    let mut i: usize = 0;
    while i < n
        invariant
            n == nodes@.len(),
            i <= n,
            kv == kinds_view(literal_kinds@),
            nv == nodes_view(nodes@),
            strings_view(texts@) == literal_texts(nv.take(i as int), kv, ranges@, source@),
        decreases n - i,
    {
        assert(nv.take(i + 1).drop_last() =~= nv.take(i as int));
        assert(nv.take(i + 1).last() == nv[i as int]);
        let (k, st, en) = nodes[i];
        assert(nv[i as int] == (k@, st, en));
        let ghost before = texts@;
        if literal_in_assertion(k, literal_kinds, st, en, ranges) && st <= en && en <= source.len() {
            match utf8_text(source, st, en) {
                Some(text) => {
                    if !is_trivial_literal(text.as_str()) {
                        texts.push(text);
                        assert(strings_view(texts@) =~= strings_view(before).push(text@));
                    }
                },
                None => {},
            }
        }
        i = i + 1;
    }
    assert(nv.take(n as int) =~= nv);
    max_multiplicity(&texts)
}

/// A byte range overlaps one of the ranges.
pub open spec fn overlaps_some(start: usize, end: usize, ranges: Seq<(usize, usize)>) -> bool {
    exists|k: int| 0 <= k < ranges.len() && end > (#[trigger] ranges[k]).0 && start < ranges[k].1
}

/// The children of a node at the positions below `k`, in order (a position
/// at which the node gives no child adds none).
pub open spec fn children_below(n: tree_sitter::Node, k: nat) -> Seq<tree_sitter::Node>
    decreases k,
{
    if k == 0 {
        Seq::empty()
    } else {
        children_below(n, (k - 1) as nat) + match child_of(n, (k - 1) as usize) {
            Some(c) => seq![c],
            None => Seq::empty(),
        }
    }
}

/// The nodes (kind, start, end) that the walk for repeated literals visits
/// from a stack of nodes, taking at most `steps` nodes off it: the top node
/// is taken off; one that overlaps no range is passed over with its
/// subtree; any other is visited, and its children go on the stack, the
/// last child on top.
pub open spec fn literal_walk(stack: Seq<tree_sitter::Node>, steps: nat, ranges: Seq<(usize, usize)>) -> Seq<(Seq<char>, usize, usize)>
    decreases steps,
{
    if steps == 0 || stack.len() == 0 {
        Seq::empty()
    } else {
        let n = stack.last();
        let rest = stack.drop_last();
        if !overlaps_some(start_of(n), end_of(n), ranges) {
            literal_walk(rest, (steps - 1) as nat, ranges)
        } else {
            seq![(kind_of(n), start_of(n), end_of(n))] + literal_walk(
                rest + children_below(n, child_count_of(n) as nat),
                (steps - 1) as nat,
                ranges,
            )
        }
    }
}

/// The largest number of times that a non-trivial literal (a node of one of
/// `literal_kinds`) occurs inside the `@assertion` captures of
/// `assertion_query` over `node`; 0 without assertions.  The walk starts at
/// `node` and takes at most as many nodes as the tree reports in the
/// subtree (see `literal_walk`); `literal_repeats` counts what it visits.
/// `source` is the text of the tree, so it reaches to the end of the node.
pub fn count_duplicate_literals(assertion_query: &tree_sitter::Query, node: tree_sitter::Node, source: &[u8], literal_kinds: &[&str]) -> (r: usize)
    requires
        end_of(node) <= source@.len(),
    ensures
        ({
            let ranges = ranges_of(named_captures(capture_names_of(*assertion_query), "assertion"@, node_results(*assertion_query, node, source@)));
            &&& ranges.len() == 0 ==> r == 0
            &&& ranges.len() > 0 ==> max_repeat_is(
                literal_texts(literal_walk(seq![node], descendant_count_of(node) as nat, ranges), kinds_view(literal_kinds@), ranges, source@),
                r,
            )
        }),
{
    let ranges = collect_capture_ranges(assertion_query, "assertion", node, source);
    if ranges.len() == 0 {
        return 0;
    }
    let mut seen: Vec<(&str, usize, usize)> = Vec::new();
    let mut stack: Vec<tree_sitter::Node> = Vec::new();
    stack.push(node);
    let mut fuel = node_descendant_count(node);
    let ghost total = literal_walk(seq![node], fuel as nat, ranges@);
    assert(stack@ =~= seq![node]);
    assert(nodes_view(seen@) + total =~= total);
    while fuel > 0 && stack.len() > 0
        invariant
            nodes_view(seen@) + literal_walk(stack@, fuel as nat, ranges@) == total,
        decreases fuel,
    {
        let ghost old_stack = stack@;
        let ghost old_fuel = fuel;
        fuel = fuel - 1;
        let n = stack.pop().unwrap();
        assert(stack@ == old_stack.drop_last() && n == old_stack.last());
        let start = node_start(n);
        let end = node_end(n);
        if !overlaps_any(start, end, &ranges) {
            continue;
        }
        let ghost seen_before = seen@;
        seen.push((node_kind(n), start, end));
        assert(nodes_view(seen@) =~= nodes_view(seen_before).push((kind_of(n), start, end)));
        let count = node_child_count(n);
        let ghost rest = stack@;
        let mut i: usize = 0;
        while i < count
            invariant
                i <= count,
                count == child_count_of(n),
                stack@ == rest + children_below(n, i as nat),
            decreases count - i,
        {
            let ghost before = stack@;
            match node_child(n, i) {
                Some(c) => {
                    stack.push(c);
                    assert(stack@ =~= rest + children_below(n, (i + 1) as nat));
                },
                None => {
                    assert(stack@ =~= rest + children_below(n, (i + 1) as nat));
                },
            }
            i = i + 1;
        }
        assert(nodes_view(seen@) + literal_walk(stack@, fuel as nat, ranges@) =~= nodes_view(seen_before) + literal_walk(old_stack, old_fuel as nat, ranges@));
    }
    literal_repeats(&seen, literal_kinds, &ranges, source)
}


// ---------------------------------------------------------------------------
// Tracing assertions into helpers of the same file
// ---------------------------------------------------------------------------

/// The byte offsets at which the lines of a source start: 0, and one past
/// each newline.
pub open spec fn line_starts_of(source: Seq<u8>) -> Seq<usize>
    decreases source.len(),
{
    if source.len() == 0 {
        seq![0usize]
    } else {
        let prev = line_starts_of(source.drop_last());
        if source.last() == 10u8 {
            prev.push(source.len() as usize)
        } else {
            prev
        }
    }
}

/// The byte offsets at which the lines of a source start.
pub fn line_start_offsets(source: &[u8]) -> (r: Vec<usize>)
    ensures
        r@ == line_starts_of(source@),
{
    let mut r: Vec<usize> = Vec::new();
    r.push(0);
    let n = source.len();
    let mut i: usize = 0;
    assert(source@.take(0) =~= Seq::<u8>::empty());
    while i < n
        invariant
            n == source@.len(),
            i <= n,
            r@ == line_starts_of(source@.take(i as int)),
        decreases n - i,
    {
        assert(source@.take(i + 1).drop_last() =~= source@.take(i as int));
        if source[i] == 10u8 {
            r.push(i + 1);
        }
        i = i + 1;
    }
    assert(source@.take(n as int) =~= source@);
    r
}

/// The byte range of a function given by 1-based lines `line..=end_line`:
/// from the start of its first line to the start of the line after its last
/// (the end of the source when there is none).
pub open spec fn function_range(starts: Seq<usize>, line: usize, end_line: usize, source_len: usize) -> (usize, usize) {
    let si = if line >= 1 { line - 1 } else { 0 };
    let start = if si < starts.len() { starts[si] } else { 0 };
    let ei = if end_line <= starts.len() { end_line as int } else { starts.len() as int };
    let end = if ei < starts.len() { starts[ei] } else { source_len };
    (start, end)
}

pub fn function_byte_range(starts: &Vec<usize>, line: usize, end_line: usize, source_len: usize) -> (r: (usize, usize))
    ensures
        r == function_range(starts@, line, end_line, source_len),
{
    let si = if line >= 1 { line - 1 } else { 0 };
    let start = if si < starts.len() { starts[si] } else { 0 };
    let ei = if end_line <= starts.len() { end_line } else { starts.len() };
    let end = if ei < starts.len() { starts[ei] } else { source_len };
    (start, end)
}

/// The text of a capture, when it lies in the source and is valid UTF-8.
pub open spec fn capture_text(c: Capture, source: Seq<u8>) -> Option<Seq<char>> {
    if c.start <= c.end <= source.len() && valid_utf8(source.subrange(c.start as int, c.end as int)) {
        Some(decode_utf8(source.subrange(c.start as int, c.end as int)))
    } else {
        None
    }
}

/// The name that a definition match gives: the text of its last name capture.
pub open spec fn match_name(m: Seq<Capture>, name_idx: usize, source: Seq<u8>) -> Option<Seq<char>>
    decreases m.len(),
{
    if m.len() == 0 {
        None
    } else if m.last().index == name_idx {
        capture_text(m.last(), source)
    } else {
        match_name(m.drop_last(), name_idx, source)
    }
}

/// The body that a definition match gives: the range of its last body
/// capture.
pub open spec fn match_body(m: Seq<Capture>, name_idx: usize, body_idx: usize) -> Option<(usize, usize)>
    decreases m.len(),
{
    if m.len() == 0 {
        None
    } else if m.last().index != name_idx && m.last().index == body_idx {
        Some((m.last().start, m.last().end))
    } else {
        match_body(m.drop_last(), name_idx, body_idx)
    }
}

/// The definitions (name, body range) of the matches that give both, in order.
pub open spec fn definitions(ms: Seq<Seq<Capture>>, name_idx: usize, body_idx: usize, source: Seq<u8>) -> Seq<(Seq<char>, (usize, usize))>
    decreases ms.len(),
{
    if ms.len() == 0 {
        Seq::empty()
    } else {
        let prev = definitions(ms.drop_last(), name_idx, body_idx, source);
        match (match_name(ms.last(), name_idx, source), match_body(ms.last(), name_idx, body_idx)) {
            (Some(n), Some(r)) => prev.push((n, r)),
            _ => prev,
        }
    }
}

/// The position of the last definition of a name (a later definition
/// replaces an earlier one).
pub open spec fn last_definition_index(defs: Seq<(Seq<char>, (usize, usize))>, name: Seq<char>) -> Option<int>
    decreases defs.len(),
{
    if defs.len() == 0 {
        None
    } else if defs.last().0 == name {
        Some(defs.len() - 1)
    } else {
        last_definition_index(defs.drop_last(), name)
    }
}

fn definition_of_match(m: &Vec<Capture>, name_idx: usize, body_idx: usize, source: &[u8]) -> (r: (Option<String>, Option<(usize, usize)>))
    ensures
        match r.0 {
            Some(n) => match_name(m@, name_idx, source@) == Some(n@),
            None => match_name(m@, name_idx, source@) is None,
        },
        r.1 == match_body(m@, name_idx, body_idx),
{
    let mut name: Option<String> = None;
    let mut body: Option<(usize, usize)> = None;
    let n = m.len();
    let mut i: usize = 0;
    while i < n
        invariant
            n == m@.len(),
            i <= n,
            match name {
                Some(x) => match_name(m@.take(i as int), name_idx, source@) == Some(x@),
                None => match_name(m@.take(i as int), name_idx, source@) is None,
            },
            body == match_body(m@.take(i as int), name_idx, body_idx),
        decreases n - i,
    {
        assert(m@.take(i + 1).drop_last() =~= m@.take(i as int));
        let c = m[i];
        if c.index == name_idx {
            name = if c.start <= c.end && c.end <= source.len() {
                utf8_text(source, c.start, c.end)
            } else {
                None
            };
        } else if c.index == body_idx {
            body = Some((c.start, c.end));
        }
        i = i + 1;
    }
    assert(m@.take(n as int) =~= m@);
    (name, body)
}

pub open spec fn defs_view(d: Seq<(String, (usize, usize))>) -> Seq<(Seq<char>, (usize, usize))> {
    d.map_values(|e: (String, (usize, usize))| (e.0@, e.1))
}

/// The helper definitions found by the matches of a definition query.
pub fn helper_definitions(ms: &Vec<Vec<Capture>>, name_idx: usize, body_idx: usize, source: &[u8]) -> (r: Vec<(String, (usize, usize))>)
    ensures
        defs_view(r@) == definitions(matches_view(ms@), name_idx, body_idx, source@),
{
    let ghost mv = matches_view(ms@);
    let mut r: Vec<(String, (usize, usize))> = Vec::new();
    let n = ms.len();
    let mut i: usize = 0;
    while i < n
        invariant
            n == ms@.len(),
            mv == matches_view(ms@),
            i <= n,
            defs_view(r@) == definitions(mv.take(i as int), name_idx, body_idx, source@),
        decreases n - i,
    {
        assert(mv.take(i + 1).drop_last() =~= mv.take(i as int));
        assert(mv[i as int] == ms@[i as int]@);
        let (name, body) = definition_of_match(&ms[i], name_idx, body_idx, source);
        match (name, body) {
            (Some(nm), Some(b)) => {
                let ghost before = r@;
                r.push((nm, b));
                assert(defs_view(r@) =~= defs_view(before).push((nm@, b)));
            },
            _ => {},
        }
        i = i + 1;
    }
    assert(mv.take(n as int) =~= mv);
    r
}

/// The position of the last definition of a name.
pub fn definition_index(defs: &Vec<(String, (usize, usize))>, name: &String) -> (r: Option<usize>)
    ensures
        match r {
            Some(j) => j < defs@.len() && last_definition_index(defs_view(defs@), name@) == Some(j as int),
            None => last_definition_index(defs_view(defs@), name@) is None,
        },
{
    let ghost dv = defs_view(defs@);
    let mut k: usize = defs.len();
    assert(dv.take(k as int) =~= dv);
    while k > 0
        invariant
            k <= defs@.len(),
            dv == defs_view(defs@),
            last_definition_index(dv, name@) == last_definition_index(dv.take(k as int), name@),
        decreases k,
    {
        assert(dv.take(k as int).drop_last() =~= dv.take(k - 1));
        assert(dv.take(k as int).last() == (defs@[k - 1].0@, defs@[k - 1].1));
        if defs[k - 1].0 == *name {
            return Some(k - 1);
        }
        k = k - 1;
    }
    None
}

/// The assertion counts of the helpers that the called names define, in the
/// order of the names: for each name the count of its last definition; a
/// name without a definition gives none.
pub open spec fn called_counts(
    called: Seq<Seq<char>>,
    defs: Seq<(Seq<char>, (usize, usize))>,
    def_counts: Seq<usize>,
) -> Seq<usize>
    decreases called.len(),
{
    if called.len() == 0 {
        Seq::empty()
    } else {
        called_counts(called.drop_last(), defs, def_counts) + match last_definition_index(defs, called.last()) {
            Some(j) => seq![def_counts[j]],
            None => Seq::empty(),
        }
    }
}

/// The assertion counts of the helpers that the called names define, given
/// the count of each definition.
pub fn helper_counts(called: &Vec<String>, defs: &Vec<(String, (usize, usize))>, def_counts: &Vec<usize>) -> (r: Vec<usize>)
    requires
        def_counts@.len() == defs@.len(),
    ensures
        r@ == called_counts(strings_view(called@), defs_view(defs@), def_counts@),
{
    let ghost cv = strings_view(called@);
    let mut r: Vec<usize> = Vec::new();
    let n = called.len();
    let mut i: usize = 0;
    while i < n
        invariant
            n == called@.len(),
            cv == strings_view(called@),
            def_counts@.len() == defs@.len(),
            i <= n,
            r@ == called_counts(cv.take(i as int), defs_view(defs@), def_counts@),
        decreases n - i,
    {
        assert(cv.take(i + 1).drop_last() =~= cv.take(i as int));
        assert(cv[i as int] == called@[i as int]@);
        let ghost before = r@;
        match definition_index(defs, &called[i]) {
            Some(j) => {
                r.push(def_counts[j]);
                assert(r@ =~= before + seq![def_counts@[j as int]]);
            },
            None => {
                assert(r@ =~= before + Seq::<usize>::empty());
            },
        }
        i = i + 1;
    }
    assert(cv.take(n as int) =~= cv);
    r
}

/// The sum of the counts.
pub open spec fn total(counts: Seq<usize>) -> nat
    decreases counts.len(),
{
    if counts.len() == 0 {
        0
    } else {
        total(counts.drop_last()) + counts.last() as nat
    }
}

/// The sum of the counts, or `usize::MAX` where the sum does not fit.
pub fn saturating_total(counts: &Vec<usize>) -> (r: usize)
    ensures
        r == (if total(counts@) <= usize::MAX { total(counts@) } else { usize::MAX as nat }),
{
    let mut acc: usize = 0;
    let n = counts.len();
    let mut i: usize = 0;
    while i < n
        invariant
            n == counts@.len(),
            i <= n,
            acc == (if total(counts@.take(i as int)) <= usize::MAX { total(counts@.take(i as int)) } else { usize::MAX as nat }),
        decreases n - i,
    {
        assert(counts@.take(i + 1).drop_last() =~= counts@.take(i as int));
        acc = acc.saturating_add(counts[i]);
        i = i + 1;
    }
    assert(counts@.take(n as int) =~= counts@);
    acc
}

/// The names that the matches capture as `call_name`, as texts.
pub open spec fn called_names(names: Seq<Seq<char>>, ms: Seq<Seq<Capture>>, source: Seq<u8>) -> Set<Seq<char>> {
    capture_texts(named_captures(names, "call_name"@, ms), source).to_set()
}

/// The assertion count that helper tracing gives a test, given the call
/// query's capture names and its matches within the test, the helper
/// definitions and the assertion count of each: the sum, over the distinct
/// called names in sorted order, of the count of each name's last
/// definition (names without a definition add nothing), or `usize::MAX`
/// where the sum does not fit.
pub fn traced_count(
    call_names: &Vec<String>,
    call_matches: &Vec<Vec<Capture>>,
    defs: &Vec<(String, (usize, usize))>,
    def_counts: &Vec<usize>,
    source: &[u8],
) -> (r: usize)
    requires
        def_counts@.len() == defs@.len(),
    ensures
        exists|names: Seq<Seq<char>>| #![trigger called_counts(names, defs_view(defs@), def_counts@)] {
            &&& strictly_sorted(names)
            &&& names.to_set() == called_names(strings_view(call_names@), matches_view(call_matches@), source@)
            &&& r == (if total(called_counts(names, defs_view(defs@), def_counts@)) <= usize::MAX {
                total(called_counts(names, defs_view(defs@), def_counts@))
            } else {
                usize::MAX as nat
            })
        },
{
    let calls = select_named(call_names, "call_name", call_matches);
    let texts = texts_of(&calls, source);
    let called = sorted_names(texts);
    let counts = helper_counts(&called, defs, def_counts);
    let r = saturating_total(&counts);
    r
}

/// The helper definitions of a file: those that the matches of `def_query`
/// over the root give through its `def_name` and `def_body` captures; none
/// when the query lacks either capture.
pub open spec fn file_definitions(def_query: tree_sitter::Query, tree: &tree_sitter::Tree, source: Seq<u8>) -> Seq<(Seq<char>, (usize, usize))> {
    match (name_position(capture_names_of(def_query), "def_name"@, 0), name_position(capture_names_of(def_query), "def_body"@, 0)) {
        (Some(a), Some(b)) => definitions(node_results(def_query, root_of(tree), source), a as usize, b as usize, source),
        _ => Seq::empty(),
    }
}

/// The assertion count of a helper body: the `assertion` captures of
/// `assertion_query` over the smallest node that spans the body; 0 when
/// there is no such node or the source does not reach to its end.
pub open spec fn body_count(assertion_query: tree_sitter::Query, tree: &tree_sitter::Tree, body: (usize, usize), source: Seq<u8>) -> usize {
    match descendant_in(root_of(tree), body.0, body.1) {
        Some(b) => if end_of(b) <= source.len() {
            named_captures(capture_names_of(assertion_query), "assertion"@, node_results(assertion_query, b, source)).len() as usize
        } else {
            0
        },
        None => 0,
    }
}

/// The assertion count of each helper definition's body.
pub open spec fn definition_counts(
    assertion_query: tree_sitter::Query,
    tree: &tree_sitter::Tree,
    defs: Seq<(Seq<char>, (usize, usize))>,
    source: Seq<u8>,
) -> Seq<usize> {
    defs.map_values(|d: (Seq<char>, (usize, usize))| body_count(assertion_query, tree, d.1, source))
}

/// `r` is the assertion count that helper tracing gives a test whose call
/// query has the capture names and matches given: 0 without definitions;
/// else the sum, over the distinct `call_name` texts in sorted order, of
/// the count of each name's last definition (names without one add
/// nothing), or `usize::MAX` where the sum does not fit.
pub open spec fn traced_total_is(
    call_names: Seq<Seq<char>>,
    call_ms: Seq<Seq<Capture>>,
    defs: Seq<(Seq<char>, (usize, usize))>,
    def_counts: Seq<usize>,
    source: Seq<u8>,
    r: usize,
) -> bool {
    if defs.len() == 0 {
        r == 0
    } else {
        exists|names: Seq<Seq<char>>| #![trigger called_counts(names, defs, def_counts)] {
            &&& strictly_sorted(names)
            &&& names.to_set() == called_names(call_names, call_ms, source)
            &&& r == (if total(called_counts(names, defs, def_counts)) <= usize::MAX {
                total(called_counts(names, defs, def_counts))
            } else {
                usize::MAX as nat
            })
        }
    }
}

/// The function with the assertion count as the only possible change.
pub open spec fn differs_in_count_only(before: TestFunction, after: TestFunction) -> bool {
    after == with_assertion_count(before, after.analysis.assertion_count as int)
}

/// What helper tracing makes of a file's analysis (see
/// `apply_same_file_helper_tracing`): only the counts of the functions
/// without assertions change, and each becomes the traced count of its
/// lines.
pub open spec fn helper_traced(
    before: FileAnalysis,
    after: FileAnalysis,
    tree: &tree_sitter::Tree,
    source: Seq<u8>,
    call_query: tree_sitter::Query,
    def_query: tree_sitter::Query,
    assertion_query: tree_sitter::Query,
) -> bool {
    &&& after.file == before.file
    &&& after.has_pbt_import == before.has_pbt_import
    &&& after.has_contract_import == before.has_contract_import
    &&& after.has_error_test == before.has_error_test
    &&& after.has_relational_assertion == before.has_relational_assertion
    &&& after.parameterized_count == before.parameterized_count
    &&& after.functions@.len() == before.functions@.len()
    &&& forall|i: int| 0 <= i < before.functions@.len() ==> {
        &&& differs_in_count_only(before.functions@[i], #[trigger] after.functions@[i])
        &&& after.functions@[i].analysis.assertion_count >= before.functions@[i].analysis.assertion_count
        &&& (before.functions@[i].analysis.assertion_count > 0 ==> after.functions@[i] == before.functions@[i])
    }
    &&& forall|i: int| 0 <= i < before.functions@.len() && before.functions@[i].analysis.assertion_count == 0 ==> {
        let f = before.functions@[i];
        let range = function_range(line_starts_of(source), f.line, f.end_line, source.len() as usize);
        let defs = file_definitions(def_query, tree, source);
        traced_total_is(
            capture_names_of(call_query),
            range_results(call_query, root_of(tree), source, range.0, range.1),
            defs,
            definition_counts(assertion_query, tree, defs, source),
            source,
            #[trigger] after.functions@[i].analysis.assertion_count,
        )
    }
}

/// Traces, for each test function without assertions, the helpers of the
/// same file that it calls (one hop, each helper once), and adds the
/// assertions in their bodies to its count: its new count is the sum that
/// `traced_total_is` describes, over the call query's matches within the
/// test's lines, the file's helper definitions (`file_definitions`) and
/// their assertion counts (`definition_counts`).  Functions that have
/// assertions are untouched, no count goes down, and nothing else of the
/// file changes; missing captures, unknown helpers and undefined calls add
/// nothing.  `source` is the text of the tree.
pub fn apply_same_file_helper_tracing(
    analysis: &mut FileAnalysis,
    tree: &tree_sitter::Tree,
    source: &[u8],
    call_query: &tree_sitter::Query,
    def_query: &tree_sitter::Query,
    assertion_query: &tree_sitter::Query,
)
    requires
        end_of(root_of(tree)) <= source@.len(),
    ensures
        helper_traced(*old(analysis), *final(analysis), tree, source@, *call_query, *def_query, *assertion_query),
{
    let nf = analysis.functions.len();
    let mut any_zero = false;
    let mut q: usize = 0;
    while q < nf
        invariant
            nf == analysis.functions@.len(),
            q <= nf,
            !any_zero ==> forall|j: int| 0 <= j < q ==> (#[trigger] analysis.functions@[j]).analysis.assertion_count != 0,
        decreases nf - q,
    {
        if analysis.functions[q].analysis.assertion_count == 0 {
            any_zero = true;
        }
        q = q + 1;
    }
    if !any_zero {
        return;
    }
    let root = root_node(tree);
    let def_names = query_capture_names(def_query);
    let def_name_idx = match capture_index(&def_names, "def_name") {
        Some(i) => i,
        None => return,
    };
    let def_body_idx = match capture_index(&def_names, "def_body") {
        Some(i) => i,
        None => return,
    };
    let def_matches = query_matches(def_query, root, source);
    let defs = helper_definitions(&def_matches, def_name_idx, def_body_idx, source);
    if defs.len() == 0 {
        return;
    }
    let mut def_counts: Vec<usize> = Vec::new();
    let ghost dv = defs_view(defs@);
    let nd = defs.len();
    let mut k: usize = 0;
    while k < nd
        invariant
            nd == defs@.len(),
            dv == defs_view(defs@),
            k <= nd,
            root == root_of(tree),
            def_counts@.len() == k,
            forall|j: int| 0 <= j < k ==> def_counts@[j] == body_count(*assertion_query, tree, #[trigger] dv[j].1, source@),
        decreases nd - k,
    {
        let (body_start, body_end) = defs[k].1;
        assert(dv[k as int].1 == (body_start, body_end));
        let c = match descendant_for_range(root, body_start, body_end) {
            Some(body) => if node_end(body) <= source.len() {
                count_captures(assertion_query, "assertion", body, source)
            } else {
                0
            },
            None => 0,
        };
        def_counts.push(c);
        k = k + 1;
    }
    assert(def_counts@ =~= definition_counts(*assertion_query, tree, dv, source@));
    let starts = line_start_offsets(source);
    let call_names = query_capture_names(call_query);
    match capture_index(&call_names, "call_name") {
        Some(_) => {},
        None => {
            proof {
                let e = Seq::<Seq<char>>::empty();
                assert(e.to_set() =~= Set::<Seq<char>>::empty());
                assert(called_counts(e, dv, def_counts@) =~= Seq::<usize>::empty());
                assert(total(Seq::<usize>::empty()) == 0);
                assert(capture_texts(Seq::<Capture>::empty(), source@) =~= Seq::<Seq<char>>::empty());
                assert forall|ms: Seq<Seq<Capture>>| #[trigger] called_names(strings_view(call_names@), ms, source@) == e.to_set() by {
                    assert(named_captures(strings_view(call_names@), "call_name"@, ms) == Seq::<Capture>::empty());
                }
            }
            return;
        },
    }

    let mut funcs: Vec<TestFunction> = Vec::new();
    std::mem::swap(&mut funcs, &mut analysis.functions);
    let ghost old_funcs = funcs@;
    let mut out: Vec<TestFunction> = Vec::new();
    for f in it: funcs.into_iter()
        invariant
            it.seq() == old_funcs,
            def_counts@.len() == defs@.len(),
            dv == defs_view(defs@),
            dv == file_definitions(*def_query, tree, source@),
            dv.len() > 0,
            def_counts@ == definition_counts(*assertion_query, tree, dv, source@),
            strings_view(call_names@) == capture_names_of(*call_query),
            starts@ == line_starts_of(source@),
            root == root_of(tree),
            end_of(root) <= source@.len(),
            out@.len() == it.index(),
            forall|j: int| 0 <= j < it.index() ==> {
                &&& differs_in_count_only(old_funcs[j], #[trigger] out@[j])
                &&& out@[j].analysis.assertion_count >= old_funcs[j].analysis.assertion_count
                &&& (old_funcs[j].analysis.assertion_count > 0 ==> out@[j] == old_funcs[j])
            },
            forall|j: int| 0 <= j < it.index() && old_funcs[j].analysis.assertion_count == 0 ==> {
                let g = old_funcs[j];
                let range = function_range(line_starts_of(source@), g.line, g.end_line, source@.len() as usize);
                traced_total_is(
                    capture_names_of(*call_query),
                    range_results(*call_query, root_of(tree), source@, range.0, range.1),
                    dv,
                    def_counts@,
                    source@,
                    #[trigger] out@[j].analysis.assertion_count,
                )
            },
    {
        let mut f = f;
        let ghost before = f;
        if f.analysis.assertion_count == 0 {
            let (start_byte, end_byte) = function_byte_range(&starts, f.line, f.end_line, source.len());
            let call_matches = query_matches_in_range(call_query, root, source, start_byte, end_byte);
            f.analysis.assertion_count = traced_count(&call_names, &call_matches, &defs, &def_counts, source);
        }
        out.push(f);
    }
    analysis.functions = out;
}


// ---------------------------------------------------------------------------
// The queries where the source may not be the tree's text
// ---------------------------------------------------------------------------

/// `count_captures` where `source` reaches to the end of `node`, as the
/// text of its tree does; `None` where it does not.
pub fn count_captures_checked(query: &tree_sitter::Query, capture_name: &str, node: tree_sitter::Node, source: &[u8]) -> (r: Option<usize>)
    ensures
        r is Some <==> end_of(node) <= source@.len(),
        r matches Some(c) ==> c == named_captures(capture_names_of(*query), capture_name@, node_results(*query, node, source@)).len(),
{
    if node_end(node) <= source.len() {
        Some(count_captures(query, capture_name, node, source))
    } else {
        None
    }
}

/// `has_any_match` where `source` reaches to the end of `node`; `None`
/// where it does not.
pub fn has_any_match_checked(query: &tree_sitter::Query, capture_name: &str, node: tree_sitter::Node, source: &[u8]) -> (r: Option<bool>)
    ensures
        r is Some <==> end_of(node) <= source@.len(),
        r matches Some(b) ==> b == (named_captures(capture_names_of(*query), capture_name@, node_results(*query, node, source@)).len() > 0),
{
    if node_end(node) <= source.len() {
        Some(has_any_match(query, capture_name, node, source))
    } else {
        None
    }
}

/// `count_captures_within_context` where `source` reaches to the end of
/// `node`; `None` where it does not.
pub fn count_captures_within_context_checked(
    outer_query: &tree_sitter::Query,
    outer_capture: &str,
    inner_query: &tree_sitter::Query,
    inner_capture: &str,
    node: tree_sitter::Node,
    source: &[u8],
) -> (r: Option<usize>)
    ensures
        r is Some <==> end_of(node) <= source@.len(),
        r matches Some(c) ==> c == context_count(
            capture_names_of(*outer_query),
            outer_capture@,
            node_results(*outer_query, node, source@),
            capture_names_of(*inner_query),
            inner_capture@,
            node_results(*inner_query, node, source@),
        ),
{
    if node_end(node) <= source.len() {
        Some(count_captures_within_context(outer_query, outer_capture, inner_query, inner_capture, node, source))
    } else {
        None
    }
}

/// `count_duplicate_literals` where `source` reaches to the end of `node`;
/// `None` where it does not.
pub fn count_duplicate_literals_checked(assertion_query: &tree_sitter::Query, node: tree_sitter::Node, source: &[u8], literal_kinds: &[&str]) -> (r: Option<usize>)
    ensures
        r is Some <==> end_of(node) <= source@.len(),
        r matches Some(c) ==> ({
            let ranges = ranges_of(named_captures(capture_names_of(*assertion_query), "assertion"@, node_results(*assertion_query, node, source@)));
            &&& ranges.len() == 0 ==> c == 0
            &&& ranges.len() > 0 ==> max_repeat_is(
                literal_texts(literal_walk(seq![node], descendant_count_of(node) as nat, ranges), kinds_view(literal_kinds@), ranges, source@),
                c,
            )
        }),
{
    if node_end(node) <= source.len() {
        Some(count_duplicate_literals(assertion_query, node, source, literal_kinds))
    } else {
        None
    }
}

/// `collect_mock_class_names` where `source` reaches to the end of `node`;
/// `None` where it does not.
pub fn collect_mock_class_names_checked<F>(query: &tree_sitter::Query, node: tree_sitter::Node, source: &[u8], extract_name: F) -> (r: Option<Vec<String>>)
    where
        F: Fn(&str) -> String,
    requires
        forall|s: &str| extract_name.requires((s,)),
    ensures
        r is Some <==> end_of(node) <= source@.len(),
        r matches Some(v) ==> {
            &&& strictly_sorted(strings_view(v@))
            &&& exists|ys: Seq<String>| #![trigger strings_view(ys)] {
                &&& ys.len() == capture_texts(named_captures(capture_names_of(*query), "var_name"@, node_results(*query, node, source@)), source@).len()
                &&& forall|k: int| 0 <= k < ys.len() ==> #[trigger] name_given::<F>(
                    extract_name,
                    capture_texts(named_captures(capture_names_of(*query), "var_name"@, node_results(*query, node, source@)), source@)[k],
                    ys[k],
                )
                &&& strings_view(v@).to_set() == strings_view(ys).to_set()
            }
            &&& forall|k: int| 0 <= k < v@.len() ==> name_from::<F>(extract_name, (#[trigger] v@[k])@)
        },
{
    if node_end(node) <= source.len() {
        Some(collect_mock_class_names(query, node, source, extract_name))
    } else {
        None
    }
}

/// `apply_same_file_helper_tracing` where `source` reaches to the end of
/// the tree's root; where it does not, the analysis is left as it is and
/// the result is `false`.
pub fn apply_same_file_helper_tracing_checked(
    analysis: &mut FileAnalysis,
    tree: &tree_sitter::Tree,
    source: &[u8],
    call_query: &tree_sitter::Query,
    def_query: &tree_sitter::Query,
    assertion_query: &tree_sitter::Query,
) -> (r: bool)
    ensures
        r <==> end_of(root_of(tree)) <= source@.len(),
        r ==> helper_traced(*old(analysis), *final(analysis), tree, source@, *call_query, *def_query, *assertion_query),
        !r ==> *final(analysis) == *old(analysis),
{
    if node_end(root_node(tree)) <= source.len() {
        apply_same_file_helper_tracing(analysis, tree, source, call_query, def_query, assertion_query);
        true
    } else {
        false
    }
}

} // verus!
