//! Rendering of the diagnostics of a run, its score, and its exit code.

use vstd::prelude::*;
use crate::rules::{all_diagnostics, diags_view, severity_exit_code, severity_name, Diagnostic, DiagnosticView, Severity};
use crate::text::{chars_of, chars_eq, decimal, push_chars, push_decimal, push_str};

verus! {

/// The formats in which a run can be reported.
#[derive(Debug, Clone, Copy, PartialEq, Eq, Structural)]
pub enum OutputFormat {
    Terminal,
    Json,
    Sarif,
    AiPrompt,
}

/// The report format that a `--format` value asks for: `json` for JSON,
/// anything else for the terminal.
pub fn report_format(name: &str) -> (r: OutputFormat)
    ensures
        name@ == "json"@ ==> r == OutputFormat::Json,
        name@ != "json"@ ==> r == OutputFormat::Terminal,
{
    if crate::text::str_eq(name, "json") {
        OutputFormat::Json
    } else {
        OutputFormat::Terminal
    }
}

/// The version printed in reports.
pub const VERSION: &'static str = "0.1.0";

/// The guidance printed when no test file was found.
pub const GUIDANCE: &'static str = "No test files found. Check --lang filter or run from a directory containing test files.";

/// The guidance printed when no test file was found, as text.
pub open spec fn guidance_text() -> Seq<char> {
    GUIDANCE@
}

/// The number of diagnostics of a given severity.
pub open spec fn count_severity(ds: Seq<DiagnosticView>, s: Severity) -> nat
    decreases ds.len(),
{
    if ds.len() == 0 {
        0
    } else {
        count_severity(ds.drop_last(), s) + (if ds.last().severity == s { 1nat } else { 0nat })
    }
}

/// The (file, line) of a function-level diagnostic.
pub open spec fn diag_key(d: DiagnosticView) -> (Seq<char>, usize) {
    (d.file, d.line->Some_0)
}

/// The functions that some diagnostic is about, as (file, line) pairs;
/// file-level diagnostics (no line) are not counted.
pub open spec fn violated_functions(ds: Seq<DiagnosticView>) -> Set<(Seq<char>, usize)> {
    Set::new(|k: (Seq<char>, usize)| exists|i: int| 0 <= i < ds.len() && ds[i].line is Some && #[trigger] diag_key(ds[i]) == k)
}

/// The number of tests without any diagnostic: the functions minus the
/// distinct functions that have one, never below zero.
pub open spec fn pass_count(ds: Seq<DiagnosticView>, function_count: nat) -> nat {
    let v = violated_functions(ds).len();
    if function_count >= v { (function_count - v) as nat } else { 0 }
}

fn count_of_severity(diagnostics: &[Diagnostic], s: Severity) -> (r: usize)
    ensures
        r == count_severity(diags_view(diagnostics@), s),
{
    let n = diagnostics.len();
    let mut c: usize = 0;
    let mut i: usize = 0;
    while i < n
        invariant
            n == diagnostics@.len(),
            i <= n,
            c == count_severity(diags_view(diagnostics@.take(i as int)), s),
            c <= i,
        decreases n - i,
    {
        assert(diags_view(diagnostics@.take(i + 1)).drop_last() =~= diags_view(diagnostics@.take(i as int)));
        if diagnostics[i].severity == s {
            c = c + 1;
        }
        i = i + 1;
    }
    assert(diagnostics@.take(n as int) =~= diagnostics@);
    c
}

/// Whether the (file, line) key is among the seen ones.
fn seen_contains(seen: &Vec<(Vec<char>, usize)>, file: &Vec<char>, line: usize) -> (r: bool)
    ensures
        r == seen@.map_values(|p: (Vec<char>, usize)| (p.0@, p.1)).contains((file@, line)),
{
    let ghost sv = seen@.map_values(|p: (Vec<char>, usize)| (p.0@, p.1));
    let n = seen.len();
    let mut i: usize = 0;
    while i < n
        invariant
            n == seen.len(),
            i <= n,
            sv == seen@.map_values(|p: (Vec<char>, usize)| (p.0@, p.1)),
            forall|j: int| 0 <= j < i ==> sv[j] != (file@, line),
        decreases n - i,
    {
        if seen[i].1 == line && chars_eq(&seen[i].0, file) {
            assert(sv[i as int] == (file@, line));
            return true;
        }
        assert(sv[i as int] == (seen@[i as int].0@, seen@[i as int].1));
        i = i + 1;
    }
    false
}

proof fn lemma_violated_step(ds: Seq<DiagnosticView>, i: int)
    requires
        0 <= i < ds.len(),
    ensures
        ds[i].line is Some ==> violated_functions(ds.take(i + 1)) == violated_functions(ds.take(i)).insert(diag_key(ds[i])),
        ds[i].line is None ==> violated_functions(ds.take(i + 1)) == violated_functions(ds.take(i)),
{
    let prefix = ds.take(i);
    let next = ds.take(i + 1);
    let extra = if ds[i].line is Some { violated_functions(prefix).insert(diag_key(ds[i])) } else { violated_functions(prefix) };
    assert forall|k: (Seq<char>, usize)| violated_functions(next).contains(k) implies extra.contains(k) by {
        let j = choose|j: int| 0 <= j < next.len() && next[j].line is Some && #[trigger] diag_key(next[j]) == k;
        if j < i {
            assert(prefix[j] == next[j]);
            assert(violated_functions(prefix).contains(k));
        }
    }
    assert forall|k: (Seq<char>, usize)| extra.contains(k) implies violated_functions(next).contains(k) by {
        if violated_functions(prefix).contains(k) {
            let j = choose|j: int| 0 <= j < prefix.len() && prefix[j].line is Some && #[trigger] diag_key(prefix[j]) == k;
            assert(prefix[j] == next[j]);
        } else {
            assert(next[i] == ds[i]);
            assert(diag_key(next[i]) == k);
        }
    }
    assert(violated_functions(next) =~= extra);
}

/// Count of the distinct functions that have a diagnostic.
fn count_violated_functions(diagnostics: &[Diagnostic]) -> (r: usize)
    ensures
        r == violated_functions(diags_view(diagnostics@)).len(),
{
    let ghost ds = diags_view(diagnostics@);
    let n = diagnostics.len();
    let mut seen: Vec<(Vec<char>, usize)> = Vec::new();
    let mut i: usize = 0;
    while i < n
        invariant
            n == diagnostics@.len(),
            i <= n,
            ds == diags_view(diagnostics@),
            seen@.len() <= i,
            seen@.map_values(|p: (Vec<char>, usize)| (p.0@, p.1)).no_duplicates(),
            seen@.map_values(|p: (Vec<char>, usize)| (p.0@, p.1)).to_set() == violated_functions(ds.take(i as int)),
        decreases n - i,
    {
        let ghost sv = seen@.map_values(|p: (Vec<char>, usize)| (p.0@, p.1));
        let ghost prefix = ds.take(i as int);
        let ghost next = ds.take(i + 1);
        match diagnostics[i].line {
            Some(l) => {
                let f = chars_of(diagnostics[i].file.as_str());
                if !seen_contains(&seen, &f, l) {
                    seen.push((f, l));
                    assert(seen@.map_values(|p: (Vec<char>, usize)| (p.0@, p.1)) =~= sv.push((f@, l)));
                }
                let ghost sv2 = seen@.map_values(|p: (Vec<char>, usize)| (p.0@, p.1));
                proof {
                    lemma_violated_step(ds, i as int);
                    let x = (f@, l);
                    assert forall|a: (Seq<char>, usize)| sv2.contains(a) <==> (sv.contains(a) || a == x) by {
                        if sv2 =~= sv.push(x) {
                            if sv2.contains(a) {
                                let j = choose|j: int| 0 <= j < sv2.len() && sv2[j] == a;
                                if j < sv.len() {
                                    assert(sv[j] == a);
                                }
                            }
                            if sv.contains(a) {
                                let j = choose|j: int| 0 <= j < sv.len() && sv[j] == a;
                                assert(sv2[j] == a);
                            }
                            if a == x {
                                assert(sv2[sv.len() as int] == a);
                            }
                        }
                    }
                    assert(sv2.to_set() =~= sv.to_set().insert(x));
                }
            },
            None => {
                proof {
                    lemma_violated_step(ds, i as int);
                }
            },
        }
        i = i + 1;
    }
    assert(ds.take(n as int) =~= ds);
    proof {
        seen@.map_values(|p: (Vec<char>, usize)| (p.0@, p.1)).unique_seq_to_set();
    }
    seen.len()
}

/// The numbers that summarize a run.
#[derive(Debug, Clone, Copy, PartialEq, Eq, Structural)]
pub struct Summary {
    pub files: usize,
    pub functions: usize,
    pub block: usize,
    pub warn: usize,
    pub info: usize,
    pub pass: usize,
}

/// The summary of a run: the counts per severity and the tests that pass.
pub fn summarize(diagnostics: &[Diagnostic], file_count: usize, function_count: usize) -> (r: Summary)
    ensures
        r.files == file_count,
        r.functions == function_count,
        r.block == count_severity(diags_view(diagnostics@), Severity::Block),
        r.warn == count_severity(diags_view(diagnostics@), Severity::Warn),
        r.info == count_severity(diags_view(diagnostics@), Severity::Info),
        r.pass == pass_count(diags_view(diagnostics@), function_count as nat),
{
    let block = count_of_severity(diagnostics, Severity::Block);
    let warn = count_of_severity(diagnostics, Severity::Warn);
    let info = count_of_severity(diagnostics, Severity::Info);
    let violated = count_violated_functions(diagnostics);
    let pass = function_count.saturating_sub(violated);
    Summary { files: file_count, functions: function_count, block, warn, info, pass }
}

/// The report line of one diagnostic:
/// `SEVERITY file[:line] RULE message`.
pub open spec fn diagnostic_line(d: DiagnosticView) -> Seq<char> {
    severity_name(d.severity) + " "@ + d.file + (match d.line {
        Some(l) => ":"@ + decimal(l as nat),
        None => Seq::empty(),
    }) + " "@ + d.rule + " "@ + d.message
}

/// The header line of the terminal report.
pub open spec fn header_line(file_count: nat, function_count: nat) -> Seq<char> {
    "exspec v"@ + VERSION@ + " -- "@ + decimal(file_count) + " test files, "@ + decimal(function_count)
        + " test functions"@
}

/// The score line of the terminal report.
pub open spec fn score_line(ds: Seq<DiagnosticView>, function_count: nat) -> Seq<char> {
    "Score: BLOCK "@ + decimal(count_severity(ds, Severity::Block)) + " | WARN "@ + decimal(
        count_severity(ds, Severity::Warn),
    ) + " | INFO "@ + decimal(count_severity(ds, Severity::Info)) + " | PASS "@ + decimal(
        pass_count(ds, function_count),
    )
}

/// The lines of the terminal report: header, guidance when no file was
/// found, one line per diagnostic, and the score.
pub open spec fn terminal_lines(ds: Seq<DiagnosticView>, file_count: nat, function_count: nat) -> Seq<Seq<char>> {
    seq![header_line(file_count, function_count)] + (if file_count == 0 {
        seq![guidance_text()]
    } else {
        Seq::empty()
    }) + ds.map_values(|d: DiagnosticView| diagnostic_line(d)) + seq![score_line(ds, function_count)]
}

/// Lines joined with `\n` between them.
pub open spec fn join_lines(ls: Seq<Seq<char>>) -> Seq<char>
    decreases ls.len(),
{
    if ls.len() == 0 {
        Seq::empty()
    } else if ls.len() == 1 {
        ls[0]
    } else {
        join_lines(ls.drop_last()) + "\n"@ + ls.last()
    }
}

/// Appends a line to a text of `count` lines joined with `\n`.
fn push_line(out: &mut String, line: &String, nonempty: bool, ghost_lines: Ghost<Seq<Seq<char>>>)
    requires
        old(out)@ == join_lines(ghost_lines@),
        nonempty == (ghost_lines@.len() > 0),
    ensures
        final(out)@ == join_lines(ghost_lines@.push(line@)),
{
    let ghost ls = ghost_lines@;
    if nonempty {
        push_str(out, "\n");
    }
    push_str(out, line.as_str());
    assert(ls.push(line@).drop_last() =~= ls);
    if !nonempty {
        assert(out@ =~= line@);
    }
}

fn render_diagnostic(d: &Diagnostic) -> (r: String)
    ensures
        r@ == diagnostic_line(d@),
{
    let mut s = String::new();
    push_str(&mut s, d.severity.as_str());
    push_str(&mut s, " ");
    push_str(&mut s, d.file.as_str());
    match d.line {
        Some(l) => {
            push_str(&mut s, ":");
            push_decimal(&mut s, l);
        },
        None => {},
    }
    push_str(&mut s, " ");
    push_str(&mut s, d.rule.0.as_str());
    push_str(&mut s, " ");
    push_str(&mut s, d.message.as_str());
    assert(s@ =~= diagnostic_line(d@));
    s
}

/// The terminal report of a run.
pub fn format_terminal(diagnostics: &[Diagnostic], file_count: usize, function_count: usize) -> (r: String)
    ensures
        r@ == join_lines(terminal_lines(diags_view(diagnostics@), file_count as nat, function_count as nat)),
{
    let ghost ds = diags_view(diagnostics@);
    let ghost all = terminal_lines(ds, file_count as nat, function_count as nat);
    let mut out = String::new();
    let ghost mut lines: Seq<Seq<char>> = Seq::empty();

    let mut header = String::new();
    push_str(&mut header, "exspec v");
    push_str(&mut header, VERSION);
    push_str(&mut header, " -- ");
    push_decimal(&mut header, file_count);
    push_str(&mut header, " test files, ");
    push_decimal(&mut header, function_count);
    push_str(&mut header, " test functions");
    assert(header@ =~= header_line(file_count as nat, function_count as nat));
    push_line(&mut out, &header, false, Ghost(lines));
    proof { lines = lines.push(header@); }

    if file_count == 0 {
        let mut g = String::new();
        push_str(&mut g, GUIDANCE);
        push_line(&mut out, &g, true, Ghost(lines));
        proof { lines = lines.push(g@); }
    }
    let ghost first = lines;
    let n = diagnostics.len();
    let mut i: usize = 0;
    while i < n
        invariant
            n == diagnostics@.len(),
            ds == diags_view(diagnostics@),
            i <= n,
            lines.len() >= 1,
            out@ == join_lines(lines),
            lines == first + ds.take(i as int).map_values(|d: DiagnosticView| diagnostic_line(d)),
        decreases n - i,
    {
        let line = render_diagnostic(&diagnostics[i]);
        push_line(&mut out, &line, true, Ghost(lines));
        proof {
            assert(ds[i as int] == diagnostics@[i as int]@);
            assert(ds.take(i + 1).map_values(|d: DiagnosticView| diagnostic_line(d)) =~=
                ds.take(i as int).map_values(|d: DiagnosticView| diagnostic_line(d)).push(diagnostic_line(ds[i as int])));
            lines = lines.push(line@);
        }
        i = i + 1;
    }
    assert(ds.take(n as int) =~= ds);
    let s = summarize(diagnostics, file_count, function_count);
    let mut score = String::new();
    push_str(&mut score, "Score: BLOCK ");
    push_decimal(&mut score, s.block);
    push_str(&mut score, " | WARN ");
    push_decimal(&mut score, s.warn);
    push_str(&mut score, " | INFO ");
    push_decimal(&mut score, s.info);
    push_str(&mut score, " | PASS ");
    push_decimal(&mut score, s.pass);
    assert(score@ =~= score_line(ds, function_count as nat));
    push_line(&mut out, &score, true, Ghost(lines));
    proof {
        lines = lines.push(score@);
        assert(lines =~= all);
    }
    out
}

/// Whether some diagnostic has the given severity.
pub open spec fn has_severity(ds: Seq<Diagnostic>, s: Severity) -> bool {
    exists|i: int| 0 <= i < ds.len() && #[trigger] ds[i].severity == s
}

/// The exit code of a run: 1 when some diagnostic blocks, or, in strict
/// mode, when some diagnostic warns; 0 otherwise.
pub open spec fn exit_code_of(ds: Seq<Diagnostic>, strict: bool) -> i32 {
    if has_severity(ds, Severity::Block) || (strict && has_severity(ds, Severity::Warn)) {
        1
    } else {
        0
    }
}

pub fn compute_exit_code(diagnostics: &[Diagnostic], strict: bool) -> (r: i32)
    ensures
        r == exit_code_of(diagnostics@, strict),
{
    let n = diagnostics.len();
    let mut i: usize = 0;
    while i < n
        invariant
            n == diagnostics@.len(),
            i <= n,
            forall|j: int| 0 <= j < i ==> diagnostics@[j].severity != Severity::Block,
        decreases n - i,
    {
        if diagnostics[i].severity == Severity::Block {
            return 1;
        }
        i = i + 1;
    }
    if strict {
        let mut k: usize = 0;
        while k < n
            invariant
                n == diagnostics@.len(),
                k <= n,
                strict,
                forall|j: int| 0 <= j < k ==> diagnostics@[j].severity != Severity::Warn,
            decreases n - k,
        {
            if diagnostics[k].severity == Severity::Warn {
                assert(diagnostics@[k as int].severity == Severity::Warn);
                return 1;
            }
            k = k + 1;
        }
    }
    0
}


// ---------------------------------------------------------------------------
// Laws
// ---------------------------------------------------------------------------

/// The terminal report has the guidance line exactly when no test file
/// was found: no other line of it (the header, a diagnostic, the score)
/// is the guidance.
pub proof fn guidance_only_without_files(ds: Seq<DiagnosticView>, file_count: nat, function_count: nat)
    ensures
        terminal_lines(ds, file_count, function_count).contains(guidance_text()) <==> file_count == 0,
{
    let ls = terminal_lines(ds, file_count, function_count);
    let g = guidance_text();
    reveal_strlit("No test files found. Check --lang filter or run from a directory containing test files.");
    reveal_strlit("exspec v");
    reveal_strlit("Score: BLOCK ");
    reveal_strlit("BLOCK");
    reveal_strlit("WARN");
    reveal_strlit("INFO");
    assert(g[0] == 'N');
    let mid: Seq<Seq<char>> = if file_count == 0 { seq![g] } else { Seq::empty() };
    let dl = ds.map_values(|d: DiagnosticView| diagnostic_line(d));
    let h = header_line(file_count, function_count);
    let sc = score_line(ds, function_count);
    assert(h[0] == 'e');
    assert(sc[0] == 'S');
    assert forall|k: int| 0 <= k < dl.len() implies (#[trigger] dl[k])[0] != 'N' by {
        let d = ds[k];
        assert(dl[k] == diagnostic_line(d));
        assert(diagnostic_line(d)[0] == severity_name(d.severity)[0]);
    }
    assert(ls =~= seq![h] + mid + dl + seq![sc]);
    if file_count == 0 {
        assert(ls[1] == g);
    } else {
        assert forall|k: int| 0 <= k < ls.len() implies ls[k] != g by {
            if k == 0 {
                assert(ls[k] == h);
            } else if k < ls.len() - 1 {
                assert(ls[k] == dl[k - 1]);
            } else {
                assert(ls[k] == sc);
            }
        }
    }
}

/// The exit code is 0 or 1; strict mode fails every run that the default
/// mode fails; outside strict mode a run fails exactly when one of its
/// diagnostics has a severity whose own exit code is 1; and a run without
/// diagnostics never fails.
pub proof fn exit_code_laws(ds: Seq<Diagnostic>)
    ensures
        exit_code_of(ds, false) == 0 || exit_code_of(ds, false) == 1,
        exit_code_of(ds, true) == 0 || exit_code_of(ds, true) == 1,
        exit_code_of(ds, false) <= exit_code_of(ds, true),
        (exit_code_of(ds, false) == 1) <==> exists|i: int| 0 <= i < ds.len() && severity_exit_code(#[trigger] ds[i].severity) == 1,
        ds.len() == 0 ==> exit_code_of(ds, true) == 0,
{
    if exit_code_of(ds, false) == 1 {
        let i = choose|i: int| 0 <= i < ds.len() && #[trigger] ds[i].severity == Severity::Block;
        assert(severity_exit_code(ds[i].severity) == 1);
    }
    if exists|i: int| 0 <= i < ds.len() && severity_exit_code(#[trigger] ds[i].severity) == 1 {
        let i = choose|i: int| 0 <= i < ds.len() && severity_exit_code(#[trigger] ds[i].severity) == 1;
        assert(ds[i].severity == Severity::Block);
    }
}

/// Every diagnostic is counted under exactly one severity.
pub proof fn severity_counts_partition(ds: Seq<DiagnosticView>)
    ensures
        count_severity(ds, Severity::Block) + count_severity(ds, Severity::Warn) + count_severity(ds, Severity::Info) == ds.len(),
    decreases ds.len(),
{
    if ds.len() > 0 {
        severity_counts_partition(ds.drop_last());
    }
}

/// The functions that have a diagnostic lie among the keys of the
/// diagnostics; so they are finitely many, at most one per diagnostic.
pub proof fn violated_functions_bounded(ds: Seq<DiagnosticView>)
    ensures
        violated_functions(ds).finite(),
        violated_functions(ds).len() <= ds.len(),
{
    let keys = ds.map_values(|d: DiagnosticView| diag_key(d));
    assert forall|k: (Seq<char>, usize)| violated_functions(ds).contains(k) implies keys.to_set().contains(k) by {
        let i = choose|i: int| 0 <= i < ds.len() && ds[i].line is Some && #[trigger] diag_key(ds[i]) == k;
        assert(keys[i] == k);
    }
    keys.lemma_cardinality_of_set();
    vstd::set_lib::lemma_len_subset(violated_functions(ds), keys.to_set());
}

/// The tests that pass are never more than the functions; together with
/// the functions that have a diagnostic they make up all functions (when
/// those are not more than the functions); and diagnostics about whole
/// files leave every function passing.
pub proof fn pass_count_laws(ds: Seq<DiagnosticView>, function_count: nat)
    ensures
        pass_count(ds, function_count) <= function_count,
        violated_functions(ds).len() <= function_count ==>
            pass_count(ds, function_count) + violated_functions(ds).len() == function_count,
        (forall|i: int| 0 <= i < ds.len() ==> (#[trigger] ds[i]).line is None) ==> pass_count(ds, function_count) == function_count,
{
    if forall|i: int| 0 <= i < ds.len() ==> (#[trigger] ds[i]).line is None {
        assert(violated_functions(ds) =~= Set::<(Seq<char>, usize)>::empty());
    }
}

/// For the diagnostics of the rules, the functions that have one are among
/// the analysed functions, so the tests that pass and the tests that do not
/// add up to the number of functions.
pub proof fn rules_pass_count(fs: Seq<crate::extractor::TestFunction>, config: crate::rules::Config)
    ensures
        violated_functions(all_diagnostics(fs, config)).len() <= fs.len(),
        pass_count(all_diagnostics(fs, config), fs.len()) + violated_functions(all_diagnostics(fs, config)).len() == fs.len(),
{
    let ds = all_diagnostics(fs, config);
    let keys = fs.map_values(|f: crate::extractor::TestFunction| (f.file@, f.line));
    crate::rules::diagnostics_point_at_functions(fs, config);
    assert forall|k: (Seq<char>, usize)| violated_functions(ds).contains(k) implies keys.to_set().contains(k) by {
        let j = choose|j: int| 0 <= j < ds.len() && ds[j].line is Some && #[trigger] diag_key(ds[j]) == k;
        let i = choose|i: int| 0 <= i < fs.len() && (#[trigger] ds[j]).file == fs[i].file@ && ds[j].line == Some(fs[i].line)
            && ds[j].details is None;
        assert(keys[i] == k);
    }
    keys.lemma_cardinality_of_set();
    vstd::set_lib::lemma_len_subset(violated_functions(ds), keys.to_set());
    pass_count_laws(ds, fs.len() as nat);
}

} // verus!
