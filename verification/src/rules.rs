//! Severities, rule identifiers, diagnostics, and the rules that turn the
//! analysis of test functions into diagnostics.

use vstd::prelude::*;
use crate::extractor::{TestAnalysis, TestFunction};
use crate::text::{decimal, push_decimal, push_str, str_eq};

verus! {

/// How serious a diagnostic is; `Block` fails a run, the others do not.
#[derive(Debug, Clone, Copy, PartialEq, Eq, Structural, PartialOrd, Ord, Hash)]
pub enum Severity {
    Info,
    Warn,
    Block,
}

/// The name of a severity as it is printed and parsed.
pub open spec fn severity_name(s: Severity) -> Seq<char> {
    match s {
        Severity::Block => "BLOCK"@,
        Severity::Warn => "WARN"@,
        Severity::Info => "INFO"@,
    }
}

/// The process exit code that a severity calls for.
pub open spec fn severity_exit_code(s: Severity) -> i32 {
    match s {
        Severity::Block => 1,
        Severity::Warn => 0,
        Severity::Info => 0,
    }
}

impl Severity {
    pub fn as_str(&self) -> (r: &'static str)
        ensures
            r@ == severity_name(*self),
    {
        match self {
            Severity::Block => "BLOCK",
            Severity::Warn => "WARN",
            Severity::Info => "INFO",
        }
    }

    pub fn exit_code(&self) -> (r: i32)
        ensures
            r == severity_exit_code(*self),
    {
        match self {
            Severity::Block => 1,
            Severity::Warn => 0,
            Severity::Info => 0,
        }
    }

    /// Parses the name of a severity; any other text is an error that
    /// quotes it.
    pub fn parse(s: &str) -> (r: Result<Severity, String>)
        ensures
            r matches Ok(v) ==> severity_name(v) == s@,
            r is Ok <==> (s@ == "BLOCK"@ || s@ == "WARN"@ || s@ == "INFO"@),
            r matches Err(e) ==> e@ == "unknown severity: "@ + s@,
    {
        if str_eq(s, "BLOCK") {
            Ok(Severity::Block)
        } else if str_eq(s, "WARN") {
            Ok(Severity::Warn)
        } else if str_eq(s, "INFO") {
            Ok(Severity::Info)
        } else {
            let mut e = String::new();
            push_str(&mut e, "unknown severity: ");
            push_str(&mut e, s);
            Err(e)
        }
    }
}

impl std::str::FromStr for Severity {
    type Err = String;

    fn from_str(s: &str) -> (r: Result<Self, Self::Err>)
        ensures
            r matches Ok(v) ==> severity_name(v) == s@,
            r is Ok <==> (s@ == "BLOCK"@ || s@ == "WARN"@ || s@ == "INFO"@),
            r matches Err(e) ==> e@ == "unknown severity: "@ + s@,
    {
        Severity::parse(s)
    }
}

/// The identifier of a rule, such as `T001`.
#[derive(Debug, Clone, PartialEq, Eq, Hash)]
pub struct RuleId(pub String);

impl View for RuleId {
    type V = Seq<char>;

    open spec fn view(&self) -> Seq<char> {
        self.0@
    }
}

impl RuleId {
    pub fn new(id: &str) -> (r: Self)
        ensures
            r@ == id@,
    {
        RuleId(String::from_str(id))
    }

    /// The identifier as text.
    pub fn to_string(&self) -> (r: String)
        ensures
            r@ == self@,
    {
        self.0.clone()
    }
}

/// A finding about a test function (`line` is `Some`) or a whole file.
#[derive(Debug, Clone)]
pub struct Diagnostic {
    pub rule: RuleId,
    pub severity: Severity,
    pub file: String,
    pub line: Option<usize>,
    pub message: String,
    pub details: Option<String>,
}

/// A diagnostic with its texts taken as character sequences.
pub struct DiagnosticView {
    pub rule: Seq<char>,
    pub severity: Severity,
    pub file: Seq<char>,
    pub line: Option<usize>,
    pub message: Seq<char>,
    pub details: Option<Seq<char>>,
}

impl View for Diagnostic {
    type V = DiagnosticView;

    open spec fn view(&self) -> DiagnosticView {
        DiagnosticView {
            rule: self.rule@,
            severity: self.severity,
            file: self.file@,
            line: self.line,
            message: self.message@,
            details: match self.details {
                Some(d) => Some(d@),
                None => None,
            },
        }
    }
}

/// The views of a sequence of diagnostics.
pub open spec fn diags_view(ds: Seq<Diagnostic>) -> Seq<DiagnosticView> {
    ds.map_values(|d: Diagnostic| d@)
}

/// The thresholds of the rules, and the rules that are switched off.
pub struct Config {
    pub mock_max: usize,
    pub mock_class_max: usize,
    pub test_max_lines: usize,
    pub disabled_rules: Vec<RuleId>,
}

impl Default for Config {
    fn default() -> (r: Self)
        ensures
            r.mock_max == 5,
            r.mock_class_max == 3,
            r.test_max_lines == 50,
            r.disabled_rules@.len() == 0,
    {
        Config { mock_max: 5, mock_class_max: 3, test_max_lines: 50, disabled_rules: Vec::new() }
    }
}

/// The identifiers in a list of rule ids.
pub open spec fn rule_ids(v: Seq<RuleId>) -> Seq<Seq<char>> {
    v.map_values(|r: RuleId| r@)
}

/// A rule applies to a function unless the configuration switches it off
/// or the function suppresses it.
pub open spec fn rule_applies(config: Config, a: TestAnalysis, id: Seq<char>) -> bool {
    !rule_ids(config.disabled_rules@).contains(id) && !rule_ids(a.suppressed_rules@).contains(id)
}

/// T001 fires on a test without assertions.
pub open spec fn t001_fires(f: TestFunction, config: Config) -> bool {
    rule_applies(config, f.analysis, "T001"@) && f.analysis.assertion_count == 0
}

/// T002 fires on a test with more mocks, or more mocked classes, than the
/// thresholds allow.
pub open spec fn t002_fires(f: TestFunction, config: Config) -> bool {
    rule_applies(config, f.analysis, "T002"@) && (f.analysis.mock_count > config.mock_max
        || f.analysis.mock_classes@.len() > config.mock_class_max)
}

/// T003 fires on a test longer than the threshold (strictly).
pub open spec fn t003_fires(f: TestFunction, config: Config) -> bool {
    rule_applies(config, f.analysis, "T003"@) && f.analysis.line_count > config.test_max_lines
}

pub open spec fn t002_message(f: TestFunction, config: Config) -> Seq<char> {
    "mock-overuse: "@ + decimal(f.analysis.mock_count as nat) + " mocks ("@
        + decimal(f.analysis.mock_classes@.len()) + " classes), threshold: "@
        + decimal(config.mock_max as nat) + " mocks / "@ + decimal(config.mock_class_max as nat)
        + " classes"@
}

pub open spec fn t003_message(f: TestFunction, config: Config) -> Seq<char> {
    "giant-test: "@ + decimal(f.analysis.line_count as nat) + " lines, threshold: "@
        + decimal(config.test_max_lines as nat)
}

pub open spec fn function_diag(f: TestFunction, id: Seq<char>, severity: Severity, message: Seq<char>) -> DiagnosticView {
    DiagnosticView {
        rule: id,
        severity: severity,
        file: f.file@,
        line: Some(f.line),
        message: message,
        details: None,
    }
}

/// The diagnostics of one function, in rule order.
pub open spec fn function_diagnostics(f: TestFunction, config: Config) -> Seq<DiagnosticView> {
    (if t001_fires(f, config) {
        seq![function_diag(f, "T001"@, Severity::Block, "assertion-free: test has no assertions"@)]
    } else {
        Seq::empty()
    }) + (if t002_fires(f, config) {
        seq![function_diag(f, "T002"@, Severity::Warn, t002_message(f, config))]
    } else {
        Seq::empty()
    }) + (if t003_fires(f, config) {
        seq![function_diag(f, "T003"@, Severity::Warn, t003_message(f, config))]
    } else {
        Seq::empty()
    })
}

/// The diagnostics of a list of functions: those of each function, in the
/// order of the functions.
pub open spec fn all_diagnostics(fs: Seq<TestFunction>, config: Config) -> Seq<DiagnosticView>
    decreases fs.len(),
{
    if fs.len() == 0 {
        Seq::empty()
    } else {
        all_diagnostics(fs.drop_last(), config) + function_diagnostics(fs.last(), config)
    }
}

fn contains_rule(ids: &Vec<RuleId>, id: &str) -> (r: bool)
    ensures
        r == rule_ids(ids@).contains(id@),
{
    let n = ids.len();
    let mut i: usize = 0;
    while i < n
        invariant
            n == ids.len(),
            i <= n,
            forall|j: int| 0 <= j < i ==> ids@[j]@ != id@,
        decreases n - i,
    {
        if str_eq(ids[i].0.as_str(), id) {
            assert(rule_ids(ids@)[i as int] == id@);
            return true;
        }
        i = i + 1;
    }
    assert forall|j: int| 0 <= j < rule_ids(ids@).len() implies rule_ids(ids@)[j] != id@ by {
        assert(rule_ids(ids@)[j] == ids@[j]@);
    }
    false
}

fn is_disabled(config: &Config, rule_id: &str) -> (r: bool)
    ensures
        r == rule_ids(config.disabled_rules@).contains(rule_id@),
{
    contains_rule(&config.disabled_rules, rule_id)
}

fn is_suppressed(analysis: &TestAnalysis, rule_id: &str) -> (r: bool)
    ensures
        r == rule_ids(analysis.suppressed_rules@).contains(rule_id@),
{
    contains_rule(&analysis.suppressed_rules, rule_id)
}

fn make_diag(func: &TestFunction, id: &str, severity: Severity, message: String) -> (d: Diagnostic)
    ensures
        d@ == function_diag(*func, id@, severity, message@),
{
    Diagnostic {
        rule: RuleId::new(id),
        severity: severity,
        file: func.file.clone(),
        line: Some(func.line),
        message: message,
        details: None,
    }
}

fn diagnostics_of(func: &TestFunction, config: &Config, out: &mut Vec<Diagnostic>)
    ensures
        diags_view(final(out)@) == diags_view(old(out)@) + function_diagnostics(*func, *config),
{
    let ghost start = diags_view(out@);
    let analysis = &func.analysis;
    if !is_disabled(config, "T001") && !is_suppressed(analysis, "T001") && analysis.assertion_count == 0 {
        let mut m = String::new();
        push_str(&mut m, "assertion-free: test has no assertions");
        let d = make_diag(func, "T001", Severity::Block, m);
        out.push(d);
    }
    let ghost after1 = diags_view(out@);
    assert(after1 =~= start + (if t001_fires(*func, *config) {
        seq![function_diag(*func, "T001"@, Severity::Block, "assertion-free: test has no assertions"@)]
    } else {
        Seq::empty()
    }));
    if !is_disabled(config, "T002") && !is_suppressed(analysis, "T002") && (analysis.mock_count
        > config.mock_max || analysis.mock_classes.len() > config.mock_class_max) {
        let mut m = String::new();
        push_str(&mut m, "mock-overuse: ");
        push_decimal(&mut m, analysis.mock_count);
        push_str(&mut m, " mocks (");
        push_decimal(&mut m, analysis.mock_classes.len());
        push_str(&mut m, " classes), threshold: ");
        push_decimal(&mut m, config.mock_max);
        push_str(&mut m, " mocks / ");
        push_decimal(&mut m, config.mock_class_max);
        push_str(&mut m, " classes");
        assert(m@ =~= t002_message(*func, *config));
        let d = make_diag(func, "T002", Severity::Warn, m);
        out.push(d);
    }
    let ghost after2 = diags_view(out@);
    assert(after2 =~= after1 + (if t002_fires(*func, *config) {
        seq![function_diag(*func, "T002"@, Severity::Warn, t002_message(*func, *config))]
    } else {
        Seq::empty()
    }));
    if !is_disabled(config, "T003") && !is_suppressed(analysis, "T003") && analysis.line_count
        > config.test_max_lines {
        let mut m = String::new();
        push_str(&mut m, "giant-test: ");
        push_decimal(&mut m, analysis.line_count);
        push_str(&mut m, " lines, threshold: ");
        push_decimal(&mut m, config.test_max_lines);
        assert(m@ =~= t003_message(*func, *config));
        let d = make_diag(func, "T003", Severity::Warn, m);
        out.push(d);
    }
    assert(diags_view(out@) =~= start + function_diagnostics(*func, *config));
}

/// Applies the rules T001 (no assertion, BLOCK), T002 (mock overuse, WARN)
/// and T003 (giant test, WARN) to each function, in order.
pub fn evaluate_rules(functions: &[TestFunction], config: &Config) -> (r: Vec<Diagnostic>)
    ensures
        diags_view(r@) == all_diagnostics(functions@, *config),
{
    let mut diagnostics: Vec<Diagnostic> = Vec::new();
    let n = functions.len();
    let mut i: usize = 0;
    while i < n
        invariant
            n == functions@.len(),
            i <= n,
            diags_view(diagnostics@) == all_diagnostics(functions@.take(i as int), *config),
        decreases n - i,
    {
        assert(functions@.take(i + 1).drop_last() =~= functions@.take(i as int));
        diagnostics_of(&functions[i], config, &mut diagnostics);
        i = i + 1;
    }
    assert(functions@.take(n as int) =~= functions@);
    diagnostics
}


// ---------------------------------------------------------------------------
// Laws
// ---------------------------------------------------------------------------

/// Each severity prints as one of `BLOCK`, `WARN`, `INFO`, and no two
/// severities print alike: the printed name of a severity parses back to
/// that very severity.
pub proof fn severity_name_round_trip(s: Severity, t: Severity)
    ensures
        severity_name(s) == "BLOCK"@ || severity_name(s) == "WARN"@ || severity_name(s) == "INFO"@,
        severity_name(s) == severity_name(t) ==> s == t,
{
    reveal_strlit("BLOCK");
    reveal_strlit("WARN");
    reveal_strlit("INFO");
    if severity_name(s) == severity_name(t) && s != t {
        assert(severity_name(s).len() != severity_name(t).len() || severity_name(s)[0] != severity_name(t)[0]);
    }
}

/// The diagnostics that one test function gets, from its analysis and the
/// configuration: T001 exactly when it has no assertion; T002 exactly when
/// it has more mocks than `mock_max` or more mocked classes than
/// `mock_class_max`; T003 exactly when it has more lines than
/// `test_max_lines`; each only when the configuration does not disable the
/// rule and the function does not suppress it.  T001 is a block, T002 and
/// T003 are warnings that give the counts and the thresholds, and every
/// diagnostic points at the function.
pub proof fn rules_fire_on_thresholds(f: TestFunction, config: Config)
    ensures
        ({
            let ds = all_diagnostics(seq![f], config);
            let a = f.analysis;
            let off = rule_ids(config.disabled_rules@);
            let sup = rule_ids(a.suppressed_rules@);
            &&& (exists|k: int| 0 <= k < ds.len() && (#[trigger] ds[k]).rule == "T001"@)
                <==> (!off.contains("T001"@) && !sup.contains("T001"@) && a.assertion_count == 0)
            &&& (exists|k: int| 0 <= k < ds.len() && (#[trigger] ds[k]).rule == "T002"@)
                <==> (!off.contains("T002"@) && !sup.contains("T002"@)
                    && (a.mock_count > config.mock_max || a.mock_classes@.len() > config.mock_class_max))
            &&& (exists|k: int| 0 <= k < ds.len() && (#[trigger] ds[k]).rule == "T003"@)
                <==> (!off.contains("T003"@) && !sup.contains("T003"@) && a.line_count > config.test_max_lines)
            &&& forall|k: int| 0 <= k < ds.len() ==> {
                &&& (#[trigger] ds[k]).file == f.file@
                &&& ds[k].line == Some(f.line)
                &&& (ds[k].rule == "T001"@ ==> ds[k].severity == Severity::Block)
                &&& (ds[k].rule == "T002"@ || ds[k].rule == "T003"@ ==> ds[k].severity == Severity::Warn)
                &&& (ds[k].rule == "T001"@ || ds[k].rule == "T002"@ || ds[k].rule == "T003"@)
                &&& (ds[k].rule == "T002"@ ==> ds[k].message == "mock-overuse: "@ + decimal(a.mock_count as nat)
                    + " mocks ("@ + decimal(a.mock_classes@.len()) + " classes), threshold: "@
                    + decimal(config.mock_max as nat) + " mocks / "@ + decimal(config.mock_class_max as nat) + " classes"@)
                &&& (ds[k].rule == "T003"@ ==> ds[k].message == "giant-test: "@ + decimal(a.line_count as nat)
                    + " lines, threshold: "@ + decimal(config.test_max_lines as nat))
            }
        }),
{
    reveal_strlit("T001");
    reveal_strlit("T002");
    reveal_strlit("T003");
    let ds = all_diagnostics(seq![f], config);
    assert(seq![f].drop_last() =~= Seq::<TestFunction>::empty());
    assert(seq![f].last() == f);
    assert(all_diagnostics(Seq::<TestFunction>::empty(), config) =~= Seq::<DiagnosticView>::empty());
    assert(ds =~= function_diagnostics(f, config));
    let d1 = function_diag(f, "T001"@, Severity::Block, "assertion-free: test has no assertions"@);
    let d2 = function_diag(f, "T002"@, Severity::Warn, t002_message(f, config));
    let d3 = function_diag(f, "T003"@, Severity::Warn, t003_message(f, config));
    let p1: Seq<DiagnosticView> = if t001_fires(f, config) { seq![d1] } else { Seq::empty() };
    let p2: Seq<DiagnosticView> = if t002_fires(f, config) { seq![d2] } else { Seq::empty() };
    let p3: Seq<DiagnosticView> = if t003_fires(f, config) { seq![d3] } else { Seq::empty() };
    assert(ds =~= p1 + p2 + p3);
    assert("T001"@ != "T002"@ && "T001"@ != "T003"@ && "T002"@ != "T003"@) by {
        assert("T001"@[3] != "T002"@[3]);
        assert("T001"@[3] != "T003"@[3]);
        assert("T002"@[3] != "T003"@[3]);
    }
    assert forall|k: int| 0 <= k < ds.len() implies ds[k] == d1 || ds[k] == d2 || ds[k] == d3 by {
        if k < p1.len() {
            assert(ds[k] == p1[k]);
        } else if k < p1.len() + p2.len() {
            assert(ds[k] == p2[k - p1.len()]);
        } else {
            assert(ds[k] == p3[k - p1.len() - p2.len()]);
        }
    }
    if t001_fires(f, config) {
        assert(ds[0] == d1);
    }
    if t002_fires(f, config) {
        assert(ds[p1.len() as int] == d2);
    }
    if t003_fires(f, config) {
        assert(ds[(p1.len() + p2.len()) as int] == d3);
    }
}

/// The diagnostics of a list of functions are those of its first part
/// followed by those of the rest.
pub proof fn diagnostics_of_concatenation(a: Seq<TestFunction>, b: Seq<TestFunction>, config: Config)
    ensures
        all_diagnostics(a + b, config) == all_diagnostics(a, config) + all_diagnostics(b, config),
    decreases b.len(),
{
    if b.len() == 0 {
        assert(a + b =~= a);
        assert(all_diagnostics(a, config) + all_diagnostics(b, config) =~= all_diagnostics(a, config));
    } else {
        diagnostics_of_concatenation(a, b.drop_last(), config);
        assert((a + b).drop_last() =~= a + b.drop_last());
        assert((a + b).last() == b.last());
        assert(all_diagnostics(a + b, config) =~= all_diagnostics(a, config) + all_diagnostics(b, config));
    }
}

/// A rule that the configuration switches off is never reported.
pub proof fn disabled_rule_never_reported(fs: Seq<TestFunction>, config: Config, id: Seq<char>)
    requires
        rule_ids(config.disabled_rules@).contains(id),
    ensures
        forall|k: int| 0 <= k < all_diagnostics(fs, config).len() ==> (#[trigger] all_diagnostics(fs, config)[k]).rule != id,
    decreases fs.len(),
{
    if fs.len() > 0 {
        disabled_rule_never_reported(fs.drop_last(), config, id);
        let prev = all_diagnostics(fs.drop_last(), config);
        let own = function_diagnostics(fs.last(), config);
        assert forall|k: int| 0 <= k < all_diagnostics(fs, config).len() implies (#[trigger] all_diagnostics(fs, config)[k]).rule != id by {
            if k >= prev.len() {
                assert(all_diagnostics(fs, config)[k] == own[k - prev.len()]);
            }
        }
    }
}

/// A rule that a test function suppresses is never reported for it.
pub proof fn suppressed_rule_never_reported(f: TestFunction, config: Config, id: Seq<char>)
    requires
        rule_ids(f.analysis.suppressed_rules@).contains(id),
    ensures
        forall|k: int| 0 <= k < function_diagnostics(f, config).len() ==> (#[trigger] function_diagnostics(f, config)[k]).rule != id,
{
}

/// Every diagnostic of the rules is about one of the test functions: its
/// file and line are those of the function, and it has no details.
pub proof fn diagnostics_point_at_functions(fs: Seq<TestFunction>, config: Config)
    ensures
        forall|k: int| 0 <= k < all_diagnostics(fs, config).len() ==> exists|i: int| 0 <= i < fs.len()
            && (#[trigger] all_diagnostics(fs, config)[k]).file == fs[i].file@
            && all_diagnostics(fs, config)[k].line == Some(fs[i].line)
            && all_diagnostics(fs, config)[k].details is None,
    decreases fs.len(),
{
    if fs.len() > 0 {
        diagnostics_point_at_functions(fs.drop_last(), config);
        let prev = all_diagnostics(fs.drop_last(), config);
        let own = function_diagnostics(fs.last(), config);
        assert forall|k: int| 0 <= k < all_diagnostics(fs, config).len() implies exists|i: int| 0 <= i < fs.len()
            && (#[trigger] all_diagnostics(fs, config)[k]).file == fs[i].file@
            && all_diagnostics(fs, config)[k].line == Some(fs[i].line)
            && all_diagnostics(fs, config)[k].details is None by {
            if k < prev.len() {
                let i = choose|i: int| 0 <= i < fs.drop_last().len() && prev[k].file == fs.drop_last()[i].file@
                    && prev[k].line == Some(fs.drop_last()[i].line) && prev[k].details is None;
                assert(fs[i] == fs.drop_last()[i]);
            } else {
                assert(all_diagnostics(fs, config)[k] == own[k - prev.len()]);
                assert(fs[fs.len() - 1] == fs.last());
            }
        }
    }
}

/// A test with no assertion is always reported as blocking (rule T001),
/// unless T001 is switched off or suppressed; the other rules only warn.
pub proof fn assertion_free_test_blocks(f: TestFunction, config: Config)
    ensures
        (f.analysis.assertion_count == 0 && rule_applies(config, f.analysis, "T001"@)) <==>
            exists|k: int| 0 <= k < function_diagnostics(f, config).len()
                && (#[trigger] function_diagnostics(f, config)[k]).severity == Severity::Block,
        forall|k: int| 0 <= k < function_diagnostics(f, config).len() ==>
            ((#[trigger] function_diagnostics(f, config)[k]).severity == Severity::Block) == (function_diagnostics(f, config)[k].rule == "T001"@),
{
    reveal_strlit("T001");
    reveal_strlit("T002");
    reveal_strlit("T003");
    let ds = function_diagnostics(f, config);
    if f.analysis.assertion_count == 0 && rule_applies(config, f.analysis, "T001"@) {
        assert(ds[0].severity == Severity::Block);
    }
    assert("T002"@[3] != "T001"@[3]);
    assert("T003"@[3] != "T001"@[3]);
}

} // verus!
