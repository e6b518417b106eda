//! TypeScript path aliases (`compilerOptions.paths` of `tsconfig.json`).

use vstd::prelude::*;
use crate::json::{
    as_str, get_member, json_get, json_members_view, json_seq_view, json_str, json_view, lemma_members_index,
    lemma_members_len, lemma_seq_view, parse_json, parsed_json, Json, JsonValue,
};
use crate::paths::{joined_path, parent_path, path_join, path_parent};
use crate::text::{chars_of, chars_eq, find_chars, find_first, occurs_at, slice_chars, string_of, push_str, push_chars};

verus! {

/// A path alias: for `"@app/*": ["src/*"]` the prefix is `@app/`, the
/// suffix is empty, and the targets are `[("src/", "")]`.
#[derive(Debug, Clone)]
pub struct PathAlias {
    pub prefix: String,
    pub suffix: String,
    pub targets: Vec<(String, String)>,
}

pub struct PathAliasView {
    pub prefix: Seq<char>,
    pub suffix: Seq<char>,
    pub targets: Seq<(Seq<char>, Seq<char>)>,
}

pub open spec fn targets_view(t: Seq<(String, String)>) -> Seq<(Seq<char>, Seq<char>)> {
    t.map_values(|p: (String, String)| (p.0@, p.1@))
}

impl View for PathAlias {
    type V = PathAliasView;

    open spec fn view(&self) -> PathAliasView {
        PathAliasView { prefix: self.prefix@, suffix: self.suffix@, targets: targets_view(self.targets@) }
    }
}

pub open spec fn aliases_view(a: Seq<PathAlias>) -> Seq<PathAliasView> {
    a.map_values(|x: PathAlias| x@)
}

/// The path aliases of a `tsconfig.json`, with the directory that they are
/// relative to.
#[derive(Debug, Clone)]
pub struct TsconfigPaths {
    pub base_url: String,
    pub aliases: Vec<PathAlias>,
}

pub struct TsconfigView {
    pub base_url: Seq<char>,
    pub aliases: Seq<PathAliasView>,
}

impl View for TsconfigPaths {
    type V = TsconfigView;

    open spec fn view(&self) -> TsconfigView {
        TsconfigView { base_url: self.base_url@, aliases: aliases_view(self.aliases@) }
    }
}

// ---------------------------------------------------------------------------
// Splitting a pattern at its wildcard
// ---------------------------------------------------------------------------

/// A pattern split at its first `*` into what comes before and after it;
/// without a `*`, the whole pattern and the empty text.
pub open spec fn split_at_wildcard(p: Seq<char>) -> (Seq<char>, Seq<char>) {
    match find_first(p, seq!['*']) {
        Some(i) => (p.subrange(0, i), p.subrange(i + 1, p.len() as int)),
        None => (p, Seq::empty()),
    }
}

fn split_wildcard(pattern: &str) -> (r: (String, String))
    ensures
        (r.0@, r.1@) == split_at_wildcard(pattern@),
{
    let p = chars_of(pattern);
    let mut star: Vec<char> = Vec::new();
    star.push('*');
    assert(star@ =~= seq!['*']);
    match find_chars(&p, &star) {
        Some(i) => {
            proof {
                crate::text::lemma_find_first(p@, star@);
                assert(occurs_at(p@, star@, i as int));
                assert(i + 1 <= p@.len());
            }
            assert(i + 1 <= p.len());
            let a = slice_chars(&p, 0, i);
            let b = slice_chars(&p, i + 1, p.len());
            (string_of(&a), string_of(&b))
        },
        None => (String::from_str(pattern), String::new()),
    }
}

// ---------------------------------------------------------------------------
// Reading a tsconfig document
// ---------------------------------------------------------------------------

/// The texts among a list of JSON values, in order (others are skipped).
pub open spec fn string_items(a: Seq<Json>) -> Seq<Seq<char>>
    decreases a.len(),
{
    if a.len() == 0 {
        Seq::empty()
    } else {
        string_items(a.drop_last()) + (match a.last() {
            Json::Str(s) => seq![s],
            _ => Seq::empty(),
        })
    }
}

/// The alias of one member of `paths`: the member's name split at its
/// wildcard, and each string target split the same way.
pub open spec fn alias_of_member(name: Seq<char>, targets: Json) -> PathAliasView {
    let (prefix, suffix) = split_at_wildcard(name);
    PathAliasView {
        prefix: prefix,
        suffix: suffix,
        targets: match targets {
            Json::Array(a) => string_items(a).map_values(|t: Seq<char>| split_at_wildcard(t)),
            _ => Seq::empty(),
        },
    }
}

/// The aliases declared by `compilerOptions.paths`, in the order of its
/// members.
pub open spec fn declared_aliases(compiler_options: Json) -> Seq<PathAliasView> {
    match json_get(compiler_options, "paths"@) {
        Some(Json::Object(m)) => m.map_values(|e: (Seq<char>, Json)| alias_of_member(e.0, e.1)),
        _ => Seq::empty(),
    }
}

/// The prefixes of a list of aliases.
pub open spec fn prefixes(a: Seq<PathAliasView>) -> Seq<Seq<char>> {
    a.map_values(|x: PathAliasView| x.prefix)
}

/// The inherited aliases that the own ones do not override (same prefix),
/// followed by the own ones.
pub open spec fn merge_aliases(parent: Seq<PathAliasView>, child: Seq<PathAliasView>) -> Seq<PathAliasView> {
    parent.filter(|a: PathAliasView| !prefixes(child).contains(a.prefix)) + child
}

/// The path aliases of a tsconfig text in directory `dir`, given the aliases
/// inherited through `extends`: none when the text is not JSON, has no
/// `compilerOptions`, or no alias results.  The base directory is
/// `compilerOptions.baseUrl` joined to `dir`, or `dir` itself.
pub open spec fn tsconfig_of(text: Seq<char>, dir: Seq<char>, inherited: Seq<PathAliasView>) -> Option<TsconfigView> {
    match parsed_json(text) {
        None => None,
        Some(doc) => match json_get(doc, "compilerOptions"@) {
            None => None,
            Some(co) => {
                let base = match json_str(json_get(co, "baseUrl"@)) {
                    Some(b) => joined_path(dir, b),
                    None => dir,
                };
                let merged = merge_aliases(inherited, declared_aliases(co));
                if merged.len() == 0 {
                    None
                } else {
                    Some(TsconfigView { base_url: base, aliases: merged })
                }
            },
        },
    }
}

fn string_targets(v: &JsonValue) -> (r: Vec<(String, String)>)
    ensures
        targets_view(r@) == (match v@ {
            Json::Array(a) => string_items(a).map_values(|t: Seq<char>| split_at_wildcard(t)),
            _ => Seq::empty(),
        }),
{
    match v {
        JsonValue::Array(a) => {
            let ghost av = json_seq_view(a@);
            proof {
                lemma_seq_view(a@);
            }
            assert(v@ == Json::Array(av));
            let n = a.len();
            let mut r: Vec<(String, String)> = Vec::new();
            let mut i: usize = 0;
            while i < n
                invariant
                    n == a@.len(),
                    av == json_seq_view(a@),
                    av.len() == n,
                    forall|k: int| 0 <= k < n ==> av[k] == json_view(#[trigger] a@[k]),
                    i <= n,
                    targets_view(r@) == string_items(av.take(i as int)).map_values(|t: Seq<char>| split_at_wildcard(t)),
                decreases n - i,
            {
                let ghost before = r@;
                assert(av.take(i + 1).drop_last() =~= av.take(i as int));
                assert(av[i as int] == json_view(a@[i as int]));
                match &a[i] {
                    JsonValue::Str(s) => {
                        let t = split_wildcard(s.as_str());
                        r.push(t);
                        assert(targets_view(r@) =~= targets_view(before).push((t.0@, t.1@)));
                        assert(string_items(av.take(i + 1)) =~= string_items(av.take(i as int)).push(s@));
                        assert(string_items(av.take(i + 1)).map_values(|t: Seq<char>| split_at_wildcard(t)) =~=
                            string_items(av.take(i as int)).map_values(|t: Seq<char>| split_at_wildcard(t)).push(split_at_wildcard(s@)));
                    },
                    _ => {
                        assert(string_items(av.take(i + 1)) =~= string_items(av.take(i as int)));
                    },
                }
                i = i + 1;
            }
            assert(av.take(n as int) =~= av);
            r
        },
        _ => Vec::new(),
    }
}

fn declared(compiler_options: &JsonValue) -> (r: Vec<PathAlias>)
    ensures
        aliases_view(r@) == declared_aliases(compiler_options@),
{
    let paths = get_member(compiler_options, "paths");
    match paths {
        Some(JsonValue::Object(m)) => {
            let ghost mv = json_members_view(m@);
            proof {
                lemma_members_len(m@);
            }
            let n = m.len();
            let mut r: Vec<PathAlias> = Vec::new();
            let mut i: usize = 0;
            while i < n
                invariant
                    n == m@.len(),
                    mv == json_members_view(m@),
                    mv.len() == n,
                    i <= n,
                    aliases_view(r@) == mv.take(i as int).map_values(|e: (Seq<char>, Json)| alias_of_member(e.0, e.1)),
                decreases n - i,
            {
                proof {
                    lemma_members_index(m@, i as int);
                }
                let (prefix, suffix) = split_wildcard(m[i].0.as_str());
                let targets = string_targets(&m[i].1);
                let alias = PathAlias { prefix, suffix, targets };
                let ghost before = r@;
                r.push(alias);
                assert(aliases_view(r@) =~= aliases_view(before).push(alias_of_member(mv[i as int].0, mv[i as int].1)));
                assert(mv.take(i + 1).map_values(|e: (Seq<char>, Json)| alias_of_member(e.0, e.1)) =~=
                    mv.take(i as int).map_values(|e: (Seq<char>, Json)| alias_of_member(e.0, e.1)).push(alias_of_member(mv[i as int].0, mv[i as int].1)));
                i = i + 1;
            }
            assert(mv.take(n as int) =~= mv);
            r
        },
        _ => Vec::new(),
    }
}

fn has_prefix(aliases: &Vec<PathAlias>, prefix: &String) -> (r: bool)
    ensures
        r == prefixes(aliases_view(aliases@)).contains(prefix@),
{
    let ghost pv = prefixes(aliases_view(aliases@));
    let n = aliases.len();
    let mut i: usize = 0;
    while i < n
        invariant
            n == aliases.len(),
            i <= n,
            pv == prefixes(aliases_view(aliases@)),
            pv.len() == n,
            forall|j: int| 0 <= j < i ==> pv[j] != prefix@,
        decreases n - i,
    {
        assert(pv[i as int] == aliases@[i as int].prefix@);
        if aliases[i].prefix == *prefix {
            return true;
        }
        i = i + 1;
    }
    false
}

fn merge(parent: Vec<PathAlias>, child: Vec<PathAlias>) -> (r: Vec<PathAlias>)
    ensures
        aliases_view(r@) == merge_aliases(aliases_view(parent@), aliases_view(child@)),
{
    let ghost pv = aliases_view(parent@);
    let ghost cv = aliases_view(child@);
    let ghost keep = |a: PathAliasView| !prefixes(cv).contains(a.prefix);
    let mut merged: Vec<PathAlias> = Vec::new();
    for a in it: parent.into_iter()
        invariant
            it.seq() == parent@,
            pv == aliases_view(parent@),
            cv == aliases_view(child@),
            keep == (|a: PathAliasView| !prefixes(cv).contains(a.prefix)),
            aliases_view(merged@) == pv.take(it.index() as int).filter(keep),
    {
        let ghost k = it.index();
        proof {
            assert(pv.take(k + 1).drop_last() =~= pv.take(k as int));
            assert(pv[k as int] == parent@[k as int]@);
        }
        if !has_prefix(&child, &a.prefix) {
            let ghost before = merged@;
            merged.push(a);
            assert(aliases_view(merged@) =~= aliases_view(before).push(pv[k as int]));
        }
        proof {
            reveal_with_fuel(Seq::filter, 1);
        }
    }
    assert(pv.take(parent@.len() as int) =~= pv);
    let ghost before = merged@;
    let mut child = child;
    merged.append(&mut child);
    assert(aliases_view(merged@) =~= aliases_view(before) + cv);
    merged
}

/// A tsconfig gives no path aliases when its text is not JSON, when it has
/// no `compilerOptions`, or when it inherits no alias and declares none
/// (`paths` absent, not an object, or empty).
pub proof fn tsconfig_without_aliases(text: Seq<char>, dir: Seq<char>, inherited: Seq<PathAliasView>)
    ensures
        (match parsed_json(text) {
            None => true,
            Some(doc) => match json_get(doc, "compilerOptions"@) {
                None => true,
                Some(co) => inherited.len() == 0 && !(json_get(co, "paths"@) matches Some(Json::Object(m)) && m.len() > 0),
            },
        }) ==> tsconfig_of(text, dir, inherited) is None,
{
    if let Some(doc) = parsed_json(text) {
        if let Some(co) = json_get(doc, "compilerOptions"@) {
            if inherited.len() == 0 && !(json_get(co, "paths"@) matches Some(Json::Object(m)) && m.len() > 0) {
                assert(declared_aliases(co).len() == 0);
                let keep = |a: PathAliasView| !prefixes(declared_aliases(co)).contains(a.prefix);
                assert(inherited.filter(keep) =~= Seq::<PathAliasView>::empty()) by {
                    reveal_with_fuel(Seq::filter, 1);
                }
                assert(merge_aliases(inherited, declared_aliases(co)).len() == 0);
            }
        }
    }
}

/// Own aliases override inherited ones: own aliases all come last, in their
/// order; an inherited alias stays exactly when no own alias has its
/// prefix; and so each alias of the merge whose prefix an own alias has is
/// an own alias.
pub proof fn own_aliases_override(parent: Seq<PathAliasView>, child: Seq<PathAliasView>)
    ensures
        merge_aliases(parent, child).len() >= child.len(),
        merge_aliases(parent, child).subrange(
            merge_aliases(parent, child).len() - child.len(),
            merge_aliases(parent, child).len() as int,
        ) == child,
        forall|i: int| 0 <= i < parent.len() ==> (merge_aliases(parent, child).contains(#[trigger] parent[i])
            <== !prefixes(child).contains(parent[i].prefix)),
        forall|k: int| 0 <= k < merge_aliases(parent, child).len()
            && prefixes(child).contains((#[trigger] merge_aliases(parent, child)[k]).prefix)
            ==> child.contains(merge_aliases(parent, child)[k]),
{
    let keep = |a: PathAliasView| !prefixes(child).contains(a.prefix);
    let kept = parent.filter(keep);
    let m = merge_aliases(parent, child);
    assert(m == kept + child);
    assert(m.subrange(m.len() - child.len(), m.len() as int) =~= child);
    assert forall|i: int| 0 <= i < parent.len() && !prefixes(child).contains(parent[i].prefix)
        implies m.contains(#[trigger] parent[i]) by {
        assert(keep(parent[i]));
        parent.lemma_filter_contains(keep, i);
        let j = choose|j: int| 0 <= j < kept.len() && kept[j] == parent[i];
        assert(m[j] == parent[i]);
    }
    assert forall|k: int| 0 <= k < m.len() && prefixes(child).contains((#[trigger] m[k]).prefix)
        implies child.contains(m[k]) by {
        if k < kept.len() {
            parent.lemma_filter_pred(keep, k);
            assert(false);
        } else {
            assert(m[k] == child[k - kept.len()]);
        }
    }
}

impl TsconfigPaths {
    /// The path aliases of a tsconfig text in directory `tsconfig_dir`,
    /// given the aliases that it inherits through `extends` (see
    /// `tsconfig_of`).
    pub fn from_str_with(json: &str, tsconfig_dir: &str, inherited: Vec<PathAlias>) -> (r: Option<TsconfigPaths>)
        ensures
            match r {
                Some(t) => tsconfig_of(json@, tsconfig_dir@, aliases_view(inherited@)) == Some(t@),
                None => tsconfig_of(json@, tsconfig_dir@, aliases_view(inherited@)) is None,
            },
    {
        let doc = match parse_json(json) {
            Some(d) => d,
            None => return None,
        };
        let co = match get_member(&doc, "compilerOptions") {
            Some(c) => c,
            None => return None,
        };
        let base_url = match as_str(get_member(co, "baseUrl")) {
            Some(b) => path_join(tsconfig_dir, b.as_str()),
            None => String::from_str(tsconfig_dir),
        };
        let child = declared(co);
        let merged = merge(inherited, child);
        if merged.len() == 0 {
            return None;
        }
        Some(TsconfigPaths { base_url, aliases: merged })
    }
}


// ---------------------------------------------------------------------------
// `extends` chains
// ---------------------------------------------------------------------------

/// `p` begins with `q`.
pub open spec fn starts_with(p: Seq<char>, q: Seq<char>) -> bool {
    q.len() <= p.len() && p.subrange(0, q.len() as int) == q
}

/// `p` ends with `q`.
pub open spec fn ends_with(p: Seq<char>, q: Seq<char>) -> bool {
    q.len() <= p.len() && p.subrange(p.len() - q.len(), p.len() as int) == q
}

fn starts_with_exec(p: &Vec<char>, q: &str) -> (r: bool)
    ensures
        r == starts_with(p@, q@),
{
    let qv = chars_of(q);
    if qv.len() > p.len() {
        return false;
    }
    let head = slice_chars(p, 0, qv.len());
    chars_eq(&head, &qv)
}

/// The tsconfig that a tsconfig text in `dir` extends, at nesting `depth`:
/// only a relative `extends` (`./` or `../`) is followed, and only below
/// depth 3.  The result is the file to read and the directory of that file.
pub open spec fn extends_step(text: Seq<char>, dir: Seq<char>, depth: nat) -> Option<(Seq<char>, Seq<char>)> {
    if depth >= 3 {
        None
    } else {
        match parsed_json(text) {
            None => None,
            Some(doc) => match json_str(json_get(doc, "extends"@)) {
                None => None,
                Some(e) => if starts_with(e, "./"@) || starts_with(e, "../"@) {
                    let p = joined_path(dir, e);
                    Some((p, match parent_path(p) { Some(d) => d, None => dir }))
                } else {
                    None
                },
            },
        }
    }
}

/// The file that a tsconfig text extends and the directory of that file.
pub fn extends_file(json: &str, tsconfig_dir: &str, depth: usize) -> (r: Option<(String, String)>)
    ensures
        match r {
            Some(x) => extends_step(json@, tsconfig_dir@, depth as nat) == Some((x.0@, x.1@)),
            None => extends_step(json@, tsconfig_dir@, depth as nat) is None,
        },
{
    if depth >= 3 {
        return None;
    }
    let doc = match parse_json(json) {
        Some(d) => d,
        None => return None,
    };
    let e = match as_str(get_member(&doc, "extends")) {
        Some(e) => e,
        None => return None,
    };
    let ev = chars_of(e.as_str());
    if starts_with_exec(&ev, "./") || starts_with_exec(&ev, "../") {
        let p = path_join(tsconfig_dir, e.as_str());
        let d = match path_parent(p.as_str()) {
            Some(d) => d,
            None => String::from_str(tsconfig_dir),
        };
        Some((p, d))
    } else {
        None
    }
}

/// The aliases that level `k` of a chain inherits: those of level `k + 1`
/// (the file it extends), built with what that level inherits in turn;
/// none for the last level or a level without aliases.
pub open spec fn inherited_at(levels: Seq<(Seq<char>, Seq<char>)>, k: int) -> Seq<PathAliasView>
    decreases levels.len() - k,
{
    if k < 0 || k + 1 >= levels.len() {
        Seq::empty()
    } else {
        match tsconfig_of(levels[k + 1].0, levels[k + 1].1, inherited_at(levels, k + 1)) {
            Some(t) => t.aliases,
            None => Seq::empty(),
        }
    }
}

/// The `compilerOptions` of a level of a chain, when its text is JSON and
/// has them.
pub open spec fn level_options(level: (Seq<char>, Seq<char>)) -> Option<Json> {
    match parsed_json(level.0) {
        Some(doc) => json_get(doc, "compilerOptions"@),
        None => None,
    }
}

proof fn lemma_chain_keeps_alias(levels: Seq<(Seq<char>, Seq<char>)>, j: int, a: PathAliasView, k: int)
    requires
        0 <= k <= j < levels.len(),
        forall|i: int| 0 <= i <= j ==> (#[trigger] level_options(levels[i])) is Some,
        declared_aliases(level_options(levels[j])->Some_0).contains(a),
        forall|i: int| 0 <= i < j ==> !prefixes(declared_aliases((#[trigger] level_options(levels[i]))->Some_0)).contains(a.prefix),
    ensures
        tsconfig_of(levels[k].0, levels[k].1, inherited_at(levels, k)) matches Some(t) && t.aliases.contains(a),
    decreases j - k,
{
    assert(level_options(levels[k]) is Some);
    let doc = parsed_json(levels[k].0)->Some_0;
    let co = level_options(levels[k])->Some_0;
    let own = declared_aliases(co);
    let inh = inherited_at(levels, k);
    let keep = |x: PathAliasView| !prefixes(own).contains(x.prefix);
    let merged = merge_aliases(inh, own);
    assert(merged == inh.filter(keep) + own);
    if k == j {
        let idx = choose|idx: int| 0 <= idx < own.len() && own[idx] == a;
        assert(merged[inh.filter(keep).len() + idx] == a);
    } else {
        lemma_chain_keeps_alias(levels, j, a, k + 1);
        assert(inh == tsconfig_of(levels[k + 1].0, levels[k + 1].1, inherited_at(levels, k + 1))->Some_0.aliases);
        let idx = choose|idx: int| 0 <= idx < inh.len() && inh[idx] == a;
        assert(keep(a));
        inh.lemma_filter_contains(keep, idx);
        let f = inh.filter(keep);
        let m = choose|m: int| 0 <= m < f.len() && f[m] == a;
        assert(merged[m] == a);
    }
}

/// Aliases are inherited through the whole `extends` chain: an alias that
/// level `j` declares is among the aliases of the chain (the result of
/// level 0) when every level up to `j` has `compilerOptions` and no nearer
/// level declares an alias with its prefix.
pub proof fn chain_inherits_declared_aliases(levels: Seq<(Seq<char>, Seq<char>)>, j: int, a: PathAliasView)
    requires
        0 <= j < levels.len(),
        forall|i: int| 0 <= i <= j ==> (#[trigger] level_options(levels[i])) is Some,
        declared_aliases(level_options(levels[j])->Some_0).contains(a),
        forall|i: int| 0 <= i < j ==> !prefixes(declared_aliases((#[trigger] level_options(levels[i]))->Some_0)).contains(a.prefix),
    ensures
        tsconfig_of(levels[0].0, levels[0].1, inherited_at(levels, 0)) matches Some(t) && t.aliases.contains(a),
{
    lemma_chain_keeps_alias(levels, j, a, 0);
}

pub open spec fn levels_view(levels: Seq<(String, String)>) -> Seq<(Seq<char>, Seq<char>)> {
    levels.map_values(|l: (String, String)| (l.0@, l.1@))
}

impl TsconfigPaths {
    /// The path aliases of a chain of tsconfig files: `levels[0]` is the
    /// file asked for, and each next level holds the text and directory of
    /// the file that the previous one extends (see `extends_file`).  Own
    /// aliases override inherited ones with the same prefix.
    pub fn from_chain(levels: &[(String, String)]) -> (r: Option<TsconfigPaths>)
        requires
            levels@.len() >= 1,
        ensures
            match r {
                Some(t) => tsconfig_of(levels_view(levels@)[0].0, levels_view(levels@)[0].1,
                    inherited_at(levels_view(levels@), 0)) == Some(t@),
                None => tsconfig_of(levels_view(levels@)[0].0, levels_view(levels@)[0].1,
                    inherited_at(levels_view(levels@), 0)) is None,
            },
    {
        let ghost lv = levels_view(levels@);
        let n = levels.len();
        let mut inherited: Vec<PathAlias> = Vec::new();
        let mut k: usize = n - 1;
        loop
            invariant
                n == levels@.len(),
                n >= 1,
                k < n,
                lv == levels_view(levels@),
                aliases_view(inherited@) == inherited_at(lv, k as int),
            decreases k,
        {
            if k == 0 {
                return TsconfigPaths::from_str_with(levels[0].0.as_str(), levels[0].1.as_str(), inherited);
            }
            let cur = TsconfigPaths::from_str_with(levels[k].0.as_str(), levels[k].1.as_str(), inherited);
            inherited = match cur {
                Some(t) => t.aliases,
                None => Vec::new(),
            };
            k = k - 1;
        }
    }
}

// ---------------------------------------------------------------------------
// Resolving a specifier
// ---------------------------------------------------------------------------

/// What one alias makes of a specifier, if it applies: an exact alias (no
/// wildcard) maps the very specifier to its first target (unless that
/// target has a wildcard); a wildcard alias maps a specifier with its
/// prefix and suffix, putting the part in between into the first target.
pub open spec fn alias_resolution(base: Seq<char>, a: PathAliasView, spec: Seq<char>) -> Option<Seq<char>> {
    if a.suffix.len() == 0 && a.prefix == spec {
        if a.targets.len() > 0 && a.targets[0].1.len() == 0 {
            Some(joined_path(base, a.targets[0].0))
        } else {
            None
        }
    } else if a.prefix.len() > 0 && starts_with(spec, a.prefix) && ends_with(spec, a.suffix)
        && spec.len() >= a.prefix.len() + a.suffix.len() {
        let wildcard = spec.subrange(a.prefix.len() as int, spec.len() - a.suffix.len());
        if a.targets.len() > 0 {
            Some(joined_path(base, a.targets[0].0 + wildcard + a.targets[0].1))
        } else {
            None
        }
    } else {
        None
    }
}

/// The resolution by the first alias, from index `i` on, that applies.
pub open spec fn resolve_from(base: Seq<char>, aliases: Seq<PathAliasView>, spec: Seq<char>, i: int) -> Option<Seq<char>>
    decreases aliases.len() - i,
{
    if i < 0 || i >= aliases.len() {
        None
    } else {
        match alias_resolution(base, aliases[i], spec) {
            Some(r) => Some(r),
            None => resolve_from(base, aliases, spec, i + 1),
        }
    }
}

proof fn lemma_resolve_skips(base: Seq<char>, aliases: Seq<PathAliasView>, spec: Seq<char>, i: int, k: int)
    requires
        0 <= k <= i < aliases.len(),
        forall|j: int| 0 <= j < i ==> alias_resolution(base, #[trigger] aliases[j], spec) is None,
    ensures
        resolve_from(base, aliases, spec, k) == resolve_from(base, aliases, spec, i),
    decreases i - k,
{
    if k < i {
        lemma_resolve_skips(base, aliases, spec, i, k + 1);
    }
}

/// A wildcard alias resolves to its first target: when the aliases before
/// alias `i` resolve nothing, and alias `i` is a wildcard pattern
/// `prefix*suffix` (non-empty prefix; not an exact match of the whole
/// specifier) that the specifier matches, with at least one target
/// `(p0, s0)`, the specifier resolves to the base joined with `p0`, the
/// part of the specifier matched by `*`, and `s0`, whatever targets follow.
/// An exact alias whose first target has no wildcard resolves to the base
/// joined with that target.
pub proof fn alias_resolves_to_first_target(base: Seq<char>, aliases: Seq<PathAliasView>, spec: Seq<char>, i: int)
    requires
        0 <= i < aliases.len(),
        forall|j: int| 0 <= j < i ==> alias_resolution(base, #[trigger] aliases[j], spec) is None,
        aliases[i].targets.len() > 0,
    ensures
        ({
            let a = aliases[i];
            let p0 = a.targets[0].0;
            let s0 = a.targets[0].1;
            &&& !(a.suffix.len() == 0 && a.prefix == spec) && a.prefix.len() > 0
                && spec.len() >= a.prefix.len() + a.suffix.len()
                && spec.subrange(0, a.prefix.len() as int) == a.prefix
                && spec.subrange(spec.len() - a.suffix.len(), spec.len() as int) == a.suffix
                ==> resolve_from(base, aliases, spec, 0) == Some(joined_path(
                    base,
                    p0 + spec.subrange(a.prefix.len() as int, spec.len() - a.suffix.len()) + s0,
                ))
            &&& a.suffix.len() == 0 && a.prefix == spec && s0.len() == 0
                ==> resolve_from(base, aliases, spec, 0) == Some(joined_path(base, p0))
        }),
{
    lemma_resolve_skips(base, aliases, spec, i, 0);
}

fn resolve_one(base: &String, alias: &PathAlias, spec: &Vec<char>) -> (r: Option<String>)
    ensures
        match r {
            Some(x) => alias_resolution(base@, alias@, spec@) == Some(x@),
            None => alias_resolution(base@, alias@, spec@) is None,
        },
{
    let prefix = chars_of(alias.prefix.as_str());
    let suffix = chars_of(alias.suffix.as_str());
    let ghost tv = targets_view(alias.targets@);
    if suffix.len() == 0 && chars_eq(&prefix, spec) {
        if alias.targets.len() > 0 {
            assert(tv[0] == (alias.targets@[0].0@, alias.targets@[0].1@));
            if alias.targets[0].1.as_str().is_empty() {
                return Some(path_join(base.as_str(), alias.targets[0].0.as_str()));
            }
        }
        return None;
    }
    if prefix.len() > 0 && prefix.len() <= spec.len() && suffix.len() <= spec.len() - prefix.len() {
        let head = slice_chars(spec, 0, prefix.len());
        let tail = slice_chars(spec, spec.len() - suffix.len(), spec.len());
        if chars_eq(&head, &prefix) && chars_eq(&tail, &suffix) {
            let wildcard = slice_chars(spec, prefix.len(), spec.len() - suffix.len());
            if alias.targets.len() > 0 {
                assert(tv[0] == (alias.targets@[0].0@, alias.targets@[0].1@));
                let mut resolved = String::new();
                push_str(&mut resolved, alias.targets[0].0.as_str());
                push_chars(&mut resolved, &wildcard);
                push_str(&mut resolved, alias.targets[0].1.as_str());
                return Some(path_join(base.as_str(), resolved.as_str()));
            }
        }
    }
    None
}

impl TsconfigPaths {
    /// Resolves an import specifier with the first alias that applies.
    pub fn resolve_alias(&self, specifier: &str) -> (r: Option<String>)
        ensures
            match r {
                Some(x) => resolve_from(self.base_url@, aliases_view(self.aliases@), specifier@, 0) == Some(x@),
                None => resolve_from(self.base_url@, aliases_view(self.aliases@), specifier@, 0) is None,
            },
    {
        let ghost av = aliases_view(self.aliases@);
        let spec = chars_of(specifier);
        let n = self.aliases.len();
        let mut i: usize = 0;
        while i < n
            invariant
                n == self.aliases@.len(),
                av == aliases_view(self.aliases@),
                i <= n,
                spec@ == specifier@,
                resolve_from(self.base_url@, av, specifier@, 0) == resolve_from(self.base_url@, av, specifier@, i as int),
            decreases n - i,
        {
            assert(av[i as int] == self.aliases@[i as int]@);
            match resolve_one(&self.base_url, &self.aliases[i], &spec) {
                Some(r) => return Some(r),
                None => {},
            }
            i = i + 1;
        }
        None
    }
}

// ---------------------------------------------------------------------------
// Where to look for tsconfig.json
// ---------------------------------------------------------------------------

/// The places where `tsconfig.json` is looked for, starting in `dir` and
/// going up through its parents to the root (where `Path::parent` gives
/// none).
pub open spec fn tsconfig_search(dir: Seq<char>) -> Seq<Seq<char>>
    decreases dir.len(),
{
    seq![joined_path(dir, "tsconfig.json"@)] + match parent_path(dir) {
        Some(p) => if p.len() < dir.len() { tsconfig_search(p) } else { Seq::empty() },
        None => Seq::empty(),
    }
}

/// The candidate `tsconfig.json` paths for a start directory, in the order
/// in which they are tried: the directory itself and then each of its
/// ancestors up to the root.
pub fn tsconfig_candidates(start_dir: &str) -> (r: Vec<String>)
    ensures
        crate::text::strings_view(r@) == tsconfig_search(start_dir@),
{
    let mut r: Vec<String> = Vec::new();
    let mut current = String::from_str(start_dir);
    loop
        invariant
            tsconfig_search(start_dir@) == crate::text::strings_view(r@) + tsconfig_search(current@),
        decreases current@.len(),
    {
        let ghost before = r@;
        r.push(path_join(current.as_str(), "tsconfig.json"));
        assert(crate::text::strings_view(r@) =~= crate::text::strings_view(before).push(joined_path(current@, "tsconfig.json"@)));
        match path_parent(current.as_str()) {
            Some(p) => {
                assert(tsconfig_search(start_dir@) =~= crate::text::strings_view(r@) + tsconfig_search(p@));
                current = p;
            },
            None => {
                assert(tsconfig_search(start_dir@) =~= crate::text::strings_view(r@));
                return r;
            },
        }
    }
}

} // verus!
