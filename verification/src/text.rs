//! Character-level text utilities with exact specifications.
//!
//! Strings are reasoned about through their view, the sequence of their
//! characters.  The specifications here say what the standard operations
//! that the analyzer relies on (`trim`, `split`, `lines`, `find`, `contains`,
//! decimal formatting) compute, and the executable functions are proved
//! against them.

use vstd::prelude::*;

verus! {

// ---------------------------------------------------------------------------
// Building strings
// ---------------------------------------------------------------------------

/// Appends one character to a `String` (`String::push`).
#[verifier::external_body]
pub(crate) fn push_char(s: &mut String, c: char)
    ensures
        final(s)@ == old(s)@.push(c),
{
    s.push(c);
}

/// The characters of a string slice, in order.
pub fn chars_of(s: &str) -> (v: Vec<char>)
    ensures
        v@ == s@,
{
    let mut v: Vec<char> = Vec::new();
    for c in it: s.chars()
        invariant
            v@ == it.seq().take(it.index() as int),
            it.seq() == s@,
    {
        v.push(c);
    }
    v
}

/// Appends the characters of `v` to `s`.
pub fn push_chars(s: &mut String, v: &Vec<char>)
    ensures
        final(s)@ == old(s)@ + v@,
{
    let n = v.len();
    let mut i: usize = 0;
    while i < n
        invariant
            n == v.len(),
            i <= n,
            s@ == old(s)@ + v@.take(i as int),
        decreases n - i,
    {
        push_char(s, v[i]);
        i = i + 1;
        assert(v@.take(i as int) =~= v@.take((i - 1) as int).push(v@[i - 1]));
    }
    assert(v@.take(n as int) =~= v@);
}

/// A `String` holding exactly the characters of `v`.
pub fn string_of(v: &Vec<char>) -> (s: String)
    ensures
        s@ == v@,
{
    let mut s = String::new();
    push_chars(&mut s, v);
    assert(Seq::<char>::empty() + v@ =~= v@);
    s
}

/// Appends a string slice to `s`.
pub fn push_str(s: &mut String, t: &str)
    ensures
        final(s)@ == old(s)@ + t@,
{
    s.append(t);
}

/// Equality of two string slices, character by character.
pub fn str_eq(a: &str, b: &str) -> (r: bool)
    ensures
        r == (a@ == b@),
{
    let x = String::from_str(a);
    let y = String::from_str(b);
    x == y
}

/// Equality of two character sequences.
pub fn chars_eq(a: &Vec<char>, b: &Vec<char>) -> (r: bool)
    ensures
        r == (a@ == b@),
{
    if a.len() != b.len() {
        return false;
    }
    let n = a.len();
    let mut i: usize = 0;
    while i < n
        invariant
            n == a.len(),
            n == b.len(),
            i <= n,
            forall|j: int| 0 <= j < i ==> a@[j] == b@[j],
        decreases n - i,
    {
        if a[i] != b[i] {
            return false;
        }
        i = i + 1;
    }
    assert(a@ =~= b@);
    true
}


/// The characters of `v` from index `from` up to, not including, `to`.
pub fn slice_chars(v: &Vec<char>, from: usize, to: usize) -> (r: Vec<char>)
    requires
        from <= to <= v@.len(),
    ensures
        r@ == v@.subrange(from as int, to as int),
{
    let mut r: Vec<char> = Vec::new();
    let mut k: usize = from;
    while k < to
        invariant
            from <= k <= to <= v@.len(),
            r@ == v@.subrange(from as int, k as int),
        decreases to - k,
    {
        r.push(v[k]);
        k = k + 1;
        assert(r@ =~= v@.subrange(from as int, k as int));
    }
    r
}

/// The characters of each string of a list.
pub open spec fn strings_view(v: Seq<String>) -> Seq<Seq<char>> {
    v.map_values(|s: String| s@)
}

/// The characters of each string of a list.
pub fn chars_of_strings(v: &[String]) -> (r: Vec<Vec<char>>)
    ensures
        r@.map_values(|c: Vec<char>| c@) == strings_view(v@),
{
    let n = v.len();
    let mut r: Vec<Vec<char>> = Vec::new();
    let mut i: usize = 0;
    while i < n
        invariant
            n == v@.len(),
            i <= n,
            r@.map_values(|c: Vec<char>| c@) == strings_view(v@.take(i as int)),
        decreases n - i,
    {
        let c = chars_of(v[i].as_str());
        let ghost before = r@;
        r.push(c);
        assert(r@.map_values(|c: Vec<char>| c@) =~= before.map_values(|c: Vec<char>| c@).push(v@[i as int]@));
        assert(strings_view(v@.take((i + 1) as int)) =~= strings_view(v@.take(i as int)).push(v@[i as int]@));
        i = i + 1;
    }
    assert(v@.take(n as int) =~= v@);
    r
}


/// Whether a list of character sequences holds `x`.
pub fn chars_in(list: &Vec<Vec<char>>, x: &Vec<char>) -> (r: bool)
    ensures
        r == list@.map_values(|c: Vec<char>| c@).contains(x@),
{
    let ghost lv = list@.map_values(|c: Vec<char>| c@);
    let n = list.len();
    let mut i: usize = 0;
    while i < n
        invariant
            n == list@.len(),
            lv == list@.map_values(|c: Vec<char>| c@),
            i <= n,
            forall|j: int| 0 <= j < i ==> lv[j] != x@,
        decreases n - i,
    {
        assert(lv[i as int] == list@[i as int]@);
        if chars_eq(&list[i], x) {
            return true;
        }
        i = i + 1;
    }
    false
}

// ---------------------------------------------------------------------------
// Decimal rendering of integers
// ---------------------------------------------------------------------------

/// The character of a decimal digit.
pub open spec fn digit_char(d: nat) -> char {
    if d == 0 { '0' }
    else if d == 1 { '1' }
    else if d == 2 { '2' }
    else if d == 3 { '3' }
    else if d == 4 { '4' }
    else if d == 5 { '5' }
    else if d == 6 { '6' }
    else if d == 7 { '7' }
    else if d == 8 { '8' }
    else { '9' }
}

/// The decimal rendering of a natural number, as `format!("{}", n)` gives it:
/// no sign, no leading zeros, and `"0"` for zero.
pub open spec fn decimal(n: nat) -> Seq<char>
    decreases n,
{
    if n < 10 {
        seq![digit_char(n)]
    } else {
        decimal(n / 10).push(digit_char(n % 10))
    }
}

fn digit(d: usize) -> (c: char)
    requires
        d < 10,
    ensures
        c == digit_char(d as nat),
{
    if d == 0 { '0' }
    else if d == 1 { '1' }
    else if d == 2 { '2' }
    else if d == 3 { '3' }
    else if d == 4 { '4' }
    else if d == 5 { '5' }
    else if d == 6 { '6' }
    else if d == 7 { '7' }
    else if d == 8 { '8' }
    else { '9' }
}

/// Appends the decimal rendering of `n` to `s`.
pub fn push_decimal(s: &mut String, n: usize)
    ensures
        final(s)@ == old(s)@ + decimal(n as nat),
    decreases n,
{
    if n >= 10 {
        push_decimal(s, n / 10);
    }
    push_char(s, digit(n % 10));
}

// ---------------------------------------------------------------------------
// Whitespace and trimming
// ---------------------------------------------------------------------------

/// Unicode `White_Space`, the property that `char::is_whitespace` and
/// `str::trim` go by.
pub open spec fn is_ws(c: char) -> bool {
    ||| ('\u{9}' <= c && c <= '\u{d}')
    ||| c == ' '
    ||| c == '\u{85}'
    ||| c == '\u{a0}'
    ||| c == '\u{1680}'
    ||| ('\u{2000}' <= c && c <= '\u{200a}')
    ||| c == '\u{2028}'
    ||| c == '\u{2029}'
    ||| c == '\u{202f}'
    ||| c == '\u{205f}'
    ||| c == '\u{3000}'
}

pub fn is_whitespace(c: char) -> (r: bool)
    ensures
        r == is_ws(c),
{
    ('\u{9}' <= c && c <= '\u{d}') || c == ' ' || c == '\u{85}' || c == '\u{a0}'
        || c == '\u{1680}' || ('\u{2000}' <= c && c <= '\u{200a}') || c == '\u{2028}'
        || c == '\u{2029}' || c == '\u{202f}' || c == '\u{205f}' || c == '\u{3000}'
}

/// `s` without its leading whitespace.
pub open spec fn trim_start(s: Seq<char>) -> Seq<char>
    decreases s.len(),
{
    if s.len() > 0 && is_ws(s[0]) {
        trim_start(s.drop_first())
    } else {
        s
    }
}

/// `s` without its trailing whitespace.
pub open spec fn trim_end(s: Seq<char>) -> Seq<char>
    decreases s.len(),
{
    if s.len() > 0 && is_ws(s.last()) {
        trim_end(s.drop_last())
    } else {
        s
    }
}

/// `s` without leading and trailing whitespace (`str::trim`).
pub open spec fn trim(s: Seq<char>) -> Seq<char> {
    trim_end(trim_start(s))
}

proof fn lemma_trim_start_skip(s: Seq<char>, i: int)
    requires
        0 <= i < s.len(),
        is_ws(s[i]),
    ensures
        trim_start(s.subrange(i, s.len() as int)) == trim_start(s.subrange(i + 1, s.len() as int)),
{
    assert(s.subrange(i, s.len() as int).drop_first() =~= s.subrange(i + 1, s.len() as int));
}

proof fn lemma_trim_end_skip(s: Seq<char>, j: int)
    requires
        0 < j <= s.len(),
        is_ws(s[j - 1]),
    ensures
        trim_end(s.subrange(0, j)) == trim_end(s.subrange(0, j - 1)),
{
    assert(s.subrange(0, j).drop_last() =~= s.subrange(0, j - 1));
}

/// The characters of `v` without leading and trailing whitespace.
pub fn trim_chars(v: &Vec<char>) -> (r: Vec<char>)
    ensures
        r@ == trim(v@),
{
    let n = v.len();
    let mut i: usize = 0;
    assert(v@.subrange(0, n as int) =~= v@);
    while i < n && is_whitespace(v[i])
        invariant
            n == v.len(),
            i <= n,
            trim_start(v@) == trim_start(v@.subrange(i as int, n as int)),
        decreases n - i,
    {
        proof {
            lemma_trim_start_skip(v@, i as int);
        }
        i = i + 1;
    }
    let ghost t = v@.subrange(i as int, n as int);
    assert(trim_start(t) == t);
    let mut j: usize = n;
    assert(t.subrange(0, (j - i) as int) =~= t);
    while j > i && is_whitespace(v[j - 1])
        invariant
            n == v.len(),
            i <= j <= n,
            t == v@.subrange(i as int, n as int),
            trim_end(t) == trim_end(t.subrange(0, (j - i) as int)),
        decreases j,
    {
        proof {
            lemma_trim_end_skip(t, (j - i) as int);
            assert(t.subrange(0, (j - i) as int).subrange(0, (j - i - 1) as int) =~= t.subrange(0, (j - i - 1) as int));
        }
        j = j - 1;
    }
    let ghost u = t.subrange(0, (j - i) as int);
    assert(trim_end(u) == u);
    let mut r: Vec<char> = Vec::new();
    let mut k: usize = i;
    while k < j
        invariant
            n == v.len(),
            i <= k <= j <= n,
            r@ == v@.subrange(i as int, k as int),
        decreases j - k,
    {
        r.push(v[k]);
        k = k + 1;
        assert(r@ =~= v@.subrange(i as int, k as int));
    }
    assert(r@ =~= u);
    r
}

// ---------------------------------------------------------------------------
// Splitting
// ---------------------------------------------------------------------------

/// The pieces of `s` between occurrences of `sep` (`str::split` with a
/// `char` pattern): always at least one piece, and one more piece than
/// there are separators.
pub open spec fn split_on(s: Seq<char>, sep: char) -> Seq<Seq<char>>
    decreases s.len(),
{
    if s.len() == 0 {
        seq![Seq::<char>::empty()]
    } else {
        let prev = split_on(s.drop_last(), sep);
        if s.last() == sep {
            prev.push(Seq::<char>::empty())
        } else {
            prev.update(prev.len() - 1, prev.last().push(s.last()))
        }
    }
}

pub proof fn lemma_split_on_nonempty(s: Seq<char>, sep: char)
    ensures
        split_on(s, sep).len() >= 1,
    decreases s.len(),
{
    if s.len() > 0 {
        lemma_split_on_nonempty(s.drop_last(), sep);
    }
}

/// Splitting at a separator splits the text before it and the text after
/// it apart.
pub proof fn lemma_split_on_at_sep(a: Seq<char>, b: Seq<char>, sep: char)
    ensures
        split_on(a + seq![sep] + b, sep) == split_on(a, sep) + split_on(b, sep),
    decreases b.len(),
{
    let s = a + seq![sep] + b;
    if b.len() == 0 {
        assert(s =~= a.push(sep));
        assert(s.drop_last() =~= a);
        assert(split_on(b, sep) =~= seq![Seq::<char>::empty()]);
        assert(split_on(a, sep).push(Seq::<char>::empty()) =~= split_on(a, sep) + split_on(b, sep));
    } else {
        assert(s.drop_last() =~= a + seq![sep] + b.drop_last());
        assert(s.last() == b.last());
        lemma_split_on_at_sep(a, b.drop_last(), sep);
        lemma_split_on_nonempty(b.drop_last(), sep);
        lemma_split_on_nonempty(a, sep);
        let pa = split_on(a, sep);
        let pb = split_on(b.drop_last(), sep);
        if b.last() == sep {
            assert((pa + pb).push(Seq::<char>::empty()) =~= pa + pb.push(Seq::<char>::empty()));
        } else {
            assert((pa + pb).update((pa + pb).len() - 1, (pa + pb).last().push(b.last()))
                =~= pa + pb.update(pb.len() - 1, pb.last().push(b.last())));
        }
    }
}

/// A text without the separator is one piece.
pub proof fn lemma_split_on_without_sep(c: Seq<char>, sep: char)
    requires
        !c.contains(sep),
    ensures
        split_on(c, sep) == seq![c],
    decreases c.len(),
{
    if c.len() == 0 {
        assert(c =~= Seq::<char>::empty());
    } else {
        assert(!c.drop_last().contains(sep)) by {
            if c.drop_last().contains(sep) {
                let i = choose|i: int| 0 <= i < c.drop_last().len() && c.drop_last()[i] == sep;
                assert(c[i] == sep);
            }
        }
        lemma_split_on_without_sep(c.drop_last(), sep);
        assert(c[c.len() - 1] == c.last());
        assert(c.last() != sep);
        assert(c.drop_last().push(c.last()) =~= c);
        let prev = split_on(c.drop_last(), sep);
        assert(prev.len() - 1 == 0 && prev.last() == c.drop_last());
        assert(seq![c.drop_last()].update(0, c.drop_last().push(c.last())) =~= seq![c]);
        assert(split_on(c, sep) == prev.update(prev.len() - 1, prev.last().push(c.last())));
    }
}

/// Lines, each followed by a line break.
pub open spec fn terminated_lines(ls: Seq<Seq<char>>) -> Seq<char>
    decreases ls.len(),
{
    if ls.len() == 0 {
        Seq::empty()
    } else {
        ls[0] + seq!['\n'] + terminated_lines(ls.drop_first())
    }
}

/// The pieces of lines followed by line breaks, and then more text, are the
/// lines and then the pieces of that text.
pub proof fn lemma_split_terminated(ls: Seq<Seq<char>>, x: Seq<char>)
    requires
        forall|i: int| 0 <= i < ls.len() ==> !(#[trigger] ls[i]).contains('\n'),
    ensures
        split_on(terminated_lines(ls) + x, '\n') == ls + split_on(x, '\n'),
    decreases ls.len(),
{
    if ls.len() > 0 {
        let rest = ls.drop_first();
        assert forall|i: int| 0 <= i < rest.len() implies !(#[trigger] rest[i]).contains('\n') by {
            assert(rest[i] == ls[i + 1]);
        }
        lemma_split_terminated(rest, x);
        assert(terminated_lines(ls) + x =~= ls[0] + seq!['\n'] + (terminated_lines(rest) + x));
        lemma_split_on_at_sep(ls[0], terminated_lines(rest) + x, '\n');
        lemma_split_on_without_sep(ls[0], '\n');
        assert(seq![ls[0]] + (rest + split_on(x, '\n')) =~= ls + split_on(x, '\n'));
    }
}

/// Splits `v` at every occurrence of `sep`.
pub fn split_chars(v: &Vec<char>, sep: char) -> (r: Vec<Vec<char>>)
    ensures
        r@.len() >= 1,
        r@.map_values(|p: Vec<char>| p@) == split_on(v@, sep),
{
    let n = v.len();
    let mut done: Vec<Vec<char>> = Vec::new();
    let mut cur: Vec<char> = Vec::new();
    let mut i: usize = 0;
    assert(v@.take(0) =~= Seq::<char>::empty());
    assert(done@.map_values(|p: Vec<char>| p@).push(cur@) =~= split_on(Seq::<char>::empty(), sep));
    while i < n
        invariant
            n == v.len(),
            i <= n,
            done@.map_values(|p: Vec<char>| p@).push(cur@) == split_on(v@.take(i as int), sep),
        decreases n - i,
    {
        let c = v[i];
        proof {
            lemma_split_on_nonempty(v@.take(i as int), sep);
            assert(v@.take(i + 1).drop_last() =~= v@.take(i as int));
        }
        if c == sep {
            let old_cur = cur;
            cur = Vec::new();
            let ghost before = done@;
            done.push(old_cur);
            assert(done@.map_values(|p: Vec<char>| p@) =~= before.map_values(|p: Vec<char>| p@).push(old_cur@));
        } else {
            let ghost before = cur@;
            cur.push(c);
            assert(done@.map_values(|p: Vec<char>| p@).push(cur@) =~=
                done@.map_values(|p: Vec<char>| p@).push(before).update(done@.len() as int, before.push(c)));
        }
        i = i + 1;
    }
    assert(v@.take(n as int) =~= v@);
    let ghost before = done@;
    done.push(cur);
    assert(done@.map_values(|p: Vec<char>| p@) =~= before.map_values(|p: Vec<char>| p@).push(done@.last()@));
    done
}


// ---------------------------------------------------------------------------
// Lines
// ---------------------------------------------------------------------------

/// A line without the carriage return of a `\r\n` ending.
pub open spec fn strip_cr(l: Seq<char>) -> Seq<char> {
    if l.len() > 0 && l.last() == '\r' {
        l.drop_last()
    } else {
        l
    }
}

/// The lines of `s` as `str::lines` gives them: split at `\n`, a `\r`
/// before the `\n` removed, and no empty last line after a final line
/// ending (so the empty text has no lines).
pub open spec fn lines_of(s: Seq<char>) -> Seq<Seq<char>> {
    let p = split_on(s, '\n');
    let done = p.drop_last().map_values(|l: Seq<char>| strip_cr(l));
    if p.last().len() == 0 {
        done
    } else {
        done.push(p.last())
    }
}

fn strip_cr_chars(l: Vec<char>) -> (r: Vec<char>)
    ensures
        r@ == strip_cr(l@),
{
    let mut l = l;
    if l.len() > 0 && l[l.len() - 1] == '\r' {
        l.pop();
    }
    l
}

/// The lines of `v` (see `lines_of`).
pub fn lines_chars(v: &Vec<char>) -> (r: Vec<Vec<char>>)
    ensures
        r@.map_values(|p: Vec<char>| p@) == lines_of(v@),
{
    let pieces = split_chars(v, '\n');
    let ghost p = pieces@.map_values(|q: Vec<char>| q@);
    let n = pieces.len();
    let mut r: Vec<Vec<char>> = Vec::new();
    let mut i: usize = 0;
    while i + 1 < n
        invariant
            n == pieces.len(),
            n >= 1,
            p == pieces@.map_values(|q: Vec<char>| q@),
            i + 1 <= n,
            r@.map_values(|q: Vec<char>| q@) == p.drop_last().take(i as int).map_values(|l: Seq<char>| strip_cr(l)),
        decreases n - i,
    {
        let ghost before = r@;
        let piece = pieces[i].clone();
        assert(piece@ =~= p[i as int]);
        let line = strip_cr_chars(piece);
        r.push(line);
        assert(r@.map_values(|q: Vec<char>| q@) =~= before.map_values(|q: Vec<char>| q@).push(strip_cr(p[i as int])));
        assert(p.drop_last().take(i + 1).map_values(|l: Seq<char>| strip_cr(l)) =~=
            p.drop_last().take(i as int).map_values(|l: Seq<char>| strip_cr(l)).push(strip_cr(p[i as int])));
        i = i + 1;
        assert(r@.map_values(|q: Vec<char>| q@) =~= p.drop_last().take(i as int).map_values(|l: Seq<char>| strip_cr(l)));
    }
    assert(p.drop_last().take(i as int) =~= p.drop_last());
    let last = pieces[n - 1].clone();
    assert(last@ =~= p.last());
    if last.len() > 0 {
        let ghost before = r@;
        r.push(last);
        assert(r@.map_values(|q: Vec<char>| q@) =~= before.map_values(|q: Vec<char>| q@).push(p.last()));
    }
    r
}

// ---------------------------------------------------------------------------
// Searching
// ---------------------------------------------------------------------------

/// `pat` occurs in `s` at index `i`.
pub open spec fn occurs_at(s: Seq<char>, pat: Seq<char>, i: int) -> bool {
    0 <= i && i + pat.len() <= s.len() && s.subrange(i, i + pat.len()) == pat
}

/// `pat` occurs somewhere in `s` (`str::contains`; the empty pattern occurs
/// in every text).
pub open spec fn contains(s: Seq<char>, pat: Seq<char>) -> bool {
    exists|i: int| occurs_at(s, pat, i)
}

/// The first index at or after `i` where `pat` occurs in `s`.
pub open spec fn find_from(s: Seq<char>, pat: Seq<char>, i: int) -> Option<int>
    decreases s.len() + 1 - i,
{
    if i < 0 || i + pat.len() > s.len() {
        None
    } else if s.subrange(i, i + pat.len()) == pat {
        Some(i)
    } else {
        find_from(s, pat, i + 1)
    }
}

/// The first index where `pat` occurs in `s` (`str::find`).
pub open spec fn find_first(s: Seq<char>, pat: Seq<char>) -> Option<int> {
    find_from(s, pat, 0)
}

proof fn lemma_find_from_props(s: Seq<char>, pat: Seq<char>, i: int)
    requires
        0 <= i,
    ensures
        find_from(s, pat, i) matches Some(k) ==> i <= k && occurs_at(s, pat, k)
            && forall|j: int| i <= j < k ==> !occurs_at(s, pat, j),
        find_from(s, pat, i) is None ==> forall|j: int| i <= j ==> !occurs_at(s, pat, j),
    decreases s.len() + 1 - i,
{
    if i + pat.len() > s.len() {
    } else if s.subrange(i, i + pat.len()) == pat {
    } else {
        lemma_find_from_props(s, pat, i + 1);
    }
}

/// Facts about the first occurrence: it is an occurrence, nothing occurs
/// before it, and there is none exactly when `pat` does not occur.
pub proof fn lemma_find_first(s: Seq<char>, pat: Seq<char>)
    ensures
        find_first(s, pat) matches Some(k) ==> occurs_at(s, pat, k)
            && forall|j: int| 0 <= j < k ==> !occurs_at(s, pat, j),
        find_first(s, pat) is None <==> !contains(s, pat),
{
    lemma_find_from_props(s, pat, 0);
    if let Some(k) = find_first(s, pat) {
        assert(occurs_at(s, pat, k));
    }
}

/// Whether `pat` occurs in `s` at index `i`.
pub fn occurs_at_exec(s: &Vec<char>, pat: &Vec<char>, i: usize) -> (r: bool)
    ensures
        r == occurs_at(s@, pat@, i as int),
{
    if i > s.len() || pat.len() > s.len() - i {
        return false;
    }
    let m = pat.len();
    let mut k: usize = 0;
    while k < m
        invariant
            m == pat.len(),
            i + m <= s.len(),
            k <= m,
            forall|j: int| 0 <= j < k ==> s@[i + j] == pat@[j],
        decreases m - k,
    {
        if s[i + k] != pat[k] {
            assert(s@.subrange(i as int, i + m)[k as int] != pat@[k as int]);
            return false;
        }
        k = k + 1;
    }
    assert(s@.subrange(i as int, i + m) =~= pat@);
    true
}

/// The first index where `pat` occurs in `s`.
pub fn find_chars(s: &Vec<char>, pat: &Vec<char>) -> (r: Option<usize>)
    ensures
        r matches Some(k) ==> find_first(s@, pat@) == Some(k as int),
        r is None ==> find_first(s@, pat@) is None,
{
    if pat.len() > s.len() {
        return None;
    }
    let last = s.len() - pat.len();
    let mut i: usize = 0;
    loop
        invariant
            last == s.len() - pat.len(),
            pat.len() <= s.len(),
            i <= last,
            find_first(s@, pat@) == find_from(s@, pat@, i as int),
        decreases last - i,
    {
        if occurs_at_exec(s, pat, i) {
            return Some(i);
        }
        if i == last {
            assert(find_from(s@, pat@, (i + 1) as int) is None);
            return None;
        }
        i = i + 1;
    }
}

/// Whether `pat` occurs in `s`.
pub fn contains_chars(s: &Vec<char>, pat: &Vec<char>) -> (r: bool)
    ensures
        r == contains(s@, pat@),
{
    proof {
        lemma_find_first(s@, pat@);
    }
    find_chars(s, pat).is_some()
}

} // verus!
