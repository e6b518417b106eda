//! The order of texts (`Ord` of `str`: by characters, a prefix first) and
//! sorted lists without repetition.

use vstd::prelude::*;
use crate::text::strings_view;

verus! {

/// `a` sorts strictly before `b`.
pub open spec fn lex_lt(a: Seq<char>, b: Seq<char>) -> bool
    decreases a.len(),
{
    if b.len() == 0 {
        false
    } else if a.len() == 0 {
        true
    } else if a[0] != b[0] {
        a[0] < b[0]
    } else {
        lex_lt(a.drop_first(), b.drop_first())
    }
}

pub proof fn lemma_lex_irreflexive(a: Seq<char>)
    ensures
        !lex_lt(a, a),
    decreases a.len(),
{
    if a.len() > 0 {
        lemma_lex_irreflexive(a.drop_first());
    }
}

pub proof fn lemma_lex_trichotomy(a: Seq<char>, b: Seq<char>)
    ensures
        lex_lt(a, b) || lex_lt(b, a) || a == b,
        !(lex_lt(a, b) && lex_lt(b, a)),
    decreases a.len(),
{
    if a.len() > 0 && b.len() > 0 && a[0] == b[0] {
        lemma_lex_trichotomy(a.drop_first(), b.drop_first());
        if a.drop_first() == b.drop_first() {
            assert(a =~= seq![a[0]] + a.drop_first());
            assert(b =~= seq![b[0]] + b.drop_first());
        }
    } else if a.len() == 0 && b.len() == 0 {
        assert(a =~= b);
    }
}

pub proof fn lemma_lex_transitive(a: Seq<char>, b: Seq<char>, c: Seq<char>)
    requires
        lex_lt(a, b),
        lex_lt(b, c),
    ensures
        lex_lt(a, c),
    decreases a.len(),
{
    if a.len() > 0 && b.len() > 0 && c.len() > 0 && a[0] == b[0] && b[0] == c[0] {
        lemma_lex_transitive(a.drop_first(), b.drop_first(), c.drop_first());
    }
}

/// Each text sorts strictly before the next ones.
pub open spec fn strictly_sorted(s: Seq<Seq<char>>) -> bool {
    forall|i: int, j: int| 0 <= i < j < s.len() ==> lex_lt(#[trigger] s[i], #[trigger] s[j])
}

/// Whether `a` sorts strictly before `b`.
pub fn less_than(a: &Vec<char>, b: &Vec<char>) -> (r: bool)
    ensures
        r == lex_lt(a@, b@),
{
    let n = if a.len() < b.len() { a.len() } else { b.len() };
    let mut i: usize = 0;
    assert(a@.subrange(0, a@.len() as int) =~= a@);
    assert(b@.subrange(0, b@.len() as int) =~= b@);
    while i < n
        invariant
            n <= a@.len(),
            n <= b@.len(),
            n == a@.len() || n == b@.len(),
            i <= n,
            lex_lt(a@, b@) == lex_lt(a@.subrange(i as int, a@.len() as int), b@.subrange(i as int, b@.len() as int)),
        decreases n - i,
    {
        let ghost sa = a@.subrange(i as int, a@.len() as int);
        let ghost sb = b@.subrange(i as int, b@.len() as int);
        assert(sa[0] == a@[i as int]);
        assert(sb[0] == b@[i as int]);
        if a[i] != b[i] {
            return a[i] < b[i];
        }
        assert(sa.drop_first() =~= a@.subrange(i + 1, a@.len() as int));
        assert(sb.drop_first() =~= b@.subrange(i + 1, b@.len() as int));
        i = i + 1;
    }
    a.len() < b.len()
}

/// Inserts a text into a strictly sorted list unless it is there already.
pub fn insert_sorted(list: &mut Vec<String>, x: String)
    requires
        strictly_sorted(strings_view(old(list)@)),
    ensures
        strictly_sorted(strings_view(final(list)@)),
        strings_view(final(list)@).to_set() == strings_view(old(list)@).to_set().insert(x@),
{
    let ghost lv = strings_view(list@);
    let xc = crate::text::chars_of(x.as_str());
    let n = list.len();
    let mut p: usize = 0;
    while p < n
        invariant
            n == list@.len(),
            lv == strings_view(list@),
            xc@ == x@,
            p <= n,
            forall|k: int| 0 <= k < p ==> lex_lt(lv[k], x@),
        ensures
            p <= n,
            forall|k: int| 0 <= k < p ==> lex_lt(lv[k], x@),
            p == n || !lex_lt(lv[p as int], x@),
        decreases n - p,
    {
        let c = crate::text::chars_of(list[p].as_str());
        assert(lv[p as int] == c@);
        if !less_than(&c, &xc) {
            break;
        }
        p = p + 1;
    }
    if p < n {
        let c = crate::text::chars_of(list[p].as_str());
        if crate::text::chars_eq(&c, &xc) {
            assert(lv[p as int] == x@);
            assert(lv.to_set().insert(x@) =~= lv.to_set());
            return;
        }
        proof {
            lemma_lex_trichotomy(lv[p as int], x@);
        }
    }
    list.insert(p, x);
    let ghost nv = strings_view(list@);
    assert(nv =~= lv.subrange(0, p as int).push(x@) + lv.subrange(p as int, n as int));
    assert forall|i: int, j: int| 0 <= i < j < nv.len() implies lex_lt(#[trigger] nv[i], #[trigger] nv[j]) by {
        if j < p {
            assert(nv[i] == lv[i] && nv[j] == lv[j]);
        } else if j == p {
            assert(nv[i] == lv[i]);
        } else if i < p {
            assert(nv[i] == lv[i] && nv[j] == lv[j - 1]);
            assert(lex_lt(x@, lv[p as int]));
            if j - 1 > p {
                assert(lex_lt(lv[p as int], lv[j - 1]));
                lemma_lex_transitive(x@, lv[p as int], lv[j - 1]);
            }
            lemma_lex_transitive(lv[i], x@, lv[j - 1]);
        } else if i == p {
            assert(nv[j] == lv[j - 1]);
            assert(lex_lt(x@, lv[p as int]));
            if j - 1 > p {
                assert(lex_lt(lv[p as int], lv[j - 1]));
                lemma_lex_transitive(x@, lv[p as int], lv[j - 1]);
            }
        } else {
            assert(nv[i] == lv[i - 1] && nv[j] == lv[j - 1]);
        }
    }
    assert forall|y: Seq<char>| nv.to_set().contains(y) <==> lv.to_set().insert(x@).contains(y) by {
        if nv.contains(y) {
            let k = choose|k: int| 0 <= k < nv.len() && nv[k] == y;
            if k < p {
                assert(lv[k] == y);
            } else if k > p {
                assert(lv[k - 1] == y);
            }
        }
        if lv.contains(y) {
            let k = choose|k: int| 0 <= k < lv.len() && lv[k] == y;
            if k < p {
                assert(nv[k] == y);
            } else {
                assert(nv[k + 1] == y);
            }
        }
        if y == x@ {
            assert(nv[p as int] == y);
        }
    }
    assert(nv.to_set() =~= lv.to_set().insert(x@));
}

} // verus!
