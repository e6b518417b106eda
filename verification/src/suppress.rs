//! Suppression comments: `exspec-ignore: T002, T003` switches rules off for
//! the test that follows.

use vstd::prelude::*;
use crate::rules::{rule_ids, RuleId};
use crate::text::{chars_of, find_chars, find_first, slice_chars, split_chars, split_on, string_of, trim, trim_chars};

verus! {

/// The marker that opens a suppression list.
pub open spec fn suppression_marker() -> Seq<char> {
    "exspec-ignore:"@
}

/// The rule ids that a comment suppresses: after the first marker, the
/// comma-separated items, each trimmed; nothing when there is no marker.
pub open spec fn suppressed_by(comment: Seq<char>) -> Seq<Seq<char>> {
    match find_first(comment, suppression_marker()) {
        Some(i) => split_on(
            comment.subrange(i + suppression_marker().len(), comment.len() as int),
            ',',
        ).map_values(|p: Seq<char>| trim(p)),
        None => Seq::empty(),
    }
}

/// `parse_suppression` on the characters of a comment.
pub fn suppression_of_chars(comment: &Vec<char>) -> (r: Vec<RuleId>)
    ensures
        rule_ids(r@) == suppressed_by(comment@),
{
    let marker = chars_of("exspec-ignore:");
    match find_chars(comment, &marker) {
        None => Vec::new(),
        Some(i) => {
            proof {
                crate::text::lemma_find_first(comment@, marker@);
                assert(crate::text::occurs_at(comment@, marker@, i as int));
                assert(i + marker@.len() <= comment@.len());
            }
            assert(i + marker.len() <= comment.len());
            let rest = slice_chars(comment, i + marker.len(), comment.len());
            let pieces = split_chars(&rest, ',');
            let ghost ps = pieces@.map_values(|p: Vec<char>| p@);
            let n = pieces.len();
            let mut r: Vec<RuleId> = Vec::new();
            let mut k: usize = 0;
            while k < n
                invariant
                    n == pieces.len(),
                    k <= n,
                    ps == pieces@.map_values(|p: Vec<char>| p@),
                    rule_ids(r@) == ps.take(k as int).map_values(|p: Seq<char>| trim(p)),
                decreases n - k,
            {
                let t = trim_chars(&pieces[k]);
                let id = RuleId(string_of(&t));
                let ghost before = r@;
                assert(pieces@[k as int]@ == ps[k as int]);
                r.push(id);
                assert(rule_ids(r@) =~= rule_ids(before).push(trim(ps[k as int])));
                assert(ps.take((k + 1) as int).map_values(|p: Seq<char>| trim(p)) =~= ps.take(k as int).map_values(|p: Seq<char>| trim(p)).push(trim(ps[k as int])));
                assert(rule_ids(r@) =~= ps.take((k + 1) as int).map_values(|p: Seq<char>| trim(p)));
                k = k + 1;
            }
            assert(ps.take(n as int) =~= ps);
            r
        },
    }
}

/// The rule ids suppressed by a comment.
pub fn parse_suppression(comment: &str) -> (r: Vec<RuleId>)
    ensures
        rule_ids(r@) == suppressed_by(comment@),
{
    let c = chars_of(comment);
    suppression_of_chars(&c)
}

} // verus!
