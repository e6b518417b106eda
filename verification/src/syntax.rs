//! The syntax trees and queries of `tree-sitter`, as the analyzer reads
//! them: a query's capture names, the captures of its matches as byte
//! ranges, and the shape of the nodes of a tree.

use vstd::prelude::*;
use streaming_iterator::StreamingIterator;
use vstd::utf8::{decode_utf8, valid_utf8};
use crate::text::strings_view;
use crate::query_utils::matches_view;

verus! {

#[verifier::external_type_specification]
#[verifier::external_body]
pub struct ExQuery(tree_sitter::Query);

#[verifier::external_type_specification]
#[verifier::external_body]
pub struct ExTree(tree_sitter::Tree);

#[verifier::external_type_specification]
#[verifier::external_body]
pub struct ExNode<'tree>(tree_sitter::Node<'tree>);

#[verifier::external_type_specification]
#[verifier::external_body]
pub struct ExParser(tree_sitter::Parser);

/// One capture of a query match: the index of its capture name and the
/// byte range of the captured node.
#[derive(Debug, Clone, Copy, PartialEq, Eq, Structural)]
pub struct Capture {
    pub index: usize,
    pub start: usize,
    pub end: usize,
}

/// The names of the captures of a query, in the order of their indices.
pub uninterp spec fn capture_names_of(query: tree_sitter::Query) -> Seq<Seq<char>>;

/// The matches of a query over a node, each as its captures, in the order
/// in which a fresh `QueryCursor` finds them, the text predicates checked
/// against `source`.
pub uninterp spec fn node_results(query: tree_sitter::Query, node: tree_sitter::Node, source: Seq<u8>) -> Seq<Seq<Capture>>;

/// The matches of a query over a node within a byte range (see
/// `node_results`).
pub uninterp spec fn range_results(
    query: tree_sitter::Query,
    node: tree_sitter::Node,
    source: Seq<u8>,
    start: usize,
    end: usize,
) -> Seq<Seq<Capture>>;

/// The root node of a tree.
pub uninterp spec fn root_of(tree: &tree_sitter::Tree) -> tree_sitter::Node;

/// The byte offset at which a node starts.
pub uninterp spec fn start_of(node: tree_sitter::Node) -> usize;

/// The byte offset at which a node ends.
pub uninterp spec fn end_of(node: tree_sitter::Node) -> usize;

/// The grammar name of a node.
pub uninterp spec fn kind_of(node: tree_sitter::Node) -> Seq<char>;

/// The number of children of a node.
pub uninterp spec fn child_count_of(node: tree_sitter::Node) -> usize;

/// The child of a node at a position.
pub uninterp spec fn child_of(node: tree_sitter::Node, i: usize) -> Option<tree_sitter::Node>;

/// The number of nodes of a node's subtree, the node itself included.
pub uninterp spec fn descendant_count_of(node: tree_sitter::Node) -> usize;

/// The smallest node within a node that spans a byte range.
pub uninterp spec fn descendant_in(node: tree_sitter::Node, start: usize, end: usize) -> Option<tree_sitter::Node>;

/// `Query::capture_names`: the names of the captures of a query, in the
/// order of their indices; a function of the query.
#[verifier::external_body]
pub(crate) fn query_capture_names(query: &tree_sitter::Query) -> (r: Vec<String>)
    ensures
        strings_view(r@) == capture_names_of(*query),
{
    query.capture_names().iter().map(|s| s.to_string()).collect()
}

/// `QueryCursor::matches` of a query over a node: the captures of each
/// match, in the order in which the matches were found; a function of the
/// query, the node and the source.  Checking a text predicate (`#eq?`,
/// `#match?`) slices `source` by a captured node's range, so the source
/// must reach to the end of the node.
#[verifier::external_body]
pub(crate) fn query_matches(query: &tree_sitter::Query, node: tree_sitter::Node, source: &[u8]) -> (r: Vec<Vec<Capture>>)
    requires
        end_of(node) <= source@.len(),
    ensures
        matches_view(r@) == node_results(*query, node, source@),
{
    let mut cursor = tree_sitter::QueryCursor::new();
    let mut matches = cursor.matches(query, node, source);
    let mut out = Vec::new();
    while let Some(m) = matches.next() {
        out.push(m.captures.iter().map(|c| Capture { index: c.index as usize, start: c.node.start_byte(), end: c.node.end_byte() }).collect());
    }
    out
}

/// `QueryCursor::matches` with `QueryCursor::set_byte_range(start..end)`:
/// the matches within a byte range (as `query_matches`).
#[verifier::external_body]
pub(crate) fn query_matches_in_range(query: &tree_sitter::Query, node: tree_sitter::Node, source: &[u8], start: usize, end: usize) -> (r: Vec<Vec<Capture>>)
    requires
        end_of(node) <= source@.len(),
    ensures
        matches_view(r@) == range_results(*query, node, source@, start, end),
{
    let mut cursor = tree_sitter::QueryCursor::new();
    cursor.set_byte_range(start..end);
    let mut matches = cursor.matches(query, node, source);
    let mut out = Vec::new();
    while let Some(m) = matches.next() {
        out.push(m.captures.iter().map(|c| Capture { index: c.index as usize, start: c.node.start_byte(), end: c.node.end_byte() }).collect());
    }
    out
}

/// `Tree::root_node`.
#[verifier::external_body]
pub(crate) fn root_node(tree: &tree_sitter::Tree) -> (r: tree_sitter::Node<'_>)
    ensures
        r == root_of(tree),
{
    tree.root_node()
}

/// `Node::start_byte`.
#[verifier::external_body]
pub(crate) fn node_start(node: tree_sitter::Node) -> (r: usize)
    ensures
        r == start_of(node),
{
    node.start_byte()
}

/// `Node::end_byte`.
#[verifier::external_body]
pub(crate) fn node_end(node: tree_sitter::Node) -> (r: usize)
    ensures
        r == end_of(node),
{
    node.end_byte()
}

/// `Node::kind`, the grammar name of a node.
#[verifier::external_body]
pub(crate) fn node_kind(node: tree_sitter::Node) -> (r: &'static str)
    ensures
        r@ == kind_of(node),
{
    node.kind()
}

/// `Node::child_count`.
#[verifier::external_body]
pub(crate) fn node_child_count(node: tree_sitter::Node) -> (r: usize)
    ensures
        r == child_count_of(node),
{
    node.child_count()
}

/// `Node::child`.
#[verifier::external_body]
pub(crate) fn node_child<'tree>(node: tree_sitter::Node<'tree>, i: usize) -> (r: Option<tree_sitter::Node<'tree>>)
    ensures
        r == child_of(node, i),
{
    node.child(i)
}

/// `Node::descendant_count`: the nodes of the subtree, the node itself
/// included.
#[verifier::external_body]
pub(crate) fn node_descendant_count(node: tree_sitter::Node) -> (r: usize)
    ensures
        r == descendant_count_of(node),
{
    node.descendant_count()
}

/// `Node::descendant_for_byte_range`: the smallest node within `node`
/// that spans the range.
#[verifier::external_body]
pub(crate) fn descendant_for_range<'tree>(node: tree_sitter::Node<'tree>, start: usize, end: usize) -> (r: Option<tree_sitter::Node<'tree>>)
    ensures
        r == descendant_in(node, start, end),
{
    node.descendant_for_byte_range(start, end)
}

/// `std::str::from_utf8` on `source[start..end]`, as `Node::utf8_text`
/// decodes a node's text: the text when the bytes are valid UTF-8.
#[verifier::external_body]
pub(crate) fn utf8_text(source: &[u8], start: usize, end: usize) -> (r: Option<String>)
    requires
        start <= end <= source@.len(),
    ensures
        match r {
            Some(s) => valid_utf8(source@.subrange(start as int, end as int))
                && s@ == decode_utf8(source@.subrange(start as int, end as int)),
            None => !valid_utf8(source@.subrange(start as int, end as int)),
        },
{
    std::str::from_utf8(&source[start..end]).ok().map(|s| s.to_string())
}

} // verus!
