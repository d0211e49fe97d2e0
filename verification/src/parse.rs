//! Parsing source text with a tree-sitter grammar into a [`SyntaxTree`].
use vstd::prelude::*;

use crate::tree::{in_subtree, link_nodes, subtree_end, SyntaxNode, SyntaxTree};

verus! {

#[verifier::external_type_specification]
#[verifier::external_body]
pub struct ExLanguage(tree_sitter::Language);

#[verifier::external_type_specification]
#[verifier::external_body]
pub struct ExParser(tree_sitter::Parser);

#[verifier::external_type_specification]
#[verifier::external_body]
pub struct ExTree(tree_sitter::Tree);

#[verifier::external_type_specification]
#[verifier::external_body]
pub struct ExTreeCursor<'cursor>(tree_sitter::TreeCursor<'cursor>);

#[verifier::external_type_specification]
#[verifier::external_body]
pub struct ExNode<'tree>(tree_sitter::Node<'tree>);

/// Calls `tree_sitter::Parser::new`; nothing is claimed of the new parser.
#[verifier::external_body]
fn parser_new() -> tree_sitter::Parser {
    tree_sitter::Parser::new()
}

/// Calls `tree_sitter::Parser::set_language` and reports whether it succeeded;
/// nothing is claimed of when it does (that depends on the grammar's ABI version).
#[verifier::external_body]
fn parser_set_language(parser: &mut tree_sitter::Parser, language: &tree_sitter::Language) -> bool {
    parser.set_language(language).is_ok()
}

/// Calls `tree_sitter::Parser::parse` on `source`, with the edited earlier
/// tree when there is one; nothing is claimed of the tree that comes back.
#[verifier::external_body]
fn parser_parse(
    parser: &mut tree_sitter::Parser,
    source: &[u8],
    old_tree: Option<&tree_sitter::Tree>,
) -> Option<tree_sitter::Tree> {
    parser.parse(source, old_tree)
}

/// A position in a text: a row and a byte column.
pub struct EditPoint {
    pub row: usize,
    pub column: usize,
}

/// An edit of a text, for incremental reparsing: the bytes
/// `start_byte..old_end_byte` became `start_byte..new_end_byte`, with the
/// matching rows and columns.
pub struct EditSpec {
    pub start_byte: usize,
    pub old_end_byte: usize,
    pub new_end_byte: usize,
    pub start_position: EditPoint,
    pub old_end_position: EditPoint,
    pub new_end_position: EditPoint,
}

/// Calls `tree_sitter::Tree::edit` with the edit converted to an
/// `InputEdit`; the tree's new state is not visible to Verus.
#[verifier::external_body]
fn tree_edit(tree: &mut tree_sitter::Tree, edit: &EditSpec) {
    let (s, o, n) = (&edit.start_position, &edit.old_end_position, &edit.new_end_position);
    tree.edit(
        &tree_sitter::InputEdit {
            start_byte: edit.start_byte,
            old_end_byte: edit.old_end_byte,
            new_end_byte: edit.new_end_byte,
            start_position: tree_sitter::Point { row: s.row, column: s.column },
            old_end_position: tree_sitter::Point { row: o.row, column: o.column },
            new_end_position: tree_sitter::Point { row: n.row, column: n.column },
        },
    );
}

/// Calls `tree_sitter::Tree::language` and takes an owned copy of the
/// grammar the tree was parsed with.
#[verifier::external_body]
fn tree_language(tree: &tree_sitter::Tree) -> tree_sitter::Language {
    (*tree.language()).clone()
}

/// Calls `tree_sitter::Tree::root_node`.
#[verifier::external_body]
fn tree_root_node(tree: &tree_sitter::Tree) -> tree_sitter::Node<'_> {
    tree.root_node()
}

/// Calls `tree_sitter::Tree::walk`: a cursor positioned on the root node.
#[verifier::external_body]
fn tree_walk(tree: &tree_sitter::Tree) -> tree_sitter::TreeCursor<'_> {
    tree.walk()
}

/// Calls `tree_sitter::Node::descendant_count`, which the documentation
/// describes as the number of descendants including the node itself: at least one.
#[verifier::external_body]
fn node_descendant_count(node: &tree_sitter::Node) -> (n: usize)
    ensures
        n >= 1,
{
    node.descendant_count()
}

/// Calls `tree_sitter::TreeCursor::goto_descendant`, moving to the given
/// preorder index; nothing is claimed of the cursor afterwards.
#[verifier::external_body]
fn cursor_goto_descendant(cursor: &mut tree_sitter::TreeCursor, index: usize) {
    cursor.goto_descendant(index)
}

/// Calls `tree_sitter::TreeCursor::depth`; nothing is claimed of the result.
#[verifier::external_body]
fn cursor_depth(cursor: &tree_sitter::TreeCursor) -> u32 {
    cursor.depth()
}

/// Calls `tree_sitter::TreeCursor::node`.
#[verifier::external_body]
fn cursor_node<'a>(cursor: &tree_sitter::TreeCursor<'a>) -> tree_sitter::Node<'a> {
    cursor.node()
}

/// Calls `tree_sitter::Node::id`.
#[verifier::external_body]
fn node_id(node: &tree_sitter::Node) -> usize {
    node.id()
}

/// Calls `tree_sitter::Node::grammar_id`.
#[verifier::external_body]
fn node_grammar_id(node: &tree_sitter::Node) -> u16 {
    node.grammar_id()
}

/// Calls `tree_sitter::Node::kind` and copies the name into a `String`.
#[verifier::external_body]
fn node_kind(node: &tree_sitter::Node) -> String {
    node.kind().to_string()
}

/// Calls `tree_sitter::Node::is_named`.
#[verifier::external_body]
fn node_is_named(node: &tree_sitter::Node) -> bool {
    node.is_named()
}

/// Calls `tree_sitter::Node::is_error`.
#[verifier::external_body]
fn node_is_error(node: &tree_sitter::Node) -> bool {
    node.is_error()
}

/// Calls `tree_sitter::Node::is_missing`.
#[verifier::external_body]
fn node_is_missing(node: &tree_sitter::Node) -> bool {
    node.is_missing()
}

/// Calls `tree_sitter::Node::start_byte`.
#[verifier::external_body]
fn node_start_byte(node: &tree_sitter::Node) -> usize {
    node.start_byte()
}

/// Calls `tree_sitter::Node::end_byte`.
#[verifier::external_body]
fn node_end_byte(node: &tree_sitter::Node) -> usize {
    node.end_byte()
}

/// Reads every node of a tree-sitter tree, in preorder, with its depth; the
/// parent links are left at 0 (see `link_nodes`). There is at least the root.
pub(crate) fn collect_nodes(tree: &tree_sitter::Tree) -> (v: Vec<SyntaxNode>)
    ensures
        v@.len() >= 1,
        forall|k: int| 0 <= k < v@.len() ==> #[trigger] v@[k].parent == 0,
{
    let root = tree_root_node(tree);
    let count = node_descendant_count(&root);
    let mut cursor = tree_walk(tree);
    let mut nodes: Vec<SyntaxNode> = Vec::new();
    for i in 0..count
        invariant
            nodes@.len() == i,
            forall|k: int| 0 <= k < nodes@.len() ==> #[trigger] nodes@[k].parent == 0,
    {
        cursor_goto_descendant(&mut cursor, i);
        let depth = cursor_depth(&cursor);
        let node = cursor_node(&cursor);
        nodes.push(
            SyntaxNode {
                id: node_id(&node),
                kind_id: node_grammar_id(&node),
                kind: node_kind(&node),
                start_byte: node_start_byte(&node),
                end_byte: node_end_byte(&node),
                depth: depth as usize,
                parent: 0,
                is_named: node_is_named(&node),
                is_error: node_is_error(&node),
                is_missing: node_is_missing(&node),
            },
        );
    }
    nodes
}

/// The parser's own tree for `source`, or `None` when the parser cannot be
/// set up for the language or produces no tree.
pub fn parse_raw(source: &[u8], language: &tree_sitter::Language) -> Option<tree_sitter::Tree> {
    let mut parser = parser_new();
    if !parser_set_language(&mut parser, language) {
        return None;
    }
    parser_parse(&mut parser, source, None)
}

/// Reparse source code incrementally after an edit: `old_tree` (the
/// parser's tree of the text before the edit) is told of `edit`, then
/// `source`, the edited text, is parsed reusing it. Returns `None` if the
/// parser cannot be set up for the tree's language or produces no tree. A
/// returned tree is well formed and spans exactly `source`.
pub fn reparse(source: &[u8], old_tree: &mut tree_sitter::Tree, edit: &EditSpec) -> (r: Option<
    SyntaxTree,
>)
    ensures
        r matches Some(t) ==> t.wf() && t.source_len == source@.len(),
{
    tree_edit(old_tree, edit);
    let language = tree_language(old_tree);
    let mut parser = parser_new();
    if !parser_set_language(&mut parser, &language) {
        return None;
    }
    let tree = match parser_parse(&mut parser, source, Some(&*old_tree)) {
        Some(t) => t,
        None => return None,
    };
    let nodes = collect_nodes(&tree);
    link_nodes(nodes, source.len())
}

/// Parse source code with the given tree-sitter language.
/// Returns `None` if the parser cannot be set up or fails to produce a tree.
/// A returned tree is well formed and spans exactly `source`.
pub fn parse(source: &[u8], language: &tree_sitter::Language) -> (r: Option<SyntaxTree>)
    ensures
        r matches Some(t) ==> t.wf() && t.source_len == source@.len(),
{
    let tree = match parse_raw(source, language) {
        Some(t) => t,
        None => return None,
    };
    let nodes = collect_nodes(&tree);
    link_nodes(nodes, source.len())
}

/// Node `k` spans exactly the byte range `start..end`.
pub open spec fn spans(ns: Seq<SyntaxNode>, k: int, start: int, end: int) -> bool {
    ns[k].start_byte == start && ns[k].end_byte == end
}

/// Find a node in the subtree rooted at `node` by exact byte range: the first
/// such node in preorder, or `None` when no node of the subtree spans it.
pub fn find_node_at(tree: &SyntaxTree, node: usize, start: usize, end: usize) -> (r: Option<usize>)
    requires
        node < tree.nodes@.len(),
    ensures
        match r {
            Some(m) => {
                &&& in_subtree(tree.nodes@, node as int, m as int)
                &&& spans(tree.nodes@, m as int, start as int, end as int)
                &&& forall|k: int|
                    node <= k < m ==> !spans(tree.nodes@, k, start as int, end as int)
            },
            None => forall|k: int|
                in_subtree(tree.nodes@, node as int, k) ==> !spans(
                    tree.nodes@,
                    k,
                    start as int,
                    end as int,
                ),
        },
{
    let e = tree.subtree_end(node);
    proof {
        crate::tree::lemma_subtree_end(tree.nodes@, node as int);
    }
    let mut k = node;
    while k < e
        invariant
            node <= k <= e,
            e == subtree_end(tree.nodes@, node as int),
            e <= tree.nodes@.len(),
            forall|j: int| node <= j < k ==> !spans(tree.nodes@, j, start as int, end as int),
        decreases e - k,
    {
        if tree.nodes[k].start_byte == start && tree.nodes[k].end_byte == end {
            return Some(k);
        }
        k = k + 1;
    }
    None
}

} // verus!
