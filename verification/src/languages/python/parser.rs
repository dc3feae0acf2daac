//! The calls into tree-sitter that parse Python source text.
//!
//! Each function here makes one tree-sitter call, or locates node `index`
//! of the tree (numbered in preorder, the root being 0) and reads one
//! property of it. A tree depends on the source text alone, so each result
//! is named as a function of the source text and the node's index.

use vstd::prelude::*;

verus! {

#[verifier::external_type_specification]
#[verifier::external_body]
pub struct ExTree(tree_sitter::Tree);

/// A tree-sitter syntax tree together with the text it was parsed from.
pub(crate) struct PythonSyntax {
    source: String,
    tree: tree_sitter::Tree,
}

impl View for PythonSyntax {
    type V = Seq<char>;

    /// The source text that the tree was parsed from.
    closed spec fn view(&self) -> Seq<char> {
        self.source@
    }
}

/// Whether tree-sitter produces a tree for the text with the Python grammar.
pub uninterp spec fn python_parses(source: Seq<char>) -> bool;

/// The number of nodes of the tree, the root included.
pub uninterp spec fn python_node_count(source: Seq<char>) -> nat;

/// The kind (grammar type) of node `index`.
pub uninterp spec fn python_node_kind(source: Seq<char>, index: int) -> Seq<char>;

/// Whether node `index` is named.
pub uninterp spec fn python_node_is_named(source: Seq<char>, index: int) -> bool;

/// The depth of node `index` below the root.
pub uninterp spec fn python_node_depth(source: Seq<char>, index: int) -> usize;

/// The row and column where node `index` starts.
pub uninterp spec fn python_node_start(source: Seq<char>, index: int) -> (usize, usize);

/// The row and column where node `index` ends.
pub uninterp spec fn python_node_end(source: Seq<char>, index: int) -> (usize, usize);

/// The byte offset where node `index` starts.
pub uninterp spec fn python_node_start_byte(source: Seq<char>, index: int) -> usize;

/// The byte offset where node `index` ends.
pub uninterp spec fn python_node_end_byte(source: Seq<char>, index: int) -> usize;

/// The byte range of the child of node `index` in the given field, if any.
pub uninterp spec fn python_field_span(source: Seq<char>, index: int, field: Seq<char>) -> Option<(usize, usize)>;

/// Parses the text with tree-sitter's Python grammar: `Parser::new`,
/// `Parser::set_language` with `tree_sitter_python::LANGUAGE`, then
/// `Parser::parse`. Claims only that a tree comes back exactly when
/// `python_parses` holds of the text, and that it is kept with the text it
/// was parsed from. Setting the language fails only for a grammar built
/// for a tree-sitter version that this one does not support; that failure
/// stops the program, as a broken build should.
#[verifier::external_body]
pub(crate) fn parse_source(source: &str) -> (syntax: Option<PythonSyntax>)
    ensures
        syntax is Some <==> python_parses(source@),
        syntax matches Some(s) ==> s@ == source@,
{
    let mut parser = tree_sitter::Parser::new();
    parser.set_language(&tree_sitter_python::LANGUAGE.into()).expect("Error loading Python grammar");
    let tree = parser.parse(source, None)?;
    Some(PythonSyntax { source: source.to_string(), tree })
}

/// `Node::descendant_count` of the root: claims that the result is the
/// node count that `python_node_count` names.
#[verifier::external_body]
pub(crate) fn node_count(syntax: &PythonSyntax) -> (count: usize)
    ensures
        count == python_node_count(syntax@),
{
    syntax.tree.root_node().descendant_count()
}

/// `Node::kind` of node `index`, located with `TreeCursor::goto_descendant`
/// from the root.
#[verifier::external_body]
pub(crate) fn node_kind(syntax: &PythonSyntax, index: usize) -> (kind: String)
    requires
        index < python_node_count(syntax@),
    ensures
        kind@ == python_node_kind(syntax@, index as int),
{
    let mut cursor = syntax.tree.walk();
    cursor.goto_descendant(index);
    cursor.node().kind().to_string()
}

/// `Node::is_named` of node `index`.
#[verifier::external_body]
pub(crate) fn node_is_named(syntax: &PythonSyntax, index: usize) -> (named: bool)
    requires
        index < python_node_count(syntax@),
    ensures
        named == python_node_is_named(syntax@, index as int),
{
    let mut cursor = syntax.tree.walk();
    cursor.goto_descendant(index);
    cursor.node().is_named()
}

/// `TreeCursor::depth` once the cursor stands on node `index`.
#[verifier::external_body]
pub(crate) fn node_depth(syntax: &PythonSyntax, index: usize) -> (depth: usize)
    requires
        index < python_node_count(syntax@),
    ensures
        depth == python_node_depth(syntax@, index as int),
{
    let mut cursor = syntax.tree.walk();
    cursor.goto_descendant(index);
    cursor.depth() as usize
}

/// `Node::start_position` of node `index`, as row and column.
#[verifier::external_body]
pub(crate) fn node_start(syntax: &PythonSyntax, index: usize) -> (position: (usize, usize))
    requires
        index < python_node_count(syntax@),
    ensures
        position == python_node_start(syntax@, index as int),
{
    let mut cursor = syntax.tree.walk();
    cursor.goto_descendant(index);
    let point = cursor.node().start_position();
    (point.row, point.column)
}

/// `Node::end_position` of node `index`, as row and column.
#[verifier::external_body]
pub(crate) fn node_end(syntax: &PythonSyntax, index: usize) -> (position: (usize, usize))
    requires
        index < python_node_count(syntax@),
    ensures
        position == python_node_end(syntax@, index as int),
{
    let mut cursor = syntax.tree.walk();
    cursor.goto_descendant(index);
    let point = cursor.node().end_position();
    (point.row, point.column)
}

/// `Node::start_byte` of node `index`.
#[verifier::external_body]
pub(crate) fn node_start_byte(syntax: &PythonSyntax, index: usize) -> (offset: usize)
    requires
        index < python_node_count(syntax@),
    ensures
        offset == python_node_start_byte(syntax@, index as int),
{
    let mut cursor = syntax.tree.walk();
    cursor.goto_descendant(index);
    cursor.node().start_byte()
}

/// `Node::end_byte` of node `index`.
#[verifier::external_body]
pub(crate) fn node_end_byte(syntax: &PythonSyntax, index: usize) -> (offset: usize)
    requires
        index < python_node_count(syntax@),
    ensures
        offset == python_node_end_byte(syntax@, index as int),
{
    let mut cursor = syntax.tree.walk();
    cursor.goto_descendant(index);
    cursor.node().end_byte()
}

/// `Node::child_by_field_name` on node `index`, with the found child's
/// `start_byte` and `end_byte`.
#[verifier::external_body]
pub(crate) fn node_field_span(syntax: &PythonSyntax, index: usize, field: &str) -> (span: Option<(usize, usize)>)
    requires
        index < python_node_count(syntax@),
    ensures
        span == python_field_span(syntax@, index as int, field@),
{
    let mut cursor = syntax.tree.walk();
    cursor.goto_descendant(index);
    match cursor.node().child_by_field_name(field) {
        Some(child) => Some((child.start_byte(), child.end_byte())),
        None => None,
    }
}

} // verus!
