//! What symbol or token is under the cursor?

use vstd::prelude::*;

use crate::speech::make_simple_speech_text;
use crate::speech::simple::simple_speech;
use crate::text::{opt_chars, span_text, text_in_span};

use super::parser::python_parses;
use super::syntax::{parse_python, python_syntax_tree, subtree_end, NodeView, SyntaxTree, SyntaxTreeView};

verus! {

/// Whether the node's extent covers the position; the end is exclusive.
pub open spec fn covers_position(node: NodeView, line: int, column: int) -> bool {
    &&& (node.start_row < line || (node.start_row == line && node.start_column <= column))
    &&& (line < node.end_row || (line == node.end_row && column < node.end_column))
}

/// Whether node `i` has no children.
pub open spec fn is_leaf(nodes: Seq<NodeView>, i: int) -> bool {
    subtree_end(nodes, i) == i + 1
}

/// The last node before index `k` that is a leaf and covers the position.
pub open spec fn leaf_at(nodes: Seq<NodeView>, line: int, column: int, k: int) -> Option<int>
    decreases k,
{
    if k <= 0 || k > nodes.len() {
        None
    } else if is_leaf(nodes, k - 1) && covers_position(nodes[k - 1], line, column) {
        Some(k - 1)
    } else {
        leaf_at(nodes, line, column, k - 1)
    }
}

/// How an operator token is read.
pub open spec fn operator_word(token: Seq<char>) -> Option<Seq<char>> {
    if token == "+"@ {
        Some("plus"@)
    } else if token == "-"@ {
        Some("minus"@)
    } else if token == "*"@ {
        Some("times"@)
    } else if token == "/"@ {
        Some("divided by"@)
    } else if token == "//"@ {
        Some("floor divided by"@)
    } else if token == "%"@ {
        Some("modulo"@)
    } else if token == "**"@ {
        Some("power"@)
    } else if token == "="@ {
        Some("equals"@)
    } else if token == "=="@ {
        Some("equal to"@)
    } else if token == "!="@ {
        Some("not equal to"@)
    } else if token == "<"@ {
        Some("less than"@)
    } else if token == "<="@ {
        Some("less than or equal to"@)
    } else if token == ">"@ {
        Some("greater than"@)
    } else if token == ">="@ {
        Some("greater than or equal to"@)
    } else {
        None
    }
}

/// The description of the token at a position: an identifier is read as a
/// symbol, an operator by its word; other tokens, and positions between
/// tokens, have none.
pub open spec fn symbol_speech(tree: SyntaxTreeView, line: int, column: int) -> Option<Seq<char>> {
    match leaf_at(tree.nodes, line, column, tree.nodes.len() as int) {
        Some(i) => {
            let node = tree.nodes[i];
            if node.kind == "identifier"@ {
                match span_text(tree.source, (node.start_byte, node.end_byte)) {
                    Some(text) => Some("Symbol "@ + simple_speech(text) + "."@),
                    None => None,
                }
            } else if !node.named {
                match operator_word(node.kind) {
                    Some(word) => Some("Operator "@ + word + "."@),
                    None => None,
                }
            } else {
                None
            }
        },
        None => None,
    }
}

/// The word for an operator token of node `i`.
fn operator_word_of(tree: &SyntaxTree, i: usize) -> (word: Option<String>)
    requires
        i < tree.nodes@.len(),
    ensures
        opt_chars(word) == operator_word(tree@.nodes[i as int].kind),
{
    if tree.kind_is(i, "+") {
        Some(String::from_str("plus"))
    } else if tree.kind_is(i, "-") {
        Some(String::from_str("minus"))
    } else if tree.kind_is(i, "*") {
        Some(String::from_str("times"))
    } else if tree.kind_is(i, "/") {
        Some(String::from_str("divided by"))
    } else if tree.kind_is(i, "//") {
        Some(String::from_str("floor divided by"))
    } else if tree.kind_is(i, "%") {
        Some(String::from_str("modulo"))
    } else if tree.kind_is(i, "**") {
        Some(String::from_str("power"))
    } else if tree.kind_is(i, "=") {
        Some(String::from_str("equals"))
    } else if tree.kind_is(i, "==") {
        Some(String::from_str("equal to"))
    } else if tree.kind_is(i, "!=") {
        Some(String::from_str("not equal to"))
    } else if tree.kind_is(i, "<") {
        Some(String::from_str("less than"))
    } else if tree.kind_is(i, "<=") {
        Some(String::from_str("less than or equal to"))
    } else if tree.kind_is(i, ">") {
        Some(String::from_str("greater than"))
    } else if tree.kind_is(i, ">=") {
        Some(String::from_str("greater than or equal to"))
    } else {
        None
    }
}

/// The leaf node covering a position, if any.
pub fn find_leaf_at(tree: &SyntaxTree, line: usize, column: usize) -> (found: Option<usize>)
    ensures
        super::syntax::opt_index(found) == leaf_at(
            tree@.nodes,
            line as int,
            column as int,
            tree@.nodes.len() as int,
        ),
        found matches Some(i) ==> i < tree.nodes@.len(),
{
    let mut k = tree.nodes.len();
    while k > 0
        invariant
            k <= tree.nodes@.len(),
            leaf_at(tree@.nodes, line as int, column as int, tree@.nodes.len() as int) == leaf_at(
                tree@.nodes,
                line as int,
                column as int,
                k as int,
            ),
        decreases k,
    {
        let i = k - 1;
        let node = &tree.nodes[i];
        let starts_before = node.start_row < line || (node.start_row == line && node.start_column
            <= column);
        let ends_after = line < node.end_row || (line == node.end_row && column < node.end_column);
        if tree.subtree_end(i) == k && starts_before && ends_after {
            return Some(i);
        }
        k = i;
    }
    None
}

/// Describes the token at a position of a parsed tree.
pub fn describe_symbol_in_tree(tree: &SyntaxTree, line: usize, column: usize) -> (speech: Option<String>)
    ensures
        opt_chars(speech) == symbol_speech(tree@, line as int, column as int),
{
    let i = match find_leaf_at(tree, line, column) {
        Some(i) => i,
        None => return None,
    };
    if tree.kind_is(i, "identifier") {
        match text_in_span(tree.source.as_str(), tree.nodes[i].start_byte, tree.nodes[i].end_byte) {
            Some(text) => {
                let mut speech = String::from_str("Symbol ");
                speech.append(make_simple_speech_text(text.as_str()).as_str());
                speech.append(".");
                Some(speech)
            },
            None => None,
        }
    } else if !tree.nodes[i].named {
        match operator_word_of(tree, i) {
            Some(word) => {
                let mut speech = String::from_str("Operator ");
                speech.append(word.as_str());
                speech.append(".");
                Some(speech)
            },
            None => None,
        }
    } else {
        None
    }
}

/// Describes the Python symbol or token at the cursor: the line is
/// zero-based, and the column counts bytes from the start of the line.
pub fn describe_current_symbol(source: &str, cursor_line: usize, cursor_column: usize) -> (speech: Option<String>)
    ensures
        match speech {
            Some(s) => python_parses(source@) && symbol_speech(
                python_syntax_tree(source@),
                cursor_line as int,
                cursor_column as int,
            ) == Some(s@),
            None => !python_parses(source@) || symbol_speech(
                python_syntax_tree(source@),
                cursor_line as int,
                cursor_column as int,
            ) is None,
        },
{
    let tree = match parse_python(source) {
        Some(tree) => tree,
        None => return None,
    };
    describe_symbol_in_tree(&tree, cursor_line, cursor_column)
}

} // verus!
