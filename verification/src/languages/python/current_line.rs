//! Can the current physical Python line be described structurally?

use vstd::prelude::*;

use super::parser::python_parses;
use super::syntax::{
    describe_function_definition, function_definition_speech, function_starting_at_line,
    function_starting_on, law_function_starting_on, parse_python, python_syntax_tree,
    SyntaxTree, SyntaxTreeView,
};

verus! {

/// The structural description of a line: the first function definition
/// that starts on it, if there is one.
pub open spec fn current_line_speech(tree: SyntaxTreeView, line: int) -> Option<Seq<char>> {
    match function_starting_on(tree.nodes, 0, line) {
        Some(f) => Some(function_definition_speech(tree, f)),
        None => None,
    }
}

/// A line is described structurally only when a function definition starts
/// on it, and then the description is that function's.
pub proof fn law_structural_line_is_def_line(tree: SyntaxTreeView, line: int)
    ensures
        current_line_speech(tree, line) matches Some(speech) ==> exists|f: int|
            0 <= f < tree.nodes.len() && tree.nodes[f].kind == "function_definition"@
                && tree.nodes[f].start_row == line && speech == #[trigger] function_definition_speech(
                tree,
                f,
            ),
{
    law_function_starting_on(tree.nodes, 0, line);
    match function_starting_on(tree.nodes, 0, line) {
        Some(f) => {
            super::syntax::lemma_subtree_end_bounds(tree.nodes, 0);
        },
        None => {},
    }
}

/// Describes a line of a parsed tree structurally, if it can be.
pub fn describe_line_in_tree(tree: &SyntaxTree, cursor_line: usize) -> (speech: Option<String>)
    ensures
        crate::text::opt_chars(speech) == current_line_speech(tree@, cursor_line as int),
{
    match function_starting_at_line(tree, cursor_line) {
        Some(f) => Some(describe_function_definition(tree, f)),
        None => None,
    }
}

/// Tries to describe the current Python line structurally: only a function
/// definition that starts on the cursor line is described. Otherwise, and
/// when the source cannot be parsed, there is no description and the caller
/// can fall back to simple speech.
pub fn describe_current_line(source: &str, cursor_line: usize) -> (speech: Option<String>)
    ensures
        match speech {
            Some(s) => python_parses(source@) && current_line_speech(
                python_syntax_tree(source@),
                cursor_line as int,
            ) == Some(s@),
            None => !python_parses(source@) || current_line_speech(
                python_syntax_tree(source@),
                cursor_line as int,
            ) is None,
        },
{
    let tree = match parse_python(source) {
        Some(tree) => tree,
        None => return None,
    };
    describe_line_in_tree(&tree, cursor_line)
}

} // verus!
