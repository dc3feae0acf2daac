//! What inputs does the function at the cursor take?

use vstd::prelude::*;

use super::parser::python_parses;
use super::syntax::{
    describe_function_parameters, function_at_line, function_containing,
    function_parameters_speech, parse_python, python_syntax_tree, SyntaxTree, SyntaxTreeView,
};

verus! {

/// The parameters of the innermost function definition that covers the line.
pub open spec fn parameter_list_speech(tree: SyntaxTreeView, line: int) -> Option<Seq<char>> {
    match function_containing(tree.nodes, 0, line) {
        Some(f) => Some(function_parameters_speech(tree, f)),
        None => None,
    }
}

/// Describes the parameters of the function of a parsed tree that covers the line.
pub fn describe_parameters_in_tree(tree: &SyntaxTree, cursor_line: usize) -> (speech: Option<String>)
    ensures
        crate::text::opt_chars(speech) == parameter_list_speech(tree@, cursor_line as int),
{
    match function_at_line(tree, cursor_line) {
        Some(f) => Some(describe_function_parameters(tree, f)),
        None => None,
    }
}

/// Describes only the parameters of the Python function containing the
/// cursor: not its name, return type or context.
pub fn describe_function_parameter_list(source: &str, cursor_line: usize) -> (speech: Option<String>)
    ensures
        match speech {
            Some(s) => python_parses(source@) && parameter_list_speech(
                python_syntax_tree(source@),
                cursor_line as int,
            ) == Some(s@),
            None => !python_parses(source@) || parameter_list_speech(
                python_syntax_tree(source@),
                cursor_line as int,
            ) is None,
        },
{
    let tree = match parse_python(source) {
        Some(tree) => tree,
        None => return None,
    };
    describe_parameters_in_tree(&tree, cursor_line)
}

} // verus!
