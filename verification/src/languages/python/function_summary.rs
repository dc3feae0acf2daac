//! What function is the cursor in, with its signature details?

use vstd::prelude::*;

use super::parser::python_parses;
use super::function_parameters::parameter_list_speech;
use super::syntax::{
    describe_function_definition, function_at_line, function_containing,
    function_definition_speech, function_name, node_return_type, parse_python,
    python_syntax_tree, SyntaxTree, SyntaxTreeView,
};

verus! {

/// The summary of the innermost function definition that covers the line.
pub open spec fn function_summary_speech(tree: SyntaxTreeView, line: int) -> Option<Seq<char>> {
    match function_containing(tree.nodes, 0, line) {
        Some(f) => Some(function_definition_speech(tree, f)),
        None => None,
    }
}

/// The summary and the parameter reading speak of the same function: there
/// is a summary exactly when there is a parameter reading, and the summary
/// is the function's name, then the parameter reading, then the return type
/// if the function declares one.
pub proof fn law_summary_holds_parameters(tree: SyntaxTreeView, line: int)
    ensures
        function_summary_speech(tree, line) is Some == parameter_list_speech(tree, line) is Some,
        function_containing(tree.nodes, 0, line) matches Some(f) ==> function_summary_speech(
            tree,
            line,
        )->0 == "Function "@ + function_name(tree, f) + ". "@ + parameter_list_speech(
            tree,
            line,
        )->0 + match node_return_type(tree, f) {
            Some(returned) => " Returns "@ + returned + "."@,
            None => seq![],
        },
{
    reveal_strlit(". Returns ");
    reveal_strlit(" Returns ");
    reveal_strlit(".");
    assert(". Returns "@ == "."@ + " Returns "@);
}

/// Summarises the function of a parsed tree that covers the line.
pub fn summarize_function_in_tree(tree: &SyntaxTree, cursor_line: usize) -> (speech: Option<String>)
    ensures
        crate::text::opt_chars(speech) == function_summary_speech(tree@, cursor_line as int),
{
    match function_at_line(tree, cursor_line) {
        Some(f) => Some(describe_function_definition(tree, f)),
        None => None,
    }
}

/// Summarises the Python function containing the cursor, which may be
/// anywhere in the function, not only on its `def` line.
pub fn describe_function_summary(source: &str, cursor_line: usize) -> (speech: Option<String>)
    ensures
        match speech {
            Some(s) => python_parses(source@) && function_summary_speech(
                python_syntax_tree(source@),
                cursor_line as int,
            ) == Some(s@),
            None => !python_parses(source@) || function_summary_speech(
                python_syntax_tree(source@),
                cursor_line as int,
            ) is None,
        },
{
    let tree = match parse_python(source) {
        Some(tree) => tree,
        None => return None,
    };
    summarize_function_in_tree(&tree, cursor_line)
}

} // verus!
