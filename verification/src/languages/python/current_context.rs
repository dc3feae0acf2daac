//! Where is the cursor in the file's larger structure?

use vstd::prelude::*;

use super::parser::python_parses;
use super::syntax::{
    class_at_line, class_containing, class_name, function_at_line, function_containing,
    function_name, get_class_name, get_function_name, parse_python, python_syntax_tree,
    SyntaxTree, SyntaxTreeView,
};

verus! {

/// The context sentence for a line: the innermost class and the innermost
/// function that cover it, or top level.
pub open spec fn context_speech(tree: SyntaxTreeView, line: int) -> Seq<char> {
    match (class_containing(tree.nodes, 0, line), function_containing(tree.nodes, 0, line)) {
        (Some(c), Some(f)) => "Inside class "@ + class_name(tree, c) + ", function "@
            + function_name(tree, f) + "."@,
        (Some(c), None) => "Inside class "@ + class_name(tree, c) + "."@,
        (None, Some(f)) => "Inside function "@ + function_name(tree, f) + "."@,
        (None, None) => "Top level."@,
    }
}

/// Describes the context of a line in a parsed tree.
pub fn describe_context_in_tree(tree: &SyntaxTree, cursor_line: usize) -> (speech: String)
    ensures
        speech@ == context_speech(tree@, cursor_line as int),
{
    let class_node = class_at_line(tree, cursor_line);
    let function_node = function_at_line(tree, cursor_line);
    match (class_node, function_node) {
        (Some(c), Some(f)) => {
            let mut speech = String::from_str("Inside class ");
            speech.append(get_class_name(tree, c).as_str());
            speech.append(", function ");
            speech.append(get_function_name(tree, f).as_str());
            speech.append(".");
            speech
        },
        (Some(c), None) => {
            let mut speech = String::from_str("Inside class ");
            speech.append(get_class_name(tree, c).as_str());
            speech.append(".");
            speech
        },
        (None, Some(f)) => {
            let mut speech = String::from_str("Inside function ");
            speech.append(get_function_name(tree, f).as_str());
            speech.append(".");
            speech
        },
        (None, None) => String::from_str("Top level."),
    }
}

/// Describes where the cursor line stands in the Python source: inside a
/// class, a function, both, or at top level. None when the source cannot
/// be parsed.
pub fn describe_current_context(source: &str, cursor_line: usize) -> (speech: Option<String>)
    ensures
        match speech {
            Some(s) => python_parses(source@) && s@ == context_speech(
                python_syntax_tree(source@),
                cursor_line as int,
            ),
            None => !python_parses(source@),
        },
{
    let tree = match parse_python(source) {
        Some(tree) => tree,
        None => return None,
    };
    Some(describe_context_in_tree(&tree, cursor_line))
}

} // verus!
