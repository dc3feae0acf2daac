//! What local block controls the cursor line?

use vstd::prelude::*;

use super::parser::python_parses;
use super::syntax::{
    class_at_line, class_containing, class_name, describe_local_scope_node, function_at_line,
    function_containing, function_name, get_class_name, get_function_name, local_scope_at_line,
    local_scope_containing, local_scope_description, opt_index, parse_python,
    python_syntax_tree, SyntaxTree, SyntaxTreeView,
};

verus! {

/// The scope when no local block covers the line.
pub open spec fn non_local_scope(tree: SyntaxTreeView, class: Option<int>, function: Option<int>) -> Seq<char> {
    match (class, function) {
        (Some(c), Some(f)) => "function "@ + function_name(tree, f) + ", inside class "@
            + class_name(tree, c),
        (Some(c), None) => "class "@ + class_name(tree, c),
        (None, Some(f)) => "function "@ + function_name(tree, f),
        (None, None) => "top level"@,
    }
}

/// The class and function around a local block, if there are any.
pub open spec fn context_tail(tree: SyntaxTreeView, class: Option<int>, function: Option<int>) -> Option<Seq<char>> {
    match (class, function) {
        (Some(c), Some(f)) => Some(
            "inside class "@ + class_name(tree, c) + ", function "@ + function_name(tree, f),
        ),
        (Some(c), None) => Some("inside class "@ + class_name(tree, c)),
        (None, Some(f)) => Some("inside function "@ + function_name(tree, f)),
        (None, None) => None,
    }
}

/// What the scope sentence says of a line: the innermost local block and
/// its surroundings, or the innermost class or function, or top level.
pub open spec fn scope_body(tree: SyntaxTreeView, line: int) -> Seq<char> {
    let class = class_containing(tree.nodes, 0, line);
    let function = function_containing(tree.nodes, 0, line);
    match local_scope_containing(tree.nodes, 0, line) {
        Some(s) => local_scope_description(tree.nodes[s].kind) + match context_tail(
            tree,
            class,
            function,
        ) {
            Some(tail) => ", "@ + tail,
            None => seq![],
        },
        None => non_local_scope(tree, class, function),
    }
}

/// The scope sentence for a line.
pub open spec fn scope_speech(tree: SyntaxTreeView, line: int) -> Seq<char> {
    "Current scope: "@ + scope_body(tree, line) + "."@
}

/// Describes the current scope when there is no local block.
pub fn describe_non_local_scope(tree: &SyntaxTree, class_node: Option<usize>, function_node: Option<usize>) -> (speech: String)
    requires
        class_node matches Some(c) ==> c < tree.nodes@.len(),
        function_node matches Some(f) ==> f < tree.nodes@.len(),
    ensures
        speech@ == non_local_scope(tree@, opt_index(class_node), opt_index(function_node)),
{
    match (class_node, function_node) {
        (Some(c), Some(f)) => {
            let mut speech = String::from_str("function ");
            speech.append(get_function_name(tree, f).as_str());
            speech.append(", inside class ");
            speech.append(get_class_name(tree, c).as_str());
            speech
        },
        (Some(c), None) => {
            let mut speech = String::from_str("class ");
            speech.append(get_class_name(tree, c).as_str());
            speech
        },
        (None, Some(f)) => {
            let mut speech = String::from_str("function ");
            speech.append(get_function_name(tree, f).as_str());
            speech
        },
        (None, None) => String::from_str("top level"),
    }
}

/// Describes the class and function around a local block.
pub fn describe_context_tail(tree: &SyntaxTree, class_node: Option<usize>, function_node: Option<usize>) -> (speech: Option<String>)
    requires
        class_node matches Some(c) ==> c < tree.nodes@.len(),
        function_node matches Some(f) ==> f < tree.nodes@.len(),
    ensures
        crate::text::opt_chars(speech) == context_tail(
            tree@,
            opt_index(class_node),
            opt_index(function_node),
        ),
{
    match (class_node, function_node) {
        (Some(c), Some(f)) => {
            let mut speech = String::from_str("inside class ");
            speech.append(get_class_name(tree, c).as_str());
            speech.append(", function ");
            speech.append(get_function_name(tree, f).as_str());
            Some(speech)
        },
        (Some(c), None) => {
            let mut speech = String::from_str("inside class ");
            speech.append(get_class_name(tree, c).as_str());
            Some(speech)
        },
        (None, Some(f)) => {
            let mut speech = String::from_str("inside function ");
            speech.append(get_function_name(tree, f).as_str());
            Some(speech)
        },
        (None, None) => None,
    }
}

/// What the scope sentence of a parsed tree says of a line.
pub fn describe_scope_body(tree: &SyntaxTree, cursor_line: usize) -> (speech: String)
    ensures
        speech@ == scope_body(tree@, cursor_line as int),
{
    let local_scope_node = local_scope_at_line(tree, cursor_line);
    let class_node = class_at_line(tree, cursor_line);
    let function_node = function_at_line(tree, cursor_line);
    match local_scope_node {
        Some(scope_node) => {
            let mut speech = describe_local_scope_node(tree, scope_node);
            match describe_context_tail(tree, class_node, function_node) {
                Some(tail) => {
                    speech.append(", ");
                    speech.append(tail.as_str());
                },
                None => {},
            }
            speech
        },
        None => describe_non_local_scope(tree, class_node, function_node),
    }
}

/// The scope sentence for a line of a parsed tree.
pub fn describe_scope_in_tree(tree: &SyntaxTree, cursor_line: usize) -> (speech: String)
    ensures
        speech@ == scope_speech(tree@, cursor_line as int),
{
    let mut speech = String::from_str("Current scope: ");
    speech.append(describe_scope_body(tree, cursor_line).as_str());
    speech.append(".");
    speech
}

/// Describes the current Python scope at the cursor: what local block
/// controls the line, such as `Current scope: if statement, inside
/// function calculate total.` None when the source cannot be parsed.
pub fn describe_current_scope(source: &str, cursor_line: usize) -> (speech: Option<String>)
    ensures
        match speech {
            Some(s) => python_parses(source@) && s@ == scope_speech(
                python_syntax_tree(source@),
                cursor_line as int,
            ),
            None => !python_parses(source@),
        },
{
    let tree = match parse_python(source) {
        Some(tree) => tree,
        None => return None,
    };
    Some(describe_scope_in_tree(&tree, cursor_line))
}

} // verus!
