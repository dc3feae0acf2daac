use code_reader_core::languages::python::current_context::describe_context_in_tree;
use code_reader_core::languages::python::current_line::describe_line_in_tree;
use code_reader_core::languages::python::current_scope::describe_scope_in_tree;
use code_reader_core::languages::python::current_symbol::{describe_symbol_in_tree, find_leaf_at};
use code_reader_core::languages::python::function_parameters::describe_parameters_in_tree;
use code_reader_core::languages::python::function_summary::summarize_function_in_tree;
use code_reader_core::languages::python::syntax::{
    class_at_line, describe_function_definition, describe_local_scope_node, function_at_line,
    function_starting_at_line, get_class_name, get_function_name, local_scope_at_line,
    parse_python, SyntaxNode, SyntaxTree,
};

fn node(
    kind: &str,
    named: bool,
    depth: usize,
    start: (usize, usize),
    end: (usize, usize),
    bytes: (usize, usize),
    name_span: Option<(usize, usize)>,
    parameters_span: Option<(usize, usize)>,
) -> SyntaxNode {
    SyntaxNode {
        kind: kind.to_string(),
        named,
        depth,
        start_row: start.0,
        start_column: start.1,
        end_row: end.0,
        end_column: end.1,
        start_byte: bytes.0,
        end_byte: bytes.1,
        name_span,
        parameters_span,
    }
}

/// The tree of
/// ```text
/// class Cart:
///     def add_item(self, price) -> int:
///         if price:
///             pass
/// x = 1
/// ```
/// written by hand, in preorder with depths.
fn cart_tree() -> SyntaxTree {
    let source = "class Cart:\n    def add_item(self, price) -> int:\n        if price:\n            pass\nx = 1\n";
    assert_eq!(&source[6..10], "Cart");
    assert_eq!(&source[20..28], "add_item");
    assert_eq!(&source[28..41], "(self, price)");
    assert_eq!(&source[61..66], "price");
    assert_eq!(&source[80..84], "pass");
    let nodes = vec![
        node("module", true, 0, (0, 0), (5, 0), (0, 91), None, None),
        node("class_definition", true, 1, (0, 0), (3, 16), (0, 84), Some((6, 10)), None),
        node("block", true, 2, (1, 4), (3, 16), (16, 84), None, None),
        node(
            "function_definition",
            true,
            3,
            (1, 4),
            (3, 16),
            (16, 84),
            Some((20, 28)),
            Some((28, 41)),
        ),
        node("block", true, 4, (2, 8), (3, 16), (58, 84), None, None),
        node("if_statement", true, 5, (2, 8), (3, 16), (58, 84), None, None),
        node("identifier", true, 6, (2, 11), (2, 16), (61, 66), None, None),
        node("block", true, 6, (3, 12), (3, 16), (80, 84), None, None),
        node("pass_statement", true, 7, (3, 12), (3, 16), (80, 84), None, None),
        node("expression_statement", true, 1, (4, 0), (4, 5), (85, 90), None, None),
        node("assignment", true, 2, (4, 0), (4, 5), (85, 90), None, None),
        node("identifier", true, 3, (4, 0), (4, 1), (85, 86), None, None),
        node("=", false, 3, (4, 2), (4, 3), (87, 88), None, None),
        node("integer", true, 3, (4, 4), (4, 5), (89, 90), None, None),
    ];
    SyntaxTree { source: source.to_string(), nodes }
}

#[test]
fn searches_a_hand_built_tree() {
    let tree = cart_tree();
    assert_eq!(class_at_line(&tree, 0), Some(1));
    assert_eq!(class_at_line(&tree, 3), Some(1));
    assert_eq!(class_at_line(&tree, 4), None);
    assert_eq!(function_at_line(&tree, 0), None);
    assert_eq!(function_at_line(&tree, 2), Some(3));
    assert_eq!(function_starting_at_line(&tree, 1), Some(3));
    assert_eq!(function_starting_at_line(&tree, 2), None);
    assert_eq!(local_scope_at_line(&tree, 1), None);
    assert_eq!(local_scope_at_line(&tree, 3), Some(5));
    assert_eq!(local_scope_at_line(&tree, 4), None);
}

#[test]
fn names_and_describes_hand_built_nodes() {
    let tree = cart_tree();
    assert_eq!(get_class_name(&tree, 1), "Cart");
    assert_eq!(get_function_name(&tree, 3), "add item");
    assert_eq!(describe_local_scope_node(&tree, 5), "if statement");
    assert_eq!(
        describe_function_definition(&tree, 3),
        "Function add item. Parameters: self; price. Returns int."
    );
}

#[test]
fn reads_a_hand_built_tree() {
    let tree = cart_tree();
    assert_eq!(
        describe_line_in_tree(&tree, 1),
        Some("Function add item. Parameters: self; price. Returns int.".to_string())
    );
    assert_eq!(describe_line_in_tree(&tree, 2), None);
    assert_eq!(
        summarize_function_in_tree(&tree, 3),
        Some("Function add item. Parameters: self; price. Returns int.".to_string())
    );
    assert_eq!(
        describe_parameters_in_tree(&tree, 3),
        Some("Parameters: self; price.".to_string())
    );
    assert_eq!(describe_parameters_in_tree(&tree, 4), None);
    assert_eq!(describe_context_in_tree(&tree, 2), "Inside class Cart, function add item.");
    assert_eq!(describe_context_in_tree(&tree, 4), "Top level.");
    assert_eq!(
        describe_scope_in_tree(&tree, 3),
        "Current scope: if statement, inside class Cart, function add item."
    );
    assert_eq!(describe_scope_in_tree(&tree, 0), "Current scope: class Cart.");
    assert_eq!(describe_scope_in_tree(&tree, 4), "Current scope: top level.");
}

#[test]
fn finds_leaves_of_a_hand_built_tree() {
    let tree = cart_tree();
    assert_eq!(find_leaf_at(&tree, 2, 12), Some(6));
    assert_eq!(find_leaf_at(&tree, 4, 2), Some(12));
    assert_eq!(find_leaf_at(&tree, 4, 3), None);
    assert_eq!(describe_symbol_in_tree(&tree, 2, 11), Some("Symbol price.".to_string()));
    assert_eq!(describe_symbol_in_tree(&tree, 4, 2), Some("Operator equals.".to_string()));
    assert_eq!(describe_symbol_in_tree(&tree, 3, 13), None);
}

#[test]
fn an_empty_tree_has_nothing_to_find() {
    let tree = SyntaxTree { source: String::new(), nodes: Vec::new() };
    assert_eq!(class_at_line(&tree, 0), None);
    assert_eq!(function_at_line(&tree, 0), None);
    assert_eq!(function_starting_at_line(&tree, 0), None);
    assert_eq!(local_scope_at_line(&tree, 0), None);
    assert_eq!(describe_context_in_tree(&tree, 0), "Top level.");
}

#[test]
fn hand_built_tree_is_well_nested() {
    assert!(cart_tree().is_well_nested());
    assert!(SyntaxTree { source: String::new(), nodes: Vec::new() }.is_well_nested());
}

#[test]
fn a_child_outside_its_parent_rows_is_not_well_nested() {
    let mut tree = cart_tree();
    tree.nodes[6].end_row = 9;
    assert!(!tree.is_well_nested());
}

#[test]
fn a_named_node_under_an_anonymous_one_is_not_well_nested() {
    let mut tree = cart_tree();
    tree.nodes[5].named = false;
    assert!(!tree.is_well_nested());
}

#[test]
fn parsed_python_trees_are_well_nested() {
    let sources = [
        "import math\n\nx = 10\n",
        "class Cart:\n    def total(self, items: list[int] = (1, 2)) -> int:\n        for i in items:\n            if i not in self.seen and i is not None:\n                pass\n        return 0\n",
        "def f(:\n  broken",
        "x = [\n  1,\n  2,\n]\ntry:\n    y = x\nexcept Exception:\n    pass\nfinally:\n    pass\n",
        "",
    ];
    for source in sources {
        let tree = parse_python(source).unwrap();
        assert!(tree.is_well_nested(), "not well nested: {source:?}");
    }
}
