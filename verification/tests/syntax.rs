use code_reader_core::languages::python::signature::split_top_level_commas;
use code_reader_core::languages::python::syntax::{
    describe_function_definition, describe_function_parameters, describe_local_scope_node,
    find_class_definition_containing_line, find_function_definition_containing_line,
    find_function_definition_starting_on_line, find_local_scope_node_containing_line,
    get_class_name, get_function_name, parse_python,
};

// Finding Tests

#[test]
fn finds_class_containing_cursor_line() {
    let source = "\
    class Cart:
        def calculate_total(self):
            return 0
    ";
    let tree = parse_python(source).unwrap();
    let root = tree.root_node();
    let class_node = find_class_definition_containing_line(&tree, root, 2);
    assert!(class_node.is_some());
}

#[test]
fn finds_function_that_starts_on_cursor_line() {
    let source = "def calculate_total(price, tax_rate):\n   return price * tax_rate";
    let tree = parse_python(source).unwrap();
    let root = tree.root_node();
    let function_node = find_function_definition_starting_on_line(&tree, root, 0);
    assert!(function_node.is_some());
}

#[test]
fn finds_function_containing_cursor_line() {
    let source = "def calculate_total(price, tax_rate):\n    return price * tax_rate";
    let tree = parse_python(source).unwrap();
    let root = tree.root_node();
    let function_node = find_function_definition_starting_on_line(&tree, root, 0);
    assert!(function_node.is_some());
}

#[test]
fn finds_local_if_scope_containing_cursor_line() {
    let source = "\
            def calculate_total(price):
                if price > 0:
                    return price
            ";
    let tree = parse_python(source).unwrap();
    let root = tree.root_node();
    let scope_node = find_local_scope_node_containing_line(&tree, root, 2);
    assert!(scope_node.is_some());
    assert_eq!(describe_local_scope_node(&tree, scope_node.unwrap()), "if statement");
}

#[test]
fn finds_inner_local_scope_when_scopes_are_nested() {
    let source = "\
            def process_items(items):
                for item in items:
                    if item:
                        print(item)
            ";
    let tree = parse_python(source).unwrap();
    let root = tree.root_node();
    let scope_node = find_local_scope_node_containing_line(&tree, root, 3);
    assert!(scope_node.is_some());
    assert_eq!(describe_local_scope_node(&tree, scope_node.unwrap()), "if statement");
}

#[test]
fn finds_for_loop_scope_containing_cursor_line() {
    let source = "\
            def process_items(items):
                for item in items:
                    print(item)
            ";
    let tree = parse_python(source).unwrap();
    let root = tree.root_node();
    let scope_node = find_local_scope_node_containing_line(&tree, root, 2);
    assert!(scope_node.is_some());
    assert_eq!(describe_local_scope_node(&tree, scope_node.unwrap()), "for loop");
}

// Does Not Find Tests

#[test]
fn does_not_find_class_when_cursor_is_outside_class() {
    let source = "\
    class Cart:
        pass

    x = 10
    ";
    let tree = parse_python(source).unwrap();
    let root = tree.root_node();
    let class_node = find_class_definition_containing_line(&tree, root, 3);
    assert!(class_node.is_none());
}

#[test]
fn does_not_find_starting_function_when_cursor_is_in_body() {
    let source = "def calculate_total(price, tax_rate):\n   return price * tax_rate";
    let tree = parse_python(source).unwrap();
    let root = tree.root_node();
    let function_node = find_function_definition_starting_on_line(&tree, root, 1);
    assert!(function_node.is_none());
}

#[test]
fn does_not_find_local_scope_contains_cursor_line() {
    let source = "\
            def calculate_total(price):
                return price
            ";
    let tree = parse_python(source).unwrap();
    let root = tree.root_node();
    let scope_node = find_local_scope_node_containing_line(&tree, root, 1);
    assert!(scope_node.is_none());
}

// Getting Tests

#[test]
fn gets_class_name() {
    let source = "\
    class Cart:
        pass
    ";
    let tree = parse_python(source).unwrap();
    let root = tree.root_node();
    let class_node =
        find_class_definition_containing_line(&tree, root, 1).expect("Expected class node");
    let name = get_class_name(&tree, class_node);
    assert_eq!(name, "Cart");
}

#[test]
fn gets_function_name() {
    let source = "\
    def calculate_total():
        return 0
    ";
    let tree = parse_python(source).unwrap();
    let root = tree.root_node();
    let function_node =
        find_function_definition_containing_line(&tree, root, 1).expect("Expected function node");
    let name = get_function_name(&tree, function_node);
    assert_eq!(name, "calculate total");
}

// Describing Tests

#[test]
fn describes_function_parameters_only() {
    let source = "def calculate_total(price, tax_rate):\n    return price * tax_rate";
    let tree = parse_python(source).unwrap();
    let root = tree.root_node();
    let function_node = find_function_definition_starting_on_line(&tree, root, 0)
        .expect("Expected function node");
    let speech = describe_function_parameters(&tree, function_node);
    assert_eq!(speech, "Parameters: price; tax rate.");
}

#[test]
fn describes_typed_function_parameters_only() {
    let source = "def calculate_total(price: float, tax_rate: float = 0.19) -> float:\n    return price * tax_rate";
    let tree = parse_python(source).unwrap();
    let root = tree.root_node();
    let function_node = find_function_definition_starting_on_line(&tree, root, 0)
        .expect("Expected function node");
    let speech = describe_function_parameters(&tree, function_node);
    assert_eq!(
        speech,
        "Parameters: price, float; tax rate, float, default zero point one nine."
    );
}

#[test]
fn describes_no_parameters_only() {
    let source = "def main():\n    return 0";
    let tree = parse_python(source).unwrap();
    let root = tree.root_node();
    let function_node = find_function_definition_starting_on_line(&tree, root, 0)
        .expect("Expected function node");
    let speech = describe_function_parameters(&tree, function_node);
    assert_eq!(speech, "No parameters.");
}

#[test]
fn describes_function_definition_with_parameters() {
    let source = "def calculate_total(price, tax_rate):\n    return price * tax_rate";
    let tree = parse_python(source).unwrap();
    let root = tree.root_node();
    let function_node = find_function_definition_starting_on_line(&tree, root, 0)
        .expect("Expected function node");
    let speech = describe_function_definition(&tree, function_node);
    assert_eq!(speech, "Function calculate total. Parameters: price; tax rate.");
}

#[test]
fn describes_function_definition_with_no_parameters() {
    let source = "def main():\n    return 0";
    let tree = parse_python(source).unwrap();
    let root = tree.root_node();
    let function_node = find_function_definition_starting_on_line(&tree, root, 0)
        .expect("Expected function node");
    let speech = describe_function_definition(&tree, function_node);
    assert_eq!(speech, "Function main. No parameters.");
}

#[test]
fn describes_typed_parameters_and_return_type() {
    let source = "def calculate_total(price: float, tax_rate: float) -> float:\n    return price * tax_rate";
    let tree = parse_python(source).unwrap();
    let root = tree.root_node();
    let function_node = find_function_definition_starting_on_line(&tree, root, 0)
        .expect("Expected function node");
    let speech = describe_function_definition(&tree, function_node);
    assert_eq!(
        speech,
        "Function calculate total. Parameters: price, float; tax rate, float. Returns float."
    );
}

#[test]
fn describes_default_parameter_values() {
    let source = "def calculate_total(price: float, tax_rate: float = 0.19) -> float:\n    return price * (1 + tax_rate)";
    let tree = parse_python(source).unwrap();
    let root = tree.root_node();
    let function_node = find_function_definition_starting_on_line(&tree, root, 0)
        .expect("Expected function node");
    let speech = describe_function_definition(&tree, function_node);
    assert_eq!(
        speech,
        "Function calculate total. Parameters: price, float; tax rate, float, default zero point one nine. Returns float."
    );
}

#[test]
fn describes_string_default_values() {
    let source = "def greet(name: str = \"guest\") -> str:\n    return name";
    let tree = parse_python(source).unwrap();
    let root = tree.root_node();
    let function_node = find_function_definition_starting_on_line(&tree, root, 0)
        .expect("Expected function node");
    let speech = describe_function_definition(&tree, function_node);
    assert_eq!(
        speech,
        "Function greet. Parameters: name, str, default guest. Returns str."
    );
}

#[test]
fn describes_union_like_annotations() {
    let source = "def find_user(name: str | None = None) -> bool:\n    return True";
    let tree = parse_python(source).unwrap();
    let root = tree.root_node();
    let function_node = find_function_definition_starting_on_line(&tree, root, 0)
        .expect("Expected function node");
    let speech = describe_function_definition(&tree, function_node);
    assert_eq!(
        speech,
        "Function find user. Parameters: name, str or none, default none. Returns bool."
    );
}

// Splitting Tests

#[test]
fn splits_top_level_commas_without_splitting_inside_defaults() {
    let parts = split_top_level_commas("value: tuple[int, int] = (1, 2), name: str = \"a,b\"");
    assert_eq!(
        parts,
        vec![
            "value: tuple[int, int] = (1, 2)".to_string(),
            "name: str = \"a,b\"".to_string()
        ]
    );
}
