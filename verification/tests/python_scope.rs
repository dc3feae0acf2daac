use code_reader_core::languages::python::describe_current_scope;

#[test]
fn describes_top_level_scope() {
    let speech = describe_current_scope("import math\n\nx = 10\n", 0);
    assert_eq!(speech, Some("Current scope: top level.".to_string()));
}

#[test]
fn describes_function_scope_when_not_inside_local_block() {
    let source = "\
            def calculate_total(price):
                return price
            ";
    let speech = describe_current_scope(source, 1);
    assert_eq!(
        speech,
        Some("Current scope: function calculate total.".to_string())
    );
}

#[test]
fn describes_class_scope_when_inside_class_but_outside_method() {
    let source = "\
            class Cart:
                tax_rate = 0.19

                def calculate_total(self):
                    return 0
            ";
    let speech = describe_current_scope(source, 1);
    assert_eq!(speech, Some("Current scope: class Cart.".to_string()));
}

#[test]
fn describes_method_scope_when_not_inside_local_block() {
    let source = "\
            class Cart:
                def calculate_total(self, price):
                    return price
            ";
    let speech = describe_current_scope(source, 2);
    assert_eq!(
        speech,
        Some("Current scope: function calculate total, inside class Cart.".to_string())
    );
}

#[test]
fn describes_if_scope_inside_function() {
    let source = "\
            def calculate_total(price):
                if price > 0:
                    return price
            ";
    let speech = describe_current_scope(source, 2);
    assert_eq!(
        speech,
        Some("Current scope: if statement, inside function calculate total.".to_string())
    );
}

#[test]
fn describes_for_loop_scope_inside_function() {
    let source = "\
            def process_items(items):
                for item in items:
                    print(item)
            ";
    let speech = describe_current_scope(source, 2);
    assert_eq!(
        speech,
        Some("Current scope: for loop, inside function process items.".to_string())
    );
}

#[test]
fn describes_for_loop_scope_inside_method() {
    let source = "\
            class Cart:
                def print_items(self, items):
                    for item in items:
                        print(item)
            ";
    let speech = describe_current_scope(source, 3);
    assert_eq!(
        speech,
        Some("Current scope: for loop, inside class Cart, function print items.".to_string())
    );
}

#[test]
fn prefers_inner_local_scope() {
    let source = "\
            def process_items(items):
                for item in items:
                    if item:
                        print(item)
            ";
    let speech = describe_current_scope(source, 3);
    assert_eq!(
        speech,
        Some("Current scope: if statement, inside function process items.".to_string())
    );
}

#[test]
fn describes_while_loop_scope() {
    let source = "\
            def countdown(value):
                while value > 0:
                    value -= 1
            ";
    let speech = describe_current_scope(source, 2);
    assert_eq!(
        speech,
        Some("Current scope: while loop, inside function countdown.".to_string())
    );
}

#[test]
fn describes_top_level_local_block_without_context() {
    let source = "for item in items:\n    print(item)\n";
    let speech = describe_current_scope(source, 1);
    assert_eq!(speech, Some("Current scope: for loop.".to_string()));
}

#[test]
fn describes_try_and_with_blocks() {
    let source = "try:\n    with open(name) as handle:\n        read(handle)\nexcept ValueError:\n    pass\n";
    assert_eq!(
        describe_current_scope(source, 2),
        Some("Current scope: with statement.".to_string())
    );
    assert_eq!(
        describe_current_scope(source, 4),
        Some("Current scope: except clause.".to_string())
    );
}
