use code_reader_core::languages::python::{describe_current_context, describe_current_line};

#[test]
fn describes_top_level_context() {
    let speech = describe_current_context("import math\n\nx = 10\n", 0);
    assert_eq!(speech, Some("Top level.".to_string()));
}

#[test]
fn describes_function_context() {
    let source = "\
            def calculate_total(price, tax_rate):
                return price * tax_rate
            ";
    let speech = describe_current_context(source, 1);
    assert_eq!(speech, Some("Inside function calculate total.".to_string()));
}

#[test]
fn describes_class_context_when_inside_class_but_outside_method() {
    let source = "\
            class Cart:
                tax_rate = 0.19

                def calculate_total(self):
                    return 0
            ";
    let speech = describe_current_context(source, 1);
    assert_eq!(speech, Some("Inside class Cart.".to_string()));
}

#[test]
fn describes_class_and_function_context_when_inside_method() {
    let source = "\
            class Cart:
                def calculate_total(self, price):
                    return price
            ";
    let speech = describe_current_context(source, 2);
    assert_eq!(
        speech,
        Some("Inside class Cart, function calculate total.".to_string())
    );
}

#[test]
fn prefers_inner_function_for_nested_function_context() {
    let source = "\
            def outer():
                def inner(value):
                    return value
                return inner(1)
            ";
    let speech = describe_current_context(source, 2);
    assert_eq!(speech, Some("Inside function inner.".to_string()));
}

#[test]
fn describes_nested_function_inside_method() {
    let source = "\
            class Cart:
                def calculate_total(self, price):
                    def apply_tax(value):
                        return value * 1.19
                    return apply_tax(price)
            ";
    let speech = describe_current_context(source, 3);
    assert_eq!(
        speech,
        Some("Inside class Cart, function apply tax.".to_string())
    );
}

// Current line

#[test]
fn describes_function_definition_when_cursor_is_on_def_line() {
    let source = "def calculate_total(price, tax_rate):\n    return price * tax_rate";
    let speech = describe_current_line(source, 0);
    assert_eq!(
        speech,
        Some("Function calculate total. Parameters: price; tax rate.".to_string())
    );
}

#[test]
fn returns_none_when_cursor_is_inside_function_body() {
    let source = "def calculate_total(price, tax_rate):\n    return price * tax_rate";
    let speech = describe_current_line(source, 1);
    assert_eq!(speech, None);
}

#[test]
fn describes_method_definition_line_inside_class() {
    let source = "class Cart:\n    def add_item(self, item: str) -> None:\n        pass\n";
    let speech = describe_current_line(source, 1);
    assert_eq!(
        speech,
        Some("Function add item. Parameters: self; item, str. Returns none.".to_string())
    );
}
