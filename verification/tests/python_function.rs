use code_reader_core::languages::python::{describe_function_parameter_list, describe_function_summary};

// Parameters

#[test]
fn describes_parameters_when_cursor_is_on_def_line() {
    let source = "def calculate_total(price, tax_rate):\n    return price * tax_rate";
    let speech = describe_function_parameter_list(source, 0);
    assert_eq!(speech, Some("Parameters: price; tax rate.".to_string()));
}

#[test]
fn describes_parameters_when_cursor_is_inside_body() {
    let source = "def calculate_total(price, tax_rate):\n    return price * tax_rate";
    let speech = describe_function_parameter_list(source, 1);
    assert_eq!(speech, Some("Parameters: price; tax rate.".to_string()));
}

#[test]
fn describes_typed_parameters_when_cursor_is_inside_body() {
    let source = "def calculate_total(price: float, tax_rate: float = 0.19) -> float:\n    return price * tax_rate";
    let speech = describe_function_parameter_list(source, 1);
    assert_eq!(
        speech,
        Some("Parameters: price, float; tax rate, float, default zero point one nine.".to_string())
    );
}

#[test]
fn describes_no_parameters() {
    let speech = describe_function_parameter_list("def main():\n    return 0", 1);
    assert_eq!(speech, Some("No parameters.".to_string()));
}

#[test]
fn function_parameters_returns_none_when_cursor_is_outside_any_function() {
    let speech = describe_function_parameter_list("import math\n\nx = 10\n", 0);
    assert_eq!(speech, None);
}

#[test]
fn prefers_innermost_function_parameters() {
    let source = "\
            def outer():
                def inner(value: int):
                    return value
                return inner(1)
            ";
    let speech = describe_function_parameter_list(source, 2);
    assert_eq!(speech, Some("Parameters: value, int.".to_string()));
}

// Summary

#[test]
fn summarizes_function_when_cursor_is_on_def_line() {
    let source = "def calculate_total(price, tax_rate):\n    return price * tax_rate";
    let speech = describe_function_summary(source, 0);
    assert_eq!(
        speech,
        Some("Function calculate total. Parameters: price; tax rate.".to_string())
    );
}

#[test]
fn summarizes_function_when_cursor_is_inside_body() {
    let source = "def calculate_total(price, tax_rate):\n    return price * tax_rate";
    let speech = describe_function_summary(source, 1);
    assert_eq!(
        speech,
        Some("Function calculate total. Parameters: price; tax rate.".to_string())
    );
}

#[test]
fn summarizes_typed_function_when_cursor_is_inside_body() {
    let source = "def calculate_total(price: float, tax_rate: float = 0.19) -> float:\n    return price * tax_rate";
    let speech = describe_function_summary(source, 1);
    assert_eq!(
        speech,
        Some(
            "Function calculate total. Parameters: price, float; tax rate, float, default zero point one nine. Returns float."
                .to_string()
        )
    );
}

#[test]
fn function_summary_returns_none_when_cursor_is_outside_any_function() {
    let speech = describe_function_summary("import math\n\nx = 10\n", 2);
    assert_eq!(speech, None);
}

#[test]
fn prefers_innermost_function() {
    let source = "\
def outer():
    def inner(value):
        return value
    return inner(1)
";
    let speech = describe_function_summary(source, 2);
    assert_eq!(speech, Some("Function inner. Parameters: value.".to_string()));
}

#[test]
fn summarizes_variadic_and_keyword_only_parameters() {
    let source = "def log(level, /, *args, sep: str = ', ', **kwargs):\n    pass\n";
    let speech = describe_function_summary(source, 1);
    assert_eq!(
        speech,
        Some("Function log. Parameters: level; args; sep, str, default ; kwargs.".to_string())
    );
}

#[test]
fn summarizes_negative_and_multi_digit_defaults() {
    let source = "def move(step: int = -1, limit: int = 12, ratio = -.5) -> list[str]:\n    pass\n";
    let speech = describe_function_summary(source, 0);
    assert_eq!(
        speech,
        Some("Function move. Parameters: step, int, default minus one; limit, int, default 12; ratio, default minus zero point five. Returns list of str.".to_string())
    );
}
