use code_reader_core::model::{DiagnosticSeverity, ReaderDiagnostic};
use code_reader_core::{read_code, ReadRequest, ReaderInput};

fn input(language: &str, source: &str, cursor_line: usize, request: ReadRequest) -> ReaderInput {
    ReaderInput {
        language: language.to_string(),
        source: source.to_string(),
        cursor_line,
        request,
        diagnostics: Vec::new(),
    }
}

// Scope Tests

#[test]
fn describes_current_scope_at_top_level() {
    let output = read_code(input("python", "import math\n\nx = 10\n", 0, ReadRequest::CurrentScope));
    assert_eq!(output.speech, "Current Scope: top level.");
}

#[test]
fn describes_current_scope_inside_function() {
    let output = read_code(input(
        "python",
        "def calculate_total(price):\n    return price",
        1,
        ReadRequest::CurrentScope,
    ));
    assert_eq!(output.speech, "Current Scope: function calculate total.");
}

#[test]
fn describes_current_scope_inside_if_statement() {
    let source = "\
                def calculate_total(price):
                    if price > 0:
                        return price
                ";
    let output = read_code(input("python", source, 2, ReadRequest::CurrentScope));
    assert_eq!(
        output.speech,
        "Current Scope: if statement, inside function calculate total."
    );
}

#[test]
fn describes_current_scope_inside_for_loop() {
    let source = "\
                def process_items(items):
                    for item in items:
                        print(item)
                ";
    let output = read_code(input("python", source, 2, ReadRequest::CurrentScope));
    assert_eq!(
        output.speech,
        "Current Scope: for loop, inside function process items."
    );
}

#[test]
fn describes_current_scope_inside_method_for_loop() {
    let source = "\
                class Cart:
                    def print_items(self, items):
                        for item in items:
                            print(item)
                ";
    let output = read_code(input("python", source, 3, ReadRequest::CurrentScope));
    assert_eq!(
        output.speech,
        "Current Scope: for loop, inside class Cart, function print items."
    );
}

// Context Tests

#[test]
fn describes_current_context_at_top_level() {
    let output = read_code(input("python", "import math\n\nx = 10\n", 0, ReadRequest::CurrentContext));
    assert_eq!(output.speech, "Top level.");
}

#[test]
fn describes_current_context_inside_function() {
    let output = read_code(input(
        "python",
        "def calculate_total(price, tax_rate):\n    return price * tax_rate",
        1,
        ReadRequest::CurrentContext,
    ));
    assert_eq!(output.speech, "Inside function calculate total.");
}

#[test]
fn describes_current_context_inside_class() {
    let source = "\
                class Cart:
                    tax_rate = 0.19

                    def calculate_total(self):
                        return 0
                ";
    let output = read_code(input("python", source, 1, ReadRequest::CurrentContext));
    assert_eq!(output.speech, "Inside class Cart.");
}

#[test]
fn describes_current_context_inside_method() {
    let source = "\
                class Cart:
                    def calculate_total(self, price):
                        return price
                ";
    let output = read_code(input("python", source, 2, ReadRequest::CurrentContext));
    assert_eq!(output.speech, "Inside class Cart, function calculate total.");
}

// Function Tests

#[test]
fn reads_current_python_function_line_structurally() {
    let output = read_code(input(
        "python",
        "def calculate_total(price, tax_rate):\n    return price * tax_rate",
        0,
        ReadRequest::CurrentLine,
    ));
    assert_eq!(
        output.speech,
        "Function calculate total. Parameters: price; tax rate."
    );
}

#[test]
fn reads_current_typed_python_function_line_structurally() {
    let output = read_code(input(
        "python",
        "def calculate_total(price: float, tax_rate: float = 0.19) -> float:\n    return price * tax_rate",
        0,
        ReadRequest::CurrentLine,
    ));
    assert_eq!(
        output.speech,
        "Function calculate total. Parameters: price, float; tax rate, float, default zero point one nine. Returns float."
    );
}

// Parameter Tests

#[test]
fn reads_python_function_parameters_when_cursor_is_on_def_line() {
    let output = read_code(input(
        "python",
        "def calculate_total(price, tax_rate):\n    return price * tax_rate",
        0,
        ReadRequest::FunctionParameters,
    ));
    assert_eq!(output.speech, "Parameters: price; tax rate.");
}

#[test]
fn reads_python_function_parameters_when_cursor_is_inside_body() {
    let output = read_code(input(
        "python",
        "def calculate_total(price, tax_rate):\n    return price * tax_rate",
        1,
        ReadRequest::FunctionParameters,
    ));
    assert_eq!(output.speech, "Parameters: price; tax rate.");
}

#[test]
fn reads_typed_python_function_parameters_when_cursor_is_inside_body() {
    let output = read_code(input(
        "python",
        "def calculate_total(price: float, tax_rate: float = 0.19) -> float:\n    return price * tax_rate",
        1,
        ReadRequest::FunctionParameters,
    ));
    assert_eq!(
        output.speech,
        "Parameters: price, float; tax rate, float, default zero point one nine."
    );
}

#[test]
fn reads_no_parameters_for_function_without_parameters() {
    let output = read_code(input("python", "def main():\n    return 0", 1, ReadRequest::FunctionParameters));
    assert_eq!(output.speech, "No parameters.");
}

// Line Tests

#[test]
fn reads_blank_line() {
    let output = read_code(input("python", "def example():\n\n    return 1", 1, ReadRequest::CurrentLine));
    assert_eq!(output.speech, "Blank line.");
}

#[test]
fn handles_cursor_line_past_end_of_file() {
    let output = read_code(input("python", "print('hello')", 20, ReadRequest::CurrentLine));
    assert_eq!(output.speech, "Blank line.");
}

// Fallback Tests

#[test]
fn falls_back_to_simple_speech_for_python_return_line() {
    let output = read_code(input(
        "python",
        "def calculate_total(price, tax_rate):\n    return price * tax_rate",
        1,
        ReadRequest::CurrentLine,
    ));
    assert_eq!(output.speech, "Current line: return price * tax rate");
}

// Summarising Function Tests

#[test]
fn summarizes_python_function_when_cursor_is_on_def_line() {
    let output = read_code(input(
        "python",
        "def calculate_total(price, tax_rate):\n    return price * tax_rate",
        0,
        ReadRequest::FunctionSummary,
    ));
    assert_eq!(
        output.speech,
        "Function calculate total. Parameters: price; tax rate."
    );
}

#[test]
fn summarizes_python_function_when_cursor_is_inside_body() {
    let output = read_code(input(
        "python",
        "def calculate_total(price, tax_rate):\n    return price * tax_rate",
        1,
        ReadRequest::FunctionSummary,
    ));
    assert_eq!(
        output.speech,
        "Function calculate total. Parameters: price; tax rate."
    );
}

#[test]
fn summarizes_typed_python_function_when_cursor_is_inside_body() {
    let output = read_code(input(
        "python",
        "def calculate_total(price: float, tax_rate: float = 0.19) -> float:\n    return price * tax_rate",
        1,
        ReadRequest::FunctionSummary,
    ));
    assert_eq!(
        output.speech,
        "Function calculate total. Parameters: price, float; tax rate, float, default zero point one nine. Returns float."
    );
}

// Null or Empty Function Return Tests

#[test]
fn returns_message_when_no_python_function_found_at_cursor() {
    let output = read_code(input("python", "import math\n\nx = 10\n", 0, ReadRequest::FunctionSummary));
    assert_eq!(output.speech, "No Python function was found at the cursor.");
}

#[test]
fn returns_message_when_function_summaries_not_supported_for_language() {
    let output = read_code(input("rust", "fn main() {}", 0, ReadRequest::FunctionSummary));
    assert_eq!(
        output.speech,
        "Function summaries are not supported for rust yet."
    );
}

// Null or Empty Context Return Tests

#[test]
fn returns_message_when_current_scope_not_supported_for_language() {
    let output = read_code(input("rust", "fn main() {}", 0, ReadRequest::CurrentScope));
    assert_eq!(output.speech, "Current Scope is not available for rust yet.");
}

#[test]
fn returns_message_when_current_context_not_supported_for_language() {
    let output = read_code(input("rust", "fn main() {}", 0, ReadRequest::CurrentContext));
    assert_eq!(
        output.speech,
        "Current context is not available for rust yet."
    );
}

// Null or Empty Parameter Return Tests

#[test]
fn returns_message_when_no_python_function_found_for_parameters() {
    let output = read_code(input("python", "import math\n\nx = 10\n", 0, ReadRequest::FunctionParameters));
    assert_eq!(output.speech, "No Python function was found at the cursor.");
}

#[test]
fn returns_message_when_function_parameters_not_supported_for_language() {
    let output = read_code(input("rust", "fn main() {}", 0, ReadRequest::FunctionParameters));
    assert_eq!(
        output.speech,
        "Function parameters are not supported for rust yet."
    );
}

// Further cases

#[test]
fn language_name_is_matched_in_any_ascii_case() {
    let output = read_code(input("PyThOn", "def main():\n    return 0", 1, ReadRequest::FunctionParameters));
    assert_eq!(output.speech, "No parameters.");
}

#[test]
fn reads_current_line_of_other_languages_in_simple_speech() {
    let output = read_code(input("rust", "fn main(a_b: u8) {}", 0, ReadRequest::CurrentLine));
    assert_eq!(output.speech, "Current line: fn main a b u8 {}");
}

#[test]
fn reads_crlf_line_without_carriage_return() {
    let output = read_code(input("text", "first\r\nsecond_line\r\n", 1, ReadRequest::CurrentLine));
    assert_eq!(output.speech, "Current line: second line");
}

#[test]
fn reads_diagnostics_near_cursor_through_read_code() {
    let mut request = input("python", "x = 1\n", 0, ReadRequest::DiagnosticsNearCursor);
    request.diagnostics.push(ReaderDiagnostic {
        severity: DiagnosticSeverity::Warning,
        message: "Unused variable x".to_string(),
        start_line: 0,
        end_line: None,
        source: None,
        code: None,
    });
    let output = read_code(request);
    assert_eq!(output.speech, "Warning on current line: Unused variable x.");
}

#[test]
fn reads_no_diagnostics_through_read_code() {
    let output = read_code(input("rust", "fn main() {}", 0, ReadRequest::DiagnosticsNearCursor));
    assert_eq!(output.speech, "No diagnostics near cursor.");
}
