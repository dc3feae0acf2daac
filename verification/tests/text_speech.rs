use code_reader_core::languages::python::signature::{
    describe_parameter, describe_parameters, extract_parameter_summaries,
    extract_return_type_from_text, extract_single_parameter_summary, speak_simple_number,
    split_once_top_level_chars, split_top_level_commas, translate_annotation_to_speech,
    translate_default_value_to_speech, ParameterSummary,
};
use code_reader_core::speech::make_simple_speech_text;
use code_reader_core::text::{
    chars_of, collapse_whitespace_chars, decimal_string, equals_ignore_ascii_case, lines_of,
    string_of, trim_chars,
};

fn text(chars: &Vec<char>) -> String {
    string_of(chars)
}

#[test]
fn simple_speech_drops_separators_and_extra_spaces() {
    assert_eq!(
        make_simple_speech_text("  def calculate_total(price, tax_rate):  "),
        "def calculate total price tax rate"
    );
    assert_eq!(make_simple_speech_text("return price * (1 + tax_rate)"), "return price * 1 + tax rate");
    assert_eq!(make_simple_speech_text(" \t\n "), "");
    assert_eq!(make_simple_speech_text("(),:_"), "");
}

#[test]
fn simple_speech_of_simple_speech_is_unchanged() {
    let lines = [
        "def calculate_total(price: float, tax_rate: float) -> float:",
        "   x  =  foo(bar,\tbaz)   ",
        "__init__",
        "",
    ];
    for line in lines {
        let once = make_simple_speech_text(line);
        let twice = make_simple_speech_text(&once);
        assert_eq!(once, twice);
        assert!(!once.starts_with(' '));
        assert!(!once.ends_with(' '));
        assert!(!once.contains("  "));
        assert!(!once.contains(|c: char| c == '(' || c == ')' || c == ':' || c == ',' || c == '_'));
    }
}

#[test]
fn collapses_unicode_whitespace() {
    let collapsed = collapse_whitespace_chars(&chars_of("a\u{a0}\u{2003}b\u{3000}c"));
    assert_eq!(text(&collapsed), "a b c");
}

#[test]
fn trims_like_str_trim() {
    for sample in ["  x y  ", "\u{85}x\u{2029}", "", "   ", "x"] {
        let trimmed = text(&trim_chars(&chars_of(sample)));
        assert_eq!(trimmed, sample.trim());
        let again = text(&trim_chars(&chars_of(&trimmed)));
        assert_eq!(again, trimmed);
    }
}

#[test]
fn splits_lines_like_str_lines() {
    for sample in ["a\nb\r\nc", "a\n", "", "\n\n", "x\r", "one"] {
        let got: Vec<String> = lines_of(&chars_of(sample)).iter().map(text).collect();
        let expected: Vec<String> = sample.lines().map(|l| l.to_string()).collect();
        assert_eq!(got, expected);
    }
}

#[test]
fn writes_decimal_numbers() {
    assert_eq!(decimal_string(0), "0");
    assert_eq!(decimal_string(7), "7");
    assert_eq!(decimal_string(1203), "1203");
    assert_eq!(decimal_string(usize::MAX), usize::MAX.to_string());
}

#[test]
fn compares_ignoring_ascii_case() {
    assert!(equals_ignore_ascii_case("PyThOn", "python"));
    assert!(!equals_ignore_ascii_case("pythons", "python"));
    assert!(!equals_ignore_ascii_case("pythön", "python"));
}

#[test]
fn splits_at_top_level_commas_only() {
    assert_eq!(
        split_top_level_commas("items: list[str], default=(1, 2)"),
        vec!["items: list[str]".to_string(), "default=(1, 2)".to_string()]
    );
    assert_eq!(
        split_top_level_commas("a, 'x,y', {1: 2, 3: 4}, b"),
        vec!["a".to_string(), "'x,y'".to_string(), "{1: 2, 3: 4}".to_string(), "b".to_string()]
    );
    assert_eq!(
        split_top_level_commas(" a ,, b , "),
        vec!["a".to_string(), "".to_string(), "b".to_string()]
    );
    assert_eq!(split_top_level_commas(""), Vec::<String>::new());
}

#[test]
fn splits_once_at_the_first_top_level_separator() {
    let (before, after) = split_once_top_level_chars(&chars_of("x: dict[str, int] = {1: 2}"), '=');
    assert_eq!(text(&before), "x: dict[str, int] ");
    assert_eq!(after.map(|a| text(&a)), Some(" {1: 2}".to_string()));

    let (before, after) = split_once_top_level_chars(&chars_of("f(a=1)"), '=');
    assert_eq!(text(&before), "f(a=1)");
    assert_eq!(after, None);

    let (before, after) = split_once_top_level_chars(&chars_of("s: str = 'a=b'"), ':');
    assert_eq!(text(&before), "s");
    assert_eq!(after.map(|a| text(&a)), Some(" str = 'a=b'".to_string()));
}

#[test]
fn speaks_simple_numbers() {
    let speak = |s: &str| speak_simple_number(&chars_of(s)).map(|v| text(&v));
    assert_eq!(speak("0"), Some("zero".to_string()));
    assert_eq!(speak("12"), Some("12".to_string()));
    assert_eq!(speak("0.19"), Some("zero point one nine".to_string()));
    assert_eq!(speak("-1.5"), Some("minus one point five".to_string()));
    assert_eq!(speak(".5"), Some("zero point five".to_string()));
    assert_eq!(speak("3."), Some("three point".to_string()));
    assert_eq!(speak("10.25"), Some("10 point two five".to_string()));
    assert_eq!(speak("1..2"), None);
    assert_eq!(speak("-"), None);
    assert_eq!(speak(""), None);
    assert_eq!(speak("1e5"), None);
}

#[test]
fn translates_annotations_to_lowercase_speech() {
    let speak = |s: &str| translate_annotation_to_speech(&chars_of(s));
    assert_eq!(speak("float"), "float");
    assert_eq!(speak("str | None"), "str or none");
    assert_eq!(speak("list[str]"), "list of str");
    assert_eq!(speak("Optional[My_Type]"), "optional of my type");
    assert_eq!(speak("np.ndarray"), "np dot ndarray");
    assert_eq!(speak("ÄPFEL"), "äpfel");
}

#[test]
fn translates_default_values_to_speech() {
    let speak = |s: &str| translate_default_value_to_speech(&chars_of(s));
    assert_eq!(speak("0.19"), "zero point one nine");
    assert_eq!(speak(" -2 "), "minus two");
    assert_eq!(speak("\"guest\""), "guest");
    assert_eq!(speak("'Hello_World'"), "hello world");
    assert_eq!(speak("None"), "none");
    assert_eq!(speak("True"), "true");
}

#[test]
fn extracts_one_parameter() {
    let summary = extract_single_parameter_summary(&chars_of("tax_rate: float = 0.19")).unwrap();
    assert_eq!(summary.name, "tax rate");
    assert_eq!(summary.type_annotation, Some("float".to_string()));
    assert_eq!(summary.default_value, Some("zero point one nine".to_string()));

    let summary = extract_single_parameter_summary(&chars_of("**kwargs")).unwrap();
    assert_eq!(summary.name, "kwargs");
    assert_eq!(summary.type_annotation, None);
    assert_eq!(summary.default_value, None);

    assert!(extract_single_parameter_summary(&chars_of(" * ")).is_none());
    assert!(extract_single_parameter_summary(&chars_of("/")).is_none());
    assert!(extract_single_parameter_summary(&chars_of("   ")).is_none());
    assert!(extract_single_parameter_summary(&chars_of(": int")).is_none());
}

#[test]
fn extracts_and_describes_parameter_lists() {
    let summaries = extract_parameter_summaries("(price: float, tax_rate: float = 0.19)");
    assert_eq!(summaries.len(), 2);
    assert_eq!(
        text(&describe_parameters(&summaries)),
        "Parameters: price, float; tax rate, float, default zero point one nine"
    );
    let none = extract_parameter_summaries("( )");
    assert!(none.is_empty());
    assert_eq!(text(&describe_parameters(&none)), "No parameters");
    let markers = extract_parameter_summaries("(a, /, b, *, c)");
    let names: Vec<String> = markers.iter().map(|p| p.name.clone()).collect();
    assert_eq!(names, vec!["a".to_string(), "b".to_string(), "c".to_string()]);
}

#[test]
fn describes_one_parameter_with_its_parts() {
    let parameter = ParameterSummary {
        name: "price".to_string(),
        type_annotation: None,
        default_value: Some("zero".to_string()),
    };
    assert_eq!(text(&describe_parameter(&parameter)), "price, default zero");
}

#[test]
fn extracts_return_type_from_first_line() {
    let speak = |s: &str| extract_return_type_from_text(&chars_of(s));
    assert_eq!(speak("def f(x) -> int:\n    return x"), Some("int".to_string()));
    assert_eq!(speak("def f() -> Dict[str, int]:"), Some("dict of str, int".to_string()));
    assert_eq!(speak("def f(x):\n    return x"), None);
    assert_eq!(speak("def f(x) -> :"), None);
    assert_eq!(speak("def f(x) -> int"), None);
    assert_eq!(speak(""), None);
}

fn plain_split(text: &str) -> Vec<String> {
    let mut parts: Vec<String> = text.split(',').map(|s| s.trim().to_string()).collect();
    if parts.last().map(|p| p.is_empty()).unwrap_or(false) {
        parts.pop();
    }
    parts
}

fn non_blank(text: &str) -> String {
    text.chars().filter(|c| !c.is_whitespace()).collect()
}

#[test]
fn splits_like_a_plain_split_without_brackets_or_quotes() {
    for sample in ["a, b ,c, ", "price, tax_rate", " , x", "", "one", "a,,b", ","] {
        assert_eq!(split_top_level_commas(sample), plain_split(sample));
    }
}

#[test]
fn comma_split_keeps_every_non_blank_character() {
    for sample in ["items: list[str], default=(1, 2)", "a, 'x, y' ,", " a , , b ", ",", "  ", "f(a, b), [c,d]"] {
        let parts = split_top_level_commas(sample);
        let joined = non_blank(&parts.join(","));
        let whole = non_blank(sample);
        assert!(joined == whole || format!("{joined},") == whole);
        for part in &parts {
            assert_eq!(part.trim(), part);
        }
    }
}
