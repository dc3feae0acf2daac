use code_reader_core::diagnostics::{describe_diagnostics_near_cursor, distance_from_line};
use code_reader_core::model::{DiagnosticSeverity, ReaderDiagnostic};

fn diagnostic(severity: DiagnosticSeverity, message: &str, start_line: usize) -> ReaderDiagnostic {
    ReaderDiagnostic {
        severity,
        message: message.to_string(),
        start_line,
        end_line: None,
        source: None,
        code: None,
    }
}

#[test]
fn describes_no_diagnostics() {
    let speech = describe_diagnostics_near_cursor(&[], 0);
    assert_eq!(speech, "No diagnostics near cursor.");
}

#[test]
fn describes_error_on_cursor_line() {
    let diagnostics = vec![diagnostic(DiagnosticSeverity::Error, "Undefined name taxrate", 0)];
    let speech = describe_diagnostics_near_cursor(&diagnostics, 0);
    assert_eq!(speech, "Error on current line: Undefined name taxrate.");
}

#[test]
fn describes_warning_on_cursor_line() {
    let diagnostics = vec![diagnostic(DiagnosticSeverity::Warning, "Unused variable price", 2)];
    let speech = describe_diagnostics_near_cursor(&diagnostics, 2);
    assert_eq!(speech, "Warning on current line: Unused variable price.");
}

#[test]
fn describes_information_on_cursor_line() {
    let diagnostics = vec![diagnostic(DiagnosticSeverity::Information, "Type is float", 1)];
    let speech = describe_diagnostics_near_cursor(&diagnostics, 1);
    assert_eq!(speech, "Information on current line: Type is float.");
}

#[test]
fn describes_hint_on_cursor_line() {
    let diagnostics = vec![diagnostic(
        DiagnosticSeverity::Hint,
        "Consider simplifying this expression",
        1,
    )];
    let speech = describe_diagnostics_near_cursor(&diagnostics, 1);
    assert_eq!(
        speech,
        "Hint on current line: Consider simplifying this expression."
    );
}

#[test]
fn describes_multiple_diagnostics_on_cursor_line() {
    let diagnostics = vec![
        diagnostic(DiagnosticSeverity::Error, "Undefined name taxrate", 0),
        diagnostic(DiagnosticSeverity::Warning, "Unused import math", 0),
    ];
    let speech = describe_diagnostics_near_cursor(&diagnostics, 0);
    assert_eq!(
        speech,
        "2 diagnostics on current line. Error: Undefined name taxrate; Warning: Unused import math."
    );
}

#[test]
fn describes_nearest_diagnostic_when_none_are_on_cursor_line() {
    let diagnostics = vec![diagnostic(DiagnosticSeverity::Error, "Undefined name taxrate", 3)];
    let speech = describe_diagnostics_near_cursor(&diagnostics, 1);
    assert_eq!(
        speech,
        "Nearest diagnostic on line 4. Error: Undefined name taxrate."
    );
}

#[test]
fn prefers_exact_line_over_nearby_diagnostic() {
    let diagnostics = vec![
        diagnostic(DiagnosticSeverity::Warning, "Unused import math", 0),
        diagnostic(DiagnosticSeverity::Error, "Undefined name taxrate", 2),
    ];
    let speech = describe_diagnostics_near_cursor(&diagnostics, 2);
    assert_eq!(speech, "Error on current line: Undefined name taxrate.");
}

#[test]
fn handles_multiline_diagnostic_covering_cursor_line() {
    let diagnostics = vec![ReaderDiagnostic {
        severity: DiagnosticSeverity::Error,
        message: "Unclosed string literal".to_string(),
        start_line: 1,
        end_line: Some(3),
        source: None,
        code: None,
    }];
    let speech = describe_diagnostics_near_cursor(&diagnostics, 2);
    assert_eq!(speech, "Error on current line: Unclosed string literal.");
}

#[test]
fn describes_two_equally_near_diagnostics() {
    let diagnostics = vec![
        diagnostic(DiagnosticSeverity::Warning, "Issue before cursor", 1),
        diagnostic(DiagnosticSeverity::Error, "Issue after cursor", 3),
    ];
    let speech = describe_diagnostics_near_cursor(&diagnostics, 2);
    assert_eq!(
        speech,
        "2 nearest diagnostics. Line 2: Warning: Issue before cursor; Line 4: Error: Issue after cursor."
    );
}

// Diagnostic model tests

#[test]
fn diagnostic_without_end_line_is_single_line() {
    let diagnostic = ReaderDiagnostic {
        severity: DiagnosticSeverity::Error,
        message: "Undefined name taxrate".to_string(),
        start_line: 3,
        end_line: None,
        source: None,
        code: None,
    };
    assert_eq!(diagnostic.effective_end_line(), 3);
    assert!(diagnostic.contains_line(3));
    assert!(!diagnostic.contains_line(2));
    assert!(!diagnostic.contains_line(4));
}

#[test]
fn diagnostic_with_end_line_can_span_multiple_lines() {
    let diagnostic = ReaderDiagnostic {
        severity: DiagnosticSeverity::Warning,
        message: "Multiline issue".to_string(),
        start_line: 3,
        end_line: Some(5),
        source: None,
        code: None,
    };
    assert!(diagnostic.contains_line(3));
    assert!(diagnostic.contains_line(4));
    assert!(diagnostic.contains_line(5));
    assert!(!diagnostic.contains_line(2));
    assert!(!diagnostic.contains_line(6));
}

#[test]
fn display_start_line_is_one_based() {
    let diagnostic = ReaderDiagnostic {
        severity: DiagnosticSeverity::Hint,
        message: "Consider simplifying this expression".to_string(),
        start_line: 0,
        end_line: None,
        source: None,
        code: None,
    };
    assert_eq!(diagnostic.display_start_line(), 1);
}

// Further cases

#[test]
fn speech_labels_are_title_case() {
    assert_eq!(DiagnosticSeverity::Error.speech_label(), "Error");
    assert_eq!(DiagnosticSeverity::Warning.speech_label(), "Warning");
    assert_eq!(DiagnosticSeverity::Information.speech_label(), "Information");
    assert_eq!(DiagnosticSeverity::Hint.speech_label(), "Hint");
}

#[test]
fn distance_is_measured_from_start_or_end() {
    let after = diagnostic(DiagnosticSeverity::Error, "after", 7);
    assert_eq!(distance_from_line(&after, 2), 5);
    let before = ReaderDiagnostic { end_line: Some(4), ..diagnostic(DiagnosticSeverity::Error, "before", 1) };
    assert_eq!(distance_from_line(&before, 10), 6);
    assert_eq!(distance_from_line(&before, 3), 0);
}

#[test]
fn nearest_diagnostic_counts_distance_from_end_line() {
    let diagnostics = vec![
        ReaderDiagnostic { end_line: Some(8), ..diagnostic(DiagnosticSeverity::Warning, "Long block", 2) },
        diagnostic(DiagnosticSeverity::Error, "Far away", 15),
    ];
    let speech = describe_diagnostics_near_cursor(&diagnostics, 10);
    assert_eq!(speech, "Nearest diagnostic on line 3. Warning: Long block.");
}

#[test]
fn counts_many_diagnostics_on_cursor_line_in_decimal() {
    let diagnostics: Vec<ReaderDiagnostic> = (0..12)
        .map(|i| diagnostic(DiagnosticSeverity::Hint, &format!("h{}", i), 5))
        .collect();
    let speech = describe_diagnostics_near_cursor(&diagnostics, 5);
    assert!(speech.starts_with("12 diagnostics on current line. Hint: h0; Hint: h1;"));
    assert!(speech.ends_with("Hint: h11."));
}

#[test]
fn nearest_line_number_is_read_in_decimal() {
    let diagnostics = vec![diagnostic(DiagnosticSeverity::Error, "Deep", 1233)];
    let speech = describe_diagnostics_near_cursor(&diagnostics, 0);
    assert_eq!(speech, "Nearest diagnostic on line 1234. Error: Deep.");
}
