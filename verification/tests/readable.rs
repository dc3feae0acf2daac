use code_reader_core::diagnostics::diagnostics_readable;
use code_reader_core::model::{DiagnosticSeverity, ReaderDiagnostic};
use code_reader_core::{is_readable, read_code, ReadRequest, ReaderInput};

fn diagnostic(start_line: usize, end_line: Option<usize>) -> ReaderDiagnostic {
    ReaderDiagnostic {
        severity: DiagnosticSeverity::Warning,
        message: "Check this".to_string(),
        start_line,
        end_line,
        source: None,
        code: None,
    }
}

fn input(cursor_line: usize, request: ReadRequest, diagnostics: Vec<ReaderDiagnostic>) -> ReaderInput {
    ReaderInput {
        language: "python".to_string(),
        source: "x = 1\n".to_string(),
        cursor_line,
        request,
        diagnostics,
    }
}

#[test]
fn readings_other_than_diagnostics_are_always_readable() {
    let far = vec![diagnostic(usize::MAX, None)];
    assert!(is_readable(&input(0, ReadRequest::CurrentLine, far.clone())));
    assert!(is_readable(&input(0, ReadRequest::CurrentScope, far)));
}

#[test]
fn diagnostics_whose_line_cannot_be_numbered_are_not_readable() {
    let far = vec![diagnostic(usize::MAX, None)];
    assert!(!diagnostics_readable(&far, 0));
    assert!(!is_readable(&input(0, ReadRequest::DiagnosticsNearCursor, far)));
}

#[test]
fn covering_diagnostics_are_read_whatever_their_start() {
    let covering = vec![diagnostic(3, Some(usize::MAX)), diagnostic(usize::MAX, None)];
    assert!(diagnostics_readable(&covering, 5));
    let reader_input = input(5, ReadRequest::DiagnosticsNearCursor, covering);
    assert!(is_readable(&reader_input));
    assert_eq!(read_code(reader_input).speech, "Warning on current line: Check this.");
}

#[test]
fn only_the_nearest_diagnostics_need_a_line_number() {
    let mixed = vec![diagnostic(usize::MAX, None), diagnostic(7, None)];
    assert!(diagnostics_readable(&mixed, 2));
    let reader_input = input(2, ReadRequest::DiagnosticsNearCursor, mixed);
    assert_eq!(read_code(reader_input).speech, "Nearest diagnostic on line 8. Warning: Check this.");
    assert!(diagnostics_readable(&[], 0));
}
