use vstd::prelude::*;

use super::diagnostic::ReaderDiagnostic;

verus! {

/// The kind of reading the caller wants.
///
/// - `CurrentLine`: reads or describes the physical line of the cursor.
/// - `CurrentScope`: describes the local block that controls the line.
/// - `FunctionSummary`: summarizes the function containing the cursor.
/// - `FunctionParameters`: reads only that function's parameters.
/// - `CurrentContext`: describes the class and/or function around the cursor.
/// - `DiagnosticsNearCursor`: reads diagnostics on or near the cursor line.
#[derive(Debug, Clone, Copy, PartialEq, Eq, Structural)]
pub enum ReadRequest {
    CurrentLine,
    CurrentScope,
    FunctionSummary,
    FunctionParameters,
    CurrentContext,
    DiagnosticsNearCursor,
}

/// The input sent into the code reader core. It is not tied to any editor:
/// an extension translates its editor state into this structure.
#[derive(Debug, Clone, PartialEq, Eq)]
pub struct ReaderInput {
    pub language: String,
    pub source: String,
    /// Zero-based line of the cursor.
    pub cursor_line: usize,
    pub request: ReadRequest,
    /// Diagnostics supplied by the caller.
    pub diagnostics: Vec<ReaderDiagnostic>,
}

} // verus!
