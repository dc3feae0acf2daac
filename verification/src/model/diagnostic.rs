use vstd::prelude::*;

verus! {

/// The severity level of a diagnostic, generic enough for diagnostics of
/// any tool.
#[derive(Debug, Clone, Copy, PartialEq, Eq, Structural)]
pub enum DiagnosticSeverity {
    Error,
    Warning,
    Information,
    Hint,
}

/// The title-case label of a severity, which often starts a sentence.
pub open spec fn severity_label(severity: DiagnosticSeverity) -> Seq<char> {
    match severity {
        DiagnosticSeverity::Error => "Error"@,
        DiagnosticSeverity::Warning => "Warning"@,
        DiagnosticSeverity::Information => "Information"@,
        DiagnosticSeverity::Hint => "Hint"@,
    }
}

impl DiagnosticSeverity {
    /// Converts the severity into speech-friendly, title-case text.
    pub fn speech_label(self) -> (label: &'static str)
        ensures
            label@ == severity_label(self),
    {
        match self {
            DiagnosticSeverity::Error => "Error",
            DiagnosticSeverity::Warning => "Warning",
            DiagnosticSeverity::Information => "Information",
            DiagnosticSeverity::Hint => "Hint",
        }
    }
}

/// A diagnostic provided by an editor, language server, linter or
/// compiler. Line numbers are zero-based, matching `cursor_line`.
#[derive(Debug, Clone, PartialEq, Eq)]
pub struct ReaderDiagnostic {
    pub severity: DiagnosticSeverity,
    pub message: String,
    pub start_line: usize,
    /// End line of a diagnostic that spans several lines; without it the
    /// diagnostic lies on `start_line` alone.
    pub end_line: Option<usize>,
    /// Where the diagnostic comes from, such as `pyright`.
    pub source: Option<String>,
    /// The diagnostic's code, such as `reportUndefinedVariable`.
    pub code: Option<String>,
}

/// The line a diagnostic ends on.
pub open spec fn end_line_of(d: ReaderDiagnostic) -> usize {
    match d.end_line {
        Some(end) => end,
        None => d.start_line,
    }
}

/// Whether a diagnostic covers a line.
pub open spec fn covers_line(d: ReaderDiagnostic, line: int) -> bool {
    d.start_line <= line <= end_line_of(d)
}

/// A diagnostic without an end line ends on its start line and covers that
/// line alone.
pub proof fn law_single_line_diagnostic(d: ReaderDiagnostic, line: int)
    requires
        d.end_line is None,
    ensures
        end_line_of(d) == d.start_line,
        covers_line(d, line) == (line == d.start_line),
{
}

impl ReaderDiagnostic {
    /// The effective end line: the start line when no end line is given.
    pub fn effective_end_line(&self) -> (end: usize)
        ensures
            end == end_line_of(*self),
    {
        match self.end_line {
            Some(end) => end,
            None => self.start_line,
        }
    }

    /// Whether this diagnostic covers the given zero-based line.
    pub fn contains_line(&self, line: usize) -> (covers: bool)
        ensures
            covers == covers_line(*self, line as int),
    {
        self.start_line <= line && line <= self.effective_end_line()
    }

    /// The one-based start line, for user-facing speech.
    pub fn display_start_line(&self) -> (line: usize)
        requires
            self.start_line < usize::MAX,
        ensures
            line == self.start_line + 1,
    {
        self.start_line + 1
    }
}

} // verus!
