//! The reusable core of a code reader: it receives editor-like input and
//! returns speech-friendly output, knowing nothing of editors, terminals or
//! speech engines.

pub mod diagnostics;
pub mod languages;
pub mod model;
pub mod speech;
pub mod text;

pub use model::{ReadRequest, ReaderInput, ReaderOutput};

use vstd::prelude::*;

use diagnostics::{
    describe_diagnostics_near_cursor, diagnostics_readable, diagnostics_speech, nearest_lines_fit,
    on_line,
};
use languages::python;
use languages::python::current_context::context_speech;
use languages::python::current_line::current_line_speech;
use languages::python::current_scope::{describe_scope_body, scope_body};
use languages::python::function_parameters::parameter_list_speech;
use languages::python::function_summary::function_summary_speech;
use languages::python::parser::python_parses;
use languages::python::syntax::{parse_python, python_syntax_tree};
use speech::make_simple_speech_text;
use speech::simple::simple_speech;
use text::{chars_of, eq_ignore_ascii_case, equals_ignore_ascii_case, lines, lines_of, string_of, trim, trim_chars};

verus! {

/// Whether the language named is Python, in any ASCII case.
pub open spec fn is_python(language: Seq<char>) -> bool {
    eq_ignore_ascii_case(language, "python"@)
}

/// Line `n` (zero-based) of the source, if it has one.
pub open spec fn line_at(source: Seq<char>, n: int) -> Option<Seq<char>> {
    if 0 <= n < lines(source).len() {
        Some(lines(source)[n])
    } else {
        None
    }
}

/// What reading the current line says: "Blank line." for a blank or
/// missing line; for Python, the structural description of a function
/// definition starting on it; else the line in simple speech.
pub open spec fn current_line_reading(language: Seq<char>, source: Seq<char>, line: int) -> Seq<char> {
    let text = trim(
        match line_at(source, line) {
            Some(l) => l,
            None => seq![],
        },
    );
    if text.len() == 0 {
        "Blank line."@
    } else if is_python(language) && python_parses(source) && current_line_speech(
        python_syntax_tree(source),
        line,
    ) is Some {
        current_line_speech(python_syntax_tree(source), line)->0
    } else {
        "Current line: "@ + simple_speech(text)
    }
}

/// What summarising the function at the cursor says.
pub open spec fn function_summary_reading(language: Seq<char>, source: Seq<char>, line: int) -> Seq<char> {
    if is_python(language) {
        if python_parses(source) && function_summary_speech(python_syntax_tree(source), line) is Some {
            function_summary_speech(python_syntax_tree(source), line)->0
        } else {
            "No Python function was found at the cursor."@
        }
    } else {
        "Function summaries are not supported for "@ + language + " yet."@
    }
}

/// What reading the parameters of the function at the cursor says.
pub open spec fn function_parameters_reading(language: Seq<char>, source: Seq<char>, line: int) -> Seq<char> {
    if is_python(language) {
        if python_parses(source) && parameter_list_speech(python_syntax_tree(source), line) is Some {
            parameter_list_speech(python_syntax_tree(source), line)->0
        } else {
            "No Python function was found at the cursor."@
        }
    } else {
        "Function parameters are not supported for "@ + language + " yet."@
    }
}

/// What describing the context at the cursor says.
pub open spec fn current_context_reading(language: Seq<char>, source: Seq<char>, line: int) -> Seq<char> {
    if is_python(language) {
        if python_parses(source) {
            context_speech(python_syntax_tree(source), line)
        } else {
            "No Python context found at cursor."@
        }
    } else {
        "Current context is not available for "@ + language + " yet."@
    }
}

/// What describing the scope at the cursor says.
pub open spec fn current_scope_reading(language: Seq<char>, source: Seq<char>, line: int) -> Seq<char> {
    if is_python(language) {
        if python_parses(source) {
            "Current Scope: "@ + scope_body(python_syntax_tree(source), line) + "."@
        } else {
            "No Python scope found at cursor."@
        }
    } else {
        "Current Scope is not available for "@ + language + " yet."@
    }
}

/// What the reader says for an input.
pub open spec fn reading(input: ReaderInput) -> Seq<char> {
    let language = input.language@;
    let source = input.source@;
    let line = input.cursor_line as int;
    match input.request {
        ReadRequest::CurrentLine => current_line_reading(language, source, line),
        ReadRequest::CurrentScope => current_scope_reading(language, source, line),
        ReadRequest::FunctionSummary => function_summary_reading(language, source, line),
        ReadRequest::FunctionParameters => function_parameters_reading(language, source, line),
        ReadRequest::CurrentContext => current_context_reading(language, source, line),
        ReadRequest::DiagnosticsNearCursor => diagnostics_speech(input.diagnostics@, line),
    }
}

/// Whether the reader can answer the input: diagnostics read out by line
/// need their one-based line numbers to fit in a `usize`.
pub open spec fn readable(input: ReaderInput) -> bool {
    input.request == ReadRequest::DiagnosticsNearCursor ==> (on_line(
        input.diagnostics@,
        input.cursor_line as int,
    ).len() > 0 || nearest_lines_fit(input.diagnostics@, input.cursor_line as int))
}

/// The language name is matched ignoring ASCII case: an input whose
/// language is "python" in any ASCII case reads as the same input with the
/// language written "python".
pub proof fn law_language_case_ignored(input: ReaderInput, lower: ReaderInput)
    requires
        is_python(input.language@),
        lower.language@ == "python"@,
        lower.source@ == input.source@,
        lower.cursor_line == input.cursor_line,
        lower.request == input.request,
        lower.diagnostics@ == input.diagnostics@,
    ensures
        reading(input) == reading(lower),
{
    reveal_strlit("python");
    assert(is_python(lower.language@));
}

/// Whether the reader can answer the input; `read_code` asks this of its
/// input.
pub fn is_readable(input: &ReaderInput) -> (ok: bool)
    ensures
        ok == readable(*input),
{
    match input.request {
        ReadRequest::DiagnosticsNearCursor => diagnostics_readable(
            input.diagnostics.as_slice(),
            input.cursor_line,
        ),
        _ => true,
    }
}

/// Main entry point into the reusable code reader core: receives
/// editor-like input and returns speech-friendly output.
pub fn read_code(input: ReaderInput) -> (output: ReaderOutput)
    requires
        readable(input),
    ensures
        output.speech@ == reading(input),
{
    match input.request {
        ReadRequest::CurrentLine => read_current_line(&input),
        ReadRequest::CurrentScope => read_current_scope(&input),
        ReadRequest::FunctionParameters => read_function_parameters(&input),
        ReadRequest::FunctionSummary => read_function_summary(&input),
        ReadRequest::CurrentContext => read_current_context(&input),
        ReadRequest::DiagnosticsNearCursor => ReaderOutput {
            speech: describe_diagnostics_near_cursor(input.diagnostics.as_slice(), input.cursor_line),
        },
    }
}

/// Reads the current line: for Python, structurally when it can; else in
/// simple speech.
fn read_current_line(input: &ReaderInput) -> (output: ReaderOutput)
    ensures
        output.speech@ == current_line_reading(
            input.language@,
            input.source@,
            input.cursor_line as int,
        ),
{
    let line_text = match get_line(input.source.as_str(), input.cursor_line) {
        Some(line) => trim_chars(&chars_of(line.as_str())),
        None => trim_chars(&Vec::new()),
    };
    if line_text.len() == 0 {
        return ReaderOutput { speech: String::from_str("Blank line.") };
    }
    if equals_ignore_ascii_case(input.language.as_str(), "python") {
        if let Some(speech) = python::describe_current_line(input.source.as_str(), input.cursor_line) {
            return ReaderOutput { speech };
        }
    }
    let spoken_line = make_simple_speech_text(string_of(&line_text).as_str());
    let mut speech = String::from_str("Current line: ");
    speech.append(spoken_line.as_str());
    ReaderOutput { speech }
}

/// The sentence for a language that a reading does not support yet.
fn not_supported(before: &str, language: &String, after: &str) -> (speech: String)
    ensures
        speech@ == before@ + language@ + after@,
{
    let mut speech = String::from_str(before);
    speech.append(language.as_str());
    speech.append(after);
    speech
}

/// Summarises the function containing the cursor.
fn read_function_summary(input: &ReaderInput) -> (output: ReaderOutput)
    ensures
        output.speech@ == function_summary_reading(
            input.language@,
            input.source@,
            input.cursor_line as int,
        ),
{
    if equals_ignore_ascii_case(input.language.as_str(), "python") {
        if let Some(speech) = python::describe_function_summary(input.source.as_str(), input.cursor_line) {
            return ReaderOutput { speech };
        }
        return ReaderOutput { speech: String::from_str("No Python function was found at the cursor.") };
    }
    ReaderOutput {
        speech: not_supported("Function summaries are not supported for ", &input.language, " yet."),
    }
}

/// Reads only the parameters of the function containing the cursor.
fn read_function_parameters(input: &ReaderInput) -> (output: ReaderOutput)
    ensures
        output.speech@ == function_parameters_reading(
            input.language@,
            input.source@,
            input.cursor_line as int,
        ),
{
    if equals_ignore_ascii_case(input.language.as_str(), "python") {
        if let Some(speech) = python::describe_function_parameter_list(input.source.as_str(), input.cursor_line) {
            return ReaderOutput { speech };
        }
        return ReaderOutput { speech: String::from_str("No Python function was found at the cursor.") };
    }
    ReaderOutput {
        speech: not_supported("Function parameters are not supported for ", &input.language, " yet."),
    }
}

/// Describes the code context at the cursor.
fn read_current_context(input: &ReaderInput) -> (output: ReaderOutput)
    ensures
        output.speech@ == current_context_reading(
            input.language@,
            input.source@,
            input.cursor_line as int,
        ),
{
    if equals_ignore_ascii_case(input.language.as_str(), "python") {
        if let Some(speech) = python::describe_current_context(input.source.as_str(), input.cursor_line) {
            return ReaderOutput { speech };
        }
        return ReaderOutput { speech: String::from_str("No Python context found at cursor.") };
    }
    ReaderOutput {
        speech: not_supported("Current context is not available for ", &input.language, " yet."),
    }
}

/// Describes the code scope at the cursor.
fn read_current_scope(input: &ReaderInput) -> (output: ReaderOutput)
    ensures
        output.speech@ == current_scope_reading(
            input.language@,
            input.source@,
            input.cursor_line as int,
        ),
{
    if equals_ignore_ascii_case(input.language.as_str(), "python") {
        if let Some(tree) = parse_python(input.source.as_str()) {
            let mut speech = String::from_str("Current Scope: ");
            speech.append(describe_scope_body(&tree, input.cursor_line).as_str());
            speech.append(".");
            return ReaderOutput { speech };
        }
        return ReaderOutput { speech: String::from_str("No Python scope found at cursor.") };
    }
    ReaderOutput {
        speech: not_supported("Current Scope is not available for ", &input.language, " yet."),
    }
}

/// Gets one line from a source text by its zero-based number.
fn get_line(source: &str, cursor_line: usize) -> (line: Option<String>)
    ensures
        text::opt_chars(line) == line_at(source@, cursor_line as int),
{
    let all = lines_of(&chars_of(source));
    if cursor_line < all.len() {
        Some(string_of(&all[cursor_line]))
    } else {
        None
    }
}

} // verus!
