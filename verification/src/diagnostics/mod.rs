//! Speech for the diagnostics on or near the cursor line, whatever tool
//! supplied them.

use vstd::prelude::*;

use crate::model::diagnostic::{covers_line, end_line_of, severity_label, ReaderDiagnostic};
use crate::text::{chars_of, decimal, decimal_string, join, join_chars, string_of, views_of};

verus! {

broadcast use {vstd::slice::group_slice_axioms, Seq::lemma_filter_push};

/// The diagnostics that cover the line, in order.
pub open spec fn on_line(ds: Seq<ReaderDiagnostic>, line: int) -> Seq<ReaderDiagnostic> {
    ds.filter(|d: ReaderDiagnostic| covers_line(d, line))
}

/// How many lines lie between a diagnostic and a line: zero when it covers
/// the line, else the gap from the line to its start or from its end.
pub open spec fn distance(d: ReaderDiagnostic, line: int) -> int {
    if covers_line(d, line) {
        0
    } else if line < d.start_line {
        d.start_line - line
    } else {
        line - end_line_of(d)
    }
}

/// The smallest distance of the diagnostics from the line.
pub open spec fn min_distance(ds: Seq<ReaderDiagnostic>, line: int) -> int
    decreases ds.len(),
{
    if ds.len() == 0 {
        0
    } else if ds.len() == 1 {
        distance(ds[0], line)
    } else {
        let rest = min_distance(ds.drop_last(), line);
        let last = distance(ds.last(), line);
        if last < rest {
            last
        } else {
            rest
        }
    }
}

/// The diagnostics at the given distance from the line, in order.
pub open spec fn at_distance(ds: Seq<ReaderDiagnostic>, line: int, dist: int) -> Seq<ReaderDiagnostic> {
    ds.filter(|d: ReaderDiagnostic| distance(d, line) == dist)
}

/// The diagnostics nearest to the line.
pub open spec fn nearest(ds: Seq<ReaderDiagnostic>, line: int) -> Seq<ReaderDiagnostic> {
    at_distance(ds, line, min_distance(ds, line))
}

/// A short speech version of one diagnostic, such as
/// `Error: Undefined name taxrate`.
pub open spec fn brief(d: ReaderDiagnostic) -> Seq<char> {
    severity_label(d.severity) + ": "@ + d.message@
}

/// Speech for the diagnostics that cover the cursor line.
pub open spec fn on_line_speech(ds: Seq<ReaderDiagnostic>) -> Seq<char> {
    if ds.len() == 1 {
        severity_label(ds[0].severity) + " on current line: "@ + ds[0].message@ + "."@
    } else {
        decimal(ds.len()) + " diagnostics on current line. "@ + join(
            ds.map_values(|d: ReaderDiagnostic| brief(d)),
            "; "@,
        ) + "."@
    }
}

/// One nearest diagnostic with its one-based line.
pub open spec fn nearest_line_speech(d: ReaderDiagnostic) -> Seq<char> {
    "Line "@ + decimal((d.start_line + 1) as nat) + ": "@ + brief(d)
}

/// Speech for the diagnostics nearest to the line.
pub open spec fn nearest_speech(ds: Seq<ReaderDiagnostic>, line: int) -> Seq<char> {
    let near = nearest(ds, line);
    if near.len() == 1 {
        "Nearest diagnostic on line "@ + decimal((near[0].start_line + 1) as nat) + ". "@ + brief(
            near[0],
        ) + "."@
    } else {
        decimal(near.len()) + " nearest diagnostics. "@ + join(
            near.map_values(|d: ReaderDiagnostic| nearest_line_speech(d)),
            "; "@,
        ) + "."@
    }
}

/// Speech for the diagnostics on or near the cursor line: those that cover
/// it if any do, else the nearest ones.
pub open spec fn diagnostics_speech(ds: Seq<ReaderDiagnostic>, line: int) -> Seq<char> {
    if ds.len() == 0 {
        "No diagnostics near cursor."@
    } else if on_line(ds, line).len() > 0 {
        on_line_speech(on_line(ds, line))
    } else {
        nearest_speech(ds, line)
    }
}

/// Whether the one-based line of each diagnostic that would be read out
/// fits in a `usize`.
pub open spec fn nearest_lines_fit(ds: Seq<ReaderDiagnostic>, line: int) -> bool {
    forall|k: int|
        0 <= k < nearest(ds, line).len() ==> #[trigger] nearest(ds, line)[k].start_line
            < usize::MAX
}

/// The diagnostics behind references.
pub open spec fn derefs(ds: Seq<&ReaderDiagnostic>) -> Seq<ReaderDiagnostic> {
    ds.map_values(|d: &ReaderDiagnostic| *d)
}

/// A diagnostic is no distance from a line exactly when it covers the
/// line, and a positive distance from it otherwise.
pub proof fn law_distance_zero_iff_covers(d: ReaderDiagnostic, line: int)
    ensures
        distance(d, line) >= 0,
        (distance(d, line) == 0) == covers_line(d, line),
{
}

/// No diagnostic is nearer to the line than the smallest distance, and when
/// there are diagnostics, some lie at that distance.
proof fn lemma_min_distance(ds: Seq<ReaderDiagnostic>, line: int)
    ensures
        forall|k: int|
            0 <= k < ds.len() ==> min_distance(ds, line) <= distance(#[trigger] ds[k], line),
        ds.len() > 0 ==> exists|k: int|
            0 <= k < ds.len() && distance(#[trigger] ds[k], line) == min_distance(ds, line),
    decreases ds.len(),
{
    if ds.len() > 1 {
        let init = ds.drop_last();
        lemma_min_distance(init, line);
        assert forall|k: int| 0 <= k < ds.len() implies min_distance(ds, line) <= distance(
            #[trigger] ds[k],
            line,
        ) by {
            if k < ds.len() - 1 {
                assert(ds[k] == init[k]);
            }
        }
        if distance(ds.last(), line) < min_distance(init, line) {
            assert(distance(ds[ds.len() - 1], line) == min_distance(ds, line));
        } else {
            let k = choose|k: int|
                0 <= k < init.len() && distance(#[trigger] init[k], line) == min_distance(
                    init,
                    line,
                );
            assert(ds[k] == init[k]);
        }
    } else if ds.len() == 1 {
        assert(distance(ds[0], line) == min_distance(ds, line));
    }
}

/// The diagnostics read out as the nearest ones lie at the smallest
/// distance from the line, no diagnostic lies nearer, and when there are
/// diagnostics at least one is read out.
pub proof fn law_nearest_are_nearest(ds: Seq<ReaderDiagnostic>, line: int)
    ensures
        forall|k: int|
            0 <= k < ds.len() ==> min_distance(ds, line) <= distance(#[trigger] ds[k], line),
        forall|k: int|
            0 <= k < nearest(ds, line).len() ==> distance(#[trigger] nearest(ds, line)[k], line)
                == min_distance(ds, line),
        ds.len() > 0 ==> nearest(ds, line).len() > 0,
{
    let m = min_distance(ds, line);
    let pred = |d: ReaderDiagnostic| distance(d, line) == m;
    lemma_min_distance(ds, line);
    assert forall|k: int| 0 <= k < nearest(ds, line).len() implies distance(
        #[trigger] nearest(ds, line)[k],
        line,
    ) == m by {
        ds.lemma_filter_pred(pred, k);
    }
    if ds.len() > 0 {
        let k = choose|k: int| 0 <= k < ds.len() && distance(#[trigger] ds[k], line) == m;
        ds.lemma_filter_contains(pred, k);
    }
}

/// The diagnostics read out as on the line are those that cover it.
pub proof fn law_on_line_covers(ds: Seq<ReaderDiagnostic>, line: int)
    ensures
        forall|k: int| 0 <= k < on_line(ds, line).len() ==> covers_line(#[trigger] on_line(ds, line)[k], line),
        forall|k: int| 0 <= k < ds.len() && covers_line(#[trigger] ds[k], line) ==> on_line(ds, line).contains(ds[k]),
{
    let pred = |d: ReaderDiagnostic| covers_line(d, line);
    assert forall|k: int| 0 <= k < on_line(ds, line).len() implies covers_line(
        #[trigger] on_line(ds, line)[k],
        line,
    ) by {
        ds.lemma_filter_pred(pred, k);
    }
    assert forall|k: int| 0 <= k < ds.len() && covers_line(#[trigger] ds[k], line) implies on_line(
        ds,
        line,
    ).contains(ds[k]) by {
        ds.lemma_filter_contains(pred, k);
    }
}

/// How many lines lie between a diagnostic and a zero-based line: zero
/// when it covers the line, else the gap from the line to its start (when
/// it lies after the line) or from its end (when it lies before).
pub fn distance_from_line(diagnostic: &ReaderDiagnostic, line: usize) -> (dist: usize)
    ensures
        dist == distance(*diagnostic, line as int),
{
    if diagnostic.contains_line(line) {
        return 0;
    }
    if line < diagnostic.start_line {
        diagnostic.start_line - line
    } else {
        line - diagnostic.effective_end_line()
    }
}

/// A short speech version of one diagnostic.
pub fn describe_diagnostic_brief(diagnostic: &ReaderDiagnostic) -> (speech: String)
    ensures
        speech@ == brief(*diagnostic),
{
    let mut speech = String::from_str(diagnostic.severity.speech_label());
    speech.append(": ");
    speech.append(diagnostic.message.as_str());
    speech
}

/// Describes the diagnostics that overlap the cursor line.
pub fn describe_diagnostics_on_cursor_line(diagnostics: &[&ReaderDiagnostic]) -> (speech: String)
    ensures
        speech@ == on_line_speech(derefs(diagnostics@)),
{
    if diagnostics.len() == 1 {
        let diagnostic = diagnostics[0];
        let mut speech = String::from_str(diagnostic.severity.speech_label());
        speech.append(" on current line: ");
        speech.append(diagnostic.message.as_str());
        speech.append(".");
        return speech;
    }
    let ghost ds = derefs(diagnostics@);
    let mut parts: Vec<Vec<char>> = Vec::new();
    for i in 0..diagnostics.len()
        invariant
            ds == derefs(diagnostics@),
            views_of(parts@) == ds.take(i as int).map_values(|d: ReaderDiagnostic| brief(d)),
    {
        let piece = chars_of(describe_diagnostic_brief(diagnostics[i]).as_str());
        let ghost before = views_of(parts@);
        parts.push(piece);
        assert(views_of(parts@) == before.push(piece@));
        assert(ds.take(i + 1) == ds.take(i as int).push(ds[i as int]));
        assert(ds.take(i + 1).map_values(|d: ReaderDiagnostic| brief(d)) == ds.take(
            i as int,
        ).map_values(|d: ReaderDiagnostic| brief(d)).push(brief(ds[i as int])));
    }
    assert(ds.take(diagnostics.len() as int) == ds);
    let mut speech = decimal_string(diagnostics.len());
    speech.append(" diagnostics on current line. ");
    speech.append(string_of(&join_chars(&parts, &chars_of("; "))).as_str());
    speech.append(".");
    speech
}

/// One nearest diagnostic with its one-based line.
fn describe_nearest_line(diagnostic: &ReaderDiagnostic) -> (speech: String)
    requires
        diagnostic.start_line < usize::MAX,
    ensures
        speech@ == nearest_line_speech(*diagnostic),
{
    let mut speech = String::from_str("Line ");
    speech.append(decimal_string(diagnostic.display_start_line()).as_str());
    speech.append(": ");
    speech.append(describe_diagnostic_brief(diagnostic).as_str());
    speech
}

/// The smallest distance of the diagnostics from a line.
fn smallest_distance(diagnostics: &[ReaderDiagnostic], cursor_line: usize) -> (m: usize)
    requires
        diagnostics@.len() > 0,
    ensures
        m == min_distance(diagnostics@, cursor_line as int),
{
    let ghost ds = diagnostics@;
    let ghost line = cursor_line as int;
    let mut nearest_distance = distance_from_line(&diagnostics[0], cursor_line);
    assert(ds.take(1).drop_last() == ds.take(0));
    for i in 1..diagnostics.len()
        invariant
            ds == diagnostics@,
            line == cursor_line as int,
            ds.len() > 0,
            nearest_distance == min_distance(ds.take(i as int), line),
    {
        let d = distance_from_line(&diagnostics[i], cursor_line);
        assert(ds.take(i + 1).drop_last() == ds.take(i as int));
        assert(ds.take(i + 1).last() == ds[i as int]);
        if d < nearest_distance {
            nearest_distance = d;
        }
    }
    assert(ds.take(diagnostics.len() as int) == ds);
    nearest_distance
}

/// Whether the diagnostics near a line can be read out: some cover the
/// line, or the one-based line of each nearest one fits in a `usize`.
pub fn diagnostics_readable(diagnostics: &[ReaderDiagnostic], cursor_line: usize) -> (ok: bool)
    ensures
        ok == (on_line(diagnostics@, cursor_line as int).len() > 0 || nearest_lines_fit(
            diagnostics@,
            cursor_line as int,
        )),
{
    let ghost ds = diagnostics@;
    let ghost line = cursor_line as int;
    let ghost covers = |d: ReaderDiagnostic| covers_line(d, line);
    proof {
        law_on_line_covers(ds, line);
    }
    for i in 0..diagnostics.len()
        invariant
            ds == diagnostics@,
            line == cursor_line as int,
            covers == (|d: ReaderDiagnostic| covers_line(d, line)),
            forall|j: int| 0 <= j < i ==> !covers_line(#[trigger] ds[j], line),
    {
        if diagnostics[i].contains_line(cursor_line) {
            proof {
                ds.lemma_filter_contains(covers, i as int);
            }
            return true;
        }
    }
    proof {
        if on_line(ds, line).len() > 0 {
            let first = on_line(ds, line)[0];
            assert(on_line(ds, line).contains(first));
            ds.lemma_filter_contains_rev(covers, first);
        }
    }
    if diagnostics.len() == 0 {
        return true;
    }
    let m = smallest_distance(diagnostics, cursor_line);
    let ghost at_m = |d: ReaderDiagnostic| distance(d, line) == min_distance(ds, line);
    for i in 0..diagnostics.len()
        invariant
            ds == diagnostics@,
            line == cursor_line as int,
            m == min_distance(ds, line),
            on_line(ds, line).len() == 0,
            at_m == (|d: ReaderDiagnostic| distance(d, line) == min_distance(ds, line)),
            forall|j: int|
                0 <= j < i && distance(#[trigger] ds[j], line) == m ==> ds[j].start_line
                    < usize::MAX,
    {
        if distance_from_line(&diagnostics[i], cursor_line) == m && diagnostics[i].start_line
            == usize::MAX {
            proof {
                ds.lemma_filter_contains(at_m, i as int);
                let k = choose|k: int|
                    0 <= k < nearest(ds, line).len() && nearest(ds, line)[k] == ds[i as int];
                assert(nearest(ds, line)[k].start_line == usize::MAX);
            }
            return false;
        }
    }
    proof {
        assert forall|k: int| 0 <= k < nearest(ds, line).len() implies #[trigger] nearest(
            ds,
            line,
        )[k].start_line < usize::MAX by {
            let x = nearest(ds, line)[k];
            assert(nearest(ds, line).contains(x));
            ds.lemma_filter_contains_rev(at_m, x);
            ds.lemma_filter_pred(at_m, k);
            let j = choose|j: int| 0 <= j < ds.len() && ds[j] == x;
            assert(distance(ds[j], line) == m);
        }
    }
    true
}

/// Describes the nearest diagnostics when none overlaps the cursor line.
pub fn describe_nearest_diagnostics(diagnostics: &[ReaderDiagnostic], cursor_line: usize) -> (speech: String)
    requires
        diagnostics@.len() > 0,
        nearest_lines_fit(diagnostics@, cursor_line as int),
    ensures
        speech@ == nearest_speech(diagnostics@, cursor_line as int),
{
    let ghost ds = diagnostics@;
    let ghost line = cursor_line as int;
    let nearest_distance = smallest_distance(diagnostics, cursor_line);
    let mut near: Vec<&ReaderDiagnostic> = Vec::new();
    for i in 0..diagnostics.len()
        invariant
            ds == diagnostics@,
            line == cursor_line as int,
            nearest_distance == min_distance(ds, line),
            derefs(near@) == at_distance(ds.take(i as int), line, nearest_distance as int),
    {
        assert(ds.take(i + 1) == ds.take(i as int).push(ds[i as int]));
        if distance_from_line(&diagnostics[i], cursor_line) == nearest_distance {
            let ghost before = derefs(near@);
            near.push(&diagnostics[i]);
            assert(derefs(near@) == before.push(ds[i as int]));
        }
    }
    assert(ds.take(diagnostics.len() as int) == ds);
    assert(derefs(near@) == nearest(ds, line));
    if near.len() == 1 {
        let diagnostic = near[0];
        assert(nearest(ds, line)[0].start_line < usize::MAX);
        let mut speech = String::from_str("Nearest diagnostic on line ");
        speech.append(decimal_string(diagnostic.display_start_line()).as_str());
        speech.append(". ");
        speech.append(describe_diagnostic_brief(diagnostic).as_str());
        speech.append(".");
        return speech;
    }
    let ghost nd = derefs(near@);
    let mut parts: Vec<Vec<char>> = Vec::new();
    for i in 0..near.len()
        invariant
            nd == derefs(near@),
            nd == nearest(ds, line),
            nearest_lines_fit(ds, line),
            views_of(parts@) == nd.take(i as int).map_values(
                |d: ReaderDiagnostic| nearest_line_speech(d),
            ),
    {
        assert(nd[i as int].start_line < usize::MAX);
        let piece = chars_of(describe_nearest_line(near[i]).as_str());
        let ghost before = views_of(parts@);
        parts.push(piece);
        assert(views_of(parts@) == before.push(piece@));
        assert(nd.take(i + 1) == nd.take(i as int).push(nd[i as int]));
        assert(nd.take(i + 1).map_values(|d: ReaderDiagnostic| nearest_line_speech(d))
            == nd.take(i as int).map_values(|d: ReaderDiagnostic| nearest_line_speech(d)).push(
            nearest_line_speech(nd[i as int]),
        ));
    }
    assert(nd.take(near.len() as int) == nd);
    let mut speech = decimal_string(near.len());
    speech.append(" nearest diagnostics. ");
    speech.append(string_of(&join_chars(&parts, &chars_of("; "))).as_str());
    speech.append(".");
    speech
}

/// Describes the diagnostics on or near the cursor line: those that cover
/// it when any do, else the nearest ones, with one-based line numbers.
pub fn describe_diagnostics_near_cursor(diagnostics: &[ReaderDiagnostic], cursor_line: usize) -> (speech: String)
    requires
        on_line(diagnostics@, cursor_line as int).len() > 0 || nearest_lines_fit(
            diagnostics@,
            cursor_line as int,
        ),
    ensures
        speech@ == diagnostics_speech(diagnostics@, cursor_line as int),
{
    if diagnostics.len() == 0 {
        return String::from_str("No diagnostics near cursor.");
    }
    let ghost ds = diagnostics@;
    let ghost line = cursor_line as int;
    let mut covering: Vec<&ReaderDiagnostic> = Vec::new();
    for i in 0..diagnostics.len()
        invariant
            ds == diagnostics@,
            line == cursor_line as int,
            derefs(covering@) == on_line(ds.take(i as int), line),
    {
        assert(ds.take(i + 1) == ds.take(i as int).push(ds[i as int]));
        if diagnostics[i].contains_line(cursor_line) {
            let ghost before = derefs(covering@);
            covering.push(&diagnostics[i]);
            assert(derefs(covering@) == before.push(ds[i as int]));
        }
    }
    assert(ds.take(diagnostics.len() as int) == ds);
    if covering.len() > 0 {
        return describe_diagnostics_on_cursor_line(covering.as_slice());
    }
    describe_nearest_diagnostics(diagnostics, cursor_line)
}

} // verus!
