//! The Python syntax tree as plain values, and the searches over it.
//!
//! A tree is held as its nodes in preorder, each with its depth below the
//! root. The children of a node are the maximal runs of deeper nodes that
//! follow it: the first starts right after the node, and each next one
//! starts where the subtree of the previous one ends.

use vstd::prelude::*;

use crate::speech::simple::simple_speech;
use crate::speech::make_simple_speech_text;
use crate::text::{chars_of, span_text, str_equals, string_of, text_in_span};

use super::signature::{
    describe_parameters, extract_parameter_summaries, extract_return_type_from_text,
    parameter_summaries, parameters_speech, return_type_speech, summary_views, ParameterSummary,
    ParameterSummaryView,
};

use super::parser::{
    node_count, node_depth, node_end, node_end_byte, node_field_span, node_is_named, node_kind,
    node_start, node_start_byte, parse_source, python_field_span, python_node_count,
    python_node_depth, python_node_end, python_node_end_byte, python_node_is_named,
    python_node_kind, python_node_start, python_node_start_byte, python_parses,
};

verus! {

/// One node of a syntax tree.
pub struct SyntaxNode {
    /// The grammar's name for the node, such as `function_definition`.
    pub kind: String,
    /// Named nodes stand for grammar rules; anonymous ones for literal tokens.
    pub named: bool,
    /// Distance from the root (the root has depth zero).
    pub depth: usize,
    pub start_row: usize,
    pub start_column: usize,
    pub end_row: usize,
    pub end_column: usize,
    /// Byte offsets of the node in the source text.
    pub start_byte: usize,
    pub end_byte: usize,
    /// Byte range of the child in the `name` field, if there is one.
    pub name_span: Option<(usize, usize)>,
    /// Byte range of the child in the `parameters` field, if there is one.
    pub parameters_span: Option<(usize, usize)>,
}

/// The mathematical model of a [`SyntaxNode`].
pub struct NodeView {
    pub kind: Seq<char>,
    pub named: bool,
    pub depth: usize,
    pub start_row: usize,
    pub start_column: usize,
    pub end_row: usize,
    pub end_column: usize,
    pub start_byte: usize,
    pub end_byte: usize,
    pub name_span: Option<(usize, usize)>,
    pub parameters_span: Option<(usize, usize)>,
}

impl View for SyntaxNode {
    type V = NodeView;

    open spec fn view(&self) -> NodeView {
        NodeView {
            kind: self.kind@,
            named: self.named,
            depth: self.depth,
            start_row: self.start_row,
            start_column: self.start_column,
            end_row: self.end_row,
            end_column: self.end_column,
            start_byte: self.start_byte,
            end_byte: self.end_byte,
            name_span: self.name_span,
            parameters_span: self.parameters_span,
        }
    }
}

/// A parsed source text and its syntax nodes in preorder; node 0 is the root.
pub struct SyntaxTree {
    pub source: String,
    pub nodes: Vec<SyntaxNode>,
}

/// The mathematical model of a [`SyntaxTree`].
pub struct SyntaxTreeView {
    pub source: Seq<char>,
    pub nodes: Seq<NodeView>,
}

impl View for SyntaxTree {
    type V = SyntaxTreeView;

    open spec fn view(&self) -> SyntaxTreeView {
        SyntaxTreeView {
            source: self.source@,
            nodes: self.nodes@.map_values(|n: SyntaxNode| n@),
        }
    }
}

/// Whether node `k` lies in the subtree of node `i` (node `i` included).
pub open spec fn in_subtree(nodes: Seq<NodeView>, i: int, k: int) -> bool {
    i <= k < subtree_end(nodes, i)
}

proof fn lemma_scan_deeper(nodes: Seq<NodeView>, depth: usize, j: int, m: int)
    requires
        0 <= j <= m < scan_subtree_end(nodes, depth, j),
    ensures
        nodes[m].depth > depth,
    decreases m - j,
{
    if m > j {
        lemma_scan_deeper(nodes, depth, j + 1, m);
    }
}

proof fn lemma_scan_stops_by(nodes: Seq<NodeView>, depth: usize, k: int, t: int)
    requires
        0 <= k <= t <= nodes.len(),
        t == nodes.len() || nodes[t].depth <= depth,
    ensures
        scan_subtree_end(nodes, depth, k) <= t,
    decreases t - k,
{
    if k < t {
        lemma_scan_stops_by(nodes, depth, k + 1, t);
    }
}

/// Subtrees nest: the subtree of a node inside the subtree of `i` ends no
/// later than the subtree of `i`.
pub proof fn lemma_subtree_nested(nodes: Seq<NodeView>, i: int, j: int)
    requires
        0 <= i < j < subtree_end(nodes, i),
    ensures
        subtree_end(nodes, j) <= subtree_end(nodes, i),
{
    lemma_subtree_end_bounds(nodes, i);
    lemma_scan_deeper(nodes, nodes[i].depth, i + 1, j);
    let end = subtree_end(nodes, i);
    if end < nodes.len() {
        assert(nodes[end].depth <= nodes[i].depth) by {
            lemma_scan_end_stops(nodes, nodes[i].depth, i + 1);
        }
    }
    lemma_scan_stops_by(nodes, nodes[j].depth, j + 1, end);
}

proof fn lemma_scan_end_stops(nodes: Seq<NodeView>, depth: usize, j: int)
    requires
        0 <= j,
    ensures
        scan_subtree_end(nodes, depth, j) < nodes.len() ==> nodes[scan_subtree_end(
            nodes,
            depth,
            j,
        )].depth <= depth,
    decreases nodes.len() - j,
{
    if j < nodes.len() && nodes[j].depth > depth {
        lemma_scan_end_stops(nodes, depth, j + 1);
    }
}

/// The innermost-node search finds a node of the kind asked for, inside the
/// subtree searched, that covers the line, and nothing more specific: a
/// search from the found node finds that node again, and none of its
/// children leads to another.
pub proof fn law_innermost_containing(nodes: Seq<NodeView>, kind: Seq<char>, i: int, line: int)
    ensures
        innermost_containing(nodes, kind, i, line) matches Some(k) ==> {
            &&& 0 <= i < nodes.len()
            &&& in_subtree(nodes, i, k)
            &&& (k == i || nodes[k].named)
            &&& nodes[k].kind == kind
            &&& contains_line(nodes[k], line)
            &&& innermost_containing(nodes, kind, k, line) == Some(k)
            &&& innermost_among(nodes, kind, k + 1, subtree_end(nodes, k), line) is None
        },
    decreases nodes.len() - i, 0nat,
{
    if 0 <= i < nodes.len() {
        lemma_subtree_end_bounds(nodes, i);
        lemma_innermost_among(nodes, kind, i, i + 1, subtree_end(nodes, i), line);
        match innermost_among(nodes, kind, i + 1, subtree_end(nodes, i), line) {
            Some(k) => {},
            None => {},
        }
    }
}

proof fn lemma_innermost_among(nodes: Seq<NodeView>, kind: Seq<char>, parent: int, j: int, stop: int, line: int)
    requires
        0 <= parent < j,
        parent < nodes.len(),
        stop == subtree_end(nodes, parent),
    ensures
        innermost_among(nodes, kind, j, stop, line) matches Some(k) ==> {
            &&& j <= k < stop
            &&& nodes[k].named
            &&& nodes[k].kind == kind
            &&& contains_line(nodes[k], line)
            &&& innermost_containing(nodes, kind, k, line) == Some(k)
            &&& innermost_among(nodes, kind, k + 1, subtree_end(nodes, k), line) is None
        },
    decreases nodes.len() - j, 1nat,
{
    lemma_subtree_end_bounds(nodes, parent);
    if 0 <= j < stop && j < nodes.len() {
        lemma_subtree_end_bounds(nodes, j);
        lemma_subtree_nested(nodes, parent, j);
        law_innermost_containing(nodes, kind, j, line);
        lemma_innermost_among(nodes, kind, parent, subtree_end(nodes, j), stop, line);
    }
}

/// The search for a function starting on a line finds a function
/// definition, inside the subtree searched, that starts on that line.
pub proof fn law_function_starting_on(nodes: Seq<NodeView>, i: int, line: int)
    ensures
        function_starting_on(nodes, i, line) matches Some(k) ==> {
            &&& 0 <= i < nodes.len()
            &&& in_subtree(nodes, i, k)
            &&& (k == i || nodes[k].named)
            &&& nodes[k].kind == "function_definition"@
            &&& nodes[k].start_row == line
        },
    decreases nodes.len() - i, 0nat,
{
    if 0 <= i < nodes.len() {
        lemma_subtree_end_bounds(nodes, i);
        lemma_starting_among(nodes, i, i + 1, subtree_end(nodes, i), line);
    }
}

proof fn lemma_starting_among(nodes: Seq<NodeView>, parent: int, j: int, stop: int, line: int)
    requires
        0 <= parent < j,
        parent < nodes.len(),
        stop == subtree_end(nodes, parent),
    ensures
        function_starting_among(nodes, j, stop, line) matches Some(k) ==> {
            &&& j <= k < stop
            &&& nodes[k].named
            &&& nodes[k].kind == "function_definition"@
            &&& nodes[k].start_row == line
        },
    decreases nodes.len() - j, 1nat,
{
    lemma_subtree_end_bounds(nodes, parent);
    if 0 <= j < stop && j < nodes.len() {
        lemma_subtree_end_bounds(nodes, j);
        lemma_subtree_nested(nodes, parent, j);
        law_function_starting_on(nodes, j, line);
        lemma_starting_among(nodes, parent, subtree_end(nodes, j), stop, line);
    }
}

/// The search over siblings with a match found so far gives the match of
/// the siblings, or else the match found so far.
proof fn lemma_local_among_best(nodes: Seq<NodeView>, j: int, stop: int, line: int, best: Option<int>)
    ensures
        local_scope_among(nodes, j, stop, line, best) == match local_scope_among(
            nodes,
            j,
            stop,
            line,
            None,
        ) {
            Some(k) => Some(k),
            None => best,
        },
    decreases nodes.len() - j,
{
    if 0 <= j < stop && j < nodes.len() {
        lemma_subtree_end_bounds(nodes, j);
        let here = if nodes[j].named && contains_line(nodes[j], line) {
            local_scope_containing(nodes, j, line)
        } else {
            None
        };
        let with_best = match here {
            Some(found) => Some(found),
            None => best,
        };
        let without = match here {
            Some(found) => Some(found),
            None => None,
        };
        lemma_local_among_best(nodes, subtree_end(nodes, j), stop, line, with_best);
        lemma_local_among_best(nodes, subtree_end(nodes, j), stop, line, without);
    }
}

/// The local block search finds a local block, inside the subtree
/// searched, that covers the line, and nothing more specific: no local
/// block below the found one is found.
pub proof fn law_local_scope_containing(nodes: Seq<NodeView>, i: int, line: int)
    ensures
        local_scope_containing(nodes, i, line) matches Some(k) ==> {
            &&& 0 <= i < nodes.len()
            &&& in_subtree(nodes, i, k)
            &&& (k == i || nodes[k].named)
            &&& is_local_scope_kind(nodes[k].kind)
            &&& contains_line(nodes[k], line)
            &&& local_scope_among(nodes, k + 1, subtree_end(nodes, k), line, None) is None
        },
    decreases nodes.len() - i, 0nat,
{
    if 0 <= i < nodes.len() && contains_line(nodes[i], line) {
        lemma_subtree_end_bounds(nodes, i);
        let own = if is_local_scope_kind(nodes[i].kind) {
            Some(i)
        } else {
            None
        };
        lemma_local_among_best(nodes, i + 1, subtree_end(nodes, i), line, own);
        lemma_local_among(nodes, i, i + 1, subtree_end(nodes, i), line);
    }
}

proof fn lemma_local_among(nodes: Seq<NodeView>, parent: int, j: int, stop: int, line: int)
    requires
        0 <= parent < j,
        parent < nodes.len(),
        stop == subtree_end(nodes, parent),
    ensures
        local_scope_among(nodes, j, stop, line, None) matches Some(k) ==> {
            &&& j <= k < stop
            &&& nodes[k].named
            &&& is_local_scope_kind(nodes[k].kind)
            &&& contains_line(nodes[k], line)
            &&& local_scope_among(nodes, k + 1, subtree_end(nodes, k), line, None) is None
        },
    decreases nodes.len() - j, 1nat,
{
    lemma_subtree_end_bounds(nodes, parent);
    if 0 <= j < stop && j < nodes.len() {
        lemma_subtree_end_bounds(nodes, j);
        lemma_subtree_nested(nodes, parent, j);
        law_local_scope_containing(nodes, j, line);
        let here = if nodes[j].named && contains_line(nodes[j], line) {
            local_scope_containing(nodes, j, line)
        } else {
            None
        };
        lemma_local_among_best(nodes, subtree_end(nodes, j), stop, line, here);
        lemma_local_among(nodes, parent, subtree_end(nodes, j), stop, line);
    }
}

/// Whether the node list is well nested: the rows of a node lie within
/// the rows of each node whose subtree holds it, and a named node lies
/// below named nodes only (an anonymous node, such as the `not in`
/// operator, holds anonymous tokens alone).
pub open spec fn well_nested(nodes: Seq<NodeView>) -> bool {
    forall|i: int, k: int|
        0 <= i < nodes.len() && #[trigger] in_subtree(nodes, i, k) ==> {
            &&& nodes[i].start_row <= nodes[k].start_row
            &&& nodes[k].end_row <= nodes[i].end_row
            &&& (nodes[k].named ==> nodes[i].named)
        }
}

/// Whether node `k` is a node of the kind, in the subtree of node `i`,
/// that covers the line and that a search from `i` may stop at: node `i`
/// itself or a named node below it.
pub open spec fn candidate(nodes: Seq<NodeView>, kind: Seq<char>, i: int, k: int, line: int) -> bool {
    &&& in_subtree(nodes, i, k)
    &&& (k == i || nodes[k].named)
    &&& nodes[k].kind == kind
    &&& contains_line(nodes[k], line)
}

/// Whether node `k` is a local block in the subtree of node `i`, covering
/// the line, that a search from `i` may stop at.
pub open spec fn local_candidate(nodes: Seq<NodeView>, i: int, k: int, line: int) -> bool {
    &&& in_subtree(nodes, i, k)
    &&& (k == i || nodes[k].named)
    &&& is_local_scope_kind(nodes[k].kind)
    &&& contains_line(nodes[k], line)
}

proof fn lemma_containing_complete(nodes: Seq<NodeView>, kind: Seq<char>, i: int, line: int, k: int)
    requires
        well_nested(nodes),
        0 <= i < nodes.len(),
        candidate(nodes, kind, i, k, line),
    ensures
        innermost_containing(nodes, kind, i, line) is Some,
    decreases nodes.len() - i, 0nat,
{
    lemma_subtree_end_bounds(nodes, i);
    if k > i {
        lemma_among_complete(nodes, kind, i + 1, subtree_end(nodes, i), line, k);
    }
}

proof fn lemma_among_complete(nodes: Seq<NodeView>, kind: Seq<char>, j: int, stop: int, line: int, k: int)
    requires
        well_nested(nodes),
        0 <= j <= k < stop,
        k < nodes.len(),
        nodes[k].named,
        nodes[k].kind == kind,
        contains_line(nodes[k], line),
    ensures
        innermost_among(nodes, kind, j, stop, line) is Some,
    decreases nodes.len() - j, 1nat,
{
    lemma_subtree_end_bounds(nodes, j);
    if k < subtree_end(nodes, j) {
        assert(in_subtree(nodes, j, k));
        lemma_containing_complete(nodes, kind, j, line, k);
    } else {
        lemma_among_complete(nodes, kind, subtree_end(nodes, j), stop, line, k);
    }
}

/// In a well-nested tree the innermost-node search is complete: it finds
/// nothing exactly when no node of the kind that it may stop at covers the
/// line, and no named node of the kind below the node it finds covers the
/// line.
pub proof fn law_innermost_is_most_specific(nodes: Seq<NodeView>, kind: Seq<char>, i: int, line: int)
    requires
        well_nested(nodes),
        0 <= i < nodes.len(),
    ensures
        innermost_containing(nodes, kind, i, line) is None <==> !exists|k: int|
            #[trigger] candidate(nodes, kind, i, k, line),
        innermost_containing(nodes, kind, i, line) matches Some(f) ==> candidate(
            nodes,
            kind,
            i,
            f,
            line,
        ) && forall|k: int|
            f < k < subtree_end(nodes, f) && nodes[k].named && nodes[k].kind == kind
                ==> !contains_line(#[trigger] nodes[k], line),
{
    law_innermost_containing(nodes, kind, i, line);
    if exists|k: int| #[trigger] candidate(nodes, kind, i, k, line) {
        let k = choose|k: int| #[trigger] candidate(nodes, kind, i, k, line);
        lemma_containing_complete(nodes, kind, i, line, k);
    }
    match innermost_containing(nodes, kind, i, line) {
        Some(f) => {
            assert(candidate(nodes, kind, i, f, line));
            assert forall|k: int|
                f < k < subtree_end(nodes, f) && nodes[k].named && nodes[k].kind == kind
                    implies !contains_line(#[trigger] nodes[k], line) by {
                if contains_line(nodes[k], line) {
                    lemma_subtree_end_bounds(nodes, f);
                    lemma_among_complete(nodes, kind, f + 1, subtree_end(nodes, f), line, k);
                }
            }
        },
        None => {},
    }
}

/// Whether node `k` is a function definition in the subtree of node `i`,
/// starting on the line, that the search from `i` may stop at: node `i`
/// itself or a named node below it.
pub open spec fn def_candidate(nodes: Seq<NodeView>, i: int, k: int, line: int) -> bool {
    &&& in_subtree(nodes, i, k)
    &&& (k == i || nodes[k].named)
    &&& nodes[k].kind == "function_definition"@
    &&& nodes[k].start_row == line
}

proof fn lemma_starting_complete(nodes: Seq<NodeView>, i: int, line: int, k: int)
    requires
        well_nested(nodes),
        0 <= i < nodes.len(),
        def_candidate(nodes, i, k, line),
    ensures
        function_starting_on(nodes, i, line) is Some,
    decreases nodes.len() - i, 0nat,
{
    lemma_subtree_end_bounds(nodes, i);
    if k > i && !(nodes[i].kind == "function_definition"@ && nodes[i].start_row == line) {
        lemma_starting_among_complete(nodes, i + 1, subtree_end(nodes, i), line, k);
    }
}

proof fn lemma_starting_among_complete(nodes: Seq<NodeView>, j: int, stop: int, line: int, k: int)
    requires
        well_nested(nodes),
        0 <= j <= k < stop,
        k < nodes.len(),
        nodes[k].named,
        nodes[k].kind == "function_definition"@,
        nodes[k].start_row == line,
    ensures
        function_starting_among(nodes, j, stop, line) is Some,
    decreases nodes.len() - j, 1nat,
{
    lemma_subtree_end_bounds(nodes, j);
    if k < subtree_end(nodes, j) {
        assert(in_subtree(nodes, j, k));
        lemma_starting_complete(nodes, j, line, k);
    } else {
        lemma_starting_among_complete(nodes, subtree_end(nodes, j), stop, line, k);
    }
}

proof fn lemma_starting_first(nodes: Seq<NodeView>, i: int, line: int)
    requires
        well_nested(nodes),
        0 <= i < nodes.len(),
    ensures
        function_starting_on(nodes, i, line) matches Some(f) ==> forall|k: int|
            #[trigger] def_candidate(nodes, i, k, line) ==> f <= k,
    decreases nodes.len() - i, 0nat,
{
    lemma_subtree_end_bounds(nodes, i);
    if !(nodes[i].kind == "function_definition"@ && nodes[i].start_row == line) {
        lemma_starting_among_first(nodes, i + 1, subtree_end(nodes, i), line);
    }
}

proof fn lemma_starting_among_first(nodes: Seq<NodeView>, j: int, stop: int, line: int)
    requires
        well_nested(nodes),
        0 <= j,
        stop <= nodes.len(),
    ensures
        function_starting_among(nodes, j, stop, line) matches Some(f) ==> forall|k: int|
            j <= k < stop && nodes[k].named && nodes[k].kind == "function_definition"@
                && #[trigger] nodes[k].start_row == line ==> f <= k,
    decreases nodes.len() - j, 1nat,
{
    if 0 <= j < stop && j < nodes.len() {
        lemma_subtree_end_bounds(nodes, j);
        let end = subtree_end(nodes, j);
        let here = if nodes[j].named {
            function_starting_on(nodes, j, line)
        } else {
            None
        };
        lemma_starting_among_first(nodes, end, stop, line);
        law_function_starting_on(nodes, j, line);
        lemma_starting_first(nodes, j, line);
        match function_starting_among(nodes, j, stop, line) {
            Some(f) => {
                assert forall|k: int|
                    j <= k < stop && nodes[k].named && nodes[k].kind == "function_definition"@
                        && #[trigger] nodes[k].start_row == line implies f <= k by {
                    if k < end {
                        assert(in_subtree(nodes, j, k));
                        assert(nodes[j].named);
                        if here is None {
                            lemma_starting_complete(nodes, j, line, k);
                        } else {
                            assert(def_candidate(nodes, j, k, line));
                        }
                    }
                }
            },
            None => {},
        }
    }
}

/// The search for a function starting on a line is complete and finds the
/// first such function: in a well-nested tree it finds nothing exactly
/// when no function definition that it may stop at starts on the line, and
/// otherwise it finds one that comes first in preorder, nested functions
/// and methods included.
pub proof fn law_function_starting_is_complete(nodes: Seq<NodeView>, i: int, line: int)
    requires
        well_nested(nodes),
        0 <= i < nodes.len(),
    ensures
        function_starting_on(nodes, i, line) is None <==> !exists|k: int|
            #[trigger] def_candidate(nodes, i, k, line),
        function_starting_on(nodes, i, line) matches Some(f) ==> def_candidate(nodes, i, f, line)
            && forall|k: int| #[trigger] def_candidate(nodes, i, k, line) ==> f <= k,
{
    law_function_starting_on(nodes, i, line);
    lemma_starting_first(nodes, i, line);
    if exists|k: int| #[trigger] def_candidate(nodes, i, k, line) {
        let k = choose|k: int| #[trigger] def_candidate(nodes, i, k, line);
        lemma_starting_complete(nodes, i, line, k);
    }
    match function_starting_on(nodes, i, line) {
        Some(f) => {
            assert(def_candidate(nodes, i, f, line));
        },
        None => {},
    }
}

proof fn lemma_local_complete(nodes: Seq<NodeView>, i: int, line: int, k: int)
    requires
        well_nested(nodes),
        0 <= i < nodes.len(),
        local_candidate(nodes, i, k, line),
    ensures
        local_scope_containing(nodes, i, line) is Some,
    decreases nodes.len() - i, 0nat,
{
    lemma_subtree_end_bounds(nodes, i);
    assert(contains_line(nodes[i], line));
    let own = if is_local_scope_kind(nodes[i].kind) {
        Some(i)
    } else {
        None
    };
    lemma_local_among_best(nodes, i + 1, subtree_end(nodes, i), line, own);
    if k > i {
        lemma_local_among_complete(nodes, i + 1, subtree_end(nodes, i), line, k, own);
    }
}

proof fn lemma_local_among_complete(
    nodes: Seq<NodeView>,
    j: int,
    stop: int,
    line: int,
    k: int,
    best: Option<int>,
)
    requires
        well_nested(nodes),
        0 <= j <= k < stop,
        k < nodes.len(),
        nodes[k].named,
        is_local_scope_kind(nodes[k].kind),
        contains_line(nodes[k], line),
    ensures
        local_scope_among(nodes, j, stop, line, best) is Some,
    decreases nodes.len() - j, 1nat,
{
    lemma_subtree_end_bounds(nodes, j);
    if k < subtree_end(nodes, j) {
        assert(in_subtree(nodes, j, k));
        lemma_local_complete(nodes, j, line, k);
        let here = local_scope_containing(nodes, j, line);
        lemma_local_among_best(nodes, subtree_end(nodes, j), stop, line, here);
    } else {
        let here = if nodes[j].named && contains_line(nodes[j], line) {
            local_scope_containing(nodes, j, line)
        } else {
            None
        };
        let next_best = match here {
            Some(found) => Some(found),
            None => best,
        };
        lemma_local_among_complete(nodes, subtree_end(nodes, j), stop, line, k, next_best);
    }
}

/// In a well-nested tree the local block search is complete: it finds
/// nothing exactly when no local block that it may stop at covers the
/// line, and no named local block below the one it finds covers the line.
pub proof fn law_local_scope_is_most_specific(nodes: Seq<NodeView>, i: int, line: int)
    requires
        well_nested(nodes),
        0 <= i < nodes.len(),
    ensures
        local_scope_containing(nodes, i, line) is None <==> !exists|k: int|
            #[trigger] local_candidate(nodes, i, k, line),
        local_scope_containing(nodes, i, line) matches Some(f) ==> local_candidate(
            nodes,
            i,
            f,
            line,
        ) && forall|k: int|
            f < k < subtree_end(nodes, f) && nodes[k].named && is_local_scope_kind(nodes[k].kind)
                ==> !contains_line(#[trigger] nodes[k], line),
{
    law_local_scope_containing(nodes, i, line);
    if exists|k: int| #[trigger] local_candidate(nodes, i, k, line) {
        let k = choose|k: int| #[trigger] local_candidate(nodes, i, k, line);
        lemma_local_complete(nodes, i, line, k);
    }
    match local_scope_containing(nodes, i, line) {
        Some(f) => {
            assert(local_candidate(nodes, i, f, line));
            assert forall|k: int|
                f < k < subtree_end(nodes, f) && nodes[k].named && is_local_scope_kind(
                    nodes[k].kind,
                ) implies !contains_line(#[trigger] nodes[k], line) by {
                if contains_line(nodes[k], line) {
                    lemma_subtree_end_bounds(nodes, f);
                    lemma_local_among_complete(
                        nodes,
                        f + 1,
                        subtree_end(nodes, f),
                        line,
                        k,
                        None,
                    );
                }
            }
        },
        None => {},
    }
}

/// An exec index as a spec index.
pub open spec fn opt_index(r: Option<usize>) -> Option<int> {
    match r {
        Some(k) => Some(k as int),
        None => None,
    }
}

/// Whether the node's rows cover the line.
pub open spec fn contains_line(node: NodeView, line: int) -> bool {
    node.start_row <= line <= node.end_row
}

/// The first index from `j` on whose node is no deeper than `depth`, or the
/// number of nodes if there is none.
pub open spec fn scan_subtree_end(nodes: Seq<NodeView>, depth: usize, j: int) -> int
    decreases nodes.len() - j,
{
    if j < 0 || j >= nodes.len() {
        nodes.len() as int
    } else if nodes[j].depth <= depth {
        j
    } else {
        scan_subtree_end(nodes, depth, j + 1)
    }
}

/// The index just past the subtree of node `i`.
pub open spec fn subtree_end(nodes: Seq<NodeView>, i: int) -> int {
    scan_subtree_end(nodes, nodes[i].depth, i + 1)
}

pub proof fn lemma_scan_subtree_end_bounds(nodes: Seq<NodeView>, depth: usize, j: int)
    requires
        0 <= j,
    ensures
        j <= scan_subtree_end(nodes, depth, j) <= nodes.len() || (j > nodes.len()
            && scan_subtree_end(nodes, depth, j) == nodes.len()),
    decreases nodes.len() - j,
{
    if j < nodes.len() && nodes[j].depth > depth {
        lemma_scan_subtree_end_bounds(nodes, depth, j + 1);
    }
}

pub proof fn lemma_subtree_end_bounds(nodes: Seq<NodeView>, i: int)
    requires
        0 <= i < nodes.len(),
    ensures
        i < subtree_end(nodes, i) <= nodes.len(),
{
    lemma_scan_subtree_end_bounds(nodes, nodes[i].depth, i + 1);
}

/// The innermost node of the given kind whose rows cover the line, searched
/// from node `i`: first among its named children that cover the line, in
/// order, then the node itself.
pub open spec fn innermost_containing(nodes: Seq<NodeView>, kind: Seq<char>, i: int, line: int) -> Option<int>
    decreases nodes.len() - i, 0nat,
{
    if 0 <= i < nodes.len() {
        proof {
            lemma_subtree_end_bounds(nodes, i);
        }
        match innermost_among(nodes, kind, i + 1, subtree_end(nodes, i), line) {
            Some(found) => Some(found),
            None => if nodes[i].kind == kind && contains_line(nodes[i], line) {
                Some(i)
            } else {
                None
            },
        }
    } else {
        None
    }
}

/// The search of [`innermost_containing`] over the siblings from `j` up to `stop`.
pub open spec fn innermost_among(nodes: Seq<NodeView>, kind: Seq<char>, j: int, stop: int, line: int) -> Option<int>
    decreases nodes.len() - j, 1nat,
{
    if 0 <= j < stop && j < nodes.len() {
        proof {
            lemma_subtree_end_bounds(nodes, j);
        }
        let here = if nodes[j].named && contains_line(nodes[j], line) {
            innermost_containing(nodes, kind, j, line)
        } else {
            None
        };
        match here {
            Some(found) => Some(found),
            None => innermost_among(nodes, kind, subtree_end(nodes, j), stop, line),
        }
    } else {
        None
    }
}

/// The first function definition starting on the line, searched from node
/// `i` in preorder, descending through named children only.
pub open spec fn function_starting_on(nodes: Seq<NodeView>, i: int, line: int) -> Option<int>
    decreases nodes.len() - i, 0nat,
{
    if 0 <= i < nodes.len() {
        proof {
            lemma_subtree_end_bounds(nodes, i);
        }
        if nodes[i].kind == "function_definition"@ && nodes[i].start_row == line {
            Some(i)
        } else {
            function_starting_among(nodes, i + 1, subtree_end(nodes, i), line)
        }
    } else {
        None
    }
}

/// The search of [`function_starting_on`] over the siblings from `j` up to `stop`.
pub open spec fn function_starting_among(nodes: Seq<NodeView>, j: int, stop: int, line: int) -> Option<int>
    decreases nodes.len() - j, 1nat,
{
    if 0 <= j < stop && j < nodes.len() {
        proof {
            lemma_subtree_end_bounds(nodes, j);
        }
        let here = if nodes[j].named {
            function_starting_on(nodes, j, line)
        } else {
            None
        };
        match here {
            Some(found) => Some(found),
            None => function_starting_among(nodes, subtree_end(nodes, j), stop, line),
        }
    } else {
        None
    }
}

/// The kinds of node that open a local block.
pub open spec fn is_local_scope_kind(kind: Seq<char>) -> bool {
    ||| kind == "for_statement"@
    ||| kind == "if_statement"@
    ||| kind == "match_statement"@
    ||| kind == "try_statement"@
    ||| kind == "while_statement"@
    ||| kind == "with_statement"@
    ||| kind == "elif_clause"@
    ||| kind == "else_clause"@
    ||| kind == "except_clause"@
    ||| kind == "finally_clause"@
}

/// The innermost local block that covers the line, searched from node `i`:
/// none if node `i` does not cover the line; otherwise the result of the
/// last named child covering the line that has one, else node `i` itself
/// if it is a local block.
pub open spec fn local_scope_containing(nodes: Seq<NodeView>, i: int, line: int) -> Option<int>
    decreases nodes.len() - i, 0nat,
{
    if 0 <= i < nodes.len() && contains_line(nodes[i], line) {
        proof {
            lemma_subtree_end_bounds(nodes, i);
        }
        let own = if is_local_scope_kind(nodes[i].kind) {
            Some(i)
        } else {
            None
        };
        local_scope_among(nodes, i + 1, subtree_end(nodes, i), line, own)
    } else {
        None
    }
}

/// The search of [`local_scope_containing`] over the siblings from `j` up
/// to `stop`, where `best` is the match found so far.
pub open spec fn local_scope_among(
    nodes: Seq<NodeView>,
    j: int,
    stop: int,
    line: int,
    best: Option<int>,
) -> Option<int>
    decreases nodes.len() - j, 1nat,
{
    if 0 <= j < stop && j < nodes.len() {
        proof {
            lemma_subtree_end_bounds(nodes, j);
        }
        let here = if nodes[j].named && contains_line(nodes[j], line) {
            local_scope_containing(nodes, j, line)
        } else {
            None
        };
        let next_best = match here {
            Some(found) => Some(found),
            None => best,
        };
        local_scope_among(nodes, subtree_end(nodes, j), stop, line, next_best)
    } else {
        best
    }
}

/// Node `index` of the tree that tree-sitter gives for the text.
pub open spec fn python_node(source: Seq<char>, index: int) -> NodeView {
    NodeView {
        kind: python_node_kind(source, index),
        named: python_node_is_named(source, index),
        depth: python_node_depth(source, index),
        start_row: python_node_start(source, index).0,
        start_column: python_node_start(source, index).1,
        end_row: python_node_end(source, index).0,
        end_column: python_node_end(source, index).1,
        start_byte: python_node_start_byte(source, index),
        end_byte: python_node_end_byte(source, index),
        name_span: python_field_span(source, index, "name"@),
        parameters_span: python_field_span(source, index, "parameters"@),
    }
}

/// The syntax tree that tree-sitter gives for the text, as plain values.
pub open spec fn python_syntax_tree(source: Seq<char>) -> SyntaxTreeView {
    SyntaxTreeView {
        source: source,
        nodes: Seq::new(python_node_count(source), |index: int| python_node(source, index)),
    }
}

/// Parses Python source code using tree-sitter, and reads the tree into
/// plain values: the nodes in preorder with their depths, kinds, positions
/// and the spans of their `name` and `parameters` fields.
pub fn parse_python(source: &str) -> (tree: Option<SyntaxTree>)
    ensures
        match tree {
            Some(t) => python_parses(source@) && t@ == python_syntax_tree(source@),
            None => !python_parses(source@),
        },
{
    let syntax = match parse_source(source) {
        Some(syntax) => syntax,
        None => return None,
    };
    let count = node_count(&syntax);
    let ghost text = source@;
    let mut nodes: Vec<SyntaxNode> = Vec::new();
    for i in 0..count
        invariant
            syntax@ == text,
            count == python_node_count(text),
            nodes@.len() == i,
            forall|k: int| 0 <= k < i ==> #[trigger] nodes@[k]@ == python_node(text, k),
    {
        let (start_row, start_column) = node_start(&syntax, i);
        let (end_row, end_column) = node_end(&syntax, i);
        let node = SyntaxNode {
            kind: node_kind(&syntax, i),
            named: node_is_named(&syntax, i),
            depth: node_depth(&syntax, i),
            start_row,
            start_column,
            end_row,
            end_column,
            start_byte: node_start_byte(&syntax, i),
            end_byte: node_end_byte(&syntax, i),
            name_span: node_field_span(&syntax, i, "name"),
            parameters_span: node_field_span(&syntax, i, "parameters"),
        };
        nodes.push(node);
    }
    let tree = SyntaxTree { source: String::from_str(source), nodes };
    assert(tree@.nodes =~= python_syntax_tree(text).nodes);
    Some(tree)
}

impl SyntaxTree {
    /// The index of the root node.
    pub fn root_node(&self) -> (root: usize)
        ensures
            root == 0,
    {
        0
    }

    /// Whether the tree is well nested, the hypothesis under which its
    /// searches are proved complete.
    pub fn is_well_nested(&self) -> (ok: bool)
        ensures
            ok == well_nested(self@.nodes),
    {
        let ghost nodes = self@.nodes;
        let n = self.nodes.len();
        for i in 0..n
            invariant
                n == nodes.len(),
                nodes == self@.nodes,
                forall|a: int, k: int|
                    0 <= a < i && #[trigger] in_subtree(nodes, a, k) ==> {
                        &&& nodes[a].start_row <= nodes[k].start_row
                        &&& nodes[k].end_row <= nodes[a].end_row
                        &&& (nodes[k].named ==> nodes[a].named)
                    },
        {
            let end = self.subtree_end(i);
            for k in i..end
                invariant
                    n == nodes.len(),
                    nodes == self@.nodes,
                    end == subtree_end(nodes, i as int),
                    i < end <= n,
                    forall|a: int, k: int|
                        0 <= a < i && #[trigger] in_subtree(nodes, a, k) ==> {
                            &&& nodes[a].start_row <= nodes[k].start_row
                            &&& nodes[k].end_row <= nodes[a].end_row
                            &&& (nodes[k].named ==> nodes[a].named)
                        },
                    forall|m: int|
                        i <= m < k ==> {
                            &&& nodes[i as int].start_row <= #[trigger] nodes[m].start_row
                            &&& nodes[m].end_row <= nodes[i as int].end_row
                            &&& (nodes[m].named ==> nodes[i as int].named)
                        },
            {
                let parent = &self.nodes[i];
                let child = &self.nodes[k];
                if !(parent.start_row <= child.start_row && child.end_row <= parent.end_row && (
                !child.named || parent.named)) {
                    assert(in_subtree(nodes, i as int, k as int));
                    return false;
                }
            }
            assert forall|a: int, k: int|
                0 <= a < i + 1 && #[trigger] in_subtree(nodes, a, k) implies {
                    &&& nodes[a].start_row <= nodes[k].start_row
                    &&& nodes[k].end_row <= nodes[a].end_row
                    &&& (nodes[k].named ==> nodes[a].named)
                } by {
                if a == i {
                    assert(nodes[k].start_row == nodes[k].start_row);
                }
            }
        }
        true
    }

    /// The index just past the subtree of node `i`.
    pub fn subtree_end(&self, i: usize) -> (end: usize)
        requires
            i < self.nodes@.len(),
        ensures
            end == subtree_end(self@.nodes, i as int),
            i < end <= self.nodes@.len(),
    {
        let ghost nodes = self@.nodes;
        let depth = self.nodes[i].depth;
        let n = self.nodes.len();
        let mut k = i + 1;
        while k < self.nodes.len() && self.nodes[k].depth > depth
            invariant
                i < k <= self.nodes@.len() == nodes.len(),
                nodes == self@.nodes,
                depth == nodes[i as int].depth,
                scan_subtree_end(nodes, depth, i + 1) == scan_subtree_end(nodes, depth, k as int),
            decreases self.nodes.len() - k,
        {
            k = k + 1;
        }
        k
    }

    /// Whether node `i` has the given kind.
    pub fn kind_is(&self, i: usize, kind: &str) -> (same: bool)
        requires
            i < self.nodes@.len(),
        ensures
            same == (self@.nodes[i as int].kind == kind@),
    {
        str_equals(self.nodes[i].kind.as_str(), kind)
    }

    /// Whether the rows of node `i` cover the line.
    pub fn node_contains_line(&self, i: usize, line: usize) -> (covers: bool)
        requires
            i < self.nodes@.len(),
        ensures
            covers == contains_line(self@.nodes[i as int], line as int),
    {
        self.nodes[i].start_row <= line && line <= self.nodes[i].end_row
    }

    /// The innermost node of the given kind that covers the line, searched
    /// from node `i`.
    pub fn find_innermost_containing(&self, kind: &str, i: usize, line: usize) -> (found: Option<usize>)
        requires
            i < self.nodes@.len(),
        ensures
            opt_index(found) == innermost_containing(self@.nodes, kind@, i as int, line as int),
        decreases self.nodes@.len() - i,
    {
        let ghost nodes = self@.nodes;
        let stop = self.subtree_end(i);
        let mut j = i + 1;
        while j < stop
            invariant
                i < j <= self.nodes@.len(),
                nodes == self@.nodes,
                stop == subtree_end(nodes, i as int),
                stop <= self.nodes@.len(),
                innermost_among(nodes, kind@, i + 1, stop as int, line as int) == innermost_among(
                    nodes,
                    kind@,
                    j as int,
                    stop as int,
                    line as int,
                ),
            decreases self.nodes@.len() - j,
        {
            if self.nodes[j].named && self.node_contains_line(j, line) {
                let inner = self.find_innermost_containing(kind, j, line);
                if inner.is_some() {
                    return inner;
                }
            }
            j = self.subtree_end(j);
        }
        if self.kind_is(i, kind) && self.node_contains_line(i, line) {
            Some(i)
        } else {
            None
        }
    }

    /// The first function definition starting on the line, searched from node `i`.
    pub fn find_function_starting_on(&self, i: usize, line: usize) -> (found: Option<usize>)
        requires
            i < self.nodes@.len(),
        ensures
            opt_index(found) == function_starting_on(self@.nodes, i as int, line as int),
        decreases self.nodes@.len() - i,
    {
        let ghost nodes = self@.nodes;
        if self.kind_is(i, "function_definition") && self.nodes[i].start_row == line {
            return Some(i);
        }
        let stop = self.subtree_end(i);
        assert(function_starting_on(nodes, i as int, line as int) == function_starting_among(
            nodes,
            i + 1,
            stop as int,
            line as int,
        ));
        let mut j = i + 1;
        while j < stop
            invariant
                i < j <= self.nodes@.len(),
                nodes == self@.nodes,
                stop == subtree_end(nodes, i as int),
                stop <= self.nodes@.len(),
                function_starting_on(nodes, i as int, line as int) == function_starting_among(
                    nodes,
                    j as int,
                    stop as int,
                    line as int,
                ),
            decreases self.nodes@.len() - j,
        {
            if self.nodes[j].named {
                let inner = self.find_function_starting_on(j, line);
                if inner.is_some() {
                    return inner;
                }
            }
            j = self.subtree_end(j);
        }
        None
    }

    /// Whether node `i` opens a local block.
    pub fn is_local_scope_node(&self, i: usize) -> (local: bool)
        requires
            i < self.nodes@.len(),
        ensures
            local == is_local_scope_kind(self@.nodes[i as int].kind),
    {
        self.kind_is(i, "for_statement") || self.kind_is(i, "if_statement") || self.kind_is(
            i,
            "match_statement",
        ) || self.kind_is(i, "try_statement") || self.kind_is(i, "while_statement")
            || self.kind_is(i, "with_statement") || self.kind_is(i, "elif_clause")
            || self.kind_is(i, "else_clause") || self.kind_is(i, "except_clause")
            || self.kind_is(i, "finally_clause")
    }

    /// The innermost local block covering the line, searched from node `i`.
    pub fn find_local_scope_containing(&self, i: usize, line: usize) -> (found: Option<usize>)
        requires
            i < self.nodes@.len(),
        ensures
            opt_index(found) == local_scope_containing(self@.nodes, i as int, line as int),
        decreases self.nodes@.len() - i,
    {
        let ghost nodes = self@.nodes;
        if !self.node_contains_line(i, line) {
            return None;
        }
        let mut best: Option<usize> = if self.is_local_scope_node(i) {
            Some(i)
        } else {
            None
        };
        let stop = self.subtree_end(i);
        let mut j = i + 1;
        while j < stop
            invariant
                i < j <= self.nodes@.len(),
                nodes == self@.nodes,
                contains_line(nodes[i as int], line as int),
                stop == subtree_end(nodes, i as int),
                stop <= self.nodes@.len(),
                local_scope_containing(nodes, i as int, line as int) == local_scope_among(
                    nodes,
                    j as int,
                    stop as int,
                    line as int,
                    opt_index(best),
                ),
            decreases self.nodes@.len() - j,
        {
            if self.nodes[j].named && self.node_contains_line(j, line) {
                let inner = self.find_local_scope_containing(j, line);
                if inner.is_some() {
                    best = inner;
                }
            }
            j = self.subtree_end(j);
        }
        best
    }
}

/// The speech form of the text of the node's `name` field, or the fallback
/// when the node has no such field or its text cannot be read.
pub open spec fn name_speech(source: Seq<char>, node: NodeView, fallback: Seq<char>) -> Seq<char> {
    match node.name_span {
        Some(span) => match span_text(source, span) {
            Some(text) => simple_speech(text),
            None => fallback,
        },
        None => fallback,
    }
}

/// The spoken name of a class definition node.
pub open spec fn class_name(tree: SyntaxTreeView, node: int) -> Seq<char> {
    name_speech(tree.source, tree.nodes[node], "unknown class"@)
}

/// The spoken name of a function definition node.
pub open spec fn function_name(tree: SyntaxTreeView, node: int) -> Seq<char> {
    name_speech(tree.source, tree.nodes[node], "unknown function"@)
}

/// Short speech for the kind of a local block.
pub open spec fn local_scope_description(kind: Seq<char>) -> Seq<char> {
    if kind == "for_statement"@ {
        "for loop"@
    } else if kind == "if_statement"@ {
        "if statement"@
    } else if kind == "match_statement"@ {
        "match statement"@
    } else if kind == "try_statement"@ {
        "try statement"@
    } else if kind == "while_statement"@ {
        "while loop"@
    } else if kind == "with_statement"@ {
        "with statement"@
    } else if kind == "elif_clause"@ {
        "elif clause"@
    } else if kind == "else_clause"@ {
        "else clause"@
    } else if kind == "except_clause"@ {
        "except clause"@
    } else if kind == "finally_clause"@ {
        "finally clause"@
    } else {
        kind + " scope"@
    }
}

/// A grammar kind with each underscore read as a space.
pub open spec fn underscores_to_spaces(kind: Seq<char>) -> Seq<char> {
    kind.map_values(|c: char| if c == '_' { ' ' } else { c })
}

proof fn lemma_description_of_kind(kind: Seq<char>)
    requires
        is_local_scope_kind(kind),
    ensures
        (kind == "for_statement"@ || kind == "while_statement"@) ==> local_scope_description(kind)
            == underscores_to_spaces(kind.take(kind.len() - 9)) + "loop"@,
        !(kind == "for_statement"@ || kind == "while_statement"@) ==> local_scope_description(kind)
            == underscores_to_spaces(kind),
{
    reveal_strlit("for_statement");
    reveal_strlit("if_statement");
    reveal_strlit("match_statement");
    reveal_strlit("try_statement");
    reveal_strlit("while_statement");
    reveal_strlit("with_statement");
    reveal_strlit("elif_clause");
    reveal_strlit("else_clause");
    reveal_strlit("except_clause");
    reveal_strlit("finally_clause");
    reveal_strlit("for loop");
    reveal_strlit("if statement");
    reveal_strlit("match statement");
    reveal_strlit("try statement");
    reveal_strlit("while loop");
    reveal_strlit("with statement");
    reveal_strlit("elif clause");
    reveal_strlit("else clause");
    reveal_strlit("except clause");
    reveal_strlit("finally clause");
    reveal_strlit("loop");
    if kind == "for_statement"@ {
        reveal_strlit("for ");
        assert(kind.take(kind.len() - 9).len() == "for "@.len());
        assert(underscores_to_spaces(kind.take(kind.len() - 9)) =~= "for "@);
        assert(local_scope_description(kind) =~= underscores_to_spaces(kind.take(kind.len() - 9)) + "loop"@);
    } else if kind == "if_statement"@ {
        assert(kind.len() != "for_statement"@.len() || kind[0] != "for_statement"@[0]);
        assert(kind.len() != "while_statement"@.len() || kind[0] != "while_statement"@[0]);
        assert(local_scope_description(kind) =~= underscores_to_spaces(kind));
    } else if kind == "match_statement"@ {
        assert(kind.len() != "for_statement"@.len() || kind[0] != "for_statement"@[0]);
        assert(kind.len() != "while_statement"@.len() || kind[0] != "while_statement"@[0]);
        assert(local_scope_description(kind) =~= underscores_to_spaces(kind));
    } else if kind == "try_statement"@ {
        assert(kind.len() != "for_statement"@.len() || kind[0] != "for_statement"@[0]);
        assert(kind.len() != "while_statement"@.len() || kind[0] != "while_statement"@[0]);
        assert(local_scope_description(kind) =~= underscores_to_spaces(kind));
    } else if kind == "while_statement"@ {
        reveal_strlit("while ");
        assert(kind.take(kind.len() - 9).len() == "while "@.len());
        assert(underscores_to_spaces(kind.take(kind.len() - 9)) =~= "while "@);
        assert(local_scope_description(kind) =~= underscores_to_spaces(kind.take(kind.len() - 9)) + "loop"@);
    } else if kind == "with_statement"@ {
        assert(kind.len() != "for_statement"@.len() || kind[0] != "for_statement"@[0]);
        assert(kind.len() != "while_statement"@.len() || kind[0] != "while_statement"@[0]);
        assert(local_scope_description(kind) =~= underscores_to_spaces(kind));
    } else if kind == "elif_clause"@ {
        assert(kind.len() != "for_statement"@.len() || kind[0] != "for_statement"@[0]);
        assert(kind.len() != "while_statement"@.len() || kind[0] != "while_statement"@[0]);
        assert(local_scope_description(kind) =~= underscores_to_spaces(kind));
    } else if kind == "else_clause"@ {
        assert(kind.len() != "for_statement"@.len() || kind[0] != "for_statement"@[0]);
        assert(kind.len() != "while_statement"@.len() || kind[0] != "while_statement"@[0]);
        assert(local_scope_description(kind) =~= underscores_to_spaces(kind));
    } else if kind == "except_clause"@ {
        assert(kind.len() != "for_statement"@.len() || kind[0] != "for_statement"@[0]);
        assert(kind.len() != "while_statement"@.len() || kind[0] != "while_statement"@[0]);
        assert(local_scope_description(kind) =~= underscores_to_spaces(kind));
    } else if kind == "finally_clause"@ {
        assert(kind.len() != "for_statement"@.len() || kind[0] != "for_statement"@[0]);
        assert(kind.len() != "while_statement"@.len() || kind[0] != "while_statement"@[0]);
        assert(local_scope_description(kind) =~= underscores_to_spaces(kind));
    }
}

/// A local block is read by its own kind: the kind with its underscores
/// read as spaces, except that a `for` or `while` statement is read as a
/// loop; and different kinds of block are read differently.
pub proof fn law_local_scope_description_names_kind(kind: Seq<char>, other: Seq<char>)
    requires
        is_local_scope_kind(kind),
        is_local_scope_kind(other),
    ensures
        (kind == "for_statement"@ || kind == "while_statement"@) ==> local_scope_description(kind)
            == underscores_to_spaces(kind.take(kind.len() - 9)) + "loop"@,
        !(kind == "for_statement"@ || kind == "while_statement"@) ==> local_scope_description(kind)
            == underscores_to_spaces(kind),
        kind != other ==> local_scope_description(kind) != local_scope_description(other),
{
    lemma_description_of_kind(kind);
    reveal_strlit("for_statement");
    reveal_strlit("if_statement");
    reveal_strlit("match_statement");
    reveal_strlit("try_statement");
    reveal_strlit("while_statement");
    reveal_strlit("with_statement");
    reveal_strlit("elif_clause");
    reveal_strlit("else_clause");
    reveal_strlit("except_clause");
    reveal_strlit("finally_clause");
    reveal_strlit("for loop");
    reveal_strlit("if statement");
    reveal_strlit("match statement");
    reveal_strlit("try statement");
    reveal_strlit("while loop");
    reveal_strlit("with statement");
    reveal_strlit("elif clause");
    reveal_strlit("else clause");
    reveal_strlit("except clause");
    reveal_strlit("finally clause");
    reveal_strlit("loop");
    if kind != other && local_scope_description(kind) == local_scope_description(other) {
        let a = local_scope_description(kind);
        let b = local_scope_description(other);
        assert(a.len() == b.len());
        assert(a[0] == b[0]);
        assert(a[1] == b[1]);
        assert(a[2] == b[2]);
        assert(false);
    }
}

/// The speech form of the node's `name` field text, or the fallback.
fn name_speech_of(tree: &SyntaxTree, node: usize, fallback: &str) -> (name: String)
    requires
        node < tree.nodes@.len(),
    ensures
        name@ == name_speech(tree@.source, tree@.nodes[node as int], fallback@),
{
    match tree.nodes[node].name_span {
        Some((start, end)) => match text_in_span(tree.source.as_str(), start, end) {
            Some(text) => make_simple_speech_text(text.as_str()),
            None => String::from_str(fallback),
        },
        None => String::from_str(fallback),
    }
}

/// Extracts and speech-formats the name of a Python class definition.
pub fn get_class_name(tree: &SyntaxTree, class_node: usize) -> (name: String)
    requires
        class_node < tree.nodes@.len(),
    ensures
        name@ == class_name(tree@, class_node as int),
{
    name_speech_of(tree, class_node, "unknown class")
}

/// Extracts and speech-formats the name of a Python function definition.
pub fn get_function_name(tree: &SyntaxTree, function_node: usize) -> (name: String)
    requires
        function_node < tree.nodes@.len(),
    ensures
        name@ == function_name(tree@, function_node as int),
{
    name_speech_of(tree, function_node, "unknown function")
}

/// Converts a local Python scope node into short speech: the kind of
/// block, not its condition.
pub fn describe_local_scope_node(tree: &SyntaxTree, scope_node: usize) -> (speech: String)
    requires
        scope_node < tree.nodes@.len(),
    ensures
        speech@ == local_scope_description(tree@.nodes[scope_node as int].kind),
{
    if tree.kind_is(scope_node, "for_statement") {
        String::from_str("for loop")
    } else if tree.kind_is(scope_node, "if_statement") {
        String::from_str("if statement")
    } else if tree.kind_is(scope_node, "match_statement") {
        String::from_str("match statement")
    } else if tree.kind_is(scope_node, "try_statement") {
        String::from_str("try statement")
    } else if tree.kind_is(scope_node, "while_statement") {
        String::from_str("while loop")
    } else if tree.kind_is(scope_node, "with_statement") {
        String::from_str("with statement")
    } else if tree.kind_is(scope_node, "elif_clause") {
        String::from_str("elif clause")
    } else if tree.kind_is(scope_node, "else_clause") {
        String::from_str("else clause")
    } else if tree.kind_is(scope_node, "except_clause") {
        String::from_str("except clause")
    } else if tree.kind_is(scope_node, "finally_clause") {
        String::from_str("finally clause")
    } else {
        let mut other = tree.nodes[scope_node].kind.clone();
        other.append(" scope");
        other
    }
}

/// The summaries of the parameters of a function definition node, read
/// from the text of its `parameters` field (none when it has no such field
/// or the text cannot be read).
pub open spec fn node_parameters(tree: SyntaxTreeView, node: int) -> Seq<ParameterSummaryView> {
    match tree.nodes[node].parameters_span {
        Some(span) => match span_text(tree.source, span) {
            Some(text) => parameter_summaries(text),
            None => seq![],
        },
        None => seq![],
    }
}

/// The spoken return type of a function definition node, read from its text.
pub open spec fn node_return_type(tree: SyntaxTreeView, node: int) -> Option<Seq<char>> {
    match span_text(tree.source, (tree.nodes[node].start_byte, tree.nodes[node].end_byte)) {
        Some(text) => return_type_speech(text),
        None => None,
    }
}

/// The speech for a function definition: its name, its parameters and, if
/// annotated, its return type.
pub open spec fn function_definition_speech(tree: SyntaxTreeView, node: int) -> Seq<char> {
    let head = "Function "@ + function_name(tree, node) + ". "@ + parameters_speech(
        node_parameters(tree, node),
    );
    match node_return_type(tree, node) {
        Some(returned) => head + ". Returns "@ + returned + "."@,
        None => head + "."@,
    }
}

/// The speech for the parameters of a function definition alone.
pub open spec fn function_parameters_speech(tree: SyntaxTreeView, node: int) -> Seq<char> {
    parameters_speech(node_parameters(tree, node)) + "."@
}

/// The parameter summaries of a function definition node.
fn parameters_of(tree: &SyntaxTree, function_node: usize) -> (parameters: Vec<ParameterSummary>)
    requires
        function_node < tree.nodes@.len(),
    ensures
        summary_views(parameters@) == node_parameters(tree@, function_node as int),
{
    match tree.nodes[function_node].parameters_span {
        Some((start, end)) => match text_in_span(tree.source.as_str(), start, end) {
            Some(text) => extract_parameter_summaries(text.as_str()),
            None => {
                let none: Vec<ParameterSummary> = Vec::new();
                assert(summary_views(none@) == Seq::<ParameterSummaryView>::empty());
                none
            },
        },
        None => {
            let none: Vec<ParameterSummary> = Vec::new();
            assert(summary_views(none@) == Seq::<ParameterSummaryView>::empty());
            none
        },
    }
}

/// The spoken return type of a function definition node.
pub fn extract_return_type(tree: &SyntaxTree, function_node: usize) -> (return_type: Option<String>)
    requires
        function_node < tree.nodes@.len(),
    ensures
        crate::text::opt_chars(return_type) == node_return_type(tree@, function_node as int),
{
    let node = &tree.nodes[function_node];
    match text_in_span(tree.source.as_str(), node.start_byte, node.end_byte) {
        Some(text) => extract_return_type_from_text(&chars_of(text.as_str())),
        None => None,
    }
}

/// Converts a Python function definition node into speech text.
pub fn describe_function_definition(tree: &SyntaxTree, function_node: usize) -> (speech: String)
    requires
        function_node < tree.nodes@.len(),
    ensures
        speech@ == function_definition_speech(tree@, function_node as int),
{
    let function_name = get_function_name(tree, function_node);
    let parameters = parameters_of(tree, function_node);
    let return_type = extract_return_type(tree, function_node);
    let parameter_speech = describe_parameters(&parameters);
    let mut speech = String::from_str("Function ");
    speech.append(function_name.as_str());
    speech.append(". ");
    speech.append(string_of(&parameter_speech).as_str());
    match return_type {
        Some(returned) => {
            speech.append(". Returns ");
            speech.append(returned.as_str());
            speech.append(".");
        },
        None => {
            speech.append(".");
        },
    }
    speech
}

/// Converts a Python function definition node into parameter-only speech:
/// no name, return type or context.
pub fn describe_function_parameters(tree: &SyntaxTree, function_node: usize) -> (speech: String)
    requires
        function_node < tree.nodes@.len(),
    ensures
        speech@ == function_parameters_speech(tree@, function_node as int),
{
    let parameters = parameters_of(tree, function_node);
    let parameter_speech = describe_parameters(&parameters);
    let mut speech = string_of(&parameter_speech);
    speech.append(".");
    speech
}

/// The innermost class definition covering the line, searched from `node`.
pub open spec fn class_containing(nodes: Seq<NodeView>, node: int, line: int) -> Option<int> {
    innermost_containing(nodes, "class_definition"@, node, line)
}

/// The innermost function definition covering the line, searched from `node`.
pub open spec fn function_containing(nodes: Seq<NodeView>, node: int, line: int) -> Option<int> {
    innermost_containing(nodes, "function_definition"@, node, line)
}

/// Searches the tree below `node` for a Python function definition that
/// starts on the cursor line; the first one in preorder.
pub fn find_function_definition_starting_on_line(tree: &SyntaxTree, node: usize, cursor_line: usize) -> (found: Option<usize>)
    requires
        node < tree.nodes@.len(),
    ensures
        opt_index(found) == function_starting_on(tree@.nodes, node as int, cursor_line as int),
{
    tree.find_function_starting_on(node, cursor_line)
}

/// Searches the tree below `node` for the most specific Python class
/// definition that contains the cursor line.
pub fn find_class_definition_containing_line(tree: &SyntaxTree, node: usize, cursor_line: usize) -> (found: Option<usize>)
    requires
        node < tree.nodes@.len(),
    ensures
        opt_index(found) == class_containing(tree@.nodes, node as int, cursor_line as int),
{
    tree.find_innermost_containing("class_definition", node, cursor_line)
}

/// Searches the tree below `node` for the most specific Python function
/// definition that contains the cursor line.
pub fn find_function_definition_containing_line(tree: &SyntaxTree, node: usize, cursor_line: usize) -> (found: Option<usize>)
    requires
        node < tree.nodes@.len(),
    ensures
        opt_index(found) == function_containing(tree@.nodes, node as int, cursor_line as int),
{
    tree.find_innermost_containing("function_definition", node, cursor_line)
}

/// Searches the tree below `node` for the most specific local block (a
/// loop, conditional, `try`, `with` or `match` statement, or one of their
/// clauses) that contains the cursor line; never a function or class.
pub fn find_local_scope_node_containing_line(tree: &SyntaxTree, node: usize, cursor_line: usize) -> (found: Option<usize>)
    requires
        node < tree.nodes@.len(),
    ensures
        opt_index(found) == local_scope_containing(tree@.nodes, node as int, cursor_line as int),
{
    tree.find_local_scope_containing(node, cursor_line)
}

/// The innermost class definition covering the line, searched from the root.
pub fn class_at_line(tree: &SyntaxTree, cursor_line: usize) -> (found: Option<usize>)
    ensures
        opt_index(found) == class_containing(tree@.nodes, 0, cursor_line as int),
        found matches Some(k) ==> k < tree.nodes@.len(),
{
    if tree.nodes.len() == 0 {
        None
    } else {
        let found = find_class_definition_containing_line(tree, 0, cursor_line);
        proof {
            law_innermost_containing(tree@.nodes, "class_definition"@, 0, cursor_line as int);
        }
        found
    }
}

/// The innermost function definition covering the line, searched from the root.
pub fn function_at_line(tree: &SyntaxTree, cursor_line: usize) -> (found: Option<usize>)
    ensures
        opt_index(found) == function_containing(tree@.nodes, 0, cursor_line as int),
        found matches Some(k) ==> k < tree.nodes@.len(),
{
    if tree.nodes.len() == 0 {
        None
    } else {
        let found = find_function_definition_containing_line(tree, 0, cursor_line);
        proof {
            law_innermost_containing(tree@.nodes, "function_definition"@, 0, cursor_line as int);
        }
        found
    }
}

/// The first function definition starting on the line, searched from the root.
pub fn function_starting_at_line(tree: &SyntaxTree, cursor_line: usize) -> (found: Option<usize>)
    ensures
        opt_index(found) == function_starting_on(tree@.nodes, 0, cursor_line as int),
        found matches Some(k) ==> k < tree.nodes@.len(),
{
    if tree.nodes.len() == 0 {
        None
    } else {
        let found = find_function_definition_starting_on_line(tree, 0, cursor_line);
        proof {
            law_function_starting_on(tree@.nodes, 0, cursor_line as int);
            lemma_subtree_end_bounds(tree@.nodes, 0);
            assert(tree@.nodes.len() == tree.nodes@.len());
        }
        found
    }
}

/// The innermost local block covering the line, searched from the root.
pub fn local_scope_at_line(tree: &SyntaxTree, cursor_line: usize) -> (found: Option<usize>)
    ensures
        opt_index(found) == local_scope_containing(tree@.nodes, 0, cursor_line as int),
        found matches Some(k) ==> k < tree.nodes@.len(),
{
    if tree.nodes.len() == 0 {
        None
    } else {
        let found = find_local_scope_node_containing_line(tree, 0, cursor_line);
        proof {
            law_local_scope_containing(tree@.nodes, 0, cursor_line as int);
            lemma_subtree_end_bounds(tree@.nodes, 0);
            assert(tree@.nodes.len() == tree.nodes@.len());
        }
        found
    }
}

} // verus!
