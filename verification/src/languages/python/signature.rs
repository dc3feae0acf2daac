//! Reading a Python function signature's text: splitting parameters at
//! top-level separators, and turning names, annotations, default values
//! and return types into speech.

use vstd::prelude::*;

use crate::speech::simple::{simple_speech, simple_speech_chars};
use crate::text::{
    first_index, last_index, law_trim_idempotent, lemma_first_index, lemma_join_push,
    lemma_join_concat, lemma_last_index, lemma_non_blank_add, lemma_non_blank_push, lemma_non_blank_trim, lines,
    lines_of, non_blank,
    chars_of, collapse_whitespace, collapse_whitespace_chars, copy_range, extend_chars, join,
    join_chars, lowercase, opt_chars, opt_chars_of, string_of, strip_both, strip_both_chars,
    strip_leading, strip_leading_chars, strip_trailing, strip_trailing_chars, to_lowercase, trim,
    trim_chars, views_of,
};

verus! {

/// Where a left-to-right scan stands: how many brackets are open, and the
/// quote character of the string literal it is inside, if any.
pub struct ScanState {
    pub depth: nat,
    pub quote: Option<char>,
}

pub open spec fn is_quote(c: char) -> bool {
    c == '\'' || c == '"'
}

pub open spec fn is_open_bracket(c: char) -> bool {
    c == '(' || c == '[' || c == '{'
}

pub open spec fn is_close_bracket(c: char) -> bool {
    c == ')' || c == ']' || c == '}'
}

/// One step of the scan. Inside a quote only the closing quote matters;
/// outside, a quote opens a string, brackets nest, and a closing bracket
/// with none open is ignored.
pub open spec fn scan_step(state: ScanState, c: char) -> ScanState {
    match state.quote {
        Some(q) => ScanState { depth: state.depth, quote: if c == q { None } else { Some(q) } },
        None => if is_quote(c) {
            ScanState { depth: state.depth, quote: Some(c) }
        } else if is_open_bracket(c) {
            ScanState { depth: state.depth + 1, quote: None }
        } else if is_close_bracket(c) {
            ScanState {
                depth: if state.depth > 0 {
                    (state.depth - 1) as nat
                } else {
                    0
                },
                quote: None,
            }
        } else {
            state
        },
    }
}

/// The scan state after reading all of `s`.
pub open spec fn scan(s: Seq<char>) -> ScanState
    decreases s.len(),
{
    if s.len() == 0 {
        ScanState { depth: 0, quote: None }
    } else {
        scan_step(scan(s.drop_last()), s.last())
    }
}

/// Whether the character at `k` stands at top level: outside any string
/// before it, and with no bracket open once it is read.
pub open spec fn is_top_level_at(s: Seq<char>, k: int) -> bool {
    scan(s.take(k)).quote is None && scan(s.take(k + 1)).depth == 0
}

/// The parts of `s` between top-level commas, each trimmed, read left to
/// right: the parts closed so far and the text of the open part.
pub open spec fn comma_fold(s: Seq<char>) -> (Seq<Seq<char>>, Seq<char>)
    decreases s.len(),
{
    if s.len() == 0 {
        (seq![], seq![])
    } else {
        let (parts, current) = comma_fold(s.drop_last());
        let k = s.len() - 1;
        if s[k] == ',' && is_top_level_at(s, k) {
            (parts.push(trim(current)), seq![])
        } else {
            (parts, current.push(s[k]))
        }
    }
}

/// `s` split at its top-level commas, each part trimmed; the part after the
/// last comma is kept only if it is not blank.
pub open spec fn top_level_comma_parts(s: Seq<char>) -> Seq<Seq<char>> {
    let (parts, current) = comma_fold(s);
    if trim(current).len() > 0 {
        parts.push(trim(current))
    } else {
        parts
    }
}

/// The first index from `k` on that holds `sep` at top level.
pub open spec fn first_top_level(s: Seq<char>, sep: char, k: int) -> Option<int>
    decreases s.len() - k,
{
    if k < 0 || k >= s.len() {
        None
    } else if s[k] == sep && is_top_level_at(s, k) {
        Some(k)
    } else {
        first_top_level(s, sep, k + 1)
    }
}

/// `s` split once at its first top-level `sep`: the text before it and the
/// text after it, or all of `s` and nothing.
pub open spec fn split_once_top_level(s: Seq<char>, sep: char) -> (Seq<char>, Option<Seq<char>>) {
    match first_top_level(s, sep, 0) {
        Some(k) => (s.take(k), Some(s.skip(k + 1))),
        None => (s, None),
    }
}

/// The parts closed so far are each trimmed.
proof fn lemma_comma_fold_trimmed(s: Seq<char>)
    ensures
        forall|k: int|
            0 <= k < comma_fold(s).0.len() ==> trim(#[trigger] comma_fold(s).0[k])
                == comma_fold(s).0[k],
    decreases s.len(),
{
    if s.len() > 0 {
        lemma_comma_fold_trimmed(s.drop_last());
        let (parts, current) = comma_fold(s.drop_last());
        law_trim_idempotent(current);
        assert forall|k: int| 0 <= k < comma_fold(s).0.len() implies trim(
            #[trigger] comma_fold(s).0[k],
        ) == comma_fold(s).0[k] by {
            if k < parts.len() {
                assert(comma_fold(s).0[k] == parts[k]);
            }
        }
    }
}

/// Each part of a split at top-level commas is trimmed.
pub proof fn law_comma_parts_trimmed(s: Seq<char>)
    ensures
        forall|k: int|
            0 <= k < top_level_comma_parts(s).len() ==> trim(#[trigger] top_level_comma_parts(s)[k])
                == top_level_comma_parts(s)[k],
{
    lemma_comma_fold_trimmed(s);
    let (parts, current) = comma_fold(s);
    law_trim_idempotent(current);
    assert forall|k: int| 0 <= k < top_level_comma_parts(s).len() implies trim(
        #[trigger] top_level_comma_parts(s)[k],
    ) == top_level_comma_parts(s)[k] by {
        if k < parts.len() {
            assert(top_level_comma_parts(s)[k] == parts[k]);
        }
    }
}

/// Whether a character is a quote or a bracket, the characters that the
/// scan tracks.
pub open spec fn is_bracket_or_quote(c: char) -> bool {
    is_quote(c) || is_open_bracket(c) || is_close_bracket(c)
}

/// The parts of `s` between all its commas, each trimmed, read left to
/// right: the parts closed so far and the text of the open part.
pub open spec fn plain_comma_fold(s: Seq<char>) -> (Seq<Seq<char>>, Seq<char>)
    decreases s.len(),
{
    if s.len() == 0 {
        (seq![], seq![])
    } else {
        let (parts, current) = plain_comma_fold(s.drop_last());
        if s.last() == ',' {
            (parts.push(trim(current)), seq![])
        } else {
            (parts, current.push(s.last()))
        }
    }
}

/// `s` split at every comma, each part trimmed, as
/// `s.split(',').map(str::trim)` gives it; a blank part after the last
/// comma is left out.
pub open spec fn plain_comma_parts(s: Seq<char>) -> Seq<Seq<char>> {
    let (parts, current) = plain_comma_fold(s);
    if trim(current).len() > 0 {
        parts.push(trim(current))
    } else {
        parts
    }
}

/// A scan over text without quotes or brackets stays at top level.
proof fn lemma_scan_plain(s: Seq<char>)
    requires
        forall|k: int| 0 <= k < s.len() ==> !is_bracket_or_quote(#[trigger] s[k]),
    ensures
        scan(s) == (ScanState { depth: 0, quote: None }),
    decreases s.len(),
{
    if s.len() > 0 {
        let t = s.drop_last();
        assert forall|k: int| 0 <= k < t.len() implies !is_bracket_or_quote(#[trigger] t[k]) by {
            assert(t[k] == s[k]);
        }
        lemma_scan_plain(t);
        assert(!is_bracket_or_quote(s[s.len() - 1]));
    }
}

/// In text without quotes or brackets every character stands at top level.
proof fn lemma_top_level_plain(s: Seq<char>, k: int)
    requires
        forall|j: int| 0 <= j < s.len() ==> !is_bracket_or_quote(#[trigger] s[j]),
        0 <= k < s.len(),
    ensures
        is_top_level_at(s, k),
{
    assert forall|j: int| 0 <= j < s.take(k).len() implies !is_bracket_or_quote(
        #[trigger] s.take(k)[j],
    ) by {
        assert(s.take(k)[j] == s[j]);
    }
    assert forall|j: int| 0 <= j < s.take(k + 1).len() implies !is_bracket_or_quote(
        #[trigger] s.take(k + 1)[j],
    ) by {
        assert(s.take(k + 1)[j] == s[j]);
    }
    lemma_scan_plain(s.take(k));
    lemma_scan_plain(s.take(k + 1));
}

proof fn lemma_fold_plain(s: Seq<char>)
    requires
        forall|k: int| 0 <= k < s.len() ==> !is_bracket_or_quote(#[trigger] s[k]),
    ensures
        comma_fold(s) == plain_comma_fold(s),
    decreases s.len(),
{
    if s.len() > 0 {
        let t = s.drop_last();
        assert forall|k: int| 0 <= k < t.len() implies !is_bracket_or_quote(#[trigger] t[k]) by {
            assert(t[k] == s[k]);
        }
        lemma_fold_plain(t);
        lemma_top_level_plain(s, s.len() - 1);
        assert(s[s.len() - 1] == s.last());
    }
}

/// Without quotes or brackets, the split at top-level commas is the plain
/// split at every comma.
pub proof fn law_comma_split_without_brackets(s: Seq<char>)
    requires
        forall|k: int| 0 <= k < s.len() ==> !is_bracket_or_quote(#[trigger] s[k]),
    ensures
        top_level_comma_parts(s) == plain_comma_parts(s),
{
    lemma_fold_plain(s);
}

/// The non-blank characters of a text, against those of the parts closed
/// so far and of the open part.
proof fn lemma_fold_non_blank(s: Seq<char>)
    ensures
        comma_fold(s).0.len() == 0 ==> non_blank(s) == non_blank(comma_fold(s).1),
        comma_fold(s).0.len() > 0 ==> non_blank(s) == non_blank(join(comma_fold(s).0, seq![',']))
            + seq![','] + non_blank(comma_fold(s).1),
    decreases s.len(),
{
    if s.len() == 0 {
        reveal(Seq::filter);
    } else {
        let t = s.drop_last();
        let c = s.last();
        lemma_fold_non_blank(t);
        let (parts, current) = comma_fold(t);
        assert(s == t.push(c));
        lemma_non_blank_push(t, c);
        assert(s[s.len() - 1] == c);
        if c == ',' && is_top_level_at(s, s.len() - 1) {
            reveal(Seq::filter);
            assert(non_blank(Seq::<char>::empty()) == Seq::<char>::empty());
            lemma_non_blank_trim(current);
            lemma_join_push(parts, seq![','], trim(current));
            if parts.len() > 0 {
                lemma_non_blank_add(join(parts, seq![',']) + seq![','], trim(current));
                lemma_non_blank_add(join(parts, seq![',']), seq![',']);
                lemma_non_blank_push(Seq::<char>::empty(), ',');
                assert(seq![','] == Seq::<char>::empty().push(','));
            }
        } else {
            lemma_non_blank_push(current, c);
        }
    }
}

/// The split at top-level commas keeps every character that is not
/// whitespace, in order: joined back with commas it gives the text again,
/// up to whitespace and to a blank part after the last comma.
pub proof fn law_comma_parts_keep_characters(s: Seq<char>)
    ensures
        non_blank(join(top_level_comma_parts(s), seq![','])) == non_blank(s) || non_blank(
            join(top_level_comma_parts(s), seq![',']),
        ).push(',') == non_blank(s),
{
    lemma_fold_non_blank(s);
    let (parts, current) = comma_fold(s);
    lemma_non_blank_trim(current);
    lemma_join_push(parts, seq![','], trim(current));
    if trim(current).len() > 0 {
        if parts.len() > 0 {
            lemma_non_blank_add(join(parts, seq![',']) + seq![','], trim(current));
            lemma_non_blank_add(join(parts, seq![',']), seq![',']);
            lemma_non_blank_push(Seq::<char>::empty(), ',');
            reveal(Seq::filter);
            assert(seq![','] == Seq::<char>::empty().push(','));
        }
    } else {
        reveal(Seq::filter);
        assert(trim(current) == Seq::<char>::empty());
        assert(non_blank(Seq::<char>::empty()) == Seq::<char>::empty());
        if parts.len() > 0 {
            assert(non_blank(s) == non_blank(join(parts, seq![','])).push(','));
        } else {
            assert(join(parts, seq![',']) == Seq::<char>::empty());
        }
    }
}

proof fn lemma_in_quote(a: Seq<char>, q: char, t: Seq<char>, j: int)
    requires
        is_quote(q),
        scan(a).quote is None,
        forall|k: int| 0 <= k < t.len() ==> #[trigger] t[k] != q,
        a.len() + 1 <= j <= a.len() + 1 + t.len(),
    ensures
        scan((a + seq![q] + t).take(j)) == (ScanState { depth: scan(a).depth, quote: Some(q) }),
    decreases j,
{
    let u = a + seq![q] + t;
    if j == a.len() + 1 {
        assert(u.take(j) == a.push(q));
        assert(a.push(q).drop_last() == a);
    } else {
        lemma_in_quote(a, q, t, j - 1);
        assert(u.take(j).drop_last() == u.take(j - 1));
        assert(u.take(j).last() == t[j - 2 - a.len() as int]);
    }
}

/// A string literal hides what it holds: once a quote opens a string at top
/// level, no character up to and including the same quote closing it is at
/// top level, whatever other quotes, brackets or separators come between;
/// after the closing quote the scan is back where it was before the string.
pub proof fn law_quoted_text_is_opaque(a: Seq<char>, q: char, t: Seq<char>, b: Seq<char>)
    requires
        is_quote(q),
        scan(a).quote is None,
        forall|k: int| 0 <= k < t.len() ==> #[trigger] t[k] != q,
    ensures
        forall|k: int|
            a.len() < k <= a.len() + t.len() + 1 ==> !#[trigger] is_top_level_at(
                a + seq![q] + t + seq![q] + b,
                k,
            ),
        scan((a + seq![q] + t + seq![q] + b).take(a.len() + t.len() + 2 as int)) == scan(a),
{
    let s = a + seq![q] + t + seq![q] + b;
    let u = a + seq![q] + t;
    let n: int = a.len() + t.len() + 1int;
    assert forall|k: int| a.len() < k <= n implies !#[trigger] is_top_level_at(s, k) by {
        lemma_in_quote(a, q, t, k);
        assert(s.take(k) == u.take(k));
    }
    lemma_in_quote(a, q, t, n);
    assert(s.take(n + 1).drop_last() == u.take(n));
    assert(s.take(n + 1).last() == q);
}

proof fn lemma_in_bracket(a: Seq<char>, o: char, t: Seq<char>, j: int)
    requires
        is_open_bracket(o),
        scan(a).quote is None,
        forall|k: int| 0 <= k < t.len() ==> !is_bracket_or_quote(#[trigger] t[k]),
        a.len() + 1 <= j <= a.len() + 1 + t.len(),
    ensures
        scan((a + seq![o] + t).take(j)) == (ScanState { depth: scan(a).depth + 1, quote: None }),
    decreases j,
{
    let u = a + seq![o] + t;
    if j == a.len() + 1 {
        assert(u.take(j) == a.push(o));
        assert(a.push(o).drop_last() == a);
    } else {
        lemma_in_bracket(a, o, t, j - 1);
        assert(u.take(j).drop_last() == u.take(j - 1));
        assert(u.take(j).last() == t[j - 2 - a.len() as int]);
    }
}

/// Brackets hide what they hold: from an opening bracket at top level up
/// to the closing one, with no quote or other bracket between, no
/// character is at top level, so a comma or separator there does not
/// split; after the closing bracket the scan is back where it was.
pub proof fn law_bracketed_text_is_opaque(a: Seq<char>, o: char, t: Seq<char>, c: char, b: Seq<char>)
    requires
        is_open_bracket(o),
        is_close_bracket(c),
        scan(a).quote is None,
        forall|k: int| 0 <= k < t.len() ==> !is_bracket_or_quote(#[trigger] t[k]),
    ensures
        forall|k: int|
            a.len() <= k <= a.len() + t.len() ==> !#[trigger] is_top_level_at(
                a + seq![o] + t + seq![c] + b,
                k,
            ),
        scan((a + seq![o] + t + seq![c] + b).take(a.len() + t.len() + 2 as int)) == scan(a),
{
    let s = a + seq![o] + t + seq![c] + b;
    let u = a + seq![o] + t;
    let n: int = a.len() + t.len() + 1int;
    assert forall|k: int| a.len() <= k <= a.len() + t.len() implies !#[trigger] is_top_level_at(
        s,
        k,
    ) by {
        lemma_in_bracket(a, o, t, k + 1);
        assert(s.take(k + 1) == u.take(k + 1));
    }
    lemma_in_bracket(a, o, t, n);
    assert(s.take(n + 1).drop_last() == u.take(n));
    assert(s.take(n + 1).last() == c);
}

/// What the search for a top-level separator finds from `k` on: the first
/// index from `k` that holds the separator at top level.
proof fn lemma_first_top_level(s: Seq<char>, sep: char, k: int)
    requires
        0 <= k,
    ensures
        match first_top_level(s, sep, k) {
            Some(m) => {
                &&& k <= m < s.len()
                &&& s[m] == sep
                &&& is_top_level_at(s, m)
                &&& forall|j: int|
                    k <= j < m && s[j] == sep ==> !#[trigger] is_top_level_at(s, j)
            },
            None => forall|j: int|
                k <= j < s.len() && s[j] == sep ==> !#[trigger] is_top_level_at(s, j),
        },
    decreases s.len() - k,
{
    if k < s.len() && !(s[k] == sep && is_top_level_at(s, k)) {
        lemma_first_top_level(s, sep, k + 1);
    }
}

/// Splitting once at the first top-level separator: the text before it,
/// the separator and the text after it make up the whole, and the text
/// before holds no separator at top level; with no such separator the text
/// is left whole.
pub proof fn law_split_once_top_level(s: Seq<char>, sep: char)
    ensures
        match split_once_top_level(s, sep) {
            (before, Some(after)) => {
                &&& s == before + seq![sep] + after
                &&& is_top_level_at(s, before.len() as int)
                &&& forall|j: int|
                    0 <= j < before.len() && s[j] == sep ==> !#[trigger] is_top_level_at(s, j)
            },
            (before, None) => {
                &&& before == s
                &&& forall|j: int|
                    0 <= j < s.len() && s[j] == sep ==> !#[trigger] is_top_level_at(s, j)
            },
        },
{
    lemma_first_top_level(s, sep, 0);
    match first_top_level(s, sep, 0) {
        Some(m) => {
            assert(s == s.take(m) + seq![sep] + s.skip(m + 1));
        },
        None => {},
    }
}

/// The scan state after one more character.
fn scan_next(depth: usize, quote: Option<char>, c: char) -> (next: (usize, Option<char>))
    requires
        depth < usize::MAX,
    ensures
        next.0 == scan_step(ScanState { depth: depth as nat, quote }, c).depth,
        next.1 == scan_step(ScanState { depth: depth as nat, quote }, c).quote,
        next.0 <= depth + 1,
{
    match quote {
        Some(q) => if c == q {
            (depth, None)
        } else {
            (depth, Some(q))
        },
        None => if c == '\'' || c == '"' {
            (depth, Some(c))
        } else if c == '(' || c == '[' || c == '{' {
            (depth + 1, None)
        } else if c == ')' || c == ']' || c == '}' {
            (if depth > 0 {
                depth - 1
            } else {
                0
            }, None)
        } else {
            (depth, None)
        },
    }
}

/// The views of a vector of strings.
pub open spec fn string_views(parts: Seq<String>) -> Seq<Seq<char>> {
    parts.map_values(|p: String| p@)
}

proof fn lemma_scan_take(s: Seq<char>, i: int)
    requires
        0 <= i < s.len(),
    ensures
        scan(s.take(i + 1)) == scan_step(scan(s.take(i)), s[i]),
        is_top_level_at(s.take(i + 1), i) == is_top_level_at(s, i),
{
    assert(s.take(i + 1).drop_last() == s.take(i));
    assert(s.take(i + 1).take(i) == s.take(i));
    assert(s.take(i + 1).take(i + 1) == s.take(i + 1));
}

/// The top-level comma parts of the characters.
pub fn top_level_comma_chars(text: &Vec<char>) -> (parts: Vec<Vec<char>>)
    ensures
        views_of(parts@) == top_level_comma_parts(text@),
{
    let mut parts: Vec<Vec<char>> = Vec::new();
    let mut current: Vec<char> = Vec::new();
    let mut depth: usize = 0;
    let mut quote: Option<char> = None;
    let n = text.len();
    for i in 0..n
        invariant
            n == text@.len(),
            depth <= i,
            depth == scan(text@.take(i as int)).depth,
            quote == scan(text@.take(i as int)).quote,
            views_of(parts@) == comma_fold(text@.take(i as int)).0,
            current@ == comma_fold(text@.take(i as int)).1,
    {
        let c = text[i];
        proof {
            lemma_scan_take(text@, i as int);
        }
        let ghost prefix = text@.take(i + 1);
        assert(prefix.drop_last() == text@.take(i as int));
        let (next_depth, next_quote) = scan_next(depth, quote, c);
        if c == ',' && quote.is_none() && next_depth == 0 {
            let part = trim_chars(&current);
            parts.push(part);
            current = Vec::new();
            assert(views_of(parts@) == comma_fold(prefix).0);
        } else {
            current.push(c);
        }
        depth = next_depth;
        quote = next_quote;
    }
    assert(text@.take(n as int) == text@);
    let last = trim_chars(&current);
    if last.len() > 0 {
        parts.push(last);
    }
    assert(views_of(parts@) == top_level_comma_parts(text@));
    parts
}

/// Splits text at its top-level commas: commas inside brackets, braces,
/// parentheses or quotes do not split. Each part is trimmed; a blank part
/// after the last comma is dropped.
pub fn split_top_level_commas(text: &str) -> (parts: Vec<String>)
    ensures
        string_views(parts@) == top_level_comma_parts(text@),
{
    let chars = chars_of(text);
    let pieces = top_level_comma_chars(&chars);
    let mut parts: Vec<String> = Vec::new();
    for i in 0..pieces.len()
        invariant
            string_views(parts@) == views_of(pieces@).take(i as int),
    {
        parts.push(string_of(&pieces[i]));
        assert(views_of(pieces@).take(i + 1) == views_of(pieces@).take(i as int).push(
            pieces@[i as int]@,
        ));
    }
    assert(views_of(pieces@).take(pieces.len() as int) == views_of(pieces@));
    parts
}

/// Splits the characters once at the first top-level `sep`.
pub fn split_once_top_level_chars(s: &Vec<char>, sep: char) -> (split: (Vec<char>, Option<Vec<char>>))
    ensures
        split.0@ == split_once_top_level(s@, sep).0,
        opt_chars_of(split.1) == split_once_top_level(s@, sep).1,
{
    let mut depth: usize = 0;
    let mut quote: Option<char> = None;
    let n = s.len();
    for i in 0..n
        invariant
            n == s@.len(),
            depth <= i,
            depth == scan(s@.take(i as int)).depth,
            quote == scan(s@.take(i as int)).quote,
            first_top_level(s@, sep, 0) == first_top_level(s@, sep, i as int),
    {
        let c = s[i];
        proof {
            lemma_scan_take(s@, i as int);
        }
        let (next_depth, next_quote) = scan_next(depth, quote, c);
        if c == sep && quote.is_none() && next_depth == 0 {
            assert(is_top_level_at(s@, i as int));
            let before = copy_range(s, 0, i);
            let after = copy_range(s, i + 1, n);
            assert(s@.take(i as int) == s@.subrange(0, i as int));
            assert(s@.skip(i + 1) == s@.subrange(i + 1, n as int));
            return (before, Some(after));
        }
        assert(!(s@[i as int] == sep && is_top_level_at(s@, i as int)));
        depth = next_depth;
        quote = next_quote;
    }
    let whole = copy_range(s, 0, n);
    assert(s@.subrange(0, n as int) == s@);
    (whole, None)
}

pub open spec fn is_ascii_digit(c: char) -> bool {
    '0' <= c && c <= '9'
}

/// The English word for one digit.
pub open spec fn digit_word(c: char) -> Option<Seq<char>> {
    if c == '0' {
        Some("zero"@)
    } else if c == '1' {
        Some("one"@)
    } else if c == '2' {
        Some("two"@)
    } else if c == '3' {
        Some("three"@)
    } else if c == '4' {
        Some("four"@)
    } else if c == '5' {
        Some("five"@)
    } else if c == '6' {
        Some("six"@)
    } else if c == '7' {
        Some("seven"@)
    } else if c == '8' {
        Some("eight"@)
    } else if c == '9' {
        Some("nine"@)
    } else {
        None
    }
}

/// The words of each digit, if every character is a digit.
pub open spec fn digit_words(s: Seq<char>) -> Option<Seq<Seq<char>>>
    decreases s.len(),
{
    if s.len() == 0 {
        Some(seq![])
    } else {
        match (digit_words(s.drop_last()), digit_word(s.last())) {
            (Some(words), Some(word)) => Some(words.push(word)),
            _ => None,
        }
    }
}

/// A run of digits as speech: "zero" when empty, the digit's word when it
/// is one digit, and the digits themselves otherwise.
pub open spec fn digits_word(digits: Seq<char>) -> Option<Seq<char>> {
    if digits.len() == 0 {
        Some("zero"@)
    } else if digits.len() == 1 {
        digit_word(digits[0])
    } else {
        Some(digits)
    }
}

/// How often `c` occurs in `s`.
pub open spec fn count_char(s: Seq<char>, c: char) -> nat
    decreases s.len(),
{
    if s.len() == 0 {
        0
    } else {
        count_char(s.drop_last(), c) + if s.last() == c {
            1nat
        } else {
            0nat
        }
    }
}

/// Whether every character is an ASCII digit or a point.
pub open spec fn digits_and_points(s: Seq<char>) -> bool {
    forall|i: int| 0 <= i < s.len() ==> (is_ascii_digit(#[trigger] s[i]) || s[i] == '.')
}

/// Speech for a simple integer or decimal literal such as `0`, `12`,
/// `0.19` or `-1.5`: an optional "minus", the whole part, and for a
/// decimal "point" followed by each fractional digit's word. Anything else
/// has none.
pub open spec fn number_speech(value: Seq<char>) -> Option<Seq<char>> {
    let negative = value.len() > 0 && value[0] == '-';
    let unsigned = if negative {
        value.drop_first()
    } else {
        value
    };
    let sign: Seq<Seq<char>> = if negative {
        seq!["minus"@]
    } else {
        seq![]
    };
    if unsigned.len() == 0 {
        None
    } else if !digits_and_points(unsigned) {
        None
    } else if count_char(unsigned, '.') > 1 {
        None
    } else {
        match first_index(unsigned, '.') {
            Some(k) => match (digits_word(unsigned.take(k)), digit_words(unsigned.skip(k + 1))) {
                (Some(whole), Some(fraction)) => Some(
                    join(sign.push(whole).push("point"@) + fraction, " "@),
                ),
                _ => None,
            },
            None => match digits_word(unsigned) {
                Some(whole) => Some(join(sign.push(whole), " "@)),
                None => None,
            },
        }
    }
}

/// The English numerals for the values zero to nine.
pub open spec fn numeral(value: int) -> Seq<char> {
    seq![
        "zero"@,
        "one"@,
        "two"@,
        "three"@,
        "four"@,
        "five"@,
        "six"@,
        "seven"@,
        "eight"@,
        "nine"@,
    ][value]
}

/// A digit is read as the English numeral of its own value, alone as a
/// whole number and among the digits after a point, and different digits
/// are read differently.
pub proof fn law_digit_words_name_their_value(c: char, d: char)
    requires
        is_ascii_digit(c),
        is_ascii_digit(d),
    ensures
        number_speech(seq![c]) == Some(numeral(c as int - '0' as int)),
        digit_words(seq![c]) == Some(seq![numeral(c as int - '0' as int)]),
        c != d ==> number_speech(seq![c]) != number_speech(seq![d]),
{
    reveal_strlit("zero");
    reveal_strlit("one");
    reveal_strlit("two");
    reveal_strlit("three");
    reveal_strlit("four");
    reveal_strlit("five");
    reveal_strlit("six");
    reveal_strlit("seven");
    reveal_strlit("eight");
    reveal_strlit("nine");
    lemma_digit_alone(c);
    lemma_digit_alone(d);
    let a = c as int - '0' as int;
    let b = d as int - '0' as int;
    if c != d && numeral(a) == numeral(b) {
        assert(0 <= a < 10 && 0 <= b < 10) by {
            let u = c as u32;
            let w = d as u32;
        }
        assert(numeral(a).len() == numeral(b).len());
        assert(numeral(a)[0] == numeral(b)[0]);
        assert(numeral(a)[1] == numeral(b)[1]);
        assert(false);
    }
}

proof fn lemma_digit_alone(c: char)
    requires
        is_ascii_digit(c),
    ensures
        number_speech(seq![c]) == Some(numeral(c as int - '0' as int)),
        digit_words(seq![c]) == Some(seq![numeral(c as int - '0' as int)]),
{
    let s = seq![c];
    assert(s.drop_last() == Seq::<char>::empty());
    assert(s.last() == c);
    assert(s[0] == c);
    assert(digits_and_points(s));
    assert(count_char(s.drop_last(), '.') == 0);
    assert(count_char(s, '.') == 0);
    assert(first_index(s.drop_last(), '.') is None);
    assert(first_index(s, '.') is None);
    assert(digit_words(s.drop_last()) == Some(Seq::<Seq<char>>::empty()));
    let v = c as int - '0' as int;
    assert(digit_word(c) == Some(numeral(v))) by {
        assert(c == '0' || c == '1' || c == '2' || c == '3' || c == '4' || c == '5' || c == '6'
            || c == '7' || c == '8' || c == '9') by {
            let u = c as u32;
            assert(48 <= u <= 57);
        }
    }
    assert(digits_word(s) == Some(numeral(v)));
    let w = numeral(v);
    assert(Seq::<Seq<char>>::empty().push(w) == seq![w]);
    assert(join(seq![w], " "@) == w);
    assert(Seq::<Seq<char>>::empty().push(w) == seq![w]);
}

/// Whether every character is an ASCII digit.
pub open spec fn all_digits(s: Seq<char>) -> bool {
    forall|i: int| 0 <= i < s.len() ==> is_ascii_digit(#[trigger] s[i])
}

/// The numeral of each digit, in order.
pub open spec fn numerals(digits: Seq<char>) -> Seq<Seq<char>> {
    digits.map_values(|c: char| numeral(c as int - '0' as int))
}

/// How a run of digits before a point, or a whole number, is read: an
/// empty run as "zero", one digit as its numeral, longer runs as written.
pub open spec fn whole_reading(digits: Seq<char>) -> Seq<char> {
    if digits.len() == 0 {
        "zero"@
    } else if digits.len() == 1 {
        numeral(digits[0] as int - '0' as int)
    } else {
        digits
    }
}

proof fn lemma_digit_words_numerals(f: Seq<char>)
    requires
        all_digits(f),
    ensures
        digit_words(f) == Some(numerals(f)),
    decreases f.len(),
{
    if f.len() > 0 {
        let g = f.drop_last();
        assert(all_digits(g)) by {
            assert forall|i: int| 0 <= i < g.len() implies is_ascii_digit(#[trigger] g[i]) by {
                assert(g[i] == f[i]);
            }
        }
        lemma_digit_words_numerals(g);
        assert(is_ascii_digit(f[f.len() - 1]));
        lemma_digit_alone(f.last());
        let one = seq![f.last()];
        assert(one.drop_last() == Seq::<char>::empty());
        assert(numerals(f) == numerals(g).push(numeral(f.last() as int - '0' as int)));
    }
}

proof fn lemma_count_concat(x: Seq<char>, y: Seq<char>, c: char)
    ensures
        count_char(x + y, c) == count_char(x, c) + count_char(y, c),
    decreases y.len(),
{
    if y.len() > 0 {
        lemma_count_concat(x, y.drop_last(), c);
        assert((x + y).drop_last() == x + y.drop_last());
        assert((x + y).last() == y.last());
    } else {
        assert(x + y == x);
    }
}

proof fn lemma_count_absent(x: Seq<char>, c: char)
    requires
        forall|i: int| 0 <= i < x.len() ==> #[trigger] x[i] != c,
    ensures
        count_char(x, c) == 0,
    decreases x.len(),
{
    if x.len() > 0 {
        let y = x.drop_last();
        assert forall|i: int| 0 <= i < y.len() implies #[trigger] y[i] != c by {
            assert(y[i] == x[i]);
        }
        lemma_count_absent(y, c);
        assert(x[x.len() - 1] == x.last());
    }
}

proof fn lemma_digits_word(w: Seq<char>)
    requires
        all_digits(w),
    ensures
        digits_word(w) == Some(whole_reading(w)),
{
    if w.len() == 1 {
        lemma_digit_alone(w[0]);
        assert(seq![w[0]].drop_last() == Seq::<char>::empty());
        assert(seq![w[0]].last() == w[0]);
    }
}

/// A whole number is read by its digits: one digit as its numeral, more
/// digits as they are written.
pub proof fn law_whole_number_speech(w: Seq<char>)
    requires
        all_digits(w),
        w.len() > 0,
    ensures
        number_speech(w) == Some(whole_reading(w)),
{
    assert(w[0] != '-') by {
        assert(is_ascii_digit(w[0]));
    }
    assert(digits_and_points(w));
    lemma_count_absent(w, '.');
    lemma_first_index(w, '.');
    lemma_digits_word(w);
    let r = whole_reading(w);
    assert(Seq::<Seq<char>>::empty().push(r) == seq![r]);
}

/// A decimal is read as its whole part, then "point", then the numeral of
/// each digit after the point.
pub proof fn law_decimal_number_speech(w: Seq<char>, f: Seq<char>)
    requires
        all_digits(w),
        all_digits(f),
    ensures
        number_speech(w + seq!['.'] + f) == Some(
            join(seq![whole_reading(w), "point"@] + numerals(f), " "@),
        ),
{
    let s = w + seq!['.'] + f;
    assert(s[0] != '-') by {
        if w.len() > 0 {
            assert(s[0] == w[0]);
            assert(is_ascii_digit(w[0]));
        } else {
            assert(s[0] == '.');
        }
    }
    assert(s.len() > 0);
    assert(digits_and_points(s)) by {
        assert forall|i: int| 0 <= i < s.len() implies (is_ascii_digit(#[trigger] s[i]) || s[i]
            == '.') by {
            if i < w.len() {
                assert(s[i] == w[i]);
            } else if i > w.len() {
                assert(s[i] == f[i - w.len() - 1]);
            }
        }
    }
    assert forall|i: int| 0 <= i < w.len() implies #[trigger] w[i] != '.' by {
        assert(is_ascii_digit(w[i]));
    }
    assert forall|i: int| 0 <= i < f.len() implies #[trigger] f[i] != '.' by {
        assert(is_ascii_digit(f[i]));
    }
    lemma_count_absent(w, '.');
    lemma_count_absent(f, '.');
    lemma_count_concat(w + seq!['.'], f, '.');
    lemma_count_concat(w, seq!['.'], '.');
    assert(seq!['.'].drop_last() == Seq::<char>::empty());
    assert(seq!['.'].last() == '.');
    assert(count_char(Seq::<char>::empty(), '.') == 0);
    assert(count_char(seq!['.'], '.') == 1);
    lemma_first_index(s, '.');
    let k = w.len() as int;
    assert(s[k] == '.');
    assert(first_index(s, '.') == Some(k)) by {
        match first_index(s, '.') {
            Some(m) => {
                if m < k {
                    assert(s[m] == w[m]);
                } else if m > k {
                    assert(s[k] != '.');
                }
            },
            None => {
                assert(s[k] != '.');
            },
        }
    }
    assert(s.take(k) == w);
    assert(s.skip(k + 1) == f);
    lemma_digits_word(w);
    lemma_digit_words_numerals(f);
    let r = whole_reading(w);
    assert(count_char(s, '.') == 1);
    assert(digits_word(s.take(k)) == Some(r));
    assert(digit_words(s.skip(k + 1)) == Some(numerals(f)));
    let empty: Seq<Seq<char>> = seq![];
    assert(empty.push(r).push("point"@) == seq![r, "point"@]);
    assert(number_speech(s) == Some(join(empty.push(r).push("point"@) + numerals(f), " "@)));
}

/// A leading minus sign is read as "minus" before the reading of the rest,
/// and a text with no reading keeps none with the sign.
pub proof fn law_negative_number_speech(u: Seq<char>)
    requires
        u.len() == 0 || u[0] != '-',
    ensures
        number_speech(seq!['-'] + u) == match number_speech(u) {
            Some(reading) => Some("minus "@ + reading),
            None => None,
        },
{
    let s = seq!['-'] + u;
    assert(s[0] == '-');
    assert(s.drop_first() == u);
    reveal_strlit("minus ");
    reveal_strlit("minus");
    reveal_strlit(" ");
    assert("minus "@ == "minus"@ + " "@);
    if u.len() > 0 && digits_and_points(u) && count_char(u, '.') <= 1 {
        let sign = seq!["minus"@];
        match first_index(u, '.') {
            Some(k) => match (digits_word(u.take(k)), digit_words(u.skip(k + 1))) {
                (Some(whole), Some(fraction)) => {
                    let rest = seq![whole, "point"@] + fraction;
                    assert(sign.push(whole).push("point"@) + fraction == sign + rest);
                    assert(Seq::<Seq<char>>::empty().push(whole).push("point"@) + fraction
                        == rest);
                    lemma_join_concat(sign, rest, " "@);
                    assert(join(sign, " "@) == "minus"@);
                },
                _ => {},
            },
            None => match digits_word(u) {
                Some(whole) => {
                    assert(sign.push(whole) == sign + seq![whole]);
                    assert(Seq::<Seq<char>>::empty().push(whole) == seq![whole]);
                    lemma_join_concat(sign, seq![whole], " "@);
                    assert(join(sign, " "@) == "minus"@);
                },
                None => {},
            },
        }
    }
}

/// An exec index as a spec index.
pub open spec fn opt_index_usize(r: Option<usize>) -> Option<int> {
    match r {
        Some(k) => Some(k as int),
        None => None,
    }
}

proof fn lemma_digit_words_prefix(s: Seq<char>, p: int)
    requires
        0 <= p <= s.len(),
        digit_words(s.take(p)) is None,
    ensures
        digit_words(s) is None,
    decreases s.len() - p,
{
    if p < s.len() {
        let longer = s.take(p + 1);
        assert(longer.drop_last() == s.take(p));
        lemma_digit_words_prefix(s, p + 1);
    } else {
        assert(s.take(p) == s);
    }
}

/// Speaks one digit.
pub fn speak_digit(digit: char) -> (word: Option<Vec<char>>)
    ensures
        opt_chars_of(word) == digit_word(digit),
{
    if digit == '0' {
        Some(chars_of("zero"))
    } else if digit == '1' {
        Some(chars_of("one"))
    } else if digit == '2' {
        Some(chars_of("two"))
    } else if digit == '3' {
        Some(chars_of("three"))
    } else if digit == '4' {
        Some(chars_of("four"))
    } else if digit == '5' {
        Some(chars_of("five"))
    } else if digit == '6' {
        Some(chars_of("six"))
    } else if digit == '7' {
        Some(chars_of("seven"))
    } else if digit == '8' {
        Some(chars_of("eight"))
    } else if digit == '9' {
        Some(chars_of("nine"))
    } else {
        None
    }
}

/// Speaks a short string of digits: single digits as words, longer runs
/// as they are, and an empty run as "zero".
pub fn speak_digits_as_number_word(digits: &Vec<char>) -> (word: Option<Vec<char>>)
    ensures
        opt_chars_of(word) == digits_word(digits@),
{
    if digits.len() == 0 {
        return Some(chars_of("zero"));
    }
    if digits.len() == 1 {
        return speak_digit(digits[0]);
    }
    Some(copy_range(digits, 0, digits.len()))
}

/// Checks that every character is a digit or a point, and counts the
/// points and finds the first one.
fn scan_number_text(unsigned: &Vec<char>) -> (scanned: Option<(usize, Option<usize>)>)
    ensures
        scanned is None <==> !digits_and_points(unsigned@),
        scanned matches Some((dots, first)) ==> dots == count_char(unsigned@, '.')
            && opt_index_usize(first) == first_index(unsigned@, '.'),
{
    let ghost u = unsigned@;
    let m = unsigned.len();
    let mut dots: usize = 0;
    let mut first_dot: Option<usize> = None;
    for i in 0..m
        invariant
            m == u.len(),
            u == unsigned@,
            forall|k: int| 0 <= k < i ==> (is_ascii_digit(#[trigger] u[k]) || u[k] == '.'),
            dots == count_char(u.take(i as int), '.'),
            dots <= i,
            opt_index_usize(first_dot) == first_index(u.take(i as int), '.'),
    {
        let c = unsigned[i];
        let ghost next = u.take(i + 1);
        assert(next.drop_last() == u.take(i as int));
        if !(('0' <= c && c <= '9') || c == '.') {
            assert(!(is_ascii_digit(u[i as int]) || u[i as int] == '.'));
            return None;
        }
        if c == '.' {
            if first_dot.is_none() {
                first_dot = Some(i);
            }
            dots = dots + 1;
        }
    }
    assert(u.take(m as int) == u);
    Some((dots, first_dot))
}

/// The word of each digit from index `start` on, if all are digits.
fn fraction_words(unsigned: &Vec<char>, start: usize) -> (words: Option<Vec<Vec<char>>>)
    requires
        start <= unsigned@.len(),
    ensures
        match words {
            Some(ws) => digit_words(unsigned@.skip(start as int)) == Some(views_of(ws@)),
            None => digit_words(unsigned@.skip(start as int)) is None,
        },
{
    let ghost fraction = unsigned@.skip(start as int);
    let m = unsigned.len();
    let mut out: Vec<Vec<char>> = Vec::new();
    let mut j = start;
    assert(fraction.take(0) == Seq::<char>::empty());
    while j < m
        invariant
            start <= j <= m == unsigned@.len(),
            fraction == unsigned@.skip(start as int),
            digit_words(fraction.take(j - start)) == Some(views_of(out@)),
        decreases m - j,
    {
        let ghost done = fraction.take(j - start);
        let ghost next = fraction.take(j - start + 1);
        assert(next.drop_last() == done);
        assert(next.last() == unsigned@[j as int]);
        match speak_digit(unsigned[j]) {
            Some(word) => {
                let ghost before = views_of(out@);
                out.push(word);
                assert(views_of(out@) == before.push(word@));
            },
            None => {
                proof {
                    lemma_digit_words_prefix(fraction, (j - start + 1) as int);
                }
                return None;
            },
        }
        j = j + 1;
    }
    assert(fraction.take(m - start) == fraction);
    Some(out)
}

/// Speaks simple integer and decimal literals.
pub fn speak_simple_number(value: &Vec<char>) -> (speech: Option<Vec<char>>)
    ensures
        opt_chars_of(speech) == number_speech(value@),
{
    let n = value.len();
    let negative = n > 0 && value[0] == '-';
    let unsigned = if negative {
        let rest = copy_range(value, 1, n);
        assert(value@.subrange(1, n as int) == value@.drop_first());
        rest
    } else {
        let all = copy_range(value, 0, n);
        assert(value@.subrange(0, n as int) == value@);
        all
    };
    let ghost u = unsigned@;
    if unsigned.len() == 0 {
        return None;
    }
    let (dots, first_dot) = match scan_number_text(&unsigned) {
        Some(scanned) => scanned,
        None => return None,
    };
    if dots > 1 {
        return None;
    }
    proof {
        lemma_first_index(u, '.');
    }
    let mut parts: Vec<Vec<char>> = Vec::new();
    if negative {
        parts.push(chars_of("minus"));
    }
    let ghost sign = views_of(parts@);
    assert(sign == if negative {
        seq!["minus"@]
    } else {
        Seq::<Seq<char>>::empty()
    });
    match first_dot {
        Some(k) => {
            let whole_digits = copy_range(&unsigned, 0, k);
            assert(u.subrange(0, k as int) == u.take(k as int));
            let whole = match speak_digits_as_number_word(&whole_digits) {
                Some(w) => w,
                None => return None,
            };
            let words = match fraction_words(&unsigned, k + 1) {
                Some(ws) => ws,
                None => return None,
            };
            parts.push(whole);
            parts.push(chars_of("point"));
            let ghost head = views_of(parts@);
            assert(head == sign.push(whole@).push("point"@));
            for i in 0..words.len()
                invariant
                    views_of(parts@) == head + views_of(words@).take(i as int),
            {
                let ghost before = views_of(parts@);
                parts.push(copy_range(&words[i], 0, words[i].len()));
                assert(words[i as int]@.subrange(0, words[i as int]@.len() as int) == words[i as int]@);
                assert(views_of(parts@) == before.push(words[i as int]@));
                assert(views_of(words@).take(i + 1) == views_of(words@).take(i as int).push(
                    words[i as int]@,
                ));
            }
            assert(views_of(words@).take(words.len() as int) == views_of(words@));
            assert(number_speech(value@) == Some(join(views_of(parts@), " "@)));
        },
        None => {
            let whole = match speak_digits_as_number_word(&unsigned) {
                Some(w) => w,
                None => return None,
            };
            parts.push(whole);
            assert(views_of(parts@) == sign.push(whole@));
            assert(number_speech(value@) == Some(join(views_of(parts@), " "@)));
        },
    }
    let space = chars_of(" ");
    Some(join_chars(&parts, &space))
}

/// What each character of a type annotation becomes before its words are
/// joined: `[` reads "of", `|` reads "or", `.` reads "dot", `]` is dropped
/// and `_` is a space.
pub open spec fn annotation_piece(c: char) -> Seq<char> {
    if c == '[' {
        " of "@
    } else if c == ']' {
        seq![]
    } else if c == '|' {
        " or "@
    } else if c == '.' {
        " dot "@
    } else if c == '_' {
        seq![' ']
    } else {
        seq![c]
    }
}

/// The annotation with each character replaced by its piece.
pub open spec fn annotation_spaced(s: Seq<char>) -> Seq<char>
    decreases s.len(),
{
    if s.len() == 0 {
        seq![]
    } else {
        annotation_spaced(s.drop_last()) + annotation_piece(s.last())
    }
}

/// The speech form of a type annotation: `list[str]` reads "list of str",
/// `str | None` reads "str or none".
pub open spec fn annotation_speech(annotation: Seq<char>) -> Seq<char> {
    lowercase(collapse_whitespace(annotation_spaced(annotation)))
}

/// The speech form of a default value: a simple number read out in words,
/// anything else with its quotes removed, in simple speech and lowercase.
pub open spec fn default_speech(value: Seq<char>) -> Seq<char> {
    let trimmed = trim(value);
    match number_speech(trimmed) {
        Some(spoken) => spoken,
        None => lowercase(simple_speech(trim(strip_both(strip_both(trimmed, '"'), '\'')))),
    }
}

/// The piece of an annotation character.
fn annotation_piece_chars(c: char) -> (piece: Vec<char>)
    ensures
        piece@ == annotation_piece(c),
{
    if c == '[' {
        chars_of(" of ")
    } else if c == ']' {
        Vec::new()
    } else if c == '|' {
        chars_of(" or ")
    } else if c == '.' {
        chars_of(" dot ")
    } else if c == '_' {
        let mut space = Vec::new();
        space.push(' ');
        space
    } else {
        let mut same = Vec::new();
        same.push(c);
        same
    }
}

/// Converts a type annotation into speech.
pub fn translate_annotation_to_speech(annotation: &Vec<char>) -> (speech: String)
    ensures
        speech@ == annotation_speech(annotation@),
{
    let mut spaced: Vec<char> = Vec::new();
    for i in 0..annotation.len()
        invariant
            spaced@ == annotation_spaced(annotation@.take(i as int)),
    {
        let piece = annotation_piece_chars(annotation[i]);
        extend_chars(&mut spaced, &piece);
        let ghost next = annotation@.take(i + 1);
        assert(next.drop_last() == annotation@.take(i as int));
    }
    assert(annotation@.take(annotation.len() as int) == annotation@);
    let collapsed = collapse_whitespace_chars(&spaced);
    let text = string_of(&collapsed);
    to_lowercase(text.as_str())
}

/// Converts a default value into speech.
pub fn translate_default_value_to_speech(default_value: &Vec<char>) -> (speech: String)
    ensures
        speech@ == default_speech(default_value@),
{
    let trimmed = trim_chars(default_value);
    match speak_simple_number(&trimmed) {
        Some(spoken) => string_of(&spoken),
        None => {
            let without_double = strip_both_chars(&trimmed, '"');
            let without_quotes = strip_both_chars(&without_double, '\'');
            let inner = trim_chars(&without_quotes);
            let spoken = simple_speech_chars(&inner);
            let text = string_of(&spoken);
            to_lowercase(text.as_str())
        },
    }
}

/// A simplified description of one Python function parameter, in speech.
pub struct ParameterSummary {
    pub name: String,
    pub type_annotation: Option<String>,
    pub default_value: Option<String>,
}

/// The mathematical model of a [`ParameterSummary`].
pub struct ParameterSummaryView {
    pub name: Seq<char>,
    pub type_annotation: Option<Seq<char>>,
    pub default_value: Option<Seq<char>>,
}

impl View for ParameterSummary {
    type V = ParameterSummaryView;

    open spec fn view(&self) -> ParameterSummaryView {
        ParameterSummaryView {
            name: self.name@,
            type_annotation: opt_chars(self.type_annotation),
            default_value: opt_chars(self.default_value),
        }
    }
}

/// The summary of one parameter fragment such as `price`, `price: float`,
/// `tax_rate: float = 0.19`, `*args` or `**kwargs`. Blank fragments and the
/// markers `/` and `*` have none, nor has a fragment whose name is empty.
pub open spec fn parameter_summary(text: Seq<char>) -> Option<ParameterSummaryView> {
    let trimmed = trim(text);
    if trimmed.len() == 0 || trimmed == "/"@ || trimmed == "*"@ {
        None
    } else {
        let (before_default, default_value) = split_once_top_level(trimmed, '=');
        let (name_text, annotation) = split_once_top_level(trim(before_default), ':');
        let name = trim(strip_leading(trim(name_text), '*'));
        if name.len() == 0 {
            None
        } else {
            Some(
                ParameterSummaryView {
                    name: simple_speech(name),
                    type_annotation: match annotation {
                        Some(a) => Some(annotation_speech(trim(a))),
                        None => None,
                    },
                    default_value: match default_value {
                        Some(v) => Some(default_speech(trim(v))),
                        None => None,
                    },
                },
            )
        }
    }
}

/// The summaries of the fragments that have one, in order.
pub open spec fn summaries_of(parts: Seq<Seq<char>>) -> Seq<ParameterSummaryView>
    decreases parts.len(),
{
    if parts.len() == 0 {
        seq![]
    } else {
        let before = summaries_of(parts.drop_last());
        match parameter_summary(parts.last()) {
            Some(summary) => before.push(summary),
            None => before,
        }
    }
}

/// The inside of a parameter list: trimmed, without its leading `(`s and
/// trailing `)`s, trimmed again.
pub open spec fn parameter_list_inner(text: Seq<char>) -> Seq<char> {
    trim(strip_trailing(strip_leading(trim(text), '('), ')'))
}

/// The summaries of the parameters in a parameter list such as
/// `(price: float, tax_rate: float = 0.19)`.
pub open spec fn parameter_summaries(text: Seq<char>) -> Seq<ParameterSummaryView> {
    let inner = parameter_list_inner(text);
    if inner.len() == 0 {
        seq![]
    } else {
        summaries_of(top_level_comma_parts(inner))
    }
}

/// The speech of one parameter: its name, then its type, then its default.
pub open spec fn parameter_speech(p: ParameterSummaryView) -> Seq<char> {
    let typed: Seq<Seq<char>> = match p.type_annotation {
        Some(t) => seq![t],
        None => seq![],
    };
    let defaulted: Seq<Seq<char>> = match p.default_value {
        Some(d) => seq!["default "@ + d],
        None => seq![],
    };
    join(seq![p.name] + typed + defaulted, ", "@)
}

/// One sentence for a parameter list, without its final full stop.
pub open spec fn parameters_speech(parameters: Seq<ParameterSummaryView>) -> Seq<char> {
    if parameters.len() == 0 {
        "No parameters"@
    } else {
        "Parameters: "@ + join(parameters.map_values(|p: ParameterSummaryView| parameter_speech(p)), "; "@)
    }
}

/// An optional string from optional characters.
fn opt_string(v: Option<Vec<char>>) -> (s: Option<String>)
    ensures
        opt_chars(s) == opt_chars_of(v),
{
    match v {
        Some(chars) => Some(string_of(&chars)),
        None => None,
    }
}

/// Extracts one parameter summary from one parameter fragment.
pub fn extract_single_parameter_summary(parameter_text: &Vec<char>) -> (summary: Option<ParameterSummary>)
    ensures
        match summary {
            Some(p) => parameter_summary(parameter_text@) == Some(p@),
            None => parameter_summary(parameter_text@) is None,
        },
{
    let trimmed = trim_chars(parameter_text);
    if trimmed.len() == 0 {
        return None;
    }
    proof {
        reveal_strlit("/");
        reveal_strlit("*");
    }
    if trimmed.len() == 1 && (trimmed[0] == '/' || trimmed[0] == '*') {
        assert(trimmed@ == "/"@ || trimmed@ == "*"@);
        return None;
    }
    assert(trimmed@ != "/"@ && trimmed@ != "*"@) by {
        if trimmed@.len() == 1 {
            assert(trimmed@ == "/"@ ==> trimmed@[0] == '/');
            assert(trimmed@ == "*"@ ==> trimmed@[0] == '*');
        }
    }
    let (before_default, default_value) = split_once_top_level_chars(&trimmed, '=');
    let before_trimmed = trim_chars(&before_default);
    let (name_text, annotation) = split_once_top_level_chars(&before_trimmed, ':');
    let name_trimmed = trim_chars(&name_text);
    let name_stripped = strip_leading_chars(&name_trimmed, '*');
    let name = trim_chars(&name_stripped);
    if name.len() == 0 {
        return None;
    }
    let type_annotation = match annotation {
        Some(a) => Some(translate_annotation_to_speech(&trim_chars(&a))),
        None => None,
    };
    let default_value = match default_value {
        Some(v) => Some(translate_default_value_to_speech(&trim_chars(&v))),
        None => None,
    };
    let spoken_name = simple_speech_chars(&name);
    Some(ParameterSummary { name: string_of(&spoken_name), type_annotation, default_value })
}

/// The summaries of a vector of parameter summaries.
pub open spec fn summary_views(ps: Seq<ParameterSummary>) -> Seq<ParameterSummaryView> {
    ps.map_values(|p: ParameterSummary| p@)
}

/// Extracts simple parameter summaries from a Python parameter list.
pub fn extract_parameter_summaries(parameters_text: &str) -> (summaries: Vec<ParameterSummary>)
    ensures
        summary_views(summaries@) == parameter_summaries(parameters_text@),
{
    let text = chars_of(parameters_text);
    let trimmed = trim_chars(&text);
    let opened = strip_leading_chars(&trimmed, '(');
    let closed = strip_trailing_chars(&opened, ')');
    let inner = trim_chars(&closed);
    let mut summaries: Vec<ParameterSummary> = Vec::new();
    if inner.len() == 0 {
        return summaries;
    }
    let parts = top_level_comma_chars(&inner);
    for i in 0..parts.len()
        invariant
            summary_views(summaries@) == summaries_of(views_of(parts@).take(i as int)),
    {
        let ghost next = views_of(parts@).take(i + 1);
        assert(next.drop_last() == views_of(parts@).take(i as int));
        assert(next.last() == parts@[i as int]@);
        match extract_single_parameter_summary(&parts[i]) {
            Some(p) => {
                let ghost before = summary_views(summaries@);
                summaries.push(p);
                assert(summary_views(summaries@) == before.push(p@));
            },
            None => {},
        }
    }
    assert(views_of(parts@).take(parts.len() as int) == views_of(parts@));
    summaries
}

/// Converts one parameter into speech.
pub fn describe_parameter(parameter: &ParameterSummary) -> (speech: Vec<char>)
    ensures
        speech@ == parameter_speech(parameter@),
{
    let mut parts: Vec<Vec<char>> = Vec::new();
    parts.push(chars_of(parameter.name.as_str()));
    match &parameter.type_annotation {
        Some(t) => parts.push(chars_of(t.as_str())),
        None => {},
    }
    match &parameter.default_value {
        Some(d) => {
            let mut spoken = chars_of("default ");
            extend_chars(&mut spoken, &chars_of(d.as_str()));
            parts.push(spoken);
        },
        None => {},
    }
    proof {
        let p = parameter@;
        let typed: Seq<Seq<char>> = match p.type_annotation {
            Some(t) => seq![t],
            None => seq![],
        };
        let defaulted: Seq<Seq<char>> = match p.default_value {
            Some(d) => seq!["default "@ + d],
            None => seq![],
        };
        assert(views_of(parts@) == seq![p.name] + typed + defaulted);
    }
    join_chars(&parts, &chars_of(", "))
}

/// Converts a list of parameter summaries into one speech sentence,
/// without its final full stop.
pub fn describe_parameters(parameters: &Vec<ParameterSummary>) -> (speech: Vec<char>)
    ensures
        speech@ == parameters_speech(summary_views(parameters@)),
{
    if parameters.len() == 0 {
        return chars_of("No parameters");
    }
    let mut spoken: Vec<Vec<char>> = Vec::new();
    for i in 0..parameters.len()
        invariant
            views_of(spoken@) == summary_views(parameters@).take(i as int).map_values(
                |p: ParameterSummaryView| parameter_speech(p),
            ),
    {
        let piece = describe_parameter(&parameters[i]);
        let ghost before = views_of(spoken@);
        spoken.push(piece);
        let ghost done = summary_views(parameters@).take(i as int);
        let ghost next = summary_views(parameters@).take(i + 1);
        assert(next == done.push(parameters@[i as int]@));
        assert(views_of(spoken@) == before.push(piece@));
        assert(next.map_values(|p: ParameterSummaryView| parameter_speech(p)) == done.map_values(
            |p: ParameterSummaryView| parameter_speech(p),
        ).push(parameter_speech(parameters@[i as int]@)));
    }
    assert(summary_views(parameters@).take(parameters.len() as int) == summary_views(
        parameters@,
    ));
    let mut speech = chars_of("Parameters: ");
    extend_chars(&mut speech, &join_chars(&spoken, &chars_of("; ")));
    speech
}

/// The first index from `k` on where `->` starts.
pub open spec fn find_arrow(s: Seq<char>, k: int) -> Option<int>
    decreases s.len() - k,
{
    if k < 0 || k + 1 >= s.len() {
        None
    } else if s[k] == '-' && s[k + 1] == '>' {
        Some(k)
    } else {
        find_arrow(s, k + 1)
    }
}

/// The second piece of `s` split at `->` (`split("->").nth(1)`): the text
/// after the first arrow up to the next one, if there is an arrow.
pub open spec fn after_first_arrow(s: Seq<char>) -> Option<Seq<char>> {
    match find_arrow(s, 0) {
        Some(p) => {
            let rest = s.skip(p + 2);
            match find_arrow(rest, 0) {
                Some(q) => Some(rest.take(q)),
                None => Some(rest),
            }
        },
        None => None,
    }
}

/// The spoken return type of a function, read from the first line of its
/// text: the annotation between `->` and the last `:` of that piece. None
/// when any of these is missing or the annotation is blank.
pub open spec fn return_type_speech(function_text: Seq<char>) -> Option<Seq<char>> {
    let text_lines = lines(function_text);
    if text_lines.len() == 0 {
        None
    } else {
        match after_first_arrow(trim(text_lines[0])) {
            Some(piece) => {
                let after = trim(piece);
                match last_index(after, ':') {
                    Some(r) => {
                        let before = trim(after.take(r));
                        if before.len() == 0 {
                            None
                        } else {
                            Some(annotation_speech(before))
                        }
                    },
                    None => None,
                }
            },
            None => None,
        }
    }
}

/// The first index from `k` on where `->` starts.
fn find_arrow_from(s: &Vec<char>, k: usize) -> (found: Option<usize>)
    requires
        k <= s@.len(),
    ensures
        opt_index_usize(found) == find_arrow(s@, k as int),
        found matches Some(p) ==> p + 1 < s@.len(),
{
    let n = s.len();
    let mut i = k;
    while i < n && i + 1 < n
        invariant
            k <= i <= n == s@.len(),
            find_arrow(s@, k as int) == find_arrow(s@, i as int),
        decreases n - i,
    {
        if s[i] == '-' && s[i + 1] == '>' {
            return Some(i);
        }
        i = i + 1;
    }
    None
}

/// The last index of `c` in the characters.
fn last_index_of(s: &Vec<char>, c: char) -> (found: Option<usize>)
    ensures
        opt_index_usize(found) == last_index(s@, c),
{
    let mut b = s.len();
    assert(s@.take(b as int) == s@);
    while b > 0
        invariant
            b <= s@.len(),
            last_index(s@, c) == last_index(s@.take(b as int), c),
        decreases b,
    {
        let ghost prefix = s@.take(b as int);
        assert(prefix.drop_last() == s@.take(b - 1));
        if s[b - 1] == c {
            return Some(b - 1);
        }
        b = b - 1;
    }
    None
}

/// The spoken return type of a function from its text.
pub fn extract_return_type_from_text(function_text: &Vec<char>) -> (return_type: Option<String>)
    ensures
        opt_chars(return_type) == return_type_speech(function_text@),
{
    let text_lines = lines_of(function_text);
    if text_lines.len() == 0 {
        return None;
    }
    let line = trim_chars(&text_lines[0]);
    let first = match find_arrow_from(&line, 0) {
        Some(p) => p,
        None => return None,
    };
    let rest = copy_range(&line, first + 2, line.len());
    assert(rest@ == line@.skip(first + 2));
    let piece = match find_arrow_from(&rest, 0) {
        Some(q) => {
            let taken = copy_range(&rest, 0, q);
            assert(taken@ == rest@.take(q as int));
            taken
        },
        None => rest,
    };
    let after = trim_chars(&piece);
    let colon = match last_index_of(&after, ':') {
        Some(r) => r,
        None => return None,
    };
    proof {
        lemma_last_index(after@, ':');
    }
    let head = copy_range(&after, 0, colon);
    assert(head@ == after@.take(colon as int));
    let before = trim_chars(&head);
    if before.len() == 0 {
        None
    } else {
        Some(translate_annotation_to_speech(&before))
    }
}

} // verus!
