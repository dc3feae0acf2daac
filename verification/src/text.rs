//! Character-level text utilities over `Seq<char>` models: whitespace,
//! trimming, word splitting, joining and line splitting.

use vstd::prelude::*;
use vstd::string::StringSliceAdditionalSpecFns;
use vstd::utf8::*;

verus! {

broadcast use vstd::string::group_string_axioms;

/// Unicode `White_Space`, the property that `char::is_whitespace` tests.
pub open spec fn is_whitespace(c: char) -> bool {
    ||| ('\u{9}' <= c && c <= '\u{d}')
    ||| c == ' '
    ||| c == '\u{85}'
    ||| c == '\u{a0}'
    ||| c == '\u{1680}'
    ||| ('\u{2000}' <= c && c <= '\u{200a}')
    ||| c == '\u{2028}'
    ||| c == '\u{2029}'
    ||| c == '\u{202f}'
    ||| c == '\u{205f}'
    ||| c == '\u{3000}'
}

pub fn is_whitespace_char(c: char) -> (b: bool)
    ensures
        b == is_whitespace(c),
{
    ('\u{9}' <= c && c <= '\u{d}') || c == ' ' || c == '\u{85}' || c == '\u{a0}'
        || c == '\u{1680}' || ('\u{2000}' <= c && c <= '\u{200a}') || c == '\u{2028}'
        || c == '\u{2029}' || c == '\u{202f}' || c == '\u{205f}' || c == '\u{3000}'
}

/// `s` without its leading whitespace.
pub open spec fn trim_start(s: Seq<char>) -> Seq<char>
    decreases s.len(),
{
    if s.len() > 0 && is_whitespace(s[0]) {
        trim_start(s.drop_first())
    } else {
        s
    }
}

/// `s` without its trailing whitespace.
pub open spec fn trim_end(s: Seq<char>) -> Seq<char>
    decreases s.len(),
{
    if s.len() > 0 && is_whitespace(s.last()) {
        trim_end(s.drop_last())
    } else {
        s
    }
}

/// `s` without leading and trailing whitespace, as `str::trim` gives it.
pub open spec fn trim(s: Seq<char>) -> Seq<char> {
    trim_end(trim_start(s))
}

/// The maximal runs of non-whitespace characters of `s`, in order.
pub open spec fn words(s: Seq<char>) -> Seq<Seq<char>>
    decreases s.len(),
{
    if s.len() == 0 {
        seq![]
    } else {
        let before = words(s.drop_last());
        let c = s.last();
        if is_whitespace(c) {
            before
        } else if s.len() >= 2 && !is_whitespace(s[s.len() - 2]) {
            before.update(before.len() - 1, before.last().push(c))
        } else {
            before.push(seq![c])
        }
    }
}

/// The parts joined with `sep` between each two neighbours.
pub open spec fn join(parts: Seq<Seq<char>>, sep: Seq<char>) -> Seq<char>
    decreases parts.len(),
{
    if parts.len() == 0 {
        seq![]
    } else if parts.len() == 1 {
        parts[0]
    } else {
        join(parts.drop_last(), sep) + sep + parts.last()
    }
}

/// The words of `s` joined by single spaces: what
/// `split_whitespace().collect::<Vec<_>>().join(" ")` gives.
pub open spec fn collapse_whitespace(s: Seq<char>) -> Seq<char> {
    join(words(s), seq![' '])
}

/// Copies the characters of a string slice into a vector.
pub fn chars_of(s: &str) -> (out: Vec<char>)
    ensures
        out@ == s@,
{
    let mut out: Vec<char> = Vec::new();
    for c in iter: s.chars()
        invariant
            out@ == iter.seq().take(iter.index() as int),
    {
        out.push(c);
    }
    out
}

/// Appends one character to a `String` (`String::push`).
#[verifier::external_body]
fn push_char(s: &mut String, c: char)
    ensures
        final(s)@ == old(s)@.push(c),
{
    s.push(c);
}

/// Builds a `String` holding exactly the given characters.
pub fn string_of(chars: &Vec<char>) -> (s: String)
    ensures
        s@ == chars@,
{
    let mut s = String::new();
    for i in 0..chars.len()
        invariant
            s@ == chars@.take(i as int),
    {
        push_char(&mut s, chars[i]);
        assert(chars@.take(i + 1) == chars@.take(i as int).push(chars@[i as int]));
    }
    assert(chars@.take(chars.len() as int) == chars@);
    s
}

proof fn lemma_trim_start_skip(s: Seq<char>, a: int)
    requires
        0 <= a <= s.len(),
        forall|k: int| 0 <= k < a ==> is_whitespace(#[trigger] s[k]),
    ensures
        trim_start(s) == trim_start(s.subrange(a, s.len() as int)),
    decreases a,
{
    if a > 0 {
        lemma_trim_start_skip(s.drop_first(), a - 1);
        assert(s.drop_first().subrange(a - 1, s.drop_first().len() as int) == s.subrange(
            a,
            s.len() as int,
        ));
    } else {
        assert(s.subrange(0, s.len() as int) == s);
    }
}

proof fn lemma_trim_end_drop(s: Seq<char>, b: int)
    requires
        0 <= b <= s.len(),
        forall|k: int| b <= k < s.len() ==> is_whitespace(#[trigger] s[k]),
    ensures
        trim_end(s) == trim_end(s.subrange(0, b)),
    decreases s.len() - b,
{
    if b < s.len() {
        lemma_trim_end_drop(s.drop_last(), b);
        assert(s.drop_last().subrange(0, b) == s.subrange(0, b));
    } else {
        assert(s.subrange(0, b) == s);
    }
}

/// What trimming the start leaves begins with no whitespace.
proof fn lemma_trim_start_shape(s: Seq<char>)
    ensures
        trim_start(s).len() > 0 ==> !is_whitespace(trim_start(s)[0]),
    decreases s.len(),
{
    if s.len() > 0 && is_whitespace(s[0]) {
        lemma_trim_start_shape(s.drop_first());
    }
}

/// What trimming the end leaves is a prefix that ends with no whitespace.
proof fn lemma_trim_end_shape(s: Seq<char>)
    ensures
        trim_end(s) == s.take(trim_end(s).len() as int),
        trim_end(s).len() <= s.len(),
        trim_end(s).len() > 0 ==> !is_whitespace(trim_end(s).last()),
    decreases s.len(),
{
    if s.len() > 0 && is_whitespace(s.last()) {
        lemma_trim_end_shape(s.drop_last());
        assert(s.drop_last().take(trim_end(s).len() as int) == s.take(trim_end(s).len() as int));
    } else {
        assert(s.take(s.len() as int) == s);
    }
}

/// Trimmed text begins and ends with no whitespace.
pub proof fn lemma_trim_shape(s: Seq<char>)
    ensures
        trim(s).len() > 0 ==> !is_whitespace(trim(s)[0]) && !is_whitespace(trim(s).last()),
{
    let a = trim_start(s);
    lemma_trim_start_shape(s);
    lemma_trim_end_shape(a);
    if trim(s).len() > 0 {
        assert(trim(s)[0] == a[0]);
    }
}

/// The characters of `s` that are not whitespace, in order.
pub open spec fn non_blank(s: Seq<char>) -> Seq<char> {
    s.filter(|c: char| !is_whitespace(c))
}

/// The non-blank characters of a text with one more character.
pub proof fn lemma_non_blank_push(s: Seq<char>, c: char)
    ensures
        non_blank(s.push(c)) == if is_whitespace(c) {
            non_blank(s)
        } else {
            non_blank(s).push(c)
        },
{
    s.lemma_filter_push(c, |c: char| !is_whitespace(c));
}

/// The non-blank characters of a joined text are those of its pieces.
pub proof fn lemma_non_blank_add(a: Seq<char>, b: Seq<char>)
    ensures
        non_blank(a + b) == non_blank(a) + non_blank(b),
{
    Seq::filter_distributes_over_add(a, b, |c: char| !is_whitespace(c));
}

/// Trimming drops no character that is not whitespace.
pub proof fn lemma_non_blank_trim(s: Seq<char>)
    ensures
        non_blank(trim(s)) == non_blank(s),
{
    lemma_non_blank_trim_start(s);
    lemma_non_blank_trim_end(trim_start(s));
}

proof fn lemma_non_blank_trim_start(s: Seq<char>)
    ensures
        non_blank(trim_start(s)) == non_blank(s),
    decreases s.len(),
{
    if s.len() > 0 && is_whitespace(s[0]) {
        lemma_non_blank_trim_start(s.drop_first());
        assert(s == seq![s[0]] + s.drop_first());
        lemma_non_blank_add(seq![s[0]], s.drop_first());
        assert(seq![s[0]] == Seq::<char>::empty().push(s[0]));
        lemma_non_blank_push(Seq::<char>::empty(), s[0]);
        reveal(Seq::filter);
        assert(non_blank(Seq::<char>::empty()) == Seq::<char>::empty());
        assert(non_blank(seq![s[0]]) + non_blank(s.drop_first()) == non_blank(s.drop_first()));
    }
}

proof fn lemma_non_blank_trim_end(s: Seq<char>)
    ensures
        non_blank(trim_end(s)) == non_blank(s),
    decreases s.len(),
{
    if s.len() > 0 && is_whitespace(s.last()) {
        lemma_non_blank_trim_end(s.drop_last());
        assert(s == s.drop_last().push(s.last()));
        lemma_non_blank_push(s.drop_last(), s.last());
    }
}

/// Collapsing whitespace keeps every character that is not whitespace, in
/// order.
pub proof fn lemma_non_blank_collapse(s: Seq<char>)
    ensures
        non_blank(collapse_whitespace(s)) == non_blank(s),
    decreases s.len(),
{
    reveal(Seq::filter);
    if s.len() > 0 {
        let t = s.drop_last();
        let c = s.last();
        lemma_non_blank_collapse(t);
        assert(s == t.push(c));
        lemma_non_blank_push(t, c);
        let before = words(t);
        if is_whitespace(c) {
        } else if s.len() >= 2 && !is_whitespace(s[s.len() - 2]) {
            assert(t.last() == s[s.len() - 2]);
            let p = |c: char| true;
            lemma_words_shape(t, p);
            lemma_join_extend_last(before, seq![' '], c);
            lemma_non_blank_push(join(before, seq![' ']), c);
        } else {
            lemma_join_push(before, seq![' '], seq![c]);
            assert(seq![c] == Seq::<char>::empty().push(c));
            lemma_non_blank_push(Seq::<char>::empty(), c);
            assert(non_blank(Seq::<char>::empty()) == Seq::<char>::empty());
            if before.len() > 0 {
                let j = join(before, seq![' ']);
                lemma_non_blank_add(j + seq![' '], seq![c]);
                lemma_non_blank_add(j, seq![' ']);
                assert(seq![' '] == Seq::<char>::empty().push(' '));
                lemma_non_blank_push(Seq::<char>::empty(), ' ');
            }
        }
    }
}

/// A whitespace character between two texts ends the words of the first:
/// the words of the whole are those of the first followed by those of the
/// second.
pub proof fn lemma_words_split(x: Seq<char>, w: char, y: Seq<char>)
    requires
        is_whitespace(w),
    ensures
        words(x + seq![w] + y) == words(x) + words(y),
    decreases y.len(),
{
    let p = |c: char| true;
    if y.len() == 0 {
        assert(x + seq![w] + y == x.push(w));
        assert(x.push(w).drop_last() == x);
        assert(words(x) + words(y) == words(x));
    } else {
        let y1 = y.drop_last();
        let c = y.last();
        lemma_words_split(x, w, y1);
        let whole = x + seq![w] + y;
        assert(whole.drop_last() == x + seq![w] + y1);
        assert(whole.last() == c);
        assert(whole.len() >= 2);
        let prev = whole[whole.len() - 2];
        if y1.len() > 0 {
            assert(prev == y1.last());
            assert(y[y.len() - 2] == y1.last());
        } else {
            assert(prev == w);
        }
        lemma_words_shape(y1, p);
        let wx = words(x);
        let wy1 = words(y1);
        if is_whitespace(c) {
        } else if !is_whitespace(prev) {
            assert(wy1.len() > 0);
            assert((wx + wy1).update(wx.len() + wy1.len() - 1, (wx + wy1).last().push(c)) == wx
                + wy1.update(wy1.len() - 1, wy1.last().push(c)));
        } else {
            assert((wx + wy1).push(seq![c]) == wx + wy1.push(seq![c]));
        }
    }
}

/// Joining two nonempty lists of parts is joining each and putting the
/// separator between.
pub proof fn lemma_join_concat(p1: Seq<Seq<char>>, p2: Seq<Seq<char>>, sep: Seq<char>)
    requires
        p1.len() > 0,
        p2.len() > 0,
    ensures
        join(p1 + p2, sep) == join(p1, sep) + sep + join(p2, sep),
    decreases p2.len(),
{
    if p2.len() == 1 {
        assert((p1 + p2).drop_last() == p1);
        assert((p1 + p2).last() == p2[0]);
    } else {
        lemma_join_concat(p1, p2.drop_last(), sep);
        assert((p1 + p2).drop_last() == p1 + p2.drop_last());
        assert((p1 + p2).last() == p2.last());
    }
}

/// Collapsing whitespace around a whitespace character: the collapsed
/// texts on either side, joined by one space when both hold words.
pub proof fn lemma_collapse_split(x: Seq<char>, w: char, y: Seq<char>)
    requires
        is_whitespace(w),
    ensures
        collapse_whitespace(x + seq![w] + y) == if collapse_whitespace(x).len() == 0 {
            collapse_whitespace(y)
        } else if collapse_whitespace(y).len() == 0 {
            collapse_whitespace(x)
        } else {
            collapse_whitespace(x) + seq![' '] + collapse_whitespace(y)
        },
{
    let p = |c: char| true;
    lemma_words_split(x, w, y);
    lemma_words_shape(x, p);
    lemma_words_shape(y, p);
    let wx = words(x);
    let wy = words(y);
    if wx.len() > 0 {
        lemma_join_first(wx, seq![' ']);
    }
    if wy.len() > 0 {
        lemma_join_first(wy, seq![' ']);
    }
    if wx.len() == 0 {
        assert(wx + wy == wy);
    } else if wy.len() == 0 {
        assert(wx + wy == wx);
    } else {
        lemma_join_concat(wx, wy, seq![' ']);
    }
}

/// Trimming trimmed text changes nothing.
pub proof fn law_trim_idempotent(s: Seq<char>)
    ensures
        trim(trim(s)) == trim(s),
{
    let t = trim(s);
    lemma_trim_shape(s);
    assert(trim_start(t) == t);
    assert(trim_end(t) == t);
}

/// The characters of `s` without leading and trailing whitespace.
pub fn trim_chars(s: &Vec<char>) -> (out: Vec<char>)
    ensures
        out@ == trim(s@),
{
    let n = s.len();
    let mut a: usize = 0;
    while a < n && is_whitespace_char(s[a])
        invariant
            a <= n == s@.len(),
            forall|k: int| 0 <= k < a ==> is_whitespace(#[trigger] s@[k]),
        decreases n - a,
    {
        a = a + 1;
    }
    proof {
        lemma_trim_start_skip(s@, a as int);
    }
    let ghost rest = s@.subrange(a as int, n as int);
    assert(trim_start(s@) == rest) by {
        if a < n {
            assert(rest[0] == s@[a as int]);
        }
    }
    let mut b: usize = n;
    while b > a && is_whitespace_char(s[b - 1])
        invariant
            a <= b <= n == s@.len(),
            rest == s@.subrange(a as int, n as int),
            forall|k: int| b - a <= k < rest.len() ==> is_whitespace(#[trigger] rest[k]),
        decreases b,
    {
        b = b - 1;
    }
    proof {
        lemma_trim_end_drop(rest, b - a);
        let kept = rest.subrange(0, b - a);
        if kept.len() > 0 {
            assert(kept.last() == s@[b - 1]);
        }
    }
    let mut out: Vec<char> = Vec::new();
    let mut i: usize = a;
    while i < b
        invariant
            a <= i <= b <= n == s@.len(),
            out@ == s@.subrange(a as int, i as int),
        decreases b - i,
    {
        out.push(s[i]);
        i = i + 1;
    }
    assert(out@ == rest.subrange(0, b - a));
    out
}

pub proof fn lemma_join_push(parts: Seq<Seq<char>>, sep: Seq<char>, w: Seq<char>)
    ensures
        join(parts.push(w), sep) == if parts.len() == 0 {
            w
        } else {
            join(parts, sep) + sep + w
        },
{
    assert(parts.push(w).drop_last() == parts);
}

proof fn lemma_join_extend_last(parts: Seq<Seq<char>>, sep: Seq<char>, c: char)
    requires
        parts.len() > 0,
    ensures
        join(parts.update(parts.len() - 1, parts.last().push(c)), sep) == join(parts, sep).push(
            c,
        ),
{
    let updated = parts.update(parts.len() - 1, parts.last().push(c));
    if parts.len() >= 2 {
        assert(updated.drop_last() == parts.drop_last());
        assert(join(updated, sep) == join(parts.drop_last(), sep) + sep + parts.last().push(c));
    }
}

/// The words of `s` joined by single spaces.
pub fn collapse_whitespace_chars(s: &Vec<char>) -> (out: Vec<char>)
    ensures
        out@ == collapse_whitespace(s@),
{
    let mut out: Vec<char> = Vec::new();
    let n = s.len();
    let mut i: usize = 0;
    while i < n
        invariant
            i <= n == s@.len(),
            out@ == collapse_whitespace(s@.take(i as int)),
            (out@.len() == 0) == (words(s@.take(i as int)).len() == 0),
            (i > 0 && !is_whitespace(s@[i - 1])) ==> words(s@.take(i as int)).len() > 0,
        decreases n - i,
    {
        let c = s[i];
        let ghost prefix = s@.take(i as int);
        let ghost next = s@.take(i + 1);
        assert(next.drop_last() == prefix);
        assert(next.last() == c);
        if is_whitespace_char(c) {
        } else if i > 0 && !is_whitespace_char(s[i - 1]) {
            assert(next[next.len() - 2] == s@[i - 1]);
            proof {
                lemma_join_extend_last(words(prefix), seq![' '], c);
            }
            out.push(c);
        } else {
            if i > 0 {
                assert(next[next.len() - 2] == s@[i - 1]);
            }
            proof {
                lemma_join_push(words(prefix), seq![' '], seq![c]);
            }
            if out.len() > 0 {
                out.push(' ');
            }
            out.push(c);
        }
        i = i + 1;
    }
    assert(s@.take(n as int) == s@);
    out
}

/// Whether two spaces stand side by side at `i`.
pub open spec fn double_space_at(t: Seq<char>, i: int) -> bool {
    t[i] == ' ' && t[i + 1] == ' '
}

/// Whether `t` is in collapsed form: no whitespace but single spaces, each
/// between two other characters.
pub open spec fn is_collapsed(t: Seq<char>) -> bool {
    &&& forall|i: int| 0 <= i < t.len() ==> #[trigger] t[i] == ' ' || !is_whitespace(t[i])
    &&& t.len() > 0 ==> t[0] != ' ' && t.last() != ' '
    &&& forall|i: int| 0 <= i < t.len() - 1 ==> !#[trigger] double_space_at(t, i)
}

/// Words are nonempty, hold no whitespace, and keep any property that all
/// the other characters of the text have.
pub proof fn lemma_words_shape(s: Seq<char>, p: spec_fn(char) -> bool)
    requires
        forall|k: int| 0 <= k < s.len() && !is_whitespace(#[trigger] s[k]) ==> p(s[k]),
    ensures
        forall|i: int| 0 <= i < words(s).len() ==> (#[trigger] words(s)[i]).len() > 0,
        forall|i: int, j: int|
            0 <= i < words(s).len() && 0 <= j < words(s)[i].len() ==> !is_whitespace(
                #[trigger] words(s)[i][j],
            ) && p(words(s)[i][j]),
        s.len() > 0 && !is_whitespace(s.last()) ==> words(s).len() > 0,
    decreases s.len(),
{
    if s.len() > 0 {
        let t = s.drop_last();
        assert forall|k: int| 0 <= k < t.len() && !is_whitespace(#[trigger] t[k]) implies p(
            t[k],
        ) by {
            assert(t[k] == s[k]);
        }
        lemma_words_shape(t, p);
        let before = words(t);
        let c = s.last();
        assert(!is_whitespace(c) ==> p(c)) by {
            assert(s[s.len() - 1] == c);
        }
        if is_whitespace(c) {
        } else if s.len() >= 2 && !is_whitespace(s[s.len() - 2]) {
            assert(t.last() == s[s.len() - 2]);
            let w = before.last().push(c);
            let after = before.update(before.len() - 1, w);
            assert(words(s) == after);
            assert forall|i: int, j: int|
                0 <= i < after.len() && 0 <= j < after[i].len() implies !is_whitespace(
                #[trigger] after[i][j],
            ) && p(after[i][j]) by {
                if i == before.len() - 1 && j < before.last().len() {
                    assert(after[i][j] == before[i][j]);
                }
            }
        } else {
            let after = before.push(seq![c]);
            assert(words(s) == after);
            assert forall|i: int, j: int|
                0 <= i < after.len() && 0 <= j < after[i].len() implies !is_whitespace(
                #[trigger] after[i][j],
            ) && p(after[i][j]) by {
                if i < before.len() {
                    assert(after[i] == before[i]);
                }
            }
        }
    }
}

/// Nonempty words without whitespace, joined by single spaces, are in
/// collapsed form, and every other character comes from a word.
pub proof fn lemma_join_collapsed(parts: Seq<Seq<char>>, p: spec_fn(char) -> bool)
    requires
        forall|i: int| 0 <= i < parts.len() ==> (#[trigger] parts[i]).len() > 0,
        forall|i: int, j: int|
            0 <= i < parts.len() && 0 <= j < parts[i].len() ==> !is_whitespace(
                #[trigger] parts[i][j],
            ) && p(parts[i][j]),
    ensures
        is_collapsed(join(parts, seq![' '])),
        forall|k: int|
            0 <= k < join(parts, seq![' ']).len() && #[trigger] join(parts, seq![' '])[k] != ' '
                ==> p(join(parts, seq![' '])[k]),
    decreases parts.len(),
{
    let t = join(parts, seq![' ']);
    if parts.len() == 1 {
        let w = parts[0];
        assert forall|i: int| 0 <= i < t.len() implies #[trigger] t[i] == ' ' || !is_whitespace(
            t[i],
        ) by {
            assert(t[i] == parts[0][i]);
        }
        assert forall|i: int| 0 <= i < t.len() - 1 implies !#[trigger] double_space_at(t, i) by {
            assert(t[i] == parts[0][i]);
        }
        assert forall|k: int| 0 <= k < t.len() && #[trigger] t[k] != ' ' implies p(t[k]) by {
            assert(t[k] == parts[0][k]);
        }
        assert(t[0] == parts[0][0]);
        assert(t.last() == parts[0][t.len() - 1]);
    } else if parts.len() > 1 {
        let init = parts.drop_last();
        let w = parts.last();
        assert forall|i: int| 0 <= i < init.len() implies (#[trigger] init[i]).len() > 0 by {
            assert(init[i] == parts[i]);
        }
        assert forall|i: int, j: int|
            0 <= i < init.len() && 0 <= j < init[i].len() implies !is_whitespace(
            #[trigger] init[i][j],
        ) && p(init[i][j]) by {
            assert(init[i] == parts[i]);
        }
        lemma_join_collapsed(init, p);
        let a = join(init, seq![' ']);
        assert(t == a + seq![' '] + w);
        assert(parts[parts.len() - 1] == w);
        let n = a.len();
        assert(w.len() > 0);
        assert(n > 0) by {
            assert(init[0].len() > 0);
            lemma_join_first(init, seq![' ']);
        }
        assert forall|i: int| 0 <= i < t.len() implies #[trigger] t[i] == ' ' || !is_whitespace(
            t[i],
        ) by {
            if i < n {
                assert(t[i] == a[i]);
            } else if i > n {
                assert(t[i] == w[i - n - 1]);
            }
        }
        assert forall|k: int| 0 <= k < t.len() && #[trigger] t[k] != ' ' implies p(t[k]) by {
            if k < n {
                assert(t[k] == a[k]);
            } else if k > n {
                assert(t[k] == w[k - n - 1]);
            }
        }
        assert forall|i: int| 0 <= i < t.len() - 1 implies !#[trigger] double_space_at(t, i) by {
            if i < n - 1 {
                assert(t[i] == a[i]);
                assert(t[i + 1] == a[i + 1]);
                assert(!double_space_at(a, i));
            } else if i == n - 1 {
                assert(t[i] == a.last());
            } else if i == n {
                assert(t[i + 1] == w[0]);
            } else {
                assert(t[i] == w[i - n - 1]);
            }
        }
        assert(t[0] == a[0]);
        assert(t.last() == w.last());
    }
}

/// A join of parts whose first part is nonempty is nonempty.
proof fn lemma_join_first(parts: Seq<Seq<char>>, sep: Seq<char>)
    requires
        parts.len() > 0,
        parts[0].len() > 0,
    ensures
        join(parts, sep).len() > 0,
    decreases parts.len(),
{
    if parts.len() > 1 {
        assert(parts.drop_last()[0] == parts[0]);
        lemma_join_first(parts.drop_last(), sep);
    }
}

/// Collapsing whitespace gives text in collapsed form.
pub proof fn law_collapse_is_collapsed(s: Seq<char>)
    ensures
        is_collapsed(collapse_whitespace(s)),
{
    let p = |c: char| true;
    lemma_words_shape(s, p);
    lemma_join_collapsed(words(s), p);
}

/// Text in collapsed form is left as it is by collapsing whitespace.
pub proof fn lemma_collapse_of_collapsed(t: Seq<char>)
    requires
        is_collapsed(t),
    ensures
        collapse_whitespace(t) == t,
    decreases t.len(),
{
    if t.len() > 0 {
        let c = t.last();
        assert(t[t.len() - 1] == c);
        assert(!is_whitespace(c));
        let t1 = t.drop_last();
        if t1.len() == 0 {
            assert(words(t1).len() == 0);
            assert(words(t) == seq![seq![c]]);
            assert(t == seq![c]);
        } else if t1.last() != ' ' {
            assert(t1.last() == t[t.len() - 2]);
            assert forall|i: int| 0 <= i < t1.len() implies #[trigger] t1[i] == ' '
                || !is_whitespace(t1[i]) by {
                assert(t1[i] == t[i]);
            }
            assert forall|i: int| 0 <= i < t1.len() - 1 implies !#[trigger] double_space_at(
                t1,
                i,
            ) by {
                assert(!double_space_at(t, i));
            }
            assert(t1[0] == t[0]);
            lemma_collapse_of_collapsed(t1);
            let p = |c: char| true;
            lemma_words_shape(t1, p);
            assert(!is_whitespace(t[t.len() - 2]));
            lemma_join_extend_last(words(t1), seq![' '], c);
            assert(t1.push(c) == t);
        } else {
            assert(t1.last() == t[t.len() - 2]);
            assert(t.len() >= 3) by {
                if t.len() == 2 {
                    assert(t[0] == t1.last());
                }
            }
            let t2 = t1.drop_last();
            assert(!double_space_at(t, t.len() - 3));
            assert(t2.last() == t[t.len() - 3]);
            assert forall|i: int| 0 <= i < t2.len() implies #[trigger] t2[i] == ' '
                || !is_whitespace(t2[i]) by {
                assert(t2[i] == t[i]);
            }
            assert forall|i: int| 0 <= i < t2.len() - 1 implies !#[trigger] double_space_at(
                t2,
                i,
            ) by {
                assert(!double_space_at(t, i));
            }
            assert(t2[0] == t[0]);
            lemma_collapse_of_collapsed(t2);
            let p = |c: char| true;
            lemma_words_shape(t2, p);
            assert(t2[t2.len() - 1] == t2.last());
            assert(words(t1) == words(t2));
            assert(words(t) == words(t1).push(seq![c]));
            lemma_join_push(words(t1), seq![' '], seq![c]);
            assert(t2 + seq![' '] + seq![c] == t);
        }
    }
}

/// Whether two character vectors hold the same characters.
pub fn chars_equal(a: &Vec<char>, b: &Vec<char>) -> (same: bool)
    ensures
        same == (a@ == b@),
{
    if a.len() != b.len() {
        return false;
    }
    for i in 0..a.len()
        invariant
            a@.len() == b@.len(),
            forall|k: int| 0 <= k < i ==> a@[k] == b@[k],
    {
        if a[i] != b[i] {
            return false;
        }
    }
    assert(a@ == b@);
    true
}

/// Whether two string slices hold the same characters.
pub fn str_equals(a: &str, b: &str) -> (same: bool)
    ensures
        same == (a@ == b@),
{
    let ca = chars_of(a);
    let cb = chars_of(b);
    chars_equal(&ca, &cb)
}

/// The characters whose UTF-8 encoding lies between the two byte offsets of
/// the text's encoding, when both offsets fall on character boundaries.
pub open spec fn span_text(source: Seq<char>, span: (usize, usize)) -> Option<Seq<char>> {
    let bytes = encode_utf8(source);
    if span.0 <= span.1 && is_char_boundary(bytes, span.0 as int) && is_char_boundary(
        bytes,
        span.1 as int,
    ) {
        Some(decode_utf8(bytes.subrange(span.0 as int, span.1 as int)))
    } else {
        None
    }
}

/// An optional `String` by its view.
pub open spec fn opt_chars(s: Option<String>) -> Option<Seq<char>> {
    match s {
        Some(t) => Some(t@),
        None => None,
    }
}

/// The text between two byte offsets of `source`, if both fall on
/// character boundaries (what `str::from_utf8` accepts of that byte range).
pub fn text_in_span(source: &str, start: usize, end: usize) -> (text: Option<String>)
    ensures
        opt_chars(text) == span_text(source@, (start, end)),
{
    broadcast use encode_utf8_valid_utf8, encode_utf8_decode_utf8;

    if start <= end && source.is_char_boundary(start) && source.is_char_boundary(end) {
        let ghost bytes = encode_utf8(source@);
        let (head, _) = source.split_at(end);
        let ghost head_bytes = bytes.subrange(0, end as int);
        assert(head.spec_bytes() == head_bytes);
        proof {
            assert(valid_utf8(head_bytes)) by {
                assert(valid_utf8(encode_utf8(head@)));
            }
            if start < end {
                is_char_boundary_iff_not_is_continuation_byte(bytes, start as int);
                is_char_boundary_iff_not_is_continuation_byte(head_bytes, start as int);
            } else {
                is_char_boundary_start_end_of_seq(head_bytes);
            }
        }
        let (_, middle) = head.split_at(start);
        assert(middle.spec_bytes() == bytes.subrange(start as int, end as int));
        assert(decode_utf8(encode_utf8(middle@)) == middle@);
        Some(String::from_str(middle))
    } else {
        None
    }
}

/// The characters of `s` from index `a` up to index `b`.
pub fn copy_range(s: &Vec<char>, a: usize, b: usize) -> (out: Vec<char>)
    requires
        a <= b <= s@.len(),
    ensures
        out@ == s@.subrange(a as int, b as int),
{
    let mut out: Vec<char> = Vec::new();
    let mut i: usize = a;
    while i < b
        invariant
            a <= i <= b <= s@.len(),
            out@ == s@.subrange(a as int, i as int),
        decreases b - i,
    {
        out.push(s[i]);
        i = i + 1;
    }
    out
}

/// An optional character vector by its view.
pub open spec fn opt_chars_of(v: Option<Vec<char>>) -> Option<Seq<char>> {
    match v {
        Some(t) => Some(t@),
        None => None,
    }
}

/// `s` without all its leading copies of `c` (`trim_start_matches`).
pub open spec fn strip_leading(s: Seq<char>, c: char) -> Seq<char>
    decreases s.len(),
{
    if s.len() > 0 && s[0] == c {
        strip_leading(s.drop_first(), c)
    } else {
        s
    }
}

/// `s` without all its trailing copies of `c` (`trim_end_matches`).
pub open spec fn strip_trailing(s: Seq<char>, c: char) -> Seq<char>
    decreases s.len(),
{
    if s.len() > 0 && s.last() == c {
        strip_trailing(s.drop_last(), c)
    } else {
        s
    }
}

/// `s` without its leading and trailing copies of `c` (`trim_matches`).
pub open spec fn strip_both(s: Seq<char>, c: char) -> Seq<char> {
    strip_trailing(strip_leading(s, c), c)
}

proof fn lemma_strip_leading_skip(s: Seq<char>, c: char, a: int)
    requires
        0 <= a <= s.len(),
        forall|k: int| 0 <= k < a ==> #[trigger] s[k] == c,
    ensures
        strip_leading(s, c) == strip_leading(s.subrange(a, s.len() as int), c),
    decreases a,
{
    if a > 0 {
        lemma_strip_leading_skip(s.drop_first(), c, a - 1);
        assert(s.drop_first().subrange(a - 1, s.drop_first().len() as int) == s.subrange(
            a,
            s.len() as int,
        ));
    } else {
        assert(s.subrange(0, s.len() as int) == s);
    }
}

proof fn lemma_strip_trailing_drop(s: Seq<char>, c: char, b: int)
    requires
        0 <= b <= s.len(),
        forall|k: int| b <= k < s.len() ==> #[trigger] s[k] == c,
    ensures
        strip_trailing(s, c) == strip_trailing(s.subrange(0, b), c),
    decreases s.len() - b,
{
    if b < s.len() {
        lemma_strip_trailing_drop(s.drop_last(), c, b);
        assert(s.drop_last().subrange(0, b) == s.subrange(0, b));
    } else {
        assert(s.subrange(0, b) == s);
    }
}

/// The characters without their leading copies of `c`.
pub fn strip_leading_chars(s: &Vec<char>, c: char) -> (out: Vec<char>)
    ensures
        out@ == strip_leading(s@, c),
{
    let n = s.len();
    let mut a: usize = 0;
    while a < n && s[a] == c
        invariant
            a <= n == s@.len(),
            forall|k: int| 0 <= k < a ==> #[trigger] s@[k] == c,
        decreases n - a,
    {
        a = a + 1;
    }
    proof {
        lemma_strip_leading_skip(s@, c, a as int);
        let rest = s@.subrange(a as int, n as int);
        if a < n {
            assert(rest[0] == s@[a as int]);
        }
    }
    copy_range(s, a, n)
}

/// The characters without their trailing copies of `c`.
pub fn strip_trailing_chars(s: &Vec<char>, c: char) -> (out: Vec<char>)
    ensures
        out@ == strip_trailing(s@, c),
{
    let n = s.len();
    let mut b: usize = n;
    while b > 0 && s[b - 1] == c
        invariant
            b <= n == s@.len(),
            forall|k: int| b <= k < n ==> #[trigger] s@[k] == c,
        decreases b,
    {
        b = b - 1;
    }
    proof {
        lemma_strip_trailing_drop(s@, c, b as int);
        let kept = s@.subrange(0, b as int);
        if b > 0 {
            assert(kept.last() == s@[b - 1]);
        }
    }
    copy_range(s, 0, b)
}

/// The characters without their leading and trailing copies of `c`.
pub fn strip_both_chars(s: &Vec<char>, c: char) -> (out: Vec<char>)
    ensures
        out@ == strip_both(s@, c),
{
    let lead = strip_leading_chars(s, c);
    strip_trailing_chars(&lead, c)
}

/// The lowercase mapping of a text, as `str::to_lowercase` gives it.
pub uninterp spec fn lowercase(s: Seq<char>) -> Seq<char>;

/// `str::to_lowercase`: claims only that the result is the lowercase
/// mapping that `lowercase` names, a function of the text alone.
#[verifier::external_body]
pub(crate) fn to_lowercase(s: &str) -> (lower: String)
    ensures
        lower@ == lowercase(s@),
{
    s.to_lowercase()
}

/// The views of a sequence of character vectors.
pub open spec fn views_of(parts: Seq<Vec<char>>) -> Seq<Seq<char>> {
    parts.map_values(|p: Vec<char>| p@)
}

/// Appends all of `more` to `out`.
pub fn extend_chars(out: &mut Vec<char>, more: &Vec<char>)
    ensures
        final(out)@ == old(out)@ + more@,
{
    for i in 0..more.len()
        invariant
            out@ == old(out)@ + more@.take(i as int),
    {
        out.push(more[i]);
        assert(more@.take(i + 1) == more@.take(i as int).push(more@[i as int]));
    }
    assert(more@.take(more.len() as int) == more@);
}

/// The parts joined with `sep` between neighbours.
pub fn join_chars(parts: &Vec<Vec<char>>, sep: &Vec<char>) -> (out: Vec<char>)
    ensures
        out@ == join(views_of(parts@), sep@),
{
    let mut out: Vec<char> = Vec::new();
    for i in 0..parts.len()
        invariant
            out@ == join(views_of(parts@).take(i as int), sep@),
    {
        let ghost done = views_of(parts@).take(i as int);
        let ghost next = views_of(parts@).take(i + 1);
        assert(next.drop_last() == done);
        assert(next.last() == parts@[i as int]@);
        if i > 0 {
            extend_chars(&mut out, sep);
        }
        extend_chars(&mut out, &parts[i]);
    }
    assert(views_of(parts@).take(parts.len() as int) == views_of(parts@));
    out
}

/// The first index of `c` in `s`.
pub open spec fn first_index(s: Seq<char>, c: char) -> Option<int>
    decreases s.len(),
{
    if s.len() == 0 {
        None
    } else {
        match first_index(s.drop_last(), c) {
            Some(k) => Some(k),
            None => if s.last() == c {
                Some(s.len() - 1)
            } else {
                None
            },
        }
    }
}

pub proof fn lemma_first_index(s: Seq<char>, c: char)
    ensures
        first_index(s, c) matches Some(k) ==> 0 <= k < s.len() && s[k] == c && forall|m: int|
            0 <= m < k ==> s[m] != c,
        first_index(s, c) is None ==> forall|m: int| 0 <= m < s.len() ==> s[m] != c,
    decreases s.len(),
{
    if s.len() > 0 {
        let front = s.drop_last();
        lemma_first_index(front, c);
        assert(forall|m: int| 0 <= m < front.len() ==> front[m] == s[m]);
    }
}

/// The last index of `c` in `s`.
pub open spec fn last_index(s: Seq<char>, c: char) -> Option<int>
    decreases s.len(),
{
    if s.len() == 0 {
        None
    } else if s.last() == c {
        Some(s.len() - 1)
    } else {
        last_index(s.drop_last(), c)
    }
}

pub proof fn lemma_last_index(s: Seq<char>, c: char)
    ensures
        last_index(s, c) matches Some(k) ==> 0 <= k < s.len() && s[k] == c,
    decreases s.len(),
{
    if s.len() > 0 && s.last() != c {
        lemma_last_index(s.drop_last(), c);
    }
}

/// `line` without one trailing carriage return.
pub open spec fn strip_carriage_return(line: Seq<char>) -> Seq<char> {
    if line.len() > 0 && line.last() == '\r' {
        line.drop_last()
    } else {
        line
    }
}

/// The lines of a text as `str::lines` gives them: split after each line
/// feed, each line without its line feed and then without a carriage
/// return before it; a last line without a line feed is kept only if it is
/// not empty. Read left to right: the lines closed so far and the open one.
pub open spec fn line_fold(s: Seq<char>) -> (Seq<Seq<char>>, Seq<char>)
    decreases s.len(),
{
    if s.len() == 0 {
        (seq![], seq![])
    } else {
        let (done, current) = line_fold(s.drop_last());
        if s.last() == '\n' {
            (done.push(strip_carriage_return(current)), seq![])
        } else {
            (done, current.push(s.last()))
        }
    }
}

/// The lines of a text, as `str::lines` gives them.
pub open spec fn lines(s: Seq<char>) -> Seq<Seq<char>> {
    let (done, current) = line_fold(s);
    if current.len() > 0 {
        done.push(current)
    } else {
        done
    }
}

/// The characters without one trailing carriage return.
fn strip_carriage_return_chars(line: &Vec<char>) -> (out: Vec<char>)
    ensures
        out@ == strip_carriage_return(line@),
{
    let n = line.len();
    if n > 0 && line[n - 1] == '\r' {
        copy_range(line, 0, n - 1)
    } else {
        copy_range(line, 0, n)
    }
}

/// The lines of the characters.
pub fn lines_of(s: &Vec<char>) -> (out: Vec<Vec<char>>)
    ensures
        views_of(out@) == lines(s@),
{
    let mut done: Vec<Vec<char>> = Vec::new();
    let mut current: Vec<char> = Vec::new();
    for i in 0..s.len()
        invariant
            views_of(done@) == line_fold(s@.take(i as int)).0,
            current@ == line_fold(s@.take(i as int)).1,
    {
        let ghost next = s@.take(i + 1);
        assert(next.drop_last() == s@.take(i as int));
        if s[i] == '\n' {
            let line = strip_carriage_return_chars(&current);
            let ghost before = views_of(done@);
            done.push(line);
            assert(views_of(done@) == before.push(line@));
            current = Vec::new();
        } else {
            current.push(s[i]);
        }
    }
    assert(s@.take(s.len() as int) == s@);
    if current.len() > 0 {
        let ghost before = views_of(done@);
        let last = copy_range(&current, 0, current.len());
        assert(current@.subrange(0, current@.len() as int) == current@);
        done.push(last);
        assert(views_of(done@) == before.push(current@));
    }
    done
}

/// The character of a decimal digit.
pub open spec fn digit_char(d: nat) -> char {
    if d == 0 {
        '0'
    } else if d == 1 {
        '1'
    } else if d == 2 {
        '2'
    } else if d == 3 {
        '3'
    } else if d == 4 {
        '4'
    } else if d == 5 {
        '5'
    } else if d == 6 {
        '6'
    } else if d == 7 {
        '7'
    } else if d == 8 {
        '8'
    } else {
        '9'
    }
}

/// The decimal notation of a number, without leading zeros.
pub open spec fn decimal(n: nat) -> Seq<char>
    decreases n,
{
    if n < 10 {
        seq![digit_char(n)]
    } else {
        decimal(n / 10).push(digit_char(n % 10))
    }
}

fn digit_char_of(d: usize) -> (c: char)
    requires
        d < 10,
    ensures
        c == digit_char(d as nat),
{
    if d == 0 {
        '0'
    } else if d == 1 {
        '1'
    } else if d == 2 {
        '2'
    } else if d == 3 {
        '3'
    } else if d == 4 {
        '4'
    } else if d == 5 {
        '5'
    } else if d == 6 {
        '6'
    } else if d == 7 {
        '7'
    } else if d == 8 {
        '8'
    } else {
        '9'
    }
}

/// The decimal notation of a number.
pub fn decimal_chars(n: usize) -> (digits: Vec<char>)
    ensures
        digits@ == decimal(n as nat),
    decreases n,
{
    if n < 10 {
        let mut digits = Vec::new();
        digits.push(digit_char_of(n));
        digits
    } else {
        let mut digits = decimal_chars(n / 10);
        digits.push(digit_char_of(n % 10));
        digits
    }
}

/// The decimal notation of a number, as a `String`.
pub fn decimal_string(n: usize) -> (text: String)
    ensures
        text@ == decimal(n as nat),
{
    string_of(&decimal_chars(n))
}

/// The code of the ASCII lowercase of a character; other characters keep
/// their code.
pub open spec fn ascii_lower(c: char) -> u32 {
    if 'A' <= c && c <= 'Z' {
        ((c as u32) + 32) as u32
    } else {
        c as u32
    }
}

/// Whether two texts are equal up to ASCII case, as
/// `str::eq_ignore_ascii_case` tells.
pub open spec fn eq_ignore_ascii_case(a: Seq<char>, b: Seq<char>) -> bool {
    a.len() == b.len() && forall|i: int| 0 <= i < a.len() ==> #[trigger] ascii_lower(a[i])
        == ascii_lower(b[i])
}

fn ascii_lower_char(c: char) -> (lower: u32)
    ensures
        lower == ascii_lower(c),
{
    if 'A' <= c && c <= 'Z' {
        (c as u32) + 32
    } else {
        c as u32
    }
}

/// Whether two strings are equal up to ASCII case.
pub fn equals_ignore_ascii_case(a: &str, b: &str) -> (same: bool)
    ensures
        same == eq_ignore_ascii_case(a@, b@),
{
    let ca = chars_of(a);
    let cb = chars_of(b);
    if ca.len() != cb.len() {
        return false;
    }
    for i in 0..ca.len()
        invariant
            ca@ == a@,
            cb@ == b@,
            ca@.len() == cb@.len(),
            forall|k: int| 0 <= k < i ==> #[trigger] ascii_lower(a@[k]) == ascii_lower(b@[k]),
    {
        if ascii_lower_char(ca[i]) != ascii_lower_char(cb[i]) {
            return false;
        }
    }
    true
}

} // verus!
