//! A rough speech form of a line of code.

use vstd::prelude::*;

use crate::text::{
    chars_of, collapse_whitespace, collapse_whitespace_chars, is_collapsed, is_whitespace,
    lemma_collapse_of_collapsed, lemma_collapse_split, lemma_join_collapsed, lemma_non_blank_collapse,
    lemma_non_blank_push, lemma_words_shape, non_blank, string_of, words,
};

verus! {

/// The punctuation that simple speech reads as a pause.
pub open spec fn is_speech_separator(c: char) -> bool {
    c == '(' || c == ')' || c == ':' || c == ',' || c == '_'
}

/// Each separator replaced by a space.
pub open spec fn separators_to_spaces(line: Seq<char>) -> Seq<char> {
    line.map_values(|c: char| if is_speech_separator(c) { ' ' } else { c })
}

/// The simple speech form of a line: separators become spaces, then the
/// words are joined by single spaces.
pub open spec fn simple_speech(line: Seq<char>) -> Seq<char> {
    collapse_whitespace(separators_to_spaces(line))
}

/// Simple speech holds none of the separators, and no whitespace but
/// single spaces between words: nothing before the first word, nothing after
/// the last, and never two spaces together.
pub proof fn law_simple_speech_shape(line: Seq<char>)
    ensures
        is_collapsed(simple_speech(line)),
        forall|k: int|
            0 <= k < simple_speech(line).len() ==> !is_speech_separator(
                #[trigger] simple_speech(line)[k],
            ),
{
    let spaced = separators_to_spaces(line);
    let p = |c: char| !is_speech_separator(c);
    assert forall|k: int| 0 <= k < spaced.len() && !is_whitespace(#[trigger] spaced[k]) implies p(
        spaced[k],
    ) by {}
    lemma_words_shape(spaced, p);
    lemma_join_collapsed(words(spaced), p);
    let t = simple_speech(line);
    assert forall|k: int| 0 <= k < t.len() implies !is_speech_separator(#[trigger] t[k]) by {
        if t[k] != ' ' {
            assert(p(t[k]));
        }
    }
}

/// Whether a character is read aloud by simple speech: it is neither
/// whitespace nor one of `(`, `)`, `:`, `,` and `_`.
pub open spec fn kept_in_simple_speech(c: char) -> bool {
    !is_whitespace(c) && c != '(' && c != ')' && c != ':' && c != ',' && c != '_'
}

proof fn lemma_spaced_non_blank(line: Seq<char>)
    ensures
        non_blank(separators_to_spaces(line)) == line.filter(|c: char| kept_in_simple_speech(c)),
    decreases line.len(),
{
    reveal(Seq::filter);
    if line.len() > 0 {
        let t = line.drop_last();
        let c = line.last();
        lemma_spaced_non_blank(t);
        assert(separators_to_spaces(line) == separators_to_spaces(t).push(
            if is_speech_separator(c) {
                ' '
            } else {
                c
            },
        ));
        lemma_non_blank_push(separators_to_spaces(t), if is_speech_separator(c) {
            ' '
        } else {
            c
        });
        assert(line == t.push(c));
        line.drop_last().lemma_filter_push(c, |c: char| kept_in_simple_speech(c));
    }
}

/// Simple speech reads every other character: the characters of the speech
/// that are not whitespace are those of the line, in order, with
/// whitespace and `(`, `)`, `:`, `,` and `_` left out.
pub proof fn law_simple_speech_keeps_characters(line: Seq<char>)
    ensures
        non_blank(simple_speech(line)) == line.filter(|c: char| kept_in_simple_speech(c)),
{
    lemma_non_blank_collapse(separators_to_spaces(line));
    lemma_spaced_non_blank(line);
}

/// Whitespace and each of `(`, `)`, `:`, `,` and `_` end a word: the
/// simple speech of a line split at such a character is that of the text
/// before it and that of the text after it, joined by one space when both
/// say something.
pub proof fn law_separator_ends_word(a: Seq<char>, c: char, b: Seq<char>)
    requires
        is_whitespace(c) || c == '(' || c == ')' || c == ':' || c == ',' || c == '_',
    ensures
        simple_speech(a + seq![c] + b) == if simple_speech(a).len() == 0 {
            simple_speech(b)
        } else if simple_speech(b).len() == 0 {
            simple_speech(a)
        } else {
            simple_speech(a) + seq![' '] + simple_speech(b)
        },
{
    let d = if is_speech_separator(c) {
        ' '
    } else {
        c
    };
    assert(separators_to_spaces(a + seq![c] + b) == separators_to_spaces(a) + seq![d]
        + separators_to_spaces(b));
    lemma_collapse_split(separators_to_spaces(a), d, separators_to_spaces(b));
}

/// Simple speech of simple speech changes nothing.
pub proof fn law_simple_speech_idempotent(line: Seq<char>)
    ensures
        simple_speech(simple_speech(line)) == simple_speech(line),
{
    let t = simple_speech(line);
    law_simple_speech_shape(line);
    assert(separators_to_spaces(t) == t);
    lemma_collapse_of_collapsed(t);
}

/// Simple speech over characters.
pub fn simple_speech_chars(line: &Vec<char>) -> (speech: Vec<char>)
    ensures
        speech@ == simple_speech(line@),
{
    let mut spaced: Vec<char> = Vec::new();
    for i in 0..line.len()
        invariant
            spaced@ == separators_to_spaces(line@.take(i as int)),
    {
        let c = line[i];
        let d = if c == '(' || c == ')' || c == ':' || c == ',' || c == '_' {
            ' '
        } else {
            c
        };
        spaced.push(d);
        assert(separators_to_spaces(line@.take(i + 1)) == separators_to_spaces(
            line@.take(i as int),
        ).push(d));
    }
    assert(line@.take(line.len() as int) == line@);
    collapse_whitespace_chars(&spaced)
}

/// Converts a punctuation-heavy programming line into a very rough speech
/// form: parentheses, colons, commas and underscores become spaces, and
/// runs of whitespace collapse to single spaces.
pub fn make_simple_speech_text(line: &str) -> (speech: String)
    ensures
        speech@ == simple_speech(line@),
{
    let chars = chars_of(line);
    let spoken = simple_speech_chars(&chars);
    string_of(&spoken)
}

} // verus!
