//! Tokens: the pieces of a line between runs of whitespace.

use vstd::prelude::*;
use crate::class::{classes_of, classify_line, white_space, CharClass, COMMENT};
use crate::span::{
    is_blank, is_token_span, is_word, lemma_blank_has_no_spans, lemma_comment_cuts,
    lemma_spans_are_tokens, scan, span_views, spans, uncommented,
};

verus! {

/// The tokens of a line, from left to right: the text in each of the ranges
/// that `spans` finds among the classes of its characters.
pub open spec fn tokens(line: Seq<char>) -> Seq<Seq<char>> {
    let found = spans(classes_of(line));
    Seq::new(found.len(), |k: int| line.subrange(found[k].0, found[k].1))
}

/// The text of each string slice of a sequence.
pub open spec fn texts(slices: Seq<&str>) -> Seq<Seq<char>> {
    Seq::new(slices.len(), |k: int| slices[k]@)
}

/// Cuts a line into its tokens. Each token is a slice of the line; nothing is
/// copied.
pub fn tokenize<'a>(line: &'a str) -> (found: Vec<&'a str>)
    ensures
        texts(found@) == tokens(line@),
{
    let classes = classify_line(line);
    let ranges = scan(classes.as_slice());
    proof {
        lemma_spans_are_tokens(classes@);
    }
    let mut found: Vec<&'a str> = Vec::new();
    let mut k: usize = 0;
    while k < ranges.len()
        invariant
            k <= ranges.len(),
            classes@ == classes_of(line@),
            span_views(ranges@) == spans(classes@),
            forall|j: int|
                0 <= j < spans(classes@).len() ==> is_token_span(
                    classes@,
                    (#[trigger] spans(classes@)[j]).0,
                    spans(classes@)[j].1,
                ),
            found@.len() == k,
            forall|j: int| 0 <= j < k ==> (#[trigger] found@[j])@ == tokens(line@)[j],
        decreases ranges.len() - k,
    {
        let range = ranges[k];
        assert(range@ == span_views(ranges@)[k as int]);
        assert(range@ == spans(classes@)[k as int]);
        found.push(line.substring_char(range.start, range.end));
        k += 1;
    }
    assert(texts(found@) =~= tokens(line@));
    found
}

/// No token is empty, and no token holds a whitespace character or the
/// comment character.
pub proof fn lemma_tokens_hold_words(line: Seq<char>)
    ensures
        forall|k: int|
            0 <= k < tokens(line).len() ==> (#[trigger] tokens(line)[k]).len() > 0,
        forall|k: int, i: int|
            0 <= k < tokens(line).len() && 0 <= i < tokens(line)[k].len() ==> {
                let c = #[trigger] tokens(line)[k][i];
                c != COMMENT && !white_space(c)
            },
{
    let classes = classes_of(line);
    lemma_spans_are_tokens(classes);
    assert forall|k: int, i: int|
        0 <= k < tokens(line).len() && 0 <= i < tokens(line)[k].len() implies {
        let c = #[trigger] tokens(line)[k][i];
        c != COMMENT && !white_space(c)
    } by {
        let range = spans(classes)[k];
        assert(is_token_span(classes, range.0, range.1));
        assert(classes[range.0 + i] == CharClass::Word);
        assert(tokens(line)[k][i] == line[range.0 + i]);
    }
    assert forall|k: int| 0 <= k < tokens(line).len() implies (#[trigger] tokens(line)[k]).len()
        > 0 by {
        let range = spans(classes)[k];
        assert(is_token_span(classes, range.0, range.1));
    }
}

/// Whether the comment character occurs nowhere in `text`.
pub open spec fn comment_free(text: Seq<char>) -> bool {
    forall|j: int| 0 <= j < text.len() ==> text[j] != COMMENT
}

/// Whether a line holds nothing but whitespace and, possibly, a comment:
/// whether every character that no comment character precedes is whitespace or
/// starts the comment itself.
pub open spec fn is_blank_line(line: Seq<char>) -> bool {
    forall|i: int|
        0 <= i < line.len() && comment_free(#[trigger] line.take(i)) ==> line[i] == COMMENT
            || white_space(line[i])
}

/// A line has no tokens exactly when it holds nothing but whitespace and,
/// possibly, a comment.
pub proof fn lemma_blank_line_has_no_tokens(line: Seq<char>)
    ensures
        tokens(line).len() == 0 <==> is_blank_line(line),
{
    let classes = classes_of(line);
    lemma_blank_has_no_spans(classes);
    if is_blank_line(line) {
        assert forall|i: int| is_word(classes, i) implies !uncommented(classes, i) by {
            if uncommented(classes, i) {
                assert forall|j: int| 0 <= j < line.take(i).len() implies line.take(i)[j]
                    != COMMENT by {
                    assert(classes[j] != CharClass::Comment);
                }
                assert(comment_free(line.take(i)));
            }
        }
    }
    if is_blank(classes) {
        assert forall|i: int|
            0 <= i < line.len() && comment_free(#[trigger] line.take(i)) implies line[i] == COMMENT
            || white_space(line[i]) by {
            assert forall|j: int| 0 <= j < i && j < classes.len() implies classes[j]
                != CharClass::Comment by {
                assert(line.take(i)[j] != COMMENT);
            }
            assert(uncommented(classes, i));
            assert(!is_word(classes, i));
        }
    }
}

/// The comment character and all that follows it on a line is ignored,
/// whatever stands around it: the line has the tokens of what stands before.
pub proof fn lemma_comment_ignored(head: Seq<char>, tail: Seq<char>)
    ensures
        tokens(head.push(COMMENT) + tail) == tokens(head),
{
    let line = head.push(COMMENT) + tail;
    let cut = head.len() as int;
    let classes = classes_of(line);
    assert(line[cut] == COMMENT);
    assert(line.take(cut) =~= head);
    assert(classes.take(cut) =~= classes_of(head));
    lemma_comment_cuts(classes, cut);
    lemma_spans_are_tokens(classes_of(head));
    assert forall|k: int| 0 <= k < tokens(head).len() implies tokens(line)[k] == tokens(head)[k] by {
        let range = spans(classes_of(head))[k];
        assert(is_token_span(classes_of(head), range.0, range.1));
        assert(line.subrange(range.0, range.1) =~= head.subrange(range.0, range.1));
    }
    assert(tokens(line) =~= tokens(head));
}

} // verus!
