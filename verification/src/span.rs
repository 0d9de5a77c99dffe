//! Where the tokens of a line lie.
//!
//! Once every character has its class, finding the tokens no longer needs the
//! characters themselves: a token is a stretch of word characters that cannot
//! be made longer, in the part of the line before the first comment character.
//!
//! [`spans`] says which ranges these are and [`scan`] computes them. The laws
//! below [`scan`] say the same thing a second time, without a recipe: every
//! range found is a token, every token is found, and they come from left to
//! right.

use vstd::prelude::*;
use crate::class::CharClass;

verus! {

/// A range of character positions in a line: `start` is the first position in
/// it, `end` the first position after it.
#[derive(Clone, Copy, PartialEq, Eq, Debug)]
pub struct Span {
    pub start: usize,
    pub end: usize,
}

impl View for Span {
    type V = (int, int);

    open spec fn view(&self) -> (int, int) {
        (self.start as int, self.end as int)
    }
}

/// The ranges that a sequence of spans stands for.
pub open spec fn span_views(found: Seq<Span>) -> Seq<(int, int)> {
    Seq::new(found.len(), |k: int| found[k]@)
}

/// Whether position `i` exists and holds a word character.
pub open spec fn is_word(classes: Seq<CharClass>, i: int) -> bool {
    0 <= i < classes.len() && classes[i] == CharClass::Word
}

/// Whether a run of word characters begins at position `i`.
pub open spec fn starts_word(classes: Seq<CharClass>, i: int) -> bool {
    is_word(classes, i) && !is_word(classes, i - 1)
}

/// The first position at or after `from` that holds no word character: where
/// the run of word characters that passes through `from` ends.
pub open spec fn word_end(classes: Seq<CharClass>, from: int) -> int
    decreases classes.len() - from,
{
    if is_word(classes, from) {
        word_end(classes, from + 1)
    } else {
        from
    }
}

/// The tokens that begin at position `from` or later, in order. A comment
/// character at `from` ends the search.
pub open spec fn spans_from(classes: Seq<CharClass>, from: int) -> Seq<(int, int)>
    decreases classes.len() - from,
{
    if from < 0 || from >= classes.len() || classes[from] == CharClass::Comment {
        Seq::empty()
    } else if starts_word(classes, from) {
        seq![(from, word_end(classes, from))] + spans_from(classes, from + 1)
    } else {
        spans_from(classes, from + 1)
    }
}

/// The tokens of a line whose characters have the classes `classes`, as ranges
/// of positions, from left to right.
pub open spec fn spans(classes: Seq<CharClass>) -> Seq<(int, int)> {
    spans_from(classes, 0)
}

/// Whether no comment character stands before position `i`: whether `i` lies
/// in the part of the line that is tokenized.
pub open spec fn uncommented(classes: Seq<CharClass>, i: int) -> bool {
    forall|j: int| 0 <= j < i && j < classes.len() ==> classes[j] != CharClass::Comment
}

/// Whether `[start, end)` is a token: a non-empty run of word characters with
/// no word character directly before or after it and no comment character
/// anywhere before it.
pub open spec fn is_token_span(classes: Seq<CharClass>, start: int, end: int) -> bool {
    &&& 0 <= start < end <= classes.len()
    &&& forall|i: int| start <= i < end ==> classes[i] == CharClass::Word
    &&& !is_word(classes, start - 1)
    &&& !is_word(classes, end)
    &&& uncommented(classes, start)
}

/// Whether a line holds no token: whether every word character in it has a
/// comment character somewhere before it.
pub open spec fn is_blank(classes: Seq<CharClass>) -> bool {
    forall|i: int| is_word(classes, i) ==> !uncommented(classes, i)
}

fn holds_word(classes: &[CharClass], i: usize) -> (b: bool)
    requires
        i < classes@.len(),
    ensures
        b == is_word(classes@, i as int),
{
    match classes[i] {
        CharClass::Word => true,
        _ => false,
    }
}

/// Finds the tokens of a line from the classes of its characters.
pub fn scan(classes: &[CharClass]) -> (found: Vec<Span>)
    ensures
        span_views(found@) == spans(classes@),
{
    let n = classes.len();
    let mut found: Vec<Span> = Vec::new();
    let mut i: usize = 0;
    while i < n
        invariant
            n == classes@.len(),
            i <= n,
            is_word(classes@, i as int) ==> starts_word(classes@, i as int),
            span_views(found@) + spans_from(classes@, i as int) == spans(classes@),
        decreases n - i,
    {
        match classes[i] {
            CharClass::Comment => {
                assert(span_views(found@) + Seq::<(int, int)>::empty() =~= span_views(found@));
                return found;
            },
            CharClass::Space => {
                i += 1;
            },
            CharClass::Word => {
                let start = i;
                i += 1;
                while i < n && holds_word(classes, i)
                    invariant
                        n == classes@.len(),
                        start < i <= n,
                        forall|j: int| start <= j < i ==> classes@[j] == CharClass::Word,
                    decreases n - i,
                {
                    i += 1;
                }
                proof {
                    lemma_word_end(classes@, start as int, i as int);
                    lemma_skip_word(classes@, start + 1, i as int);
                    let ghost before = span_views(found@);
                    let ghost token = (start as int, i as int);
                    assert(span_views(found@.push(Span { start, end: i })) =~= before.push(token));
                    assert(before.push(token) + spans_from(classes@, i as int) =~= before + (seq![
                        token,
                    ] + spans_from(classes@, i as int)));
                }
                found.push(Span { start, end: i });
            },
        }
    }
    assert(span_views(found@) + Seq::<(int, int)>::empty() =~= span_views(found@));
    found
}

/// A run of word characters that stops at `end` has `end` as its `word_end`.
pub proof fn lemma_word_end(classes: Seq<CharClass>, from: int, end: int)
    requires
        0 <= from <= end <= classes.len(),
        forall|i: int| from <= i < end ==> classes[i] == CharClass::Word,
        !is_word(classes, end),
    ensures
        word_end(classes, from) == end,
    decreases end - from,
{
    if from < end {
        lemma_word_end(classes, from + 1, end);
    }
}

/// From `from` to `word_end` there are word characters only, and at `word_end`
/// there is none.
pub proof fn lemma_word_run(classes: Seq<CharClass>, from: int)
    requires
        0 <= from <= classes.len(),
    ensures
        from <= word_end(classes, from) <= classes.len(),
        forall|i: int| from <= i < word_end(classes, from) ==> classes[i] == CharClass::Word,
        !is_word(classes, word_end(classes, from)),
    decreases classes.len() - from,
{
    if is_word(classes, from) {
        lemma_word_run(classes, from + 1);
    }
}

/// Inside a run of word characters no token begins, so the search may jump
/// to the end of the run.
proof fn lemma_skip_word(classes: Seq<CharClass>, from: int, end: int)
    requires
        1 <= from <= end <= classes.len(),
        forall|i: int| from - 1 <= i < end ==> classes[i] == CharClass::Word,
    ensures
        spans_from(classes, from) == spans_from(classes, end),
    decreases end - from,
{
    if from < end {
        lemma_skip_word(classes, from + 1, end);
    }
}

proof fn lemma_spans_from_sound(classes: Seq<CharClass>, from: int, k: int)
    requires
        0 <= from,
        uncommented(classes, from),
        0 <= k < spans_from(classes, from).len(),
    ensures
        from <= spans_from(classes, from)[k].0,
        is_token_span(classes, spans_from(classes, from)[k].0, spans_from(classes, from)[k].1),
    decreases classes.len() - from,
{
    if from < classes.len() && classes[from] != CharClass::Comment {
        assert(uncommented(classes, from + 1));
        if starts_word(classes, from) {
            if k == 0 {
                lemma_word_run(classes, from);
            } else {
                lemma_spans_from_sound(classes, from + 1, k - 1);
            }
        } else {
            lemma_spans_from_sound(classes, from + 1, k);
        }
    }
}

proof fn lemma_spans_from_ordered(classes: Seq<CharClass>, from: int, k: int, l: int)
    requires
        0 <= from,
        uncommented(classes, from),
        0 <= k < l < spans_from(classes, from).len(),
    ensures
        spans_from(classes, from)[k].1 < spans_from(classes, from)[l].0,
    decreases classes.len() - from,
{
    if from < classes.len() && classes[from] != CharClass::Comment {
        assert(uncommented(classes, from + 1));
        if starts_word(classes, from) {
            if k == 0 {
                lemma_word_run(classes, from);
                lemma_spans_from_sound(classes, from + 1, l - 1);
                let end = word_end(classes, from);
                let next = spans_from(classes, from + 1)[l - 1].0;
                if next <= end {
                    assert(is_word(classes, next - 1) || next == end);
                }
            } else {
                lemma_spans_from_ordered(classes, from + 1, k - 1, l - 1);
            }
        } else {
            lemma_spans_from_ordered(classes, from + 1, k, l);
        }
    }
}

proof fn lemma_spans_from_complete(classes: Seq<CharClass>, from: int, start: int, end: int)
    requires
        0 <= from <= start,
        is_token_span(classes, start, end),
    ensures
        spans_from(classes, from).contains((start, end)),
    decreases start - from,
{
    if from == start {
        lemma_word_end(classes, start, end);
        assert(spans_from(classes, from)[0] == (start, end));
    } else {
        lemma_spans_from_complete(classes, from + 1, start, end);
        let rest = spans_from(classes, from + 1);
        let j = choose|j: int| 0 <= j < rest.len() && rest[j] == (start, end);
        if starts_word(classes, from) {
            assert(spans_from(classes, from)[j + 1] == (start, end));
        } else {
            assert(spans_from(classes, from)[j] == (start, end));
        }
    }
}

/// Every range in `spans` is a token: non-empty, made of word characters
/// only, as long as it can be, and before any comment character.
pub proof fn lemma_spans_are_tokens(classes: Seq<CharClass>)
    ensures
        forall|k: int|
            0 <= k < spans(classes).len() ==> is_token_span(
                classes,
                (#[trigger] spans(classes)[k]).0,
                spans(classes)[k].1,
            ),
{
    assert forall|k: int| 0 <= k < spans(classes).len() implies is_token_span(
        classes,
        (#[trigger] spans(classes)[k]).0,
        spans(classes)[k].1,
    ) by {
        lemma_spans_from_sound(classes, 0, k);
    }
}

/// The ranges in `spans` go from left to right, and between any two of them
/// lies at least one character that belongs to neither.
pub proof fn lemma_spans_in_order(classes: Seq<CharClass>)
    ensures
        forall|k: int, l: int|
            0 <= k < l < spans(classes).len() ==> (#[trigger] spans(classes)[k]).1 < (
            #[trigger] spans(classes)[l]).0,
{
    assert forall|k: int, l: int| 0 <= k < l < spans(classes).len() implies (#[trigger] spans(
        classes,
    )[k]).1 < (#[trigger] spans(classes)[l]).0 by {
        lemma_spans_from_ordered(classes, 0, k, l);
    }
}

/// Every token is in `spans`: none is left out.
pub proof fn lemma_tokens_are_found(classes: Seq<CharClass>)
    ensures
        forall|start: int, end: int| #[trigger]
            is_token_span(classes, start, end) ==> spans(classes).contains((start, end)),
{
    assert forall|start: int, end: int| #[trigger]
        is_token_span(classes, start, end) implies spans(classes).contains((start, end)) by {
        lemma_spans_from_complete(classes, 0, start, end);
    }
}

/// Around every word character that no comment character precedes there is a
/// token.
pub proof fn lemma_token_around(classes: Seq<CharClass>, i: int) -> (span: (int, int))
    requires
        is_word(classes, i),
        uncommented(classes, i),
    ensures
        span.0 <= i < span.1,
        is_token_span(classes, span.0, span.1),
    decreases i,
{
    if is_word(classes, i - 1) {
        assert(uncommented(classes, i - 1));
        lemma_token_around(classes, i - 1)
    } else {
        lemma_word_run(classes, i);
        (i, word_end(classes, i))
    }
}

/// A line has no tokens exactly when it is blank: when all that stands before
/// its first comment character, or in the whole line if it has none, is
/// whitespace.
pub proof fn lemma_blank_has_no_spans(classes: Seq<CharClass>)
    ensures
        spans(classes).len() == 0 <==> is_blank(classes),
{
    if spans(classes).len() > 0 {
        lemma_spans_from_sound(classes, 0, 0);
        let first = spans(classes)[0];
        assert(is_word(classes, first.0));
        assert(uncommented(classes, first.0));
    }
    if !is_blank(classes) {
        let i = choose|i: int| is_word(classes, i) && uncommented(classes, i);
        let span = lemma_token_around(classes, i);
        lemma_spans_from_complete(classes, 0, span.0, span.1);
    }
}

proof fn lemma_word_end_of_prefix(classes: Seq<CharClass>, cut: int, from: int)
    requires
        0 <= from <= cut <= classes.len(),
        !is_word(classes, cut),
    ensures
        word_end(classes.take(cut), from) == word_end(classes, from),
    decreases cut - from,
{
    if from < cut {
        lemma_word_end_of_prefix(classes, cut, from + 1);
    }
}

proof fn lemma_spans_from_of_prefix(classes: Seq<CharClass>, cut: int, from: int)
    requires
        0 <= from <= cut < classes.len(),
        classes[cut] == CharClass::Comment,
    ensures
        spans_from(classes.take(cut), from) == spans_from(classes, from),
    decreases cut - from,
{
    if from < cut {
        lemma_spans_from_of_prefix(classes, cut, from + 1);
        lemma_word_end_of_prefix(classes, cut, from);
        assert(starts_word(classes.take(cut), from) == starts_word(classes, from));
    }
}

/// What follows a comment character does not matter: a line has the tokens of
/// the part of it that stands before any one of its comment characters.
pub proof fn lemma_comment_cuts(classes: Seq<CharClass>, cut: int)
    requires
        0 <= cut < classes.len(),
        classes[cut] == CharClass::Comment,
    ensures
        spans(classes) == spans(classes.take(cut)),
{
    lemma_spans_from_of_prefix(classes, cut, 0);
}

} // verus!
