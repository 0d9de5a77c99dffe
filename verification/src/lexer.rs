//! The lexer itself: lines go in, statements go out to a handler.
//!
//! The handler is any callable that takes a statement and its arguments and
//! answers `Ok` or an error. Verus knows a callable by two relations:
//! `call_requires` says with which arguments it may be called, `call_ensures`
//! which results a call may give. The contracts here are stated over these two.
//! They say with what the handler may be called and what becomes of its
//! answer; they hold for every handler, whatever it does with a statement.

use std::collections::VecDeque;
use vstd::prelude::*;
use vstd::slice::slice_subrange;
use crate::token::{is_blank_line, lemma_blank_line_has_no_tokens, texts, tokenize, tokens};

verus! {

/// What a line hands to the handler: its first token, which is the statement,
/// and the tokens after it, which are the arguments. A line without tokens
/// hands over nothing.
pub open spec fn statement_of(line: Seq<char>) -> Option<(Seq<char>, Seq<Seq<char>>)> {
    let found = tokens(line);
    if found.len() == 0 {
        None
    } else {
        Some((found[0], found.skip(1)))
    }
}

/// Whether the handler may be called with this statement and these arguments,
/// whichever slices carry their text.
pub open spec fn accepts<E, F: FnMut(&str, &[&str]) -> Result<(), E>>(
    handler: F,
    statement: Seq<char>,
    args: Seq<Seq<char>>,
) -> bool {
    forall|s: &str, a: &[&str]|
        s@ == statement && texts(a@) == args ==> #[trigger] call_requires(handler, (s, a))
}

/// Whether `result` is an answer of the handler to this statement and these
/// arguments: what a call with them may return.
pub open spec fn answers<E, F: FnMut(&str, &[&str]) -> Result<(), E>>(
    handler: F,
    statement: Seq<char>,
    args: Seq<Seq<char>>,
    result: Result<(), E>,
) -> bool {
    exists|s: &str, a: &[&str]|
        s@ == statement && texts(a@) == args && #[trigger] call_ensures(handler, (s, a), result)
}

/// Whether the handler may be called with what `item` hands over. A line that
/// could not be read, or that has no tokens, asks nothing of the handler.
pub open spec fn admits<E, F: FnMut(&str, &[&str]) -> Result<(), E>>(
    handler: F,
    item: Result<String, E>,
) -> bool {
    item matches Ok(line) ==> (statement_of(line@) matches Some((statement, args)) ==> accepts(
        handler,
        statement,
        args,
    ))
}

/// Whether lexing goes on after `item`: the line was read, and either it has
/// no tokens or the handler answered `Ok` to its statement.
pub open spec fn passes<E, F: FnMut(&str, &[&str]) -> Result<(), E>>(
    handler: F,
    item: Result<String, E>,
) -> bool {
    item matches Ok(line) && (statement_of(line@) matches Some((statement, args)) ==> answers(
        handler,
        statement,
        args,
        Ok(()),
    ))
}

/// Whether lexing ends at `item` with `error`: either the line could not be
/// read and `error` is the reason, or `error` is the handler's answer to its
/// statement.
pub open spec fn fails<E, F: FnMut(&str, &[&str]) -> Result<(), E>>(
    handler: F,
    item: Result<String, E>,
    error: E,
) -> bool {
    match item {
        Err(reason) => reason == error,
        Ok(line) => statement_of(line@) matches Some((statement, args)) && answers(
            handler,
            statement,
            args,
            Err(error),
        ),
    }
}

/// Whether lexing goes on after each of the first `count` items.
pub open spec fn all_pass<E, F: FnMut(&str, &[&str]) -> Result<(), E>>(
    handler: F,
    source: Seq<Result<String, E>>,
    count: int,
) -> bool {
    forall|i: int| 0 <= i < count ==> passes(handler, #[trigger] source[i])
}

/// Whether lexing `source` can take exactly `taken` items from it and end
/// with `result`. It ends with `Ok` when every item was taken and passed. It
/// ends with an error when the last item taken failed with that error and
/// every item before it passed.
pub open spec fn outcome<E, F: FnMut(&str, &[&str]) -> Result<(), E>>(
    handler: F,
    source: Seq<Result<String, E>>,
    taken: int,
    result: Result<(), E>,
) -> bool {
    &&& 0 <= taken <= source.len()
    &&& match result {
        Ok(_) => taken == source.len() && all_pass(handler, source, taken),
        Err(error) => taken >= 1 && all_pass(handler, source, taken - 1) && fails(
            handler,
            source[taken - 1],
            error,
        ),
    }
}

/// Whether no item of `source` asks anything of a handler: every line was read
/// and has no tokens.
pub open spec fn is_silent<E>(source: Seq<Result<String, E>>) -> bool {
    forall|i: int|
        0 <= i < source.len() ==> (#[trigger] source[i] matches Ok(line) && statement_of(line@)
            is None)
}

/// What to do after one item of the source has been dealt with.
#[derive(Debug, PartialEq, Eq)]
pub enum Step<E> {
    /// Go on with the next item.
    Continue,
    /// Stop, and return this result.
    Stop(Result<(), E>),
}

/// Whether `next` is the way to go on after `item`, which is what the source
/// gave when asked for its next line: nothing, a line, or the reason why the
/// line could not be read.
pub open spec fn follows<E, F: FnMut(&str, &[&str]) -> Result<(), E>>(
    handler: F,
    item: Option<Result<String, E>>,
    next: Step<E>,
) -> bool {
    match item {
        None => next == Step::Stop(Ok::<(), E>(())),
        Some(item) => match next {
            Step::Continue => passes(handler, item),
            Step::Stop(result) => result matches Err(error) && fails(handler, item, error),
        },
    }
}

/// Lexes one line: hands its statement and arguments to the handler and
/// returns the handler's answer as it is. A line without tokens is skipped:
/// the handler is left alone and the answer is `Ok`.
///
/// To Verus a callable is the same value before and after a call, which is
/// what the first clause records.
pub fn lex_line<E, F>(line: &str, handler: &mut F) -> (result: Result<(), E>) where
    F: FnMut(&str, &[&str]) -> Result<(), E>,

    requires
        statement_of(line@) matches Some((statement, args)) ==> accepts(
            *old(handler),
            statement,
            args,
        ),
    ensures
        *final(handler) == *old(handler),
        match statement_of(line@) {
            Some((statement, args)) => answers(*old(handler), statement, args, result),
            None => result == Ok::<(), E>(()),
        },
{
    let found = tokenize(line);
    if found.len() == 0 {
        return Ok(());
    }
    let statement = found[0];
    let args = slice_subrange(found.as_slice(), 1, found.len());
    assert(statement@ == tokens(line@)[0]);
    assert(texts(args@) =~= tokens(line@).skip(1));
    handler(statement, args)
}

/// Deals with what the source gave when asked for its next line, and says how
/// to go on. The end of the source stops the run with `Ok`; a line that could
/// not be read stops it with the reason; a line is lexed, and stops the run
/// only if the handler answers with an error.
///
/// This is the whole of the lexer's judgement. Whoever reads the lines, from a
/// file or from memory, asks the source for a line, hands the answer to this
/// function and does as it says.
pub fn step<E, F>(item: Option<Result<String, E>>, handler: &mut F) -> (next: Step<E>) where
    F: FnMut(&str, &[&str]) -> Result<(), E>,

    requires
        item matches Some(item) ==> admits(*old(handler), item),
    ensures
        *final(handler) == *old(handler),
        follows(*old(handler), item, next),
{
    match item {
        None => Step::Stop(Ok(())),
        Some(Err(reason)) => Step::Stop(Err(reason)),
        Some(Ok(line)) => match lex_line(line.as_str(), handler) {
            Ok(unit) => {
                assert(unit == ());
                Step::Continue
            },
            Err(error) => Step::Stop(Err(error)),
        },
    }
}

/// Lexes the lines of `source`, from the front, until one fails or none is
/// left.
///
/// An item of `source` is a line, or the reason why the line could not be
/// read. Each line is taken from `source` only when the one before it has been
/// dealt with, and what is not taken stays in `source`. The first failure, be
/// it a line that could not be read or an error from the handler, ends the
/// run and is returned as it is; nothing that the handler did before is
/// undone.
///
/// The handler has to accept the statement of a line only if every line before
/// it passes. So this function cannot call it for a line that follows a
/// failure: it would have no right to.
pub fn lex<E, F>(source: &mut VecDeque<Result<String, E>>, handler: F) -> (result: Result<
    (),
    E,
>) where F: FnMut(&str, &[&str]) -> Result<(), E>
    requires
        forall|i: int|
            0 <= i < old(source)@.len() && all_pass(handler, old(source)@, i) ==> admits(
                handler,
                #[trigger] old(source)@[i],
            ),
    ensures
        final(source)@ == old(source)@.skip(old(source)@.len() - final(source)@.len()),
        outcome(handler, old(source)@, old(source)@.len() - final(source)@.len(), result),
        is_silent(old(source)@) ==> result is Ok,
{
    let ghost lines = source@;
    let mut callee = handler;
    loop
        invariant
            callee == handler,
            lines == old(source)@,
            source@.len() <= lines.len(),
            source@ == lines.skip(lines.len() - source@.len()),
            all_pass(handler, lines, lines.len() - source@.len()),
            forall|i: int|
                0 <= i < lines.len() && all_pass(handler, lines, i) ==> admits(
                    handler,
                    #[trigger] lines[i],
                ),
        decreases source@.len(),
    {
        let ghost taken = lines.len() - source@.len();
        let item = source.pop_front();
        proof {
            if item is Some {
                assert(item->Some_0 == lines[taken]);
                assert(source@ =~= lines.skip(taken + 1));
            }
        }
        match step(item, &mut callee) {
            Step::Continue => {},
            Step::Stop(result) => {
                return result;
            },
        }
    }
}

/// Whether the handler's answer depends on nothing but the text of the
/// statement and of the arguments it is called with.
pub open spec fn is_functional<E, F: FnMut(&str, &[&str]) -> Result<(), E>>(handler: F) -> bool {
    forall|s1: &str, a1: &[&str], r1: Result<(), E>, s2: &str, a2: &[&str], r2: Result<(), E>|
        s1@ == s2@ && texts(a1@) == texts(a2@) && #[trigger] call_ensures(handler, (s1, a1), r1)
            && #[trigger] call_ensures(handler, (s2, a2), r2) ==> r1 == r2
}

/// A line that holds nothing but whitespace and, possibly, a comment hands
/// nothing to the handler. With every handler, whatever it accepts and
/// whatever it answers, lexing goes on after such a line, and cannot end at
/// it.
pub proof fn lemma_blank_line_is_skipped<E, F: FnMut(&str, &[&str]) -> Result<(), E>>(
    handler: F,
    line: String,
)
    requires
        is_blank_line(line@),
    ensures
        statement_of(line@) is None,
        admits(handler, Ok::<String, E>(line)),
        passes(handler, Ok::<String, E>(line)),
        forall|error: E| !fails(handler, Ok::<String, E>(line), error),
{
    lemma_blank_line_has_no_tokens(line@);
}

proof fn lemma_pass_excludes_fail<E, F: FnMut(&str, &[&str]) -> Result<(), E>>(
    handler: F,
    item: Result<String, E>,
    error: E,
)
    requires
        is_functional(handler),
        passes(handler, item),
    ensures
        !fails(handler, item, error),
{
    if fails(handler, item, error) {
        let (statement, args) = statement_of(item->Ok_0@)->Some_0;
        let (s1, a1) = choose|s1: &str, a1: &[&str]|
            s1@ == statement && texts(a1@) == args && #[trigger] call_ensures(
                handler,
                (s1, a1),
                Ok::<(), E>(()),
            );
        let (s2, a2) = choose|s2: &str, a2: &[&str]|
            s2@ == statement && texts(a2@) == args && #[trigger] call_ensures(
                handler,
                (s2, a2),
                Err::<(), E>(error),
            );
        assert(Ok::<(), E>(()) == Err::<(), E>(error));
    }
}

proof fn lemma_fail_is_unique<E, F: FnMut(&str, &[&str]) -> Result<(), E>>(
    handler: F,
    item: Result<String, E>,
    error1: E,
    error2: E,
)
    requires
        is_functional(handler),
        fails(handler, item, error1),
        fails(handler, item, error2),
    ensures
        error1 == error2,
{
    if item is Ok {
        let (statement, args) = statement_of(item->Ok_0@)->Some_0;
        let (s1, a1) = choose|s1: &str, a1: &[&str]|
            s1@ == statement && texts(a1@) == args && #[trigger] call_ensures(
                handler,
                (s1, a1),
                Err::<(), E>(error1),
            );
        let (s2, a2) = choose|s2: &str, a2: &[&str]|
            s2@ == statement && texts(a2@) == args && #[trigger] call_ensures(
                handler,
                (s2, a2),
                Err::<(), E>(error2),
            );
        assert(Err::<(), E>(error1) == Err::<(), E>(error2));
    }
}

/// Lexing the same lines again with a handler that answers by its arguments
/// alone takes the same number of lines and ends with the same result. The
/// lines taken are the same, so the same statements reach the handler, in the
/// same order.
pub proof fn lemma_outcome_is_unique<E, F: FnMut(&str, &[&str]) -> Result<(), E>>(
    handler: F,
    source: Seq<Result<String, E>>,
    taken1: int,
    result1: Result<(), E>,
    taken2: int,
    result2: Result<(), E>,
)
    requires
        is_functional(handler),
        outcome(handler, source, taken1, result1),
        outcome(handler, source, taken2, result2),
    ensures
        taken1 == taken2,
        result1 == result2,
{
    if result1 is Err && (taken1 < taken2 || result2 is Ok) {
        assert(passes(handler, source[taken1 - 1]));
        lemma_pass_excludes_fail(handler, source[taken1 - 1], result1->Err_0);
    }
    if result2 is Err && (taken2 < taken1 || result1 is Ok) {
        assert(passes(handler, source[taken2 - 1]));
        lemma_pass_excludes_fail(handler, source[taken2 - 1], result2->Err_0);
    }
    if result1 is Ok && result2 is Ok {
        assert(result1->Ok_0 == ());
        assert(result2->Ok_0 == ());
    }
    if result1 is Err && result2 is Err {
        lemma_fail_is_unique(handler, source[taken1 - 1], result1->Err_0, result2->Err_0);
    }
}

/// A failure ends the run whatever follows it: if lexing `source` ends with
/// an error at some line, so does lexing any other source that begins with
/// the same lines up to and including that one.
pub proof fn lemma_failure_ends_lexing<E, F: FnMut(&str, &[&str]) -> Result<(), E>>(
    handler: F,
    source: Seq<Result<String, E>>,
    taken: int,
    error: E,
    other: Seq<Result<String, E>>,
)
    requires
        outcome(handler, source, taken, Err(error)),
        taken <= other.len(),
        other.take(taken) == source.take(taken),
    ensures
        outcome(handler, other, taken, Err(error)),
{
    assert forall|i: int| 0 <= i < taken implies other[i] == source[i] by {
        assert(other.take(taken)[i] == other[i]);
        assert(source.take(taken)[i] == source[i]);
    }
}

} // verus!
