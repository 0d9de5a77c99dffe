//! Lexical classes of characters.
//!
//! A line is read one character at a time, and the only thing the lexer ever
//! asks of a character is which of three classes it belongs to.

use vstd::prelude::*;

verus! {

/// The character that starts a comment. There is no way to escape it.
pub const COMMENT: char = '#';

/// Whether `c` is a whitespace character as the standard library's
/// `char::is_whitespace` sees it: a character with the Unicode property
/// `White_Space`.
///
/// The set is left unnamed on purpose. It belongs to the Unicode tables that the
/// standard library carries, and nothing in this crate depends on which
/// characters are in it.
pub uninterp spec fn white_space(c: char) -> bool;

/// The standard library's `char::is_whitespace`.
///
/// Trusted: the answer depends on the character alone, so that asking twice
/// about the same character gives the same answer. That answer is what
/// [`white_space`] names. Nothing is claimed about any particular character.
pub assume_specification[ char::is_whitespace ](c: char) -> (b: bool)
    ensures
        b == white_space(c),
;

/// What a character means to the lexer.
#[derive(Clone, Copy, PartialEq, Eq, Debug)]
pub enum CharClass {
    /// Whitespace: separates tokens and is part of none.
    Space,
    /// The comment character: it and everything after it on the line is ignored.
    Comment,
    /// Anything else: part of a token.
    Word,
}

/// The class of a single character. The comment character is recognised first,
/// so its class does not depend on the whitespace tables.
pub open spec fn class_of(c: char) -> CharClass {
    if c == COMMENT {
        CharClass::Comment
    } else if white_space(c) {
        CharClass::Space
    } else {
        CharClass::Word
    }
}

/// The classes of the characters of a line, position by position.
pub open spec fn classes_of(line: Seq<char>) -> Seq<CharClass> {
    Seq::new(line.len(), |i: int| class_of(line[i]))
}

/// Classifies one character.
pub fn classify(c: char) -> (class: CharClass)
    ensures
        class == class_of(c),
{
    if c == COMMENT {
        CharClass::Comment
    } else if c.is_whitespace() {
        CharClass::Space
    } else {
        CharClass::Word
    }
}

/// Classifies every character of a line, in order.
pub fn classify_line(line: &str) -> (classes: Vec<CharClass>)
    ensures
        classes@ == classes_of(line@),
{
    let mut classes: Vec<CharClass> = Vec::new();
    for c in chars: line.chars()
        invariant
            chars.seq() == line@,
            classes@.len() == chars.index(),
            forall|j: int| 0 <= j < classes@.len() ==> classes@[j] == class_of(line@[j]),
    {
        classes.push(classify(c));
    }
    classes
}

} // verus!
