//! Where the scanner goes: the positions at which words, blanks, names,
//! numbers and strings end, as functions of the source and a position.

use crate::parse::bytes::{
    comment_mark, is_ident_byte, is_whitespace_byte, word_false, word_true, ByteClass, BACKSLASH,
    CLOSE_BRACE, DIGIT_ZERO, MINUS, NEWLINE, QUOTE, SEMICOLON,
};
use crate::parse::error::ParseFailure;
use vstd::prelude::*;

verus! {

/// Whether `token` stands in the source at `pos`.
pub open spec fn has_prefix_at(src: Seq<u8>, pos: int, token: Seq<u8>) -> bool {
    &&& 0 <= pos
    &&& pos + token.len() <= src.len()
    &&& src.subrange(pos, pos + token.len()) == token
}

/// Whether the byte `ch` stands in the source at `pos`.
pub open spec fn has_byte_at(src: Seq<u8>, pos: int, ch: u8) -> bool {
    0 <= pos < src.len() && src[pos] == ch
}

/// Whether `word` stands in the source at `pos` and does not run on into
/// an identifier.
pub open spec fn has_keyword_at(src: Seq<u8>, pos: int, word: Seq<u8>) -> bool {
    &&& has_prefix_at(src, pos, word)
    &&& (pos + word.len() == src.len() || !is_ident_byte(src[pos + word.len()]))
}

/// The first position from `pos` on that holds no byte of the class, or
/// the end of the source.
pub open spec fn run_end(src: Seq<u8>, pos: int, class: ByteClass) -> int
    decreases src.len() - pos,
{
    if 0 <= pos < src.len() && class.has(src[pos]) {
        run_end(src, pos + 1, class)
    } else {
        pos
    }
}

/// The end of the line that `pos` is in: the next newline, or the end of
/// the source.
pub open spec fn line_end(src: Seq<u8>, pos: int) -> int {
    run_end(src, pos, ByteClass::InLine)
}

/// The position behind all blanks, newlines and comments that stand at
/// `pos`. A comment runs from `//` to the end of its line.
pub open spec fn after_blank(src: Seq<u8>, pos: int) -> int
    decreases src.len() - pos,
{
    if pos < 0 || pos >= src.len() {
        pos
    } else if has_prefix_at(src, pos, comment_mark()) {
        proof {
            lemma_run_end_bounds(src, pos + 2, ByteClass::InLine);
        }
        after_blank(src, line_end(src, pos + 2))
    } else if src[pos] == NEWLINE || is_whitespace_byte(src[pos]) {
        after_blank(src, pos + 1)
    } else {
        pos
    }
}

/// The position behind the blanks that stand at `pos` and, where a comment
/// follows them, at the end of its line. Never behind a newline.
pub open spec fn after_inline_blank(src: Seq<u8>, pos: int) -> int
    decreases src.len() - pos,
{
    if pos < 0 || pos >= src.len() {
        pos
    } else if has_prefix_at(src, pos, comment_mark()) {
        line_end(src, pos + 2)
    } else if is_whitespace_byte(src[pos]) {
        after_inline_blank(src, pos + 1)
    } else {
        pos
    }
}

/// The position behind `token` and the blanks after it, where `token`
/// stands at `pos`; else `pos`.
pub open spec fn after_token(src: Seq<u8>, pos: int, token: Seq<u8>) -> int {
    if has_prefix_at(src, pos, token) {
        after_blank(src, pos + token.len())
    } else {
        pos
    }
}

/// The position behind `word` and the blanks after it, where `word` stands
/// at `pos` as a keyword; else `pos`.
pub open spec fn after_keyword(src: Seq<u8>, pos: int, word: Seq<u8>) -> int {
    if has_keyword_at(src, pos, word) {
        after_blank(src, pos + word.len())
    } else {
        pos
    }
}

/// The position behind `token` and the blanks after it, or the error for
/// what stands at `pos` in its place.
pub open spec fn expect_at(src: Seq<u8>, pos: int, token: Seq<u8>) -> Result<int, ParseFailure> {
    if pos >= src.len() {
        Err(ParseFailure::UnexpectedEnd { expected: token })
    } else if !has_prefix_at(src, pos, token) {
        Err(ParseFailure::Unexpected { expected: token, found: src[pos] })
    } else {
        Ok(after_blank(src, pos + token.len()))
    }
}

/// The end of the name that stands at `pos`.
pub open spec fn attr_end(src: Seq<u8>, pos: int) -> int {
    run_end(src, pos, ByteClass::Attr)
}

/// The name that stands at `pos`, if one does: the longest run of bytes of
/// a name.
pub open spec fn attr_at(src: Seq<u8>, pos: int) -> Option<Seq<u8>> {
    if attr_end(src, pos) > pos {
        Some(src.subrange(pos, attr_end(src, pos)))
    } else {
        None
    }
}

/// The position behind the name at `pos` and the blanks after it; `pos`
/// where no name stands there.
pub open spec fn after_attr(src: Seq<u8>, pos: int) -> int {
    if attr_end(src, pos) > pos {
        after_blank(src, attr_end(src, pos))
    } else {
        pos
    }
}

/// The number that a run of decimal digits writes.
pub open spec fn decimal(digits: Seq<u8>) -> nat
    decreases digits.len(),
{
    if digits.len() == 0 {
        0
    } else {
        decimal(digits.drop_last()) * 10 + (digits.last() - DIGIT_ZERO) as nat
    }
}

/// Where the digits of the number at `pos` begin: behind its sign, if it
/// has one.
pub open spec fn digits_start(src: Seq<u8>, pos: int) -> int {
    if has_byte_at(src, pos, MINUS) {
        pos + 1
    } else {
        pos
    }
}

/// The end of the number at `pos`: behind a minus sign, if one stands
/// there, and all digits that follow.
pub open spec fn number_end(src: Seq<u8>, pos: int) -> int {
    run_end(src, digits_start(src, pos), ByteClass::Digit)
}

/// The value of the number at `pos`.
pub open spec fn number_value(src: Seq<u8>, pos: int) -> int {
    let size = decimal(src.subrange(digits_start(src, pos), number_end(src, pos)));
    if has_byte_at(src, pos, MINUS) {
        -size
    } else {
        size as int
    }
}

/// The number at `pos` and the position behind it, where its value lies
/// between `min` and `max`. There is none where no digit stands, where the
/// value is out of these bounds, and where a sign stands though no number
/// of the bounds is negative.
pub open spec fn number_at(src: Seq<u8>, pos: int, min: int, max: int) -> Result<
    (int, int),
    ParseFailure,
> {
    if number_end(src, pos) > digits_start(src, pos) && (has_byte_at(src, pos, MINUS) ==> min
        < 0) && min <= number_value(src, pos) <= max {
        Ok((number_value(src, pos), number_end(src, pos)))
    } else {
        Err(ParseFailure::InvalidNumber)
    }
}

/// The position of the quote that closes a string, scanning from `pos`: the
/// first quote that no backslash escapes. A backslash escapes the byte
/// after it unless it is escaped itself.
pub open spec fn closing_quote(src: Seq<u8>, pos: int, escaping: bool) -> Option<int>
    decreases src.len() - pos,
{
    if pos < 0 || pos >= src.len() {
        None
    } else if !escaping && src[pos] == BACKSLASH {
        closing_quote(src, pos + 1, true)
    } else if !escaping && src[pos] == QUOTE {
        Some(pos)
    } else {
        closing_quote(src, pos + 1, false)
    }
}

/// The string at `pos`, without its quotes and with its backslashes, and
/// the position behind its closing quote.
pub open spec fn string_at(src: Seq<u8>, pos: int) -> Result<(Seq<u8>, int), ParseFailure> {
    if pos < 0 || pos >= src.len() {
        Err(ParseFailure::UnclosedString)
    } else if src[pos] != QUOTE {
        Err(ParseFailure::UnopenedString)
    } else {
        match closing_quote(src, pos + 1, false) {
            Some(close) => Ok((src.subrange(pos + 1, close), close + 1)),
            None => Err(ParseFailure::UnclosedString),
        }
    }
}

/// The truth value at `pos` and the position behind it and the blanks
/// after it.
pub open spec fn bool_at(src: Seq<u8>, pos: int) -> Result<(bool, int), ParseFailure> {
    if has_keyword_at(src, pos, word_true()) {
        Ok((true, after_blank(src, pos + word_true().len())))
    } else if has_keyword_at(src, pos, word_false()) {
        Ok((false, after_blank(src, pos + word_false().len())))
    } else {
        Err(ParseFailure::InvalidBool)
    }
}

/// Whether a line of a stave ends at `pos`: at the end of the source, a
/// newline, a semicolon or a closing brace.
pub open spec fn at_stave_break(src: Seq<u8>, pos: int) -> bool {
    pos >= src.len() || pos < 0 || src[pos] == NEWLINE || src[pos] == SEMICOLON || src[pos]
        == CLOSE_BRACE
}

/// The position behind the newline or semicolon at `pos`; `pos` itself at
/// anything else.
pub open spec fn after_stave_break(src: Seq<u8>, pos: int) -> int {
    if has_byte_at(src, pos, NEWLINE) || has_byte_at(src, pos, SEMICOLON) {
        pos + 1
    } else {
        pos
    }
}

/// The position behind the line of a stave that `pos` is in: behind the
/// next newline or semicolon, or at the next closing brace or the end of
/// the source.
pub open spec fn stave_line_end(src: Seq<u8>, pos: int) -> int {
    after_stave_break(src, run_end(src, pos, ByteClass::InStave))
}

/// A run ends at or behind its start and within the source; all bytes in it
/// are of the class, and the byte it ends at is not.
pub proof fn lemma_run_end_bounds(src: Seq<u8>, pos: int, class: ByteClass)
    ensures
        pos <= run_end(src, pos, class),
        pos <= src.len() ==> run_end(src, pos, class) <= src.len(),
        forall|k: int| 0 <= pos <= k < run_end(src, pos, class) ==> class.has(src[k]),
        0 <= run_end(src, pos, class) < src.len() ==> !class.has(src[run_end(src, pos, class)]),
    decreases src.len() - pos,
{
    if 0 <= pos < src.len() && class.has(src[pos]) {
        lemma_run_end_bounds(src, pos + 1, class);
    }
}

/// A one-byte token stands where its byte stands.
pub proof fn lemma_prefix_of_one(src: Seq<u8>, pos: int, ch: u8)
    ensures
        has_prefix_at(src, pos, seq![ch]) == has_byte_at(src, pos, ch),
{
    if 0 <= pos < src.len() {
        assert(src.subrange(pos, pos + 1)[0] == src[pos]);
        if src[pos] == ch {
            assert(src.subrange(pos, pos + 1) =~= seq![ch]);
        }
    }
}

/// Skipping blanks ends at or behind its start and within the source.
pub proof fn lemma_after_blank_bounds(src: Seq<u8>, pos: int)
    ensures
        pos <= after_blank(src, pos),
        pos <= src.len() ==> after_blank(src, pos) <= src.len(),
    decreases src.len() - pos,
{
    if 0 <= pos < src.len() {
        if has_prefix_at(src, pos, comment_mark()) {
            lemma_run_end_bounds(src, pos + 2, ByteClass::InLine);
            lemma_after_blank_bounds(src, line_end(src, pos + 2));
        } else if src[pos] == NEWLINE || is_whitespace_byte(src[pos]) {
            lemma_after_blank_bounds(src, pos + 1);
        }
    }
}

/// Skipping blanks within a line ends at or behind its start and within
/// the source.
pub proof fn lemma_after_inline_blank_bounds(src: Seq<u8>, pos: int)
    ensures
        pos <= after_inline_blank(src, pos),
        pos <= src.len() ==> after_inline_blank(src, pos) <= src.len(),
    decreases src.len() - pos,
{
    if 0 <= pos < src.len() {
        if has_prefix_at(src, pos, comment_mark()) {
            lemma_run_end_bounds(src, pos + 2, ByteClass::InLine);
        } else if is_whitespace_byte(src[pos]) {
            lemma_after_inline_blank_bounds(src, pos + 1);
        }
    }
}

/// The closing quote of a string is a quote; it stands at or behind the
/// start of the scan and within the source.
pub proof fn lemma_closing_quote_bounds(src: Seq<u8>, pos: int, escaping: bool)
    ensures
        closing_quote(src, pos, escaping) matches Some(close) ==> pos <= close < src.len()
            && src[close] == QUOTE,
    decreases src.len() - pos,
{
    if 0 <= pos < src.len() {
        if !escaping && src[pos] == BACKSLASH {
            lemma_closing_quote_bounds(src, pos + 1, true);
        } else if escaping || src[pos] != QUOTE {
            lemma_closing_quote_bounds(src, pos + 1, false);
        }
    }
}

/// Behind skipped blanks stands no blank, no newline and no comment.
pub proof fn lemma_after_blank_stops(src: Seq<u8>, pos: int)
    requires
        0 <= pos,
    ensures
        ({
            let end = after_blank(src, pos);
            end < src.len() ==> !is_whitespace_byte(src[end]) && src[end] != NEWLINE
                && !has_prefix_at(src, end, comment_mark())
        }),
    decreases src.len() - pos,
{
    if pos < src.len() {
        if has_prefix_at(src, pos, comment_mark()) {
            lemma_run_end_bounds(src, pos + 2, ByteClass::InLine);
            lemma_after_blank_stops(src, line_end(src, pos + 2));
        } else if src[pos] == NEWLINE || is_whitespace_byte(src[pos]) {
            lemma_after_blank_stops(src, pos + 1);
        }
    }
}

/// Behind blanks skipped within a line stands a newline, or else no blank
/// and no comment.
pub proof fn lemma_after_inline_blank_stops(src: Seq<u8>, pos: int)
    requires
        0 <= pos,
    ensures
        ({
            let end = after_inline_blank(src, pos);
            end < src.len() ==> src[end] == NEWLINE || (!is_whitespace_byte(src[end])
                && !has_prefix_at(src, end, comment_mark()))
        }),
    decreases src.len() - pos,
{
    if pos < src.len() {
        if has_prefix_at(src, pos, comment_mark()) {
            lemma_run_end_bounds(src, pos + 2, ByteClass::InLine);
        } else if is_whitespace_byte(src[pos]) {
            lemma_after_inline_blank_stops(src, pos + 1);
        }
    }
}

} // verus!
