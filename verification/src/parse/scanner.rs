//! The scanner: a position in a source, and the steps that move it.

use crate::parse::bytes::{
    comment_mark, false_word, is_attr_char, is_digit, is_ident_char, is_whitespace, true_word,
    ByteClass, BACKSLASH, CLOSE_BRACE, DIGIT_ZERO, MINUS, NEWLINE, QUOTE, SEMICOLON, SLASH,
};
use crate::parse::error::ParseError;
use crate::parse::scan::{
    after_attr, after_blank, after_inline_blank, after_keyword, after_stave_break, after_token,
    at_stave_break, attr_at, attr_end, bool_at, closing_quote, decimal, expect_at, has_byte_at,
    has_keyword_at, has_prefix_at, lemma_prefix_of_one, lemma_run_end_bounds,
    line_end, number_at, run_end, stave_line_end, string_at,
};
use crate::text::text_view;
use vstd::prelude::*;
use vstd::slice::{slice_subrange, slice_to_vec};
use vstd::string::StringSliceAdditionalSpecFns;

verus! {

/// A scanner over the bytes of a source. It never stands behind the end of
/// its source.
pub struct Parser<'a> {
    source: &'a [u8],
    cursor: usize,
}

/// The model of a [`Parser`]: the bytes it scans and where it stands.
pub struct Cursor {
    pub source: Seq<u8>,
    pub position: int,
}

/// Whether a scanner has kept its source and gone forward to `to`.
pub open spec fn moved(before: Cursor, after: Cursor, to: int) -> bool {
    &&& after.source == before.source
    &&& after.position == to
    &&& before.position <= to <= before.source.len()
}

/// Whether a scanner has kept its source and not gone back.
pub open spec fn went_on(before: Cursor, after: Cursor) -> bool {
    &&& after.source == before.source
    &&& before.position <= after.position
}

impl<'a> View for Parser<'a> {
    type V = Cursor;

    closed spec fn view(&self) -> Cursor {
        Cursor { source: self.source@, position: self.cursor as int }
    }
}

impl<'a> Parser<'a> {
    /// The scanner stands within its source or at its end.
    #[verifier::type_invariant]
    spec fn within_source(self) -> bool {
        self.cursor <= self.source@.len()
    }

    /// A scanner at the start of the bytes of `source`.
    pub fn new(source: &'a str) -> (parser: Self)
        ensures
            parser@.source == source.spec_bytes(),
            parser@.position == 0,
    {
        Parser { source: source.as_bytes(), cursor: 0 }
    }

    /// Where the scanner stands: the number of bytes behind it.
    pub fn position(&self) -> (position: usize)
        ensures
            position == self@.position,
            position <= self@.source.len(),
    {
        proof {
            use_type_invariant(self);
        }
        self.cursor
    }

    /// The byte at which the scanner stands, if it is not at the end.
    pub fn peek(&self) -> (byte: Option<u8>)
        ensures
            match byte {
                Some(ch) => has_byte_at(self@.source, self@.position, ch),
                None => self@.position == self@.source.len(),
            },
    {
        proof {
            use_type_invariant(self);
        }
        if self.cursor < self.source.len() {
            Some(self.source[self.cursor])
        } else {
            None
        }
    }

    /// Whether the scanner stands at the end of its source.
    pub fn finished(&self) -> (done: bool)
        ensures
            done == (self@.position == self@.source.len()),
            0 <= self@.position <= self@.source.len(),
    {
        proof {
            use_type_invariant(self);
        }
        self.cursor == self.source.len()
    }

    /// Whether `next` stands where the scanner stands.
    pub fn check(&self, next: &[u8]) -> (found: bool)
        ensures
            found == has_prefix_at(self@.source, self@.position, next@),
    {
        proof {
            use_type_invariant(self);
        }
        let length = self.source.len();
        if next.len() > length - self.cursor {
            return false;
        }
        let mut i: usize = 0;
        while i < next.len()
            invariant
                length == self.source@.len(),
                self.cursor + next@.len() <= length,
                i <= next@.len(),
                forall|k: int| 0 <= k < i ==> self.source@[self.cursor + k] == next@[k],
            decreases next@.len() - i,
        {
            if self.source[self.cursor + i] != next[i] {
                return false;
            }
            i += 1;
        }
        assert(self.source@.subrange(self.cursor as int, self.cursor + next@.len()) =~= next@);
        true
    }

    /// Goes behind `next` and the blanks after it, where `next` stands.
    pub fn skip(&mut self, next: &[u8]) -> (skipped: bool)
        ensures
            skipped == has_prefix_at(old(self)@.source, old(self)@.position, next@),
            moved(
                old(self)@,
                final(self)@,
                after_token(old(self)@.source, old(self)@.position, next@),
            ),
    {
        proof {
            use_type_invariant(&*self);
        }
        let skipped = self.skip_only(next);
        if skipped {
            self.skip_whitespace();
        }
        skipped
    }

    /// Goes behind `next`, where `next` stands.
    pub fn skip_only(&mut self, next: &[u8]) -> (skipped: bool)
        ensures
            skipped == has_prefix_at(old(self)@.source, old(self)@.position, next@),
            moved(
                old(self)@,
                final(self)@,
                if skipped {
                    old(self)@.position + next@.len()
                } else {
                    old(self)@.position
                },
            ),
    {
        proof {
            use_type_invariant(&*self);
            assert(self.source@.len() == self.source.len());
        }
        let skipped = self.check(next);
        if skipped {
            self.cursor += next.len();
        }
        skipped
    }

    /// Goes behind `next` and the blanks after it, or says what stands in
    /// its place.
    pub fn expect(&mut self, next: &[u8]) -> (result: Result<(), ParseError>)
        ensures
            match expect_at(old(self)@.source, old(self)@.position, next@) {
                Ok(to) => result is Ok && moved(old(self)@, final(self)@, to),
                Err(failure) => result matches Err(error) && error@ == failure && final(self)@
                    == old(self)@,
            },
    {
        proof {
            use_type_invariant(&*self);
        }
        if self.finished() {
            return Err(ParseError::UnexpectedEnd { expected: slice_to_vec(next) });
        }
        let next_byte = self.source[self.cursor];
        if !self.skip(next) {
            Err(ParseError::Unexpected { expected: slice_to_vec(next), found: next_byte })
        } else {
            Ok(())
        }
    }

    /// Whether `keyword` stands where the scanner stands, with no byte of
    /// an identifier behind it.
    pub fn check_keyword(&mut self, keyword: &[u8]) -> (found: bool)
        ensures
            found == has_keyword_at(old(self)@.source, old(self)@.position, keyword@),
            final(self)@ == old(self)@,
    {
        proof {
            use_type_invariant(&*self);
        }
        let length = self.source.len();
        if !self.check(keyword) {
            return false;
        }
        let end = self.cursor + keyword.len();
        end == length || !is_ident_char(self.source[end])
    }

    /// Goes behind `keyword` and the blanks after it, where `keyword`
    /// stands with no byte of an identifier behind it.
    pub fn skip_keyword(&mut self, keyword: &[u8]) -> (skipped: bool)
        ensures
            skipped == has_keyword_at(old(self)@.source, old(self)@.position, keyword@),
            moved(
                old(self)@,
                final(self)@,
                after_keyword(old(self)@.source, old(self)@.position, keyword@),
            ),
    {
        proof {
            use_type_invariant(&*self);
            assert(self.source@.len() == self.source.len());
        }
        let skipped = self.check_keyword(keyword);
        if skipped {
            self.cursor += keyword.len();
            self.skip_whitespace();
        }
        skipped
    }

    /// Goes behind all blanks, newlines and comments that stand here.
    pub fn skip_whitespace(&mut self)
        ensures
            moved(
                old(self)@,
                final(self)@,
                after_blank(old(self)@.source, old(self)@.position),
            ),
    {
        proof {
            use_type_invariant(&*self);
        }
        let ghost src = self.source@;
        let ghost start = self.cursor as int;
        let mark: [u8; 2] = [SLASH, SLASH];
        let newline: [u8; 1] = [NEWLINE];
        let length = self.source.len();
        let mut in_comment = false;
        loop
            invariant
                self.source@ == src,
                length == src.len(),
                start <= self.cursor <= src.len(),
                mark@ == comment_mark(),
                newline@ == seq![NEWLINE],
                after_blank(src, start) == if in_comment {
                    after_blank(src, line_end(src, self.cursor as int))
                } else {
                    after_blank(src, self.cursor as int)
                },
            ensures
                self.source@ == src,
                start <= self.cursor <= src.len(),
                self.cursor == after_blank(src, start),
            decreases src.len() - self.cursor,
        {
            let ghost here = self.cursor as int;
            proof {
                lemma_prefix_of_one(src, here, NEWLINE);
            }
            if self.skip_only(&mark) {
                proof {
                    assert(line_end(src, here + 1) == line_end(src, here + 2));
                }
                in_comment = true;
            } else if self.skip_only(&newline) {
                in_comment = false;
            } else {
                if self.finished() || !(in_comment || is_whitespace(self.source[self.cursor])) {
                    break ;
                }
                self.cursor += 1;
            }
        }
    }

    /// Goes behind the blanks that stand here and to the end of the line
    /// where a comment follows them; never behind a newline.
    pub fn skip_whitespace_in_line(&mut self)
        ensures
            moved(
                old(self)@,
                final(self)@,
                after_inline_blank(old(self)@.source, old(self)@.position),
            ),
    {
        proof {
            use_type_invariant(&*self);
        }
        let ghost src = self.source@;
        let ghost start = self.cursor as int;
        let mark: [u8; 2] = [SLASH, SLASH];
        let newline: [u8; 1] = [NEWLINE];
        let length = self.source.len();
        let mut in_comment = false;
        loop
            invariant
                self.source@ == src,
                length == src.len(),
                start <= self.cursor <= src.len(),
                mark@ == comment_mark(),
                newline@ == seq![NEWLINE],
                after_inline_blank(src, start) == if in_comment {
                    line_end(src, self.cursor as int)
                } else {
                    after_inline_blank(src, self.cursor as int)
                },
            ensures
                self.source@ == src,
                start <= self.cursor <= src.len(),
                self.cursor == after_inline_blank(src, start),
            decreases src.len() - self.cursor,
        {
            let ghost here = self.cursor as int;
            proof {
                lemma_prefix_of_one(src, here, NEWLINE);
            }
            if self.skip_only(&mark) {
                proof {
                    assert(line_end(src, here + 1) == line_end(src, here + 2));
                }
                in_comment = true;
            } else {
                if self.finished() || self.check(&newline) || !(in_comment || is_whitespace(
                    self.source[self.cursor],
                )) {
                    break ;
                }
                self.cursor += 1;
            }
        }
    }

    /// The name that stands here, if one does.
    pub fn check_attr(&mut self) -> (attr: Option<&'a [u8]>)
        ensures
            text_view(attr) == attr_at(old(self)@.source, old(self)@.position),
            final(self)@ == old(self)@,
    {
        proof {
            use_type_invariant(&*self);
        }
        let length = self.source.len();
        let mut end = self.cursor;
        while end < length && is_attr_char(self.source[end])
            invariant
                length == self.source@.len(),
                self.cursor <= end <= length,
                attr_end(self.source@, self.cursor as int) == attr_end(self.source@, end as int),
            decreases length - end,
        {
            end += 1;
        }
        if end == self.cursor {
            None
        } else {
            Some(slice_subrange(self.source, self.cursor, end))
        }
    }

    /// Takes the name that stands here, if one does, and goes behind it and
    /// the blanks after it.
    pub fn parse_attr(&mut self) -> (attr: Option<&'a [u8]>)
        ensures
            text_view(attr) == attr_at(old(self)@.source, old(self)@.position),
            moved(
                old(self)@,
                final(self)@,
                after_attr(old(self)@.source, old(self)@.position),
            ),
    {
        proof {
            use_type_invariant(&*self);
            lemma_run_end_bounds(self.source@, self.cursor as int, ByteClass::Attr);
            assert(self.source@.len() == self.source.len());
        }
        let attr = self.check_attr();
        if let Some(name) = attr {
            self.cursor += name.len();
            self.skip_whitespace();
        }
        attr
    }

    /// Takes the number that stands here and goes behind it. It is a minus
    /// sign, if any, and decimal digits; its value must lie between `min`
    /// and `max`, and it may have a sign only where `min` is negative.
    pub fn parse_number_only(&mut self, min: i64, max: u64) -> (result: Result<i128, ParseError>)
        ensures
            match number_at(old(self)@.source, old(self)@.position, min as int, max as int) {
                Ok((value, to)) => result == Ok::<i128, ParseError>(value as i128) && moved(
                    old(self)@,
                    final(self)@,
                    to,
                ),
                Err(failure) => result matches Err(error) && error@ == failure && final(self)@
                    == old(self)@,
            },
    {
        proof {
            use_type_invariant(&*self);
        }
        let ghost src = self.source@;
        let length = self.source.len();
        let negative = self.cursor < length && self.source[self.cursor] == MINUS;
        let start = if negative {
            self.cursor + 1
        } else {
            self.cursor
        };
        let mut end = start;
        let mut size: u128 = 0;
        let mut fits = true;
        while end < length && is_digit(self.source[end])
            invariant
                src == self.source@,
                length == src.len(),
                start <= end <= length,
                run_end(src, start as int, ByteClass::Digit) == run_end(
                    src,
                    end as int,
                    ByteClass::Digit,
                ),
                fits ==> size == decimal(src.subrange(start as int, end as int)) && size
                    <= 0x1_0000_0000_0000_0000,
                !fits ==> decimal(src.subrange(start as int, end as int))
                    > 0x1_0000_0000_0000_0000,
            decreases length - end,
        {
            let digit = (self.source[end] - DIGIT_ZERO) as u128;
            proof {
                let longer = src.subrange(start as int, end + 1);
                assert(longer.drop_last() =~= src.subrange(start as int, end as int));
            }
            if fits {
                if size > (0x1_0000_0000_0000_0000 - digit) / 10 {
                    fits = false;
                } else {
                    size = size * 10 + digit;
                }
            }
            end += 1;
        }
        if end == start || !fits || (negative && min >= 0) {
            return Err(ParseError::InvalidNumber);
        }
        let value: i128 = if negative {
            -(size as i128)
        } else {
            size as i128
        };
        if value < min as i128 || value > max as i128 {
            return Err(ParseError::InvalidNumber);
        }
        self.cursor = end;
        Ok(value)
    }

    /// Takes the string that stands here and goes behind its closing quote.
    /// The string is what stands between the quotes, backslashes included.
    pub fn parse_string_only(&mut self) -> (result: Result<&'a [u8], ParseError>)
        ensures
            match string_at(old(self)@.source, old(self)@.position) {
                Ok((text, to)) => result matches Ok(found) && found@ == text && moved(
                    old(self)@,
                    final(self)@,
                    to,
                ),
                Err(failure) => result matches Err(error) && error@ == failure && final(self)@
                    == old(self)@,
            },
    {
        proof {
            use_type_invariant(&*self);
        }
        let ghost src = self.source@;
        let length = self.source.len();
        if self.cursor == length {
            return Err(ParseError::UnclosedString);
        }
        if self.source[self.cursor] != QUOTE {
            return Err(ParseError::UnopenedString);
        }
        let open = self.cursor;
        let mut at = open + 1;
        let mut escaping = false;
        while at < length
            invariant
                src == self.source@,
                length == src.len(),
                open == self.cursor,
                open == old(self)@.position,
                src == old(self)@.source,
                has_byte_at(src, open as int, QUOTE),
                open < at <= length,
                closing_quote(src, open + 1, false) == closing_quote(src, at as int, escaping),
            decreases length - at,
        {
            let ch = self.source[at];
            if !escaping && ch == BACKSLASH {
                escaping = true;
            } else if !escaping && ch == QUOTE {
                let text = slice_subrange(self.source, open + 1, at);
                self.cursor = at + 1;
                return Ok(text);
            } else {
                escaping = false;
            }
            at += 1;
        }
        Err(ParseError::UnclosedString)
    }

    /// Takes `true` or `false` and goes behind it and the blanks after it.
    pub fn parse_bool_only(&mut self) -> (result: Result<bool, ParseError>)
        ensures
            match bool_at(old(self)@.source, old(self)@.position) {
                Ok((value, to)) => result == Ok::<bool, ParseError>(value) && moved(
                    old(self)@,
                    final(self)@,
                    to,
                ),
                Err(failure) => result matches Err(error) && error@ == failure && final(self)@
                    == old(self)@,
            },
    {
        let yes = true_word();
        let no = false_word();
        if self.skip_keyword(&yes) {
            Ok(true)
        } else if self.skip_keyword(&no) {
            Ok(false)
        } else {
            Err(ParseError::InvalidBool)
        }
    }

    /// Whether a line of a stave ends here; goes behind the newline or
    /// semicolon that ends it.
    pub fn skip_end_of_stave(&mut self) -> (ended: bool)
        ensures
            ended == at_stave_break(old(self)@.source, old(self)@.position),
            moved(
                old(self)@,
                final(self)@,
                after_stave_break(old(self)@.source, old(self)@.position),
            ),
    {
        proof {
            use_type_invariant(&*self);
            lemma_prefix_of_one(self.source@, self.cursor as int, NEWLINE);
            lemma_prefix_of_one(self.source@, self.cursor as int, SEMICOLON);
            lemma_prefix_of_one(self.source@, self.cursor as int, CLOSE_BRACE);
        }
        let newline: [u8; 1] = [NEWLINE];
        let semicolon: [u8; 1] = [SEMICOLON];
        let brace: [u8; 1] = [CLOSE_BRACE];
        assert(newline@ =~= seq![NEWLINE]);
        assert(semicolon@ =~= seq![SEMICOLON]);
        assert(brace@ =~= seq![CLOSE_BRACE]);
        self.finished() || self.skip_only(&newline) || self.skip_only(&semicolon) || self.check(
            &brace,
        )
    }

    /// Goes behind the line of a stave that the scanner is in.
    pub fn skip_stave_contents(&mut self)
        ensures
            moved(
                old(self)@,
                final(self)@,
                stave_line_end(old(self)@.source, old(self)@.position),
            ),
    {
        proof {
            use_type_invariant(&*self);
        }
        let ghost src = self.source@;
        let ghost start = self.cursor as int;
        let length = self.source.len();
        loop
            invariant_except_break
                run_end(src, start, ByteClass::InStave) == run_end(
                    src,
                    self.cursor as int,
                    ByteClass::InStave,
                ),
            invariant
                self.source@ == src,
                length == src.len(),
                start <= self.cursor <= src.len(),
            ensures
                self.source@ == src,
                start <= self.cursor <= src.len(),
                self.cursor == stave_line_end(src, start),
            decreases src.len() - self.cursor,
        {
            if self.skip_end_of_stave() {
                break ;
            }
            self.cursor += 1;
        }
    }
}

} // verus!
