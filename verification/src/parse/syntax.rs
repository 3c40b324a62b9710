//! The notation: what stands in a source at a position, as a function of
//! the bytes. Each function gives what is read and the position behind
//! it, or the first error.

use crate::parse::bytes::{
    word_beats, word_channel, word_composer, word_drums, word_octave, word_piece, word_play,
    word_program, word_tempo, word_title, word_voice, word_volume, ByteClass, BAR, CLOSE_BRACE,
    COLON, COMMA, NEWLINE, OPEN_BRACE, SEMICOLON,
};
use crate::parse::error::ParseFailure;
use crate::parse::scan::{
    after_attr, after_blank, after_inline_blank, after_stave_break, at_stave_break, attr_at,
    bool_at, expect_at, has_byte_at, has_keyword_at, lemma_after_blank_bounds,
    lemma_after_inline_blank_bounds, lemma_closing_quote_bounds, lemma_run_end_bounds,
    number_at, stave_line_end, string_at,
};
use crate::parse::tree::{
    GrandStaveView, ParseTreeView, PieceView, PlayView, StaveView, VoiceView,
};
use vstd::prelude::*;

verus! {

/// The least number of octaves by which a voice can be moved: the
/// semitones must fit in eight bits.
pub const MIN_OCTAVE: i64 = -10;

/// The greatest number of octaves by which a voice can be moved.
pub const MAX_OCTAVE: u64 = 10;

/// The position behind the body of a stave that begins at `pos`. The body
/// runs to the end of its line, and on through each next line that begins
/// with `|`.
pub open spec fn stave_end(src: Seq<u8>, pos: int) -> int
    decreases src.len() - pos,
{
    let line = after_inline_blank(src, stave_line_end(src, pos));
    if has_byte_at(src, line, BAR) {
        proof {
            lemma_stave_line_bounds(src, pos);
        }
        stave_end(src, line + 1)
    } else {
        line
    }
}

/// The position behind the lead-in of a stave at `pos`: a name, if any, a
/// colon and `|`, with blanks between them. `None` where no colon stands
/// behind the name, or no `|` behind the colon.
pub open spec fn stave_intro_end(src: Seq<u8>, pos: int) -> Option<int> {
    let colon = after_attr(src, pos);
    let bar = after_blank(src, colon + 1);
    if has_byte_at(src, colon, COLON) && has_byte_at(src, bar, BAR) {
        Some(bar + 1)
    } else {
        None
    }
}

/// The error for what stands at `pos` in place of the lead-in of a stave,
/// if it is one: `unled` where a colon is not followed by `|`, and a name
/// without a colon. A place without name and colon is none.
pub open spec fn stave_intro_failure(src: Seq<u8>, pos: int, unled: ParseFailure) -> Option<
    ParseFailure,
> {
    if has_byte_at(src, after_attr(src, pos), COLON) {
        Some(unled)
    } else {
        match attr_at(src, pos) {
            Some(name) => Some(ParseFailure::MissingValue { name }),
            None => None,
        }
    }
}

/// One more stave of a grand stave at `pos`, and the position behind it;
/// or no stave, and the position behind the end of the grand stave. The
/// grand stave ends at the end of the source, a newline, a semicolon or a
/// closing brace, or where no name stands and no colon.
pub open spec fn stave_item(src: Seq<u8>, pos: int) -> Result<
    (Option<StaveView>, int),
    ParseFailure,
> {
    if at_stave_break(src, pos) {
        Ok((None, after_blank(src, after_stave_break(src, pos))))
    } else {
        match stave_intro_end(src, pos) {
            Some(body) => Ok(
                (
                    Some(StaveView { prefix: attr_at(src, pos) }),
                    stave_end(src, after_inline_blank(src, body)),
                ),
            ),
            None => match stave_intro_failure(src, pos, ParseFailure::StaveAttribute) {
                Some(failure) => Err(failure),
                None => Ok((None, pos)),
            },
        }
    }
}

/// The grand stave that holds `staves` and the staves from `pos` on.
pub open spec fn more_staves(staves: Seq<StaveView>, src: Seq<u8>, pos: int) -> Result<
    (GrandStaveView, int),
    ParseFailure,
>
    decreases src.len() - pos,
{
    match stave_item(src, pos) {
        Err(failure) => Err(failure),
        Ok((None, end)) => Ok((GrandStaveView { staves }, end)),
        Ok((Some(stave), next)) => {
            proof {
                lemma_stave_item_bounds(src, pos);
            }
            more_staves(staves.push(stave), src, next)
        },
    }
}

/// The grand stave whose first stave has the label `first` and a body that
/// begins at `pos`.
pub open spec fn grand_stave_at(first: Option<Seq<u8>>, src: Seq<u8>, pos: int) -> Result<
    (GrandStaveView, int),
    ParseFailure,
> {
    more_staves(
        seq![StaveView { prefix: first }],
        src,
        stave_end(src, after_inline_blank(src, pos)),
    )
}

/// One more grand stave of a play at `pos`, and the position behind it; or
/// none, and the position behind the blanks at the end of the play. A grand
/// stave begins with the lead-in of its first stave; the play ends where no
/// name stands and no colon.
pub open spec fn play_item(src: Seq<u8>, pos: int) -> Result<
    (Option<GrandStaveView>, int),
    ParseFailure,
> {
    match stave_intro_end(src, pos) {
        Some(body) => match grand_stave_at(attr_at(src, pos), src, body) {
            Ok((grand_stave, next)) => Ok((Some(grand_stave), next)),
            Err(failure) => Err(failure),
        },
        None => match stave_intro_failure(src, pos, ParseFailure::PlayAttribute) {
            Some(failure) => Err(failure),
            None => Ok((None, after_blank(src, pos))),
        },
    }
}

/// The play of the given name that holds `grand_staves` and the grand
/// staves from `pos` on.
pub open spec fn play_body(
    name: Option<Seq<u8>>,
    grand_staves: Seq<GrandStaveView>,
    src: Seq<u8>,
    pos: int,
) -> Result<(PlayView, int), ParseFailure>
    decreases src.len() - pos,
{
    match play_item(src, pos) {
        Err(failure) => Err(failure),
        Ok((None, end)) => Ok((PlayView { name, grand_staves }, end)),
        Ok((Some(grand_stave), next)) => {
            proof {
                lemma_play_item_bounds(src, pos);
            }
            play_body(name, grand_staves.push(grand_stave), src, next)
        },
    }
}

/// The voice with the attribute `key` set to the value that stands at
/// `pos`. An octave is kept as semitones.
pub open spec fn voice_field(voice: VoiceView, key: Seq<u8>, src: Seq<u8>, pos: int) -> Result<
    (VoiceView, int),
    ParseFailure,
> {
    if key == word_program() {
        match number_at(src, pos, 0, u8::MAX as int) {
            Ok((value, end)) => Ok((VoiceView { program: Some(value as u8), ..voice }, end)),
            Err(failure) => Err(failure),
        }
    } else if key == word_channel() {
        match number_at(src, pos, 0, u8::MAX as int) {
            Ok((value, end)) => Ok((VoiceView { channel: Some(value as u8), ..voice }, end)),
            Err(failure) => Err(failure),
        }
    } else if key == word_octave() {
        match number_at(src, pos, MIN_OCTAVE as int, MAX_OCTAVE as int) {
            Ok((value, end)) => Ok(
                (VoiceView { transpose: Some((value * 12) as i8), ..voice }, end),
            ),
            Err(failure) => Err(failure),
        }
    } else if key == word_volume() {
        match number_at(src, pos, 0, u8::MAX as int) {
            Ok((value, end)) => Ok((VoiceView { volume: Some(value as u8), ..voice }, end)),
            Err(failure) => Err(failure),
        }
    } else if key == word_drums() {
        match bool_at(src, pos) {
            Ok((value, end)) => Ok((VoiceView { drums: Some(value), ..voice }, end)),
            Err(failure) => Err(failure),
        }
    } else {
        Err(ParseFailure::InvalidAttributeName)
    }
}

/// Whether a comma, a newline or a semicolon stands at `pos`.
pub open spec fn has_separator_at(src: Seq<u8>, pos: int) -> bool {
    has_byte_at(src, pos, COMMA) || has_byte_at(src, pos, NEWLINE) || has_byte_at(
        src,
        pos,
        SEMICOLON,
    )
}

/// The voice with the attribute `key` set, where a colon and the value
/// stand at `pos`, and the position behind the blanks that follow in the
/// line.
pub open spec fn voice_attribute(voice: VoiceView, key: Seq<u8>, src: Seq<u8>, pos: int) -> Result<
    (VoiceView, int),
    ParseFailure,
> {
    match expect_at(src, pos, seq![COLON]) {
        Err(failure) => Err(failure),
        Ok(value) => match voice_field(voice, key, src, value) {
            Err(failure) => Err(failure),
            Ok((next, end)) => Ok((next, after_inline_blank(src, end))),
        },
    }
}

/// The voice with one more attribute, which stands at `pos`, the position
/// behind it, and whether a separator stood there, so that more may follow;
/// the voice as it is where no name stands at `pos`. An attribute is a
/// name, a colon and a value.
pub open spec fn voice_item(voice: VoiceView, src: Seq<u8>, pos: int) -> Result<
    (VoiceView, int, bool),
    ParseFailure,
> {
    match attr_at(src, pos) {
        None => Ok((voice, pos, false)),
        Some(key) => match voice_attribute(voice, key, src, after_attr(src, pos)) {
            Err(failure) => Err(failure),
            Ok((next, stop)) => if has_separator_at(src, stop) {
                Ok((next, after_blank(src, stop + 1), true))
            } else {
                Ok((next, stop, false))
            },
        },
    }
}

/// The voice with the attributes that stand from `pos` on. A later value
/// of an attribute replaces an earlier one.
pub open spec fn voice_body(voice: VoiceView, src: Seq<u8>, pos: int) -> Result<
    (VoiceView, int),
    ParseFailure,
>
    decreases src.len() - pos,
{
    match voice_item(voice, src, pos) {
        Err(failure) => Err(failure),
        Ok((next, end, more)) => if more {
            proof {
                lemma_voice_item_bounds(voice, src, pos);
            }
            voice_body(next, src, end)
        } else {
            Ok((next, end))
        },
    }
}

/// The piece with the attribute `key` set to the value that stands at
/// `pos`.
pub open spec fn piece_field(piece: PieceView, key: Seq<u8>, src: Seq<u8>, pos: int) -> Result<
    (PieceView, int),
    ParseFailure,
> {
    if key == word_tempo() {
        match number_at(src, pos, 0, u64::MAX as int) {
            Ok((value, end)) => Ok((PieceView { tempo: Some(value as u64), ..piece }, end)),
            Err(failure) => Err(failure),
        }
    } else if key == word_beats() {
        match number_at(src, pos, 0, u64::MAX as int) {
            Ok((value, end)) => Ok((PieceView { beats: Some(value as u64), ..piece }, end)),
            Err(failure) => Err(failure),
        }
    } else if key == word_title() {
        match string_at(src, pos) {
            Ok((text, end)) => Ok((PieceView { title: Some(text), ..piece }, end)),
            Err(failure) => Err(failure),
        }
    } else if key == word_composer() {
        match string_at(src, pos) {
            Ok((text, end)) => Ok((PieceView { composer: Some(text), ..piece }, end)),
            Err(failure) => Err(failure),
        }
    } else {
        Err(ParseFailure::InvalidAttributeName)
    }
}

/// The position behind the end of an attribute of a piece: behind a
/// separator and the blanks after it, or at the end of the source or a
/// closing brace. An error at anything else.
pub open spec fn attribute_end(src: Seq<u8>, pos: int) -> Result<int, ParseFailure> {
    if pos >= src.len() || pos < 0 {
        Ok(pos)
    } else if has_separator_at(src, pos) {
        Ok(after_blank(src, pos + 1))
    } else if src[pos] == CLOSE_BRACE {
        Ok(pos)
    } else {
        Err(ParseFailure::UnterminatedAttribute)
    }
}

/// The piece with the attribute `key` set, where a colon, the value and the
/// end of the attribute stand at `pos`.
pub open spec fn piece_attribute(piece: PieceView, key: Seq<u8>, src: Seq<u8>, pos: int) -> Result<
    (PieceView, int),
    ParseFailure,
> {
    match expect_at(src, pos, seq![COLON]) {
        Err(failure) => Err(failure),
        Ok(value) => match piece_field(piece, key, src, value) {
            Err(failure) => Err(failure),
            Ok((next, end)) => match attribute_end(src, after_inline_blank(src, end)) {
                Err(failure) => Err(failure),
                Ok(stop) => Ok((next, stop)),
            },
        },
    }
}

/// The play block that stands behind the word `play`, at `pos`: a name, if
/// any, and the grand staves between braces.
pub open spec fn play_block(src: Seq<u8>, pos: int) -> Result<(PlayView, int), ParseFailure> {
    match expect_at(src, after_attr(src, pos), seq![OPEN_BRACE]) {
        Err(failure) => Err(failure),
        Ok(inner) => match play_body(attr_at(src, pos), Seq::empty(), src, inner) {
            Err(failure) => Err(failure),
            Ok((play, end)) => match expect_at(src, end, seq![CLOSE_BRACE]) {
                Err(failure) => Err(failure),
                Ok(next) => Ok((play, next)),
            },
        },
    }
}

/// The voice block that stands behind the word `voice`, at `pos`: a name,
/// if any, and the attributes between braces.
pub open spec fn voice_block(src: Seq<u8>, pos: int) -> Result<(VoiceView, int), ParseFailure> {
    match expect_at(src, after_attr(src, pos), seq![OPEN_BRACE]) {
        Err(failure) => Err(failure),
        Ok(inner) => match voice_body(VoiceView::named(attr_at(src, pos)), src, inner) {
            Err(failure) => Err(failure),
            Ok((voice, end)) => match expect_at(src, end, seq![CLOSE_BRACE]) {
                Err(failure) => Err(failure),
                Ok(next) => Ok((voice, next)),
            },
        },
    }
}

/// The piece with what is left at `pos` when no block or attribute
/// follows: nothing at the end of the source or a closing brace, else one
/// more play without a name.
pub open spec fn piece_tail(piece: PieceView, src: Seq<u8>, pos: int) -> Result<
    (PieceView, int),
    ParseFailure,
> {
    let rest = after_blank(src, pos);
    if rest >= src.len() || rest < 0 || src[rest] == CLOSE_BRACE {
        Ok((piece, rest))
    } else {
        match play_body(None, Seq::empty(), src, rest) {
            Err(failure) => Err(failure),
            Ok((play, end)) => Ok(
                (PieceView { plays: piece.plays.push(play), ..piece }, after_blank(src, end)),
            ),
        }
    }
}

/// The piece with one more item, which stands at `pos`, the position behind
/// it, and whether more may follow. The item is a play block, a voice block
/// or an attribute; where none of these stands, it is what is left of the
/// piece, and nothing follows.
pub open spec fn piece_item(piece: PieceView, src: Seq<u8>, pos: int) -> Result<
    (PieceView, int, bool),
    ParseFailure,
> {
    if has_keyword_at(src, pos, word_play()) {
        match play_block(src, after_blank(src, pos + word_play().len())) {
            Err(failure) => Err(failure),
            Ok((play, next)) => Ok(
                (PieceView { plays: piece.plays.push(play), ..piece }, next, true),
            ),
        }
    } else if has_keyword_at(src, pos, word_voice()) {
        match voice_block(src, after_blank(src, pos + word_voice().len())) {
            Err(failure) => Err(failure),
            Ok((voice, next)) => Ok(
                (PieceView { voices: piece.voices.push(voice), ..piece }, next, true),
            ),
        }
    } else {
        match attr_at(src, pos) {
            Some(key) => match piece_attribute(piece, key, src, after_attr(src, pos)) {
                Err(failure) => Err(failure),
                Ok((next, stop)) => Ok((next, stop, true)),
            },
            None => match piece_tail(piece, src, pos) {
                Err(failure) => Err(failure),
                Ok((next, end)) => Ok((next, end, false)),
            },
        }
    }
}

/// The piece that holds what `piece` holds and what stands from `pos` on:
/// play blocks, voice blocks and attributes, in any order, and at the end
/// what is left.
pub open spec fn piece_body(piece: PieceView, src: Seq<u8>, pos: int) -> Result<
    (PieceView, int),
    ParseFailure,
>
    decreases src.len() - pos,
{
    match piece_item(piece, src, pos) {
        Err(failure) => Err(failure),
        Ok((next, end, more)) => if more {
            proof {
                lemma_piece_item_bounds(piece, src, pos);
            }
            piece_body(next, src, end)
        } else {
            Ok((next, end))
        },
    }
}

/// The piece at `pos`: the word `piece` and a body between braces, or a
/// body with nothing around it.
pub open spec fn piece_at(src: Seq<u8>, pos: int) -> Result<(PieceView, int), ParseFailure> {
    if has_keyword_at(src, pos, word_piece()) {
        match expect_at(src, after_blank(src, pos + word_piece().len()), seq![OPEN_BRACE]) {
            Err(failure) => Err(failure),
            Ok(inner) => match piece_body(PieceView::empty(), src, inner) {
                Err(failure) => Err(failure),
                Ok((piece, end)) => match expect_at(src, end, seq![CLOSE_BRACE]) {
                    Err(failure) => Err(failure),
                    Ok(next) => Ok((piece, next)),
                },
            },
        }
    } else {
        piece_body(PieceView::empty(), src, pos)
    }
}

/// The tree of the pieces in `done` and of those from `pos` on: piece
/// after piece to the end of the source. Where a piece ends before the end
/// of the source at the position where it began, no piece can begin there.
pub open spec fn pieces_from(done: Seq<PieceView>, src: Seq<u8>, pos: int) -> Result<
    ParseTreeView,
    ParseFailure,
>
    decreases src.len() - pos,
{
    match piece_at(src, pos) {
        Err(failure) => Err(failure),
        Ok((piece, next)) => if next >= src.len() {
            Ok(ParseTreeView { pieces: done.push(piece) })
        } else if next <= pos {
            Err(ParseFailure::StrayByte { found: src[next] })
        } else {
            pieces_from(done.push(piece), src, next)
        },
    }
}

/// The tree that a source stands for, or the first error in it.
pub open spec fn parse_tree(src: Seq<u8>) -> Result<ParseTreeView, ParseFailure> {
    pieces_from(Seq::empty(), src, after_blank(src, 0))
}

/// The line of a stave, and the blanks behind it, end at or behind their
/// start and within the source.
pub proof fn lemma_stave_line_bounds(src: Seq<u8>, pos: int)
    ensures
        pos <= after_inline_blank(src, stave_line_end(src, pos)),
        pos <= src.len() ==> after_inline_blank(src, stave_line_end(src, pos)) <= src.len(),
{
    lemma_run_end_bounds(src, pos, ByteClass::InStave);
    lemma_after_inline_blank_bounds(src, stave_line_end(src, pos));
}

/// The body of a stave ends at or behind its start and within the source.
pub proof fn lemma_stave_end_bounds(src: Seq<u8>, pos: int)
    ensures
        pos <= stave_end(src, pos),
        pos <= src.len() ==> stave_end(src, pos) <= src.len(),
    decreases src.len() - pos,
{
    lemma_stave_line_bounds(src, pos);
    let line = after_inline_blank(src, stave_line_end(src, pos));
    if has_byte_at(src, line, BAR) {
        lemma_stave_end_bounds(src, line + 1);
    }
}

/// A name and the blanks behind it end at or behind their start and within
/// the source; behind it where there is a name.
pub proof fn lemma_attr_intro_bounds(src: Seq<u8>, pos: int)
    ensures
        pos <= after_attr(src, pos),
        attr_at(src, pos) is Some ==> pos < after_attr(src, pos),
        pos <= src.len() ==> after_attr(src, pos) <= src.len(),
{
    lemma_run_end_bounds(src, pos, ByteClass::Attr);
    lemma_after_blank_bounds(src, crate::parse::scan::attr_end(src, pos));
}

/// The lead-in of a stave ends behind its start and within the source.
pub proof fn lemma_stave_intro_bounds(src: Seq<u8>, pos: int)
    ensures
        stave_intro_end(src, pos) matches Some(body) ==> pos < body <= src.len(),
{
    lemma_attr_intro_bounds(src, pos);
    lemma_after_blank_bounds(src, after_attr(src, pos) + 1);
}

/// One more stave ends behind its start; the end of a grand stave lies at
/// or behind its start; both lie within the source.
pub proof fn lemma_stave_item_bounds(src: Seq<u8>, pos: int)
    ensures
        stave_item(src, pos) matches Ok((Some(_), end)) ==> pos < end <= src.len(),
        pos <= src.len() ==> (stave_item(src, pos) matches Ok((_, end)) ==> pos <= end
            <= src.len()),
{
    lemma_after_blank_bounds(src, after_stave_break(src, pos));
    lemma_stave_intro_bounds(src, pos);
    match stave_intro_end(src, pos) {
        Some(body) => {
            lemma_after_inline_blank_bounds(src, body);
            lemma_stave_end_bounds(src, after_inline_blank(src, body));
        },
        None => {},
    }
}

/// More staves end at or behind their start and within the source.
pub proof fn lemma_more_staves_bounds(staves: Seq<StaveView>, src: Seq<u8>, pos: int)
    requires
        pos <= src.len(),
    ensures
        more_staves(staves, src, pos) matches Ok((_, end)) ==> pos <= end <= src.len(),
    decreases src.len() - pos,
{
    lemma_stave_item_bounds(src, pos);
    match stave_item(src, pos) {
        Ok((Some(stave), next)) => {
            lemma_more_staves_bounds(staves.push(stave), src, next);
        },
        _ => {},
    }
}

/// A grand stave ends at or behind its start and within the source.
pub proof fn lemma_grand_stave_bounds(first: Option<Seq<u8>>, src: Seq<u8>, pos: int)
    requires
        pos <= src.len(),
    ensures
        grand_stave_at(first, src, pos) matches Ok((_, end)) ==> pos <= end <= src.len(),
{
    lemma_after_inline_blank_bounds(src, pos);
    lemma_stave_end_bounds(src, after_inline_blank(src, pos));
    lemma_more_staves_bounds(
        seq![StaveView { prefix: first }],
        src,
        stave_end(src, after_inline_blank(src, pos)),
    );
}

/// One more grand stave ends behind its start; the end of a play lies at or
/// behind its start; both lie within the source.
pub proof fn lemma_play_item_bounds(src: Seq<u8>, pos: int)
    ensures
        play_item(src, pos) matches Ok((Some(_), end)) ==> pos < end <= src.len(),
        pos <= src.len() ==> (play_item(src, pos) matches Ok((_, end)) ==> pos <= end
            <= src.len()),
{
    lemma_after_blank_bounds(src, pos);
    lemma_stave_intro_bounds(src, pos);
    match stave_intro_end(src, pos) {
        Some(body) => {
            lemma_grand_stave_bounds(attr_at(src, pos), src, body);
        },
        None => {},
    }
}

/// The body of a play ends at or behind its start and within the source.
pub proof fn lemma_play_body_bounds(
    name: Option<Seq<u8>>,
    grand_staves: Seq<GrandStaveView>,
    src: Seq<u8>,
    pos: int,
)
    requires
        pos <= src.len(),
    ensures
        play_body(name, grand_staves, src, pos) matches Ok((_, end)) ==> pos <= end <= src.len(),
    decreases src.len() - pos,
{
    lemma_play_item_bounds(src, pos);
    match play_item(src, pos) {
        Ok((Some(grand_stave), next)) => {
            lemma_play_body_bounds(name, grand_staves.push(grand_stave), src, next);
        },
        _ => {},
    }
}

/// An expected token ends behind its start and within the source.
pub proof fn lemma_expect_bounds(src: Seq<u8>, pos: int, token: Seq<u8>)
    ensures
        expect_at(src, pos, token) matches Ok(end) ==> pos + token.len() <= end <= src.len(),
{
    lemma_after_blank_bounds(src, pos + token.len());
}

/// A number ends at or behind its start and within the source.
pub proof fn lemma_number_bounds(src: Seq<u8>, pos: int, min: int, max: int)
    requires
        pos <= src.len(),
    ensures
        number_at(src, pos, min, max) matches Ok((_, end)) ==> pos <= end <= src.len(),
{
    lemma_run_end_bounds(src, crate::parse::scan::digits_start(src, pos), ByteClass::Digit);
}

/// A string ends behind its start and within the source.
pub proof fn lemma_string_bounds(src: Seq<u8>, pos: int)
    ensures
        string_at(src, pos) matches Ok((_, end)) ==> pos < end <= src.len(),
{
    lemma_closing_quote_bounds(src, pos + 1, false);
}

/// A truth value ends at or behind its start and within the source.
pub proof fn lemma_bool_bounds(src: Seq<u8>, pos: int)
    ensures
        bool_at(src, pos) matches Ok((_, end)) ==> pos <= end <= src.len(),
{
    lemma_after_blank_bounds(src, pos + crate::parse::bytes::word_true().len());
    lemma_after_blank_bounds(src, pos + crate::parse::bytes::word_false().len());
}

/// The value of an attribute of a voice ends at or behind its start and
/// within the source.
pub proof fn lemma_voice_field_bounds(voice: VoiceView, key: Seq<u8>, src: Seq<u8>, pos: int)
    requires
        pos <= src.len(),
    ensures
        voice_field(voice, key, src, pos) matches Ok((_, end)) ==> pos <= end <= src.len(),
{
    lemma_number_bounds(src, pos, 0, u8::MAX as int);
    lemma_number_bounds(src, pos, MIN_OCTAVE as int, MAX_OCTAVE as int);
    lemma_bool_bounds(src, pos);
}

/// The value of an attribute of a piece ends at or behind its start and
/// within the source.
pub proof fn lemma_piece_field_bounds(piece: PieceView, key: Seq<u8>, src: Seq<u8>, pos: int)
    requires
        pos <= src.len(),
    ensures
        piece_field(piece, key, src, pos) matches Ok((_, end)) ==> pos <= end <= src.len(),
{
    lemma_number_bounds(src, pos, 0, u64::MAX as int);
    lemma_string_bounds(src, pos);
}

/// The end of an attribute of a piece lies at or behind its start and
/// within the source.
pub proof fn lemma_attribute_end_bounds(src: Seq<u8>, pos: int)
    requires
        pos <= src.len(),
    ensures
        attribute_end(src, pos) matches Ok(end) ==> pos <= end <= src.len(),
{
    lemma_after_blank_bounds(src, pos + 1);
}

/// An attribute of a voice ends behind its start and within the source.
pub proof fn lemma_voice_attribute_bounds(voice: VoiceView, key: Seq<u8>, src: Seq<u8>, pos: int)
    ensures
        voice_attribute(voice, key, src, pos) matches Ok((_, end)) ==> pos < end <= src.len(),
{
    lemma_expect_bounds(src, pos, seq![COLON]);
    match expect_at(src, pos, seq![COLON]) {
        Err(_) => {},
        Ok(value) => {
            lemma_voice_field_bounds(voice, key, src, value);
            match voice_field(voice, key, src, value) {
                Err(_) => {},
                Ok((_, end)) => {
                    lemma_after_inline_blank_bounds(src, end);
                },
            }
        },
    }
}

/// One more attribute of a voice ends behind its start; the end of the
/// attributes lies at or behind their start; both lie within the source.
pub proof fn lemma_voice_item_bounds(voice: VoiceView, src: Seq<u8>, pos: int)
    ensures
        voice_item(voice, src, pos) matches Ok((_, end, true)) ==> pos < end <= src.len(),
        pos <= src.len() ==> (voice_item(voice, src, pos) matches Ok((_, end, _)) ==> pos <= end
            <= src.len()),
{
    lemma_attr_intro_bounds(src, pos);
    match attr_at(src, pos) {
        None => {},
        Some(key) => {
            lemma_voice_attribute_bounds(voice, key, src, after_attr(src, pos));
            match voice_attribute(voice, key, src, after_attr(src, pos)) {
                Err(_) => {},
                Ok((_, stop)) => {
                    lemma_after_blank_bounds(src, stop + 1);
                },
            }
        },
    }
}

/// The attributes of a voice end at or behind their start and within the
/// source.
pub proof fn lemma_voice_body_bounds(voice: VoiceView, src: Seq<u8>, pos: int)
    requires
        pos <= src.len(),
    ensures
        voice_body(voice, src, pos) matches Ok((_, end)) ==> pos <= end <= src.len(),
    decreases src.len() - pos,
{
    lemma_voice_item_bounds(voice, src, pos);
    match voice_item(voice, src, pos) {
        Ok((next, end, true)) => {
            lemma_voice_body_bounds(next, src, end);
        },
        _ => {},
    }
}

/// A play block ends behind its start and within the source.
pub proof fn lemma_play_block_bounds(src: Seq<u8>, pos: int)
    requires
        pos <= src.len(),
    ensures
        play_block(src, pos) matches Ok((_, end)) ==> pos < end <= src.len(),
{
    lemma_attr_intro_bounds(src, pos);
    lemma_expect_bounds(src, after_attr(src, pos), seq![OPEN_BRACE]);
    match expect_at(src, after_attr(src, pos), seq![OPEN_BRACE]) {
        Err(_) => {},
        Ok(inner) => {
            lemma_play_body_bounds(attr_at(src, pos), Seq::empty(), src, inner);
            match play_body(attr_at(src, pos), Seq::empty(), src, inner) {
                Err(_) => {},
                Ok((_, end)) => {
                    lemma_expect_bounds(src, end, seq![CLOSE_BRACE]);
                },
            }
        },
    }
}

/// A voice block ends behind its start and within the source.
pub proof fn lemma_voice_block_bounds(src: Seq<u8>, pos: int)
    requires
        pos <= src.len(),
    ensures
        voice_block(src, pos) matches Ok((_, end)) ==> pos < end <= src.len(),
{
    lemma_attr_intro_bounds(src, pos);
    lemma_expect_bounds(src, after_attr(src, pos), seq![OPEN_BRACE]);
    match expect_at(src, after_attr(src, pos), seq![OPEN_BRACE]) {
        Err(_) => {},
        Ok(inner) => {
            lemma_voice_body_bounds(VoiceView::named(attr_at(src, pos)), src, inner);
            match voice_body(VoiceView::named(attr_at(src, pos)), src, inner) {
                Err(_) => {},
                Ok((_, end)) => {
                    lemma_expect_bounds(src, end, seq![CLOSE_BRACE]);
                },
            }
        },
    }
}

/// An attribute of a piece ends behind its start and within the source.
pub proof fn lemma_piece_attribute_bounds(piece: PieceView, key: Seq<u8>, src: Seq<u8>, pos: int)
    ensures
        piece_attribute(piece, key, src, pos) matches Ok((_, end)) ==> pos < end <= src.len(),
{
    lemma_expect_bounds(src, pos, seq![COLON]);
    match expect_at(src, pos, seq![COLON]) {
        Err(_) => {},
        Ok(value) => {
            lemma_piece_field_bounds(piece, key, src, value);
            match piece_field(piece, key, src, value) {
                Err(_) => {},
                Ok((_, end)) => {
                    lemma_after_inline_blank_bounds(src, end);
                    lemma_attribute_end_bounds(src, after_inline_blank(src, end));
                },
            }
        },
    }
}

/// What is left of a piece ends at or behind its start and within the
/// source.
pub proof fn lemma_piece_tail_bounds(piece: PieceView, src: Seq<u8>, pos: int)
    requires
        pos <= src.len(),
    ensures
        piece_tail(piece, src, pos) matches Ok((_, end)) ==> pos <= end <= src.len(),
{
    let rest = after_blank(src, pos);
    lemma_after_blank_bounds(src, pos);
    if 0 <= rest < src.len() && src[rest] != CLOSE_BRACE {
        lemma_play_body_bounds(None, Seq::empty(), src, rest);
        match play_body(None, Seq::empty(), src, rest) {
            Err(_) => {},
            Ok((_, end)) => {
                lemma_after_blank_bounds(src, end);
            },
        }
    }
}

/// One more item of a piece ends behind its start where more may follow,
/// else at or behind it; both within the source.
pub proof fn lemma_piece_item_bounds(piece: PieceView, src: Seq<u8>, pos: int)
    ensures
        piece_item(piece, src, pos) matches Ok((_, end, true)) ==> pos < end <= src.len(),
        pos <= src.len() ==> (piece_item(piece, src, pos) matches Ok((_, end, _)) ==> pos <= end
            <= src.len()),
{
    if has_keyword_at(src, pos, word_play()) {
        lemma_after_blank_bounds(src, pos + word_play().len());
        lemma_play_block_bounds(src, after_blank(src, pos + word_play().len()));
    } else if has_keyword_at(src, pos, word_voice()) {
        lemma_after_blank_bounds(src, pos + word_voice().len());
        lemma_voice_block_bounds(src, after_blank(src, pos + word_voice().len()));
    } else {
        lemma_attr_intro_bounds(src, pos);
        match attr_at(src, pos) {
            Some(key) => {
                lemma_piece_attribute_bounds(piece, key, src, after_attr(src, pos));
            },
            None => {
                if pos <= src.len() {
                    lemma_piece_tail_bounds(piece, src, pos);
                }
            },
        }
    }
}

/// The body of a piece ends at or behind its start and within the source.
pub proof fn lemma_piece_body_bounds(piece: PieceView, src: Seq<u8>, pos: int)
    requires
        pos <= src.len(),
    ensures
        piece_body(piece, src, pos) matches Ok((_, end)) ==> pos <= end <= src.len(),
    decreases src.len() - pos,
{
    lemma_piece_item_bounds(piece, src, pos);
    match piece_item(piece, src, pos) {
        Ok((next, end, true)) => {
            lemma_piece_body_bounds(next, src, end);
        },
        _ => {},
    }
}

/// A piece ends at or behind its start and within the source.
pub proof fn lemma_piece_bounds(src: Seq<u8>, pos: int)
    requires
        pos <= src.len(),
    ensures
        piece_at(src, pos) matches Ok((_, end)) ==> pos <= end <= src.len(),
{
    if has_keyword_at(src, pos, word_piece()) {
        let open = after_blank(src, pos + word_piece().len());
        lemma_after_blank_bounds(src, pos + word_piece().len());
        lemma_expect_bounds(src, open, seq![OPEN_BRACE]);
        match expect_at(src, open, seq![OPEN_BRACE]) {
            Err(_) => {},
            Ok(inner) => {
                lemma_piece_body_bounds(PieceView::empty(), src, inner);
                match piece_body(PieceView::empty(), src, inner) {
                    Err(_) => {},
                    Ok((_, end)) => {
                        lemma_expect_bounds(src, end, seq![CLOSE_BRACE]);
                    },
                }
            },
        }
    } else {
        lemma_piece_body_bounds(PieceView::empty(), src, pos);
    }
}

/// A source without a byte stands for one piece that gives nothing.
pub proof fn lemma_empty_source()
    ensures
        parse_tree(Seq::empty()) == Ok::<ParseTreeView, ParseFailure>(
            ParseTreeView { pieces: seq![PieceView::empty()] },
        ),
{
    let src = Seq::<u8>::empty();
    assert(attr_at(src, 0) is None);
    assert(piece_item(PieceView::empty(), src, 0) == Ok::<(PieceView, int, bool), ParseFailure>(
        (PieceView::empty(), 0, false),
    ));
    assert(Seq::<PieceView>::empty().push(PieceView::empty()) =~= seq![PieceView::empty()]);
}

/// The tree of a source holds the pieces that were read before and at
/// least one more.
pub proof fn lemma_pieces_from_adds(done: Seq<PieceView>, src: Seq<u8>, pos: int)
    requires
        pos <= src.len(),
    ensures
        pieces_from(done, src, pos) matches Ok(tree) ==> tree.pieces.len() > done.len(),
    decreases src.len() - pos,
{
    lemma_piece_bounds(src, pos);
    match piece_at(src, pos) {
        Err(_) => {},
        Ok((piece, next)) => {
            if pos < next < src.len() {
                lemma_pieces_from_adds(done.push(piece), src, next);
            }
        },
    }
}

/// Every source that parses holds at least one piece.
pub proof fn lemma_tree_has_a_piece(src: Seq<u8>)
    ensures
        parse_tree(src) matches Ok(tree) ==> tree.pieces.len() >= 1,
{
    lemma_after_blank_bounds(src, 0);
    lemma_pieces_from_adds(Seq::empty(), src, after_blank(src, 0));
}

} // verus!
