//! The structural parser: scans source bytes into pieces, voices, plays,
//! grand staves and staves.

pub mod bytes;
pub mod error;
pub mod scan;
pub mod scanner;
pub mod syntax;
pub mod tree;

use crate::parse::bytes::{
    beats_word, channel_word, composer_word, drums_word, is_word, octave_word, piece_word,
    play_word, program_word, tempo_word, title_word, voice_word, volume_word, BAR, CLOSE_BRACE,
    COLON, COMMA, NEWLINE, OPEN_BRACE, SEMICOLON,
};
pub use crate::parse::error::{ParseError, ParseFailure};
use crate::parse::scan::lemma_prefix_of_one;
pub use crate::parse::scanner::{moved, went_on, Parser};
use crate::parse::syntax::{
    attribute_end, grand_stave_at, lemma_piece_item_bounds, lemma_play_item_bounds,
    lemma_stave_item_bounds, lemma_voice_item_bounds, more_staves, parse_tree, piece_at,
    piece_attribute, piece_body, piece_field, piece_item, piece_tail, pieces_from, play_block,
    play_body, play_item, stave_end, stave_item, voice_attribute, voice_block, voice_body,
    voice_field, voice_item, MAX_OCTAVE, MIN_OCTAVE,
};
pub use crate::parse::tree::{
    grand_stave_views, piece_views, play_views, stave_views, voice_views, GrandStave,
    GrandStaveView, ParseTree, ParseTreeView, Piece, PieceView, Play, PlayView, Stave,
    StaveView, Voice, VoiceView,
};
use crate::text::text_view;
use vstd::prelude::*;
use vstd::slice::slice_to_vec;
use vstd::string::StringSliceAdditionalSpecFns;

verus! {

/// Parses a source into its tree of pieces.
///
/// The result is the value of [`parse_tree`] on the bytes of the source,
/// and so depends on nothing else: the whole tree, or the first error. The
/// name of the file is not looked at.
pub fn parse<'a>(input: &'a str, _filename: Option<&'a str>) -> (result: Result<
    ParseTree<'a>,
    ParseError,
>)
    ensures
        match parse_tree(input.spec_bytes()) {
            Ok(tree) => result matches Ok(out) && out@ == tree,
            Err(failure) => result matches Err(error) && error@ == failure,
        },
{
    let mut parser = Parser::new(input);
    let ghost src = parser@.source;
    let mut pieces: Vec<Piece<'a>> = Vec::new();
    parser.skip_whitespace();
    assert(piece_views(pieces@) =~= Seq::empty());
    loop
        invariant_except_break
            parse_tree(src) == pieces_from(piece_views(pieces@), src, parser@.position),
        invariant
            src == input.spec_bytes(),
            parser@.source == src,
            0 <= parser@.position <= src.len(),
        ensures
            parse_tree(src) == Ok::<ParseTreeView, ParseFailure>(
                ParseTreeView { pieces: piece_views(pieces@) },
            ),
        decreases src.len() - parser@.position,
    {
        let before = parser.position();
        let ghost done = piece_views(pieces@);
        match parse_piece(&mut parser) {
            Ok(piece) => {
                pieces.push(piece);
                assert(piece_views(pieces@) =~= done.push(piece@));
            },
            Err(error) => {
                return Err(error);
            },
        }
        match parser.peek() {
            None => {
                break ;
            },
            Some(found) => {
                if parser.position() == before {
                    return Err(ParseError::StrayByte { found });
                }
            },
        }
    }
    Ok(ParseTree { pieces })
}

/// Parses one piece: the word `piece` and a body between braces, or a body
/// with nothing around it.
pub fn parse_piece<'a>(parser: &mut Parser<'a>) -> (result: Result<Piece<'a>, ParseError>)
    ensures
        match piece_at(old(parser)@.source, old(parser)@.position) {
            Ok((piece, to)) => result matches Ok(out) && out@ == piece && moved(
                old(parser)@,
                final(parser)@,
                to,
            ),
            Err(failure) => result matches Err(error) && error@ == failure && went_on(
                old(parser)@,
                final(parser)@,
            ),
        },
{
    let open: [u8; 1] = [OPEN_BRACE];
    let close: [u8; 1] = [CLOSE_BRACE];
    assert(open@ =~= seq![OPEN_BRACE]);
    assert(close@ =~= seq![CLOSE_BRACE]);
    if parser.skip_keyword(&piece_word()) {
        match parser.expect(&open) {
            Ok(()) => {},
            Err(error) => {
                return Err(error);
            },
        }
        let piece = match parse_piece_contents(parser) {
            Ok(piece) => piece,
            Err(error) => {
                return Err(error);
            },
        };
        match parser.expect(&close) {
            Ok(()) => {},
            Err(error) => {
                return Err(error);
            },
        }
        Ok(piece)
    } else {
        parse_piece_contents(parser)
    }
}

/// Parses the body of a piece: play blocks, voice blocks and attributes,
/// and at the end what is left as one more play.
pub fn parse_piece_contents<'a>(parser: &mut Parser<'a>) -> (result: Result<
    Piece<'a>,
    ParseError,
>)
    ensures
        match piece_body(PieceView::empty(), old(parser)@.source, old(parser)@.position) {
            Ok((piece, to)) => result matches Ok(out) && out@ == piece && moved(
                old(parser)@,
                final(parser)@,
                to,
            ),
            Err(failure) => result matches Err(error) && error@ == failure && went_on(
                old(parser)@,
                final(parser)@,
            ),
        },
{
    let start = parser.position();
    let ghost src = parser@.source;
    let mut piece = Piece {
        title: None,
        composer: None,
        tempo: None,
        beats: None,
        voices: Vec::new(),
        plays: Vec::new(),
    };
    assert(piece@.voices =~= Seq::empty());
    assert(piece@.plays =~= Seq::empty());
    loop
        invariant_except_break
            piece_body(PieceView::empty(), src, start as int) == piece_body(
                piece@,
                src,
                parser@.position,
            ),
        invariant
            parser@.source == src,
            src == old(parser)@.source,
            start == old(parser)@.position,
            start <= parser@.position <= src.len(),
        ensures
            parser@.source == src,
            start <= parser@.position <= src.len(),
            piece_body(PieceView::empty(), src, start as int) == Ok::<
                (PieceView, int),
                ParseFailure,
            >((piece@, parser@.position)),
        decreases src.len() - parser@.position,
    {
        proof {
            lemma_piece_item_bounds(piece@, src, parser@.position);
        }
        match parse_piece_item(parser, &mut piece) {
            Ok(more) => {
                if !more {
                    break ;
                }
            },
            Err(error) => {
                return Err(error);
            },
        }
    }
    Ok(piece)
}

/// Parses one more item of a piece: a play block, a voice block or an
/// attribute, or else what is left of the piece. Says whether more may
/// follow.
pub fn parse_piece_item<'a>(parser: &mut Parser<'a>, piece: &mut Piece<'a>) -> (result: Result<
    bool,
    ParseError,
>)
    ensures
        match piece_item(old(piece)@, old(parser)@.source, old(parser)@.position) {
            Ok((next, to, more)) => result == Ok::<bool, ParseError>(more) && final(piece)@
                == next && moved(old(parser)@, final(parser)@, to),
            Err(failure) => result matches Err(error) && error@ == failure && went_on(
                old(parser)@,
                final(parser)@,
            ),
        },
{
    let ghost so_far = piece@;
    if parser.skip_keyword(&play_word()) {
        match parse_play_block(parser) {
            Ok(play) => {
                piece.plays.push(play);
                assert(piece@.plays =~= so_far.plays.push(play@));
                Ok(true)
            },
            Err(error) => Err(error),
        }
    } else if parser.skip_keyword(&voice_word()) {
        match parse_voice_block(parser) {
            Ok(voice) => {
                piece.voices.push(voice);
                assert(piece@.voices =~= so_far.voices.push(voice@));
                Ok(true)
            },
            Err(error) => Err(error),
        }
    } else {
        match parser.parse_attr() {
            Some(key) => match parse_piece_attribute(parser, piece, key) {
                Ok(()) => Ok(true),
                Err(error) => Err(error),
            },
            None => match parse_piece_tail(parser, piece) {
                Ok(()) => Ok(false),
                Err(error) => Err(error),
            },
        }
    }
}

/// Parses an attribute of a piece behind its name: a colon, the value and
/// the end of the attribute.
pub fn parse_piece_attribute<'a>(parser: &mut Parser<'a>, piece: &mut Piece<'a>, key: &[u8]) -> (
    result: Result<(), ParseError>)
    ensures
        match piece_attribute(old(piece)@, key@, old(parser)@.source, old(parser)@.position) {
            Ok((next, to)) => result is Ok && final(piece)@ == next && moved(
                old(parser)@,
                final(parser)@,
                to,
            ),
            Err(failure) => result matches Err(error) && error@ == failure && went_on(
                old(parser)@,
                final(parser)@,
            ),
        },
{
    let colon: [u8; 1] = [COLON];
    assert(colon@ =~= seq![COLON]);
    match parser.expect(&colon) {
        Ok(()) => {},
        Err(error) => {
            return Err(error);
        },
    }
    match parse_piece_field(parser, piece, key) {
        Ok(()) => {},
        Err(error) => {
            return Err(error);
        },
    }
    parser.skip_whitespace_in_line();
    parse_attribute_end(parser)
}

/// Parses what is left of a piece when no block or attribute follows:
/// nothing at the end of the source or a closing brace, else one more play
/// without a name.
pub fn parse_piece_tail<'a>(parser: &mut Parser<'a>, piece: &mut Piece<'a>) -> (result: Result<
    (),
    ParseError,
>)
    ensures
        match piece_tail(old(piece)@, old(parser)@.source, old(parser)@.position) {
            Ok((next, to)) => result is Ok && final(piece)@ == next && moved(
                old(parser)@,
                final(parser)@,
                to,
            ),
            Err(failure) => result matches Err(error) && error@ == failure && went_on(
                old(parser)@,
                final(parser)@,
            ),
        },
{
    let close: [u8; 1] = [CLOSE_BRACE];
    assert(close@ =~= seq![CLOSE_BRACE]);
    let ghost so_far = piece@;
    parser.skip_whitespace();
    proof {
        lemma_prefix_of_one(parser@.source, parser@.position, CLOSE_BRACE);
    }
    let done = parser.finished() || parser.check(&close);
    if !done {
        match parse_play_contents(parser, None) {
            Ok(play) => {
                piece.plays.push(play);
                assert(piece@.plays =~= so_far.plays.push(play@));
            },
            Err(error) => {
                return Err(error);
            },
        }
        parser.skip_whitespace();
    }
    Ok(())
}

/// Sets the attribute `key` of a piece to the value that stands here.
pub fn parse_piece_field<'a>(parser: &mut Parser<'a>, piece: &mut Piece<'a>, key: &[u8]) -> (result:
    Result<(), ParseError>)
    ensures
        match piece_field(old(piece)@, key@, old(parser)@.source, old(parser)@.position) {
            Ok((next, to)) => result is Ok && final(piece)@ == next && moved(
                old(parser)@,
                final(parser)@,
                to,
            ),
            Err(failure) => result matches Err(error) && error@ == failure && final(parser)@
                == old(parser)@ && final(piece)@ == old(piece)@,
        },
{
    if is_word(key, &tempo_word()) {
        match parser.parse_number_only(0, u64::MAX) {
            Ok(value) => {
                piece.tempo = Some(value as u64);
                Ok(())
            },
            Err(error) => Err(error),
        }
    } else if is_word(key, &beats_word()) {
        match parser.parse_number_only(0, u64::MAX) {
            Ok(value) => {
                piece.beats = Some(value as u64);
                Ok(())
            },
            Err(error) => Err(error),
        }
    } else if is_word(key, &title_word()) {
        match parser.parse_string_only() {
            Ok(text) => {
                piece.title = Some(text);
                Ok(())
            },
            Err(error) => Err(error),
        }
    } else if is_word(key, &composer_word()) {
        match parser.parse_string_only() {
            Ok(text) => {
                piece.composer = Some(text);
                Ok(())
            },
            Err(error) => Err(error),
        }
    } else {
        Err(ParseError::InvalidAttributeName)
    }
}

/// Goes behind the end of an attribute of a piece: a separator and the
/// blanks after it. Stays at the end of the source and at a closing brace.
pub fn parse_attribute_end(parser: &mut Parser) -> (result: Result<(), ParseError>)
    ensures
        match attribute_end(old(parser)@.source, old(parser)@.position) {
            Ok(to) => result is Ok && moved(old(parser)@, final(parser)@, to),
            Err(failure) => result matches Err(error) && error@ == failure && final(parser)@
                == old(parser)@,
        },
{
    let close: [u8; 1] = [CLOSE_BRACE];
    let comma: [u8; 1] = [COMMA];
    let newline: [u8; 1] = [NEWLINE];
    let semicolon: [u8; 1] = [SEMICOLON];
    proof {
        assert(close@ =~= seq![CLOSE_BRACE]);
        assert(comma@ =~= seq![COMMA]);
        assert(newline@ =~= seq![NEWLINE]);
        assert(semicolon@ =~= seq![SEMICOLON]);
        lemma_prefix_of_one(parser@.source, parser@.position, COMMA);
        lemma_prefix_of_one(parser@.source, parser@.position, NEWLINE);
        lemma_prefix_of_one(parser@.source, parser@.position, SEMICOLON);
        lemma_prefix_of_one(parser@.source, parser@.position, CLOSE_BRACE);
    }
    let ended = parser.finished() || parser.skip(&comma) || parser.skip(&newline) || parser.skip(
        &semicolon,
    ) || parser.check(&close);
    if ended {
        Ok(())
    } else {
        Err(ParseError::UnterminatedAttribute)
    }
}

/// Parses a play block behind the word `play`: a name, if any, and the
/// grand staves between braces.
pub fn parse_play_block<'a>(parser: &mut Parser<'a>) -> (result: Result<Play<'a>, ParseError>)
    ensures
        match play_block(old(parser)@.source, old(parser)@.position) {
            Ok((play, to)) => result matches Ok(out) && out@ == play && moved(
                old(parser)@,
                final(parser)@,
                to,
            ),
            Err(failure) => result matches Err(error) && error@ == failure && went_on(
                old(parser)@,
                final(parser)@,
            ),
        },
{
    let open: [u8; 1] = [OPEN_BRACE];
    let close: [u8; 1] = [CLOSE_BRACE];
    assert(open@ =~= seq![OPEN_BRACE]);
    assert(close@ =~= seq![CLOSE_BRACE]);
    let name = parser.parse_attr();
    match parser.expect(&open) {
        Ok(()) => {},
        Err(error) => {
            return Err(error);
        },
    }
    let play = match parse_play_contents(parser, name) {
        Ok(play) => play,
        Err(error) => {
            return Err(error);
        },
    };
    match parser.expect(&close) {
        Ok(()) => Ok(play),
        Err(error) => Err(error),
    }
}

/// Parses a voice block behind the word `voice`: a name, if any, and the
/// attributes between braces.
pub fn parse_voice_block<'a>(parser: &mut Parser<'a>) -> (result: Result<Voice<'a>, ParseError>)
    ensures
        match voice_block(old(parser)@.source, old(parser)@.position) {
            Ok((voice, to)) => result matches Ok(out) && out@ == voice && moved(
                old(parser)@,
                final(parser)@,
                to,
            ),
            Err(failure) => result matches Err(error) && error@ == failure && went_on(
                old(parser)@,
                final(parser)@,
            ),
        },
{
    let open: [u8; 1] = [OPEN_BRACE];
    let close: [u8; 1] = [CLOSE_BRACE];
    assert(open@ =~= seq![OPEN_BRACE]);
    assert(close@ =~= seq![CLOSE_BRACE]);
    let name = parser.parse_attr();
    match parser.expect(&open) {
        Ok(()) => {},
        Err(error) => {
            return Err(error);
        },
    }
    let voice = match parse_voice_contents(parser, name) {
        Ok(voice) => voice,
        Err(error) => {
            return Err(error);
        },
    };
    match parser.expect(&close) {
        Ok(()) => Ok(voice),
        Err(error) => Err(error),
    }
}

/// Parses the attributes of a voice block of the given name.
pub fn parse_voice_contents<'a>(parser: &mut Parser<'a>, name: Option<&'a [u8]>) -> (result:
    Result<Voice<'a>, ParseError>)
    ensures
        match voice_body(
            VoiceView::named(text_view(name)),
            old(parser)@.source,
            old(parser)@.position,
        ) {
            Ok((voice, to)) => result matches Ok(out) && out@ == voice && moved(
                old(parser)@,
                final(parser)@,
                to,
            ),
            Err(failure) => result matches Err(error) && error@ == failure && went_on(
                old(parser)@,
                final(parser)@,
            ),
        },
{
    let start = parser.position();
    let ghost src = parser@.source;
    let mut voice = Voice {
        name,
        program: None,
        channel: None,
        transpose: None,
        volume: None,
        drums: None,
    };
    loop
        invariant_except_break
            voice_body(VoiceView::named(text_view(name)), src, start as int) == voice_body(
                voice@,
                src,
                parser@.position,
            ),
        invariant
            parser@.source == src,
            src == old(parser)@.source,
            start == old(parser)@.position,
            start <= parser@.position <= src.len(),
        ensures
            parser@.source == src,
            start <= parser@.position <= src.len(),
            voice_body(VoiceView::named(text_view(name)), src, start as int) == Ok::<
                (VoiceView, int),
                ParseFailure,
            >((voice@, parser@.position)),
        decreases src.len() - parser@.position,
    {
        proof {
            lemma_voice_item_bounds(voice@, src, parser@.position);
        }
        match parse_voice_item(parser, &mut voice) {
            Ok(more) => {
                if !more {
                    break ;
                }
            },
            Err(error) => {
                return Err(error);
            },
        }
    }
    Ok(voice)
}

/// Parses one more attribute of a voice, if a name stands here, and the
/// separator behind it. Says whether a separator stood there, so that more
/// may follow.
pub fn parse_voice_item<'a>(parser: &mut Parser<'a>, voice: &mut Voice<'a>) -> (result: Result<
    bool,
    ParseError,
>)
    ensures
        match voice_item(old(voice)@, old(parser)@.source, old(parser)@.position) {
            Ok((next, to, more)) => result == Ok::<bool, ParseError>(more) && final(voice)@
                == next && moved(old(parser)@, final(parser)@, to),
            Err(failure) => result matches Err(error) && error@ == failure && went_on(
                old(parser)@,
                final(parser)@,
            ),
        },
{
    let comma: [u8; 1] = [COMMA];
    let newline: [u8; 1] = [NEWLINE];
    let semicolon: [u8; 1] = [SEMICOLON];
    assert(comma@ =~= seq![COMMA]);
    assert(newline@ =~= seq![NEWLINE]);
    assert(semicolon@ =~= seq![SEMICOLON]);
    let start = parser.position();
    let key = match parser.parse_attr() {
        Some(key) => key,
        None => {
            return Ok(false);
        },
    };
    match parse_voice_attribute(parser, voice, key) {
        Ok(()) => {},
        Err(error) => {
            return Err(error);
        },
    }
    proof {
        lemma_prefix_of_one(parser@.source, parser@.position, COMMA);
        lemma_prefix_of_one(parser@.source, parser@.position, NEWLINE);
        lemma_prefix_of_one(parser@.source, parser@.position, SEMICOLON);
    }
    Ok(parser.skip(&comma) || parser.skip(&newline) || parser.skip(&semicolon))
}

/// Parses an attribute of a voice behind its name: a colon and the value,
/// and the blanks that follow in the line.
pub fn parse_voice_attribute<'a>(parser: &mut Parser<'a>, voice: &mut Voice<'a>, key: &[u8]) -> (
    result: Result<(), ParseError>)
    ensures
        match voice_attribute(old(voice)@, key@, old(parser)@.source, old(parser)@.position) {
            Ok((next, to)) => result is Ok && final(voice)@ == next && moved(
                old(parser)@,
                final(parser)@,
                to,
            ),
            Err(failure) => result matches Err(error) && error@ == failure && went_on(
                old(parser)@,
                final(parser)@,
            ),
        },
{
    let colon: [u8; 1] = [COLON];
    assert(colon@ =~= seq![COLON]);
    match parser.expect(&colon) {
        Ok(()) => {},
        Err(error) => {
            return Err(error);
        },
    }
    match parse_voice_field(parser, voice, key) {
        Ok(()) => {},
        Err(error) => {
            return Err(error);
        },
    }
    parser.skip_whitespace_in_line();
    Ok(())
}

/// Sets the attribute `key` of a voice to the value that stands here. An
/// octave is kept as semitones.
pub fn parse_voice_field<'a>(parser: &mut Parser<'a>, voice: &mut Voice<'a>, key: &[u8]) -> (result:
    Result<(), ParseError>)
    ensures
        match voice_field(old(voice)@, key@, old(parser)@.source, old(parser)@.position) {
            Ok((next, to)) => result is Ok && final(voice)@ == next && moved(
                old(parser)@,
                final(parser)@,
                to,
            ),
            Err(failure) => result matches Err(error) && error@ == failure && final(parser)@
                == old(parser)@ && final(voice)@ == old(voice)@,
        },
{
    if is_word(key, &program_word()) {
        match parser.parse_number_only(0, 255) {
            Ok(value) => {
                voice.program = Some(value as u8);
                Ok(())
            },
            Err(error) => Err(error),
        }
    } else if is_word(key, &channel_word()) {
        match parser.parse_number_only(0, 255) {
            Ok(value) => {
                voice.channel = Some(value as u8);
                Ok(())
            },
            Err(error) => Err(error),
        }
    } else if is_word(key, &octave_word()) {
        match parser.parse_number_only(MIN_OCTAVE, MAX_OCTAVE) {
            Ok(value) => {
                voice.transpose = Some((value * 12) as i8);
                Ok(())
            },
            Err(error) => Err(error),
        }
    } else if is_word(key, &volume_word()) {
        match parser.parse_number_only(0, 255) {
            Ok(value) => {
                voice.volume = Some(value as u8);
                Ok(())
            },
            Err(error) => Err(error),
        }
    } else if is_word(key, &drums_word()) {
        match parser.parse_bool_only() {
            Ok(value) => {
                voice.drums = Some(value);
                Ok(())
            },
            Err(error) => Err(error),
        }
    } else {
        Err(ParseError::InvalidAttributeName)
    }
}

/// Parses the grand staves of a play of the given name.
pub fn parse_play_contents<'a>(parser: &mut Parser<'a>, name: Option<&'a [u8]>) -> (result:
    Result<Play<'a>, ParseError>)
    ensures
        match play_body(
            text_view(name),
            Seq::empty(),
            old(parser)@.source,
            old(parser)@.position,
        ) {
            Ok((play, to)) => result matches Ok(out) && out@ == play && moved(
                old(parser)@,
                final(parser)@,
                to,
            ),
            Err(failure) => result matches Err(error) && error@ == failure && went_on(
                old(parser)@,
                final(parser)@,
            ),
        },
{
    let start = parser.position();
    let ghost src = parser@.source;
    let mut grand_staves: Vec<GrandStave<'a>> = Vec::new();
    assert(grand_stave_views(grand_staves@) =~= Seq::empty());
    loop
        invariant_except_break
            play_body(text_view(name), Seq::empty(), src, start as int) == play_body(
                text_view(name),
                grand_stave_views(grand_staves@),
                src,
                parser@.position,
            ),
        invariant
            parser@.source == src,
            src == old(parser)@.source,
            start == old(parser)@.position,
            start <= parser@.position <= src.len(),
        ensures
            parser@.source == src,
            start <= parser@.position <= src.len(),
            play_body(text_view(name), Seq::empty(), src, start as int) == Ok::<
                (PlayView, int),
                ParseFailure,
            >(
                (
                    PlayView {
                        name: text_view(name),
                        grand_staves: grand_stave_views(grand_staves@),
                    },
                    parser@.position,
                ),
            ),
        decreases src.len() - parser@.position,
    {
        let ghost so_far = grand_stave_views(grand_staves@);
        proof {
            lemma_play_item_bounds(src, parser@.position);
        }
        match parse_play_item(parser) {
            Ok(Some(grand_stave)) => {
                grand_staves.push(grand_stave);
                assert(grand_stave_views(grand_staves@) =~= so_far.push(grand_stave@));
            },
            Ok(None) => {
                break ;
            },
            Err(error) => {
                return Err(error);
            },
        }
    }
    Ok(Play { name, grand_staves })
}

/// Parses one more grand stave of a play, if the lead-in of a stave stands
/// here; else goes behind the blanks that stand here.
pub fn parse_play_item<'a>(parser: &mut Parser<'a>) -> (result: Result<
    Option<GrandStave<'a>>,
    ParseError,
>)
    ensures
        match play_item(old(parser)@.source, old(parser)@.position) {
            Ok((Some(grand_stave), to)) => result matches Ok(Some(out)) && out@ == grand_stave
                && moved(old(parser)@, final(parser)@, to),
            Ok((None, to)) => result matches Ok(None) && moved(old(parser)@, final(parser)@, to),
            Err(failure) => result matches Err(error) && error@ == failure && went_on(
                old(parser)@,
                final(parser)@,
            ),
        },
{
    let colon: [u8; 1] = [COLON];
    let bar: [u8; 1] = [BAR];
    assert(colon@ =~= seq![COLON]);
    assert(bar@ =~= seq![BAR]);
    let start = parser.position();
    let attr_name = parser.parse_attr();
    proof {
        lemma_prefix_of_one(parser@.source, parser@.position, COLON);
    }
    if parser.skip(&colon) {
        proof {
            lemma_prefix_of_one(parser@.source, parser@.position, BAR);
        }
        if parser.skip_only(&bar) {
            match parse_grand_stave(parser, attr_name) {
                Ok(grand_stave) => Ok(Some(grand_stave)),
                Err(error) => Err(error),
            }
        } else {
            Err(ParseError::PlayAttribute)
        }
    } else {
        if let Some(missing) = attr_name {
            return Err(ParseError::MissingValue { name: slice_to_vec(missing) });
        }
        parser.skip_whitespace();
        Ok(None)
    }
}

/// Parses a grand stave: the stave whose body begins here, with the given
/// label, and the staves that follow it.
pub fn parse_grand_stave<'a>(
    parser: &mut Parser<'a>,
    first_stave_prefix: Option<&'a [u8]>,
) -> (result: Result<GrandStave<'a>, ParseError>)
    ensures
        match grand_stave_at(
            text_view(first_stave_prefix),
            old(parser)@.source,
            old(parser)@.position,
        ) {
            Ok((grand_stave, to)) => result matches Ok(out) && out@ == grand_stave && moved(
                old(parser)@,
                final(parser)@,
                to,
            ),
            Err(failure) => result matches Err(error) && error@ == failure && went_on(
                old(parser)@,
                final(parser)@,
            ),
        },
{
    let start = parser.position();
    let ghost src = parser@.source;
    let mut staves: Vec<Stave<'a>> = Vec::new();
    parser.skip_whitespace_in_line();
    match parse_stave_contents(parser, first_stave_prefix) {
        Ok(stave) => {
            staves.push(stave);
        },
        Err(error) => {
            return Err(error);
        },
    }
    assert(stave_views(staves@) =~= seq![StaveView { prefix: text_view(first_stave_prefix) }]);
    loop
        invariant_except_break
            grand_stave_at(text_view(first_stave_prefix), src, start as int) == more_staves(
                stave_views(staves@),
                src,
                parser@.position,
            ),
        invariant
            parser@.source == src,
            src == old(parser)@.source,
            start == old(parser)@.position,
            start <= parser@.position <= src.len(),
        ensures
            parser@.source == src,
            start <= parser@.position <= src.len(),
            grand_stave_at(text_view(first_stave_prefix), src, start as int) == Ok::<
                (GrandStaveView, int),
                ParseFailure,
            >((GrandStaveView { staves: stave_views(staves@) }, parser@.position)),
        decreases src.len() - parser@.position,
    {
        let ghost so_far = stave_views(staves@);
        proof {
            lemma_stave_item_bounds(src, parser@.position);
        }
        match parse_stave_item(parser) {
            Ok(Some(stave)) => {
                staves.push(stave);
                assert(stave_views(staves@) =~= so_far.push(stave@));
            },
            Ok(None) => {
                break ;
            },
            Err(error) => {
                return Err(error);
            },
        }
    }
    Ok(GrandStave { staves })
}

/// Parses one more stave of a grand stave, if the lead-in of a stave
/// stands here; else goes behind the end of the grand stave.
pub fn parse_stave_item<'a>(parser: &mut Parser<'a>) -> (result: Result<
    Option<Stave<'a>>,
    ParseError,
>)
    ensures
        match stave_item(old(parser)@.source, old(parser)@.position) {
            Ok((Some(stave), to)) => result matches Ok(Some(out)) && out@ == stave && moved(
                old(parser)@,
                final(parser)@,
                to,
            ),
            Ok((None, to)) => result matches Ok(None) && moved(old(parser)@, final(parser)@, to),
            Err(failure) => result matches Err(error) && error@ == failure && went_on(
                old(parser)@,
                final(parser)@,
            ),
        },
{
    let colon: [u8; 1] = [COLON];
    let bar: [u8; 1] = [BAR];
    assert(colon@ =~= seq![COLON]);
    assert(bar@ =~= seq![BAR]);
    let start = parser.position();
    if parser.skip_end_of_stave() {
        parser.skip_whitespace();
        return Ok(None);
    }
    let attr_name = parser.parse_attr();
    proof {
        lemma_prefix_of_one(parser@.source, parser@.position, COLON);
    }
    if parser.skip(&colon) {
        proof {
            lemma_prefix_of_one(parser@.source, parser@.position, BAR);
        }
        if parser.skip_only(&bar) {
            parser.skip_whitespace_in_line();
            match parse_stave_contents(parser, attr_name) {
                Ok(stave) => Ok(Some(stave)),
                Err(error) => Err(error),
            }
        } else {
            Err(ParseError::StaveAttribute)
        }
    } else {
        if let Some(missing) = attr_name {
            return Err(ParseError::MissingValue { name: slice_to_vec(missing) });
        }
        Ok(None)
    }
}

/// Goes over the body of a stave and gives the stave with its label. The
/// body runs to the end of its line, and on through each next line that
/// begins with `|`.
pub fn parse_stave_contents<'a>(parser: &mut Parser<'a>, stave_prefix: Option<&'a [u8]>) -> (result:
    Result<Stave<'a>, ParseError>)
    ensures
        result matches Ok(stave) && stave@ == (StaveView { prefix: text_view(stave_prefix) }),
        moved(
            old(parser)@,
            final(parser)@,
            stave_end(old(parser)@.source, old(parser)@.position),
        ),
{
    let start = parser.position();
    let ghost src = parser@.source;
    let bar: [u8; 1] = [BAR];
    loop
        invariant_except_break
            stave_end(src, start as int) == stave_end(src, parser@.position),
        invariant
            parser@.source == src,
            start <= parser@.position <= src.len(),
            bar@ == seq![BAR],
        ensures
            parser@.source == src,
            start <= parser@.position <= src.len(),
            parser@.position == stave_end(src, start as int),
        decreases src.len() - parser@.position,
    {
        parser.skip_stave_contents();
        parser.skip_whitespace_in_line();
        proof {
            lemma_prefix_of_one(src, parser@.position, BAR);
        }
        if !parser.skip_only(&bar) {
            break ;
        }
    }
    Ok(Stave { prefix: stave_prefix })
}

} // verus!
