use stave::parse::{
    parse, parse_attribute_end, parse_grand_stave, parse_piece, parse_piece_contents,
    parse_piece_item, parse_play_block, parse_play_contents, parse_play_item,
    parse_stave_contents, parse_stave_item, parse_voice_block, parse_voice_contents,
    parse_voice_item, GrandStave, ParseError, ParseTree, Parser, Piece, Play, Stave, Voice,
};

fn error_of(source: &str) -> ParseError {
    parse(source, None).unwrap_err()
}

fn one_piece(piece: Piece) -> ParseTree {
    ParseTree { pieces: vec![piece] }
}

#[test]
fn a_missing_token_at_the_end_fails() {
    let error = error_of("piece");
    assert_eq!(
        error,
        ParseError::UnexpectedEnd {
            expected: b"{".to_vec()
        }
    );
    assert_eq!(
        error.message(),
        "Expected `{` but reached the end of the file."
    );
    assert_eq!(
        error_of("piece {"),
        ParseError::UnexpectedEnd {
            expected: b"}".to_vec()
        }
    );
    assert_eq!(
        error_of("tempo"),
        ParseError::UnexpectedEnd {
            expected: b":".to_vec()
        }
    );
}

#[test]
fn a_wrong_token_fails_with_what_stands_there() {
    let error = error_of("piece @");
    assert_eq!(
        error,
        ParseError::Unexpected {
            expected: b"{".to_vec(),
            found: b'@',
        }
    );
    assert_eq!(error.message(), "Expected `{` but saw `@`");
    assert_eq!(
        error_of("voice { program: 1 channel: 2 }"),
        ParseError::Unexpected {
            expected: b"}".to_vec(),
            found: b'c',
        }
    );
    assert_eq!(
        error_of("voice { drums: true\n channel: 2 }"),
        ParseError::Unexpected {
            expected: b"}".to_vec(),
            found: b'c',
        }
    );
    assert_eq!(
        error_of("tempo 120"),
        ParseError::Unexpected {
            expected: b":".to_vec(),
            found: b'1',
        }
    );
    assert_eq!(
        error_of("piece é"),
        ParseError::Unexpected {
            expected: b"{".to_vec(),
            found: 0xc3,
        }
    );
    assert_eq!(error_of("piece é").message(), "Expected `{` but saw `\u{fffd}`");
}

#[test]
fn a_number_must_fit_its_attribute() {
    for source in [
        "tempo: x",
        "tempo: -1",
        "tempo: 18446744073709551616",
        "beats: ",
        "voice { program: 256 }",
        "voice { channel: -1 }",
        "voice { volume: 1000 }",
        "voice { octave: 11 }",
        "voice { octave: -11 }",
        "voice { octave: - 1 }",
    ] {
        assert_eq!(error_of(source), ParseError::InvalidNumber, "{:?}", source);
    }
    assert_eq!(ParseError::InvalidNumber.message(), "Could not parse number");
    assert_eq!(
        parse("voice { octave: 10 } voice { octave: -10 }", None),
        Ok(one_piece(Piece {
            voices: vec![
                Voice {
                    transpose: Some(120),
                    ..Voice::default()
                },
                Voice {
                    transpose: Some(-120),
                    ..Voice::default()
                },
            ],
            ..Piece::default()
        }))
    );
    assert_eq!(
        parse("tempo: 18446744073709551615", None),
        Ok(one_piece(Piece {
            tempo: Some(u64::MAX),
            ..Piece::default()
        }))
    );
}

#[test]
fn a_string_must_be_quoted_and_closed() {
    assert_eq!(error_of("title: One"), ParseError::UnopenedString);
    assert_eq!(
        ParseError::UnopenedString.message(),
        "String must open with `\"`"
    );
    assert_eq!(error_of("title: \"One"), ParseError::UnclosedString);
    assert_eq!(error_of("composer:"), ParseError::UnclosedString);
    assert_eq!(error_of("composer: \"a\\\""), ParseError::UnclosedString);
    assert_eq!(ParseError::UnclosedString.message(), "Unclosed string!");
    assert_eq!(
        parse("title: \"a \\\"b\\\" c\"", None),
        Ok(one_piece(Piece {
            title: Some(b"a \\\"b\\\" c"),
            ..Piece::default()
        }))
    );
}

#[test]
fn drums_are_true_or_false() {
    assert_eq!(error_of("voice { drums: maybe }"), ParseError::InvalidBool);
    assert_eq!(error_of("voice { drums: 1 }"), ParseError::InvalidBool);
    assert_eq!(ParseError::InvalidBool.message(), "Failed to parse bool.");
    assert_eq!(
        parse("voice { drums: false }", None),
        Ok(one_piece(Piece {
            voices: vec![Voice {
                drums: Some(false),
                ..Voice::default()
            }],
            ..Piece::default()
        }))
    );
}

#[test]
fn attributes_have_known_names() {
    for source in [
        "speed: 120",
        "player: 3",
        "voices: 3",
        "Tempo: 120",
        "program: 1",
        "voice { tempo: 120 }",
        "voice { transpose: 12 }",
        "piece { voice2: 1 }",
    ] {
        assert_eq!(
            error_of(source),
            ParseError::InvalidAttributeName,
            "{:?}",
            source
        );
    }
    assert_eq!(
        ParseError::InvalidAttributeName.message(),
        "Invalid attribute name"
    );
}

#[test]
fn attributes_of_a_piece_must_end() {
    assert_eq!(
        error_of("tempo: 120 beats: 4"),
        ParseError::UnterminatedAttribute
    );
    assert_eq!(
        error_of("title: \"a\" \"b\""),
        ParseError::UnterminatedAttribute
    );
    assert_eq!(
        ParseError::UnterminatedAttribute.message(),
        "Attributes must end with a newline, comma, or semi-colon."
    );
    let expected = one_piece(Piece {
        tempo: Some(120),
        beats: Some(4),
        ..Piece::default()
    });
    for source in [
        "tempo: 120, beats: 4",
        "tempo: 120; beats: 4;",
        "tempo: 120 // fast\nbeats: 4 // common",
        "piece { tempo: 120\n beats: 4 }",
        "tempo: 1, tempo: 120, beats: 4",
    ] {
        assert_eq!(parse(source, None), Ok(expected.clone()), "{:?}", source);
    }
}

#[test]
fn play_blocks_hold_staves_only() {
    assert_eq!(error_of("play { a: b }"), ParseError::PlayAttribute);
    assert_eq!(error_of("play { : }"), ParseError::PlayAttribute);
    assert_eq!(
        ParseError::PlayAttribute.message(),
        "Attributes in play blocks not currently supported. Use `|` to start a stave."
    );
    assert_eq!(error_of(":| C\n tempo: 120"), ParseError::StaveAttribute);
    assert_eq!(error_of("play { :| C ; a: b }"), ParseError::StaveAttribute);
    assert_eq!(
        ParseError::StaveAttribute.message(),
        "Attributes between staves not currently supported. Use `|` to start a stave."
    );
}

#[test]
fn a_name_in_a_play_needs_a_colon() {
    let error = error_of("play { abc }");
    assert_eq!(
        error,
        ParseError::MissingValue {
            name: b"abc".to_vec()
        }
    );
    assert_eq!(error.message(), "Attribute `abc` is missing a value.");
    assert_eq!(
        error_of("play { :| C ; abc }"),
        ParseError::MissingValue {
            name: b"abc".to_vec()
        }
    );
    assert_eq!(
        error_of(":| C\nE G"),
        ParseError::MissingValue {
            name: b"E".to_vec()
        }
    );
}

#[test]
fn a_name_in_a_piece_is_an_attribute() {
    assert_eq!(
        error_of("C E G"),
        ParseError::Unexpected {
            expected: b":".to_vec(),
            found: b'E',
        }
    );
}

#[test]
fn nothing_but_a_piece_can_stand_between_pieces() {
    let error = error_of("}");
    assert_eq!(error, ParseError::StrayByte { found: b'}' });
    assert_eq!(error.message(), "Unexpected `}`");
    assert_eq!(error_of("@"), ParseError::StrayByte { found: b'@' });
    assert_eq!(error_of("piece { } }"), ParseError::StrayByte { found: b'}' });
    assert_eq!(error_of("tempo: 1 }"), ParseError::StrayByte { found: b'}' });
    assert_eq!(error_of("  {"), ParseError::StrayByte { found: b'{' });
}

#[test]
fn stave_labels_are_kept() {
    let tree = parse("play Lead { rh:| C E | G\n lh:| c ; :| g }", None).unwrap();
    assert_eq!(
        tree,
        one_piece(Piece {
            plays: vec![Play {
                name: Some(b"Lead"),
                grand_staves: vec![GrandStave {
                    staves: vec![
                        Stave { prefix: Some(b"rh") },
                        Stave { prefix: Some(b"lh") },
                        Stave { prefix: None },
                    ],
                }],
            }],
            ..Piece::default()
        })
    );
}

#[test]
fn pieces_follow_each_other() {
    let tree = parse("piece { tempo: 1 } title: \"b\"\n:| C\n", None).unwrap();
    assert_eq!(
        tree.pieces,
        vec![
            Piece {
                tempo: Some(1),
                ..Piece::default()
            },
            Piece {
                title: Some(b"b"),
                plays: vec![Play {
                    name: None,
                    grand_staves: vec![GrandStave {
                        staves: vec![Stave { prefix: None }],
                    }],
                }],
                ..Piece::default()
            },
        ]
    );
}

#[test]
fn the_parts_of_the_parser_stop_where_their_part_ends() {
    let mut parser = Parser::new(" C E | G\n | c g ; next");
    assert_eq!(
        parse_stave_contents(&mut parser, Some(b"rh")),
        Ok(Stave { prefix: Some(b"rh") })
    );
    assert_eq!(parser.position(), 18);

    let mut parser = Parser::new(" C E\n lh:| c\n\n :| g");
    assert_eq!(
        parse_grand_stave(&mut parser, None),
        Ok(GrandStave {
            staves: vec![Stave { prefix: None }, Stave { prefix: Some(b"lh") }],
        })
    );
    assert_eq!(parser.position(), 15);

    let mut parser = Parser::new(":| C\n\n:| E\n} rest");
    assert_eq!(
        parse_play_contents(&mut parser, Some(b"P")),
        Ok(Play {
            name: Some(b"P"),
            grand_staves: vec![
                GrandStave {
                    staves: vec![Stave { prefix: None }],
                },
                GrandStave {
                    staves: vec![Stave { prefix: None }],
                },
            ],
        })
    );
    assert_eq!(parser.position(), 11);

    let mut parser = Parser::new("program: 3; volume: 9 } rest");
    assert_eq!(
        parse_voice_contents(&mut parser, Some(b"V")),
        Ok(Voice {
            name: Some(b"V"),
            program: Some(3),
            volume: Some(9),
            ..Voice::default()
        })
    );
    assert_eq!(parser.position(), 22);

    let mut parser = Parser::new("tempo: 3\nvoice V { }\n} rest");
    assert_eq!(
        parse_piece_contents(&mut parser),
        Ok(Piece {
            tempo: Some(3),
            voices: vec![Voice {
                name: Some(b"V"),
                ..Voice::default()
            }],
            ..Piece::default()
        })
    );
    assert_eq!(parser.position(), 21);

    let mut parser = Parser::new("piece { beats: 3 } piece { }");
    assert_eq!(
        parse_piece(&mut parser),
        Ok(Piece {
            beats: Some(3),
            ..Piece::default()
        })
    );
    assert_eq!(parser.position(), 19);
}

#[test]
fn parsing_twice_gives_the_same() {
    for source in ["", "piece { tempo: 1 }", "play { abc }", "voice { octave: -2 }\n:| C"] {
        assert_eq!(parse(source, None), parse(source, None));
        assert_eq!(parse(source, None), parse(source, Some("score.txt")));
    }
}

#[test]
fn items_say_whether_more_may_follow() {
    let mut parser = Parser::new("lh:| c\n x");
    assert_eq!(
        parse_stave_item(&mut parser),
        Ok(Some(Stave { prefix: Some(b"lh") }))
    );
    assert_eq!(parser.position(), 8);
    assert_eq!(
        parse_stave_item(&mut parser),
        Err(ParseError::MissingValue {
            name: b"x".to_vec()
        })
    );
    let mut parser = Parser::new("\n  } x");
    assert_eq!(parse_stave_item(&mut parser), Ok(None));
    assert_eq!(parser.position(), 3);
    let mut parser = Parser::new("@");
    assert_eq!(parse_stave_item(&mut parser), Ok(None));
    assert_eq!(parser.position(), 0);

    let mut parser = Parser::new(":| C ; :| E\n\n:| G");
    assert_eq!(
        parse_play_item(&mut parser),
        Ok(Some(GrandStave {
            staves: vec![Stave { prefix: None }, Stave { prefix: None }],
        }))
    );
    assert_eq!(parser.position(), 13);
    assert_eq!(
        parse_play_item(&mut parser),
        Ok(Some(GrandStave {
            staves: vec![Stave { prefix: None }],
        }))
    );
    assert!(parser.finished());
    assert_eq!(parse_play_item(&mut parser), Ok(None));
    let mut parser = Parser::new("  } x");
    assert_eq!(parse_play_item(&mut parser), Ok(None));
    assert_eq!(parser.position(), 2);

    let mut voice = Voice::default();
    let mut parser = Parser::new("program: 3, volume: 9 }");
    assert_eq!(parse_voice_item(&mut parser, &mut voice), Ok(true));
    assert_eq!(parser.position(), 12);
    assert_eq!(parse_voice_item(&mut parser, &mut voice), Ok(false));
    assert_eq!(parser.position(), 22);
    assert_eq!(parse_voice_item(&mut parser, &mut voice), Ok(false));
    assert_eq!(parser.position(), 22);
    assert_eq!(
        voice,
        Voice {
            program: Some(3),
            volume: Some(9),
            ..Voice::default()
        }
    );

    let mut piece = Piece::default();
    let mut parser = Parser::new("tempo: 3; voice V { } play V { } :| C\n} x");
    assert_eq!(parse_piece_item(&mut parser, &mut piece), Ok(true));
    assert_eq!(parser.position(), 10);
    assert_eq!(parse_piece_item(&mut parser, &mut piece), Ok(true));
    assert_eq!(parser.position(), 22);
    assert_eq!(parse_piece_item(&mut parser, &mut piece), Ok(true));
    assert_eq!(parser.position(), 33);
    assert_eq!(parse_piece_item(&mut parser, &mut piece), Ok(false));
    assert_eq!(parser.position(), 38);
    assert_eq!(parse_piece_item(&mut parser, &mut piece), Ok(false));
    assert_eq!(parser.position(), 38);
    assert_eq!(piece.tempo, Some(3));
    assert_eq!(piece.voices.len(), 1);
    assert_eq!(piece.plays.len(), 2);

    let mut parser = Parser::new("; x");
    assert_eq!(parse_attribute_end(&mut parser), Ok(()));
    assert_eq!(parser.position(), 2);
    assert_eq!(
        parse_attribute_end(&mut parser),
        Err(ParseError::UnterminatedAttribute)
    );
    assert_eq!(parser.position(), 2);
    let mut parser = Parser::new("}");
    assert_eq!(parse_attribute_end(&mut parser), Ok(()));
    assert_eq!(parser.position(), 0);

    let mut parser = Parser::new("Lead { :| C } x");
    assert_eq!(
        parse_play_block(&mut parser),
        Ok(Play {
            name: Some(b"Lead"),
            grand_staves: vec![GrandStave {
                staves: vec![Stave { prefix: None }],
            }],
        })
    );
    assert_eq!(parser.position(), 14);
    let mut parser = Parser::new("{ drums: true } x");
    assert_eq!(
        parse_voice_block(&mut parser),
        Ok(Voice {
            drums: Some(true),
            ..Voice::default()
        })
    );
    assert_eq!(parser.position(), 16);
}
