use stave::parse::parse;
use stave::sequencing::{
    sequence_pieces, BarNode, ErrorType, Note, NoteNode, Piece, PieceNode, PlayNode,
    SequencingError, SourcePosition, StaveNode, Voice, VoiceNode,
};

/// The place of a byte offset in a source of one or more lines.
fn place(source: &str, offset: usize) -> SourcePosition {
    let before = &source[..offset];
    let line = before.matches('\n').count() as u32 + 1;
    let col = (offset - before.rfind('\n').map_or(0, |at| at + 1)) as u32 + 1;
    SourcePosition { line, col }
}

/// Reads the digits at `at`, if any, as a length; 1 where there are none.
fn read_length(text: &[u8], at: &mut usize) -> u32 {
    let mut length = 0;
    let mut seen = false;
    while *at < text.len() && text[*at].is_ascii_digit() {
        length = length * 10 + u32::from(text[*at] - b'0');
        seen = true;
        *at += 1;
    }
    if seen {
        length
    } else {
        1
    }
}

/// Lexes the text of one bar, which begins at `offset` in `source`.
fn lex_bar(source: &str, offset: usize, text: &str) -> BarNode {
    let bytes = text.as_bytes();
    let mut notes = Vec::new();
    let mut at = 0;
    while at < bytes.len() {
        let ch = bytes[at];
        let begin = at;
        at += 1;
        match ch {
            b'-' => notes.push(NoteNode::Rest {
                length: read_length(bytes, &mut at),
            }),
            b'.' => notes.push(NoteNode::Extension {
                length: read_length(bytes, &mut at),
            }),
            b'A'..=b'G' | b'a'..=b'g' => {
                let mut midi: u8 = match ch.to_ascii_uppercase() {
                    b'C' => 60,
                    b'D' => 62,
                    b'E' => 64,
                    b'F' => 65,
                    b'G' => 67,
                    b'A' => 57,
                    _ => 59,
                };
                if ch.is_ascii_lowercase() {
                    midi += 12;
                }
                while at < bytes.len() && (bytes[at] == b'^' || bytes[at] == b'\'') {
                    midi += if bytes[at] == b'^' { 1 } else { 12 };
                    at += 1;
                }
                notes.push(NoteNode::Note {
                    midi,
                    length: read_length(bytes, &mut at),
                    at: place(source, offset + begin),
                });
            }
            _ => {}
        }
    }
    BarNode { notes }
}

/// Lexes the bodies of the staves of a source, in the order in which they
/// stand: each begins behind `:|` and ends with its line, and `|` parts
/// its bars.
fn lex_staves(source: &str) -> Vec<StaveNode> {
    let mut staves = Vec::new();
    let mut from = 0;
    while let Some(found) = source[from..].find(":|") {
        let begin = from + found + 2;
        let end = source[begin..]
            .find(|ch| ch == '\n' || ch == ';' || ch == '}')
            .map_or(source.len(), |at| begin + at);
        let mut bars = Vec::new();
        let mut offset = begin;
        for text in source[begin..end].split('|') {
            if !text.trim().is_empty() {
                bars.push(lex_bar(source, offset, text));
            }
            offset += text.len() + 1;
        }
        staves.push(StaveNode { bars });
        from = end;
    }
    staves
}

/// Parses a source and joins the tree with the lexed bodies of its staves.
fn read(source: &str) -> Vec<PieceNode<'_>> {
    let tree = parse(source, None).expect("the source parses");
    let mut bodies = lex_staves(source).into_iter();
    let mut plays_at = source.match_indices("play").map(|(at, _)| at);
    let mut voices_at = source.match_indices("voice").map(|(at, _)| at);
    let mut pieces = Vec::new();
    for piece in tree.pieces {
        let mut voices = Vec::new();
        for voice in piece.voices {
            voices.push(VoiceNode {
                name: voice.name,
                channel: voice.channel,
                program: voice.program,
                octave: voice.transpose.map(|semitones| semitones / 12),
                volume: voice.volume,
                at: place(source, voices_at.next().unwrap_or(0)),
            });
        }
        let mut plays = Vec::new();
        for play in piece.plays {
            let mut staves = Vec::new();
            for grand_stave in &play.grand_staves {
                for _ in &grand_stave.staves {
                    staves.push(bodies.next().expect("a body for each stave"));
                }
            }
            plays.push(PlayNode {
                voice: play.name,
                staves,
                at: place(source, plays_at.next().unwrap_or(0)),
            });
        }
        pieces.push(PieceNode {
            title: piece.title,
            composer: piece.composer,
            tempo: piece.tempo,
            beats: piece.beats,
            voices,
            plays,
        });
    }
    pieces
}

fn sequence_test(source: &str, expected: Piece) {
    let nodes = read(source);
    let piece = &sequence_pieces(&nodes).unwrap()[0];
    assert_eq!(piece, &expected);
}

fn sequence_test_fail(source: &str) {
    let nodes = read(source);
    assert!(sequence_pieces(&nodes).is_err());
}

fn sequence_error(source: &str) -> SequencingError {
    let nodes = read(source);
    sequence_pieces(&nodes).unwrap_err()
}

fn voice_test(source: &str, expected_notes: Vec<Note>) {
    let nodes = read(source);
    let piece = &sequence_pieces(&nodes).unwrap()[0];
    assert_eq!(piece.voices[0].notes, expected_notes);
}

fn note(midi: u8, length: u32) -> NoteNode {
    NoteNode::Note {
        midi,
        length,
        at: SourcePosition { line: 1, col: 1 },
    }
}

fn one_voice(bars_of_staves: Vec<Vec<Vec<NoteNode>>>) -> Vec<PieceNode<'static>> {
    let staves = bars_of_staves
        .into_iter()
        .map(|bars| StaveNode {
            bars: bars.into_iter().map(|notes| BarNode { notes }).collect(),
        })
        .collect();
    vec![PieceNode {
        voices: vec![VoiceNode {
            name: Some(b"V"),
            at: SourcePosition { line: 3, col: 7 },
            ..VoiceNode::default()
        }],
        plays: vec![PlayNode {
            voice: Some(b"V"),
            staves,
            at: SourcePosition { line: 5, col: 1 },
        }],
        ..PieceNode::default()
    }]
}

#[test]
fn sequence_empty_piece() {
    sequence_test("", Piece::default());
}

#[test]
fn piece_with_attributes() {
    sequence_test(
        "piece { title: \"One\", composer: \"Two\", tempo: 3, beats: 4 }",
        Piece {
            title: Some(b"One"),
            composer: Some(b"Two"),
            tempo: 3,
            beats: 4,
            ..Default::default()
        },
    );
}

#[test]
fn piece_with_empty_voice() {
    sequence_test(
        "voice Empty { }",
        Piece {
            voices: vec![Voice {
                name: Some(b"Empty"),
                ..Default::default()
            }],
            ..Default::default()
        },
    );
}

#[test]
fn voice_with_mismatched_play() {
    sequence_test_fail("voice OneNote { } play Different { :| C }");
}

#[test]
fn voice_with_single_note() {
    voice_test(
        "voice OneNote { } play OneNote { :| C }",
        vec![Note {
            midi: 60,
            length: 1,
            position: 0,
        }],
    );
}

#[test]
fn voice_with_two_notes() {
    voice_test(
        "voice TwoNote { } play TwoNote { :| C G }",
        vec![
            Note { midi: 60, length: 1, position: 0 },
            Note { midi: 67, length: 1, position: 1 },
        ],
    );
}

#[test]
fn voice_with_two_staves() {
    voice_test(
        "voice Diad { } play Diad { :| C ; :| G }",
        vec![
            Note { midi: 60, length: 1, position: 0 },
            Note { midi: 67, length: 1, position: 0 },
        ],
    );
}

#[test]
fn threes_against_twos() {
    voice_test(
        "voice Diad { } play Diad { :| C E G ; :| c g }",
        vec![
            Note { midi: 60, length: 2, position: 0 },
            Note { midi: 72, length: 3, position: 0 },
            Note { midi: 64, length: 2, position: 2 },
            Note { midi: 79, length: 3, position: 3 },
            Note { midi: 67, length: 2, position: 4 },
        ],
    );
}

#[test]
fn fail_when_notes_moved_out_of_range() {
    sequence_test_fail("voice V { octave: 1} play V { :| g^'''}");
}

#[test]
fn voice_with_note_lengths() {
    voice_test(
        "voice A { } play A { :| C4 -2 G2 }",
        vec![
            Note { midi: 60, length: 4, position: 0 },
            Note { midi: 67, length: 2, position: 6 },
        ],
    );
}

#[test]
fn voice_with_dots() {
    voice_test(
        "voice A { } play A { :| A..B C... .8 }",
        vec![
            Note { midi: 57, length: 3, position: 0 },
            Note { midi: 59, length: 1, position: 3 },
            Note { midi: 60, length: 12, position: 4 },
        ],
    );
}

#[test]
fn voice_with_leading_dots() {
    voice_test(
        "voice A { } play A { :| ...C E... G... -... }",
        vec![
            Note { midi: 60, length: 1, position: 3 },
            Note { midi: 64, length: 4, position: 4 },
            Note { midi: 67, length: 4, position: 8 },
        ],
    );
}

#[test]
fn dots_do_not_carry_across_staves() {
    voice_test(
        "voice A { } play A { :| CEGc | ; :| ...g }",
        vec![
            Note { midi: 60, length: 1, position: 0 },
            Note { midi: 64, length: 1, position: 1 },
            Note { midi: 67, length: 1, position: 2 },
            Note { midi: 72, length: 1, position: 3 },
            Note { midi: 79, length: 1, position: 3 },
        ],
    );
}

#[test]
fn notes_can_be_tied_across_bars() {
    voice_test(
        "voice A {} play A { :| CEG. | ..EC }",
        vec![
            Note { midi: 60, length: 1, position: 0 },
            Note { midi: 64, length: 1, position: 1 },
            Note { midi: 67, length: 4, position: 2 },
            Note { midi: 64, length: 1, position: 6 },
            Note { midi: 60, length: 1, position: 7 },
        ],
    );
}

#[test]
fn empty_source_gives_one_default_piece() {
    let tree = parse("", None).unwrap();
    assert_eq!(tree.pieces, vec![stave::parse::Piece::default()]);
    let nodes = read("");
    let pieces = sequence_pieces(&nodes).unwrap();
    assert_eq!(pieces.len(), 1);
    assert_eq!(pieces[0].tempo, 120);
    assert_eq!(pieces[0].beats, 4);
    assert_eq!(pieces[0].title, None);
    assert_eq!(pieces[0].composer, None);
    assert!(pieces[0].voices.is_empty());
}

#[test]
fn no_pieces_give_no_pieces() {
    assert_eq!(sequence_pieces(&[]).unwrap(), vec![]);
}

#[test]
fn sequencing_twice_gives_the_same() {
    let source = "voice Diad { octave: -1 } play Diad { :| C E G ; :| c g }";
    let first = sequence_pieces(&read(source));
    let second = sequence_pieces(&read(source));
    assert_eq!(first, second);
    assert_eq!(parse(source, None), parse(source, None));
}

#[test]
fn bars_of_two_and_three_give_six_divisions() {
    let nodes = read("voice Diad { } play Diad { :| C E G ; :| c g }");
    let pieces = sequence_pieces(&nodes).unwrap();
    assert_eq!(pieces[0].voices[0].divisions_per_bar, 6);
}

#[test]
fn divisions_are_the_least_common_multiple_of_all_bars() {
    let nodes = one_voice(vec![
        vec![vec![note(60, 4)], vec![note(60, 3), note(62, 3)]],
        vec![vec![note(64, 10)]],
    ]);
    let pieces = sequence_pieces(&nodes).unwrap();
    let voice = &pieces[0].voices[0];
    assert_eq!(voice.divisions_per_bar, 60);
    for length in [4, 6, 10] {
        assert_eq!(voice.divisions_per_bar % length, 0);
    }
    assert_eq!(
        voice.notes,
        vec![
            Note { midi: 60, length: 60, position: 0 },
            Note { midi: 64, length: 60, position: 0 },
            Note { midi: 60, length: 30, position: 60 },
            Note { midi: 62, length: 30, position: 90 },
        ]
    );
}

#[test]
fn a_voice_without_plays_has_one_division() {
    let nodes = read("voice Quiet { } voice Loud { } play Loud { :| C E G }");
    let pieces = sequence_pieces(&nodes).unwrap();
    assert_eq!(pieces[0].voices[0].divisions_per_bar, 1);
    assert!(pieces[0].voices[0].notes.is_empty());
    assert_eq!(pieces[0].voices[1].divisions_per_bar, 3);
    assert_eq!(pieces[0].voices[1].notes.len(), 3);
}

#[test]
fn leading_extensions_count_as_rests() {
    let dots = one_voice(vec![vec![vec![
        NoteNode::Extension { length: 1 },
        NoteNode::Extension { length: 2 },
        note(60, 1),
    ]]]);
    let rests = one_voice(vec![vec![vec![
        NoteNode::Rest { length: 1 },
        NoteNode::Rest { length: 2 },
        note(60, 1),
    ]]]);
    let expected = vec![Note { midi: 60, length: 1, position: 3 }];
    assert_eq!(sequence_pieces(&dots).unwrap()[0].voices[0].notes, expected);
    assert_eq!(sequence_pieces(&rests).unwrap()[0].voices[0].notes, expected);
}

#[test]
fn an_extension_after_a_rest_has_no_note() {
    let nodes = one_voice(vec![vec![vec![
        note(60, 1),
        NoteNode::Rest { length: 1 },
        NoteNode::Extension { length: 2 },
    ]]]);
    assert_eq!(
        sequence_pieces(&nodes).unwrap()[0].voices[0].notes,
        vec![Note { midi: 60, length: 1, position: 0 }]
    );
}

#[test]
fn an_undeclared_voice_is_named_in_the_error() {
    let error = sequence_error("voice OneNote { } play Different { :| C }");
    assert_eq!(
        error,
        SequencingError {
            line: 1,
            col: 19,
            error: ErrorType::UndeclaredVoice {
                voice_name: b"Different".to_vec(),
            },
        }
    );
}

#[test]
fn a_play_without_a_name_needs_a_voice_without_a_name() {
    let error = sequence_error("voice Named { }\nplay { :| C }");
    assert_eq!(
        error,
        SequencingError {
            line: 2,
            col: 1,
            error: ErrorType::VoicelessPlayBlock,
        }
    );
    voice_test(
        "voice { } play { :| C }",
        vec![Note { midi: 60, length: 1, position: 0 }],
    );
}

#[test]
fn the_first_unbound_play_fails() {
    let error = sequence_error("voice A { } play A { :| C } play B { :| C } play { :| C }");
    assert_eq!(
        error.error,
        ErrorType::UndeclaredVoice {
            voice_name: b"B".to_vec(),
        }
    );
}

#[test]
fn a_note_out_of_range_fails_at_its_place() {
    let error = sequence_error("voice V { octave: 1} play V { :| g^'''}");
    assert_eq!(
        error,
        SequencingError {
            line: 1,
            col: 34,
            error: ErrorType::InvalidNote {
                midi: 116,
                octave_offset: 1,
            },
        }
    );
}

#[test]
fn octaves_move_notes_by_twelve() {
    voice_test(
        "voice V { octave: -2 } play V { :| C g }",
        vec![
            Note { midi: 36, length: 1, position: 0 },
            Note { midi: 55, length: 1, position: 1 },
        ],
    );
    voice_test(
        "voice V { octave: 5 } play V { :| C G }",
        vec![
            Note { midi: 120, length: 1, position: 0 },
            Note { midi: 127, length: 1, position: 1 },
        ],
    );
    sequence_test_fail("voice V { octave: 5 } play V { :| C G^ }");
    sequence_test_fail("voice V { octave: -5 } play V { :| C B }");
    voice_test(
        "voice V { octave: -5 } play V { :| C }",
        vec![Note { midi: 0, length: 1, position: 0 }],
    );
}

#[test]
fn a_bar_without_length_has_no_time_base() {
    let nodes = one_voice(vec![vec![vec![note(60, 1)], vec![]]]);
    assert_eq!(
        sequence_pieces(&nodes).unwrap_err(),
        SequencingError {
            line: 3,
            col: 7,
            error: ErrorType::UnrepresentableTiming,
        }
    );
    let nodes = one_voice(vec![vec![vec![note(60, 0), NoteNode::Rest { length: 0 }]]]);
    assert_eq!(
        sequence_pieces(&nodes).unwrap_err().error,
        ErrorType::UnrepresentableTiming
    );
}

#[test]
fn a_time_base_beyond_32_bits_is_an_error() {
    let nodes = one_voice(vec![vec![vec![note(60, 65537)], vec![note(60, 65539)]]]);
    assert_eq!(
        sequence_pieces(&nodes).unwrap_err().error,
        ErrorType::UnrepresentableTiming
    );
    let nodes = one_voice(vec![vec![vec![note(60, u32::MAX), note(62, 1)]]]);
    assert_eq!(
        sequence_pieces(&nodes).unwrap_err().error,
        ErrorType::UnrepresentableTiming
    );
    let nodes = one_voice(vec![vec![vec![note(60, 65536)], vec![note(60, 65535)]]]);
    assert_eq!(
        sequence_pieces(&nodes).unwrap_err().error,
        ErrorType::UnrepresentableTiming
    );
}

#[test]
fn a_stave_beyond_the_last_position_is_an_error() {
    let nodes = one_voice(vec![vec![vec![note(60, 3_000_000_000)], vec![note(62, 3_000_000_000)]]]);
    assert_eq!(
        sequence_pieces(&nodes).unwrap_err().error,
        ErrorType::UnrepresentableTiming
    );
    let nodes = one_voice(vec![vec![vec![note(60, 3_000_000_000)]]]);
    assert_eq!(
        sequence_pieces(&nodes).unwrap()[0].voices[0].notes,
        vec![Note { midi: 60, length: 3_000_000_000, position: 0 }]
    );
    let nodes = one_voice(vec![vec![vec![note(60, u32::MAX)]]]);
    assert_eq!(
        sequence_pieces(&nodes).unwrap()[0].voices[0].notes,
        vec![Note { midi: 60, length: u32::MAX, position: 0 }]
    );
}

#[test]
fn timing_is_checked_before_notes() {
    let nodes = vec![PieceNode {
        voices: vec![VoiceNode {
            name: Some(b"V"),
            octave: Some(10),
            at: SourcePosition { line: 2, col: 2 },
            ..VoiceNode::default()
        }],
        plays: vec![PlayNode {
            voice: Some(b"V"),
            staves: vec![StaveNode {
                bars: vec![BarNode { notes: vec![note(60, 1)] }, BarNode { notes: vec![] }],
            }],
            at: SourcePosition::default(),
        }],
        ..PieceNode::default()
    }];
    assert_eq!(
        sequence_pieces(&nodes).unwrap_err(),
        SequencingError {
            line: 2,
            col: 2,
            error: ErrorType::UnrepresentableTiming,
        }
    );
}

#[test]
fn voice_attributes_are_kept_or_defaulted() {
    let nodes = read("voice A { program: 5, channel: 3, volume: 100, octave: 1 } voice B { }");
    let pieces = sequence_pieces(&nodes).unwrap();
    assert_eq!(
        pieces[0].voices,
        vec![
            Voice {
                name: Some(b"A"),
                channel: 3,
                program: 5,
                octave: 1,
                volume: Some(100),
                divisions_per_bar: 1,
                notes: vec![],
            },
            Voice {
                name: Some(b"B"),
                channel: 0,
                program: 0,
                octave: 0,
                volume: None,
                divisions_per_bar: 1,
                notes: vec![],
            },
        ]
    );
}

#[test]
fn two_voices_of_one_name_both_play() {
    let nodes = read("voice A { } voice A { octave: 1 } play A { :| C }");
    let pieces = sequence_pieces(&nodes).unwrap();
    assert_eq!(pieces[0].voices[0].notes, vec![Note { midi: 60, length: 1, position: 0 }]);
    assert_eq!(pieces[0].voices[1].notes, vec![Note { midi: 72, length: 1, position: 0 }]);
}

#[test]
fn plays_of_one_voice_are_merged_in_order_of_position() {
    let nodes = read("voice A { } play A { :| C E | G } play A { :| c | e g }");
    let pieces = sequence_pieces(&nodes).unwrap();
    assert_eq!(
        pieces[0].voices[0].notes,
        vec![
            Note { midi: 60, length: 1, position: 0 },
            Note { midi: 72, length: 2, position: 0 },
            Note { midi: 64, length: 1, position: 1 },
            Note { midi: 67, length: 2, position: 2 },
            Note { midi: 76, length: 1, position: 2 },
            Note { midi: 79, length: 1, position: 3 },
        ]
    );
}

#[test]
fn an_error_in_a_later_piece_leaves_no_piece() {
    let nodes = read("piece { voice A { } play A { :| C } } piece { play A { :| C } }");
    assert_eq!(nodes.len(), 2);
    assert_eq!(
        sequence_pieces(&nodes).unwrap_err().error,
        ErrorType::UndeclaredVoice {
            voice_name: b"A".to_vec(),
        }
    );
    assert_eq!(sequence_pieces(&nodes[..1]).unwrap().len(), 1);
}
