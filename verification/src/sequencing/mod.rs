//! The sequencer: binds plays to voices, reconciles bar lengths into one
//! time base per voice and lays the notes out in time.

pub mod arith;
pub mod data;
pub mod error;
pub mod nodes;
pub mod order;
pub mod resolve;
pub mod timebase;

pub use crate::sequencing::data::{
    Note, Piece, PieceView, Voice, VoiceView, DEFAULT_BEATS, DEFAULT_TEMPO, MAX_MIDI,
};
pub use crate::sequencing::error::{ErrorKind, ErrorType, SequencingError, SequencingFailure};
pub use crate::sequencing::nodes::{
    piece_views, play_views, voice_views, BarNode, NoteNode, PieceNode, PieceNodeView, PlayNode,
    PlayView, SourcePosition, StaveNode, VoiceNode, VoiceNodeView,
};
use crate::sequencing::order::{
    in_order, is_ordered, lemma_in_order_is_ordered, lemma_in_order_is_stable,
    lemma_in_order_permutes, sort_by_position, starts_at,
};
use crate::sequencing::resolve::{
    lemma_notes_fail_where_out_of_tune, notes_as_met, plays_in_tune, resolve_plays,
};
use crate::sequencing::timebase::{
    bound_bar_lengths, check_staves_fit, is_common_multiple, lemma_lcm_fold_zero,
    lemma_least_common_multiple, time_base, timing_representable, voice_time_base,
};
use crate::text::{text_equal, text_view};
use vstd::prelude::*;
use vstd::slice::slice_to_vec;

verus! {

/// Whether a piece declares a voice of the given name; the voice without a
/// name, where the name is `None`.
pub open spec fn is_declared(voices: Seq<VoiceNodeView>, name: Option<Seq<u8>>) -> bool {
    exists|v: int| 0 <= v < voices.len() && (#[trigger] voices[v]).name == name
}

/// The error for a play that is bound to no voice.
pub open spec fn unbound(play: PlayView) -> SequencingFailure {
    SequencingFailure {
        line: play.at.line,
        col: play.at.col,
        error: match play.voice {
            Some(voice_name) => ErrorKind::UndeclaredVoice { voice_name },
            None => ErrorKind::VoicelessPlayBlock,
        },
    }
}

/// The error for the first play from the `p`-th on whose voice the piece
/// does not declare, if there is one.
pub open spec fn first_unbound(plays: Seq<PlayView>, voices: Seq<VoiceNodeView>, p: int)
    -> Option<SequencingFailure>
    decreases plays.len() - p,
{
    if p < 0 || p >= plays.len() {
        None
    } else if !is_declared(voices, plays[p].voice) {
        Some(unbound(plays[p]))
    } else {
        first_unbound(plays, voices, p + 1)
    }
}

/// The error for a voice whose notes cannot be laid out in 32 bits.
pub open spec fn unrepresentable(voice: VoiceNodeView) -> SequencingFailure {
    SequencingFailure {
        line: voice.at.line,
        col: voice.at.col,
        error: ErrorKind::UnrepresentableTiming,
    }
}

/// The octaves by which the notes of a voice are moved.
pub open spec fn octave_of(voice: VoiceNodeView) -> i8 {
    match voice.octave {
        Some(octave) => octave,
        None => 0,
    }
}

/// A voice resolved against the plays of its piece: its attributes, with 0
/// for a channel, program or octave that the source does not give, its time
/// base, and its notes in order of position. An error where the timing
/// cannot be represented, or else where a note leaves the range of pitches.
pub open spec fn sequenced_voice(plays: Seq<PlayView>, voice: VoiceNodeView) -> Result<
    VoiceView,
    SequencingFailure,
> {
    let base = time_base(plays, voice.name);
    if !timing_representable(plays, voice.name) {
        Err(unrepresentable(voice))
    } else {
        match notes_as_met(plays, voice.name, base, octave_of(voice)) {
            Ok(met) => Ok(
                VoiceView {
                    name: voice.name,
                    channel: match voice.channel {
                        Some(channel) => channel,
                        None => 0,
                    },
                    program: match voice.program {
                        Some(program) => program,
                        None => 0,
                    },
                    octave: octave_of(voice),
                    volume: voice.volume,
                    divisions_per_bar: base,
                    notes: in_order(met),
                },
            ),
            Err(failure) => Err(failure),
        }
    }
}

/// The voices resolved so far followed by those from the `v`-th on, or the
/// first error among the latter.
pub open spec fn voices_scan(
    done: Seq<VoiceView>,
    plays: Seq<PlayView>,
    voices: Seq<VoiceNodeView>,
    v: int,
) -> Result<Seq<VoiceView>, SequencingFailure>
    decreases voices.len() - v,
{
    if v < 0 || v >= voices.len() {
        Ok(done)
    } else {
        match sequenced_voice(plays, voices[v]) {
            Ok(voice) => voices_scan(done.push(voice), plays, voices, v + 1),
            Err(failure) => Err(failure),
        }
    }
}

/// A piece resolved: an error for its first play that is bound to no
/// voice; else its attributes, with defaults for a tempo or beats that the
/// source does not give, and its voices resolved in order, or the first
/// error among them.
pub open spec fn sequenced_piece(piece: PieceNodeView) -> Result<PieceView, SequencingFailure> {
    match first_unbound(piece.plays, piece.voices, 0) {
        Some(failure) => Err(failure),
        None => match voices_scan(Seq::empty(), piece.plays, piece.voices, 0) {
            Ok(voices) => Ok(
                PieceView {
                    title: piece.title,
                    composer: piece.composer,
                    tempo: match piece.tempo {
                        Some(tempo) => tempo,
                        None => DEFAULT_TEMPO,
                    },
                    beats: match piece.beats {
                        Some(beats) => beats,
                        None => DEFAULT_BEATS,
                    },
                    voices,
                },
            ),
            Err(failure) => Err(failure),
        },
    }
}

/// The pieces resolved so far followed by those from the `i`-th on, or the
/// first error among the latter.
pub open spec fn pieces_scan(done: Seq<PieceView>, pieces: Seq<PieceNodeView>, i: int) -> Result<
    Seq<PieceView>,
    SequencingFailure,
>
    decreases pieces.len() - i,
{
    if i < 0 || i >= pieces.len() {
        Ok(done)
    } else {
        match sequenced_piece(pieces[i]) {
            Ok(piece) => pieces_scan(done.push(piece), pieces, i + 1),
            Err(failure) => Err(failure),
        }
    }
}

/// All pieces resolved in order, or the first error met.
pub open spec fn sequenced(pieces: Seq<PieceNodeView>) -> Result<
    Seq<PieceView>,
    SequencingFailure,
> {
    pieces_scan(Seq::empty(), pieces, 0)
}

/// A play whose voice the piece does not declare is found from any play
/// before it on.
pub proof fn lemma_first_unbound_finds(
    plays: Seq<PlayView>,
    voices: Seq<VoiceNodeView>,
    p: int,
    q: int,
)
    requires
        0 <= p <= q < plays.len(),
        !is_declared(voices, plays[q].voice),
    ensures
        first_unbound(plays, voices, p) is Some,
        (forall|i: int| p <= i < q ==> is_declared(voices, #[trigger] plays[i].voice))
            ==> first_unbound(plays, voices, p) == Some(unbound(plays[q])),
    decreases q - p,
{
    if p < q && is_declared(voices, plays[p].voice) {
        lemma_first_unbound_finds(plays, voices, p + 1, q);
    }
}

/// The error for an unbound play names its voice, or says that it has
/// none.
pub proof fn lemma_first_unbound_kind(plays: Seq<PlayView>, voices: Seq<VoiceNodeView>, p: int)
    ensures
        first_unbound(plays, voices, p) matches Some(failure) ==> (failure.error
            is UndeclaredVoice || failure.error is VoicelessPlayBlock),
    decreases plays.len() - p,
{
    if 0 <= p < plays.len() && is_declared(voices, plays[p].voice) {
        lemma_first_unbound_kind(plays, voices, p + 1);
    }
}

/// A piece with a play whose voice it does not declare cannot be resolved:
/// the error is that of its first such play, which names the voice where
/// the play names one.
pub proof fn lemma_unbound_play_fails(piece: PieceNodeView, q: int)
    requires
        0 <= q < piece.plays.len(),
        !is_declared(piece.voices, piece.plays[q].voice),
    ensures
        sequenced_piece(piece) matches Err(failure) && (failure.error is UndeclaredVoice
            || failure.error is VoicelessPlayBlock),
        (forall|i: int| 0 <= i < q ==> is_declared(piece.voices, #[trigger] piece.plays[i].voice))
            ==> sequenced_piece(piece) == Err::<PieceView, SequencingFailure>(
            unbound(piece.plays[q]),
        ),
{
    lemma_first_unbound_finds(piece.plays, piece.voices, 0, q);
    lemma_first_unbound_kind(piece.plays, piece.voices, 0);
}

/// A voice whose timing can be represented cannot be resolved where its
/// octaves move a note that it plays out of the range of pitches, and only
/// there; the error is then that of a note out of range.
pub proof fn lemma_voice_fails_where_out_of_tune(plays: Seq<PlayView>, voice: VoiceNodeView)
    requires
        timing_representable(plays, voice.name),
    ensures
        sequenced_voice(plays, voice) is Ok <==> plays_in_tune(
            plays,
            0,
            voice.name,
            octave_of(voice),
        ),
        sequenced_voice(plays, voice) matches Err(failure) ==> failure.error is InvalidNote,
{
    lemma_notes_fail_where_out_of_tune(
        plays,
        voice.name,
        time_base(plays, voice.name),
        octave_of(voice),
    );
}

/// A resolved voice has as its divisions per bar the least common multiple
/// of the lengths of the bars it plays: a positive number that each of
/// these lengths divides, and that divides every other such number.
pub proof fn lemma_divisions_are_least_common_multiple(
    plays: Seq<PlayView>,
    voice: VoiceNodeView,
    m: nat,
)
    requires
        sequenced_voice(plays, voice) is Ok,
    ensures
        sequenced_voice(plays, voice)->Ok_0.divisions_per_bar == time_base(plays, voice.name),
        time_base(plays, voice.name) > 0,
        is_common_multiple(bound_bar_lengths(plays, voice.name), time_base(plays, voice.name)),
        is_common_multiple(bound_bar_lengths(plays, voice.name), m) ==> m % time_base(
            plays,
            voice.name,
        ) == 0,
        is_common_multiple(bound_bar_lengths(plays, voice.name), m) && m > 0 ==> time_base(
            plays,
            voice.name,
        ) <= m,
{
    let lengths = bound_bar_lengths(plays, voice.name);
    if exists|i: int| 0 <= i < lengths.len() && lengths[i] == 0 {
        let i = choose|i: int| 0 <= i < lengths.len() && lengths[i] == 0;
        lemma_lcm_fold_zero(1, lengths, i);
    }
    lemma_least_common_multiple(lengths);
}

/// The notes of a resolved voice are the notes that its plays give, each
/// as often as it is met, in order of position; notes of one position stand
/// in the order in which they are met.
pub proof fn lemma_voice_notes_are_in_order(
    plays: Seq<PlayView>,
    voice: VoiceNodeView,
    position: u32,
)
    requires
        sequenced_voice(plays, voice) is Ok,
    ensures
        ({
            let notes = sequenced_voice(plays, voice)->Ok_0.notes;
            let met = notes_as_met(
                plays,
                voice.name,
                time_base(plays, voice.name),
                octave_of(voice),
            )->Ok_0;
            &&& is_ordered(notes)
            &&& notes.to_multiset() == met.to_multiset()
            &&& notes.filter(starts_at(position)) == met.filter(starts_at(position))
        }),
{
    let met = notes_as_met(
        plays,
        voice.name,
        time_base(plays, voice.name),
        octave_of(voice),
    )->Ok_0;
    lemma_in_order_is_ordered(met);
    lemma_in_order_permutes(met);
    lemma_in_order_is_stable(met, position);
}

/// One piece that gives nothing resolves to one piece with the default
/// tempo and beats and no voice.
pub proof fn lemma_empty_piece()
    ensures
        sequenced(
            seq![
                PieceNodeView {
                    title: None,
                    composer: None,
                    tempo: None,
                    beats: None,
                    voices: Seq::empty(),
                    plays: Seq::empty(),
                },
            ],
        ) == Ok::<Seq<PieceView>, SequencingFailure>(
            seq![
                PieceView {
                    title: None,
                    composer: None,
                    tempo: DEFAULT_TEMPO,
                    beats: DEFAULT_BEATS,
                    voices: Seq::empty(),
                },
            ],
        ),
{
    let node = PieceNodeView {
        title: None,
        composer: None,
        tempo: None,
        beats: None,
        voices: Seq::empty(),
        plays: Seq::empty(),
    };
    let piece = PieceView {
        title: None,
        composer: None,
        tempo: DEFAULT_TEMPO,
        beats: DEFAULT_BEATS,
        voices: Seq::empty(),
    };
    assert(pieces_scan(seq![piece], seq![node], 1) == Ok::<Seq<PieceView>, SequencingFailure>(
        seq![piece],
    ));
}

/// Whether the voices hold one of the given name.
pub fn declares(voices: &Vec<VoiceNode>, name: Option<&[u8]>) -> (declared: bool)
    ensures
        declared == is_declared(voice_views(voices@), text_view(name)),
{
    let ghost views = voice_views(voices@);
    let mut v: usize = 0;
    while v < voices.len()
        invariant
            v <= voices@.len(),
            views == voice_views(voices@),
            forall|k: int| 0 <= k < v ==> (#[trigger] views[k]).name != text_view(name),
        decreases voices@.len() - v,
    {
        if text_equal(voices[v].name, name) {
            assert(views[v as int].name == text_view(name));
            return true;
        }
        v += 1;
    }
    false
}

/// Checks that every play of a piece is bound to a voice that the piece
/// declares.
pub fn check_bindings(plays: &Vec<PlayNode>, voices: &Vec<VoiceNode>) -> (result: Result<
    (),
    SequencingError,
>)
    ensures
        match first_unbound(play_views(plays@), voice_views(voices@), 0) {
            Some(failure) => result matches Err(error) && error@ == failure,
            None => result is Ok,
        },
{
    let ghost views = play_views(plays@);
    let mut p: usize = 0;
    while p < plays.len()
        invariant
            p <= plays@.len(),
            views == play_views(plays@),
            first_unbound(views, voice_views(voices@), 0) == first_unbound(
                views,
                voice_views(voices@),
                p as int,
            ),
        decreases plays@.len() - p,
    {
        let play = &plays[p];
        if !declares(voices, play.voice) {
            let error = match play.voice {
                Some(name) => ErrorType::UndeclaredVoice { voice_name: slice_to_vec(name) },
                None => ErrorType::VoicelessPlayBlock,
            };
            return Err(SequencingError { line: play.at.line, col: play.at.col, error });
        }
        p += 1;
    }
    Ok(())
}

/// Resolves one voice against the plays of its piece.
pub fn sequence_voice<'a>(plays: &Vec<PlayNode<'a>>, voice: &VoiceNode<'a>) -> (result: Result<
    Voice<'a>,
    SequencingError,
>)
    ensures
        match sequenced_voice(play_views(plays@), voice@) {
            Ok(resolved) => result matches Ok(out) && out@ == resolved,
            Err(failure) => result matches Err(error) && error@ == failure,
        },
{
    let timing_error = SequencingError {
        line: voice.at.line,
        col: voice.at.col,
        error: ErrorType::UnrepresentableTiming,
    };
    let base = match voice_time_base(plays, voice.name) {
        Some(base) => base,
        None => {
            return Err(timing_error);
        },
    };
    if !check_staves_fit(plays, voice.name, base) {
        return Err(timing_error);
    }
    let octave = match voice.octave {
        Some(octave) => octave,
        None => 0,
    };
    let met = match resolve_plays(plays, voice.name, base, octave) {
        Ok(met) => met,
        Err(error) => {
            return Err(error);
        },
    };
    Ok(
        Voice {
            name: voice.name,
            channel: match voice.channel {
                Some(channel) => channel,
                None => 0,
            },
            program: match voice.program {
                Some(program) => program,
                None => 0,
            },
            octave,
            volume: voice.volume,
            divisions_per_bar: base,
            notes: sort_by_position(met),
        },
    )
}

/// Resolves one piece.
pub fn sequence_piece<'a>(piece: &PieceNode<'a>) -> (result: Result<Piece<'a>, SequencingError>)
    ensures
        match sequenced_piece(piece@) {
            Ok(resolved) => result matches Ok(out) && out@ == resolved,
            Err(failure) => result matches Err(error) && error@ == failure,
        },
{
    match check_bindings(&piece.plays, &piece.voices) {
        Ok(()) => {},
        Err(error) => {
            return Err(error);
        },
    }
    let ghost plays = play_views(piece.plays@);
    let ghost nodes = voice_views(piece.voices@);
    let mut voices: Vec<Voice<'a>> = Vec::new();
    let mut v: usize = 0;
    assert(data::voice_views(voices@) =~= Seq::empty());
    while v < piece.voices.len()
        invariant
            v <= piece.voices@.len(),
            plays == play_views(piece.plays@),
            nodes == voice_views(piece.voices@),
            first_unbound(plays, nodes, 0) is None,
            voices_scan(Seq::empty(), plays, nodes, 0) == voices_scan(
                data::voice_views(voices@),
                plays,
                nodes,
                v as int,
            ),
        decreases piece.voices@.len() - v,
    {
        let ghost before = data::voice_views(voices@);
        match sequence_voice(&piece.plays, &piece.voices[v]) {
            Ok(voice) => {
                voices.push(voice);
                assert(data::voice_views(voices@) =~= before.push(voice@));
            },
            Err(error) => {
                return Err(error);
            },
        }
        v += 1;
    }
    Ok(
        Piece {
            title: piece.title,
            composer: piece.composer,
            tempo: match piece.tempo {
                Some(tempo) => tempo,
                None => DEFAULT_TEMPO,
            },
            beats: match piece.beats {
                Some(beats) => beats,
                None => DEFAULT_BEATS,
            },
            voices,
        },
    )
}

/// Resolves a list of pieces: binds each play to its voice, finds the time
/// base of each voice and lays its notes out in order of position.
///
/// The result is the value of [`sequenced`] on the pieces, and so depends on
/// nothing else: all pieces resolved, or the first error and no piece.
pub fn sequence_pieces<'a>(piece_nodes: &[PieceNode<'a>]) -> (result: Result<
    Vec<Piece<'a>>,
    SequencingError,
>)
    ensures
        match sequenced(piece_views(piece_nodes@)) {
            Ok(resolved) => result matches Ok(pieces) && data::piece_views(pieces@) == resolved,
            Err(failure) => result matches Err(error) && error@ == failure,
        },
{
    let ghost nodes = piece_views(piece_nodes@);
    let mut pieces: Vec<Piece<'a>> = Vec::new();
    let mut i: usize = 0;
    assert(data::piece_views(pieces@) =~= Seq::empty());
    while i < piece_nodes.len()
        invariant
            i <= piece_nodes@.len(),
            nodes == piece_views(piece_nodes@),
            sequenced(nodes) == pieces_scan(data::piece_views(pieces@), nodes, i as int),
        decreases piece_nodes@.len() - i,
    {
        let ghost before = data::piece_views(pieces@);
        match sequence_piece(&piece_nodes[i]) {
            Ok(piece) => {
                pieces.push(piece);
                assert(data::piece_views(pieces@) =~= before.push(piece@));
            },
            Err(error) => {
                return Err(error);
            },
        }
        i += 1;
    }
    Ok(pieces)
}

} // verus!
