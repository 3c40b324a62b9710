//! What the sequencer produces: pieces whose voices hold notes laid out in
//! time.

use crate::text::text_view;
use vstd::prelude::*;

verus! {

/// Beats per minute of a piece that names no tempo.
pub const DEFAULT_TEMPO: u64 = 120;

/// Beats per bar of a piece that names none.
pub const DEFAULT_BEATS: u64 = 4;

/// The highest pitch a note can have.
pub const MAX_MIDI: u8 = 127;

/// A note: its pitch, and its length and position in divisions.
#[derive(Debug, Default, Clone, Copy, PartialEq, Eq)]
pub struct Note {
    pub midi: u8,
    pub length: u32,
    pub position: u32,
}

/// A voice with its notes in order of position.
#[derive(Debug, Clone, PartialEq, Eq)]
pub struct Voice<'a> {
    pub name: Option<&'a [u8]>,
    pub channel: u8,
    pub program: u8,
    /// Octaves by which every note of the voice is moved.
    pub octave: i8,
    /// Loudness out of 127, where the source gives one.
    pub volume: Option<u8>,
    pub divisions_per_bar: u32,
    pub notes: Vec<Note>,
}

/// The model of a [`Voice`].
pub struct VoiceView {
    pub name: Option<Seq<u8>>,
    pub channel: u8,
    pub program: u8,
    pub octave: i8,
    pub volume: Option<u8>,
    pub divisions_per_bar: nat,
    pub notes: Seq<Note>,
}

impl<'a> View for Voice<'a> {
    type V = VoiceView;

    open spec fn view(&self) -> VoiceView {
        VoiceView {
            name: text_view(self.name),
            channel: self.channel,
            program: self.program,
            octave: self.octave,
            volume: self.volume,
            divisions_per_bar: self.divisions_per_bar as nat,
            notes: self.notes@,
        }
    }
}

impl<'a> Default for Voice<'a> {
    /// A voice without a name and without notes, with one division per bar.
    fn default() -> (voice: Self)
        ensures
            voice@ == (VoiceView {
                name: None,
                channel: 0,
                program: 0,
                octave: 0,
                volume: None,
                divisions_per_bar: 1,
                notes: Seq::empty(),
            }),
    {
        Voice {
            name: None,
            channel: 0,
            program: 0,
            octave: 0,
            volume: None,
            divisions_per_bar: 1,
            notes: Vec::new(),
        }
    }
}

/// A piece with its voices in the order of their declaration.
#[derive(Debug, Clone, PartialEq, Eq)]
pub struct Piece<'a> {
    pub title: Option<&'a [u8]>,
    pub composer: Option<&'a [u8]>,
    pub tempo: u64,
    pub beats: u64,
    pub voices: Vec<Voice<'a>>,
}

/// The model of a [`Piece`].
pub struct PieceView {
    pub title: Option<Seq<u8>>,
    pub composer: Option<Seq<u8>>,
    pub tempo: u64,
    pub beats: u64,
    pub voices: Seq<VoiceView>,
}

impl<'a> View for Piece<'a> {
    type V = PieceView;

    open spec fn view(&self) -> PieceView {
        PieceView {
            title: text_view(self.title),
            composer: text_view(self.composer),
            tempo: self.tempo,
            beats: self.beats,
            voices: voice_views(self.voices@),
        }
    }
}

impl<'a> Default for Piece<'a> {
    /// A piece without voices, with the default tempo and beats.
    fn default() -> (piece: Self)
        ensures
            piece@ == (PieceView {
                title: None,
                composer: None,
                tempo: DEFAULT_TEMPO,
                beats: DEFAULT_BEATS,
                voices: Seq::empty(),
            }),
    {
        let piece = Piece {
            title: None,
            composer: None,
            tempo: DEFAULT_TEMPO,
            beats: DEFAULT_BEATS,
            voices: Vec::new(),
        };
        assert(piece@.voices =~= Seq::empty());
        piece
    }
}

/// The models of a list of voices.
pub open spec fn voice_views(voices: Seq<Voice>) -> Seq<VoiceView> {
    Seq::new(voices.len(), |i: int| voices[i]@)
}

/// The models of a list of pieces.
pub open spec fn piece_views(pieces: Seq<Piece>) -> Seq<PieceView> {
    Seq::new(pieces.len(), |i: int| pieces[i]@)
}

} // verus!
