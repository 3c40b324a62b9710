//! The parse tree: pieces, voices, plays, grand staves and staves. Text in
//! it is borrowed from the source.

use crate::text::text_view;
use vstd::prelude::*;

verus! {

/// All pieces of a source, in order.
#[derive(Debug, Clone, PartialEq, Eq)]
pub struct ParseTree<'a> {
    pub pieces: Vec<Piece<'a>>,
}

/// A piece: its attributes, its voices and its plays, each in order.
#[derive(Debug, Default, Clone, PartialEq, Eq)]
pub struct Piece<'a> {
    pub title: Option<&'a [u8]>,
    pub composer: Option<&'a [u8]>,
    pub tempo: Option<u64>,
    pub beats: Option<u64>,
    pub voices: Vec<Voice<'a>>,
    pub plays: Vec<Play<'a>>,
}

/// A voice block: its name and attributes, as far as the source gives
/// them. `transpose` is in semitones.
#[derive(Debug, Default, Clone, PartialEq, Eq)]
pub struct Voice<'a> {
    pub name: Option<&'a [u8]>,
    pub program: Option<u8>,
    pub channel: Option<u8>,
    pub transpose: Option<i8>,
    pub volume: Option<u8>,
    pub drums: Option<bool>,
}

/// A play block: the name of its voice, if it gives one, and its grand
/// staves.
#[derive(Debug, Default, Clone, PartialEq, Eq)]
pub struct Play<'a> {
    pub name: Option<&'a [u8]>,
    pub grand_staves: Vec<GrandStave<'a>>,
}

/// Staves that sound together.
#[derive(Debug, Default, Clone, PartialEq, Eq)]
pub struct GrandStave<'a> {
    pub staves: Vec<Stave<'a>>,
}

/// One stave: the label before its colon, if it has one.
#[derive(Debug, Default, Clone, PartialEq, Eq)]
pub struct Stave<'a> {
    pub prefix: Option<&'a [u8]>,
}

/// The model of a [`Stave`].
pub struct StaveView {
    pub prefix: Option<Seq<u8>>,
}

/// The model of a [`GrandStave`].
pub struct GrandStaveView {
    pub staves: Seq<StaveView>,
}

/// The model of a [`Play`].
pub struct PlayView {
    pub name: Option<Seq<u8>>,
    pub grand_staves: Seq<GrandStaveView>,
}

/// The model of a [`Voice`].
pub struct VoiceView {
    pub name: Option<Seq<u8>>,
    pub program: Option<u8>,
    pub channel: Option<u8>,
    pub transpose: Option<i8>,
    pub volume: Option<u8>,
    pub drums: Option<bool>,
}

/// The model of a [`Piece`].
pub struct PieceView {
    pub title: Option<Seq<u8>>,
    pub composer: Option<Seq<u8>>,
    pub tempo: Option<u64>,
    pub beats: Option<u64>,
    pub voices: Seq<VoiceView>,
    pub plays: Seq<PlayView>,
}

/// The model of a [`ParseTree`].
pub struct ParseTreeView {
    pub pieces: Seq<PieceView>,
}

impl VoiceView {
    /// The voice of a block that gives no attribute.
    pub open spec fn named(name: Option<Seq<u8>>) -> VoiceView {
        VoiceView {
            name,
            program: None,
            channel: None,
            transpose: None,
            volume: None,
            drums: None,
        }
    }
}

impl PieceView {
    /// The piece of a source that gives nothing.
    pub open spec fn empty() -> PieceView {
        PieceView {
            title: None,
            composer: None,
            tempo: None,
            beats: None,
            voices: Seq::empty(),
            plays: Seq::empty(),
        }
    }
}

impl<'a> View for Stave<'a> {
    type V = StaveView;

    open spec fn view(&self) -> StaveView {
        StaveView { prefix: text_view(self.prefix) }
    }
}

/// The models of a list of staves.
pub open spec fn stave_views(staves: Seq<Stave>) -> Seq<StaveView> {
    Seq::new(staves.len(), |i: int| staves[i]@)
}

impl<'a> View for GrandStave<'a> {
    type V = GrandStaveView;

    open spec fn view(&self) -> GrandStaveView {
        GrandStaveView { staves: stave_views(self.staves@) }
    }
}

/// The models of a list of grand staves.
pub open spec fn grand_stave_views(grand_staves: Seq<GrandStave>) -> Seq<GrandStaveView> {
    Seq::new(grand_staves.len(), |i: int| grand_staves[i]@)
}

impl<'a> View for Play<'a> {
    type V = PlayView;

    open spec fn view(&self) -> PlayView {
        PlayView { name: text_view(self.name), grand_staves: grand_stave_views(self.grand_staves@) }
    }
}

/// The models of a list of plays.
pub open spec fn play_views(plays: Seq<Play>) -> Seq<PlayView> {
    Seq::new(plays.len(), |i: int| plays[i]@)
}

impl<'a> View for Voice<'a> {
    type V = VoiceView;

    open spec fn view(&self) -> VoiceView {
        VoiceView {
            name: text_view(self.name),
            program: self.program,
            channel: self.channel,
            transpose: self.transpose,
            volume: self.volume,
            drums: self.drums,
        }
    }
}

/// The models of a list of voices.
pub open spec fn voice_views(voices: Seq<Voice>) -> Seq<VoiceView> {
    Seq::new(voices.len(), |i: int| voices[i]@)
}

impl<'a> View for Piece<'a> {
    type V = PieceView;

    open spec fn view(&self) -> PieceView {
        PieceView {
            title: text_view(self.title),
            composer: text_view(self.composer),
            tempo: self.tempo,
            beats: self.beats,
            voices: voice_views(self.voices@),
            plays: play_views(self.plays@),
        }
    }
}

/// The models of a list of pieces.
pub open spec fn piece_views(pieces: Seq<Piece>) -> Seq<PieceView> {
    Seq::new(pieces.len(), |i: int| pieces[i]@)
}

impl<'a> View for ParseTree<'a> {
    type V = ParseTreeView;

    open spec fn view(&self) -> ParseTreeView {
        ParseTreeView { pieces: piece_views(self.pieces@) }
    }
}

} // verus!
