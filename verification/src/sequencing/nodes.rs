//! What the sequencer reads: pieces whose stave bodies are already lexed
//! into bars of note tokens.

use crate::text::text_view;
use vstd::prelude::*;

verus! {

/// A place in the source text.
#[derive(Debug, Default, Clone, Copy, PartialEq, Eq)]
pub struct SourcePosition {
    pub line: u32,
    pub col: u32,
}

/// One token of a bar.
#[derive(Debug, Clone, Copy, PartialEq, Eq)]
pub enum NoteNode {
    /// Silence for `length` units.
    Rest { length: u32 },
    /// Lengthens the note before it by `length` units.
    Extension { length: u32 },
    /// A pitch sounding for `length` units.
    Note { midi: u8, length: u32, at: SourcePosition },
}

impl NoteNode {
    /// The time the token takes, in the units of its bar.
    pub open spec fn duration(self) -> nat {
        match self {
            NoteNode::Rest { length } => length as nat,
            NoteNode::Extension { length } => length as nat,
            NoteNode::Note { length, .. } => length as nat,
        }
    }

    /// The time the token takes, in the units of its bar.
    pub fn length(&self) -> (length: u32)
        ensures
            length == self.duration(),
    {
        match *self {
            NoteNode::Rest { length } => length,
            NoteNode::Extension { length } => length,
            NoteNode::Note { length, .. } => length,
        }
    }
}

/// A bar: its tokens in order.
#[derive(Debug, Default, Clone, PartialEq, Eq)]
pub struct BarNode {
    pub notes: Vec<NoteNode>,
}

impl View for BarNode {
    type V = Seq<NoteNode>;

    open spec fn view(&self) -> Seq<NoteNode> {
        self.notes@
    }
}

/// A stave: its bars in order.
#[derive(Debug, Default, Clone, PartialEq, Eq)]
pub struct StaveNode {
    pub bars: Vec<BarNode>,
}

impl View for StaveNode {
    type V = Seq<Seq<NoteNode>>;

    open spec fn view(&self) -> Seq<Seq<NoteNode>> {
        Seq::new(self.bars@.len(), |i: int| self.bars@[i]@)
    }
}

/// A play block: the voice it names, if any, and its staves.
#[derive(Debug, Default, Clone, PartialEq, Eq)]
pub struct PlayNode<'a> {
    pub voice: Option<&'a [u8]>,
    pub staves: Vec<StaveNode>,
    pub at: SourcePosition,
}

/// The model of a [`PlayNode`].
pub struct PlayView {
    pub voice: Option<Seq<u8>>,
    pub staves: Seq<Seq<Seq<NoteNode>>>,
    pub at: SourcePosition,
}

impl<'a> View for PlayNode<'a> {
    type V = PlayView;

    open spec fn view(&self) -> PlayView {
        PlayView {
            voice: text_view(self.voice),
            staves: stave_views(self.staves@),
            at: self.at,
        }
    }
}

/// A voice declaration.
#[derive(Debug, Default, Clone, PartialEq, Eq)]
pub struct VoiceNode<'a> {
    pub name: Option<&'a [u8]>,
    pub channel: Option<u8>,
    pub program: Option<u8>,
    pub octave: Option<i8>,
    pub volume: Option<u8>,
    pub at: SourcePosition,
}

/// The model of a [`VoiceNode`].
pub struct VoiceNodeView {
    pub name: Option<Seq<u8>>,
    pub channel: Option<u8>,
    pub program: Option<u8>,
    pub octave: Option<i8>,
    pub volume: Option<u8>,
    pub at: SourcePosition,
}

impl<'a> View for VoiceNode<'a> {
    type V = VoiceNodeView;

    open spec fn view(&self) -> VoiceNodeView {
        VoiceNodeView {
            name: text_view(self.name),
            channel: self.channel,
            program: self.program,
            octave: self.octave,
            volume: self.volume,
            at: self.at,
        }
    }
}

/// A piece: its attributes, voices and plays.
#[derive(Debug, Default, Clone, PartialEq, Eq)]
pub struct PieceNode<'a> {
    pub title: Option<&'a [u8]>,
    pub composer: Option<&'a [u8]>,
    pub tempo: Option<u64>,
    pub beats: Option<u64>,
    pub voices: Vec<VoiceNode<'a>>,
    pub plays: Vec<PlayNode<'a>>,
}

/// The model of a [`PieceNode`].
pub struct PieceNodeView {
    pub title: Option<Seq<u8>>,
    pub composer: Option<Seq<u8>>,
    pub tempo: Option<u64>,
    pub beats: Option<u64>,
    pub voices: Seq<VoiceNodeView>,
    pub plays: Seq<PlayView>,
}

impl<'a> View for PieceNode<'a> {
    type V = PieceNodeView;

    open spec fn view(&self) -> PieceNodeView {
        PieceNodeView {
            title: text_view(self.title),
            composer: text_view(self.composer),
            tempo: self.tempo,
            beats: self.beats,
            voices: voice_views(self.voices@),
            plays: play_views(self.plays@),
        }
    }
}

/// The models of a list of staves.
pub open spec fn stave_views(staves: Seq<StaveNode>) -> Seq<Seq<Seq<NoteNode>>> {
    Seq::new(staves.len(), |i: int| staves[i]@)
}

/// The models of a list of plays.
pub open spec fn play_views(plays: Seq<PlayNode>) -> Seq<PlayView> {
    Seq::new(plays.len(), |i: int| plays[i]@)
}

/// The models of a list of voice declarations.
pub open spec fn voice_views(voices: Seq<VoiceNode>) -> Seq<VoiceNodeView> {
    Seq::new(voices.len(), |i: int| voices[i]@)
}

/// The models of a list of pieces.
pub open spec fn piece_views(pieces: Seq<PieceNode>) -> Seq<PieceNodeView> {
    Seq::new(pieces.len(), |i: int| pieces[i]@)
}

} // verus!
