//! Why a piece could not be sequenced.

use vstd::prelude::*;

verus! {

/// The kind of a sequencing error.
#[derive(Debug, Clone, PartialEq, Eq)]
pub enum ErrorType {
    /// A play names a voice that the piece does not declare.
    UndeclaredVoice { voice_name: Vec<u8> },
    /// A play names no voice and the piece declares no nameless voice.
    VoicelessPlayBlock,
    /// Moved by the voice's octaves, a note leaves the range of pitches.
    InvalidNote { midi: u8, octave_offset: i8 },
    /// The bars played by a voice have no common time base in 32 bits, or a
    /// stave of the voice runs past the last position of 32 bits.
    UnrepresentableTiming,
}

/// The model of an [`ErrorType`].
pub enum ErrorKind {
    UndeclaredVoice { voice_name: Seq<u8> },
    VoicelessPlayBlock,
    InvalidNote { midi: u8, octave_offset: i8 },
    UnrepresentableTiming,
}

impl View for ErrorType {
    type V = ErrorKind;

    open spec fn view(&self) -> ErrorKind {
        match *self {
            ErrorType::UndeclaredVoice { voice_name } => ErrorKind::UndeclaredVoice {
                voice_name: voice_name@,
            },
            ErrorType::VoicelessPlayBlock => ErrorKind::VoicelessPlayBlock,
            ErrorType::InvalidNote { midi, octave_offset } => ErrorKind::InvalidNote {
                midi,
                octave_offset,
            },
            ErrorType::UnrepresentableTiming => ErrorKind::UnrepresentableTiming,
        }
    }
}

/// A sequencing error and the place in the source that it is about.
#[derive(Debug, Clone, PartialEq, Eq)]
pub struct SequencingError {
    pub line: u32,
    pub col: u32,
    pub error: ErrorType,
}

/// The model of a [`SequencingError`].
pub struct SequencingFailure {
    pub line: u32,
    pub col: u32,
    pub error: ErrorKind,
}

impl View for SequencingError {
    type V = SequencingFailure;

    open spec fn view(&self) -> SequencingFailure {
        SequencingFailure { line: self.line, col: self.col, error: self.error@ }
    }
}

} // verus!
