//! A front end for a textual music notation: a structural parser that scans
//! source bytes into a tree of pieces, voices, plays and staves, and a
//! sequencer that resolves lexed staves into timed notes per voice.

pub mod parse;
pub mod sequencing;
pub mod text;
