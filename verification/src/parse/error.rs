//! Why a source could not be parsed.

use vstd::prelude::*;
use vstd::string::StringExecFns;

verus! {

/// The first thing in a source that breaks a rule of the notation.
#[derive(Debug, Clone, PartialEq, Eq)]
pub enum ParseError {
    /// `expected` was due where the source ends.
    UnexpectedEnd { expected: Vec<u8> },
    /// `expected` was due where `found` stands.
    Unexpected { expected: Vec<u8>, found: u8 },
    /// No number of the attribute's type stands where one is due.
    InvalidNumber,
    /// A string was due, and what stands there does not open with `"`.
    UnopenedString,
    /// A string is not closed before the source ends.
    UnclosedString,
    /// Neither `true` nor `false` stands where one of them is due.
    InvalidBool,
    /// The attribute's name is none that its block knows.
    InvalidAttributeName,
    /// After the value of an attribute of a piece stands something other
    /// than the end of the source, a comma, a newline, a semicolon or `}`.
    UnterminatedAttribute,
    /// In a play block a name and a colon are not followed by `|`.
    PlayAttribute,
    /// Among the staves of a grand stave a name and a colon are not
    /// followed by `|`.
    StaveAttribute,
    /// A name in a play block has no colon behind it.
    MissingValue { name: Vec<u8> },
    /// At `found` no piece can begin.
    StrayByte { found: u8 },
}

/// The model of a [`ParseError`].
pub enum ParseFailure {
    UnexpectedEnd { expected: Seq<u8> },
    Unexpected { expected: Seq<u8>, found: u8 },
    InvalidNumber,
    UnopenedString,
    UnclosedString,
    InvalidBool,
    InvalidAttributeName,
    UnterminatedAttribute,
    PlayAttribute,
    StaveAttribute,
    MissingValue { name: Seq<u8> },
    StrayByte { found: u8 },
}

impl View for ParseError {
    type V = ParseFailure;

    open spec fn view(&self) -> ParseFailure {
        match *self {
            ParseError::UnexpectedEnd { expected } => ParseFailure::UnexpectedEnd {
                expected: expected@,
            },
            ParseError::Unexpected { expected, found } => ParseFailure::Unexpected {
                expected: expected@,
                found,
            },
            ParseError::InvalidNumber => ParseFailure::InvalidNumber,
            ParseError::UnopenedString => ParseFailure::UnopenedString,
            ParseError::UnclosedString => ParseFailure::UnclosedString,
            ParseError::InvalidBool => ParseFailure::InvalidBool,
            ParseError::InvalidAttributeName => ParseFailure::InvalidAttributeName,
            ParseError::UnterminatedAttribute => ParseFailure::UnterminatedAttribute,
            ParseError::PlayAttribute => ParseFailure::PlayAttribute,
            ParseError::StaveAttribute => ParseFailure::StaveAttribute,
            ParseError::MissingValue { name } => ParseFailure::MissingValue { name: name@ },
            ParseError::StrayByte { found } => ParseFailure::StrayByte { found },
        }
    }
}

/// The text that bytes are shown as: what `String::from_utf8_lossy` makes of
/// them.
pub uninterp spec fn lossy_text(bytes: Seq<u8>) -> Seq<char>;

/// Turns bytes into text to show, with `String::from_utf8_lossy` of the
/// standard library. Nothing is proved of the conversion; the contract only
/// gives its result a name, as a function of the bytes.
#[verifier::external_body]
fn show(bytes: &[u8]) -> (text: String)
    ensures
        text@ == lossy_text(bytes@),
{
    String::from_utf8_lossy(bytes).into_owned()
}

/// The message of an error.
pub open spec fn message_of(failure: ParseFailure) -> Seq<char> {
    match failure {
        ParseFailure::UnexpectedEnd { expected } => "Expected `"@ + lossy_text(expected)
            + "` but reached the end of the file."@,
        ParseFailure::Unexpected { expected, found } => "Expected `"@ + lossy_text(expected)
            + "` but saw `"@ + lossy_text(seq![found]) + "`"@,
        ParseFailure::InvalidNumber => "Could not parse number"@,
        ParseFailure::UnopenedString => "String must open with `\"`"@,
        ParseFailure::UnclosedString => "Unclosed string!"@,
        ParseFailure::InvalidBool => "Failed to parse bool."@,
        ParseFailure::InvalidAttributeName => "Invalid attribute name"@,
        ParseFailure::UnterminatedAttribute =>
            "Attributes must end with a newline, comma, or semi-colon."@,
        ParseFailure::PlayAttribute =>
            "Attributes in play blocks not currently supported. Use `|` to start a stave."@,
        ParseFailure::StaveAttribute =>
            "Attributes between staves not currently supported. Use `|` to start a stave."@,
        ParseFailure::MissingValue { name } => "Attribute `"@ + lossy_text(name)
            + "` is missing a value."@,
        ParseFailure::StrayByte { found } => "Unexpected `"@ + lossy_text(seq![found]) + "`"@,
    }
}

impl ParseError {
    /// The message of the error: what was due and what was found.
    pub fn message(&self) -> (text: String)
        ensures
            text@ == message_of(self@),
    {
        match self {
            ParseError::UnexpectedEnd { expected } => {
                let mut text = String::from_str("Expected `");
                text.append(show(expected.as_slice()).as_str());
                text.append("` but reached the end of the file.");
                text
            },
            ParseError::Unexpected { expected, found } => {
                let byte: [u8; 1] = [*found];
                assert(byte@ =~= seq![*found]);
                let mut text = String::from_str("Expected `");
                text.append(show(expected.as_slice()).as_str());
                text.append("` but saw `");
                text.append(show(&byte).as_str());
                text.append("`");
                text
            },
            ParseError::InvalidNumber => String::from_str("Could not parse number"),
            ParseError::UnopenedString => String::from_str("String must open with `\"`"),
            ParseError::UnclosedString => String::from_str("Unclosed string!"),
            ParseError::InvalidBool => String::from_str("Failed to parse bool."),
            ParseError::InvalidAttributeName => String::from_str("Invalid attribute name"),
            ParseError::UnterminatedAttribute => String::from_str(
                "Attributes must end with a newline, comma, or semi-colon.",
            ),
            ParseError::PlayAttribute => String::from_str(
                "Attributes in play blocks not currently supported. Use `|` to start a stave.",
            ),
            ParseError::StaveAttribute => String::from_str(
                "Attributes between staves not currently supported. Use `|` to start a stave.",
            ),
            ParseError::MissingValue { name } => {
                let mut text = String::from_str("Attribute `");
                text.append(show(name.as_slice()).as_str());
                text.append("` is missing a value.");
                text
            },
            ParseError::StrayByte { found } => {
                let byte: [u8; 1] = [*found];
                assert(byte@ =~= seq![*found]);
                let mut text = String::from_str("Unexpected `");
                text.append(show(&byte).as_str());
                text.append("`");
                text
            },
        }
    }
}

} // verus!
