//! The bytes and words that the notation gives a meaning.

use vstd::prelude::*;

verus! {

/// The tab.
pub const TAB: u8 = 9;

/// The newline.
pub const NEWLINE: u8 = 10;

/// The carriage return.
pub const CARRIAGE_RETURN: u8 = 13;

/// The space.
pub const SPACE: u8 = 32;

/// The double quote, `"`.
pub const QUOTE: u8 = 34;

/// The hash, `#`.
pub const HASH: u8 = 35;

/// The apostrophe, `'`.
pub const APOSTROPHE: u8 = 39;

/// The comma.
pub const COMMA: u8 = 44;

/// The minus sign.
pub const MINUS: u8 = 45;

/// The slash, `/`.
pub const SLASH: u8 = 47;

/// The digit `0`.
pub const DIGIT_ZERO: u8 = 48;

/// The digit `9`.
pub const DIGIT_NINE: u8 = 57;

/// The colon.
pub const COLON: u8 = 58;

/// The semicolon.
pub const SEMICOLON: u8 = 59;

/// The letter `A`.
pub const UPPER_A: u8 = 65;

/// The letter `Z`.
pub const UPPER_Z: u8 = 90;

/// The backslash.
pub const BACKSLASH: u8 = 92;

/// The underscore.
pub const UNDERSCORE: u8 = 95;

/// The letter `a`.
pub const LOWER_A: u8 = 97;

/// The letter `z`.
pub const LOWER_Z: u8 = 122;

/// The opening brace, `{`.
pub const OPEN_BRACE: u8 = 123;

/// The bar, `|`.
pub const BAR: u8 = 124;

/// The closing brace, `}`.
pub const CLOSE_BRACE: u8 = 125;

/// Space, tab and carriage return: the blanks within a line.
pub open spec fn is_whitespace_byte(ch: u8) -> bool {
    ch == SPACE || ch == TAB || ch == CARRIAGE_RETURN
}

/// Letters, digits and the underscore: what a keyword must not run into.
pub open spec fn is_ident_byte(ch: u8) -> bool {
    ch == UNDERSCORE || (LOWER_A <= ch <= LOWER_Z) || (UPPER_A <= ch <= UPPER_Z) || (DIGIT_ZERO
        <= ch <= DIGIT_NINE)
}

/// What a name is made of: the bytes of an identifier, comma, apostrophe
/// and hash.
pub open spec fn is_attr_byte(ch: u8) -> bool {
    is_ident_byte(ch) || ch == COMMA || ch == APOSTROPHE || ch == HASH
}

/// The decimal digits.
pub open spec fn is_digit_byte(ch: u8) -> bool {
    DIGIT_ZERO <= ch <= DIGIT_NINE
}

/// A class of bytes that a scan runs over.
pub enum ByteClass {
    /// The bytes of a name.
    Attr,
    /// The decimal digits.
    Digit,
    /// All bytes but the newline.
    InLine,
    /// All bytes but newline, semicolon and closing brace.
    InStave,
}

impl ByteClass {
    /// Whether a byte is of the class.
    pub open spec fn has(self, ch: u8) -> bool {
        match self {
            ByteClass::Attr => is_attr_byte(ch),
            ByteClass::Digit => is_digit_byte(ch),
            ByteClass::InLine => ch != NEWLINE,
            ByteClass::InStave => ch != NEWLINE && ch != SEMICOLON && ch != CLOSE_BRACE,
        }
    }
}

/// The mark that opens a comment: `//`.
pub open spec fn comment_mark() -> Seq<u8> {
    seq![SLASH, SLASH]
}

/// The word `piece`.
pub open spec fn word_piece() -> Seq<u8> {
    seq![112u8, 105u8, 101u8, 99u8, 101u8]
}

/// The word `voice`.
pub open spec fn word_voice() -> Seq<u8> {
    seq![118u8, 111u8, 105u8, 99u8, 101u8]
}

/// The word `play`.
pub open spec fn word_play() -> Seq<u8> {
    seq![112u8, 108u8, 97u8, 121u8]
}

/// The word `true`.
pub open spec fn word_true() -> Seq<u8> {
    seq![116u8, 114u8, 117u8, 101u8]
}

/// The word `false`.
pub open spec fn word_false() -> Seq<u8> {
    seq![102u8, 97u8, 108u8, 115u8, 101u8]
}

/// The word `tempo`.
pub open spec fn word_tempo() -> Seq<u8> {
    seq![116u8, 101u8, 109u8, 112u8, 111u8]
}

/// The word `beats`.
pub open spec fn word_beats() -> Seq<u8> {
    seq![98u8, 101u8, 97u8, 116u8, 115u8]
}

/// The word `title`.
pub open spec fn word_title() -> Seq<u8> {
    seq![116u8, 105u8, 116u8, 108u8, 101u8]
}

/// The word `composer`.
pub open spec fn word_composer() -> Seq<u8> {
    seq![99u8, 111u8, 109u8, 112u8, 111u8, 115u8, 101u8, 114u8]
}

/// The word `program`.
pub open spec fn word_program() -> Seq<u8> {
    seq![112u8, 114u8, 111u8, 103u8, 114u8, 97u8, 109u8]
}

/// The word `channel`.
pub open spec fn word_channel() -> Seq<u8> {
    seq![99u8, 104u8, 97u8, 110u8, 110u8, 101u8, 108u8]
}

/// The word `octave`.
pub open spec fn word_octave() -> Seq<u8> {
    seq![111u8, 99u8, 116u8, 97u8, 118u8, 101u8]
}

/// The word `volume`.
pub open spec fn word_volume() -> Seq<u8> {
    seq![118u8, 111u8, 108u8, 117u8, 109u8, 101u8]
}

/// The word `drums`.
pub open spec fn word_drums() -> Seq<u8> {
    seq![100u8, 114u8, 117u8, 109u8, 115u8]
}

/// Whether a byte is a blank within a line.
pub fn is_whitespace(ch: u8) -> (blank: bool)
    ensures
        blank == is_whitespace_byte(ch),
{
    ch == SPACE || ch == TAB || ch == CARRIAGE_RETURN
}

/// Whether a byte can stand in an identifier.
pub fn is_ident_char(ch: u8) -> (ident: bool)
    ensures
        ident == is_ident_byte(ch),
{
    ch == UNDERSCORE || (LOWER_A <= ch && ch <= LOWER_Z) || (UPPER_A <= ch && ch <= UPPER_Z) || (
    DIGIT_ZERO <= ch && ch <= DIGIT_NINE)
}

/// Whether a byte can stand in a name.
pub fn is_attr_char(ch: u8) -> (attr: bool)
    ensures
        attr == is_attr_byte(ch),
{
    is_ident_char(ch) || ch == COMMA || ch == APOSTROPHE || ch == HASH
}

/// Whether a byte is a decimal digit.
pub fn is_digit(ch: u8) -> (digit: bool)
    ensures
        digit == is_digit_byte(ch),
{
    DIGIT_ZERO <= ch && ch <= DIGIT_NINE
}

/// Whether `text` is the given word.
pub fn is_word(text: &[u8], word: &[u8]) -> (same: bool)
    ensures
        same == (text@ == word@),
{
    crate::text::bytes_equal(text, word)
}

/// The bytes of the word `piece`.
pub fn piece_word() -> (word: [u8; 5])
    ensures
        word@ == word_piece(),
{
    let word: [u8; 5] = [112, 105, 101, 99, 101];
    word
}

/// The bytes of the word `voice`.
pub fn voice_word() -> (word: [u8; 5])
    ensures
        word@ == word_voice(),
{
    let word: [u8; 5] = [118, 111, 105, 99, 101];
    word
}

/// The bytes of the word `play`.
pub fn play_word() -> (word: [u8; 4])
    ensures
        word@ == word_play(),
{
    let word: [u8; 4] = [112, 108, 97, 121];
    word
}

/// The bytes of the word `true`.
pub fn true_word() -> (word: [u8; 4])
    ensures
        word@ == word_true(),
{
    let word: [u8; 4] = [116, 114, 117, 101];
    word
}

/// The bytes of the word `false`.
pub fn false_word() -> (word: [u8; 5])
    ensures
        word@ == word_false(),
{
    let word: [u8; 5] = [102, 97, 108, 115, 101];
    word
}

/// The bytes of the word `tempo`.
pub fn tempo_word() -> (word: [u8; 5])
    ensures
        word@ == word_tempo(),
{
    let word: [u8; 5] = [116, 101, 109, 112, 111];
    word
}

/// The bytes of the word `beats`.
pub fn beats_word() -> (word: [u8; 5])
    ensures
        word@ == word_beats(),
{
    let word: [u8; 5] = [98, 101, 97, 116, 115];
    word
}

/// The bytes of the word `title`.
pub fn title_word() -> (word: [u8; 5])
    ensures
        word@ == word_title(),
{
    let word: [u8; 5] = [116, 105, 116, 108, 101];
    word
}

/// The bytes of the word `composer`.
pub fn composer_word() -> (word: [u8; 8])
    ensures
        word@ == word_composer(),
{
    let word: [u8; 8] = [99, 111, 109, 112, 111, 115, 101, 114];
    word
}

/// The bytes of the word `program`.
pub fn program_word() -> (word: [u8; 7])
    ensures
        word@ == word_program(),
{
    let word: [u8; 7] = [112, 114, 111, 103, 114, 97, 109];
    word
}

/// The bytes of the word `channel`.
pub fn channel_word() -> (word: [u8; 7])
    ensures
        word@ == word_channel(),
{
    let word: [u8; 7] = [99, 104, 97, 110, 110, 101, 108];
    word
}

/// The bytes of the word `octave`.
pub fn octave_word() -> (word: [u8; 6])
    ensures
        word@ == word_octave(),
{
    let word: [u8; 6] = [111, 99, 116, 97, 118, 101];
    word
}

/// The bytes of the word `volume`.
pub fn volume_word() -> (word: [u8; 6])
    ensures
        word@ == word_volume(),
{
    let word: [u8; 6] = [118, 111, 108, 117, 109, 101];
    word
}

/// The bytes of the word `drums`.
pub fn drums_word() -> (word: [u8; 5])
    ensures
        word@ == word_drums(),
{
    let word: [u8; 5] = [100, 114, 117, 109, 115];
    word
}

} // verus!
