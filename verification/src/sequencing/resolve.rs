//! Laying out the tokens of the staves of a voice as notes in time.

use crate::sequencing::data::{Note, MAX_MIDI};
use crate::sequencing::error::{ErrorKind, ErrorType, SequencingError, SequencingFailure};
use crate::sequencing::nodes::{
    play_views, stave_views, BarNode, NoteNode, PlayNode, PlayView, StaveNode,
};
use crate::sequencing::timebase::{
    bar_length, binds, lemma_span_grows, lemma_time_base_fits_bars, span, staves_fit, time_base,
    total_length,
};
use crate::text::{text_equal, text_view};
use vstd::prelude::*;

verus! {

/// The state of the scan of a stave: the notes of the voice so far, the
/// position of the next token, and whether the last note can still be
/// lengthened.
pub struct Scan {
    pub notes: Seq<Note>,
    pub cursor: int,
    pub tied: bool,
}

/// The pitch of a note moved by a number of octaves.
pub open spec fn transposed(midi: u8, octave: i8) -> int {
    midi + 12 * octave
}

/// Whether a pitch is one a note can have.
pub open spec fn is_pitch(pitch: int) -> bool {
    0 <= pitch <= MAX_MIDI
}

/// The notes with the last of them lengthened.
pub open spec fn lengthen_last(notes: Seq<Note>, by: int) -> Seq<Note> {
    if notes.len() == 0 {
        notes
    } else {
        notes.update(
            notes.len() - 1,
            Note {
                midi: notes.last().midi,
                length: (notes.last().length + by) as u32,
                position: notes.last().position,
            },
        )
    }
}

/// The error for a note that leaves the range of pitches.
pub open spec fn invalid_note(midi: u8, octave: i8, line: u32, col: u32) -> SequencingFailure {
    SequencingFailure { line, col, error: ErrorKind::InvalidNote { midi, octave_offset: octave } }
}

/// What one token does to the scan, at `scale` divisions per unit of length.
///
/// A rest moves the cursor and ends the tie. An extension moves the cursor
/// and, where the tie is on, lengthens the last note. A note is added at the
/// cursor, moved by the voice's octaves, and turns the tie on; it is an
/// error where its pitch leaves the range.
pub open spec fn token_step(scan: Scan, token: NoteNode, scale: nat, octave: i8) -> Result<
    Scan,
    SequencingFailure,
> {
    match token {
        NoteNode::Rest { length } => Ok(
            Scan { notes: scan.notes, cursor: scan.cursor + scale * length, tied: false },
        ),
        NoteNode::Extension { length } => Ok(
            Scan {
                notes: if scan.tied {
                    lengthen_last(scan.notes, scale * length)
                } else {
                    scan.notes
                },
                cursor: scan.cursor + scale * length,
                tied: scan.tied,
            },
        ),
        NoteNode::Note { midi, length, at } => if is_pitch(transposed(midi, octave)) {
            Ok(
                Scan {
                    notes: scan.notes.push(
                        Note {
                            midi: transposed(midi, octave) as u8,
                            length: (scale * length) as u32,
                            position: scan.cursor as u32,
                        },
                    ),
                    cursor: scan.cursor + scale * length,
                    tied: true,
                },
            )
        } else {
            Err(invalid_note(midi, octave, at.line, at.col))
        },
    }
}

/// The scan after the tokens of a bar from the `k`-th on, or the first
/// error among them.
pub open spec fn bar_scan(scan: Scan, tokens: Seq<NoteNode>, k: int, scale: nat, octave: i8)
    -> Result<Scan, SequencingFailure>
    decreases tokens.len() - k,
{
    if k < 0 || k >= tokens.len() {
        Ok(scan)
    } else {
        match token_step(scan, tokens[k], scale, octave) {
            Ok(next) => bar_scan(next, tokens, k + 1, scale, octave),
            Err(failure) => Err(failure),
        }
    }
}

/// The scan after the bars of a stave from the `i`-th on, or the first
/// error among them. Bar `i` starts at `i * base` and its tokens are scaled
/// so that the bar takes `base` divisions.
pub open spec fn stave_scan(scan: Scan, bars: Seq<Seq<NoteNode>>, i: int, base: nat, octave: i8)
    -> Result<Scan, SequencingFailure>
    decreases bars.len() - i,
{
    if i < 0 || i >= bars.len() {
        Ok(scan)
    } else {
        let start = Scan { notes: scan.notes, cursor: i * base, tied: scan.tied };
        match bar_scan(start, bars[i], 0, base / bar_length(bars[i]), octave) {
            Ok(next) => stave_scan(next, bars, i + 1, base, octave),
            Err(failure) => Err(failure),
        }
    }
}

/// The scan at the start of a stave: no note of an earlier stave can be
/// lengthened.
pub open spec fn stave_start(notes: Seq<Note>) -> Scan {
    Scan { notes, cursor: 0, tied: false }
}

/// The notes after the staves from the `j`-th on, or the first error among
/// them.
pub open spec fn staves_scan(
    notes: Seq<Note>,
    staves: Seq<Seq<Seq<NoteNode>>>,
    j: int,
    base: nat,
    octave: i8,
) -> Result<Seq<Note>, SequencingFailure>
    decreases staves.len() - j,
{
    if j < 0 || j >= staves.len() {
        Ok(notes)
    } else {
        match stave_scan(stave_start(notes), staves[j], 0, base, octave) {
            Ok(end) => staves_scan(end.notes, staves, j + 1, base, octave),
            Err(failure) => Err(failure),
        }
    }
}

/// The notes after the plays from the `p`-th on that are bound to the voice
/// of the given name, or the first error among them.
pub open spec fn plays_scan(
    notes: Seq<Note>,
    plays: Seq<PlayView>,
    p: int,
    name: Option<Seq<u8>>,
    base: nat,
    octave: i8,
) -> Result<Seq<Note>, SequencingFailure>
    decreases plays.len() - p,
{
    if p < 0 || p >= plays.len() {
        Ok(notes)
    } else if binds(plays[p], name) {
        match staves_scan(notes, plays[p].staves, 0, base, octave) {
            Ok(next) => plays_scan(next, plays, p + 1, name, base, octave),
            Err(failure) => Err(failure),
        }
    } else {
        plays_scan(notes, plays, p + 1, name, base, octave)
    }
}

/// The notes of a voice in the order in which its plays, staves, bars and
/// tokens give them, or the first error among them.
pub open spec fn notes_as_met(plays: Seq<PlayView>, name: Option<Seq<u8>>, base: nat, octave: i8)
    -> Result<Seq<Note>, SequencingFailure> {
    plays_scan(Seq::empty(), plays, 0, name, base, octave)
}

/// Where the tie is on, there is a last note and it ends at the cursor.
pub open spec fn tie_ends_at(notes: Seq<Note>, tied: bool, cursor: int) -> bool {
    tied ==> notes.len() > 0 && notes.last().position + notes.last().length == cursor
}

/// Whether every bar of a stave has a positive length that divides `base`.
pub open spec fn bars_divide(bars: Seq<Seq<NoteNode>>, base: nat) -> bool {
    forall|b: int|
        0 <= b < bars.len() ==> bar_length(#[trigger] bars[b]) > 0 && base % bar_length(bars[b])
            == 0
}

/// The tokens with the first `k` of them turned into rests of their lengths.
pub open spec fn rested(tokens: Seq<NoteNode>, k: int) -> Seq<NoteNode> {
    Seq::new(
        tokens.len(),
        |i: int|
            if i < k {
                NoteNode::Rest { length: tokens[i].duration() as u32 }
            } else {
                tokens[i]
            },
    )
}

/// Whether the first `k` tokens are extensions.
pub open spec fn opens_with_extensions(tokens: Seq<NoteNode>, k: int) -> bool {
    0 <= k <= tokens.len() && forall|i: int| 0 <= i < k ==> tokens[i] is Extension
}

/// Whether a token is no note that the octaves move out of the range of
/// pitches.
pub open spec fn in_tune(token: NoteNode, octave: i8) -> bool {
    token matches NoteNode::Note { midi, .. } ==> is_pitch(transposed(midi, octave))
}

/// Whether the tokens of a bar from the `k`-th on are in tune.
pub open spec fn bar_in_tune(tokens: Seq<NoteNode>, k: int, octave: i8) -> bool {
    forall|t: int| k <= t < tokens.len() ==> in_tune(#[trigger] tokens[t], octave)
}

/// Whether the bars of a stave from the `i`-th on are in tune.
pub open spec fn stave_in_tune(bars: Seq<Seq<NoteNode>>, i: int, octave: i8) -> bool {
    forall|b: int| i <= b < bars.len() ==> bar_in_tune(#[trigger] bars[b], 0, octave)
}

/// Whether the staves from the `j`-th on are in tune.
pub open spec fn staves_in_tune(staves: Seq<Seq<Seq<NoteNode>>>, j: int, octave: i8) -> bool {
    forall|s: int| j <= s < staves.len() ==> stave_in_tune(#[trigger] staves[s], 0, octave)
}

/// Whether the plays from the `p`-th on that are bound to the voice of the
/// given name are in tune.
pub open spec fn plays_in_tune(plays: Seq<PlayView>, p: int, name: Option<Seq<u8>>, octave: i8)
    -> bool {
    forall|q: int|
        p <= q < plays.len() && binds(#[trigger] plays[q], name) ==> staves_in_tune(
            plays[q].staves,
            0,
            octave,
        )
}

/// Turning leading extensions into rests keeps the time that any prefix of
/// the bar takes.
pub proof fn lemma_rested_span(tokens: Seq<NoteNode>, k: int, n: int)
    requires
        n <= tokens.len(),
    ensures
        span(rested(tokens, k), n) == span(tokens, n),
    decreases n,
{
    if n > 0 {
        lemma_rested_span(tokens, k, n - 1);
    }
}

/// While the tie is off, an extension does what a rest of its length does.
pub proof fn lemma_bar_scan_rested(
    scan: Scan,
    tokens: Seq<NoteNode>,
    j: int,
    k: int,
    scale: nat,
    octave: i8,
)
    requires
        opens_with_extensions(tokens, k),
        0 <= j,
        j < k ==> !scan.tied,
    ensures
        bar_scan(scan, tokens, j, scale, octave) == bar_scan(
            scan,
            rested(tokens, k),
            j,
            scale,
            octave,
        ),
    decreases tokens.len() - j,
{
    if j < tokens.len() {
        match token_step(scan, tokens[j], scale, octave) {
            Ok(next) => {
                lemma_bar_scan_rested(next, tokens, j + 1, k, scale, octave);
            },
            Err(_) => {},
        }
    }
}

/// The scan of a stave from its `i`-th bar on reads no bar before it.
pub proof fn lemma_stave_scan_reads_on(
    scan: Scan,
    bars: Seq<Seq<NoteNode>>,
    other: Seq<Seq<NoteNode>>,
    i: int,
    base: nat,
    octave: i8,
)
    requires
        bars.len() == other.len(),
        forall|b: int| i <= b < bars.len() ==> bars[b] == other[b],
    ensures
        stave_scan(scan, bars, i, base, octave) == stave_scan(scan, other, i, base, octave),
    decreases bars.len() - i,
{
    if 0 <= i < bars.len() {
        let start = Scan { notes: scan.notes, cursor: i * base, tied: scan.tied };
        match bar_scan(start, bars[i], 0, base / bar_length(bars[i]), octave) {
            Ok(next) => {
                lemma_stave_scan_reads_on(next, bars, other, i + 1, base, octave);
            },
            Err(_) => {},
        }
    }
}

/// Extensions at the start of a stave, before any note, lengthen nothing:
/// the stave gives what it gives with rests of the same lengths in their
/// place.
pub proof fn lemma_leading_extensions_are_rests(
    notes: Seq<Note>,
    bars: Seq<Seq<NoteNode>>,
    k: int,
    base: nat,
    octave: i8,
)
    requires
        bars.len() > 0,
        opens_with_extensions(bars[0], k),
    ensures
        stave_scan(stave_start(notes), bars, 0, base, octave) == stave_scan(
            stave_start(notes),
            bars.update(0, rested(bars[0], k)),
            0,
            base,
            octave,
        ),
{
    let other = bars.update(0, rested(bars[0], k));
    let start = Scan { notes, cursor: 0int * base, tied: false };
    let scale = base / bar_length(bars[0]);
    lemma_rested_span(bars[0], k, bars[0].len() as int);
    lemma_bar_scan_rested(start, bars[0], 0, k, scale, octave);
    match bar_scan(start, bars[0], 0, scale, octave) {
        Ok(next) => {
            lemma_stave_scan_reads_on(next, bars, other, 1, base, octave);
        },
        Err(_) => {},
    }
}

/// The scan of a bar fails where a token is out of tune, and only there;
/// its error is that of a note out of range.
pub proof fn lemma_bar_scan_fails(scan: Scan, tokens: Seq<NoteNode>, k: int, scale: nat, octave: i8)
    requires
        0 <= k,
    ensures
        bar_scan(scan, tokens, k, scale, octave) is Ok <==> bar_in_tune(tokens, k, octave),
        bar_scan(scan, tokens, k, scale, octave) matches Err(failure) ==> failure.error
            is InvalidNote,
    decreases tokens.len() - k,
{
    if k < tokens.len() {
        match token_step(scan, tokens[k], scale, octave) {
            Ok(next) => {
                lemma_bar_scan_fails(next, tokens, k + 1, scale, octave);
            },
            Err(_) => {},
        }
    }
}

/// The scan of a stave fails where a token is out of tune, and only there;
/// its error is that of a note out of range.
pub proof fn lemma_stave_scan_fails(
    scan: Scan,
    bars: Seq<Seq<NoteNode>>,
    i: int,
    base: nat,
    octave: i8,
)
    requires
        0 <= i,
    ensures
        stave_scan(scan, bars, i, base, octave) is Ok <==> stave_in_tune(bars, i, octave),
        stave_scan(scan, bars, i, base, octave) matches Err(failure) ==> failure.error
            is InvalidNote,
    decreases bars.len() - i,
{
    if i < bars.len() {
        let start = Scan { notes: scan.notes, cursor: i * base, tied: scan.tied };
        let scale = base / bar_length(bars[i]);
        lemma_bar_scan_fails(start, bars[i], 0, scale, octave);
        match bar_scan(start, bars[i], 0, scale, octave) {
            Ok(next) => {
                lemma_stave_scan_fails(next, bars, i + 1, base, octave);
            },
            Err(_) => {},
        }
    }
}

/// The scan of a list of staves fails where a token is out of tune, and
/// only there; its error is that of a note out of range.
pub proof fn lemma_staves_scan_fails(
    notes: Seq<Note>,
    staves: Seq<Seq<Seq<NoteNode>>>,
    j: int,
    base: nat,
    octave: i8,
)
    requires
        0 <= j,
    ensures
        staves_scan(notes, staves, j, base, octave) is Ok <==> staves_in_tune(staves, j, octave),
        staves_scan(notes, staves, j, base, octave) matches Err(failure) ==> failure.error
            is InvalidNote,
    decreases staves.len() - j,
{
    if j < staves.len() {
        lemma_stave_scan_fails(stave_start(notes), staves[j], 0, base, octave);
        match stave_scan(stave_start(notes), staves[j], 0, base, octave) {
            Ok(end) => {
                lemma_staves_scan_fails(end.notes, staves, j + 1, base, octave);
            },
            Err(_) => {},
        }
    }
}

/// The scan of the plays of a voice fails where a token is out of tune,
/// and only there; its error is that of a note out of range.
pub proof fn lemma_plays_scan_fails(
    notes: Seq<Note>,
    plays: Seq<PlayView>,
    p: int,
    name: Option<Seq<u8>>,
    base: nat,
    octave: i8,
)
    requires
        0 <= p,
    ensures
        plays_scan(notes, plays, p, name, base, octave) is Ok <==> plays_in_tune(
            plays,
            p,
            name,
            octave,
        ),
        plays_scan(notes, plays, p, name, base, octave) matches Err(failure) ==> failure.error
            is InvalidNote,
    decreases plays.len() - p,
{
    if p < plays.len() {
        if binds(plays[p], name) {
            lemma_staves_scan_fails(notes, plays[p].staves, 0, base, octave);
            match staves_scan(notes, plays[p].staves, 0, base, octave) {
                Ok(next) => {
                    lemma_plays_scan_fails(next, plays, p + 1, name, base, octave);
                },
                Err(_) => {},
            }
        } else {
            lemma_plays_scan_fails(notes, plays, p + 1, name, base, octave);
        }
    }
}

/// The notes of a voice cannot be laid out where the octaves of the voice
/// move a note that it plays out of the range of pitches, and only there;
/// the error is then that of a note out of range.
pub proof fn lemma_notes_fail_where_out_of_tune(
    plays: Seq<PlayView>,
    name: Option<Seq<u8>>,
    base: nat,
    octave: i8,
)
    ensures
        notes_as_met(plays, name, base, octave) is Ok <==> plays_in_tune(plays, 0, name, octave),
        notes_as_met(plays, name, base, octave) matches Err(failure) ==> failure.error
            is InvalidNote,
{
    lemma_plays_scan_fails(Seq::empty(), plays, 0, name, base, octave);
}

/// Lays out the tokens of one bar from position `start` on. Returns whether
/// the tie is on after the bar.
pub(crate) fn resolve_bar(
    notes: &mut Vec<Note>,
    tied: bool,
    bar: &BarNode,
    start: u32,
    scale: u32,
    octave: i8,
) -> (result: Result<bool, SequencingError>)
    requires
        start + scale * bar_length(bar@) <= u32::MAX,
        tie_ends_at(old(notes)@, tied, start as int),
    ensures
        match bar_scan(
            Scan { notes: old(notes)@, cursor: start as int, tied },
            bar@,
            0,
            scale as nat,
            octave,
        ) {
            Ok(end) => {
                &&& result == Ok::<bool, SequencingError>(end.tied)
                &&& final(notes)@ == end.notes
                &&& end.cursor == start + scale * bar_length(bar@)
                &&& tie_ends_at(end.notes, end.tied, end.cursor)
            },
            Err(failure) => result matches Err(error) && error@ == failure,
        },
{
    let ghost first = Scan { notes: notes@, cursor: start as int, tied };
    let mut on = tied;
    let mut cursor: u32 = start;
    let mut k: usize = 0;
    while k < bar.notes.len()
        invariant
            k <= bar.notes@.len(),
            first == (Scan { notes: old(notes)@, cursor: start as int, tied }),
            start + scale * bar_length(bar@) <= u32::MAX,
            cursor == start + scale * span(bar@, k as int),
            tie_ends_at(notes@, on, cursor as int),
            bar_scan(first, bar@, 0, scale as nat, octave) == bar_scan(
                Scan { notes: notes@, cursor: cursor as int, tied: on },
                bar@,
                k as int,
                scale as nat,
                octave,
            ),
        decreases bar.notes@.len() - k,
    {
        let token = bar.notes[k];
        proof {
            lemma_span_grows(bar@, k + 1, bar@.len() as int);
            let so_far = span(bar@, k as int);
            let more = token.duration();
            let whole = bar_length(bar@);
            assert(scale * (so_far + more) <= scale * whole) by (nonlinear_arith)
                requires
                    so_far + more <= whole,
            ;
            assert(scale * (so_far + more) == scale * so_far + scale * more)
                by (nonlinear_arith);
        }
        match token {
            NoteNode::Rest { length } => {
                cursor = cursor + scale * length;
                on = false;
            },
            NoteNode::Extension { length } => {
                let by: u32 = scale * length;
                if on {
                    let last = notes.len() - 1;
                    let mut note = notes[last];
                    note.length = note.length + by;
                    notes.set(last, note);
                }
                cursor = cursor + by;
            },
            NoteNode::Note { midi, length, at } => {
                let pitch: i32 = midi as i32 + 12 * (octave as i32);
                if pitch < 0 || pitch > MAX_MIDI as i32 {
                    return Err(
                        SequencingError {
                            line: at.line,
                            col: at.col,
                            error: ErrorType::InvalidNote { midi, octave_offset: octave },
                        },
                    );
                }
                let by: u32 = scale * length;
                notes.push(Note { midi: pitch as u8, length: by, position: cursor });
                on = true;
                cursor = cursor + by;
            },
        }
        k += 1;
    }
    Ok(on)
}

/// Lays out the bars of one stave after the notes that are there.
pub(crate) fn resolve_stave(
    notes: &mut Vec<Note>,
    stave: &StaveNode,
    base: u32,
    octave: i8,
) -> (result: Result<(), SequencingError>)
    requires
        base >= 1,
        stave@.len() * base <= u32::MAX,
        bars_divide(stave@, base as nat),
    ensures
        match stave_scan(stave_start(old(notes)@), stave@, 0, base as nat, octave) {
            Ok(end) => result is Ok && final(notes)@ == end.notes,
            Err(failure) => result matches Err(error) && error@ == failure,
        },
{
    let ghost first = stave_start(notes@);
    let mut tied = false;
    let mut i: usize = 0;
    while i < stave.bars.len()
        invariant
            i <= stave.bars@.len(),
            first == stave_start(old(notes)@),
            base >= 1,
            stave@.len() * base <= u32::MAX,
            bars_divide(stave@, base as nat),
            tie_ends_at(notes@, tied, i * base),
            stave_scan(first, stave@, 0, base as nat, octave) == stave_scan(
                Scan { notes: notes@, cursor: i * base, tied },
                stave@,
                i as int,
                base as nat,
                octave,
            ),
        decreases stave.bars@.len() - i,
    {
        let bar = &stave.bars[i];
        let length = total_length(bar);
        proof {
            vstd::arithmetic::div_mod::lemma_mod_is_zero(base as nat, length as nat);
            vstd::arithmetic::div_mod::lemma_fundamental_div_mod(base as int, length as int);
            let count = stave@.len();
            assert(i * base + base <= count * base) by (nonlinear_arith)
                requires
                    i + 1 <= count,
                    base >= 0,
            ;
            assert((i + 1) * base == i * base + base) by (nonlinear_arith);
            assert(i <= i * base) by (nonlinear_arith)
                requires
                    i >= 0,
                    base >= 1,
            ;
        }
        let scale: u32 = base / (length as u32);
        let start: u32 = (i as u32) * base;
        match resolve_bar(notes, tied, bar, start, scale, octave) {
            Ok(next) => {
                tied = next;
            },
            Err(error) => {
                return Err(error);
            },
        }
        i += 1;
    }
    Ok(())
}

/// Lays out a list of staves, one after the other, after the notes that
/// are there.
pub(crate) fn resolve_staves(notes: &mut Vec<Note>, staves: &Vec<StaveNode>, base: u32, octave: i8)
    -> (result: Result<(), SequencingError>)
    requires
        base >= 1,
        forall|s: int|
            0 <= s < staves@.len() ==> (#[trigger] staves@[s]@).len() * base <= u32::MAX
                && bars_divide(staves@[s]@, base as nat),
    ensures
        match staves_scan(old(notes)@, stave_views(staves@), 0, base as nat, octave) {
            Ok(end) => result is Ok && final(notes)@ == end,
            Err(failure) => result matches Err(error) && error@ == failure,
        },
{
    let ghost first = notes@;
    let ghost views = stave_views(staves@);
    let mut j: usize = 0;
    while j < staves.len()
        invariant
            j <= staves@.len(),
            first == old(notes)@,
            base >= 1,
            views == stave_views(staves@),
            forall|s: int|
                0 <= s < staves@.len() ==> (#[trigger] staves@[s]@).len() * base <= u32::MAX
                    && bars_divide(staves@[s]@, base as nat),
            staves_scan(first, views, 0, base as nat, octave) == staves_scan(
                notes@,
                views,
                j as int,
                base as nat,
                octave,
            ),
        decreases staves@.len() - j,
    {
        match resolve_stave(notes, &staves[j], base, octave) {
            Ok(()) => {},
            Err(error) => {
                return Err(error);
            },
        }
        j += 1;
    }
    Ok(())
}

/// Lays out the staves of all plays bound to the voice of the given name,
/// in the order in which they are met.
pub(crate) fn resolve_plays(
    plays: &Vec<PlayNode>,
    name: Option<&[u8]>,
    base: u32,
    octave: i8,
) -> (result: Result<Vec<Note>, SequencingError>)
    requires
        base == time_base(play_views(plays@), text_view(name)),
        base >= 1,
        staves_fit(play_views(plays@), text_view(name), base as nat),
    ensures
        match notes_as_met(play_views(plays@), text_view(name), base as nat, octave) {
            Ok(met) => result matches Ok(notes) && notes@ == met,
            Err(failure) => result matches Err(error) && error@ == failure,
        },
{
    let ghost views = play_views(plays@);
    let ghost voice = text_view(name);
    let mut notes: Vec<Note> = Vec::new();
    let mut p: usize = 0;
    while p < plays.len()
        invariant
            p <= plays@.len(),
            views == play_views(plays@),
            voice == text_view(name),
            base == time_base(views, voice),
            base >= 1,
            staves_fit(views, voice, base as nat),
            notes_as_met(views, voice, base as nat, octave) == plays_scan(
                notes@,
                views,
                p as int,
                voice,
                base as nat,
                octave,
            ),
        decreases plays@.len() - p,
    {
        if text_equal(plays[p].voice, name) {
            let staves = &plays[p].staves;
            proof {
                assert forall|s: int| 0 <= s < staves@.len() implies (#[trigger] staves@[s]@).len()
                    * base <= u32::MAX && bars_divide(staves@[s]@, base as nat) by {
                    assert(views[p as int].staves[s] == staves@[s]@);
                    assert forall|b: int| 0 <= b < staves@[s]@.len() implies bar_length(
                        #[trigger] staves@[s]@[b],
                    ) > 0 && base as nat % bar_length(staves@[s]@[b]) == 0 by {
                        lemma_time_base_fits_bars(views, voice, p as int, s, b);
                    }
                }
            }
            match resolve_staves(&mut notes, staves, base, octave) {
                Ok(()) => {},
                Err(error) => {
                    return Err(error);
                },
            }
        }
        p += 1;
    }
    Ok(notes)
}

} // verus!
