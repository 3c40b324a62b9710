//! The time base of a voice: the least common multiple of the lengths of
//! all bars that the voice plays.

use crate::sequencing::arith::{
    checked_lcm, lcm, lemma_lcm_divides_common_multiples, lemma_lcm_is_common_multiple,
    lemma_lcm_stays_out_of_range, lemma_multiple_of_multiple,
};
use crate::sequencing::nodes::{
    play_views, stave_views, BarNode, NoteNode, PlayNode, PlayView, StaveNode,
};
use crate::text::{text_equal, text_view};
use vstd::prelude::*;

verus! {

/// The time taken by the first `k` tokens of a bar.
pub open spec fn span(tokens: Seq<NoteNode>, k: int) -> nat
    decreases k,
{
    if k <= 0 {
        0
    } else {
        span(tokens, k - 1) + tokens[k - 1].duration()
    }
}

/// The length of a bar: the time taken by all its tokens.
pub open spec fn bar_length(tokens: Seq<NoteNode>) -> nat {
    span(tokens, tokens.len() as int)
}

/// The least common multiple of `start` and of every number in `lengths`.
pub open spec fn lcm_fold(start: nat, lengths: Seq<nat>) -> nat
    decreases lengths.len(),
{
    if lengths.len() == 0 {
        start
    } else {
        lcm(lcm_fold(start, lengths.drop_last()), lengths.last())
    }
}

/// The least common multiple of a list of numbers; 1 for the empty list.
pub open spec fn least_common_multiple(lengths: Seq<nat>) -> nat {
    lcm_fold(1, lengths)
}

/// The lengths of the bars of a stave.
pub open spec fn stave_lengths(bars: Seq<Seq<NoteNode>>) -> Seq<nat> {
    Seq::new(bars.len(), |i: int| bar_length(bars[i]))
}

/// The lengths of the bars of a list of staves, stave after stave.
pub open spec fn staves_lengths(staves: Seq<Seq<Seq<NoteNode>>>) -> Seq<nat>
    decreases staves.len(),
{
    if staves.len() == 0 {
        Seq::empty()
    } else {
        staves_lengths(staves.drop_last()) + stave_lengths(staves.last())
    }
}

/// Whether a play is bound to the voice of the given name: both name the
/// same voice, or neither names one.
pub open spec fn binds(play: PlayView, name: Option<Seq<u8>>) -> bool {
    play.voice == name
}

/// The bar lengths that one play adds to a voice of the given name.
pub open spec fn play_lengths(play: PlayView, name: Option<Seq<u8>>) -> Seq<nat> {
    if binds(play, name) {
        staves_lengths(play.staves)
    } else {
        Seq::empty()
    }
}

/// The lengths of all bars of all staves of the plays bound to a voice.
pub open spec fn bound_bar_lengths(plays: Seq<PlayView>, name: Option<Seq<u8>>) -> Seq<nat>
    decreases plays.len(),
{
    if plays.len() == 0 {
        Seq::empty()
    } else {
        bound_bar_lengths(plays.drop_last(), name) + play_lengths(plays.last(), name)
    }
}

/// The divisions per bar of a voice: the least common multiple of the
/// lengths of the bars it plays.
pub open spec fn time_base(plays: Seq<PlayView>, name: Option<Seq<u8>>) -> nat {
    least_common_multiple(bound_bar_lengths(plays, name))
}

/// Whether a number can be the time base of a voice.
pub open spec fn in_range(base: nat) -> bool {
    1 <= base <= u32::MAX
}

/// Whether no stave bound to the voice runs past the last position.
pub open spec fn staves_fit(plays: Seq<PlayView>, name: Option<Seq<u8>>, base: nat) -> bool {
    forall|p: int, s: int|
        0 <= p < plays.len() && binds(plays[p], name) && 0 <= s < plays[p].staves.len() ==> (
        #[trigger] plays[p].staves[s]).len() * base <= u32::MAX
}

/// Whether the notes of a voice can be laid out in 32 bits.
pub open spec fn timing_representable(plays: Seq<PlayView>, name: Option<Seq<u8>>) -> bool {
    &&& in_range(time_base(plays, name))
    &&& staves_fit(plays, name, time_base(plays, name))
}

/// The time taken by a prefix of a bar grows with the prefix.
pub proof fn lemma_span_grows(tokens: Seq<NoteNode>, j: int, k: int)
    requires
        j <= k,
    ensures
        span(tokens, j) <= span(tokens, k),
    decreases k - j,
{
    if j < k {
        lemma_span_grows(tokens, j, k - 1);
    }
}

/// Folding over two lists in a row is folding over their concatenation.
pub proof fn lemma_lcm_fold_concat(start: nat, a: Seq<nat>, b: Seq<nat>)
    ensures
        lcm_fold(start, a + b) == lcm_fold(lcm_fold(start, a), b),
    decreases b.len(),
{
    if b.len() > 0 {
        assert((a + b).drop_last() =~= a + b.drop_last());
        lemma_lcm_fold_concat(start, a, b.drop_last());
    }
}

/// Once a fold is zero or beyond a bound, it stays so.
pub proof fn lemma_lcm_fold_stays_out_of_range(start: nat, lengths: Seq<nat>, bound: nat)
    requires
        start == 0 || start > bound,
    ensures
        lcm_fold(start, lengths) == 0 || lcm_fold(start, lengths) > bound,
    decreases lengths.len(),
{
    if lengths.len() > 0 {
        lemma_lcm_fold_stays_out_of_range(start, lengths.drop_last(), bound);
        lemma_lcm_stays_out_of_range(
            lcm_fold(start, lengths.drop_last()),
            lengths.last(),
            bound,
        );
    }
}

/// A fold over a list that holds a zero is zero.
pub proof fn lemma_lcm_fold_zero(start: nat, lengths: Seq<nat>, i: int)
    requires
        0 <= i < lengths.len(),
        lengths[i] == 0,
    ensures
        lcm_fold(start, lengths) == 0,
    decreases lengths.len(),
{
    if i < lengths.len() - 1 {
        lemma_lcm_fold_zero(start, lengths.drop_last(), i);
    }
}

/// A fold from a positive start over positive numbers is positive and a
/// multiple of the start and of each number.
pub proof fn lemma_lcm_fold_is_common_multiple(start: nat, lengths: Seq<nat>)
    requires
        start > 0,
        forall|i: int| 0 <= i < lengths.len() ==> lengths[i] > 0,
    ensures
        lcm_fold(start, lengths) > 0,
        lcm_fold(start, lengths) % start == 0,
        forall|i: int| 0 <= i < lengths.len() ==> lcm_fold(start, lengths) % lengths[i] == 0,
    decreases lengths.len(),
{
    if lengths.len() > 0 {
        let front = lengths.drop_last();
        let inner = lcm_fold(start, front);
        let whole = lcm_fold(start, lengths);
        lemma_lcm_fold_is_common_multiple(start, front);
        lemma_lcm_is_common_multiple(inner, lengths.last());
        lemma_multiple_of_multiple(whole, inner, start);
        assert forall|i: int| 0 <= i < lengths.len() implies whole % lengths[i] == 0 by {
            if i < front.len() {
                assert(front[i] == lengths[i]);
                lemma_multiple_of_multiple(whole, inner, lengths[i]);
            }
        }
    }
}

/// Every common multiple of the start and of the numbers is a multiple of
/// the fold.
pub proof fn lemma_lcm_fold_divides_common_multiples(start: nat, lengths: Seq<nat>, m: nat)
    requires
        start > 0,
        forall|i: int| 0 <= i < lengths.len() ==> lengths[i] > 0,
        m % start == 0,
        forall|i: int| 0 <= i < lengths.len() ==> m % lengths[i] == 0,
    ensures
        m % lcm_fold(start, lengths) == 0,
        m > 0 ==> lcm_fold(start, lengths) <= m,
    decreases lengths.len(),
{
    lemma_lcm_fold_is_common_multiple(start, lengths);
    if lengths.len() > 0 {
        let front = lengths.drop_last();
        lemma_lcm_fold_divides_common_multiples(start, front, m);
        lemma_lcm_divides_common_multiples(lcm_fold(start, front), lengths.last(), m);
    }
    if m > 0 {
        vstd::arithmetic::div_mod::lemma_mod_is_zero(m, lcm_fold(start, lengths));
    }
}

/// Whether every number of the list divides `m`.
pub open spec fn is_common_multiple(lengths: Seq<nat>, m: nat) -> bool {
    forall|i: int| 0 <= i < lengths.len() ==> m % #[trigger] lengths[i] == 0
}

/// The least common multiple of positive numbers is positive, is a multiple
/// of each of them, divides each of their common multiples and is the least
/// of the positive ones.
pub proof fn lemma_least_common_multiple(lengths: Seq<nat>)
    requires
        forall|i: int| 0 <= i < lengths.len() ==> lengths[i] > 0,
    ensures
        least_common_multiple(lengths) > 0,
        is_common_multiple(lengths, least_common_multiple(lengths)),
        forall|m: nat| #[trigger]
            is_common_multiple(lengths, m) ==> m % least_common_multiple(lengths) == 0,
        forall|m: nat| #[trigger]
            is_common_multiple(lengths, m) && m > 0 ==> least_common_multiple(lengths) <= m,
{
    lemma_lcm_fold_is_common_multiple(1, lengths);
    assert forall|m: nat| #[trigger] is_common_multiple(lengths, m) implies m
        % least_common_multiple(lengths) == 0 && (m > 0 ==> least_common_multiple(lengths)
        <= m) by {
        crate::sequencing::arith::lemma_product_is_multiple(m as int, 1, m);
        lemma_lcm_fold_divides_common_multiples(1, lengths, m);
    }
}

/// A positive common multiple of positive numbers that is no greater than
/// any other is their least common multiple.
pub proof fn lemma_least_common_multiple_is_unique(lengths: Seq<nat>, m: nat)
    requires
        forall|i: int| 0 <= i < lengths.len() ==> lengths[i] > 0,
        m > 0,
        is_common_multiple(lengths, m),
        forall|k: nat| #[trigger] is_common_multiple(lengths, k) && k > 0 ==> m <= k,
    ensures
        m == least_common_multiple(lengths),
{
    lemma_least_common_multiple(lengths);
}

/// The least common multiple of positive numbers depends on which numbers
/// they are only, not on their order or on how often each stands.
pub proof fn lemma_least_common_multiple_ignores_order(a: Seq<nat>, b: Seq<nat>)
    requires
        forall|i: int| 0 <= i < a.len() ==> a[i] > 0 && b.contains(#[trigger] a[i]),
        forall|j: int| 0 <= j < b.len() ==> b[j] > 0 && a.contains(#[trigger] b[j]),
    ensures
        least_common_multiple(a) == least_common_multiple(b),
{
    lemma_least_common_multiple(a);
    let m = least_common_multiple(a);
    assert forall|k: nat| #[trigger] is_common_multiple(b, k) && k > 0 implies m <= k by {
        assert forall|i: int| 0 <= i < a.len() implies k % #[trigger] a[i] == 0 by {
            let j = choose|j: int| 0 <= j < b.len() && b[j] == a[i];
            assert(k % b[j] == 0);
        }
        assert(is_common_multiple(a, k));
    }
    lemma_least_common_multiple_is_unique(b, m);
}

/// The bar lengths of a list of staves are those of any of its prefixes
/// followed by those of the staves after it.
pub proof fn lemma_staves_lengths_split(staves: Seq<Seq<Seq<NoteNode>>>, k: int)
    requires
        0 <= k <= staves.len(),
    ensures
        staves_lengths(staves) == staves_lengths(staves.take(k)) + staves_lengths(
            staves.skip(k),
        ),
    decreases staves.len(),
{
    if k == staves.len() {
        assert(staves.take(k) =~= staves);
    } else {
        let front = staves.drop_last();
        lemma_staves_lengths_split(front, k);
        assert(front.take(k) =~= staves.take(k));
        assert(front.skip(k) =~= staves.skip(k).drop_last());
    }
}

/// The bar lengths bound to a voice are those of any prefix of the plays
/// followed by those of the plays after it.
pub proof fn lemma_bound_bar_lengths_split(plays: Seq<PlayView>, name: Option<Seq<u8>>, k: int)
    requires
        0 <= k <= plays.len(),
    ensures
        bound_bar_lengths(plays, name) == bound_bar_lengths(plays.take(k), name)
            + bound_bar_lengths(plays.skip(k), name),
    decreases plays.len(),
{
    if k == plays.len() {
        assert(plays.take(k) =~= plays);
    } else {
        let front = plays.drop_last();
        lemma_bound_bar_lengths_split(front, name, k);
        assert(front.take(k) =~= plays.take(k));
        assert(front.skip(k) =~= plays.skip(k).drop_last());
    }
}

/// The length of each bar of each stave is among the lengths of the staves.
pub proof fn lemma_staves_lengths_member(staves: Seq<Seq<Seq<NoteNode>>>, s: int, b: int)
    requires
        0 <= s < staves.len(),
        0 <= b < staves[s].len(),
    ensures
        staves_lengths(staves).contains(bar_length(staves[s][b])),
    decreases staves.len(),
{
    let front = staves_lengths(staves.drop_last());
    let back = stave_lengths(staves.last());
    if s == staves.len() - 1 {
        assert((front + back)[front.len() + b] == back[b]);
    } else {
        lemma_staves_lengths_member(staves.drop_last(), s, b);
        let i = choose|i: int|
            0 <= i < front.len() && front[i] == bar_length(staves.drop_last()[s][b]);
        assert((front + back)[i] == front[i]);
    }
}

/// The length of each bar of each stave of each play bound to a voice is
/// among the bar lengths bound to the voice.
pub proof fn lemma_bound_bar_lengths_member(
    plays: Seq<PlayView>,
    name: Option<Seq<u8>>,
    p: int,
    s: int,
    b: int,
)
    requires
        0 <= p < plays.len(),
        binds(plays[p], name),
        0 <= s < plays[p].staves.len(),
        0 <= b < plays[p].staves[s].len(),
    ensures
        bound_bar_lengths(plays, name).contains(bar_length(plays[p].staves[s][b])),
    decreases plays.len(),
{
    let front = bound_bar_lengths(plays.drop_last(), name);
    let back = play_lengths(plays.last(), name);
    let length = bar_length(plays[p].staves[s][b]);
    if p == plays.len() - 1 {
        lemma_staves_lengths_member(plays[p].staves, s, b);
        let i = choose|i: int| 0 <= i < back.len() && back[i] == length;
        assert((front + back)[front.len() + i] == back[i]);
    } else {
        lemma_bound_bar_lengths_member(plays.drop_last(), name, p, s, b);
        let i = choose|i: int| 0 <= i < front.len() && front[i] == length;
        assert((front + back)[i] == front[i]);
    }
}

/// Where a voice has a time base, every bar it plays has a positive length
/// that divides the time base.
pub proof fn lemma_time_base_fits_bars(
    plays: Seq<PlayView>,
    name: Option<Seq<u8>>,
    p: int,
    s: int,
    b: int,
)
    requires
        time_base(plays, name) > 0,
        0 <= p < plays.len(),
        binds(plays[p], name),
        0 <= s < plays[p].staves.len(),
        0 <= b < plays[p].staves[s].len(),
    ensures
        bar_length(plays[p].staves[s][b]) > 0,
        time_base(plays, name) % bar_length(plays[p].staves[s][b]) == 0,
{
    let lengths = bound_bar_lengths(plays, name);
    lemma_bound_bar_lengths_member(plays, name, p, s, b);
    if exists|i: int| 0 <= i < lengths.len() && lengths[i] == 0 {
        let i = choose|i: int| 0 <= i < lengths.len() && lengths[i] == 0;
        lemma_lcm_fold_zero(1, lengths, i);
    }
    lemma_lcm_fold_is_common_multiple(1, lengths);
}

/// The time base of a voice is the least positive number that every bar it
/// plays divides: each such number is a multiple of it.
pub proof fn lemma_time_base_is_least(plays: Seq<PlayView>, name: Option<Seq<u8>>, m: nat)
    requires
        forall|i: int|
            0 <= i < bound_bar_lengths(plays, name).len() ==> bound_bar_lengths(plays, name)[i]
                > 0,
        is_common_multiple(bound_bar_lengths(plays, name), m),
    ensures
        time_base(plays, name) > 0,
        m % time_base(plays, name) == 0,
        m > 0 ==> time_base(plays, name) <= m,
{
    lemma_least_common_multiple(bound_bar_lengths(plays, name));
}

/// Adds up the lengths of the tokens of a bar.
pub fn total_length(bar: &BarNode) -> (total: u128)
    ensures
        total == bar_length(bar@),
{
    let mut total: u128 = 0;
    let mut k: usize = 0;
    while k < bar.notes.len()
        invariant
            k <= bar.notes@.len(),
            total == span(bar@, k as int),
            total <= k * 0xffff_ffff,
        decreases bar.notes@.len() - k,
    {
        let length = bar.notes[k].length();
        total = total + length as u128;
        k += 1;
    }
    total
}

/// The least common multiple of `start` and the lengths of the bars of one
/// stave. `None` where it is zero or does not fit in 32 bits.
pub fn stave_time_base(start: u32, stave: &StaveNode) -> (base: Option<u32>)
    ensures
        match base {
            Some(value) => value >= 1 && value == lcm_fold(
                start as nat,
                stave_lengths(stave@),
            ),
            None => !in_range(lcm_fold(start as nat, stave_lengths(stave@))),
        },
{
    let ghost lengths = stave_lengths(stave@);
    if start == 0 {
        proof {
            lemma_lcm_fold_stays_out_of_range(0, lengths, u32::MAX as nat);
        }
        return None;
    }
    let mut base: u32 = start;
    let mut b: usize = 0;
    while b < stave.bars.len()
        invariant
            b <= stave.bars@.len(),
            lengths == stave_lengths(stave@),
            base >= 1,
            base == lcm_fold(start as nat, lengths.take(b as int)),
        decreases stave.bars@.len() - b,
    {
        let length = total_length(&stave.bars[b]);
        proof {
            assert(lengths.take(b + 1).drop_last() =~= lengths.take(b as int));
            assert(lengths =~= lengths.take(b + 1) + lengths.skip(b + 1));
            lemma_lcm_fold_concat(start as nat, lengths.take(b + 1), lengths.skip(b + 1));
        }
        if length == 0 || length > u32::MAX as u128 {
            proof {
                lemma_lcm_stays_out_of_range(base as nat, length as nat, u32::MAX as nat);
                lemma_lcm_fold_stays_out_of_range(
                    lcm_fold(start as nat, lengths.take(b + 1)),
                    lengths.skip(b + 1),
                    u32::MAX as nat,
                );
            }
            return None;
        }
        match checked_lcm(base, length as u32) {
            Some(next) => {
                proof {
                    lemma_lcm_is_common_multiple(base as nat, length as nat);
                }
                base = next;
            },
            None => {
                proof {
                    lemma_lcm_fold_stays_out_of_range(
                        lcm_fold(start as nat, lengths.take(b + 1)),
                        lengths.skip(b + 1),
                        u32::MAX as nat,
                    );
                }
                return None;
            },
        }
        b += 1;
    }
    assert(lengths.take(b as int) =~= lengths);
    Some(base)
}

/// The least common multiple of `start` and the lengths of the bars of a
/// list of staves. `None` where it is zero or does not fit in 32 bits.
pub fn staves_time_base(start: u32, staves: &Vec<StaveNode>) -> (base: Option<u32>)
    ensures
        match base {
            Some(value) => value >= 1 && value == lcm_fold(
                start as nat,
                staves_lengths(stave_views(staves@)),
            ),
            None => !in_range(lcm_fold(start as nat, staves_lengths(stave_views(staves@)))),
        },
{
    let ghost views = stave_views(staves@);
    if start == 0 {
        proof {
            lemma_lcm_fold_stays_out_of_range(0, staves_lengths(views), u32::MAX as nat);
        }
        return None;
    }
    let mut base: u32 = start;
    let mut s: usize = 0;
    while s < staves.len()
        invariant
            s <= staves@.len(),
            views == stave_views(staves@),
            base >= 1,
            base == lcm_fold(start as nat, staves_lengths(views.take(s as int))),
        decreases staves@.len() - s,
    {
        proof {
            assert(views.take(s + 1).drop_last() =~= views.take(s as int));
            lemma_lcm_fold_concat(
                start as nat,
                staves_lengths(views.take(s as int)),
                stave_lengths(staves@[s as int]@),
            );
            lemma_staves_lengths_split(views, s + 1);
            lemma_lcm_fold_concat(
                start as nat,
                staves_lengths(views.take(s + 1)),
                staves_lengths(views.skip(s + 1)),
            );
        }
        match stave_time_base(base, &staves[s]) {
            Some(next) => {
                base = next;
            },
            None => {
                proof {
                    lemma_lcm_fold_stays_out_of_range(
                        lcm_fold(start as nat, staves_lengths(views.take(s + 1))),
                        staves_lengths(views.skip(s + 1)),
                        u32::MAX as nat,
                    );
                }
                return None;
            },
        }
        s += 1;
    }
    assert(views.take(s as int) =~= views);
    Some(base)
}

/// Computes the time base of the voice of the given name. `None` where the
/// voice plays a bar of no length or the time base does not fit in 32 bits.
pub fn voice_time_base(plays: &Vec<PlayNode>, name: Option<&[u8]>) -> (base: Option<u32>)
    ensures
        match base {
            Some(value) => value >= 1 && value == time_base(play_views(plays@), text_view(name)),
            None => !in_range(time_base(play_views(plays@), text_view(name))),
        },
{
    let ghost views = play_views(plays@);
    let ghost voice = text_view(name);
    let mut base: u32 = 1;
    let mut p: usize = 0;
    while p < plays.len()
        invariant
            p <= plays@.len(),
            views == play_views(plays@),
            voice == text_view(name),
            base >= 1,
            base == lcm_fold(1, bound_bar_lengths(views.take(p as int), voice)),
        decreases plays@.len() - p,
    {
        proof {
            assert(views.take(p + 1).drop_last() =~= views.take(p as int));
            lemma_lcm_fold_concat(
                1,
                bound_bar_lengths(views.take(p as int), voice),
                play_lengths(plays@[p as int]@, voice),
            );
            lemma_bound_bar_lengths_split(views, voice, p + 1);
            lemma_lcm_fold_concat(
                1,
                bound_bar_lengths(views.take(p + 1), voice),
                bound_bar_lengths(views.skip(p + 1), voice),
            );
        }
        if text_equal(plays[p].voice, name) {
            match staves_time_base(base, &plays[p].staves) {
                Some(next) => {
                    base = next;
                },
                None => {
                    proof {
                        lemma_lcm_fold_stays_out_of_range(
                            lcm_fold(1, bound_bar_lengths(views.take(p + 1), voice)),
                            bound_bar_lengths(views.skip(p + 1), voice),
                            u32::MAX as nat,
                        );
                    }
                    return None;
                },
            }
        }
        p += 1;
    }
    assert(views.take(p as int) =~= views);
    Some(base)
}

/// Whether no stave bound to the voice has more bars than fit before the
/// last position, at `base` divisions per bar.
pub fn check_staves_fit(plays: &Vec<PlayNode>, name: Option<&[u8]>, base: u32) -> (fit: bool)
    ensures
        fit == staves_fit(play_views(plays@), text_view(name), base as nat),
{
    let ghost views = play_views(plays@);
    let ghost voice = text_view(name);
    let mut p: usize = 0;
    while p < plays.len()
        invariant
            p <= plays@.len(),
            views == play_views(plays@),
            voice == text_view(name),
            forall|i: int, s: int|
                0 <= i < p && binds(views[i], voice) && 0 <= s < views[i].staves.len() ==> (
                #[trigger] views[i].staves[s]).len() * base <= u32::MAX,
        decreases plays@.len() - p,
    {
        if text_equal(plays[p].voice, name) {
            let staves = &plays[p].staves;
            let mut s: usize = 0;
            while s < staves.len()
                invariant
                    p < plays@.len(),
                    s <= staves@.len(),
                    views == play_views(plays@),
                    voice == text_view(name),
                    staves == &plays@[p as int].staves,
                    binds(views[p as int], voice),
                    forall|j: int|
                        0 <= j < s ==> (#[trigger] views[p as int].staves[j]).len() * base
                            <= u32::MAX,
                decreases staves@.len() - s,
            {
                let bars = staves[s].bars.len();
                assert(views[p as int].staves[s as int].len() == bars);
                assert(bars as u128 * base as u128 <= 0xffff_ffff_ffff_ffff * 0xffff_ffff)
                    by (nonlinear_arith)
                    requires
                        bars <= 0xffff_ffff_ffff_ffff,
                        base <= 0xffff_ffff,
                ;
                if bars as u128 * base as u128 > u32::MAX as u128 {
                    return false;
                }
                s += 1;
            }
        }
        p += 1;
    }
    true
}

} // verus!
