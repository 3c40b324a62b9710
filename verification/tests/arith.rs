use stave::sequencing::arith::{checked_lcm, compute_gcd};
use stave::sequencing::order::sort_by_position;
use stave::sequencing::timebase::{
    check_staves_fit, stave_time_base, staves_time_base, total_length, voice_time_base,
};
use stave::sequencing::{BarNode, Note, NoteNode, PlayNode, SourcePosition, StaveNode};

fn bar(lengths: &[u32]) -> BarNode {
    BarNode {
        notes: lengths
            .iter()
            .map(|&length| NoteNode::Rest { length })
            .collect(),
    }
}

fn stave(bars: &[&[u32]]) -> StaveNode {
    StaveNode {
        bars: bars.iter().map(|lengths| bar(lengths)).collect(),
    }
}

#[test]
fn gcd_of_some_numbers() {
    assert_eq!(compute_gcd(12, 18), 6);
    assert_eq!(compute_gcd(18, 12), 6);
    assert_eq!(compute_gcd(7, 13), 1);
    assert_eq!(compute_gcd(0, 5), 5);
    assert_eq!(compute_gcd(5, 0), 5);
    assert_eq!(compute_gcd(0, 0), 0);
    assert_eq!(compute_gcd(u32::MAX, u32::MAX), u32::MAX);
}

#[test]
fn lcm_of_some_numbers() {
    assert_eq!(checked_lcm(2, 3), Some(6));
    assert_eq!(checked_lcm(4, 6), Some(12));
    assert_eq!(checked_lcm(6, 4), Some(12));
    assert_eq!(checked_lcm(1, 1), Some(1));
    assert_eq!(checked_lcm(1, 9), Some(9));
    assert_eq!(checked_lcm(5, 5), Some(5));
    assert_eq!(checked_lcm(0, 5), Some(0));
    assert_eq!(checked_lcm(5, 0), Some(0));
    assert_eq!(checked_lcm(u32::MAX, 1), Some(u32::MAX));
    assert_eq!(checked_lcm(u32::MAX, u32::MAX), Some(u32::MAX));
}

#[test]
fn lcm_beyond_32_bits_is_none() {
    assert_eq!(checked_lcm(65537, 65539), None);
    assert_eq!(checked_lcm(u32::MAX, 2), None);
    assert_eq!(checked_lcm(65536, 65536 * 3), Some(65536 * 3));
}

#[test]
fn the_length_of_a_bar_is_the_sum_of_its_tokens() {
    assert_eq!(total_length(&bar(&[])), 0);
    assert_eq!(total_length(&bar(&[1, 2, 3])), 6);
    assert_eq!(
        total_length(&bar(&[u32::MAX, u32::MAX, 2])),
        2 * u128::from(u32::MAX) + 2
    );
    let mixed = BarNode {
        notes: vec![
            NoteNode::Note {
                midi: 60,
                length: 4,
                at: SourcePosition::default(),
            },
            NoteNode::Extension { length: 2 },
            NoteNode::Rest { length: 1 },
        ],
    };
    assert_eq!(total_length(&mixed), 7);
    assert_eq!(mixed.notes[0].length(), 4);
    assert_eq!(mixed.notes[1].length(), 2);
    assert_eq!(mixed.notes[2].length(), 1);
}

#[test]
fn time_bases_fold_over_bars_and_staves() {
    assert_eq!(stave_time_base(1, &stave(&[])), Some(1));
    assert_eq!(stave_time_base(1, &stave(&[&[2], &[1, 2]])), Some(6));
    assert_eq!(stave_time_base(4, &stave(&[&[2], &[1, 2]])), Some(12));
    assert_eq!(stave_time_base(1, &stave(&[&[2], &[]])), None);
    assert_eq!(stave_time_base(1, &stave(&[&[u32::MAX, 1]])), None);
    assert_eq!(
        staves_time_base(1, &vec![stave(&[&[2]]), stave(&[&[5], &[3]])]),
        Some(30)
    );
    assert_eq!(staves_time_base(7, &vec![]), Some(7));
    assert_eq!(staves_time_base(0, &vec![]), None);
    assert_eq!(stave_time_base(0, &stave(&[&[2]])), None);
    assert_eq!(
        staves_time_base(1, &vec![stave(&[&[65537]]), stave(&[&[65539]])]),
        None
    );
}

#[test]
fn the_time_base_of_a_voice_takes_its_plays_only() {
    let plays = vec![
        PlayNode {
            voice: Some(b"A"),
            staves: vec![stave(&[&[2]])],
            at: SourcePosition::default(),
        },
        PlayNode {
            voice: Some(b"B"),
            staves: vec![stave(&[&[5]])],
            at: SourcePosition::default(),
        },
        PlayNode {
            voice: None,
            staves: vec![stave(&[&[7]])],
            at: SourcePosition::default(),
        },
        PlayNode {
            voice: Some(b"A"),
            staves: vec![stave(&[&[3]])],
            at: SourcePosition::default(),
        },
    ];
    assert_eq!(voice_time_base(&plays, Some(b"A")), Some(6));
    assert_eq!(voice_time_base(&plays, Some(b"B")), Some(5));
    assert_eq!(voice_time_base(&plays, None), Some(7));
    assert_eq!(voice_time_base(&plays, Some(b"C")), Some(1));
    assert!(check_staves_fit(&plays, Some(b"A"), u32::MAX));
    assert!(check_staves_fit(&plays, Some(b"C"), u32::MAX));
    let long = vec![PlayNode {
        voice: Some(b"A"),
        staves: vec![stave(&[&[1], &[1]])],
        at: SourcePosition::default(),
    }];
    assert!(check_staves_fit(&long, Some(b"A"), u32::MAX / 2));
    assert!(!check_staves_fit(&long, Some(b"A"), u32::MAX / 2 + 1));
    assert!(check_staves_fit(&long, Some(b"B"), u32::MAX));
}

#[test]
fn sorting_is_by_position_and_stable() {
    let notes = vec![
        Note { midi: 1, length: 1, position: 4 },
        Note { midi: 2, length: 1, position: 0 },
        Note { midi: 3, length: 1, position: 4 },
        Note { midi: 4, length: 1, position: 2 },
        Note { midi: 5, length: 1, position: 0 },
        Note { midi: 6, length: 1, position: 4 },
    ];
    let mut expected = notes.clone();
    expected.sort_by_key(|note| note.position);
    let sorted = sort_by_position(notes);
    assert_eq!(
        sorted.iter().map(|note| note.midi).collect::<Vec<u8>>(),
        vec![2, 5, 4, 1, 3, 6]
    );
    assert_eq!(sorted, expected);
    assert_eq!(sort_by_position(vec![]), vec![]);
}
