use guitarpro::analysis::form::{
    edit_distance, find_section_boundaries, jaccard_counts, label_with_primes, measure_is_silent,
    measure_pc_set, measure_rhythm, split_long_sections,
};
use guitarpro::model::{Beat, Duration, MeasureData, Note, NoteValue, Pitch, PitchStep, Voice};

#[test]
fn edit_distance_equal_sequences() {
    let a = vec![2u8, 3, 4];
    assert_eq!(edit_distance(&a, &a), 0);
}

#[test]
fn edit_distance_single_substitution() {
    let a = vec![2u8, 3, 4];
    let b = vec![2u8, 9, 4];
    assert_eq!(edit_distance(&a, &b), 1);
}

#[test]
fn edit_distance_insertion() {
    let a = vec![2u8, 4];
    let b = vec![2u8, 3, 4];
    assert_eq!(edit_distance(&a, &b), 1);
}

#[test]
fn label_with_primes_zero() {
    assert_eq!(label_with_primes('A', 0), "A");
}

#[test]
fn label_with_primes_two() {
    assert_eq!(label_with_primes('B', 2), "B''");
}

#[test]
fn edit_distance_examples() {
    assert_eq!(edit_distance(&[], &[1, 2, 3]), 3);
    assert_eq!(edit_distance(&[1, 2, 3], &[]), 3);
    assert_eq!(edit_distance(&[1, 2, 3, 4], &[2, 3, 4, 5]), 2);
    assert_eq!(edit_distance(&[7, 7, 7], &[1, 2, 3]), 3);
}

#[test]
fn jaccard_counts_examples() {
    let mut a = [false; 12];
    let mut b = [false; 12];
    assert_eq!(jaccard_counts(&a, &b), (0, 0));
    a[0] = true;
    a[4] = true;
    b[4] = true;
    b[7] = true;
    assert_eq!(jaccard_counts(&a, &b), (1, 3));
}

// Boundaries at silence edges and content changes; a long uniform stretch is split at a multiple of 4.
#[test]
fn boundaries_split_long_sections() {
    let n = 40;
    let silent = vec![false; n];
    let simile = vec![false; n];
    let pcs = vec![[true; 12]; n];
    let b = find_section_boundaries(n, &silent, &simile, &pcs);
    assert_eq!(b, vec![0, 12, 20, 32]);
    let mut silent2 = vec![false; 6];
    silent2[3] = true;
    let b2 = find_section_boundaries(6, &silent2, &[false; 6], &[[true; 12]; 6]);
    assert_eq!(b2, vec![0, 3, 4]);
}

#[test]
fn split_keeps_short_sections() {
    let mut b = vec![0usize, 5, 10];
    split_long_sections(&mut b, 20);
    assert_eq!(b, vec![0, 5, 10]);
    let mut c = vec![0usize];
    split_long_sections(&mut c, 17);
    assert_eq!(c, vec![0, 8]);
}

fn pitched(step: PitchStep) -> Note {
    Note { pitch: Some(Pitch { step, alter: 0, octave: 4 }), string: None, fret: None, tie: None, gp_is_rest: false, ..Default::default() }
}

fn beat(base: NoteValue, notes: Vec<Note>, rest: bool) -> Beat {
    Beat { tick_offset: 0, duration: Duration { base, dots: 0, tuplet: None }, notes, dynamic: None, gp_empty: false, gp_rest: rest }
}

#[test]
fn measure_features() {
    let md = MeasureData {
        measure_index: 0,
        repeat: None,
        voices: vec![
            Voice { voice_id: 0, beats: vec![beat(NoteValue::Eighth, vec![pitched(PitchStep::E)], false)] },
            Voice {
                voice_id: 1,
                beats: vec![
                    beat(NoteValue::Quarter, vec![pitched(PitchStep::C)], false),
                    beat(NoteValue::Whole, vec![pitched(PitchStep::G)], true),
                ],
            },
        ],
        gp_simile_mark: None,
    };
    assert!(!measure_is_silent(&md));
    assert_eq!(measure_rhythm(&md), vec![2, 3]);
    let pcs = measure_pc_set(&md, &[]);
    let present: Vec<usize> = (0..12).filter(|&p| pcs[p]).collect();
    assert_eq!(present, vec![0, 4]);
    let quiet = MeasureData {
        measure_index: 1,
        repeat: None,
        voices: vec![Voice { voice_id: 0, beats: vec![beat(NoteValue::Whole, vec![], true)] }],
        gp_simile_mark: None,
    };
    assert!(measure_is_silent(&quiet));
}
