use guitarpro::analysis::fingering::{suggest_fingering, FingerAssignment, FingerRole};
use guitarpro::model::{Beat, Duration, MeasureData, Note, NoteValue, Voice};

fn tab_note(string: u8, fret: u8) -> Note {
    Note { pitch: None, string: Some(string), fret: Some(fret), tie: None, gp_is_rest: false, ..Default::default() }
}

fn beat_at_tick(tick: u32, notes: Vec<Note>) -> Beat {
    Beat {
        tick_offset: tick,
        duration: Duration { base: NoteValue::Quarter, dots: 0, tuplet: None },
        notes,
        dynamic: None,
        gp_empty: false,
        gp_rest: false,
    }
}

fn measure_with_voice(index: u16, beats: Vec<Beat>) -> MeasureData {
    MeasureData { measure_index: index, repeat: None, voices: vec![Voice { voice_id: 0, beats }], gp_simile_mark: None }
}

fn run(measures: &[&MeasureData]) -> Vec<Vec<FingerAssignment>> {
    suggest_fingering(measures, &[])
}

fn find(assignments: &[FingerAssignment], string: i8, fret: i16) -> Option<&FingerAssignment> {
    assignments.iter().find(|a| a.string == string && a.fret == fret)
}

#[test]
fn empty_measures_returns_empty() {
    assert!(run(&[]).is_empty());
}

#[test]
fn measure_with_no_fretted_notes_returns_empty_vec() {
    let beat = beat_at_tick(0, vec![tab_note(1, 0), tab_note(2, 0)]);
    let m = measure_with_voice(0, vec![beat]);
    let result = run(&[&m]);
    assert_eq!(result.len(), 1);
    assert!(result[0].is_empty());
}

#[test]
fn single_fretted_note_gets_index_finger() {
    let beat = beat_at_tick(0, vec![tab_note(3, 5)]);
    let m = measure_with_voice(0, vec![beat]);
    let result = run(&[&m]);
    let a = find(&result[0], 3, 5).unwrap();
    assert_eq!(a.finger, 1);
    assert_eq!(a.role, FingerRole::Single);
    assert!(!a.position_shift);
}

#[test]
fn ascending_chord_gets_fingers_one_two_three() {
    let beat = beat_at_tick(0, vec![tab_note(4, 5), tab_note(3, 6), tab_note(2, 7)]);
    let m = measure_with_voice(0, vec![beat]);
    let result = run(&[&m]);
    assert_eq!(find(&result[0], 4, 5).unwrap().finger, 1);
    assert_eq!(find(&result[0], 3, 6).unwrap().finger, 2);
    assert_eq!(find(&result[0], 2, 7).unwrap().finger, 3);
}

#[test]
fn barre_chord_at_position() {
    let beat = beat_at_tick(
        0,
        vec![tab_note(6, 1), tab_note(5, 3), tab_note(4, 3), tab_note(3, 2), tab_note(2, 1), tab_note(1, 1)],
    );
    let m = measure_with_voice(0, vec![beat]);
    let result = run(&[&m]);
    let assignments = &result[0];
    let f1_s6 = find(assignments, 6, 1).unwrap();
    let f1_s2 = find(assignments, 2, 1).unwrap();
    let f1_s1 = find(assignments, 1, 1).unwrap();
    assert_eq!(f1_s6.finger, 1);
    assert_eq!(f1_s2.finger, 1);
    assert_eq!(f1_s1.finger, 1);
    let anchor_count = [f1_s6, f1_s2, f1_s1].iter().filter(|a| a.role == FingerRole::BarreAnchor).count();
    let member_count = [f1_s6, f1_s2, f1_s1].iter().filter(|a| a.role == FingerRole::BarreMember).count();
    assert_eq!(anchor_count, 1);
    assert_eq!(member_count, 2);
    assert_eq!(find(assignments, 3, 2).unwrap().finger, 2);
    let fret3: Vec<_> = assignments.iter().filter(|a| a.fret == 3).collect();
    assert_eq!(fret3.len(), 2);
    let f3_fingers: Vec<u8> = {
        let mut v: Vec<u8> = fret3.iter().map(|a| a.finger).collect();
        v.sort();
        v
    };
    assert_eq!(f3_fingers, vec![3, 4]);
}

#[test]
fn two_notes_at_minimum_fret_is_barre() {
    let beat = beat_at_tick(0, vec![tab_note(4, 2), tab_note(3, 2), tab_note(2, 2)]);
    let m = measure_with_voice(0, vec![beat]);
    let result = run(&[&m]);
    let anchor_count = result[0].iter().filter(|a| a.role == FingerRole::BarreAnchor).count();
    let member_count = result[0].iter().filter(|a| a.role == FingerRole::BarreMember).count();
    assert_eq!(anchor_count, 1);
    assert_eq!(member_count, 2);
    assert!(result[0].iter().all(|a| a.finger == 1));
}

#[test]
fn two_notes_at_non_minimum_fret_are_not_barre() {
    let beat = beat_at_tick(0, vec![tab_note(3, 1), tab_note(2, 2), tab_note(1, 2)]);
    let m = measure_with_voice(0, vec![beat]);
    let result = run(&[&m]);
    assert!(result[0].iter().all(|a| a.role == FingerRole::Single));
    assert_eq!(find(&result[0], 3, 1).unwrap().finger, 1);
    let fret2: Vec<u8> = {
        let mut v: Vec<u8> = result[0].iter().filter(|a| a.fret == 2).map(|a| a.finger).collect();
        v.sort();
        v
    };
    assert_eq!(fret2, vec![2, 3]);
}

#[test]
fn hand_stays_in_position_when_chord_fits() {
    let b1 = beat_at_tick(0, vec![tab_note(3, 5), tab_note(2, 7)]);
    let b2 = beat_at_tick(960, vec![tab_note(3, 6), tab_note(2, 8)]);
    let m = measure_with_voice(0, vec![b1, b2]);
    let result = run(&[&m]);
    let a6 = find(&result[0], 3, 6).unwrap();
    let a8 = find(&result[0], 2, 8).unwrap();
    assert_eq!(a6.finger, 2);
    assert_eq!(a8.finger, 4);
    assert!(!a6.position_shift);
    assert!(!a8.position_shift);
}

#[test]
fn position_shift_when_chord_does_not_fit() {
    let b1 = beat_at_tick(0, vec![tab_note(3, 2)]);
    let b2 = beat_at_tick(960, vec![tab_note(3, 8)]);
    let m = measure_with_voice(0, vec![b1, b2]);
    let result = run(&[&m]);
    let a = find(&result[0], 3, 8).unwrap();
    assert_eq!(a.finger, 1);
    assert!(a.position_shift, "should mark a position shift");
}

#[test]
fn lookahead_retargets_last_beat_toward_next_measure() {
    let b0a = beat_at_tick(0, vec![tab_note(3, 3)]);
    let b0b = beat_at_tick(960, vec![tab_note(3, 5)]);
    let m0 = measure_with_voice(0, vec![b0a, b0b]);
    let b1 = beat_at_tick(0, vec![tab_note(3, 5), tab_note(2, 7)]);
    let m1 = measure_with_voice(1, vec![b1]);
    let result = run(&[&m0, &m1]);
    let last = find(&result[0], 3, 5).unwrap();
    assert_eq!(last.finger, 1);
    let first_m1 = find(&result[1], 3, 5).unwrap();
    assert!(!first_m1.position_shift, "no shift at start of m1 after look-ahead");
}

#[test]
fn lookahead_does_not_retarget_when_chord_does_not_fit() {
    let b0 = beat_at_tick(0, vec![tab_note(3, 2), tab_note(2, 3)]);
    let m0 = measure_with_voice(0, vec![b0]);
    let b1 = beat_at_tick(0, vec![tab_note(3, 9)]);
    let m1 = measure_with_voice(1, vec![b1]);
    let result = run(&[&m0, &m1]);
    let a = find(&result[0], 3, 2).unwrap();
    assert_eq!(a.finger, 1);
    let b = find(&result[1], 3, 9).unwrap();
    assert!(b.position_shift);
}

#[test]
fn open_strings_produce_no_assignments() {
    let beat = beat_at_tick(0, vec![tab_note(1, 0), tab_note(2, 0), tab_note(3, 3)]);
    let m = measure_with_voice(0, vec![beat]);
    let result = run(&[&m]);
    assert_eq!(result[0].len(), 1);
    assert_eq!(result[0][0].fret, 3);
}

#[test]
fn rest_beat_produces_no_assignments() {
    let mut rest_beat = beat_at_tick(0, vec![tab_note(1, 5)]);
    rest_beat.gp_rest = true;
    let m = measure_with_voice(0, vec![rest_beat]);
    let result = run(&[&m]);
    assert!(result[0].is_empty());
}

#[test]
fn notes_from_multiple_voices_combined_at_same_tick() {
    let m = MeasureData {
        measure_index: 0,
        repeat: None,
        voices: vec![
            Voice { voice_id: 0, beats: vec![beat_at_tick(0, vec![tab_note(1, 5)])] },
            Voice { voice_id: 1, beats: vec![beat_at_tick(0, vec![tab_note(2, 7)])] },
        ],
        gp_simile_mark: None,
    };
    let result = suggest_fingering(&[&m], &[]);
    assert_eq!(result[0].len(), 2);
    assert_eq!(find(&result[0], 1, 5).unwrap().finger, 1);
    assert_eq!(find(&result[0], 2, 7).unwrap().finger, 3);
}

// Five notes on one fret above the position: fingers are capped at 4.
#[test]
fn fingers_capped_at_four() {
    let beat = beat_at_tick(
        0,
        vec![tab_note(6, 1), tab_note(5, 3), tab_note(4, 3), tab_note(3, 3), tab_note(2, 3)],
    );
    let m = measure_with_voice(0, vec![beat]);
    let result = run(&[&m]);
    let mut fingers: Vec<u8> = result[0].iter().filter(|a| a.fret == 3).map(|a| a.finger).collect();
    fingers.sort();
    assert_eq!(fingers, vec![3, 4, 4, 4]);
}
