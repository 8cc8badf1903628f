use guitarpro::analysis::repeats::{apply_repeats, detect_repeats, SimileMark};
use guitarpro::model::{
    Beat, Duration, MeasureData, MeasureDef, MeasureRepeat, MeasureRepeatKind, Note, NoteValue,
    Pitch, PitchStep, TieType, TimeSignature, Track, Voice,
};

fn pitch(step: PitchStep) -> Pitch {
    Pitch { step, alter: 0, octave: 4 }
}

fn bare_note(p: Pitch) -> Note {
    Note { pitch: Some(p), string: None, fret: None, tie: None, gp_is_rest: false, ..Default::default() }
}

fn quarter_beat(p: Pitch) -> Beat {
    Beat {
        tick_offset: 0,
        duration: Duration { base: NoteValue::Quarter, dots: 0, tuplet: None },
        notes: vec![bare_note(p)],
        dynamic: None,
        gp_empty: false,
        gp_rest: false,
    }
}

fn quarter_beat_tie_start(p: Pitch) -> Beat {
    let mut b = quarter_beat(p);
    b.notes[0].tie = Some(TieType::Start);
    b
}

fn measure_with_beats(index: u16, beats: Vec<Beat>) -> MeasureData {
    MeasureData {
        measure_index: index,
        repeat: None,
        voices: vec![Voice { voice_id: 0, beats }],
        gp_simile_mark: None,
    }
}

fn empty_track_with_measures(mut measures: Vec<MeasureData>) -> Track {
    measures.sort_by_key(|m| m.measure_index);
    Track { name: String::new(), instrument: 0, staves: vec![], measures }
}

fn empty_timeline(n: u16) -> Vec<MeasureDef> {
    (0..n).map(|i| MeasureDef { index: i, tempo: None, key_signature: None, time_signature: None }).collect()
}

#[test]
fn empty_track() {
    let track = empty_track_with_measures(vec![]);
    let result = detect_repeats(&track, &[]);
    assert!(result.is_empty());
}

#[test]
fn single_measure_no_repeat() {
    let track =
        empty_track_with_measures(vec![measure_with_beats(0, vec![quarter_beat(pitch(PitchStep::C))])]);
    let tl = empty_timeline(1);
    let result = detect_repeats(&track, &tl);
    assert!(result.is_empty());
}

#[test]
fn single_repeat_aa() {
    let a = || vec![quarter_beat(pitch(PitchStep::C))];
    let track = empty_track_with_measures(vec![measure_with_beats(0, a()), measure_with_beats(1, a())]);
    let tl = empty_timeline(2);
    let result = detect_repeats(&track, &tl);
    assert_eq!(result.len(), 1);
    assert_eq!(result[&1], SimileMark::Single);
}

#[test]
fn no_repeat_ab() {
    let track = empty_track_with_measures(vec![
        measure_with_beats(0, vec![quarter_beat(pitch(PitchStep::C))]),
        measure_with_beats(1, vec![quarter_beat(pitch(PitchStep::D))]),
    ]);
    let tl = empty_timeline(2);
    let result = detect_repeats(&track, &tl);
    assert!(result.is_empty());
}

#[test]
fn single_repeat_chain() {
    let a = || vec![quarter_beat(pitch(PitchStep::E))];
    let track = empty_track_with_measures(vec![
        measure_with_beats(0, a()),
        measure_with_beats(1, a()),
        measure_with_beats(2, a()),
        measure_with_beats(3, a()),
    ]);
    let tl = empty_timeline(4);
    let result = detect_repeats(&track, &tl);
    assert_eq!(result[&1], SimileMark::Single);
    assert_eq!(result[&2], SimileMark::Single);
    assert_eq!(result[&3], SimileMark::Single);
}

#[test]
fn double_repeat_abab() {
    let a = || vec![quarter_beat(pitch(PitchStep::C))];
    let b = || vec![quarter_beat(pitch(PitchStep::G))];
    let track = empty_track_with_measures(vec![
        measure_with_beats(0, a()),
        measure_with_beats(1, b()),
        measure_with_beats(2, a()),
        measure_with_beats(3, b()),
    ]);
    let tl = empty_timeline(4);
    let result = detect_repeats(&track, &tl);
    assert_eq!(result[&2], SimileMark::Double);
    assert_eq!(result[&3], SimileMark::Double);
    assert!(!result.contains_key(&0));
    assert!(!result.contains_key(&1));
}

#[test]
fn fourth_repeat() {
    let steps = [PitchStep::C, PitchStep::D, PitchStep::E, PitchStep::F];
    let measures: Vec<MeasureData> = steps
        .iter()
        .chain(steps.iter())
        .enumerate()
        .map(|(i, &s)| measure_with_beats(i as u16, vec![quarter_beat(pitch(s))]))
        .collect();
    let track = empty_track_with_measures(measures);
    let tl = empty_timeline(8);
    let result = detect_repeats(&track, &tl);
    for i in 4..8u16 {
        assert_eq!(result[&i], SimileMark::Fourth, "measure {i} should be Fourth");
    }
    for i in 0..4u16 {
        assert!(!result.contains_key(&i), "template measure {i} should not be annotated");
    }
}

#[test]
fn time_sig_change_blocks() {
    let a = || vec![quarter_beat(pitch(PitchStep::C))];
    let track = empty_track_with_measures(vec![measure_with_beats(0, a()), measure_with_beats(1, a())]);
    let mut tl = empty_timeline(2);
    tl[1].time_signature = Some(TimeSignature { numerator: 3, denominator: 4 });
    let result = detect_repeats(&track, &tl);
    assert!(result.is_empty(), "time-sig change should block Single mark");
}

#[test]
fn existing_repeat_skipped() {
    let a = || vec![quarter_beat(pitch(PitchStep::C))];
    let mut pre_repeated = measure_with_beats(1, vec![]);
    pre_repeated.repeat = Some(MeasureRepeat { kind: MeasureRepeatKind::Single });
    let track = empty_track_with_measures(vec![
        measure_with_beats(0, a()),
        pre_repeated,
        measure_with_beats(2, a()),
    ]);
    let tl = empty_timeline(3);
    let result = detect_repeats(&track, &tl);
    assert!(!result.contains_key(&2), "should not detect repeat through pre-existing repeat");
}

#[test]
fn tie_start_prevents_false_match() {
    let track = empty_track_with_measures(vec![
        measure_with_beats(0, vec![quarter_beat(pitch(PitchStep::C))]),
        measure_with_beats(1, vec![quarter_beat_tie_start(pitch(PitchStep::C))]),
    ]);
    let tl = empty_timeline(2);
    let result = detect_repeats(&track, &tl);
    assert!(result.is_empty(), "tie-start note must prevent a Single match with a clean note");
}

#[test]
fn tie_start_matches_same_tie_start() {
    let track = empty_track_with_measures(vec![
        measure_with_beats(0, vec![quarter_beat_tie_start(pitch(PitchStep::C))]),
        measure_with_beats(1, vec![quarter_beat_tie_start(pitch(PitchStep::C))]),
    ]);
    let tl = empty_timeline(2);
    let result = detect_repeats(&track, &tl);
    assert_eq!(result.get(&1), Some(&SimileMark::Single), "two identical tie-start measures should match");
}

#[test]
fn apply_repeats_clears_voices() {
    let a = || vec![quarter_beat(pitch(PitchStep::A))];
    let mut track = empty_track_with_measures(vec![measure_with_beats(0, a()), measure_with_beats(1, a())]);
    let tl = empty_timeline(2);
    let detected = detect_repeats(&track, &tl);
    apply_repeats(&mut track, &detected);
    let md1 = &track.measures[1];
    assert!(md1.voices.is_empty(), "voices should be cleared after apply");
    assert!(md1.repeat.is_some(), "repeat should be set after apply");
    assert_eq!(md1.repeat.as_ref().unwrap().kind, MeasureRepeatKind::Single);
    assert!(track.measures[0].repeat.is_none());
    assert_eq!(track.measures[0].voices.len(), 1);
}

// Notes of a chord match whatever their order within the beat.
#[test]
fn chord_notes_match_in_any_order() {
    let chord = |first: PitchStep, second: PitchStep| Beat {
        tick_offset: 0,
        duration: Duration { base: NoteValue::Quarter, dots: 0, tuplet: None },
        notes: vec![bare_note(pitch(first)), bare_note(pitch(second))],
        dynamic: None,
        gp_empty: false,
        gp_rest: false,
    };
    let track = empty_track_with_measures(vec![
        measure_with_beats(0, vec![chord(PitchStep::C, PitchStep::E)]),
        measure_with_beats(1, vec![chord(PitchStep::E, PitchStep::C)]),
    ]);
    let result = detect_repeats(&track, &empty_timeline(2));
    assert_eq!(result.get(&1), Some(&SimileMark::Single));
}

// A dotted beat is not the same as an undotted one.
#[test]
fn different_dots_prevent_match() {
    let mut dotted = quarter_beat(pitch(PitchStep::C));
    dotted.duration.dots = 1;
    let track = empty_track_with_measures(vec![
        measure_with_beats(0, vec![quarter_beat(pitch(PitchStep::C))]),
        measure_with_beats(1, vec![dotted]),
    ]);
    assert!(detect_repeats(&track, &empty_timeline(2)).is_empty());
}

// A Double template may hold a Single mark: A A B A B gives the Single at
// 1 and then the Double at 3 and 4.
#[test]
fn double_may_repeat_a_single_marked_template() {
    let a = || vec![quarter_beat(pitch(PitchStep::C))];
    let b = || vec![quarter_beat(pitch(PitchStep::G))];
    let track = empty_track_with_measures(vec![
        measure_with_beats(0, a()),
        measure_with_beats(1, a()),
        measure_with_beats(2, b()),
        measure_with_beats(3, a()),
        measure_with_beats(4, b()),
    ]);
    let result = detect_repeats(&track, &empty_timeline(5));
    assert_eq!(result.len(), 3);
    assert_eq!(result.get(&1), Some(&SimileMark::Single));
    assert_eq!(result.get(&3), Some(&SimileMark::Double));
    assert_eq!(result.get(&4), Some(&SimileMark::Double));
}

// A Double template may not hold a Double mark: A B A B A B marks 2 and 3
// only, then measure 4 onwards has no unmarked template pair.
#[test]
fn double_template_marked_double_is_refused() {
    let a = || vec![quarter_beat(pitch(PitchStep::C))];
    let b = || vec![quarter_beat(pitch(PitchStep::G))];
    let track = empty_track_with_measures(vec![
        measure_with_beats(0, a()),
        measure_with_beats(1, b()),
        measure_with_beats(2, a()),
        measure_with_beats(3, b()),
        measure_with_beats(4, a()),
        measure_with_beats(5, b()),
    ]);
    let result = detect_repeats(&track, &empty_timeline(6));
    assert_eq!(result.get(&2), Some(&SimileMark::Double));
    assert_eq!(result.get(&3), Some(&SimileMark::Double));
    assert_eq!(result.get(&4), None);
    assert_eq!(result.get(&5), None);
}
