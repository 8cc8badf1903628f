use guitarpro::convert::musicxml::from_optimized::{
    build_time_modification as opt_time_modification, duration_divisions, fifths_from_key_sig,
    make_clef as opt_make_clef, mode_str, note_value_number, note_value_to_type, pitch_out,
    DIVISIONS as OPT_DIVISIONS,
};
use guitarpro::convert::musicxml::helpers::{duration_to_divisions, duration_to_note_type, midi_to_pitch};
use guitarpro::convert::musicxml::measure::make_clef;
use guitarpro::convert::musicxml::note::{build_time_modification, make_rest_note};
use guitarpro::convert::musicxml::DIVISIONS;
use guitarpro::convert::optimized::timeline::key_sig_from_fifths;
use guitarpro::model::legacy::{Duration, DURATION_QUARTER as QUARTER};
use guitarpro::model::musicxml::NoteTypeValue;
use guitarpro::model::{Clef as OptClef, Duration as OptDuration, Mode, NoteValue, Pitch, PitchStep, Tuplet};

// --- helpers: midi_to_pitch ---

#[test]
fn midi_60_is_c4() {
    assert_eq!(midi_to_pitch(60), ("C".to_string(), None, 4));
}

#[test]
fn midi_69_is_a4() {
    assert_eq!(midi_to_pitch(69), ("A".to_string(), None, 4));
}

#[test]
fn midi_61_is_c_sharp_4() {
    assert_eq!(midi_to_pitch(61), ("C".to_string(), Some(1), 4));
}

#[test]
fn midi_0_is_c_neg1() {
    assert_eq!(midi_to_pitch(0), ("C".to_string(), None, -1));
}

// Negative MIDI numbers: the pitch class wraps, the octave division rounds toward zero.
#[test]
fn midi_negative_wraps_pitch_class() {
    assert_eq!(midi_to_pitch(-1), ("B".to_string(), None, -1));
    assert_eq!(midi_to_pitch(-13), ("B".to_string(), None, -2));
    assert_eq!(midi_to_pitch(127), ("G".to_string(), None, 9));
}

// --- helpers: duration_to_divisions ---

#[test]
fn quarter_note_equals_divisions() {
    let d = Duration::default();
    assert_eq!(duration_to_divisions(&d), DIVISIONS);
}

#[test]
fn half_note_is_double_divisions() {
    let d = Duration { value: 2, ..Duration::default() };
    assert_eq!(duration_to_divisions(&d), DIVISIONS * 2);
}

#[test]
fn whole_note_is_four_divisions() {
    let d = Duration { value: 1, ..Duration::default() };
    assert_eq!(duration_to_divisions(&d), DIVISIONS * 4);
}

#[test]
fn dotted_quarter_is_one_and_half_divisions() {
    let d = Duration { dotted: true, ..Duration::default() };
    let expected = DIVISIONS + DIVISIONS / 2;
    assert_eq!(duration_to_divisions(&d), expected);
}

#[test]
fn triplet_quarter_rounds_correctly() {
    let d = Duration { value: QUARTER as u16, tuplet_enters: 3, tuplet_times: 2, ..Duration::default() };
    let expected = DIVISIONS * 2 / 3;
    assert_eq!(duration_to_divisions(&d), expected);
}

// --- helpers: duration_to_note_type ---

#[test]
fn note_type_whole() {
    let d = Duration { value: 1, ..Duration::default() };
    assert_eq!(duration_to_note_type(&d), NoteTypeValue::Whole);
}

#[test]
fn note_type_quarter() {
    assert_eq!(duration_to_note_type(&Duration::default()), NoteTypeValue::Quarter);
}

#[test]
fn note_type_eighth() {
    let d = Duration { value: 8, ..Duration::default() };
    assert_eq!(duration_to_note_type(&d), NoteTypeValue::Eighth);
}

#[test]
fn note_type_unknown_value_falls_back_to_quarter() {
    let d = Duration { value: 7, ..Duration::default() };
    assert_eq!(duration_to_note_type(&d), NoteTypeValue::Quarter);
}

// --- measure: make_clef ---

#[test]
fn make_clef_treble() {
    let clef = make_clef("G", Some(2), None);
    assert_eq!(clef.sign, "G");
    assert_eq!(clef.line, Some(2));
    assert!(clef.number.is_none());
}

#[test]
fn make_clef_bass() {
    let clef = make_clef("F", Some(4), None);
    assert_eq!(clef.sign, "F");
    assert_eq!(clef.line, Some(4));
}

#[test]
fn make_clef_tab_has_staff_number() {
    let clef = make_clef("TAB", None, Some(2));
    assert_eq!(clef.sign, "TAB");
    assert!(clef.line.is_none());
    assert_eq!(clef.number, Some(2));
}

#[test]
fn make_clef_fields_default_to_none() {
    let clef = make_clef("G", Some(2), None);
    assert!(clef.additional.is_none());
    assert!(clef.size.is_none());
    assert!(clef.after_barline.is_none());
    assert!(clef.print_object.is_none());
    assert!(clef.clef_octave_change.is_none());
}

// --- note: time modification and rests ---

fn quarter() -> Duration {
    Duration::default()
}

fn triplet() -> Duration {
    Duration { value: QUARTER as u16, tuplet_enters: 3, tuplet_times: 2, ..Duration::default() }
}

#[test]
fn time_modification_none_for_default_tuplet() {
    assert!(build_time_modification(&quarter()).is_none());
}

#[test]
fn time_modification_some_for_triplet() {
    let tm = build_time_modification(&triplet()).unwrap();
    assert_eq!(tm.actual_notes, 3);
    assert_eq!(tm.normal_notes, 2);
}

#[test]
fn rest_note_has_rest_and_no_pitch() {
    let d = quarter();
    let note = make_rest_note(DIVISIONS, NoteTypeValue::Quarter, &d, "1");
    assert!(note.rest.is_some());
    assert!(note.pitch.is_none());
}

#[test]
fn rest_note_voice_matches_argument() {
    let d = quarter();
    let note = make_rest_note(DIVISIONS, NoteTypeValue::Quarter, &d, "2");
    assert_eq!(note.voice.as_deref(), Some("2"));
}

#[test]
fn rest_note_dotted_adds_dot() {
    let d = Duration { dotted: true, ..quarter() };
    let note = make_rest_note(DIVISIONS, NoteTypeValue::Quarter, &d, "1");
    assert_eq!(note.dots.len(), 1);
}

#[test]
fn rest_note_undotted_has_no_dots() {
    let note = make_rest_note(DIVISIONS, NoteTypeValue::Quarter, &quarter(), "1");
    assert!(note.dots.is_empty());
}

#[test]
fn rest_note_carries_duration_type_and_tuplet() {
    let note = make_rest_note(640, NoteTypeValue::Quarter, &triplet(), "1");
    assert_eq!(note.duration, Some(640));
    assert_eq!(note.note_type.as_ref().unwrap().value, NoteTypeValue::Quarter);
    assert_eq!(note.time_modification.unwrap().actual_notes, 3);
}

// --- from the optimized model ---

fn dur(base: NoteValue, dots: u8, tuplet: Option<Tuplet>) -> OptDuration {
    OptDuration { base, dots, tuplet }
}

#[test]
fn note_value_number_maps_denominators() {
    assert_eq!(note_value_number(NoteValue::Whole), 1);
    assert_eq!(note_value_number(NoteValue::Quarter), 4);
    assert_eq!(note_value_number(NoteValue::SixtyFourth), 64);
    assert_eq!(note_value_number(NoteValue::Other(3)), 3);
    assert_eq!(note_value_number(NoteValue::Other(0)), 1);
}

#[test]
fn quarter_note_is_one_division_unit() {
    assert_eq!(duration_divisions(&dur(NoteValue::Quarter, 0, None)), OPT_DIVISIONS);
}

#[test]
fn whole_note_is_four_division_units() {
    assert_eq!(duration_divisions(&dur(NoteValue::Whole, 0, None)), OPT_DIVISIONS * 4);
}

#[test]
fn dotted_quarter_adds_half() {
    assert_eq!(duration_divisions(&dur(NoteValue::Quarter, 1, None)), OPT_DIVISIONS + OPT_DIVISIONS / 2);
}

#[test]
fn double_dotted_quarter_adds_half_then_quarter() {
    assert_eq!(
        duration_divisions(&dur(NoteValue::Quarter, 2, None)),
        OPT_DIVISIONS + OPT_DIVISIONS / 2 + OPT_DIVISIONS / 4
    );
}

#[test]
fn triplet_eighth_scales_by_two_thirds() {
    let tuplet = Tuplet { actual: 3, normal: 2 };
    let base = OPT_DIVISIONS / 2;
    assert_eq!(duration_divisions(&dur(NoteValue::Eighth, 0, Some(tuplet))), base * 2 / 3);
}

// A tuplet with zero actual notes leaves the duration unscaled; many dots converge.
#[test]
fn degenerate_tuplet_and_many_dots() {
    let zero = Tuplet { actual: 0, normal: 2 };
    assert_eq!(duration_divisions(&dur(NoteValue::Quarter, 0, Some(zero))), OPT_DIVISIONS);
    assert_eq!(duration_divisions(&dur(NoteValue::Quarter, 255, None)), 480 + 240 + 120 + 60 + 30 + 15 + 7 + 3 + 1);
}

#[test]
fn note_value_to_type_roundtrips_supported_values() {
    assert_eq!(note_value_to_type(NoteValue::Whole), NoteTypeValue::Whole);
    assert_eq!(note_value_to_type(NoteValue::Sixteenth), NoteTypeValue::N16th);
    assert_eq!(note_value_to_type(NoteValue::ThirtySecond), NoteTypeValue::N32nd);
    assert_eq!(note_value_to_type(NoteValue::SixtyFourth), NoteTypeValue::N64th);
}

#[test]
fn pitch_out_natural_has_no_alter() {
    let pitch = Pitch { step: PitchStep::C, alter: 0, octave: 4 };
    let out = pitch_out(&pitch);
    assert_eq!(out.step, "C");
    assert_eq!(out.octave, 4);
    assert!(out.alter.is_none());
}

#[test]
fn pitch_out_sharp_has_positive_alter() {
    let pitch = Pitch { step: PitchStep::F, alter: 1, octave: 5 };
    let out = pitch_out(&pitch);
    assert_eq!(out.step, "F");
    assert_eq!(out.alter, Some(1));
    assert_eq!(out.octave, 5);
}

#[test]
fn time_modification_none_without_tuplet() {
    assert!(opt_time_modification(&dur(NoteValue::Quarter, 0, None)).is_none());
}

#[test]
fn time_modification_some_with_tuplet() {
    let tuplet = Tuplet { actual: 3, normal: 2 };
    let tm = opt_time_modification(&dur(NoteValue::Eighth, 0, Some(tuplet))).unwrap();
    assert_eq!(tm.actual_notes, 3);
    assert_eq!(tm.normal_notes, 2);
}

#[test]
fn fifths_from_key_sig_inverts_major_keys() {
    for fifths in -7..=7i8 {
        let key_sig = key_sig_from_fifths(fifths, Some("major"));
        assert_eq!(fifths_from_key_sig(&key_sig), fifths, "major fifths={fifths}");
    }
}

#[test]
fn fifths_from_key_sig_inverts_minor_keys() {
    for fifths in -7..=7i8 {
        let key_sig = key_sig_from_fifths(fifths, Some("minor"));
        assert_eq!(fifths_from_key_sig(&key_sig), fifths, "minor fifths={fifths}");
    }
}

// The round trip holds for every mode text, including unknown ones (read as major).
#[test]
fn fifths_from_key_sig_inverts_every_mode() {
    for mode in [Some("dorian"), Some("aeolian"), Some("locrian"), Some("bogus"), None] {
        for fifths in -7..=7i8 {
            let key_sig = key_sig_from_fifths(fifths, mode);
            assert_eq!(fifths_from_key_sig(&key_sig), fifths, "{mode:?} fifths={fifths}");
        }
    }
}

#[test]
fn key_sig_from_fifths_examples() {
    let d_major = key_sig_from_fifths(2, Some("major"));
    assert_eq!(d_major.root, Pitch { step: PitchStep::D, alter: 0, octave: 4 });
    assert_eq!(d_major.mode, Mode::Major);
    let bb_minor = key_sig_from_fifths(-5, Some("aeolian"));
    assert_eq!(bb_minor.root, Pitch { step: PitchStep::B, alter: -1, octave: 4 });
    assert_eq!(bb_minor.mode, Mode::Minor);
    let out_of_range = key_sig_from_fifths(9, None);
    assert_eq!(out_of_range.root, Pitch { step: PitchStep::C, alter: 0, octave: 4 });
    assert_eq!(mode_str(Mode::Mixolydian), "mixolydian");
}

#[test]
fn clef_signs_map_correctly() {
    assert_eq!(opt_make_clef(OptClef::Treble, None).sign, "G");
    assert_eq!(opt_make_clef(OptClef::Bass, None).sign, "F");
    assert_eq!(opt_make_clef(OptClef::Tab, Some(2)).sign, "TAB");
    assert_eq!(opt_make_clef(OptClef::Tab, Some(2)).number, Some(2));
    assert_eq!(opt_make_clef(OptClef::Percussion, None).sign, "percussion");
}
