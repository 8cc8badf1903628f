use guitarpro::convert::guitarpro::{
    build_beat, note_type_value_to_u16, xml_note_to_duration, xml_note_to_legacy, xml_pitch_to_midi,
};
use guitarpro::model::legacy::{BeatStatus, NoteType as LegacyNoteType};
use guitarpro::model::musicxml::{
    Dot, Fret, Notations, Note, NoteType, NoteTypeValue, Pitch, Rest, StringNumber, Technical, Tie, TimeModification,
};

const STANDARD: [(i8, i8); 6] = [(1, 64), (2, 59), (3, 55), (4, 50), (5, 45), (6, 40)];

fn xml_note(pitch: Option<(&str, Option<i8>, i8)>) -> Note {
    Note {
        pitch: pitch.map(|(step, alter, octave)| Pitch { step: step.to_string(), alter, octave }),
        rest: None,
        chord: None,
        grace: None,
        duration: None,
        ties: vec![],
        voice: None,
        note_type: None,
        dots: vec![],
        time_modification: None,
        notations: vec![],
    }
}

fn rest_note() -> Note {
    let mut n = xml_note(None);
    n.rest = Some(Rest { measure: None, display_step: None, display_octave: None });
    n
}

fn tab_notation(string: u8, fret: u8) -> Notations {
    Notations {
        slides: vec![],
        ornaments: None,
        technical: Some(Technical {
            harmonic: None,
            fret: Some(Fret { value: fret }),
            string: Some(StringNumber { value: string }),
            hammer_on: None,
            pull_off: None,
            bend: None,
            half_muted: None,
            other_technical: None,
        }),
        articulations: vec![],
    }
}

#[test]
fn note_type_values() {
    assert_eq!(note_type_value_to_u16(NoteTypeValue::Whole), 1);
    assert_eq!(note_type_value_to_u16(NoteTypeValue::N16th), 16);
    assert_eq!(note_type_value_to_u16(NoteTypeValue::N128th), 128);
}

#[test]
fn xml_durations() {
    let mut typed = xml_note(None);
    typed.note_type = Some(NoteType { size: None, value: NoteTypeValue::Eighth });
    typed.dots = vec![Dot { placement: None }];
    typed.time_modification =
        Some(TimeModification { actual_notes: 3, normal_notes: 2, normal_type: None, normal_dots: 0 });
    let d = xml_note_to_duration(&typed, 480);
    assert_eq!((d.value, d.dotted, d.tuplet_enters, d.tuplet_times), (8, true, 3, 2));

    let mut timed = xml_note(None);
    timed.duration = Some(240);
    assert_eq!(xml_note_to_duration(&timed, 480).value, 8);
    timed.duration = Some(1920);
    assert_eq!(xml_note_to_duration(&timed, 480).value, 1);
    timed.duration = Some(320);
    assert_eq!(xml_note_to_duration(&timed, 480).value, 4);
    timed.duration = Some(250);
    assert_eq!(xml_note_to_duration(&timed, 480).value, 8);
    timed.duration = Some(256);
    assert_eq!(xml_note_to_duration(&timed, 480).value, 8);
    timed.duration = Some(137);
    assert_eq!(xml_note_to_duration(&timed, 480).value, 4);
    timed.duration = Some(0);
    assert_eq!(xml_note_to_duration(&timed, 480).value, 4);
    assert_eq!(xml_note_to_duration(&xml_note(None), 480).value, 4);
    let plain = xml_note_to_duration(&xml_note(None), 480);
    assert_eq!((plain.dotted, plain.tuplet_enters, plain.tuplet_times), (false, 1, 1));
}

#[test]
fn xml_pitch_numbers() {
    let p = |step: &str, alter: Option<i8>, octave: i8| Pitch { step: step.to_string(), alter, octave };
    assert_eq!(xml_pitch_to_midi(&p("C", None, 4)), 60);
    assert_eq!(xml_pitch_to_midi(&p("F", Some(1), 3)), 54);
    assert_eq!(xml_pitch_to_midi(&p("B", Some(-1), 2)), 46);
    assert_eq!(xml_pitch_to_midi(&p("H", None, 4)), 60);
}

#[test]
fn xml_notes_on_the_fretboard() {
    assert!(xml_note_to_legacy(&rest_note(), &STANDARD).is_none());
    let placed = xml_note_to_legacy(&xml_note(Some(("C", None, 4))), &STANDARD).unwrap();
    assert_eq!((placed.string, placed.value, placed.kind), (2, 1, LegacyNoteType::Normal));
    let mut tabbed = xml_note(Some(("C", None, 4)));
    tabbed.notations = vec![tab_notation(3, 5)];
    tabbed.ties = vec![Tie { tie_type: "start".to_string() }, Tie { tie_type: "stop".to_string() }];
    let t = xml_note_to_legacy(&tabbed, &STANDARD).unwrap();
    assert_eq!((t.string, t.value, t.kind), (3, 5, LegacyNoteType::Tie));
    assert!(xml_note_to_legacy(&xml_note(Some(("C", None, 1))), &STANDARD).is_none());
    assert!(xml_note_to_legacy(&xml_note(None), &STANDARD).is_none());
}

#[test]
fn xml_beats() {
    let rest = rest_note();
    let beat = build_beat(&[&rest], &STANDARD, 480);
    assert_eq!(beat.status, BeatStatus::Rest);
    assert!(beat.notes.is_empty());

    let low = xml_note(Some(("C", None, 1)));
    let unplaced = build_beat(&[&low], &STANDARD, 480);
    assert_eq!(unplaced.status, BeatStatus::Rest);

    let e = xml_note(Some(("E", None, 2)));
    let g = xml_note(Some(("G", None, 3)));
    let mut chord_first = xml_note(Some(("C", None, 4)));
    chord_first.note_type = Some(NoteType { size: None, value: NoteTypeValue::Half });
    let chord = build_beat(&[&chord_first, &low, &e, &g], &STANDARD, 480);
    assert_eq!(chord.status, BeatStatus::Normal);
    assert_eq!(chord.duration.value, 2);
    let places: Vec<(i8, i16)> = chord.notes.iter().map(|n| (n.string, n.value)).collect();
    assert_eq!(places, vec![(2, 1), (6, 0), (3, 0)]);
}

use guitarpro::convert::optimized::note::{
    convert_note_type, convert_pitch, note_duration, note_tab, note_tie, pitch_from_step_alter_octave,
};
use guitarpro::model::{NoteValue, PitchStep, TieType, Tuplet};

#[test]
fn xml_pitches_read_into_the_score_model() {
    let p = convert_pitch(&Pitch { step: "F".to_string(), alter: Some(1), octave: 3 });
    assert_eq!((p.step, p.alter, p.octave), (PitchStep::F, 1, 3));
    let q = convert_pitch(&Pitch { step: "X".to_string(), alter: None, octave: -1 });
    assert_eq!((q.step, q.alter, q.octave), (PitchStep::C, 0, 255));
    let r = pitch_from_step_alter_octave("B", Some(-1), 2);
    assert_eq!((r.step, r.alter, r.octave), (PitchStep::B, -1, 2));
}

#[test]
fn xml_note_durations_in_the_score_model() {
    assert_eq!(convert_note_type(NoteTypeValue::N128th), NoteValue::SixtyFourth);
    assert_eq!(convert_note_type(NoteTypeValue::Half), NoteValue::Half);
    let mut n = xml_note(None);
    assert_eq!(note_duration(&n).base, NoteValue::Quarter);
    n.note_type = Some(NoteType { size: None, value: NoteTypeValue::N16th });
    n.dots = vec![Dot { placement: None }, Dot { placement: None }, Dot { placement: None }];
    n.time_modification = Some(TimeModification { actual_notes: 5, normal_notes: 4, normal_type: None, normal_dots: 0 });
    let d = note_duration(&n);
    assert_eq!(d.base, NoteValue::Sixteenth);
    assert_eq!(d.dots, 2);
    assert_eq!(d.tuplet, Some(Tuplet { actual: 5, normal: 4 }));
}

#[test]
fn xml_tab_positions_and_ties() {
    let mut n = xml_note(Some(("C", None, 4)));
    assert_eq!(note_tab(&n), (None, None));
    let mut empty = tab_notation(1, 1);
    empty.technical = None;
    n.notations = vec![empty, tab_notation(4, 7), tab_notation(2, 9)];
    assert_eq!(note_tab(&n), (Some(4), Some(7)));
    assert_eq!(note_tie(&n), None);
    n.ties = vec![Tie { tie_type: "stop".to_string() }, Tie { tie_type: "start".to_string() }];
    assert_eq!(note_tie(&n), Some(TieType::End));
    n.ties = vec![Tie { tie_type: "start".to_string() }];
    assert_eq!(note_tie(&n), Some(TieType::Start));
    n.ties = vec![Tie { tie_type: "continue".to_string() }];
    assert_eq!(note_tie(&n), None);
}

use guitarpro::convert::guitarpro::{extract_string_tunings, first_part, pitch_step_to_midi};
use guitarpro::model::musicxml::{
    Attributes, Measure as XmlMeasure, MusicData, Part, PartList, PartListItem, ScorePart, ScorePartwise,
    StaffDetails, StaffTuning,
};

fn score_part(id: &str) -> PartListItem {
    PartListItem::ScorePart(ScorePart {
        id: id.to_string(),
        part_name: None,
        part_abbreviation: None,
        score_instruments: vec![],
        midi_instruments: vec![],
    })
}

fn tuning(line: u8, step: &str, alter: Option<i8>, octave: i8) -> StaffTuning {
    StaffTuning { line, tuning_step: step.to_string(), tuning_alter: alter, tuning_octave: octave }
}

fn attributes(details: Vec<StaffDetails>) -> MusicData {
    MusicData::Attributes(Attributes {
        divisions: None,
        keys: vec![],
        times: vec![],
        staves: None,
        clefs: vec![],
        staff_details: details,
    })
}

fn details(tunings: Vec<StaffTuning>) -> StaffDetails {
    StaffDetails { number: None, staff_type: None, staff_lines: None, staff_tunings: tunings }
}

#[test]
fn the_first_listed_part() {
    let doc = ScorePartwise {
        work: None,
        movement_title: None,
        identification: None,
        part_list: PartList { items: vec![score_part("P2"), score_part("P1")] },
        parts: vec![Part { id: "P1".to_string(), measures: vec![] }, Part { id: "P2".to_string(), measures: vec![] }],
    };
    assert_eq!(first_part(&doc).map(|p| p.id.as_str()), Some("P2"));
    let none = ScorePartwise { work: None, movement_title: None, identification: None, part_list: PartList { items: vec![score_part("P9")] }, parts: vec![] };
    assert!(first_part(&none).is_none());
    let empty = ScorePartwise { work: None, movement_title: None, identification: None, part_list: PartList { items: vec![] }, parts: vec![] };
    assert!(first_part(&empty).is_none());
}

#[test]
fn tuning_pitches() {
    assert_eq!(pitch_step_to_midi("E", None, 2), 40);
    assert_eq!(pitch_step_to_midi("D", Some(-1), 3), 49);
    assert_eq!(pitch_step_to_midi("G", None, 9), 127);
    assert_eq!(pitch_step_to_midi("C", None, -5), -48);
    assert_eq!(pitch_step_to_midi("C", Some(-100), -5), -128);
}

#[test]
fn string_tunings_of_a_part() {
    assert_eq!(extract_string_tunings(None), vec![(1, 64), (2, 59), (3, 55), (4, 50), (5, 45), (6, 40)]);
    let measure = XmlMeasure {
        number: "1".to_string(),
        music_data: vec![
            attributes(vec![details(vec![])]),
            attributes(vec![details(vec![tuning(1, "D", None, 2), tuning(2, "A", None, 2), tuning(3, "D", None, 3)])]),
            attributes(vec![details(vec![tuning(1, "E", None, 2)])]),
        ],
    };
    let part = Part { id: "P1".to_string(), measures: vec![measure] };
    assert_eq!(extract_string_tunings(Some(&part)), vec![(1, 50), (2, 45), (3, 38)]);
    let bare = Part { id: "P1".to_string(), measures: vec![XmlMeasure { number: "1".to_string(), music_data: vec![] }] };
    assert_eq!(extract_string_tunings(Some(&bare)).len(), 6);
}

use guitarpro::convert::musicxml::from_optimized::note_value_to_type;
use guitarpro::convert::musicxml::helpers::{duration_to_note_type, midi_to_pitch};
use guitarpro::convert::musicxml::note::make_rest_note;
use guitarpro::model::legacy::Duration as LegacyDuration;

#[test]
fn written_pitches_read_back() {
    for m in 0i8..=127 {
        let (step, alter, octave) = midi_to_pitch(m);
        assert_eq!(xml_pitch_to_midi(&Pitch { step, alter, octave }), m as i32);
    }
}

#[test]
fn written_durations_read_back() {
    for value in [1u16, 2, 4, 8, 16, 32, 64, 128] {
        for dotted in [false, true] {
            for (enters, times) in [(1u8, 1u8), (3, 2), (5, 4)] {
                let d = LegacyDuration { value, dotted, tuplet_enters: enters, tuplet_times: times };
                let rest = make_rest_note(480, duration_to_note_type(&d), &d, "1");
                assert_eq!(xml_note_to_duration(&rest, 960), d);
            }
        }
    }
}

#[test]
fn note_types_round_trip() {
    for v in [
        NoteValue::Whole,
        NoteValue::Half,
        NoteValue::Quarter,
        NoteValue::Eighth,
        NoteValue::Sixteenth,
        NoteValue::ThirtySecond,
        NoteValue::SixtyFourth,
    ] {
        assert_eq!(convert_note_type(note_value_to_type(v)), v);
    }
    assert_eq!(convert_note_type(note_value_to_type(NoteValue::HundredTwentyEighth)), NoteValue::SixtyFourth);
}
