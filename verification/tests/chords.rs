use guitarpro::analysis::chords::{identify_chord, ChordName, ChordQuality, PitchClass};
use guitarpro::model::{Beat, Duration, Note, NoteValue, Pitch, PitchStep};

const GUITAR_STRINGS: &[(i8, i8)] = &[(1, 64), (2, 59), (3, 55), (4, 50), (5, 45), (6, 40)];

fn pitch_note(step: PitchStep, alter: i8, octave: u8) -> Note {
    Note { pitch: Some(Pitch { step, alter, octave }), string: None, fret: None, tie: None, gp_is_rest: false, ..Default::default() }
}

fn tab_note(string: u8, fret: u8) -> Note {
    Note { pitch: None, string: Some(string), fret: Some(fret), tie: None, gp_is_rest: false, ..Default::default() }
}

fn beat_from_notes(notes: Vec<Note>) -> Beat {
    Beat {
        tick_offset: 0,
        duration: Duration { base: NoteValue::Quarter, dots: 0, tuplet: None },
        notes,
        dynamic: None,
        gp_empty: false,
        gp_rest: false,
    }
}

fn id(b: &Beat) -> Option<ChordName> {
    identify_chord(b, &[])
}

fn id_guitar(b: &Beat) -> Option<ChordName> {
    identify_chord(b, GUITAR_STRINGS)
}

#[test]
fn single_note_returns_none() {
    let b = beat_from_notes(vec![pitch_note(PitchStep::C, 0, 4)]);
    assert_eq!(id(&b), None);
}

#[test]
fn unison_returns_none() {
    let b = beat_from_notes(vec![pitch_note(PitchStep::C, 0, 4), pitch_note(PitchStep::C, 0, 5)]);
    assert_eq!(id(&b), None);
}

#[test]
fn empty_beat_returns_none() {
    let b = beat_from_notes(vec![]);
    assert_eq!(id(&b), None);
}

#[test]
fn c_major_triad() {
    let b = beat_from_notes(vec![
        pitch_note(PitchStep::C, 0, 4),
        pitch_note(PitchStep::E, 0, 4),
        pitch_note(PitchStep::G, 0, 4),
    ]);
    let chord = id(&b).unwrap();
    assert_eq!(chord.root, PitchClass(0));
    assert_eq!(chord.quality, ChordQuality::Major);
    assert_eq!(chord.bass, None);
    assert!(!chord.uncertain);
    assert_eq!(chord.to_string(), "C");
}

#[test]
fn a_minor_triad() {
    let b = beat_from_notes(vec![
        pitch_note(PitchStep::A, 0, 3),
        pitch_note(PitchStep::C, 0, 4),
        pitch_note(PitchStep::E, 0, 4),
    ]);
    let chord = id(&b).unwrap();
    assert_eq!(chord.root, PitchClass(9));
    assert_eq!(chord.quality, ChordQuality::Minor);
    assert!(!chord.uncertain);
    assert_eq!(chord.to_string(), "Am");
}

#[test]
fn g_dominant_7th() {
    let b = beat_from_notes(vec![
        pitch_note(PitchStep::G, 0, 3),
        pitch_note(PitchStep::B, 0, 3),
        pitch_note(PitchStep::D, 0, 4),
        pitch_note(PitchStep::F, 0, 4),
    ]);
    let chord = id(&b).unwrap();
    assert_eq!(chord.root, PitchClass(7));
    assert_eq!(chord.quality, ChordQuality::Dom7);
    assert!(!chord.uncertain);
    assert_eq!(chord.to_string(), "G7");
}

#[test]
fn d_sus4() {
    let b = beat_from_notes(vec![
        pitch_note(PitchStep::D, 0, 3),
        pitch_note(PitchStep::G, 0, 3),
        pitch_note(PitchStep::A, 0, 3),
    ]);
    let chord = id(&b).unwrap();
    assert_eq!(chord.root, PitchClass(2));
    assert_eq!(chord.quality, ChordQuality::Sus4);
    assert!(!chord.uncertain);
}

#[test]
fn b_diminished() {
    let b = beat_from_notes(vec![
        pitch_note(PitchStep::B, 0, 3),
        pitch_note(PitchStep::D, 0, 4),
        pitch_note(PitchStep::F, 0, 4),
    ]);
    let chord = id(&b).unwrap();
    assert_eq!(chord.root, PitchClass(11));
    assert_eq!(chord.quality, ChordQuality::Dim);
    assert!(!chord.uncertain);
}

#[test]
fn c_augmented() {
    let b = beat_from_notes(vec![
        pitch_note(PitchStep::C, 0, 4),
        pitch_note(PitchStep::E, 0, 4),
        pitch_note(PitchStep::G, 1, 4),
    ]);
    let chord = id(&b).unwrap();
    assert_eq!(chord.root, PitchClass(0));
    assert_eq!(chord.quality, ChordQuality::Aug);
    assert!(!chord.uncertain);
}

#[test]
fn e_power_chord() {
    let b = beat_from_notes(vec![pitch_note(PitchStep::E, 0, 2), pitch_note(PitchStep::B, 0, 2)]);
    let chord = id(&b).unwrap();
    assert_eq!(chord.root, PitchClass(4));
    assert_eq!(chord.quality, ChordQuality::Power);
    assert!(!chord.uncertain);
    assert_eq!(chord.to_string(), "E5");
}

#[test]
fn c_add9() {
    let b = beat_from_notes(vec![
        pitch_note(PitchStep::C, 0, 4),
        pitch_note(PitchStep::D, 0, 4),
        pitch_note(PitchStep::E, 0, 4),
        pitch_note(PitchStep::G, 0, 4),
    ]);
    let chord = id(&b).unwrap();
    assert_eq!(chord.root, PitchClass(0));
    assert_eq!(chord.quality, ChordQuality::Add9);
    assert!(!chord.uncertain);
}

#[test]
fn g_major_9th() {
    let b = beat_from_notes(vec![
        pitch_note(PitchStep::G, 0, 3),
        pitch_note(PitchStep::B, 0, 3),
        pitch_note(PitchStep::D, 0, 4),
        pitch_note(PitchStep::F, 1, 4),
        pitch_note(PitchStep::A, 0, 4),
    ]);
    let chord = id(&b).unwrap();
    assert_eq!(chord.root, PitchClass(7));
    assert_eq!(chord.quality, ChordQuality::Maj9);
    assert!(!chord.uncertain);
}

#[test]
fn g_over_b_slash_chord() {
    let b = beat_from_notes(vec![
        pitch_note(PitchStep::B, 0, 2),
        pitch_note(PitchStep::D, 0, 3),
        pitch_note(PitchStep::G, 0, 3),
        pitch_note(PitchStep::B, 0, 3),
    ]);
    let chord = id(&b).unwrap();
    assert_eq!(chord.root, PitchClass(7));
    assert_eq!(chord.quality, ChordQuality::Major);
    assert_eq!(chord.bass, Some(PitchClass(11)));
    assert!(!chord.uncertain);
    assert_eq!(chord.to_string(), "G/B");
}

#[test]
fn open_e_minor_chord_tab() {
    let b = beat_from_notes(vec![
        tab_note(6, 0),
        tab_note(5, 2),
        tab_note(4, 2),
        tab_note(3, 0),
        tab_note(2, 0),
        tab_note(1, 0),
    ]);
    let chord = id_guitar(&b).unwrap();
    assert_eq!(chord.root, PitchClass(4));
    assert_eq!(chord.quality, ChordQuality::Minor);
    assert!(!chord.uncertain);
}

#[test]
fn open_a_major_chord_tab() {
    let b = beat_from_notes(vec![tab_note(5, 0), tab_note(4, 2), tab_note(3, 2), tab_note(2, 2), tab_note(1, 0)]);
    let chord = id_guitar(&b).unwrap();
    assert_eq!(chord.root, PitchClass(9));
    assert_eq!(chord.quality, ChordQuality::Major);
    assert!(!chord.uncertain);
}

#[test]
fn two_note_interval_uncertain() {
    let b = beat_from_notes(vec![pitch_note(PitchStep::C, 0, 4), pitch_note(PitchStep::E, 0, 4)]);
    let chord = id(&b).unwrap();
    assert_eq!(chord.root, PitchClass(0));
    assert!(chord.uncertain, "incomplete chord should be uncertain");
}

#[test]
fn rest_notes_excluded() {
    let mut rest = pitch_note(PitchStep::G, 0, 3);
    rest.gp_is_rest = true;
    let b = beat_from_notes(vec![pitch_note(PitchStep::C, 0, 4), rest]);
    assert_eq!(id(&b), None);
}

#[test]
fn display_chord_name() {
    assert_eq!(
        ChordName { root: PitchClass(7), quality: ChordQuality::Min7, bass: None, uncertain: false }.to_string(),
        "Gm7"
    );
    assert_eq!(
        ChordName { root: PitchClass(2), quality: ChordQuality::Major, bass: Some(PitchClass(6)), uncertain: false }
            .to_string(),
        "D/F#"
    );
    assert_eq!(
        ChordName { root: PitchClass(5), quality: ChordQuality::Minor, bass: None, uncertain: true }.to_string(),
        "Fm?"
    );
}

#[test]
fn pitch_class_names() {
    assert_eq!(PitchClass(1).name_sharp(), "C#");
    assert_eq!(PitchClass(1).name_flat(), "Db");
    assert_eq!(PitchClass(11).name_sharp(), "B");
    assert_eq!(PitchClass(10).name_flat(), "Bb");
}

// A tab note on a string the tuning does not list contributes no pitch.
#[test]
fn unknown_string_without_pitch_is_ignored() {
    let b = beat_from_notes(vec![tab_note(9, 3), pitch_note(PitchStep::C, 0, 4)]);
    assert_eq!(id_guitar(&b), None);
}

#[test]
fn unknown_string_falls_back_to_the_written_pitch() {
    let on_string_one = |step: PitchStep| Note {
        pitch: Some(Pitch { step, alter: 0, octave: 4 }),
        string: Some(1),
        fret: Some(0),
        tie: None,
        gp_is_rest: false,
        ..Default::default()
    };
    let b = beat_from_notes(vec![on_string_one(PitchStep::C), on_string_one(PitchStep::E), on_string_one(PitchStep::G)]);
    let c = identify_chord(&b, &[]).unwrap();
    assert_eq!(c.root, PitchClass(0));
    assert_eq!(c.quality, ChordQuality::Major);
    assert_eq!(c.bass, None);
    assert!(!c.uncertain);
}
