use guitarpro::convert::musicxml::notations::build_notations;
use guitarpro::model::legacy::{BendEffect, BendPoint, HarmonicType, Note, SlideType};

#[test]
fn no_effects_returns_empty() {
    let note = Note::default();
    let result = build_notations(&note, &[]);
    assert!(result.is_empty());
}

#[test]
fn hammer_on_creates_technical() {
    let mut note = Note::default();
    note.effect.hammer = true;
    let result = build_notations(&note, &[]);
    assert_eq!(result.len(), 1);
    assert!(result[0].technical.as_ref().unwrap().hammer_on.is_some());
}

#[test]
fn staccato_creates_articulation() {
    let mut note = Note::default();
    note.effect.staccato = true;
    let result = build_notations(&note, &[]);
    assert_eq!(result.len(), 1);
    assert!(!result[0].articulations.is_empty());
    assert!(result[0].articulations[0].staccato.is_some());
}

#[test]
fn vibrato_creates_ornament() {
    let mut note = Note::default();
    note.effect.vibrato = true;
    let result = build_notations(&note, &[]);
    assert_eq!(result.len(), 1);
    assert!(result[0].ornaments.as_ref().unwrap().wavy_line.is_some());
}

#[test]
fn fretted_note_has_fret_and_string() {
    let note = Note { string: 1, value: 5, ..Default::default() };
    let strings: Vec<(i8, i8)> = vec![(1, 40)];
    let result = build_notations(&note, &strings);
    assert_eq!(result.len(), 1);
    let tech = result[0].technical.as_ref().unwrap();
    assert_eq!(tech.fret.as_ref().unwrap().value, 5);
    assert_eq!(tech.string.as_ref().unwrap().value, 1);
}

#[test]
fn let_ring_uses_other_technical() {
    let mut note = Note::default();
    note.effect.let_ring = true;
    let result = build_notations(&note, &[]);
    assert_eq!(result.len(), 1);
    let other = result[0].technical.as_ref().unwrap().other_technical.as_ref().unwrap();
    assert_eq!(other.value.as_deref(), Some("let-ring"));
}

// A string beyond the tuning gives no tablature position.
#[test]
fn string_outside_tuning_has_no_fret() {
    let note = Note { string: 3, value: 5, ..Default::default() };
    let result = build_notations(&note, &[(1, 40), (2, 45)]);
    assert!(result.is_empty());
}

// Bends report their peak; a flat bend reports nothing.
#[test]
fn bend_reports_peak_value() {
    let mut note = Note::default();
    note.effect.bend = Some(BendEffect {
        points: vec![
            BendPoint { position: 0, value: 0, vibrato: false },
            BendPoint { position: 6, value: 100, vibrato: false },
            BendPoint { position: 12, value: 50, vibrato: false },
        ],
    });
    let result = build_notations(&note, &[]);
    assert_eq!(result[0].technical.as_ref().unwrap().bend.unwrap().bend_alter_hundredths, 100);

    let mut flat = Note::default();
    flat.effect.bend = Some(BendEffect { points: vec![BendPoint { position: 0, value: 0, vibrato: false }] });
    assert!(build_notations(&flat, &[]).is_empty());
}

// Only shift and legato slides are shown; palm mute and harmonics are technical marks.
#[test]
fn slides_mutes_harmonics_and_accents() {
    let mut note = Note::default();
    note.effect.slides = vec![SlideType::IntoFromBelow, SlideType::ShiftSlideTo, SlideType::LegatoSlideTo];
    note.effect.palm_mute = true;
    note.effect.harmonic = Some(HarmonicType::Natural);
    note.effect.heavy_accentuated_note = true;
    let result = build_notations(&note, &[]);
    assert_eq!(result.len(), 1);
    let n = &result[0];
    assert_eq!(n.slides.len(), 2);
    assert_eq!(n.slides[0].line_type.as_deref(), Some("dashed"));
    assert_eq!(n.slides[1].line_type.as_deref(), Some("solid"));
    let tech = n.technical.as_ref().unwrap();
    assert!(tech.half_muted.is_some());
    assert!(tech.harmonic.unwrap().natural);
    assert!(n.articulations[0].strong_accent.is_some());
    assert!(n.articulations[0].accent.is_none());
}
