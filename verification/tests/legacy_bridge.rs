use guitarpro::convert::legacy::{
    compute_measure_starts, duration_to_legacy, dynamic_to_velocity, finger_to_legacy,
    flags_to_track_settings, opt_key_to_legacy_key, pitch_and_mode_to_fifths, pitch_to_midi,
};
use guitarpro::convert::optimized::legacy::{
    convert_duration, convert_finger, legacy_key_to_opt_key, midi_to_pitch, track_settings_flags,
    velocity_to_dynamic,
};
use guitarpro::convert::optimized::note::parse_finger;
use guitarpro::model::legacy::{Duration as LDuration, Fingering, KeySignature as LKeySignature};
use guitarpro::model::{
    Duration, Dynamic, Finger, KeySignature, MeasureDef, Mode, NoteValue, Pitch, PitchStep,
    TimeSignature, Tuplet,
};

#[test]
fn durations_convert_both_ways() {
    let d = Duration { base: NoteValue::Eighth, dots: 1, tuplet: Some(Tuplet { actual: 3, normal: 2 }) };
    let l = duration_to_legacy(&d);
    assert_eq!(l, LDuration { value: 8, dotted: true, tuplet_enters: 3, tuplet_times: 2 });
    assert_eq!(convert_duration(&l), d);
    let odd = LDuration { value: 12, dotted: false, tuplet_enters: 1, tuplet_times: 1 };
    assert_eq!(convert_duration(&odd), Duration { base: NoteValue::Other(12), dots: 0, tuplet: None });
    // Two dots come back as one.
    let dd = Duration { base: NoteValue::Half, dots: 2, tuplet: None };
    assert_eq!(convert_duration(&duration_to_legacy(&dd)).dots, 1);
}

#[test]
fn pitches_and_midi() {
    assert_eq!(pitch_to_midi(&Pitch { step: PitchStep::E, alter: 0, octave: 2 }), 40);
    assert_eq!(pitch_to_midi(&Pitch { step: PitchStep::B, alter: 1, octave: 255 }), 127);
    assert_eq!(midi_to_pitch(61), Pitch { step: PitchStep::C, alter: 1, octave: 4 });
    assert_eq!(midi_to_pitch(-5), Pitch { step: PitchStep::C, alter: 0, octave: 0 });
    assert_eq!(midi_to_pitch(5), Pitch { step: PitchStep::F, alter: 0, octave: 0 });
}

#[test]
fn dynamics_and_velocities() {
    assert_eq!(dynamic_to_velocity(None), 95);
    assert_eq!(dynamic_to_velocity(Some(Dynamic::PPP)), 15);
    assert_eq!(dynamic_to_velocity(Some(Dynamic::FFF)), 127);
    assert_eq!(velocity_to_dynamic(95), None);
    assert_eq!(velocity_to_dynamic(63), Some(Dynamic::MP));
    assert_eq!(velocity_to_dynamic(100), Some(Dynamic::F));
    assert_eq!(velocity_to_dynamic(-3), Some(Dynamic::PPP));
    assert_eq!(velocity_to_dynamic(dynamic_to_velocity(Some(Dynamic::F))), None);
}

#[test]
fn keys_convert_both_ways() {
    let e_minor = KeySignature { root: Pitch { step: PitchStep::E, alter: 0, octave: 4 }, mode: Mode::Minor };
    assert_eq!(opt_key_to_legacy_key(&e_minor), LKeySignature { key: 1, is_minor: true });
    let b_flat = Pitch { step: PitchStep::B, alter: -1, octave: 4 };
    assert_eq!(pitch_and_mode_to_fifths(&b_flat, Mode::Major), -2);
    assert_eq!(pitch_and_mode_to_fifths(&b_flat, Mode::Dorian), -2);
    let back = legacy_key_to_opt_key(&LKeySignature { key: -3, is_minor: false });
    assert_eq!(back.mode, Mode::Major);
    assert_eq!((back.root.step, back.root.alter), (PitchStep::E, -1));
    for key in -7..=7 {
        for is_minor in [false, true] {
            let l = LKeySignature { key, is_minor };
            assert_eq!(opt_key_to_legacy_key(&legacy_key_to_opt_key(&l)), l);
        }
    }
}

#[test]
fn fingers_convert_both_ways() {
    assert_eq!(finger_to_legacy(Finger::Ring), Fingering::Annular);
    assert_eq!(convert_finger(&Fingering::Little), Some(Finger::Pinky));
    assert_eq!(convert_finger(&Fingering::Unknown(9)), None);
    assert_eq!(convert_finger(&finger_to_legacy(Finger::Open)), None);
    assert_eq!(parse_finger(" T "), Some(Finger::Thumb));
    assert_eq!(parse_finger("5"), Some(Finger::Pinky));
    assert_eq!(parse_finger("o"), Some(Finger::Open));
    assert_eq!(parse_finger("x"), None);
}

#[test]
fn track_flags_round_trip() {
    let s = flags_to_track_settings(0x0001 | 0x0008 | 0x0400);
    assert!(s.tablature && s.show_rhythm && s.auto_brush);
    assert!(!s.notation && !s.extend_rhythmic);
    assert_eq!(track_settings_flags(&s), 0x0409);
    // Bit 0x0100 is not a setting and is dropped.
    assert_eq!(track_settings_flags(&flags_to_track_settings(0x0fff)), 0x0eff);
}

#[test]
fn measure_starts_follow_time_signatures() {
    let tl = vec![
        MeasureDef { index: 0, tempo: None, key_signature: None, time_signature: None },
        MeasureDef { index: 1, tempo: None, key_signature: None, time_signature: Some(TimeSignature { numerator: 3, denominator: 4 }) },
        MeasureDef { index: 2, tempo: None, key_signature: None, time_signature: None },
        MeasureDef { index: 3, tempo: None, key_signature: None, time_signature: Some(TimeSignature { numerator: 6, denominator: 8 }) },
    ];
    assert_eq!(compute_measure_starts(&tl), vec![960, 960 + 3840, 960 + 3840 + 2880, 960 + 3840 + 2 * 2880]);
    assert!(compute_measure_starts(&[]).is_empty());
}
