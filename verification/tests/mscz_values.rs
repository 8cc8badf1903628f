use guitarpro::convert::guitarpro::pitch_to_string_fret;
use guitarpro::convert::legacy::default_beams;
use guitarpro::convert::mscz::from_optimized::{duration_kind_name, fifths_from_root, pitch_to_midi, xml_escape};
use guitarpro::convert::mscz::to_optimized::{apply_dots, root_from_fifths};
use guitarpro::model::{NoteValue, Pitch, PitchStep};

#[test]
fn xml_escape_replaces_markup_characters() {
    assert_eq!(xml_escape("Tom & Jerry's <\"Song\">"), "Tom &amp; Jerry&apos;s &lt;&quot;Song&quot;&gt;");
    assert_eq!(xml_escape("plain ü"), "plain ü");
    assert_eq!(xml_escape(""), "");
}

#[test]
fn duration_kind_names() {
    assert_eq!(duration_kind_name(NoteValue::Whole), "whole");
    assert_eq!(duration_kind_name(NoteValue::Sixteenth), "16th");
    assert_eq!(duration_kind_name(NoteValue::ThirtySecond), "32nd");
    assert_eq!(duration_kind_name(NoteValue::HundredTwentyEighth), "128th");
    assert_eq!(duration_kind_name(NoteValue::Other(3)), "quarter");
}

#[test]
fn mscz_pitch_numbers() {
    assert_eq!(pitch_to_midi(Pitch { step: PitchStep::C, alter: 0, octave: 4 }), 60);
    assert_eq!(pitch_to_midi(Pitch { step: PitchStep::B, alter: -1, octave: 3 }), 58);
    assert_eq!(pitch_to_midi(Pitch { step: PitchStep::E, alter: 0, octave: 2 }), 40);
}

#[test]
fn fifths_and_roots_round_trip() {
    for f in -7i8..=7 {
        assert_eq!(fifths_from_root(root_from_fifths(f)), f);
        assert_eq!(root_from_fifths(f).octave, 4);
    }
    assert_eq!(root_from_fifths(-3), Pitch { step: PitchStep::E, alter: -1, octave: 4 });
    assert_eq!(root_from_fifths(6), Pitch { step: PitchStep::F, alter: 1, octave: 4 });
    assert_eq!(root_from_fifths(12), Pitch { step: PitchStep::C, alter: 0, octave: 4 });
    assert_eq!(fifths_from_root(Pitch { step: PitchStep::D, alter: 1, octave: 2 }), 0);
}

#[test]
fn dotted_lengths() {
    assert_eq!(apply_dots(960, 0), 960);
    assert_eq!(apply_dots(960, 1), 1440);
    assert_eq!(apply_dots(960, 2), 1680);
    assert_eq!(apply_dots(960, 3), 1800);
    assert_eq!(apply_dots(960, 7), 1800);
    assert_eq!(apply_dots(3, 3), 4);
    assert_eq!(apply_dots(u32::MAX, 1), u32::MAX);
}

#[test]
fn default_beam_groups() {
    assert_eq!(default_beams(2), vec![2, 2]);
    assert_eq!(default_beams(3), vec![3]);
    assert_eq!(default_beams(4), vec![2, 2, 2, 2]);
    assert_eq!(default_beams(6), vec![3, 3]);
    assert_eq!(default_beams(7), vec![7]);
}

#[test]
fn pitches_go_to_the_lowest_fret() {
    let standard = [(1i8, 64i8), (2, 59), (3, 55), (4, 50), (5, 45), (6, 40)];
    assert_eq!(pitch_to_string_fret(64, &standard), Some((1, 0)));
    assert_eq!(pitch_to_string_fret(60, &standard), Some((2, 1)));
    assert_eq!(pitch_to_string_fret(40, &standard), Some((6, 0)));
    assert_eq!(pitch_to_string_fret(39, &standard), None);
    assert_eq!(pitch_to_string_fret(89, &standard), None);
    assert_eq!(pitch_to_string_fret(88, &standard), Some((1, 24)));
    let doubled = [(1i8, 50i8), (2, 50)];
    assert_eq!(pitch_to_string_fret(52, &doubled), Some((1, 2)));
    assert_eq!(pitch_to_string_fret(i32::MIN, &doubled), None);
}

use guitarpro::convert::mscz::to_optimized::{convert_duration_kind, convert_note, convert_voice, duration_ticks};
use guitarpro::model::mscz::{MscxBeat, MscxBeatKind, MscxDuration, MscxDurationKind, MscxNote, MscxVoice};
use guitarpro::model::TieType;

fn dur(kind: MscxDurationKind, dots: u8) -> MscxDuration {
    MscxDuration { kind, dots }
}

#[test]
fn mscx_duration_ticks() {
    assert_eq!(duration_ticks(dur(MscxDurationKind::Quarter, 0)), 960);
    assert_eq!(duration_ticks(dur(MscxDurationKind::Quarter, 1)), 1440);
    assert_eq!(duration_ticks(dur(MscxDurationKind::Measure, 0)), 3840);
    assert_eq!(duration_ticks(dur(MscxDurationKind::HundredTwentyEighth, 2)), 52);
    assert_eq!(convert_duration_kind(MscxDurationKind::Measure), NoteValue::Whole);
    assert_eq!(convert_duration_kind(MscxDurationKind::Eighth), NoteValue::Eighth);
}

#[test]
fn mscx_notes_become_one_based_strings() {
    let n = convert_note(&MscxNote { pitch: Some(61), string: Some(0), fret: Some(3), tie_start: true, tie_end: true });
    assert_eq!(n.pitch, Some(Pitch { step: PitchStep::C, alter: 1, octave: 4 }));
    assert_eq!(n.string, Some(1));
    assert_eq!(n.fret, Some(3));
    assert_eq!(n.tie, Some(TieType::End));
    let top = convert_note(&MscxNote { pitch: None, string: Some(255), fret: None, tie_start: true, tie_end: false });
    assert_eq!(top.string, Some(255));
    assert_eq!(top.tie, Some(TieType::Start));
}

#[test]
fn mscx_voices_place_beats_one_after_another() {
    let note = MscxNote { pitch: Some(60), string: None, fret: None, tie_start: false, tie_end: false };
    let voice = MscxVoice {
        beats: vec![
            MscxBeat { duration: dur(MscxDurationKind::Quarter, 1), kind: MscxBeatKind::Chord(vec![note, note]) },
            MscxBeat { duration: dur(MscxDurationKind::Eighth, 0), kind: MscxBeatKind::Rest },
            MscxBeat { duration: dur(MscxDurationKind::Half, 0), kind: MscxBeatKind::Chord(vec![note]) },
        ],
    };
    let v = convert_voice(&voice, 2);
    assert_eq!(v.voice_id, 2);
    let offsets: Vec<u32> = v.beats.iter().map(|b| b.tick_offset).collect();
    assert_eq!(offsets, vec![0, 1440, 1920]);
    assert_eq!(v.beats[0].notes.len(), 2);
    assert!(v.beats[1].gp_rest && v.beats[1].notes.is_empty());
    assert!(!v.beats[2].gp_rest);
    assert_eq!(v.beats[0].duration.dots, 1);
    assert_eq!(v.beats[2].duration.base, NoteValue::Half);
}

use guitarpro::convert::mscz::from_optimized::{write_beat, write_duration, write_note};
use guitarpro::model::{Beat, Duration, Note};

#[test]
fn mscx_duration_lines() {
    let mut out = String::new();
    write_duration(&mut out, &Duration { base: NoteValue::Eighth, dots: 2, tuplet: None });
    assert_eq!(out, "            <durationType>eighth</durationType>\n            <dots>2</dots>\n");
    let mut plain = String::from("x");
    write_duration(&mut plain, &Duration { base: NoteValue::Half, dots: 0, tuplet: None });
    assert_eq!(plain, "x            <durationType>half</durationType>\n");
}

#[test]
fn mscx_note_lines() {
    let mut out = String::new();
    let note = Note {
        pitch: Some(Pitch { step: PitchStep::C, alter: -1, octave: 0 }),
        string: Some(1),
        fret: Some(12),
        tie: Some(TieType::Start),
        gp_is_rest: false,
        ..Default::default()
    };
    write_note(&mut out, &note);
    assert_eq!(
        out,
        "            <Note>\n              <pitch>11</pitch>\n              <string>0</string>\n              <fret>12</fret>\n              <Spanner type=\"Tie\"><next/></Spanner>\n              </Note>\n"
    );
    let mut low = String::new();
    let below = Note { pitch: Some(Pitch { step: PitchStep::C, alter: -2, octave: 0 }), string: Some(0), fret: None, tie: None, gp_is_rest: false, ..Default::default() };
    write_note(&mut low, &below);
    assert_eq!(low, "            <Note>\n              <pitch>10</pitch>\n              <string>0</string>\n              </Note>\n");
}

#[test]
fn mscx_beats_are_rests_or_chords() {
    let quarter = Duration { base: NoteValue::Quarter, dots: 0, tuplet: None };
    let mut rest = String::new();
    write_beat(&mut rest, &Beat { tick_offset: 0, duration: quarter, notes: vec![], dynamic: None, gp_empty: false, gp_rest: false });
    assert_eq!(rest, "          <Rest>\n            <durationType>quarter</durationType>\n            </Rest>\n");
    let note = Note { pitch: None, string: None, fret: Some(0), tie: Some(TieType::End), gp_is_rest: false, ..Default::default() };
    let mut chord = String::new();
    write_beat(&mut chord, &Beat { tick_offset: 0, duration: quarter, notes: vec![note.clone(), note], dynamic: None, gp_empty: false, gp_rest: false });
    let note_text = "            <Note>\n              <fret>0</fret>\n              <Spanner type=\"Tie\"><prev/></Spanner>\n              </Note>\n";
    assert_eq!(
        chord,
        format!("          <Chord>\n            <durationType>quarter</durationType>\n{}{}            </Chord>\n", note_text, note_text)
    );
}

#[test]
fn mscx_negative_pitch_numbers_keep_their_sign() {
    let p = Pitch { step: PitchStep::C, alter: -20, octave: 0 };
    assert_eq!(pitch_to_midi(p), -8);
    let mut out = String::new();
    write_note(&mut out, &Note { pitch: Some(p), string: None, fret: None, tie: None, gp_is_rest: false, ..Default::default() });
    assert_eq!(out, "            <Note>\n              <pitch>-8</pitch>\n              </Note>\n");
}

use guitarpro::convert::mscz::to_optimized::{
    clef_from_default, convert_key_sig, convert_time_sig, default_key_signature, encoding_year_from_meta,
    measure_duration_ticks, meta_value,
};
use guitarpro::model::mscz::{MetaTag, MscxKeySig, MscxTimeSig};
use guitarpro::model::{Clef, Mode, TimeSignature};

fn tag(name: &str, value: &str) -> MetaTag {
    MetaTag { name: name.to_string(), value: value.to_string() }
}

#[test]
fn mscx_signatures() {
    let t = convert_time_sig(MscxTimeSig { numerator: 0, denominator: 8 });
    assert_eq!((t.numerator, t.denominator), (1, 8));
    let k = convert_key_sig(MscxKeySig { fifths: -2 });
    assert_eq!(k.root, Pitch { step: PitchStep::B, alter: -1, octave: 4 });
    assert_eq!(k.mode, Mode::Major);
    assert_eq!(default_key_signature().root, Pitch { step: PitchStep::C, alter: 0, octave: 4 });
    assert_eq!(measure_duration_ticks(TimeSignature { numerator: 3, denominator: 4 }), 2880);
    assert_eq!(measure_duration_ticks(TimeSignature { numerator: 6, denominator: 8 }), 2880);
    assert_eq!(measure_duration_ticks(TimeSignature { numerator: 4, denominator: 0 }), 15360);
}

#[test]
fn mscx_clefs() {
    assert_eq!(clef_from_default(None, false), Clef::Treble);
    assert_eq!(clef_from_default(Some("F8vb"), false), Clef::Bass);
    assert_eq!(clef_from_default(Some("C3"), false), Clef::Alto);
    assert_eq!(clef_from_default(Some("C4"), false), Clef::Tenor);
    assert_eq!(clef_from_default(Some("PERC2"), false), Clef::Percussion);
    assert_eq!(clef_from_default(Some("TAB_SERIF"), false), Clef::Tab);
    assert_eq!(clef_from_default(Some("F"), true), Clef::Tab);
    assert_eq!(clef_from_default(Some("X"), false), Clef::Treble);
}

#[test]
fn mscx_meta_tags() {
    let tags = vec![tag("workTitle", "Song"), tag("creationDate", "2021-05-03"), tag("workTitle", "Other")];
    assert_eq!(meta_value(&tags, "workTitle"), Some("Song".to_string()));
    assert_eq!(meta_value(&tags, "composer"), None);
    assert_eq!(encoding_year_from_meta(&tags), Some(2021));
    assert_eq!(encoding_year_from_meta(&[tag("creationDate", "1999")]), Some(1999));
    assert_eq!(encoding_year_from_meta(&[tag("creationDate", "70000-01-01")]), None);
    assert_eq!(encoding_year_from_meta(&[tag("creationDate", "May 2021")]), None);
    assert_eq!(encoding_year_from_meta(&[]), None);
}

#[test]
fn mscx_pitches_read_and_written_back() {
    for m in 12u8..=127 {
        let n = convert_note(&MscxNote { pitch: Some(m), string: None, fret: None, tie_start: false, tie_end: false });
        assert_eq!(pitch_to_midi(n.pitch.unwrap()), m as i16);
    }
    let low = convert_note(&MscxNote { pitch: Some(5), string: None, fret: None, tie_start: false, tie_end: false });
    assert_eq!(pitch_to_midi(low.pitch.unwrap()), 17);
}
