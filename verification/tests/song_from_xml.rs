use guitarpro::convert::song_from_xml::{build_channels, build_measure_headers, extract_global_tempo};
use guitarpro::model::legacy::{KeySignature, MidiChannel};
use guitarpro::model::musicxml::{
    Attributes, Barline, Direction, Key, Measure, MidiInstrument, MusicData, Part, PartList, PartListItem, Repeat,
    ScorePart, ScorePartwise, Sound, Time,
};

fn part_item(id: &str, midi: Vec<MidiInstrument>) -> PartListItem {
    PartListItem::ScorePart(ScorePart {
        id: id.to_string(),
        part_name: None,
        part_abbreviation: None,
        score_instruments: vec![],
        midi_instruments: midi,
    })
}

fn doc(items: Vec<PartListItem>, parts: Vec<Part>) -> ScorePartwise {
    ScorePartwise { work: None, movement_title: None, identification: None, part_list: PartList { items }, parts }
}

fn attrs(fifths: Option<i8>, mode: Option<&str>, time: Option<(&str, &str)>) -> MusicData {
    MusicData::Attributes(Attributes {
        divisions: None,
        keys: match fifths {
            Some(f) => vec![Key { fifths: Some(f), mode: mode.map(|m| m.to_string()) }],
            None => vec![],
        },
        times: match time {
            Some((b, t)) => vec![Time { beats: Some(b.to_string()), beat_type: Some(t.to_string()) }],
            None => vec![],
        },
        staves: None,
        clefs: vec![],
        staff_details: vec![],
    })
}

fn tempo(t: i32) -> MusicData {
    MusicData::Direction(Direction { placement: None, direction_types: vec![], sound: Some(Sound { tempo: Some(t) }) })
}

fn repeat(direction: &str, times: Option<u8>) -> MusicData {
    MusicData::Barline(Barline {
        location: None,
        bar_style: None,
        repeat: Some(Repeat { direction: direction.to_string(), times }),
    })
}

fn measure(n: &str, data: Vec<MusicData>) -> Measure {
    Measure { number: n.to_string(), music_data: data }
}

#[test]
fn one_channel_per_part() {
    let midi = MidiInstrument {
        id: "P1-I1".to_string(),
        midi_channel: Some(10),
        midi_bank: Some(300),
        midi_program: Some(1),
        midi_unpitched: None,
        volume: Some(-5),
        pan: Some(100),
    };
    let d = doc(vec![part_item("P1", vec![midi]), part_item("P2", vec![])], vec![]);
    let chs = build_channels(&d);
    assert_eq!(chs.len(), 2);
    assert_eq!(chs[0], MidiChannel { channel: 9, instrument: 0, bank: 44, volume: 0, balance: 100 });
    assert_eq!(chs[1], MidiChannel { channel: 0, instrument: 0, bank: 0, volume: 104, balance: 64 });
    let empty = doc(vec![], vec![]);
    assert_eq!(build_channels(&empty), vec![MidiChannel { channel: 0, instrument: 0, bank: 0, volume: 104, balance: 64 }]);
}

#[test]
fn global_tempo_comes_from_the_first_measure() {
    let d = doc(
        vec![part_item("P1", vec![])],
        vec![Part { id: "P1".to_string(), measures: vec![measure("1", vec![attrs(None, None, None), tempo(96), tempo(50)])] }],
    );
    assert_eq!(extract_global_tempo(&d), Some(96));
    let loud = doc(
        vec![part_item("P1", vec![])],
        vec![Part { id: "P1".to_string(), measures: vec![measure("1", vec![MusicData::Sound(Sound { tempo: Some(40000) })])] }],
    );
    assert_eq!(extract_global_tempo(&loud), Some(32767));
    let none = doc(vec![part_item("P1", vec![])], vec![Part { id: "P1".to_string(), measures: vec![] }]);
    assert_eq!(extract_global_tempo(&none), None);
}

#[test]
fn headers_follow_the_first_part() {
    let d = doc(
        vec![part_item("P1", vec![])],
        vec![Part {
            id: "P1".to_string(),
            measures: vec![
                measure("1", vec![attrs(Some(-2), Some("minor"), Some(("3", "8"))), tempo(100), repeat("forward", None)]),
                measure("2", vec![tempo(72), repeat("backward", Some(3))]),
                measure("3", vec![attrs(None, None, Some(("x", "+2"))), repeat("backward", None)]),
                measure("4", vec![attrs(None, None, Some(("-3", "70000")))]),
            ],
        }],
    );
    let hs = build_measure_headers(&d);
    assert_eq!(hs.len(), 4);
    assert_eq!(hs[0].number, 1);
    assert_eq!((hs[0].start, hs[1].start, hs[2].start, hs[3].start), (960, 2400, 3840, 11520));
    assert_eq!(hs[0].tempo, 0);
    assert_eq!((hs[0].time_signature.numerator, hs[0].time_signature.denominator.value), (3, 8));
    assert_eq!(hs[0].time_signature.beams, vec![2, 2, 2, 2]);
    assert_eq!(hs[0].key_signature, KeySignature { key: -2, is_minor: true });
    assert!(hs[0].repeat_open);
    assert_eq!(hs[0].repeat_close, -1);
    assert_eq!(hs[1].tempo, 72);
    assert_eq!(hs[1].repeat_close, 3);
    assert_eq!((hs[1].time_signature.numerator, hs[1].time_signature.denominator.value), (3, 8));
    assert_eq!(hs[1].key_signature, KeySignature { key: -2, is_minor: true });
    assert_eq!((hs[2].time_signature.numerator, hs[2].time_signature.denominator.value), (4, 2));
    assert_eq!(hs[2].repeat_close, 1);
    assert_eq!(hs[2].tempo, 0);
    assert_eq!((hs[3].time_signature.numerator, hs[3].time_signature.denominator.value), (-3, 4));
    assert_eq!(build_measure_headers(&doc(vec![], vec![])).len(), 0);
}

use guitarpro::convert::song_from_xml::{build_voices, musicxml_to_legacy_song};
use guitarpro::model::legacy::BeatStatus;
use guitarpro::model::musicxml::{Backup, Forward, Note, NoteType, NoteTypeValue, PartName, Pitch, Rest};

fn xnote(voice: &str, duration: u32, chord: bool, pitch: Option<(&str, i8)>) -> MusicData {
    MusicData::Note(Note {
        pitch: pitch.map(|(step, octave)| Pitch { step: step.to_string(), alter: None, octave }),
        rest: if pitch.is_none() { Some(Rest { measure: None, display_step: None, display_octave: None }) } else { None },
        chord: if chord { Some(()) } else { None },
        grace: None,
        duration: Some(duration),
        ties: vec![],
        voice: Some(voice.to_string()),
        note_type: Some(NoteType { size: None, value: NoteTypeValue::Quarter }),
        dots: vec![],
        time_modification: None,
        notations: vec![],
    })
}

#[test]
fn voices_are_grouped_by_name_and_onset() {
    let m = measure(
        "1",
        vec![
            xnote("2", 480, false, Some(("E", 4))),
            xnote("2", 480, true, Some(("B", 3))),
            xnote("2", 480, false, None),
            MusicData::Backup(Backup { duration: 960 }),
            xnote("1", 960, false, Some(("G", 3))),
            MusicData::Forward(Forward { duration: 10 }),
        ],
    );
    let mut divisions = 480;
    let voices = build_voices(&m, &[(1, 64), (2, 59), (3, 55), (4, 50), (5, 45), (6, 40)], &mut divisions);
    assert_eq!(divisions, 480);
    assert_eq!(voices.len(), 2);
    // Voice "1" sorts first.
    assert_eq!(voices[0].beats.len(), 1);
    assert_eq!(voices[0].beats[0].notes.len(), 1);
    assert_eq!(voices[1].beats.len(), 2);
    assert_eq!(voices[1].beats[0].notes.len(), 2);
    assert_eq!(voices[1].beats[1].status, BeatStatus::Rest);
    let empty = measure("2", vec![]);
    let v = build_voices(&empty, &[], &mut divisions);
    assert_eq!(v.len(), 1);
    assert!(v[0].beats.is_empty());
}

#[test]
fn a_document_becomes_a_song() {
    let guitar = PartListItem::ScorePart(ScorePart {
        id: "P1".to_string(),
        part_name: Some(PartName { value: Some("Lead".to_string()) }),
        part_abbreviation: None,
        score_instruments: vec![],
        midi_instruments: vec![],
    });
    let d = doc(
        vec![guitar, part_item("P2", vec![])],
        vec![Part {
            id: "P1".to_string(),
            measures: vec![
                measure("1", vec![attrs(Some(1), None, Some(("4", "4"))), tempo(90), xnote("1", 960, false, Some(("E", 4)))]),
                measure("2", vec![xnote("1", 960, false, None)]),
            ],
        }],
    );
    let song = musicxml_to_legacy_song(&d);
    assert_eq!(song.tempo, 90);
    assert_eq!(song.tempo_name, "Moderate");
    assert_eq!(song.channels.len(), 2);
    assert_eq!(song.measure_headers.len(), 2);
    assert_eq!(song.measure_headers[1].key_signature, KeySignature { key: 1, is_minor: false });
    assert_eq!(song.tracks.len(), 2);
    assert_eq!(song.tracks[0].name, "Lead");
    assert_eq!(song.tracks[0].strings.len(), 6);
    assert_eq!(song.tracks[0].measures.len(), 2);
    assert_eq!(song.tracks[0].measures[0].voices[0].beats[0].notes.len(), 1);
    assert_eq!(song.tracks[0].measures[1].voices[0].beats[0].status, BeatStatus::Rest);
    // The second part has no measures of its own: it is padded.
    assert_eq!(song.tracks[1].name, "Track");
    assert_eq!((song.tracks[1].number, song.tracks[1].channel_index), (1, 1));
    assert_eq!(song.tracks[1].measures.len(), 2);
    assert_eq!(song.tracks[1].measures[1].header_index, 1);
    assert!(song.tracks[1].measures[1].voices[0].beats.is_empty());
}
