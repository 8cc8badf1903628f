use guitarpro::convert::musicxml::measure::build_measure;
use guitarpro::convert::musicxml::note::{build_voices, make_note};
use guitarpro::model::legacy::{
    Beat, BeatStatus, Duration, KeySignature, Measure, MeasureClef, MeasureHeader, Note, NoteType, Song, TimeSignature,
    Track, Voice,
};
use guitarpro::model::musicxml::{BarStyle, DirectionType, MusicData, NoteTypeValue};

fn track(strings: Vec<(i8, i8)>) -> Track {
    Track {
        number: 1,
        name: "Gtr".to_string(),
        short_name: String::new(),
        channel_index: 0,
        percussion_track: false, twelve_stringed_guitar_track: false, banjo_track: false, solo: false, mute: false, visible: true,
        strings,
        measures: vec![],
    }
}

fn header(number: u16) -> MeasureHeader {
    MeasureHeader {
        number,
        start: 960,
        tempo: 0,
        time_signature: TimeSignature { numerator: 3, denominator: Duration::default(), beams: vec![3] },
        key_signature: KeySignature { key: -2, is_minor: true },
        repeat_open: false,
        repeat_close: -1,
        repeat_alternative: 0,
        direction: None,
        marker: None,
    }
}

fn note(string: i8, value: i16, kind: NoteType) -> Note {
    Note { string, value, kind, ..Default::default() }
}

fn beat(notes: Vec<Note>, status: BeatStatus) -> Beat {
    Beat { notes, duration: Duration::default(), status, start: None }
}

fn standard() -> Vec<(i8, i8)> {
    vec![(1, 64), (2, 59), (3, 55), (4, 50), (5, 45), (6, 40)]
}

#[test]
fn make_note_places_the_fret_on_its_string() {
    let n = make_note(&note(2, 1, NoteType::Tie), &standard(), 960, NoteTypeValue::Quarter, &Duration::default(), "1", true);
    let p = n.pitch.unwrap();
    assert_eq!((p.step.as_str(), p.alter, p.octave), ("C", None, 4));
    assert!(n.rest.is_none());
    assert_eq!(n.ties.len(), 1);
    assert_eq!(n.ties[0].tie_type, "stop");
    assert!(n.chord.is_some());
    assert_eq!(n.voice.as_deref(), Some("1"));
    assert_eq!(n.notations.len(), 1);

    let off = make_note(&note(9, 61, NoteType::Normal), &standard(), 960, NoteTypeValue::Quarter, &Duration::default(), "2", false);
    let q = off.pitch.unwrap();
    assert_eq!((q.step.as_str(), q.alter, q.octave), ("C", Some(1), 4));
    assert!(off.chord.is_none());
    assert!(off.ties.is_empty());

    let rest = make_note(&note(1, 0, NoteType::Rest), &standard(), 960, NoteTypeValue::Quarter, &Duration::default(), "1", false);
    assert!(rest.pitch.is_none() && rest.rest.is_some());

    let high = make_note(&note(1, 100, NoteType::Normal), &standard(), 960, NoteTypeValue::Quarter, &Duration::default(), "1", false);
    assert_eq!(high.pitch.unwrap().octave, 9);
}

#[test]
fn voices_after_the_first_start_with_a_backup() {
    let m = Measure {
        header_index: 0,
        voices: vec![
            Voice { beats: vec![beat(vec![note(1, 0, NoteType::Normal), note(2, 1, NoteType::Normal)], BeatStatus::Normal), beat(vec![], BeatStatus::Rest)] },
            Voice { beats: vec![beat(vec![], BeatStatus::Empty)] },
            Voice { beats: vec![beat(vec![note(6, 3, NoteType::Normal)], BeatStatus::Normal)] },
        ],
        simile_mark: None,
        clef: MeasureClef::Treble,
    };
    let data = build_voices(&m, &track(standard()));
    assert_eq!(data.len(), 5);
    match &data[0] {
        MusicData::Note(n) => assert!(n.chord.is_none() && n.voice.as_deref() == Some("1")),
        _ => panic!("expected a note"),
    }
    match &data[1] {
        MusicData::Note(n) => assert!(n.chord.is_some()),
        _ => panic!("expected a chord note"),
    }
    match &data[2] {
        MusicData::Note(n) => assert!(n.rest.is_some()),
        _ => panic!("expected a rest"),
    }
    match &data[3] {
        MusicData::Backup(b) => assert_eq!(b.duration, 1920),
        _ => panic!("expected a backup"),
    }
    match &data[4] {
        MusicData::Note(n) => assert_eq!(n.voice.as_deref(), Some("3")),
        _ => panic!("expected a note of voice 3"),
    }
}

#[test]
fn first_measure_carries_attributes_and_tempo() {
    let song = Song::default();
    let t = track(standard());
    let m = Measure { header_index: 0, voices: vec![Voice { beats: vec![beat(vec![], BeatStatus::Rest)] }], simile_mark: None, clef: MeasureClef::Bass };
    let mut h = header(1);
    h.repeat_open = true;
    h.repeat_close = 2;
    let out = build_measure(&song, &t, 0, &m, &h, 0);
    assert_eq!(out.number, "1");
    assert_eq!(out.music_data.len(), 5);
    match &out.music_data[0] {
        MusicData::Barline(b) => {
            assert_eq!(b.location.as_deref(), Some("left"));
            assert_eq!(b.bar_style, Some(BarStyle::HeavyLight));
            assert_eq!(b.repeat.as_ref().unwrap().direction, "forward");
        }
        _ => panic!("expected the opening barline"),
    }
    match &out.music_data[1] {
        MusicData::Attributes(a) => {
            assert_eq!(a.divisions, Some(960));
            assert_eq!(a.keys[0].fifths, Some(-2));
            assert_eq!(a.keys[0].mode.as_deref(), Some("minor"));
            assert_eq!(a.times[0].beats.as_deref(), Some("3"));
            assert_eq!(a.times[0].beat_type.as_deref(), Some("4"));
            assert_eq!((a.clefs[0].sign.as_str(), a.clefs[0].line), ("F", Some(4)));
            assert_eq!((a.clefs[1].sign.as_str(), a.clefs[1].number), ("TAB", Some(2)));
            let d = &a.staff_details[0];
            assert_eq!(d.staff_lines, Some(6));
            assert_eq!(d.staff_tunings.len(), 6);
            assert_eq!((d.staff_tunings[0].line, d.staff_tunings[0].tuning_step.as_str(), d.staff_tunings[0].tuning_octave), (1, "E", 2));
            assert_eq!((d.staff_tunings[5].line, d.staff_tunings[5].tuning_step.as_str(), d.staff_tunings[5].tuning_octave), (6, "E", 4));
        }
        _ => panic!("expected the attributes"),
    }
    match &out.music_data[2] {
        MusicData::Direction(d) => {
            assert_eq!(d.sound.unwrap().tempo, Some(120));
            match &d.direction_types[0] {
                DirectionType::Metronome(m) => assert_eq!(m.per_minute.as_ref().unwrap().value, "120"),
            }
        }
        _ => panic!("expected the tempo"),
    }
    match &out.music_data[3] {
        MusicData::Barline(b) => {
            assert_eq!(b.location.as_deref(), Some("right"));
            assert_eq!(b.repeat.as_ref().unwrap().times, Some(2));
        }
        _ => panic!("expected the closing barline"),
    }
    assert!(matches!(out.music_data[4], MusicData::Note(_)));
}

#[test]
fn later_measures_hold_only_their_notes() {
    let mut song = Song::default();
    song.tempo = 90;
    let t = track(standard());
    let m = Measure { header_index: 0, voices: vec![Voice { beats: vec![beat(vec![], BeatStatus::Empty)] }], simile_mark: None, clef: MeasureClef::Treble };
    let out = build_measure(&song, &t, 1, &m, &header(12), 3);
    assert_eq!(out.number, "12");
    assert!(out.music_data.is_empty());
    let mut h = header(1);
    h.tempo = 75;
    let second_track = build_measure(&song, &t, 1, &m, &h, 0);
    assert_eq!(second_track.music_data.len(), 1);
    let first_track = build_measure(&song, &t, 0, &m, &h, 0);
    match &first_track.music_data[1] {
        MusicData::Direction(d) => assert_eq!(d.sound.unwrap().tempo, Some(75)),
        _ => panic!("expected the tempo"),
    }
    let slow = build_measure(&song, &t, 0, &m, &header(1), 0);
    match &slow.music_data[1] {
        MusicData::Direction(d) => assert_eq!(d.sound.unwrap().tempo, Some(90)),
        _ => panic!("expected the tempo"),
    }
}
