use guitarpro::convert::musicxml::score::song_to_score_partwise;
use guitarpro::model::legacy::MidiChannel;
use guitarpro::convert::optimized::song::legacy_song_to_loaded_score;
use guitarpro::convert::to_legacy::loaded_score_to_legacy_song;
use guitarpro::convert::optimized::song::build_note;
use guitarpro::convert::to_legacy::build_legacy_note;
use guitarpro::model::legacy::{
    BendEffect, BendPoint, HarmonicType, Lyrics, NoteEffect, SlideType, TripletFeel,
};
use guitarpro::model::legacy::{
    Beat, BeatStatus, DirectionSign, Duration, KeySignature, Measure, MeasureClef, MeasureHeader, Note, NoteType,
    Song, TimeSignature, Track, Voice,
};
use guitarpro::model::{Clef, InstrumentKind, Mode, NoteValue, Pitch, PitchStep, StaffDisplay, TieType};

fn header(number: u16, num: i8, tempo: i32, key: i8, direction: Option<DirectionSign>) -> MeasureHeader {
    MeasureHeader {
        number,
        start: 960,
        tempo,
        time_signature: TimeSignature { numerator: num, denominator: Duration::default(), beams: vec![] },
        key_signature: KeySignature { key, is_minor: false },
        repeat_open: false,
        repeat_close: -1,
        repeat_alternative: 0,
        direction,
        marker: None,
    }
}

fn note(string: i8, value: i16, kind: NoteType) -> Note {
    Note { string, value, kind, ..Default::default() }
}

fn sample_song() -> Song {
    let mut song = Song::default();
    song.name = "Title".to_string();
    song.artist = "Artist".to_string();
    song.subtitle = "Sub".to_string();
    song.words = "Words".to_string();
    song.writer = "Writer".to_string();
    song.comments = "Some comments".to_string();
    song.notice = vec!["first".to_string(), "second".to_string()];
    song.version = (5, 1, 0);
    song.tempo = 90;
    song.measure_headers = vec![
        header(1, 4, 0, 0, None),
        header(2, 4, 0, 0, Some(DirectionSign::Fine)),
        header(3, 3, 100, 1, None),
    ];
    let beat = Beat {
        notes: vec![note(1, 3, NoteType::Normal), note(2, 5, NoteType::Tie)],
        duration: Duration::default(),
        status: BeatStatus::Normal,
        start: Some(960 + 480),
    };
    let measure = Measure { header_index: 0, voices: vec![Voice { beats: vec![beat] }], simile_mark: Some("Simple".to_string()), clef: MeasureClef::Treble };
    song.tracks = vec![Track {
        number: 1,
        name: "Guitar".to_string(),
        short_name: "Gtr".to_string(),
        channel_index: 0,
        percussion_track: false,
        twelve_stringed_guitar_track: false,
        banjo_track: true,
        solo: true,
        mute: false,
        visible: false,
        strings: vec![(1, 64), (2, 59)],
        measures: vec![measure],
    }];
    song
}

#[test]
fn legacy_song_converts_to_optimized_score() {
    let song = sample_song();
    let loaded = legacy_song_to_loaded_score(&song);
    let md = &loaded.score.metadata;
    assert_eq!(md.title, "Title");
    assert_eq!(md.artist, Some("Artist".to_string()));
    assert_eq!(md.album, None);
    assert_eq!(md.master_tempo, 90);
    assert_eq!(md.time_signature.numerator, 4);
    let misc = &md.identification.as_ref().unwrap().miscellaneous;
    let has = |k: &str, v: &str| misc.iter().any(|(a, b)| a == k && b == v);
    assert!(has("gp.subtitle", "Sub"));
    assert!(has("gp.notice.0", "first"));
    assert!(has("gp.notice.1", "second"));
    assert!(has("gp.version", "5.1.0"));
    assert!(has("gp.direction.1", "Fine"));
    assert!(has("gp.track.0.short_name", "Gtr"));
    assert!(has("gp.track.0.banjo", "true"));
    assert!(has("gp.track.0.visible", "false"));
    assert!(!misc.iter().any(|(a, _)| a == "gp.album"));

    let tl = &loaded.score.timeline;
    assert_eq!(tl.len(), 3);
    assert_eq!(tl[0].tempo, Some(90));
    assert_eq!(tl[1].tempo, None);
    assert_eq!(tl[2].tempo, Some(100));
    assert!(tl[0].time_signature.is_some());
    assert!(tl[1].time_signature.is_none());
    assert_eq!(tl[2].time_signature.map(|t| t.numerator), Some(3));
    assert!(tl[1].key_signature.is_none());
    let g = tl[2].key_signature.unwrap();
    assert_eq!((g.root.step, g.mode), (PitchStep::G, Mode::Major));

    let track = &loaded.score.tracks[0];
    assert_eq!(track.name, "Guitar");
    assert_eq!(track.measures.len(), 1);
    assert_eq!(track.measures[0].gp_simile_mark, Some("Simple".to_string()));
    let beat = &track.measures[0].voices[0].beats[0];
    assert_eq!(beat.tick_offset, 480);
    assert_eq!(beat.duration.base, NoteValue::Quarter);
    // Fret 3 on the E4 string sounds G4.
    assert_eq!(beat.notes[0].pitch, Some(Pitch { step: PitchStep::G, alter: 0, octave: 4 }));
    assert_eq!((beat.notes[0].string, beat.notes[0].fret), (Some(1), Some(3)));
    // A tie note has no new pitch and ends a tie.
    assert_eq!(beat.notes[1].pitch, None);
    assert_eq!(beat.notes[1].tie, Some(TieType::End));
}

#[test]
fn legacy_round_trip_keeps_metadata_and_tracks() {
    let song = sample_song();
    let back = loaded_score_to_legacy_song(&legacy_song_to_loaded_score(&song));
    assert_eq!(back.name, "Title");
    assert_eq!(back.artist, "Artist");
    assert_eq!(back.album, "");
    assert_eq!(back.subtitle, "Sub");
    assert_eq!(back.words, "Words");
    assert_eq!(back.writer, "Writer");
    assert_eq!(back.comments, "Some comments");
    assert_eq!(back.notice, vec!["first".to_string(), "second".to_string()]);
    assert_eq!(back.version, (5, 1, 0));
    assert_eq!(back.tempo, 90);
    assert_eq!(back.measure_headers.len(), 3);
    assert_eq!(back.measure_headers[1].direction, Some(DirectionSign::Fine));
    assert_eq!((back.measure_headers[0].start, back.measure_headers[1].start, back.measure_headers[2].start), (960, 4800, 8640));
    assert_eq!(back.measure_headers[2].tempo, 100);
    assert_eq!(back.measure_headers[2].time_signature.numerator, 3);
    assert_eq!(back.measure_headers[2].key_signature, KeySignature { key: 1, is_minor: false });
    assert_eq!(back.channels.len(), 64);
    assert_eq!(back.tracks.len(), 1);
    let t = &back.tracks[0];
    assert_eq!(t.name, "Guitar");
    assert!(t.banjo_track && t.solo && !t.visible && !t.mute);
    assert_eq!(t.measures.len(), 3);
    let beat = &t.measures[0].voices[0].beats[0];
    assert_eq!(beat.start, Some(960 + 480));
    assert_eq!((beat.notes[0].string, beat.notes[0].value, beat.notes[0].kind), (1, 3, NoteType::Normal));
    assert_eq!((beat.notes[1].string, beat.notes[1].value, beat.notes[1].kind), (2, 5, NoteType::Tie));
    // Measures the track lacks come back with two empty voices.
    assert_eq!(t.measures[2].voices.len(), 2);
    assert!(t.measures[2].voices[0].beats.is_empty());
}

#[test]
fn song_becomes_a_score_partwise_document() {
    let mut song = sample_song();
    song.tracks[0].measures[0].simile_mark = None;
    song.channels = vec![MidiChannel::default()];
    let doc = song_to_score_partwise(&song);
    assert_eq!(doc.work.as_ref().unwrap().work_title, Some("Title".to_string()));
    assert!(doc.movement_title.is_none());
    assert!(doc.identification.is_some());
    assert_eq!(doc.part_list.items.len(), 1);
    assert_eq!(doc.parts.len(), 1);
    assert_eq!(doc.parts[0].id, "P1");
    assert_eq!(doc.parts[0].measures.len(), 1);
    assert_eq!(doc.parts[0].measures[0].number, "1");
    song.name = String::new();
    assert_eq!(song_to_score_partwise(&song).work.unwrap().work_title, None);
}

#[test]
fn note_effects_survive_round_trip() {
    let effect = NoteEffect {
        hammer: true,
        bend: Some(BendEffect { points: vec![BendPoint { position: 0, value: 0, vibrato: false }, BendPoint { position: 6, value: 100, vibrato: true }] }),
        let_ring: true,
        palm_mute: false,
        harmonic: Some(HarmonicType::Pinch),
        slides: vec![SlideType::ShiftSlideTo, SlideType::NoSlide, SlideType::OutDownwards],
        vibrato: true,
        staccato: true,
        accentuated_note: false,
        heavy_accentuated_note: true,
        ghost_note: true,
    };
    let n = Note { value: 7, string: 2, kind: NoteType::Dead, effect, velocity: 111, swap_accidentals: true };
    let strings = vec![(1i8, 64i8), (2i8, 59i8)];
    let opt = build_note(&n, &strings);
    let back = build_legacy_note(&opt, 111);
    assert_eq!(back.kind, NoteType::Dead);
    assert_eq!((back.string, back.value), (2, 7));
    assert_eq!(back.velocity, 111);
    assert!(back.swap_accidentals);
    let e = &back.effect;
    assert!(e.hammer && e.let_ring && e.vibrato && !e.palm_mute);
    assert!(e.staccato && !e.accentuated_note && e.heavy_accentuated_note && e.ghost_note);
    assert_eq!(e.slides, vec![SlideType::ShiftSlideTo, SlideType::OutDownwards]);
    assert_eq!(e.harmonic, Some(HarmonicType::Pinch));
    let points = &e.bend.as_ref().unwrap().points;
    assert_eq!(points.len(), 2);
    assert_eq!((points[1].position, points[1].value, points[1].vibrato), (6, 100, true));
}

#[test]
fn plain_note_comes_back_without_effects() {
    let n = note(3, 0, NoteType::Normal);
    let back = build_legacy_note(&build_note(&n, &[(3, 55)]), 95);
    assert_eq!((back.string, back.value, back.kind, back.velocity), (3, 0, NoteType::Normal, 95));
    assert!(back.effect.slides.is_empty() && back.effect.bend.is_none() && back.effect.harmonic.is_none());
    assert!(!back.effect.staccato && !back.effect.hammer && !back.effect.ghost_note);
}

#[test]
fn song_wide_fields_survive_round_trip() {
    let mut song = sample_song();
    song.tempo_name = "Allegro".to_string();
    song.hide_tempo = true;
    song.triplet_feel = TripletFeel::Sixteenth;
    song.lyrics = Lyrics {
        track_choice: 1,
        lines: vec![(0, 1, "la la".to_string()), (1, 3, String::new()), (2, 0, String::new()), (3, 0, String::new()), (4, 2, "end".to_string())],
    };
    let loaded = legacy_song_to_loaded_score(&song);
    let misc = &loaded.score.metadata.identification.as_ref().unwrap().miscellaneous;
    let has = |k: &str, v: &str| misc.iter().any(|(a, b)| a == k && b == v);
    assert!(has("gp.tempo_name", "Allegro"));
    assert!(has("gp.hide_tempo", "true"));
    assert!(has("gp.triplet_feel", "2"));
    assert!(has("gp.lyrics.track_choice", "1"));
    assert!(has("gp.lyrics.0.text", "la la"));
    assert!(!misc.iter().any(|(a, _)| a == "gp.lyrics.1.text"));
    let back = loaded_score_to_legacy_song(&loaded);
    assert_eq!(back.tempo_name, "Allegro");
    assert!(back.hide_tempo);
    assert_eq!(back.triplet_feel, TripletFeel::Sixteenth);
    assert_eq!(back.lyrics.track_choice, 1);
    assert_eq!(back.lyrics.lines.len(), 5);
    assert_eq!(back.lyrics.lines[0], (0, 1, "la la".to_string()));
    assert_eq!(back.lyrics.lines[1], (1, 3, String::new()));
    assert_eq!(back.lyrics.lines[4], (4, 2, "end".to_string()));
}

#[test]
fn missing_song_fields_take_their_defaults() {
    let mut song = sample_song();
    song.tempo_name = "Fast".to_string();
    let mut loaded = legacy_song_to_loaded_score(&song);
    let ident = loaded.score.metadata.identification.as_mut().unwrap();
    ident.miscellaneous.retain(|(k, _)| !k.starts_with("gp.tempo_name") && !k.starts_with("gp.lyrics"));
    ident.miscellaneous.push(("gp.triplet_feel".to_string(), "-0".to_string()));
    let back = loaded_score_to_legacy_song(&loaded);
    assert_eq!(back.tempo_name, "Moderate");
    assert_eq!(back.triplet_feel, TripletFeel::Straight);
    assert_eq!(back.lyrics.track_choice, 0);
    assert_eq!(back.lyrics.lines.len(), 5);
    assert_eq!(back.lyrics.lines[3], (3, 0, String::new()));
}

#[test]
fn tracks_get_instruments_and_staves() {
    let mut song = sample_song();
    song.channels = vec![MidiChannel { channel: 0, instrument: 25, bank: 0, volume: 100, balance: 64 }, MidiChannel { channel: 9, instrument: 0, bank: 0, volume: 90, balance: 64 }];
    let mut drums = Track {
        number: 2,
        name: "Drums".to_string(),
        short_name: String::new(),
        channel_index: 1,
        percussion_track: true,
        twelve_stringed_guitar_track: false,
        banjo_track: false,
        solo: false,
        mute: false,
        visible: true,
        strings: vec![],
        measures: vec![],
    };
    drums.strings.clear();
    song.tracks.push(drums);
    let loaded = legacy_song_to_loaded_score(&song);
    let sc = &loaded.score;
    assert_eq!(sc.instruments.len(), 2);
    assert_eq!(sc.instruments[0].gp_strings, vec![64, 59]);
    assert_eq!(sc.instruments[0].midi_program, 25);
    match &sc.instruments[0].kind {
        InstrumentKind::Stringed { tuning, string_count, capo } => {
            assert_eq!(*string_count, 2);
            assert_eq!(*capo, 0);
            assert_eq!(tuning[0], Pitch { step: PitchStep::E, alter: 0, octave: 4 });
        }
        _ => panic!("the guitar is a stringed instrument"),
    }
    assert!(matches!(sc.instruments[1].kind, InstrumentKind::Percussion));
    assert_eq!(sc.instruments[1].midi_channel, 9);
    assert_eq!(sc.staves.len(), 3);
    assert_eq!((sc.staves[0].clef, sc.staves[0].display), (Clef::Treble, StaffDisplay::Notation));
    assert_eq!((sc.staves[1].clef, sc.staves[1].display), (Clef::Tab, StaffDisplay::Tab));
    assert_eq!(sc.staves[2].clef, Clef::Percussion);
    assert_eq!(sc.tracks[0].staves, vec![0, 1]);
    assert_eq!((sc.tracks[1].instrument, sc.tracks[1].staves.clone()), (1, vec![2]));

    let back = loaded_score_to_legacy_song(&loaded);
    assert_eq!(back.tracks[0].strings, vec![(1, 64), (2, 59)]);
    assert!(!back.tracks[0].percussion_track);
    assert_eq!(back.tracks[0].channel_index, 0);
    assert!(back.tracks[1].percussion_track);
    assert_eq!(back.tracks[1].channel_index, 9);
    assert!(back.tracks[1].strings.is_empty());
    assert_eq!(back.channels.len(), 64);
    assert_eq!((back.channels[0].channel, back.channels[0].instrument), (0, 25));
    assert_eq!((back.channels[9].channel, back.channels[9].instrument), (9, 0));
    assert_eq!((back.channels[5].instrument, back.channels[5].volume), (25, 95));
}
