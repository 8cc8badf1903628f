use guitarpro::cli::duplicates::{fingerprint_song, fnv1a, song_content};
use guitarpro::cli::sounding::{section_pitch_classes, section_pitches};
use guitarpro::model::legacy::{Beat, BeatStatus, Duration, Measure, MeasureClef, Note, NoteType, Song, Track, Voice};

fn note(string: i8, value: i16, kind: NoteType) -> Note {
    Note { string, value, kind, ..Default::default() }
}

fn measure(beats: Vec<Vec<Note>>) -> Measure {
    Measure { header_index: 0, voices: vec![Voice { beats: beats.into_iter().map(|notes| Beat { notes, duration: Duration::default(), status: BeatStatus::Normal, start: None }).collect() }], simile_mark: None, clef: MeasureClef::Treble }
}

fn guitar(measures: Vec<Measure>) -> Track {
    Track {
        number: 1,
        name: "Guitar".to_string(),
        short_name: String::new(),
        channel_index: 0,
        percussion_track: false, twelve_stringed_guitar_track: false, banjo_track: false, solo: false, mute: false, visible: true,
        strings: vec![(1, 64), (2, 59), (3, 55), (4, 50), (5, 45), (6, 40)],
        measures,
    }
}

#[test]
fn section_pitches_use_string_tunings_and_skip_rests_and_ties() {
    let t = guitar(vec![
        measure(vec![vec![note(1, 0, NoteType::Normal), note(6, 3, NoteType::Normal)]]),
        measure(vec![vec![note(2, 1, NoteType::Rest), note(3, 2, NoteType::Tie), note(9, 7, NoteType::Dead)]]),
    ]);
    assert_eq!(section_pitches(&t, 0, 2), vec![64, 43, 7]);
    assert_eq!(section_pitches(&t, 1, 10), vec![7]);
    assert_eq!(section_pitches(&t, 2, 1), Vec::<i16>::new());
    let (pc, n) = section_pitch_classes(&t, 0, 2);
    assert_eq!(n, 3);
    assert_eq!(pc[4], 1); // E4
    assert_eq!(pc[7], 2); // G2, and fret 7 on an unknown string
}

#[test]
fn song_content_is_sorted_per_beat_with_marks() {
    let mut song = Song::default();
    song.name = "  My Song ".to_string();
    song.artist = "Band".to_string();
    song.tracks.push(guitar(vec![measure(vec![vec![note(1, 0, NoteType::Normal), note(6, 0, NoteType::Normal)]])]));
    let bytes = song_content(&song);
    assert_eq!(bytes, vec![40, 64, 0xFE, 0xFD, 0xFC]);
    let fp = fingerprint_song(&song);
    assert_eq!(fp.content_hash, fnv1a(&bytes));
    assert_eq!(fp.note_hist[40], 1);
    assert_eq!(fp.note_hist[64], 1);
    assert_eq!(fp.note_hist.iter().sum::<u64>(), 2);
    assert_eq!(fp.title_norm, "my song");
    assert_eq!(fp.artist_norm, "band");
}

#[test]
fn chord_order_does_not_change_the_content() {
    let mut a = Song::default();
    a.tracks.push(guitar(vec![measure(vec![vec![note(1, 0, NoteType::Normal), note(6, 0, NoteType::Normal)]])]));
    let mut b = Song::default();
    b.tracks.push(guitar(vec![measure(vec![vec![note(6, 0, NoteType::Normal), note(1, 0, NoteType::Normal)]])]));
    assert_eq!(fingerprint_song(&a).content_hash, fingerprint_song(&b).content_hash);
}
