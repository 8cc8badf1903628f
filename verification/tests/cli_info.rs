use guitarpro::cli::info::{midi_to_note, truncate};

#[test]
fn midi_note_names_use_scientific_octaves() {
    assert_eq!(midi_to_note(40), "E2");
    assert_eq!(midi_to_note(64), "E4");
    assert_eq!(midi_to_note(0), "C-1");
    assert_eq!(midi_to_note(11), "B-1");
    assert_eq!(midi_to_note(127), "G9");
    assert_eq!(midi_to_note(-128), "G#9");
}

#[test]
fn truncate_keeps_whole_characters() {
    assert_eq!(truncate("hello", 10), "hello");
    assert_eq!(truncate("hello", 3), "hel");
    assert_eq!(truncate("héllo", 2), "h");
    assert_eq!(truncate("héllo", 3), "hé");
    assert_eq!(truncate("abc", 0), "");
}

use guitarpro::cli::info::{
    channel_of, direction_label, format_label, key_name, max_voices, timeline_rows, track_flags, track_kind, TimelineRow,
};
use guitarpro::model::legacy::{Beat, BeatStatus, Measure, MeasureClef, MidiChannel, Song, Track, Voice};
use guitarpro::model::legacy::{DirectionSign, Duration, KeySignature, Marker, MeasureHeader, TimeSignature};

fn bar(number: u16, num: i8, den: u16, tempo: i32) -> MeasureHeader {
    MeasureHeader {
        number,
        start: 960,
        tempo,
        time_signature: TimeSignature { numerator: num, denominator: Duration { value: den, ..Duration::default() }, beams: vec![] },
        key_signature: KeySignature { key: 0, is_minor: false },
        repeat_open: false,
        repeat_close: -1,
        repeat_alternative: 0,
        direction: None,
        marker: None,
    }
}

fn keys(names: &[&str]) -> Vec<String> {
    names.iter().map(|s| s.to_string()).collect()
}

fn summary(r: &TimelineRow) -> (u16, Option<(i8, u16)>, Option<i32>, Option<String>) {
    (r.number, r.time, r.tempo, r.key.clone())
}

#[test]
fn timeline_lists_the_first_bar_and_changes() {
    let headers = vec![bar(1, 4, 4, 0), bar(2, 4, 4, 0), bar(3, 3, 4, 0), bar(4, 3, 4, 140), bar(5, 3, 4, 140), bar(6, 3, 4, 140)];
    let rows = timeline_rows(&headers, 96, &keys(&["C", "C", "C", "C", "C", "G"]));
    let got: Vec<_> = rows.iter().map(summary).collect();
    assert_eq!(
        got,
        vec![
            (1, Some((4, 4)), Some(96), Some("C".to_string())),
            (3, Some((3, 4)), None, None),
            (4, None, Some(140), None),
            (6, None, None, Some("G".to_string())),
        ]
    );
}

#[test]
fn timeline_shows_navigation_and_markers() {
    let mut a = bar(1, 4, 4, 120);
    a.repeat_open = true;
    let mut b = bar(2, 4, 4, 120);
    b.repeat_close = 1;
    b.repeat_alternative = 0b101;
    b.direction = Some(DirectionSign::DaCapoAlFine);
    let mut c = bar(3, 4, 4, 120);
    c.marker = Some(Marker { title: "Chorus".to_string() });
    let rows = timeline_rows(&[a, b, c], 120, &keys(&["C", "C", "C"]));
    assert_eq!(rows.len(), 3);
    assert_eq!(rows[0].navigation, vec!["|:".to_string()]);
    assert_eq!(rows[1].navigation, vec![":|x2".to_string(), "[1,3.]".to_string(), "D.C. al Fine".to_string()]);
    assert_eq!(rows[1].time, None);
    assert_eq!(rows[2].marker, "Chorus");
    assert!(rows[2].navigation.is_empty());
}

#[test]
fn timeline_tempo_zero_is_never_shown_as_a_change() {
    let rows = timeline_rows(&[bar(1, 4, 4, 0), bar(2, 4, 4, 0)], 0, &keys(&["C", "C"]));
    assert_eq!(rows.len(), 1);
    assert_eq!(rows[0].tempo, Some(0));
}

#[test]
fn info_direction_labels() {
    assert_eq!(direction_label(&DirectionSign::DaCapo), "D.C.");
    assert_eq!(direction_label(&DirectionSign::DaSegnoSegnoAlDoubleCoda), "D.S.S. al Double Coda");
    assert_eq!(direction_label(&DirectionSign::Coda), "Coda");
}

use guitarpro::cli::info::timeline_entries;

#[test]
fn json_timeline_lists_every_bar_with_what_is_in_force() {
    let mut headers = vec![bar(1, 4, 4, 0), bar(2, 4, 4, 0), bar(3, 3, 4, 140), bar(4, 3, 4, 0)];
    headers[1].repeat_open = true;
    headers[2].repeat_close = 2;
    headers[2].repeat_alternative = 0b11;
    headers[3].direction = Some(DirectionSign::DaCapo);
    headers[3].marker = Some(Marker { title: "Outro".to_string() });
    let entries = timeline_entries(&headers, 100, &keys(&["C", "C", "G", "G"]));
    let got: Vec<_> = entries.iter().map(|e| (e.number, e.time, e.tempo, e.key.clone())).collect();
    assert_eq!(
        got,
        vec![
            (1, (4, 4), 100, "C".to_string()),
            (2, (4, 4), 100, "C".to_string()),
            (3, (3, 4), 140, "G".to_string()),
            (4, (3, 4), 140, "G".to_string()),
        ]
    );
    assert_eq!(entries[1].navigation, vec!["repeat_open".to_string()]);
    assert_eq!(entries[2].navigation, vec!["repeat_close:3".to_string(), "volta:1,2".to_string()]);
    assert_eq!(entries[3].navigation, vec!["D.C.".to_string()]);
    assert_eq!(entries[3].marker.as_deref(), Some("Outro"));
    assert!(entries[0].marker.is_none());
}

#[test]
fn text_and_json_timelines_agree() {
    let headers = vec![bar(1, 4, 4, 0), bar(2, 6, 8, 90), bar(3, 6, 8, 0), bar(4, 6, 8, 90)];
    let names = keys(&["C", "C", "D", "D"]);
    let rows = timeline_rows(&headers, 120, &names);
    let entries = timeline_entries(&headers, 120, &names);
    for row in &rows {
        let e = &entries[(row.number - 1) as usize];
        if let Some(t) = row.time {
            assert_eq!(t, e.time);
        }
        if let Some(t) = row.tempo {
            assert_eq!(t, e.tempo);
        }
        if let Some(k) = &row.key {
            assert_eq!(k, &e.key);
        }
    }
}

fn info_track(kind: (bool, bool, bool), flags: (bool, bool, bool), voices: &[usize]) -> Track {
    let measures = voices
        .iter()
        .map(|&n| Measure {
            header_index: 0,
            voices: (0..3)
                .map(|i| Voice {
                    beats: if i < n {
                        vec![Beat { notes: vec![], duration: Duration::default(), status: BeatStatus::Normal, start: None }]
                    } else {
                        vec![]
                    },
                })
                .collect(),
            simile_mark: None,
            clef: MeasureClef::Treble,
        })
        .collect();
    Track {
        number: 1,
        name: "T".to_string(),
        short_name: String::new(),
        channel_index: 3,
        percussion_track: kind.0,
        twelve_stringed_guitar_track: kind.1,
        banjo_track: kind.2,
        solo: flags.0,
        mute: flags.1,
        visible: flags.2,
        strings: vec![],
        measures,
    }
}

#[test]
fn format_label_names_generation_and_version() {
    assert_eq!(format_label("GP5", (5, 10, 0)), "Guitar Pro 5 (GP5 v5.10.0)");
    assert_eq!(format_label("GP3", (3, 0, 0)), "Guitar Pro 3 (GP3 v3.0.0)");
    assert_eq!(format_label("GPX", (5, 1, 0)), "Guitar Pro 6 (GPX)");
    assert_eq!(format_label("GP", (0, 0, 0)), "Guitar Pro 7+ (GP)");
}

#[test]
fn track_kind_and_flags() {
    assert_eq!(track_kind(&info_track((true, true, true), (false, false, true), &[])), "Percussion");
    assert_eq!(track_kind(&info_track((false, true, true), (false, false, true), &[])), "12-string");
    assert_eq!(track_kind(&info_track((false, false, true), (false, false, true), &[])), "Banjo");
    assert_eq!(track_kind(&info_track((false, false, false), (false, false, true), &[])), "Stringed");
    assert_eq!(track_flags(&info_track((false, false, false), (true, true, false), &[])), "solo,mute,hidden");
    assert_eq!(track_flags(&info_track((false, false, false), (false, true, false), &[])), "mute,hidden");
    assert_eq!(track_flags(&info_track((false, false, false), (false, false, true), &[])), "");
}

#[test]
fn max_voices_counts_filled_voices() {
    assert_eq!(max_voices(&info_track((false, false, false), (false, false, true), &[1, 3, 2])), 3);
    assert_eq!(max_voices(&info_track((false, false, false), (false, false, true), &[0, 0])), 0);
    assert_eq!(max_voices(&info_track((false, false, false), (false, false, true), &[])), 0);
}

#[test]
fn channel_of_falls_back_to_channel_zero_program_25() {
    let track = info_track((false, false, false), (false, false, true), &[]);
    let mut song = Song::default();
    assert_eq!(channel_of(&song, &track), (0, 25));
    song.channels = (0..4).map(|i| MidiChannel { channel: i, instrument: 30 + i as i32, ..MidiChannel::default() }).collect();
    assert_eq!(channel_of(&song, &track), (3, 33));
}

#[test]
fn key_names_by_accidentals() {
    assert_eq!(key_name(&KeySignature { key: 0, is_minor: false }), "C major");
    assert_eq!(key_name(&KeySignature { key: 1, is_minor: true }), "E minor");
    assert_eq!(key_name(&KeySignature { key: -3, is_minor: false }), "Eb major");
    assert_eq!(key_name(&KeySignature { key: 9, is_minor: false }), "C# major");
    assert_eq!(key_name(&KeySignature { key: -8, is_minor: true }), "Ab minor");
}
