use guitarpro::cli::extract::{extract_tracks, select_tracks, ExtractArgs, SelectError};
use guitarpro::model::legacy::{Song, Track};

fn song_with(names: &[&str]) -> Song {
    let mut song = Song::default();
    for (i, n) in names.iter().enumerate() {
        song.tracks.push(Track {
            number: i as i32 + 1,
            name: n.to_string(),
            short_name: String::new(),
            channel_index: i,
            percussion_track: false, twelve_stringed_guitar_track: false, banjo_track: false, solo: false, mute: false, visible: true,
            strings: vec![],
            measures: vec![],
        });
    }
    song
}

fn args(tracks: Option<&str>, track_index: Option<&str>, invert: bool) -> ExtractArgs {
    ExtractArgs {
        input: "in.gp5".to_string(),
        output: "out.gp5".to_string(),
        tracks: tracks.map(|s| s.to_string()),
        track_index: track_index.map(|s| s.to_string()),
        invert,
        to: None,
        from: None,
    }
}

#[test]
fn extract_requires_a_selector() {
    let song = song_with(&["Guitar"]);
    assert_eq!(select_tracks(&args(None, None, false), &song), Err(SelectError::NoSelector));
}

#[test]
fn extract_selects_by_case_insensitive_name_pieces() {
    let song = song_with(&["Lead Guitar", "Bass", "Drums", "Rhythm GUITAR"]);
    let keep = select_tracks(&args(Some(" guitar , drum"), None, false), &song).unwrap();
    assert_eq!(keep, vec![true, false, true, true]);
}

#[test]
fn extract_selects_by_index_and_inverts() {
    let song = song_with(&["A", "B", "C"]);
    let keep = select_tracks(&args(None, Some("0, +2"), false), &song).unwrap();
    assert_eq!(keep, vec![true, false, true]);
    let inv = select_tracks(&args(None, Some("0,2"), true), &song).unwrap();
    assert_eq!(inv, vec![false, true, false]);
}

#[test]
fn extract_rejects_bad_index() {
    let song = song_with(&["A", "B"]);
    assert_eq!(
        select_tracks(&args(None, Some("1, x1"), false), &song),
        Err(SelectError::InvalidIndex("x1".to_string()))
    );
    assert_eq!(
        select_tracks(&args(None, Some("5,zz"), false), &song),
        Err(SelectError::IndexOutOfRange { index: 5, total: 2 })
    );
    assert_eq!(
        select_tracks(&args(None, Some(""), false), &song),
        Err(SelectError::InvalidIndex(String::new()))
    );
}

#[test]
fn extract_reports_empty_selection() {
    let song = song_with(&["A", "B"]);
    assert_eq!(
        select_tracks(&args(Some("piano"), None, false), &song),
        Err(SelectError::NothingSelected)
    );
    assert_eq!(
        select_tracks(&args(None, Some("0,1"), true), &song),
        Err(SelectError::NothingSelected)
    );
}

#[test]
fn extract_keeps_flagged_tracks_renumbered() {
    let mut song = song_with(&["A", "B", "C", "D"]);
    extract_tracks(&mut song, &vec![false, true, false, true]);
    let names: Vec<&str> = song.tracks.iter().map(|t| t.name.as_str()).collect();
    assert_eq!(names, vec!["B", "D"]);
    assert_eq!(song.tracks[0].number, 1);
    assert_eq!(song.tracks[1].number, 2);
    assert_eq!(song.tracks[1].channel_index, 3);
}
