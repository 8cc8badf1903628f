use guitarpro::convert::musicxml::metadata::{build_identification, build_part_list};
use guitarpro::model::legacy::{MidiChannel, Song, Track};
use guitarpro::model::musicxml::PartListItem;

fn empty_song() -> Song {
    Song::default()
}

#[test]
fn identification_empty_song_has_no_creators() {
    let song = empty_song();
    let ident = build_identification(&song);
    assert!(ident.creators.is_empty());
}

#[test]
fn identification_empty_song_has_no_rights() {
    let song = empty_song();
    let ident = build_identification(&song);
    assert!(ident.rights.is_empty());
}

#[test]
fn identification_empty_song_has_no_miscellaneous() {
    let song = empty_song();
    let ident = build_identification(&song);
    assert!(ident.miscellaneous.is_none());
}

#[test]
fn identification_artist_becomes_composer_creator() {
    let mut song = empty_song();
    song.artist = "Jimi Hendrix".to_string();
    let ident = build_identification(&song);
    assert_eq!(ident.creators.len(), 1);
    assert_eq!(ident.creators[0].creator_type.as_deref(), Some("composer"));
    assert_eq!(ident.creators[0].value, "Jimi Hendrix");
}

#[test]
fn identification_copyright_becomes_rights() {
    let mut song = empty_song();
    song.copyright = "© 1970".to_string();
    let ident = build_identification(&song);
    assert_eq!(ident.rights.len(), 1);
    assert_eq!(ident.rights[0].value, "© 1970");
}

#[test]
fn identification_encoding_software_present() {
    let song = empty_song();
    let ident = build_identification(&song);
    let enc = ident.encoding.unwrap();
    assert!(enc.software.iter().any(|s| s.contains("guitarpro")));
}

#[test]
fn identification_subtitle_stored_in_miscellaneous() {
    let mut song = empty_song();
    song.subtitle = "Subtitle".to_string();
    let ident = build_identification(&song);
    let misc = ident.miscellaneous.unwrap();
    assert!(misc.fields.iter().any(|f| f.name == "subtitle"));
}

#[test]
fn part_list_empty_tracks_produces_empty_items() {
    let song = empty_song();
    let list = build_part_list(&song);
    assert!(list.items.is_empty());
}

// Words equal to the author are not repeated as lyricist; notices are numbered from 1.
#[test]
fn identification_creators_and_notices() {
    let mut song = empty_song();
    song.author = "Ann".to_string();
    song.words = "Ann".to_string();
    song.writer = "Tab Man".to_string();
    song.notice = vec!["first".to_string(), "second".to_string()];
    let ident = build_identification(&song);
    let kinds: Vec<&str> = ident.creators.iter().map(|c| c.creator_type.as_deref().unwrap()).collect();
    assert_eq!(kinds, vec!["arranger", "transcriber"]);
    let names: Vec<&str> = ident.miscellaneous.as_ref().unwrap().fields.iter().map(|f| f.name.as_str()).collect();
    assert_eq!(names, vec!["notice-1", "notice-2"]);
}

// Parts are numbered from 1 and play on their track's channel, 1-based.
#[test]
fn part_list_numbers_parts_and_channels() {
    let mut song = empty_song();
    song.channels = vec![MidiChannel { channel: 9, instrument: 24, bank: 0, volume: 100, balance: 64 }];
    song.tracks = vec![
        Track { number: 1, name: "Guitar".to_string(), short_name: "Gtr".to_string(), channel_index: 0, percussion_track: false, twelve_stringed_guitar_track: false, banjo_track: false, solo: false, mute: false, visible: true, strings: vec![], measures: vec![] },
        Track { number: 2, name: "Drums".to_string(), short_name: String::new(), channel_index: 7, percussion_track: true, twelve_stringed_guitar_track: false, banjo_track: false, solo: false, mute: false, visible: true, strings: vec![], measures: vec![] },
    ];
    let list = build_part_list(&song);
    assert_eq!(list.items.len(), 2);
    let PartListItem::ScorePart(first) = &list.items[0];
    assert_eq!(first.id, "P1");
    assert_eq!(first.score_instruments[0].id, "P1-I1");
    assert_eq!(first.midi_instruments[0].midi_channel, Some(10));
    assert_eq!(first.midi_instruments[0].midi_program, Some(25));
    assert_eq!(first.part_abbreviation.as_ref().unwrap().value.as_deref(), Some("Gtr"));
    let PartListItem::ScorePart(second) = &list.items[1];
    assert_eq!(second.id, "P2");
    assert_eq!(second.midi_instruments[0].midi_program, None);
    assert_eq!(second.midi_instruments[0].midi_unpitched, Some(60));
    assert_eq!(second.midi_instruments[0].midi_channel, Some(1));
    assert!(second.part_abbreviation.is_none());
}
