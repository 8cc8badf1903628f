use guitarpro::cli::simile::{collect_simile_runs, expand_simile_marks, track_simile_runs};
use guitarpro::model::legacy::{Beat, BeatStatus, Duration, Measure, MeasureClef, Song, Track, Voice};

fn track(name: &str, marks: &[Option<&str>]) -> Track {
    Track {
        number: 1,
        name: name.to_string(),
        short_name: String::new(),
        channel_index: 0,
        percussion_track: false, twelve_stringed_guitar_track: false, banjo_track: false, solo: false, mute: false, visible: true,
        strings: vec![],
        measures: marks.iter().map(|m| Measure { header_index: 0, voices: vec![], simile_mark: m.map(|s| s.to_string()), clef: MeasureClef::Treble }).collect(),
    }
}

fn runs(t: &Track) -> Vec<(usize, usize, usize, String)> {
    track_simile_runs(t).into_iter().map(|r| (r.run_start, r.run_len, r.source_start, r.kind)).collect()
}

#[test]
fn simple_runs_repeat_the_previous_bars() {
    let t = track("Gtr", &[None, Some("Simple"), Some("Simple"), None]);
    assert_eq!(runs(&t), vec![(1, 2, 0, "1-bar (Simple)".to_string())]);
}

#[test]
fn double_runs_round_to_pairs() {
    let t = track("Gtr", &[None, None, None, Some("FirstOfDouble"), Some("SecondOfDouble"), Some("FirstOfDouble")]);
    assert_eq!(runs(&t), vec![(3, 3, 1, "2-bar (Double)".to_string())]);
}

#[test]
fn unknown_marks_are_runs_of_their_own() {
    let t = track("Gtr", &[Some("Weird"), Some("Simple"), Some("Odd")]);
    assert_eq!(
        runs(&t),
        vec![
            (0, 1, 0, "unknown (Weird)".to_string()),
            (1, 1, 0, "1-bar (Simple)".to_string()),
            (2, 1, 1, "unknown (Odd)".to_string()),
        ]
    );
}

#[test]
fn simile_runs_filter_tracks_by_name() {
    let mut song = Song::default();
    song.tracks.push(track("Lead Guitar", &[None, Some("Simple")]));
    song.tracks.push(track("Bass", &[None, Some("Simple")]));
    let all = collect_simile_runs(&song, None);
    assert_eq!(all.len(), 2);
    let bass = collect_simile_runs(&song, Some("BASS"));
    assert_eq!(bass.len(), 1);
    assert_eq!(bass[0].track_name, "Bass");
}

fn bar(beats: usize, mark: Option<&str>) -> Measure {
    let voice = Voice { beats: (0..beats).map(|_| Beat { notes: vec![], duration: Duration::default(), status: BeatStatus::Normal, start: None }).collect() };
    Measure { header_index: 0, voices: vec![voice], simile_mark: mark.map(|s| s.to_string()), clef: MeasureClef::Treble }
}

fn shape(t: &Track) -> Vec<(usize, bool)> {
    t.measures.iter().map(|m| (m.voices[0].beats.len(), m.simile_mark.is_some())).collect()
}

fn track_of(measures: Vec<Measure>) -> Track {
    let mut t = track("Gtr", &[]);
    t.measures = measures;
    t
}

#[test]
fn expanding_a_simple_mark_copies_the_previous_bar() {
    let mut song = Song::default();
    song.tracks.push(track_of(vec![bar(1, None), bar(2, None), bar(9, Some("Simple")), bar(3, None)]));
    expand_simile_marks(&mut song);
    assert_eq!(shape(&song.tracks[0]), vec![(1, false), (2, false), (2, false), (3, false)]);
}

#[test]
fn expanding_a_run_repeats_as_many_bars_before_it() {
    let mut song = Song::default();
    song.tracks.push(track_of(vec![
        bar(1, None),
        bar(2, None),
        bar(9, Some("FirstOfDouble")),
        bar(9, Some("SecondOfDouble")),
    ]));
    expand_simile_marks(&mut song);
    assert_eq!(shape(&song.tracks[0]), vec![(1, false), (2, false), (1, false), (2, false)]);
}

#[test]
fn expanding_a_long_run_cycles_through_the_bars_before_it() {
    let mut song = Song::default();
    song.tracks.push(track_of(vec![
        bar(1, None),
        bar(9, Some("Simple")),
        bar(9, Some("Simple")),
        bar(9, Some("Simple")),
    ]));
    expand_simile_marks(&mut song);
    assert_eq!(shape(&song.tracks[0]), vec![(1, false), (1, false), (1, false), (1, false)]);
}

#[test]
fn a_mark_on_the_first_bar_stays() {
    let mut song = Song::default();
    song.tracks.push(track_of(vec![bar(4, Some("Simple")), bar(5, None)]));
    expand_simile_marks(&mut song);
    assert_eq!(shape(&song.tracks[0]), vec![(4, true), (5, false)]);
}

#[test]
fn later_runs_read_bars_already_expanded() {
    let mut song = Song::default();
    song.tracks.push(track_of(vec![
        bar(1, None),
        bar(9, Some("Simple")),
        bar(3, None),
        bar(9, Some("Simple")),
        bar(9, Some("Simple")),
        bar(9, Some("Simple")),
    ]));
    expand_simile_marks(&mut song);
    assert_eq!(
        shape(&song.tracks[0]),
        vec![(1, false), (1, false), (3, false), (1, false), (1, false), (3, false)]
    );
}
