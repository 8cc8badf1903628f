use guitarpro::cli::repeats::{
    collect_nav_events, compact_play_sequence, decode_volta_mask, direction_label,
    expand_simple_repeats, find_repeat_blocks, PlayedBar,
};
use guitarpro::model::legacy::{DirectionSign, Duration, KeySignature, Marker, MeasureHeader, TimeSignature};

fn header(number: u16) -> MeasureHeader {
    MeasureHeader {
        number,
        start: 960,
        tempo: 120,
        time_signature: TimeSignature { numerator: 4, denominator: Duration::default(), beams: vec![2, 2, 2, 2] },
        key_signature: KeySignature { key: 0, is_minor: false },
        repeat_open: false,
        repeat_close: -1,
        repeat_alternative: 0,
        direction: None,
        marker: None,
    }
}

fn headers(n: u16) -> Vec<MeasureHeader> {
    (1..=n).map(header).collect()
}

#[test]
fn volta_masks_decode_to_ending_numbers() {
    assert_eq!(decode_volta_mask(0b0000_0101), vec![1, 3]);
    assert_eq!(decode_volta_mask(0), Vec::<u8>::new());
    assert_eq!(decode_volta_mask(0xff), vec![1, 2, 3, 4, 5, 6, 7, 8]);
}

#[test]
fn direction_labels_are_conventional() {
    assert_eq!(direction_label(&DirectionSign::DaCapoAlFine), "D.C. al Fine");
    assert_eq!(direction_label(&DirectionSign::Segno), "Segno");
}

#[test]
fn nav_events_list_navigating_bars() {
    let mut hs = headers(4);
    hs[1].repeat_open = true;
    hs[2].repeat_close = 1;
    hs[3].marker = Some(Marker { title: "Outro".to_string() });
    let ev = collect_nav_events(&hs);
    assert_eq!(ev.len(), 3);
    assert_eq!(ev[0].bar, 2);
    assert!(ev[0].repeat_open);
    assert_eq!(ev[1].repeat_close, Some(2));
    assert_eq!(ev[2].marker.as_deref(), Some("Outro"));
}

#[test]
fn repeat_blocks_and_expansion() {
    let mut hs = headers(4);
    hs[1].repeat_open = true;
    hs[2].repeat_close = 1;
    let blocks = find_repeat_blocks(&hs);
    assert_eq!(blocks.len(), 1);
    assert_eq!((blocks[0].open_idx, blocks[0].close_idx, blocks[0].total_plays), (1, 2, 2));
    let played = expand_simple_repeats(&hs);
    let bars: Vec<u16> = played.iter().map(|p| p.bar_number).collect();
    assert_eq!(bars, vec![1, 2, 3, 2, 3, 4]);
    let lines = compact_play_sequence(&played);
    assert!(!lines.is_empty());
}

#[test]
fn compact_empty_sequence() {
    let empty: Vec<PlayedBar> = Vec::new();
    assert_eq!(compact_play_sequence(&empty), vec!["(empty)".to_string()]);
}

use guitarpro::cli::repeats::{has_jumps, NavEvent};

fn nav(direction: Option<&str>) -> NavEvent {
    NavEvent { bar: 1, repeat_open: false, repeat_close: None, volta: vec![], direction: direction.map(|s| s.to_string()), marker: None }
}

#[test]
fn jumps_are_directions_starting_with_d_dot_or_da() {
    assert!(!has_jumps(&[]));
    assert!(!has_jumps(&[nav(None), nav(Some("Coda")), nav(Some("Fine")), nav(Some("D"))]));
    assert!(has_jumps(&[nav(Some("Segno")), nav(Some("D.C. al Fine"))]));
    assert!(has_jumps(&[nav(Some("Da Capo"))]));
    assert!(has_jumps(&[nav(Some("Da Coda"))]));
}

#[test]
fn a_repeated_block_plays_once_per_pass() {
    let mut hs = headers(2);
    hs[0].repeat_open = true;
    hs[1].repeat_close = 2;
    let played = expand_simple_repeats(&hs);
    let got: Vec<(u16, u32)> = played.iter().map(|b| (b.bar_number, b.pass)).collect();
    assert_eq!(got, vec![(1, 1), (2, 1), (1, 2), (2, 2), (1, 3), (2, 3)]);
}
