use guitarpro::cli::form::{
    assign_labels, clean_str, cluster_label, label_sections, merge_short, segment, LabeledSection, Section,
};
use guitarpro::model::legacy::{Duration, KeySignature, Marker, MeasureHeader, TimeSignature};

fn header(number: u16) -> MeasureHeader {
    MeasureHeader {
        number,
        start: 960,
        tempo: 120,
        time_signature: TimeSignature { numerator: 4, denominator: Duration::default(), beams: vec![2, 2, 2, 2] },
        key_signature: KeySignature { key: 0, is_minor: false },
        repeat_open: false,
        repeat_close: -1,
        repeat_alternative: 0,
        direction: None,
        marker: None,
    }
}

fn headers(n: u16) -> Vec<MeasureHeader> {
    (1..=n).map(header).collect()
}

fn bounds(sections: &[Section]) -> Vec<(usize, usize)> {
    sections.iter().map(|s| (s.start, s.end)).collect()
}

#[test]
fn segment_empty_song_has_no_sections() {
    assert!(segment(&[], 2, 0).is_empty());
}

#[test]
fn segment_cuts_at_markers_and_names_sections() {
    let mut hs = headers(8);
    hs[0].marker = Some(Marker { title: "\u{5}Intro".to_string() });
    hs[4].marker = Some(Marker { title: " Verse ".to_string() });
    let s = segment(&hs, 2, 0);
    assert_eq!(bounds(&s), vec![(0, 4), (4, 8)]);
    assert_eq!(s[0].name.as_deref(), Some("Intro"));
    assert_eq!(s[1].name.as_deref(), Some("Verse"));
}

#[test]
fn segment_cuts_at_repeats_without_markers() {
    let mut hs = headers(10);
    hs[2].repeat_open = true;
    hs[5].repeat_close = 1;
    let s = segment(&hs, 2, 0);
    assert_eq!(bounds(&s), vec![(0, 2), (2, 6), (6, 10)]);
}

#[test]
fn segment_falls_back_to_fixed_window() {
    let s = segment(&headers(20), 2, 0);
    assert_eq!(bounds(&s), vec![(0, 5), (5, 10), (10, 15), (15, 20)]);
    let s = segment(&headers(10), 1, 4);
    assert_eq!(bounds(&s), vec![(0, 4), (4, 8), (8, 10)]);
    let s = segment(&headers(3), 2, 0);
    assert_eq!(bounds(&s), vec![(0, 3)]);
}

#[test]
fn segment_merges_short_sections() {
    // The break before a short stretch is dropped; the end always stays.
    let s = segment(&headers(10), 3, 4);
    assert_eq!(bounds(&s), vec![(0, 4), (4, 8), (8, 10)]);
    let s = segment(&headers(5), 3, 1);
    assert_eq!(bounds(&s), vec![(0, 5)]);
}

#[test]
fn merge_short_drops_short_stretches() {
    assert_eq!(merge_short(&[0, 4, 5, 10], 2, 10), vec![0, 4, 10]);
    assert_eq!(merge_short(&[0, 1, 2, 3], 2, 3), vec![0, 3]);
    assert_eq!(merge_short(&[0, 10], 5, 10), vec![0, 10]);
    assert_eq!(merge_short(&[0, 4, 8, 10], 0, 10), vec![0, 4, 8, 10]);
}

#[test]
fn clean_str_strips_controls_and_spaces() {
    assert_eq!(clean_str("\u{3}  Chorus\u{7f} "), "Chorus");
    assert_eq!(clean_str("A\u{0}B"), "AB");
    assert_eq!(clean_str(""), "");
}

#[test]
fn cluster_labels_run_a_to_z_then_pairs() {
    assert_eq!(cluster_label(0), "A");
    assert_eq!(cluster_label(25), "Z");
    assert_eq!(cluster_label(26), "AA");
    assert_eq!(cluster_label(27), "AB");
    assert_eq!(cluster_label(52), "BA");
}

fn sec(start: usize, end: usize) -> Section {
    Section { start, end, name: None }
}

fn labels(ls: &[LabeledSection]) -> Vec<String> {
    ls.iter().map(|l| l.label.clone()).collect()
}

#[test]
fn label_sections_letters_by_first_appearance_and_primes_variants() {
    let sections = vec![sec(0, 4), sec(4, 8), sec(8, 12), sec(12, 16), sec(16, 20)];
    // Clusters: 3, 7, 3, 3, 7 — sections 0, 2, 3 form one cluster, 1 and 4 another.
    let coarse = vec![3, 7, 3, 3, 7];
    let mut close = vec![vec![false; 5]; 5];
    for i in 0..5 {
        close[i][i] = true;
    }
    // Section 2 is close to 0; section 3 is not close to 0.
    close[0][2] = true;
    close[2][0] = true;
    // Section 4 is close to 1.
    close[1][4] = true;
    close[4][1] = true;
    let ls = label_sections(&sections, &coarse, &close);
    assert_eq!(labels(&ls), vec!["A", "B", "A", "A'", "B"]);
    assert_eq!(ls[3].bar_range(), (13, 16));
}

#[test]
fn assign_labels_clusters_transitively() {
    let sections = vec![sec(0, 4), sec(4, 8), sec(8, 12), sec(12, 16)];
    let mut linked = vec![vec![false; 4]; 4];
    linked[0][2] = true;
    linked[2][3] = true;
    let mut close = vec![vec![false; 4]; 4];
    for i in 0..4 {
        close[i][i] = true;
    }
    close[0][2] = true;
    close[0][3] = true;
    let ls = assign_labels(&sections, &linked, &close).unwrap();
    assert_eq!(labels(&ls), vec!["A", "B", "A", "A"]);
}
