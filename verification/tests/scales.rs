use guitarpro::analysis::scales::{detect_key_changes, guess_key, score_scale, to_key_signature, KeyGuess, Scale, ScaleFit};
use guitarpro::model::{Beat, Duration, MeasureData, Note, NoteValue, Pitch, PitchStep, Track, Voice};

fn pc_to_pitch(pc: u8) -> (PitchStep, i8) {
    match pc % 12 {
        0 => (PitchStep::C, 0),
        1 => (PitchStep::C, 1),
        2 => (PitchStep::D, 0),
        3 => (PitchStep::D, 1),
        4 => (PitchStep::E, 0),
        5 => (PitchStep::F, 0),
        6 => (PitchStep::F, 1),
        7 => (PitchStep::G, 0),
        8 => (PitchStep::G, 1),
        9 => (PitchStep::A, 0),
        10 => (PitchStep::A, 1),
        11 => (PitchStep::B, 0),
        _ => unreachable!(),
    }
}

fn note_from_pc(pc: u8) -> Note {
    let (step, alter) = pc_to_pitch(pc);
    Note { pitch: Some(Pitch { step, alter, octave: 4 }), string: None, fret: None, tie: None, gp_is_rest: false, ..Default::default() }
}

fn beat_from_pcs(pcs: &[u8]) -> Beat {
    Beat {
        tick_offset: 0,
        duration: Duration { base: NoteValue::Quarter, dots: 0, tuplet: None },
        notes: pcs.iter().map(|&pc| note_from_pc(pc)).collect(),
        dynamic: None,
        gp_empty: false,
        gp_rest: false,
    }
}

fn measure(index: u16, beats: Vec<Beat>) -> MeasureData {
    MeasureData { measure_index: index, repeat: None, voices: vec![Voice { voice_id: 0, beats }], gp_simile_mark: None }
}

fn track_from_measures(mds: Vec<MeasureData>) -> Track {
    Track { name: String::new(), instrument: 0, staves: vec![], measures: mds }
}

fn uniform_track(count: u16, pcs: &[u8]) -> Track {
    track_from_measures((0..count).map(|i| measure(i, vec![beat_from_pcs(pcs)])).collect())
}

#[test]
fn to_key_sig_c_major() {
    let ks = to_key_signature(0, Scale::Major).unwrap();
    assert_eq!(ks.key, 0);
    assert!(!ks.is_minor);
}

#[test]
fn to_key_sig_a_natural_minor() {
    let ks = to_key_signature(9, Scale::NaturalMinor).unwrap();
    assert_eq!(ks.key, 0);
    assert!(ks.is_minor);
}

#[test]
fn to_key_sig_g_major() {
    let ks = to_key_signature(7, Scale::Major).unwrap();
    assert_eq!(ks.key, 1);
    assert!(!ks.is_minor);
}

#[test]
fn to_key_sig_f_major() {
    let ks = to_key_signature(5, Scale::Major).unwrap();
    assert_eq!(ks.key, -1);
    assert!(!ks.is_minor);
}

#[test]
fn to_key_sig_d_dorian_same_as_c_major() {
    let ks = to_key_signature(2, Scale::Dorian).unwrap();
    assert_eq!(ks.key, 0);
    assert!(!ks.is_minor);
}

#[test]
fn to_key_sig_whole_tone_is_none() {
    assert!(to_key_signature(0, Scale::WholeTone).is_none());
}

#[test]
fn to_key_sig_diminished_is_none() {
    assert!(to_key_signature(0, Scale::Diminished).is_none());
}

#[test]
fn detect_key_changes_empty_track() {
    let track = track_from_measures(vec![]);
    assert!(detect_key_changes(&track, &[]).is_empty());
}

#[test]
fn detect_key_changes_uniform_c_major() {
    let track = uniform_track(8, &[0, 2, 4, 5, 7, 9, 11]);
    let changes = detect_key_changes(&track, &[]);
    assert_eq!(changes.len(), 1);
    assert_eq!(changes[0].at_measure, 0);
    assert_eq!(changes[0].key.key, 0);
    assert!(!changes[0].key.is_minor);
}

#[test]
fn detect_key_changes_modulation_c_to_g() {
    let c_major = [0u8, 2, 4, 5, 7, 9, 11];
    let g_major = [7u8, 9, 11, 0, 2, 4, 6];
    let mut mds: Vec<MeasureData> = (0..4).map(|i| measure(i, vec![beat_from_pcs(&c_major)])).collect();
    for i in 4..8u16 {
        mds.push(measure(i, vec![beat_from_pcs(&g_major)]));
    }
    let track = track_from_measures(mds);
    let changes = detect_key_changes(&track, &[]);
    assert!(changes.len() >= 2, "expected at least 2 key changes, got {}", changes.len());
    assert_eq!(changes[0].key.key, 0);
    let later = changes.iter().find(|c| c.key.key == 1);
    assert!(later.is_some(), "expected a G major section (key=1)");
}

#[test]
fn detect_key_changes_single_measure_transient_suppressed() {
    let c_major = [0u8, 2, 4, 5, 7, 9, 11];
    let g_major = [7u8, 9, 11, 0, 2, 4, 6];
    let mut mds: Vec<MeasureData> = (0..4).map(|i| measure(i, vec![beat_from_pcs(&c_major)])).collect();
    mds.push(measure(4, vec![beat_from_pcs(&g_major)]));
    for i in 5..9u16 {
        mds.push(measure(i, vec![beat_from_pcs(&c_major)]));
    }
    let track = track_from_measures(mds);
    let changes = detect_key_changes(&track, &[]);
    let g_sections: Vec<_> = changes.iter().filter(|c| c.key.key == 1).collect();
    assert!(g_sections.is_empty(), "single-measure G major transient should be smoothed away, got: {g_sections:?}");
}

#[test]
fn detect_key_changes_minor_key() {
    let track = uniform_track(4, &[9, 11, 0, 2, 4, 5, 8]);
    let changes = detect_key_changes(&track, &[]);
    assert_eq!(changes.len(), 1);
    assert_eq!(changes[0].key.key, 0);
    assert!(changes[0].key.is_minor);
}

// Relative keys: every minor-family scale takes the key of the major a minor third up.
#[test]
fn to_key_sig_relative_minors() {
    let e_minor = to_key_signature(4, Scale::NaturalMinor).unwrap();
    assert_eq!((e_minor.key, e_minor.is_minor), (1, true));
    let d_blues = to_key_signature(2, Scale::Blues).unwrap();
    assert_eq!((d_blues.key, d_blues.is_minor), (-1, true));
    let b_locrian = to_key_signature(11, Scale::Locrian).unwrap();
    assert_eq!((b_locrian.key, b_locrian.is_minor), (0, false));
    let fs_major = to_key_signature(6, Scale::Major).unwrap();
    assert_eq!(fs_major.key, 6);
    let db_major = to_key_signature(1, Scale::Major).unwrap();
    assert_eq!(db_major.key, -5);
}

// The first change always stands at measure 0, even when the first measure is silent.
#[test]
fn detect_key_changes_first_change_at_measure_zero() {
    let mut rest = beat_from_pcs(&[]);
    rest.gp_rest = true;
    let track = track_from_measures(vec![
        measure(0, vec![rest]),
        measure(1, vec![beat_from_pcs(&[7, 9, 11, 0, 2, 4, 6])]),
    ]);
    let changes = detect_key_changes(&track, &[]);
    assert_eq!(changes.len(), 1);
    assert_eq!(changes[0].at_measure, 0);
    assert_eq!(changes[0].key.key, 1);
}

// Tablature notes are read through the tuning of string 1 (MIDI 64, E).
#[test]
fn detect_key_changes_reads_tablature() {
    let tab = |fret: u8| Note { pitch: None, string: Some(1), fret: Some(fret), tie: None, gp_is_rest: false, ..Default::default() };
    let beat = Beat {
        tick_offset: 0,
        duration: Duration { base: NoteValue::Quarter, dots: 0, tuplet: None },
        notes: vec![tab(0), tab(3), tab(5), tab(7), tab(8), tab(10), tab(12)],
        dynamic: None,
        gp_empty: false,
        gp_rest: false,
    };
    // Pitch classes 4 7 9 11 0 2 4: C major's notes without F, best read as C major.
    let track = track_from_measures(vec![measure(0, vec![beat])]);
    let changes = detect_key_changes(&track, &[(1, 64)]);
    assert_eq!(changes.len(), 1);
    assert_eq!(changes[0].at_measure, 0);
}

fn rest_beat() -> Beat {
    Beat {
        tick_offset: 0,
        duration: Duration { base: NoteValue::Quarter, dots: 0, tuplet: None },
        notes: vec![],
        dynamic: None,
        gp_empty: false,
        gp_rest: true,
    }
}

fn coverage(g: &KeyGuess) -> f32 {
    g.covered_notes as f32 / g.total_notes as f32
}

fn purity(g: &KeyGuess) -> f32 {
    g.in_scale_classes as f32 / g.present_classes as f32
}

fn fit_coverage(f: &ScaleFit) -> f32 {
    f.covered_notes as f32 / f.total_notes as f32
}

fn fit_purity(f: &ScaleFit) -> f32 {
    f.in_scale_classes as f32 / f.present_classes as f32
}

#[test]
fn guess_key_empty_beats_returns_empty() {
    assert!(guess_key(&[], &[]).is_empty());
}

#[test]
fn guess_key_rest_beat_returns_empty() {
    let b = rest_beat();
    assert!(guess_key(&[&b], &[]).is_empty());
}

#[test]
fn guess_key_c_major_scale_ranks_c_major_first() {
    let b = beat_from_pcs(&[0, 2, 4, 5, 7, 9, 11]);
    let result = guess_key(&[&b], &[]);
    assert!(!result.is_empty());
    let top = &result[0];
    assert_eq!(top.root.0, 0, "root should be C (0)");
    assert_eq!(top.scale, Scale::Major, "scale should be Major");
    assert!((coverage(top) - 1.0).abs() < 1e-4);
    assert!((purity(top) - 1.0).abs() < 1e-4);
}

#[test]
fn guess_key_a_natural_minor_in_candidates() {
    let b = beat_from_pcs(&[9, 11, 0, 2, 4, 5, 7]);
    let result = guess_key(&[&b], &[]);
    assert!(!result.is_empty());
    let a_minor = result.iter().find(|g| g.root.0 == 9 && g.scale == Scale::NaturalMinor);
    assert!(a_minor.is_some(), "A natural minor should be in candidates");
    assert!((coverage(a_minor.unwrap()) - 1.0).abs() < 1e-4);
}

#[test]
fn guess_key_pentatonic_major_wins_over_full_major() {
    let b = beat_from_pcs(&[0, 2, 4, 7, 9]);
    let result = guess_key(&[&b], &[]);
    assert!(!result.is_empty());
    let top = &result[0];
    assert_eq!(top.root.0, 0);
    assert_eq!(top.scale, Scale::PentatonicMajor);
    assert!((coverage(top) - 1.0).abs() < 1e-4);
    assert!((purity(top) - 1.0).abs() < 1e-4);
}

#[test]
fn guess_key_g_major_in_candidates() {
    let b = beat_from_pcs(&[7, 9, 11, 0, 2, 4, 6]);
    let result = guess_key(&[&b], &[]);
    assert!(!result.is_empty());
    let g_major = result.iter().find(|g| g.root.0 == 7 && g.scale == Scale::Major);
    assert!(g_major.is_some(), "G major should be in candidates");
    assert!((coverage(g_major.unwrap()) - 1.0).abs() < 1e-4);
    assert!((purity(g_major.unwrap()) - 1.0).abs() < 1e-4);
}

#[test]
fn guess_key_dorian_recognized() {
    let b = beat_from_pcs(&[2, 4, 5, 7, 9, 11, 0]);
    let result = guess_key(&[&b], &[]);
    assert!(!result.is_empty());
    let dorian_d = result.iter().find(|g| g.root.0 == 2 && g.scale == Scale::Dorian);
    assert!(dorian_d.is_some(), "D Dorian should be in candidates");
}

#[test]
fn score_scale_perfect_coverage_and_purity() {
    let mut hist = [0u64; 12];
    for &pc in &[0u8, 2, 4, 5, 7, 9, 11] {
        hist[pc as usize] = 1;
    }
    let fit = score_scale(&hist, 0, Scale::Major);
    let (cov, pur) = (fit_coverage(&fit), fit_purity(&fit));
    assert!((cov - 1.0).abs() < 1e-4, "coverage {cov}");
    assert!((pur - 1.0).abs() < 1e-4, "purity {pur}");
}

#[test]
fn score_scale_partial_coverage() {
    let mut hist = [0u64; 12];
    for &pc in &[0u8, 2, 4, 7, 9] {
        hist[pc as usize] = 1;
    }
    let fit = score_scale(&hist, 0, Scale::Major);
    let (cov, pur) = (fit_coverage(&fit), fit_purity(&fit));
    assert!((cov - 1.0).abs() < 1e-4, "coverage {cov}");
    assert!((pur - 1.0).abs() < 1e-4, "purity {pur}");
}

#[test]
fn score_scale_impure_match() {
    let mut hist = [0u64; 12];
    for &pc in &[0u8, 1, 2, 4, 5, 7, 9, 11] {
        hist[pc as usize] = 1;
    }
    let fit = score_scale(&hist, 0, Scale::Major);
    let (cov, pur) = (fit_coverage(&fit), fit_purity(&fit));
    assert!((cov - 7.0 / 8.0).abs() < 1e-4, "coverage {cov}");
    assert!((pur - 7.0 / 8.0).abs() < 1e-4, "purity {pur}");
}

#[test]
fn guess_key_ranking_is_complete_and_ordered() {
    // Every offered pair appears once, each with some covered note.
    let b = beat_from_pcs(&[0, 4, 7]);
    let result = guess_key(&[&b], &[]);
    let mut seen = std::collections::HashSet::new();
    for g in &result {
        assert!(seen.insert((g.root.0, g.scale)));
        assert!(g.covered_notes > 0);
        assert_eq!(g.total_notes, 3);
        assert_eq!(g.present_classes, 3);
    }
    assert!(result.len() > 12);
    assert_eq!((result[0].root.0, result[0].scale), (0, Scale::PentatonicMajor));
}

#[test]
fn score_scale_root_is_taken_modulo_12() {
    let mut hist = [0u64; 12];
    hist[0] = 3;
    hist[1] = 1;
    let a = score_scale(&hist, 0, Scale::Major);
    let b = score_scale(&hist, 12, Scale::Major);
    assert_eq!(a, b);
    assert_eq!(a, ScaleFit { covered_notes: 3, total_notes: 4, in_scale_classes: 1, present_classes: 2 });
}
