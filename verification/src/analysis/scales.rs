//! Key and scale detection.
//!
//! Each measure's pitch-class content is scored against every `(root,
//! scale)` pair; the best pair that has a canonical key signature gives the
//! measure's key.  Single-measure transients are smoothed away and a
//! `KeyChange` is emitted wherever the key changes.
//!
//! A pair's score weighs, in this order of importance, its coverage (the
//! share of the notes that fall in the scale), its purity (the share of the
//! distinct pitch classes present that fall in the scale), its specificity
//! (the share of the scale's own notes that are present) and a weak prior
//! for key signatures with few accidentals:
//! `0.50 * coverage + 0.35 * purity + 0.14 * specificity + 0.001 * prior`.
//! Scores are compared exactly, as rationals over a common denominator.

use vstd::prelude::*;

use crate::analysis::chords::PitchClass;
use crate::model::legacy::KeySignature;
use crate::model::{
    find_open_string, open_string_pitch, pitch_step_semitone, step_semitone, Beat, MeasureData,
    Note, Track, Voice,
};

verus! {

/// Musical scale / mode.
#[derive(Debug, Clone, Copy, PartialEq, Eq, Hash, Structural)]
pub enum Scale {
    Major,
    NaturalMinor,
    HarmonicMinor,
    MelodicMinor,
    PentatonicMajor,
    PentatonicMinor,
    /// Minor pentatonic plus the flat fifth (the "blue note").
    Blues,
    Dorian,
    Phrygian,
    Lydian,
    Mixolydian,
    Locrian,
    /// Symmetric six-note scale (no canonical key signature).
    WholeTone,
    /// Symmetric eight-note scale (no canonical key signature).
    Diminished,
}

/// A key-signature change on the timeline.
#[derive(Debug, Clone, Copy, PartialEq, Eq, Structural)]
pub struct KeyChange {
    /// 0-based position of the first affected measure in the track's order.
    pub at_measure: usize,
    /// The canonical key signature.
    pub key: KeySignature,
}

/// A key and scale candidate scored against the pitch-class content of a
/// passage.  Its coverage is `covered_notes / total_notes`, the share of the
/// notes that fall in the scale; its purity is `in_scale_classes /
/// present_classes`, the share of the distinct pitch classes present that
/// fall in the scale.
#[derive(Debug, Clone, Copy, PartialEq, Eq, Structural)]
pub struct KeyGuess {
    /// Tonal centre.
    pub root: PitchClass,
    pub scale: Scale,
    pub covered_notes: usize,
    pub total_notes: usize,
    pub in_scale_classes: usize,
    pub present_classes: usize,
}

// ---------------------------------------------------------------------------
// Scale tables
// ---------------------------------------------------------------------------

/// The scales in the order in which candidates are enumerated.
pub open spec fn scale_at(i: int) -> Scale {
    if i == 0 { Scale::Major }
    else if i == 1 { Scale::NaturalMinor }
    else if i == 2 { Scale::HarmonicMinor }
    else if i == 3 { Scale::MelodicMinor }
    else if i == 4 { Scale::PentatonicMajor }
    else if i == 5 { Scale::PentatonicMinor }
    else if i == 6 { Scale::Blues }
    else if i == 7 { Scale::Dorian }
    else if i == 8 { Scale::Phrygian }
    else if i == 9 { Scale::Lydian }
    else if i == 10 { Scale::Mixolydian }
    else if i == 11 { Scale::Locrian }
    else if i == 12 { Scale::WholeTone }
    else { Scale::Diminished }
}

fn scale_at_exec(i: usize) -> (r: Scale)
    requires
        i < 14,
    ensures
        r == scale_at(i as int),
{
    if i == 0 { Scale::Major }
    else if i == 1 { Scale::NaturalMinor }
    else if i == 2 { Scale::HarmonicMinor }
    else if i == 3 { Scale::MelodicMinor }
    else if i == 4 { Scale::PentatonicMajor }
    else if i == 5 { Scale::PentatonicMinor }
    else if i == 6 { Scale::Blues }
    else if i == 7 { Scale::Dorian }
    else if i == 8 { Scale::Phrygian }
    else if i == 9 { Scale::Lydian }
    else if i == 10 { Scale::Mixolydian }
    else if i == 11 { Scale::Locrian }
    else if i == 12 { Scale::WholeTone }
    else { Scale::Diminished }
}

/// Ascending semitone intervals of a scale above its root.
pub open spec fn intervals(s: Scale) -> Seq<u8> {
    match s {
        Scale::Major => seq![0u8, 2, 4, 5, 7, 9, 11],
        Scale::NaturalMinor => seq![0u8, 2, 3, 5, 7, 8, 10],
        Scale::HarmonicMinor => seq![0u8, 2, 3, 5, 7, 8, 11],
        Scale::MelodicMinor => seq![0u8, 2, 3, 5, 7, 9, 11],
        Scale::PentatonicMajor => seq![0u8, 2, 4, 7, 9],
        Scale::PentatonicMinor => seq![0u8, 3, 5, 7, 10],
        Scale::Blues => seq![0u8, 3, 5, 6, 7, 10],
        Scale::Dorian => seq![0u8, 2, 3, 5, 7, 9, 10],
        Scale::Phrygian => seq![0u8, 1, 3, 5, 7, 8, 10],
        Scale::Lydian => seq![0u8, 2, 4, 6, 7, 9, 11],
        Scale::Mixolydian => seq![0u8, 2, 4, 5, 7, 9, 10],
        Scale::Locrian => seq![0u8, 1, 3, 5, 6, 8, 10],
        Scale::WholeTone => seq![0u8, 2, 4, 6, 8, 10],
        Scale::Diminished => seq![0u8, 2, 3, 5, 6, 8, 9, 11],
    }
}

proof fn lemma_intervals_len(s: Scale)
    ensures
        5 <= intervals(s).len() <= 8,
{
}

fn scale_intervals(s: Scale) -> (r: Vec<u8>)
    ensures
        r@ == intervals(s),
{
    let v = match s {
        Scale::Major => vec![0u8, 2, 4, 5, 7, 9, 11],
        Scale::NaturalMinor => vec![0u8, 2, 3, 5, 7, 8, 10],
        Scale::HarmonicMinor => vec![0u8, 2, 3, 5, 7, 8, 11],
        Scale::MelodicMinor => vec![0u8, 2, 3, 5, 7, 9, 11],
        Scale::PentatonicMajor => vec![0u8, 2, 4, 7, 9],
        Scale::PentatonicMinor => vec![0u8, 3, 5, 7, 10],
        Scale::Blues => vec![0u8, 3, 5, 6, 7, 10],
        Scale::Dorian => vec![0u8, 2, 3, 5, 7, 9, 10],
        Scale::Phrygian => vec![0u8, 1, 3, 5, 7, 8, 10],
        Scale::Lydian => vec![0u8, 2, 4, 6, 7, 9, 11],
        Scale::Mixolydian => vec![0u8, 2, 4, 5, 7, 9, 10],
        Scale::Locrian => vec![0u8, 1, 3, 5, 6, 8, 10],
        Scale::WholeTone => vec![0u8, 2, 4, 6, 8, 10],
        Scale::Diminished => vec![0u8, 2, 3, 5, 6, 8, 9, 11],
    };
    assert(v@ =~= intervals(s));
    v
}

// ---------------------------------------------------------------------------
// Key signatures
// ---------------------------------------------------------------------------

/// Semitones from a scale's root up to the root of its relative major (the
/// parent diatonic set).
pub open spec fn relative_offset(s: Scale) -> int {
    match s {
        Scale::Lydian => 7,
        Scale::Mixolydian => 5,
        Scale::Dorian => 10,
        Scale::Phrygian => 8,
        Scale::Locrian => 1,
        Scale::NaturalMinor | Scale::HarmonicMinor | Scale::MelodicMinor | Scale::PentatonicMinor
        | Scale::Blues => 3,
        _ => 0,
    }
}

/// Whether a scale belongs to the minor family (its key signature is that
/// of the relative minor).
pub open spec fn minor_family(s: Scale) -> bool {
    match s {
        Scale::NaturalMinor | Scale::HarmonicMinor | Scale::MelodicMinor | Scale::PentatonicMinor
        | Scale::Blues => true,
        _ => false,
    }
}

/// Circle-of-fifths position of the major key on pitch class `pc` (taken
/// mod 12), resolving enharmonics toward fewer accidentals (F♯ over G♭).
pub open spec fn major_fifths(pc: int) -> i8 {
    let p = pc % 12;
    if p == 0 { 0 }
    else if p == 7 { 1 }
    else if p == 2 { 2 }
    else if p == 9 { 3 }
    else if p == 4 { 4 }
    else if p == 11 { 5 }
    else if p == 6 { 6 }
    else if p == 1 { -5i8 }
    else if p == 8 { -4i8 }
    else if p == 3 { -3i8 }
    else if p == 10 { -2i8 }
    else { -1i8 }
}

fn pc_to_major_fifths(pc: u8) -> (r: i8)
    ensures
        r == major_fifths(pc as int),
{
    let p = pc % 12;
    if p == 0 { 0 }
    else if p == 7 { 1 }
    else if p == 2 { 2 }
    else if p == 9 { 3 }
    else if p == 4 { 4 }
    else if p == 11 { 5 }
    else if p == 6 { 6 }
    else if p == 1 { -5i8 }
    else if p == 8 { -4i8 }
    else if p == 3 { -3i8 }
    else if p == 10 { -2i8 }
    else { -1i8 }
}

/// The canonical key signature of `(root, scale)`: that of the relative
/// major, marked minor for the minor family; none for the whole-tone and
/// diminished scales.
pub open spec fn key_signature_of(root: int, s: Scale) -> Option<KeySignature> {
    match s {
        Scale::WholeTone | Scale::Diminished => None,
        _ => Some(
            KeySignature {
                key: major_fifths((root + relative_offset(s)) % 12),
                is_minor: minor_family(s),
            },
        ),
    }
}

/// Map `(root pitch class, scale)` to its canonical key signature.
///
/// For modal scales the key signature is that of the relative major.
/// Returns `None` for `WholeTone` and `Diminished`.
pub fn to_key_signature(root: u8, scale: Scale) -> (r: Option<KeySignature>)
    requires
        root + relative_offset(scale) <= 255,
    ensures
        r == key_signature_of(root as int, scale),
{
    let (rel_pc, is_minor) = match scale {
        Scale::Major | Scale::PentatonicMajor => (root, false),
        Scale::Lydian => ((root + 7) % 12, false),
        Scale::Mixolydian => ((root + 5) % 12, false),
        Scale::Dorian => ((root + 10) % 12, false),
        Scale::Phrygian => ((root + 8) % 12, false),
        Scale::Locrian => ((root + 1) % 12, false),
        Scale::NaturalMinor | Scale::HarmonicMinor | Scale::MelodicMinor => ((root + 3) % 12, true),
        Scale::PentatonicMinor | Scale::Blues => ((root + 3) % 12, true),
        Scale::WholeTone | Scale::Diminished => {
            return None;
        },
    };
    Some(KeySignature { key: pc_to_major_fifths(rel_pc), is_minor })
}

// ---------------------------------------------------------------------------
// Pitch-class content of a measure
// ---------------------------------------------------------------------------

/// Pitch class of a note: from the tablature when string, fret and the
/// string's tuning are known, else from the written pitch.
pub open spec fn note_pc(n: Note, strings: Seq<(i8, i8)>) -> Option<u8> {
    if n.string is Some && n.fret is Some && open_string_pitch(strings, n.string->0 as i8) is Some {
        Some(((open_string_pitch(strings, n.string->0 as i8)->0 + n.fret->0) % 12) as u8)
    } else if n.pitch is Some {
        Some(((step_semitone(n.pitch->0.step) + n.pitch->0.alter) % 12) as u8)
    } else {
        None
    }
}

/// Pitch classes of the sounding notes among `notes`, in order.
pub open spec fn notes_pcs(notes: Seq<Note>, strings: Seq<(i8, i8)>) -> Seq<u8>
    decreases notes.len(),
{
    if notes.len() == 0 {
        Seq::empty()
    } else {
        let rest = notes_pcs(notes.drop_last(), strings);
        let n = notes.last();
        if !n.gp_is_rest && note_pc(n, strings) is Some {
            rest.push(note_pc(n, strings)->0)
        } else {
            rest
        }
    }
}

/// Pitch classes of a beat; rest and filler beats have none.
pub open spec fn beat_pcs(b: Beat, strings: Seq<(i8, i8)>) -> Seq<u8> {
    if b.gp_rest || b.gp_empty {
        Seq::empty()
    } else {
        notes_pcs(b.notes@, strings)
    }
}

/// Pitch classes of a sequence of beats.
pub open spec fn beats_pcs(beats: Seq<Beat>, strings: Seq<(i8, i8)>) -> Seq<u8>
    decreases beats.len(),
{
    if beats.len() == 0 {
        Seq::empty()
    } else {
        beats_pcs(beats.drop_last(), strings) + beat_pcs(beats.last(), strings)
    }
}

/// Pitch classes of a sequence of voices.
pub open spec fn voices_pcs(voices: Seq<Voice>, strings: Seq<(i8, i8)>) -> Seq<u8>
    decreases voices.len(),
{
    if voices.len() == 0 {
        Seq::empty()
    } else {
        voices_pcs(voices.drop_last(), strings) + beats_pcs(voices.last().beats@, strings)
    }
}

/// Pitch classes of all sounding notes of a measure.
pub open spec fn measure_pcs(md: MeasureData, strings: Seq<(i8, i8)>) -> Seq<u8> {
    voices_pcs(md.voices@, strings)
}

/// Number of notes of pitch class `p` among the first `n`.
pub open spec fn prefix_weight(pcs: Seq<u8>, n: int, p: int) -> int
    decreases n,
{
    if n <= 0 {
        0
    } else {
        prefix_weight(pcs, n - 1, p) + if pcs[n - 1] == p {
            1int
        } else {
            0int
        }
    }
}

/// Number of notes of pitch class `p`.
pub open spec fn weight(pcs: Seq<u8>, p: int) -> int {
    prefix_weight(pcs, pcs.len() as int, p)
}

proof fn lemma_prefix_weight_bounds(pcs: Seq<u8>, n: int, p: int)
    requires
        n >= 0,
    ensures
        0 <= prefix_weight(pcs, n, p) <= n,
    decreases n,
{
    if n > 0 {
        lemma_prefix_weight_bounds(pcs, n - 1, p);
    }
}

/// Per-pitch-class note counts of `pcs`.
pub open spec fn weights(pcs: Seq<u8>) -> Seq<int> {
    Seq::new(12, |p: int| weight(pcs, p))
}

/// A histogram held in machine integers, read as integers.
pub open spec fn counts(hist: Seq<u64>) -> Seq<int> {
    hist.map_values(|x: u64| x as int)
}

// ---------------------------------------------------------------------------
// Scoring
// ---------------------------------------------------------------------------

/// Pitch class `p` belongs to `scale` on `root`.
pub open spec fn in_scale(root: int, s: Scale, p: int) -> bool {
    intervals(s).contains(((p - root) % 12) as u8)
}

/// Notes of pitch classes `0..n` in histogram `h`.
pub open spec fn total_upto(h: Seq<int>, n: int) -> int
    decreases n,
{
    if n <= 0 {
        0
    } else {
        total_upto(h, n - 1) + h[n - 1]
    }
}

/// Notes in histogram `h`.
pub open spec fn total(h: Seq<int>) -> int {
    total_upto(h, 12)
}

/// Notes of pitch classes `0..n` in histogram `h` that fall in the scale.
pub open spec fn covered_upto(h: Seq<int>, root: int, s: Scale, n: int) -> int
    decreases n,
{
    if n <= 0 {
        0
    } else {
        covered_upto(h, root, s, n - 1) + if in_scale(root, s, n - 1) {
            h[n - 1]
        } else {
            0
        }
    }
}

/// Notes of histogram `h` that fall in the scale.
pub open spec fn covered(h: Seq<int>, root: int, s: Scale) -> int {
    covered_upto(h, root, s, 12)
}

/// Distinct pitch classes among `0..n` present in `h`.
pub open spec fn present_upto(h: Seq<int>, n: int) -> int
    decreases n,
{
    if n <= 0 {
        0
    } else {
        present_upto(h, n - 1) + if h[n - 1] > 0 {
            1int
        } else {
            0int
        }
    }
}

/// Distinct pitch classes present in `h`.
pub open spec fn present(h: Seq<int>) -> int {
    present_upto(h, 12)
}

/// Distinct pitch classes among `0..n` present in `h` and in the scale.
pub open spec fn present_in_scale_upto(h: Seq<int>, root: int, s: Scale, n: int) -> int
    decreases n,
{
    if n <= 0 {
        0
    } else {
        present_in_scale_upto(h, root, s, n - 1) + if h[n - 1] > 0 && in_scale(root, s, n - 1) {
            1int
        } else {
            0int
        }
    }
}

/// Distinct pitch classes present in `h` that fall in the scale.
pub open spec fn present_in_scale(h: Seq<int>, root: int, s: Scale) -> int {
    present_in_scale_upto(h, root, s, 12)
}

/// Among the scale's first `n` notes, those present in `h`.
pub open spec fn scale_notes_present_upto(h: Seq<int>, root: int, s: Scale, n: int) -> int
    decreases n,
{
    if n <= 0 {
        0
    } else {
        scale_notes_present_upto(h, root, s, n - 1) + if h[(root + intervals(s)[n - 1]) % 12] > 0 {
            1int
        } else {
            0int
        }
    }
}

/// The scale's own notes that are present in `h`.
pub open spec fn scale_notes_present(h: Seq<int>, root: int, s: Scale) -> int {
    scale_notes_present_upto(h, root, s, intervals(s).len() as int)
}

/// Numerator of the prior over 200: `200 - |key|`, or 198 without a key
/// signature.
pub open spec fn prior_num(root: int, s: Scale) -> int {
    match key_signature_of(root, s) {
        Some(k) => 200 - (if k.key < 0 { -k.key } else { k.key as int }),
        None => 198,
    }
}

/// The score of `(root, scale)` times `200000 * 840 * total * present`, a
/// factor common to all pairs.
pub open spec fn score(pcs: Seq<u8>, root: int, s: Scale) -> int {
    let h = weights(pcs);
    let t = pcs.len() as int;
    let p = present(h);
    100000 * covered(h, root, s) * p * 840 + 70000 * present_in_scale(h, root, s) * t * 840
        + 28000 * scale_notes_present(h, root, s) * t * p * (840int / (intervals(s).len() as int))
        + prior_num(root, s) * t * p * 840
}

/// Root of candidate `c`.
pub open spec fn cand_root(c: int) -> int {
    c / 14
}

/// Scale of candidate `c`.
pub open spec fn cand_scale(c: int) -> Scale {
    scale_at(c % 14)
}

/// Position of a scale in the enumeration order.
pub open spec fn scale_index(s: Scale) -> int {
    match s {
        Scale::Major => 0,
        Scale::NaturalMinor => 1,
        Scale::HarmonicMinor => 2,
        Scale::MelodicMinor => 3,
        Scale::PentatonicMajor => 4,
        Scale::PentatonicMinor => 5,
        Scale::Blues => 6,
        Scale::Dorian => 7,
        Scale::Phrygian => 8,
        Scale::Lydian => 9,
        Scale::Mixolydian => 10,
        Scale::Locrian => 11,
        Scale::WholeTone => 12,
        Scale::Diminished => 13,
    }
}

/// Candidate `c` is offered as a guess: there are notes and some fall in
/// the scale.
pub open spec fn offered(pcs: Seq<u8>, c: int) -> bool {
    &&& 0 <= c < 168
    &&& pcs.len() > 0
    &&& covered(weights(pcs), cand_root(c), cand_scale(c)) > 0
}

/// Candidate `c` competes for a measure's key: it is offered and the pair
/// has a key signature.
pub open spec fn eligible(pcs: Seq<u8>, c: int) -> bool {
    &&& offered(pcs, c)
    &&& key_signature_of(cand_root(c), cand_scale(c)) is Some
}

/// Candidate score.
pub open spec fn cand_score(pcs: Seq<u8>, c: int) -> int {
    score(pcs, cand_root(c), cand_scale(c))
}

/// `c` is the best competing candidate: highest score, earliest among
/// equals.
pub open spec fn is_best(pcs: Seq<u8>, c: int) -> bool {
    &&& eligible(pcs, c)
    &&& forall|d: int| #[trigger] eligible(pcs, d) ==> cand_score(pcs, d) <= cand_score(pcs, c)
    &&& forall|d: int| 0 <= d < c && #[trigger] eligible(pcs, d) ==> cand_score(pcs, d) < cand_score(
        pcs,
        c,
    )
}

/// The key signature of a measure with pitch classes `pcs`: that of the
/// best candidate, if any competes.
pub open spec fn best_key(pcs: Seq<u8>) -> Option<KeySignature> {
    if exists|c: int| is_best(pcs, c) {
        let c = choose|c: int| is_best(pcs, c);
        key_signature_of(cand_root(c), cand_scale(c))
    } else {
        None
    }
}

/// The candidate a guess stands for.
pub open spec fn guess_cand(g: KeyGuess) -> int {
    g.root.0 * 14 + scale_index(g.scale)
}

/// The guess reporting candidate `c`.
pub open spec fn guess_for(pcs: Seq<u8>, c: int) -> KeyGuess {
    let h = weights(pcs);
    KeyGuess {
        root: PitchClass(cand_root(c) as u8),
        scale: cand_scale(c),
        covered_notes: covered(h, cand_root(c), cand_scale(c)) as usize,
        total_notes: pcs.len() as usize,
        in_scale_classes: present_in_scale(h, cand_root(c), cand_scale(c)) as usize,
        present_classes: present(h) as usize,
    }
}

/// Candidate `a` ranks before candidate `b`: a higher score, or an equal
/// score and an earlier place in the enumeration.
pub open spec fn ranks_before(pcs: Seq<u8>, a: int, b: int) -> bool {
    ||| cand_score(pcs, a) > cand_score(pcs, b)
    ||| cand_score(pcs, a) == cand_score(pcs, b) && a < b
}

/// Pitch classes of the sounding notes of `beats`.
pub open spec fn beat_refs_pcs(beats: Seq<&Beat>, strings: Seq<(i8, i8)>) -> Seq<u8> {
    beats_pcs(beats.map_values(|b: &Beat| *b), strings)
}

proof fn lemma_best_unique(pcs: Seq<u8>, a: int, b: int)
    requires
        is_best(pcs, a),
        is_best(pcs, b),
    ensures
        a == b,
{
    if a < b {
        assert(cand_score(pcs, a) < cand_score(pcs, b));
        assert(cand_score(pcs, a) <= cand_score(pcs, b));
        assert(cand_score(pcs, b) <= cand_score(pcs, a));
    } else if b < a {
        assert(cand_score(pcs, b) < cand_score(pcs, a));
        assert(cand_score(pcs, a) <= cand_score(pcs, b));
    }
}

// ---------------------------------------------------------------------------
// Executable scoring
// ---------------------------------------------------------------------------

/// Pitch class of a note, as `note_pc` states.
fn note_to_pc(note: &Note, strings: &[(i8, i8)]) -> (r: Option<u8>)
    ensures
        r == note_pc(*note, strings@),
{
    if note.string.is_some() && note.fret.is_some() {
        let s = note.string.unwrap();
        let f = note.fret.unwrap();
        match find_open_string(strings, s as i8) {
            Some(open) => {
                let x: i32 = open as i32 + f as i32 + 132;
                return Some((x % 12) as u8);
            },
            None => {},
        }
    }
    match note.pitch {
        Some(p) => {
            let x: i32 = pitch_step_semitone(p.step) + p.alter as i32 + 132;
            Some((x % 12) as u8)
        },
        None => None,
    }
}

/// Append the pitch classes of a beat to `out`.
fn push_beat_pcs(beat: &Beat, strings: &[(i8, i8)], out: &mut Vec<u8>)
    ensures
        final(out)@ == old(out)@ + beat_pcs(*beat, strings@),
{
    if beat.gp_rest || beat.gp_empty {
        assert(beat_pcs(*beat, strings@) =~= Seq::<u8>::empty());
        assert(out@ =~= old(out)@ + beat_pcs(*beat, strings@));
        return;
    }
    let ghost start = out@;
    let mut k: usize = 0;
    while k < beat.notes.len()
        invariant
            k <= beat.notes@.len(),
            out@ == start + notes_pcs(beat.notes@.take(k as int), strings@),
        decreases beat.notes@.len() - k,
    {
        let n = &beat.notes[k];
        assert(beat.notes@.take(k + 1).drop_last() =~= beat.notes@.take(k as int));
        if !n.gp_is_rest {
            match note_to_pc(n, strings) {
                Some(pc) => {
                    out.push(pc);
                },
                None => {},
            }
        }
        k += 1;
        assert(out@ =~= start + notes_pcs(beat.notes@.take(k as int), strings@));
    }
    assert(beat.notes@.take(k as int) =~= beat.notes@);
}

/// Pitch classes of all sounding notes of a measure.
fn collect_measure_pcs(md: &MeasureData, strings: &[(i8, i8)]) -> (r: Vec<u8>)
    ensures
        r@ == measure_pcs(*md, strings@),
{
    let mut out: Vec<u8> = Vec::new();
    let mut v: usize = 0;
    while v < md.voices.len()
        invariant
            v <= md.voices@.len(),
            out@ == voices_pcs(md.voices@.take(v as int), strings@),
        decreases md.voices@.len() - v,
    {
        let voice = &md.voices[v];
        assert(md.voices@.take(v + 1).drop_last() =~= md.voices@.take(v as int));
        let ghost before = out@;
        let mut b: usize = 0;
        while b < voice.beats.len()
            invariant
                b <= voice.beats@.len(),
                voice == md.voices@[v as int],
                out@ == before + beats_pcs(voice.beats@.take(b as int), strings@),
            decreases voice.beats@.len() - b,
        {
            assert(voice.beats@.take(b + 1).drop_last() =~= voice.beats@.take(b as int));
            push_beat_pcs(&voice.beats[b], strings, &mut out);
            b += 1;
            assert(out@ =~= before + beats_pcs(voice.beats@.take(b as int), strings@));
        }
        assert(voice.beats@.take(b as int) =~= voice.beats@);
        v += 1;
        assert(out@ =~= voices_pcs(md.voices@.take(v as int), strings@));
    }
    assert(md.voices@.take(v as int) =~= md.voices@);
    out
}

/// Per-pitch-class note counts.
fn histogram(pcs: &Vec<u8>) -> (r: Vec<u64>)
    requires
        forall|k: int| 0 <= k < pcs@.len() ==> pcs@[k] < 12,
    ensures
        r@.len() == 12,
        counts(r@) == weights(pcs@),
{
    let mut h: Vec<u64> = Vec::new();
    let mut p: usize = 0;
    while p < 12
        invariant
            p <= 12,
            h@.len() == p,
            forall|q: int| 0 <= q < p ==> h@[q] == 0,
        decreases 12 - p,
    {
        h.push(0);
        p += 1;
    }
    let mut i: usize = 0;
    while i < pcs.len()
        invariant
            i <= pcs@.len(),
            h@.len() == 12,
            forall|k: int| 0 <= k < pcs@.len() ==> pcs@[k] < 12,
            forall|q: int|
                0 <= q < 12 ==> #[trigger] h@[q] == prefix_weight(pcs@, i as int, q),
        decreases pcs@.len() - i,
    {
        let x = pcs[i] as usize;
        proof {
            assert(pcs@[i as int] < 12);
            assert(0 <= x < 12);
            assert(h@[x as int] == prefix_weight(pcs@, i as int, x as int));
            lemma_prefix_weight_bounds(pcs@, i as int, x as int);
        }
        let cur = h[x];
        h.set(x, cur + 1);
        i += 1;
    }
    assert(counts(h@) =~= weights(pcs@));
    h
}

proof fn lemma_note_pc_range(n: Note, strings: Seq<(i8, i8)>)
    ensures
        note_pc(n, strings) is Some ==> note_pc(n, strings)->0 < 12,
{
}

proof fn lemma_pcs_range(md: MeasureData, strings: Seq<(i8, i8)>)
    ensures
        forall|k: int|
            0 <= k < measure_pcs(md, strings).len() ==> #[trigger] measure_pcs(md, strings)[k] < 12,
{
    lemma_voices_pcs_range(md.voices@, strings);
}

proof fn lemma_notes_pcs_range(notes: Seq<Note>, strings: Seq<(i8, i8)>)
    ensures
        forall|k: int|
            0 <= k < notes_pcs(notes, strings).len() ==> #[trigger] notes_pcs(notes, strings)[k] < 12,
    decreases notes.len(),
{
    if notes.len() > 0 {
        lemma_notes_pcs_range(notes.drop_last(), strings);
        lemma_note_pc_range(notes.last(), strings);
        let rest = notes_pcs(notes.drop_last(), strings);
        let n = notes.last();
        if !n.gp_is_rest && note_pc(n, strings) is Some {
            let full = rest.push(note_pc(n, strings)->0);
            assert forall|k: int| 0 <= k < full.len() implies #[trigger] full[k] < 12 by {
                if k < rest.len() {
                    assert(full[k] == rest[k]);
                }
            }
        }
    }
}

proof fn lemma_beats_pcs_range(beats: Seq<Beat>, strings: Seq<(i8, i8)>)
    ensures
        forall|k: int|
            0 <= k < beats_pcs(beats, strings).len() ==> #[trigger] beats_pcs(beats, strings)[k] < 12,
    decreases beats.len(),
{
    if beats.len() > 0 {
        lemma_beats_pcs_range(beats.drop_last(), strings);
        lemma_notes_pcs_range(beats.last().notes@, strings);
        let a = beats_pcs(beats.drop_last(), strings);
        let b = beat_pcs(beats.last(), strings);
        assert forall|k: int| 0 <= k < (a + b).len() implies #[trigger] (a + b)[k] < 12 by {
            if k >= a.len() {
                assert((a + b)[k] == b[k - a.len()]);
            }
        }
    }
}

proof fn lemma_voices_pcs_range(voices: Seq<Voice>, strings: Seq<(i8, i8)>)
    ensures
        forall|k: int|
            0 <= k < voices_pcs(voices, strings).len() ==> #[trigger] voices_pcs(voices, strings)[k]
                < 12,
    decreases voices.len(),
{
    if voices.len() > 0 {
        lemma_voices_pcs_range(voices.drop_last(), strings);
        lemma_beats_pcs_range(voices.last().beats@, strings);
        let a = voices_pcs(voices.drop_last(), strings);
        let b = beats_pcs(voices.last().beats@, strings);
        assert forall|k: int| 0 <= k < (a + b).len() implies #[trigger] (a + b)[k] < 12 by {
            if k >= a.len() {
                assert((a + b)[k] == b[k - a.len()]);
            }
        }
    }
}

/// Whether `d` is among the intervals `ivs`.
fn contains_interval(ivs: &Vec<u8>, d: u8) -> (r: bool)
    ensures
        r == ivs@.contains(d),
{
    let mut k: usize = 0;
    while k < ivs.len()
        invariant
            k <= ivs@.len(),
            forall|q: int| 0 <= q < k ==> ivs@[q] != d,
        decreases ivs@.len() - k,
    {
        if ivs[k] == d {
            assert(ivs@[k as int] == d);
            return true;
        }
        k += 1;
    }
    false
}

/// The exact score from its parts.
fn weighted_score(c: u128, i: u128, s: u128, t: u128, p: u128, lf: u128, prior: u128) -> (r: u128)
    requires
        c <= 12 * 0x1_0000_0000_0000_0000,
        i <= 12,
        s <= 12,
        t < 0x1_0000_0000_0000_0000,
        p <= 12,
        lf <= 168,
        prior <= 200,
    ensures
        r == 100000 * c * p * 840 + 70000 * i * t * 840 + 28000 * s * t * p * lf + prior * t * p
            * 840,
{
    assert(100000 * c * p * 840 <= 100000 * (12 * 0x1_0000_0000_0000_0000) * 12 * 840)
        by (nonlinear_arith)
        requires
            c <= 12 * 0x1_0000_0000_0000_0000,
            p <= 12,
    ;
    assert(70000 * i * t * 840 <= 70000 * 12 * 0x1_0000_0000_0000_0000 * 840) by (nonlinear_arith)
        requires
            i <= 12,
            t < 0x1_0000_0000_0000_0000,
    ;
    assert(28000 * s * t <= 28000 * 12 * 0x1_0000_0000_0000_0000) by (nonlinear_arith)
        requires
            s <= 12,
            t < 0x1_0000_0000_0000_0000,
    ;
    assert(28000 * s * t * p <= 28000 * 12 * 0x1_0000_0000_0000_0000 * 12) by (nonlinear_arith)
        requires
            s <= 12,
            t < 0x1_0000_0000_0000_0000,
            p <= 12,
    ;
    assert(28000 * s * t * p * lf <= 28000 * 12 * 0x1_0000_0000_0000_0000 * 12 * 168)
        by (nonlinear_arith)
        requires
            s <= 12,
            t < 0x1_0000_0000_0000_0000,
            p <= 12,
            lf <= 168,
    ;
    assert(prior * t <= 200 * 0x1_0000_0000_0000_0000) by (nonlinear_arith)
        requires
            prior <= 200,
            t < 0x1_0000_0000_0000_0000,
    ;
    assert(prior * t * p * 840 <= 200 * 0x1_0000_0000_0000_0000 * 12 * 840) by (nonlinear_arith)
        requires
            prior <= 200,
            t < 0x1_0000_0000_0000_0000,
            p <= 12,
    ;
    let a = 100000 * c * p * 840;
    let b = 70000 * i * t * 840;
    let d = 28000 * s * t * p * lf;
    let e = prior * t * p * 840;
    a + b + d + e
}

/// Number of distinct pitch classes with a nonzero count.
fn count_present(hist: &[u64]) -> (r: usize)
    requires
        hist@.len() == 12,
    ensures
        r == present(counts(hist@)),
        r <= 12,
{
    let mut n: usize = 0;
    let mut p: usize = 0;
    while p < 12
        invariant
            p <= 12,
            n <= p,
            hist@.len() == 12,
            n == present_upto(counts(hist@), p as int),
        decreases 12 - p,
    {
        if hist[p] > 0 {
            n += 1;
        }
        p += 1;
    }
    n
}

/// Covered notes and present in-scale pitch classes of `scale` on `root`.
fn fit_counts(hist: &[u64], root: u8, scale: Scale, ivs: &Vec<u8>) -> (r: (u128, u128))
    requires
        root < 12,
        ivs@ == intervals(scale),
        hist@.len() == 12,
    ensures
        r.0 == covered(counts(hist@), root as int, scale),
        r.0 <= 12 * 0x1_0000_0000_0000_0000,
        r.1 == present_in_scale(counts(hist@), root as int, scale),
        r.1 <= 12,
{
    let ghost r_int = root as int;
    let mut cov: u128 = 0;
    let mut pin: u128 = 0;
    let mut p: usize = 0;
    while p < 12
        invariant
            p <= 12,
            root < 12,
            r_int == root as int,
            ivs@ == intervals(scale),
            hist@.len() == 12,
            cov == covered_upto(counts(hist@), r_int, scale, p as int),
            cov <= p * 0x1_0000_0000_0000_0000,
            pin == present_in_scale_upto(counts(hist@), r_int, scale, p as int),
            pin <= p,
        decreases 12 - p,
    {
        let d: u8 = ((p + 12 - root as usize) % 12) as u8;
        assert(d as int == ((p as int - r_int) % 12) as u8);
        let member = contains_interval(ivs, d);
        assert(member == in_scale(r_int, scale, p as int));
        let h = hist[p];
        if member {
            cov = cov + h as u128;
            if h > 0 {
                pin = pin + 1;
            }
        }
        p += 1;
    }
    (cov, pin)
}

/// How many of the scale's own notes are present.
fn notes_present_count(hist: &[u64], root: u8, scale: Scale, ivs: &Vec<u8>) -> (r: u128)
    requires
        root < 12,
        ivs@ == intervals(scale),
        hist@.len() == 12,
    ensures
        r == scale_notes_present(counts(hist@), root as int, scale),
        r <= 8,
{
    proof {
        lemma_intervals_len(scale);
    }
    let ghost r_int = root as int;
    let mut snp: u128 = 0;
    let mut k: usize = 0;
    while k < ivs.len()
        invariant
            k <= ivs@.len(),
            ivs@.len() <= 8,
            root < 12,
            r_int == root as int,
            ivs@ == intervals(scale),
            hist@.len() == 12,
            forall|j: int| 0 <= j < ivs@.len() ==> #[trigger] ivs@[j] < 12,
            snp == scale_notes_present_upto(counts(hist@), r_int, scale, k as int),
            snp <= k,
        decreases ivs@.len() - k,
    {
        let idx = ((root as usize) + (ivs[k] as usize)) % 12;
        if hist[idx] > 0 {
            snp = snp + 1;
        }
        k += 1;
    }
    snp
}

/// The score and the guess of candidate `c`, or `None` when none of the
/// notes falls in its scale.
fn candidate(pcs: &Vec<u8>, hist: &Vec<u64>, present_count: usize, c: usize) -> (r: Option<
    (u128, KeyGuess),
>)
    requires
        c < 168,
        pcs@.len() > 0,
        forall|k: int| 0 <= k < pcs@.len() ==> pcs@[k] < 12,
        hist@.len() == 12,
        counts(hist@) == weights(pcs@),
        present_count == present(weights(pcs@)),
        present_count <= 12,
    ensures
        r is Some <==> offered(pcs@, c as int),
        r matches Some((sc, g)) ==> sc == cand_score(pcs@, c as int) && g == guess_for(pcs@, c as int),
{
    let root: u8 = (c / 14) as u8;
    let scale = scale_at_exec(c % 14);
    let ghost r_int = root as int;
    assert(r_int == cand_root(c as int));
    assert(scale == cand_scale(c as int));
    let ivs = scale_intervals(scale);
    let (cov, pin) = fit_counts(hist.as_slice(), root, scale, &ivs);
    if cov == 0 {
        return None;
    }
    let snp = notes_present_count(hist.as_slice(), root, scale, &ivs);
    proof {
        lemma_intervals_len(scale);
        assert(840int / (ivs@.len() as int) <= 168) by (nonlinear_arith)
            requires
                ivs@.len() >= 5,
        ;
        lemma_weights_nonneg(pcs@);
        lemma_covered_le_total(weights(pcs@), r_int, scale, 12);
        lemma_total_weights(pcs@);
    }
    let lf: u128 = (840 / ivs.len()) as u128;
    let prior: u128 = match to_key_signature(root, scale) {
        Some(key) => if key.key < 0 {
            (200 + key.key as i16) as u128
        } else {
            (200 - key.key as i16) as u128
        },
        None => 198,
    };
    assert(prior == prior_num(r_int, scale));
    let sc = weighted_score(cov, pin, snp, pcs.len() as u128, present_count as u128, lf, prior);
    let g = KeyGuess {
        root: PitchClass(root),
        scale,
        covered_notes: cov as usize,
        total_notes: pcs.len(),
        in_scale_classes: pin as usize,
        present_classes: present_count,
    };
    Some((sc, g))
}

/// The competing score of candidate `c`, or `None` when it does not compete.
fn evaluate(pcs: &Vec<u8>, hist: &Vec<u64>, present_count: usize, c: usize) -> (r: Option<u128>)
    requires
        c < 168,
        pcs@.len() > 0,
        forall|k: int| 0 <= k < pcs@.len() ==> pcs@[k] < 12,
        hist@.len() == 12,
        counts(hist@) == weights(pcs@),
        present_count == present(weights(pcs@)),
        present_count <= 12,
    ensures
        r is Some <==> eligible(pcs@, c as int),
        r is Some ==> r->0 == cand_score(pcs@, c as int),
{
    let root: u8 = (c / 14) as u8;
    let scale = scale_at_exec(c % 14);
    if to_key_signature(root, scale).is_none() {
        return None;
    }
    match candidate(pcs, hist, present_count, c) {
        Some((sc, _)) => Some(sc),
        None => None,
    }
}

/// The key signature of a measure's best competing candidate, if any.
fn measure_key(md: &MeasureData, strings: &[(i8, i8)]) -> (r: Option<KeySignature>)
    ensures
        r == best_key(measure_pcs(*md, strings@)),
{
    let pcs = collect_measure_pcs(md, strings);
    let ghost ps = pcs@;
    if pcs.len() == 0 {
        assert(!exists|c: int| is_best(ps, c));
        return None;
    }
    proof {
        lemma_pcs_range(*md, strings@);
    }
    let hist = histogram(&pcs);
    let present_count = count_present(hist.as_slice());
    let mut best: Option<(usize, u128)> = None;
    let mut c: usize = 0;
    while c < 168
        invariant
            c <= 168,
            ps == pcs@,
            ps.len() > 0,
            forall|k: int| 0 <= k < ps.len() ==> ps[k] < 12,
            hist@.len() == 12,
            counts(hist@) == weights(ps),
            present_count == present(weights(ps)),
            present_count <= 12,
            best is None ==> forall|d: int| 0 <= d < c ==> !#[trigger] eligible(ps, d),
            best is Some ==> {
                let (b, sc) = best->0;
                &&& b < c
                &&& eligible(ps, b as int)
                &&& sc == cand_score(ps, b as int)
                &&& forall|d: int|
                    0 <= d < c && #[trigger] eligible(ps, d) ==> cand_score(ps, d) <= sc
                &&& forall|d: int|
                    0 <= d < b && #[trigger] eligible(ps, d) ==> cand_score(ps, d) < sc
            },
        decreases 168 - c,
    {
        match evaluate(&pcs, &hist, present_count, c) {
            Some(sc) => {
                let better = match best {
                    None => true,
                    Some((_, bsc)) => sc > bsc,
                };
                if better {
                    best = Some((c, sc));
                }
            },
            None => {},
        }
        c += 1;
    }
    match best {
        None => {
            assert(!exists|c: int| is_best(ps, c));
            None
        },
        Some((b, _)) => {
            assert(is_best(ps, b as int));
            proof {
                let w = choose|c: int| is_best(ps, c);
                lemma_best_unique(ps, w, b as int);
            }
            let root: u8 = (b / 14) as u8;
            let scale = scale_at_exec(b % 14);
            to_key_signature(root, scale)
        },
    }
}

// ---------------------------------------------------------------------------
// Ranked guesses
// ---------------------------------------------------------------------------

/// The coverage and purity of a scale against a histogram, as fractions:
/// coverage is `covered_notes / total_notes`, purity is `in_scale_classes /
/// present_classes`.
#[derive(Debug, Clone, Copy, PartialEq, Eq, Structural)]
pub struct ScaleFit {
    pub covered_notes: u128,
    pub total_notes: u128,
    pub in_scale_classes: u128,
    pub present_classes: u128,
}

/// Score `(root, scale)` against a pitch-class histogram (`hist[p]` notes
/// of pitch class `p`); the root is taken modulo 12.
pub fn score_scale(hist: &[u64; 12], root: u8, scale: Scale) -> (r: ScaleFit)
    ensures
        r.covered_notes == covered(counts(hist@), (root % 12) as int, scale),
        r.total_notes == total(counts(hist@)),
        r.in_scale_classes == present_in_scale(counts(hist@), (root % 12) as int, scale),
        r.present_classes == present(counts(hist@)),
{
    let h: &[u64] = hist.as_slice();
    let mut t: u128 = 0;
    let mut p: usize = 0;
    while p < 12
        invariant
            p <= 12,
            h@ == hist@,
            h@.len() == 12,
            t == total_upto(counts(h@), p as int),
            t <= p * 0x1_0000_0000_0000_0000,
        decreases 12 - p,
    {
        t = t + h[p] as u128;
        p += 1;
    }
    let ivs = scale_intervals(scale);
    let (cov, pin) = fit_counts(h, root % 12, scale, &ivs);
    let present_count = count_present(h);
    ScaleFit {
        covered_notes: cov,
        total_notes: t,
        in_scale_classes: pin,
        present_classes: present_count as u128,
    }
}

/// Pitch classes of the sounding notes of `beats`.
fn collect_beats_pcs(beats: &[&Beat], strings: &[(i8, i8)]) -> (r: Vec<u8>)
    ensures
        r@ == beat_refs_pcs(beats@, strings@),
{
    let ghost bs = beats@.map_values(|b: &Beat| *b);
    let mut out: Vec<u8> = Vec::new();
    let mut i: usize = 0;
    while i < beats.len()
        invariant
            i <= beats@.len(),
            bs == beats@.map_values(|b: &Beat| *b),
            out@ == beats_pcs(bs.take(i as int), strings@),
        decreases beats@.len() - i,
    {
        assert(bs.take(i + 1).drop_last() =~= bs.take(i as int));
        assert(bs.take(i + 1).last() == *beats@[i as int]);
        push_beat_pcs(beats[i], strings, &mut out);
        i += 1;
    }
    assert(bs.take(i as int) =~= bs);
    out
}

proof fn lemma_guess_cand(pcs: Seq<u8>, c: int)
    requires
        0 <= c < 168,
    ensures
        guess_cand(guess_for(pcs, c)) == c,
{
    let i = c % 14;
    assert(scale_index(scale_at(i)) == i);
}

proof fn lemma_beat_refs_pcs_range(beats: Seq<&Beat>, strings: Seq<(i8, i8)>)
    ensures
        forall|k: int|
            0 <= k < beat_refs_pcs(beats, strings).len() ==> #[trigger] beat_refs_pcs(beats, strings)[k]
                < 12,
{
    lemma_beats_pcs_range(beats.map_values(|b: &Beat| *b), strings);
}

/// Infer the likely keys and scales of a passage.
///
/// Every `(root, scale)` pair under which some note falls is returned, from
/// most to least likely (by score, earlier pairs first among equals);
/// nothing when the passage has no sounding note.
pub fn guess_key(beats: &[&Beat], strings: &[(i8, i8)]) -> (r: Vec<KeyGuess>)
    ensures
        forall|i: int|
            0 <= i < r@.len() ==> offered(beat_refs_pcs(beats@, strings@), guess_cand(#[trigger] r@[i]))
                && r@[i] == guess_for(beat_refs_pcs(beats@, strings@), guess_cand(r@[i])),
        forall|i: int, j: int|
            0 <= i < j < r@.len() ==> ranks_before(
                beat_refs_pcs(beats@, strings@),
                guess_cand(#[trigger] r@[i]),
                guess_cand(#[trigger] r@[j]),
            ),
        forall|c: int|
            #[trigger] offered(beat_refs_pcs(beats@, strings@), c) ==> exists|i: int|
                0 <= i < r@.len() && guess_cand(r@[i]) == c,
{
    let pcs = collect_beats_pcs(beats, strings);
    let ghost ps = pcs@;
    if pcs.len() == 0 {
        return Vec::new();
    }
    proof {
        lemma_beat_refs_pcs_range(beats@, strings@);
    }
    let hist = histogram(&pcs);
    let present_count = count_present(hist.as_slice());
    let mut ranked: Vec<(u128, KeyGuess)> = Vec::new();
    let mut c: usize = 0;
    while c < 168
        invariant
            c <= 168,
            ps == pcs@,
            ps.len() > 0,
            forall|k: int| 0 <= k < ps.len() ==> ps[k] < 12,
            hist@.len() == 12,
            counts(hist@) == weights(ps),
            present_count == present(weights(ps)),
            present_count <= 12,
            forall|i: int| 0 <= i < ranked@.len() ==> ranked_entry(ps, #[trigger] ranked@[i], c as int),
            ranked_sorted(ps, ranked@),
            forall|d: int|
                0 <= d < c && #[trigger] offered(ps, d) ==> exists|i: int|
                    0 <= i < ranked@.len() && guess_cand(ranked@[i].1) == d,
        decreases 168 - c,
    {
        match candidate(&pcs, &hist, present_count, c) {
            Some((sc, g)) => {
                proof {
                    lemma_guess_cand(ps, c as int);
                }
                let mut j: usize = 0;
                while j < ranked.len() && ranked[j].0 >= sc
                    invariant
                        j <= ranked@.len(),
                        forall|k: int| 0 <= k < j ==> (#[trigger] ranked@[k]).0 >= sc,
                    decreases ranked@.len() - j,
                {
                    j += 1;
                }
                let ghost old_r = ranked@;
                ranked.insert(j, (sc, g));
                proof {
                    lemma_insert_ranked(ps, old_r, ranked@, j as int, sc, g, c as int);
                }
            },
            None => {},
        }
        c += 1;
    }
    let mut out: Vec<KeyGuess> = Vec::new();
    let mut i: usize = 0;
    while i < ranked.len()
        invariant
            i <= ranked@.len(),
            out@.len() == i,
            forall|k: int| 0 <= k < i ==> #[trigger] out@[k] == ranked@[k].1,
        decreases ranked@.len() - i,
    {
        out.push(ranked[i].1);
        i += 1;
    }
    assert forall|d: int| #[trigger] offered(ps, d) implies exists|k: int|
        0 <= k < out@.len() && guess_cand(out@[k]) == d by {
        let k = choose|k: int| 0 <= k < ranked@.len() && guess_cand(ranked@[k].1) == d;
        assert(out@[k] == ranked@[k].1);
    }
    assert forall|a: int, b: int| 0 <= a < b < out@.len() implies ranks_before(
        ps,
        guess_cand(#[trigger] out@[a]),
        guess_cand(#[trigger] out@[b]),
    ) by {
        assert(out@[a] == ranked@[a].1);
        assert(out@[b] == ranked@[b].1);
    }
    assert forall|a: int| 0 <= a < out@.len() implies offered(ps, guess_cand(#[trigger] out@[a]))
        && out@[a] == guess_for(ps, guess_cand(out@[a])) by {
        assert(out@[a] == ranked@[a].1);
        assert(ranked_entry(ps, ranked@[a], 168));
    }
    out
}

/// An entry of the ranking: offered candidate `guess_cand(e.1)`, below
/// `bound`, with its guess and score.
pub open spec fn ranked_entry(ps: Seq<u8>, e: (u128, KeyGuess), bound: int) -> bool {
    &&& offered(ps, guess_cand(e.1))
    &&& guess_cand(e.1) < bound
    &&& e.1 == guess_for(ps, guess_cand(e.1))
    &&& e.0 == cand_score(ps, guess_cand(e.1))
}

/// The entries are in ranking order.
pub open spec fn ranked_sorted(ps: Seq<u8>, r: Seq<(u128, KeyGuess)>) -> bool {
    forall|i: int, k: int|
        0 <= i < k < r.len() ==> ranks_before(
            ps,
            guess_cand((#[trigger] r[i]).1),
            guess_cand((#[trigger] r[k]).1),
        )
}

/// Inserting candidate `c`'s entry before the first entry of lower score
/// keeps the ranking sorted and complete.
proof fn lemma_insert_ranked(
    ps: Seq<u8>,
    old_r: Seq<(u128, KeyGuess)>,
    new_r: Seq<(u128, KeyGuess)>,
    j: int,
    sc: u128,
    g: KeyGuess,
    c: int,
)
    requires
        0 <= j <= old_r.len(),
        new_r == old_r.insert(j, (sc, g)),
        offered(ps, c),
        guess_cand(g) == c,
        g == guess_for(ps, c),
        sc == cand_score(ps, c),
        forall|k: int| 0 <= k < j ==> (#[trigger] old_r[k]).0 >= sc,
        j < old_r.len() ==> old_r[j].0 < sc,
        forall|i: int| 0 <= i < old_r.len() ==> ranked_entry(ps, #[trigger] old_r[i], c),
        ranked_sorted(ps, old_r),
        forall|d: int|
            0 <= d < c && #[trigger] offered(ps, d) ==> exists|i: int|
                0 <= i < old_r.len() && guess_cand(old_r[i].1) == d,
    ensures
        forall|i: int| 0 <= i < new_r.len() ==> ranked_entry(ps, #[trigger] new_r[i], c + 1),
        ranked_sorted(ps, new_r),
        forall|d: int|
            0 <= d < c + 1 && #[trigger] offered(ps, d) ==> exists|i: int|
                0 <= i < new_r.len() && guess_cand(new_r[i].1) == d,
{
    assert forall|i: int| 0 <= i < new_r.len() implies ranked_entry(ps, #[trigger] new_r[i], c + 1) by {
        if i < j {
            assert(new_r[i] == old_r[i]);
            assert(ranked_entry(ps, old_r[i], c));
        } else if i > j {
            assert(new_r[i] == old_r[i - 1]);
            assert(ranked_entry(ps, old_r[i - 1], c));
        }
    }
    lemma_insert_sorted(ps, old_r, new_r, j, sc, g, c);
    assert forall|d: int| 0 <= d < c + 1 && #[trigger] offered(ps, d) implies exists|i: int|
        0 <= i < new_r.len() && guess_cand(new_r[i].1) == d by {
        if d == c {
            assert(new_r[j].1 == g);
        } else {
            let i = choose|i: int| 0 <= i < old_r.len() && guess_cand(old_r[i].1) == d;
            if i < j {
                assert(new_r[i] == old_r[i]);
            } else {
                assert(new_r[i + 1] == old_r[i]);
            }
        }
    }
}

proof fn lemma_insert_sorted(
    ps: Seq<u8>,
    old_r: Seq<(u128, KeyGuess)>,
    new_r: Seq<(u128, KeyGuess)>,
    j: int,
    sc: u128,
    g: KeyGuess,
    c: int,
)
    requires
        0 <= j <= old_r.len(),
        new_r == old_r.insert(j, (sc, g)),
        guess_cand(g) == c,
        sc == cand_score(ps, c),
        forall|k: int| 0 <= k < j ==> (#[trigger] old_r[k]).0 >= sc,
        j < old_r.len() ==> old_r[j].0 < sc,
        forall|i: int| 0 <= i < old_r.len() ==> ranked_entry(ps, #[trigger] old_r[i], c),
        ranked_sorted(ps, old_r),
    ensures
        ranked_sorted(ps, new_r),
{
    assert forall|a: int, b: int| 0 <= a < b < new_r.len() implies ranks_before(
        ps,
        guess_cand((#[trigger] new_r[a]).1),
        guess_cand((#[trigger] new_r[b]).1),
    ) by {
        if b < j {
            assert(new_r[a] == old_r[a]);
            assert(new_r[b] == old_r[b]);
        } else if b == j {
            assert(new_r[a] == old_r[a]);
            assert(ranked_entry(ps, old_r[a], c));
            assert(old_r[a].0 >= sc);
        } else if a < j {
            assert(new_r[a] == old_r[a]);
            assert(new_r[b] == old_r[b - 1]);
        } else if a == j {
            assert(new_r[b] == old_r[b - 1]);
            assert(ranked_entry(ps, old_r[b - 1], c));
            assert(ranked_entry(ps, old_r[j], c));
            if b - 1 > j {
                assert(ranks_before(ps, guess_cand(old_r[j].1), guess_cand(old_r[b - 1].1)));
            }
            assert(old_r[b - 1].0 < sc);
        } else {
            assert(new_r[a] == old_r[a - 1]);
            assert(new_r[b] == old_r[b - 1]);
        }
    }
}

// ---------------------------------------------------------------------------
// Smoothing and change events
// ---------------------------------------------------------------------------

/// The key of every measure, in track order.
pub open spec fn measure_keys(ms: Seq<MeasureData>, strings: Seq<(i8, i8)>) -> Seq<
    Option<KeySignature>,
> {
    Seq::new(ms.len(), |i: int| best_key(measure_pcs(ms[i], strings)))
}

/// Position `i` is a single-measure transient: keyed differently from both
/// keyed neighbours, which agree.
pub open spec fn transient(keys: Seq<Option<KeySignature>>, i: int) -> bool {
    &&& 1 <= i
    &&& i + 1 < keys.len()
    &&& keys[i - 1] is Some
    &&& keys[i] is Some
    &&& keys[i + 1] is Some
    &&& keys[i - 1] != keys[i]
    &&& keys[i + 1] == keys[i - 1]
}

/// Keys with single-measure transients replaced by the preceding key.
pub open spec fn smooth(keys: Seq<Option<KeySignature>>) -> Seq<Option<KeySignature>> {
    Seq::new(
        keys.len(),
        |i: int|
            if transient(keys, i) {
                keys[i - 1]
            } else {
                keys[i]
            },
    )
}

/// The change events over the first `n` keys: one wherever a key differs
/// from the last key announced; the first key announced is placed at
/// measure 0, the start of the track.
pub open spec fn key_changes(keys: Seq<Option<KeySignature>>, n: int) -> Seq<KeyChange>
    decreases n,
{
    if n <= 0 {
        Seq::empty()
    } else {
        let prev = key_changes(keys, n - 1);
        match keys[n - 1] {
            Some(k) => if prev.len() == 0 {
                prev.push(KeyChange { at_measure: 0, key: k })
            } else if prev.last().key != k {
                prev.push(KeyChange { at_measure: (n - 1) as usize, key: k })
            } else {
                prev
            },
            None => prev,
        }
    }
}

/// Suppress single-measure transients.
fn smooth_key_sequence(seq: &Vec<Option<KeySignature>>) -> (r: Vec<Option<KeySignature>>)
    ensures
        r@ == smooth(seq@),
{
    let n = seq.len();
    let mut result: Vec<Option<KeySignature>> = Vec::new();
    let mut i: usize = 0;
    while i < n
        invariant
            i <= n,
            n == seq@.len(),
            result@.len() == i,
            forall|j: int| 0 <= j < i ==> #[trigger] result@[j] == smooth(seq@)[j],
        decreases n - i,
    {
        let mut v = seq[i];
        if i >= 1 && n - i >= 2 {
            match (seq[i - 1], seq[i], seq[i + 1]) {
                (Some(p), Some(c), Some(nx)) => {
                    if p != c && nx == p {
                        v = Some(p);
                    }
                },
                _ => {},
            }
        }
        result.push(v);
        i += 1;
    }
    assert(result@ =~= smooth(seq@));
    result
}

/// Derive a timeline of key-signature changes from a track.
///
/// Per-measure keys are smoothed (single-measure transients are suppressed)
/// before boundaries are emitted.  The first entry is always at
/// `at_measure = 0` when at least one measure exists and has notes.
pub fn detect_key_changes(track: &Track, strings: &[(i8, i8)]) -> (r: Vec<KeyChange>)
    ensures
        r@ == key_changes(
            smooth(measure_keys(track.measures@, strings@)),
            track.measures@.len() as int,
        ),
{
    let n = track.measures.len();
    let ghost ms = track.measures@;
    let mut per_measure: Vec<Option<KeySignature>> = Vec::new();
    let mut i: usize = 0;
    while i < n
        invariant
            i <= n,
            n == ms.len(),
            ms == track.measures@,
            per_measure@.len() == i,
            forall|j: int|
                0 <= j < i ==> #[trigger] per_measure@[j] == measure_keys(ms, strings@)[j],
        decreases n - i,
    {
        let k = measure_key(&track.measures[i], strings);
        per_measure.push(k);
        i += 1;
    }
    assert(per_measure@ =~= measure_keys(ms, strings@));
    let smoothed = smooth_key_sequence(&per_measure);
    let ghost sm = smoothed@;
    let mut result: Vec<KeyChange> = Vec::new();
    let mut current: Option<KeySignature> = None;
    let mut j: usize = 0;
    while j < n
        invariant
            j <= n,
            n == sm.len(),
            sm == smoothed@,
            result@ == key_changes(sm, j as int),
            current is None <==> result@.len() == 0,
            current is Some ==> result@.len() > 0 && current->0 == result@.last().key,
        decreases n - j,
    {
        match smoothed[j] {
            Some(ks) => {
                let differs = match current {
                    None => true,
                    Some(c) => c != ks,
                };
                if differs {
                    let at = if result.len() == 0 {
                        0
                    } else {
                        j
                    };
                    result.push(KeyChange { at_measure: at, key: ks });
                    current = Some(ks);
                }
            },
            None => {},
        }
        j += 1;
    }
    result
}

// ---------------------------------------------------------------------------
// Laws
// ---------------------------------------------------------------------------

/// Among the first `n` candidates, one competes: then there is a best one
/// among them.
proof fn lemma_prefix_best(pcs: Seq<u8>, n: int) -> (b: int)
    requires
        exists|c: int| 0 <= c < n && #[trigger] eligible(pcs, c),
    ensures
        0 <= b < n,
        eligible(pcs, b),
        forall|d: int| 0 <= d < n && #[trigger] eligible(pcs, d) ==> cand_score(pcs, d) <= cand_score(
            pcs,
            b,
        ),
        forall|d: int| 0 <= d < b && #[trigger] eligible(pcs, d) ==> cand_score(pcs, d) < cand_score(
            pcs,
            b,
        ),
    decreases n,
{
    if exists|c: int| 0 <= c < n - 1 && #[trigger] eligible(pcs, c) {
        let b1 = lemma_prefix_best(pcs, n - 1);
        if eligible(pcs, n - 1) && cand_score(pcs, n - 1) > cand_score(pcs, b1) {
            n - 1
        } else {
            b1
        }
    } else {
        n - 1
    }
}

/// A measure with at least one sounding note has a key: the major scale on
/// the pitch class of its first note competes.
pub proof fn lemma_sounding_measure_has_key(pcs: Seq<u8>)
    requires
        pcs.len() > 0,
        forall|k: int| 0 <= k < pcs.len() ==> #[trigger] pcs[k] < 12,
    ensures
        best_key(pcs) is Some,
{
    let p0 = pcs[0] as int;
    let c = p0 * 14;
    assert(cand_root(c) == p0);
    assert(cand_scale(c) == Scale::Major);
    lemma_weight_positive(pcs, 0);
    assert(in_scale(p0, Scale::Major, p0)) by {
        assert(intervals(Scale::Major)[0] == 0u8);
    }
    lemma_weights_nonneg(pcs);
    lemma_covered_positive(weights(pcs), p0, Scale::Major, p0, 12);
    assert(eligible(pcs, c));
    let b = lemma_prefix_best(pcs, 168);
    assert(is_best(pcs, b));
}

proof fn lemma_weight_positive(pcs: Seq<u8>, k: int)
    requires
        0 <= k < pcs.len(),
    ensures
        weight(pcs, pcs[k] as int) > 0,
{
    lemma_prefix_weight_positive(pcs, pcs.len() as int, k);
}

proof fn lemma_prefix_weight_positive(pcs: Seq<u8>, n: int, k: int)
    requires
        0 <= k < n,
    ensures
        prefix_weight(pcs, n, pcs[k] as int) > 0,
    decreases n,
{
    if k < n - 1 {
        lemma_prefix_weight_positive(pcs, n - 1, k);
        lemma_prefix_weight_bounds(pcs, n - 1, pcs[k] as int);
    } else {
        lemma_prefix_weight_bounds(pcs, n - 1, pcs[k] as int);
    }
}

proof fn lemma_covered_positive(h: Seq<int>, root: int, s: Scale, p: int, n: int)
    requires
        0 <= p < n,
        in_scale(root, s, p),
        h[p] > 0,
        forall|q: int| 0 <= q < n ==> #[trigger] h[q] >= 0,
    ensures
        covered_upto(h, root, s, n) > 0,
    decreases n,
{
    lemma_covered_nonneg(h, root, s, n - 1);
    if p < n - 1 {
        lemma_covered_positive(h, root, s, p, n - 1);
    }
}

proof fn lemma_covered_nonneg(h: Seq<int>, root: int, s: Scale, n: int)
    requires
        forall|q: int| 0 <= q < n ==> #[trigger] h[q] >= 0,
    ensures
        covered_upto(h, root, s, n) >= 0,
    decreases n,
{
    if n > 0 {
        lemma_covered_nonneg(h, root, s, n - 1);
    }
}

proof fn lemma_covered_le_total(h: Seq<int>, root: int, s: Scale, n: int)
    requires
        forall|q: int| 0 <= q < n ==> #[trigger] h[q] >= 0,
    ensures
        covered_upto(h, root, s, n) <= total_upto(h, n),
    decreases n,
{
    if n > 0 {
        lemma_covered_le_total(h, root, s, n - 1);
    }
}

proof fn lemma_weights_nonneg(pcs: Seq<u8>)
    ensures
        forall|q: int| 0 <= q < 12 ==> #[trigger] weights(pcs)[q] >= 0,
{
    assert forall|q: int| 0 <= q < 12 implies #[trigger] weights(pcs)[q] >= 0 by {
        lemma_prefix_weight_bounds(pcs, pcs.len() as int, q);
    }
}

/// Counts of pitch classes `0..m` among the first `n` notes.
spec fn prefix_total(pcs: Seq<u8>, n: int, m: int) -> int
    decreases m,
{
    if m <= 0 {
        0
    } else {
        prefix_total(pcs, n, m - 1) + prefix_weight(pcs, n, m - 1)
    }
}

proof fn lemma_prefix_total_step(pcs: Seq<u8>, n: int, m: int)
    requires
        1 <= n <= pcs.len(),
        0 <= m,
    ensures
        prefix_total(pcs, n, m) == prefix_total(pcs, n - 1, m) + if pcs[n - 1] < m {
            1int
        } else {
            0int
        },
    decreases m,
{
    if m > 0 {
        lemma_prefix_total_step(pcs, n, m - 1);
    }
}

proof fn lemma_prefix_total(pcs: Seq<u8>, n: int)
    requires
        0 <= n <= pcs.len(),
        forall|k: int| 0 <= k < pcs.len() ==> pcs[k] < 12,
    ensures
        prefix_total(pcs, n, 12) == n,
    decreases n,
{
    if n == 0 {
        lemma_prefix_total_zero(pcs, 12);
    } else {
        lemma_prefix_total(pcs, n - 1);
        lemma_prefix_total_step(pcs, n, 12);
    }
}

proof fn lemma_prefix_total_zero(pcs: Seq<u8>, m: int)
    ensures
        prefix_total(pcs, 0, m) == 0,
    decreases m,
{
    if m > 0 {
        lemma_prefix_total_zero(pcs, m - 1);
    }
}

proof fn lemma_total_upto_weights(pcs: Seq<u8>, m: int)
    requires
        0 <= m <= 12,
    ensures
        total_upto(weights(pcs), m) == prefix_total(pcs, pcs.len() as int, m),
    decreases m,
{
    if m > 0 {
        lemma_total_upto_weights(pcs, m - 1);
    }
}

/// The histogram of `pcs` counts every note once.
proof fn lemma_total_weights(pcs: Seq<u8>)
    requires
        forall|k: int| 0 <= k < pcs.len() ==> pcs[k] < 12,
    ensures
        total(weights(pcs)) == pcs.len(),
{
    lemma_total_upto_weights(pcs, 12);
    lemma_prefix_total(pcs, pcs.len() as int);
}

proof fn lemma_changes_start(keys: Seq<Option<KeySignature>>, n: int, m: int)
    requires
        0 <= m < n <= keys.len(),
        keys.len() <= usize::MAX,
        keys[m] is Some,
    ensures
        key_changes(keys, n).len() > 0,
        key_changes(keys, n)[0].at_measure == 0,
    decreases n,
{
    let prev = key_changes(keys, n - 1);
    if m < n - 1 {
        lemma_changes_start(keys, n - 1, m);
        match keys[n - 1] {
            Some(k) => {
                if prev.len() != 0 && prev.last().key != k {
                    let next = prev.push(KeyChange { at_measure: (n - 1) as usize, key: k });
                    assert(next[0] == prev[0]);
                }
            },
            None => {},
        }
    } else {
        let k = keys[n - 1]->0;
        if prev.len() == 0 {
            let next = prev.push(KeyChange { at_measure: 0usize, key: k });
            assert(next[0].at_measure == 0);
        } else {
            lemma_changes_first_at_zero(keys, n - 1);
            if prev.last().key != k {
                let next = prev.push(KeyChange { at_measure: (n - 1) as usize, key: k });
                assert(next[0] == prev[0]);
            }
        }
    }
}

/// Whenever a change is announced, the first one is at measure 0.
proof fn lemma_changes_first_at_zero(keys: Seq<Option<KeySignature>>, n: int)
    requires
        0 <= n <= keys.len(),
        key_changes(keys, n).len() > 0,
    ensures
        key_changes(keys, n)[0].at_measure == 0,
    decreases n,
{
    let prev = key_changes(keys, n - 1);
    if n > 0 && prev.len() > 0 {
        lemma_changes_first_at_zero(keys, n - 1);
        match keys[n - 1] {
            Some(k) => {
                if prev.last().key != k {
                    let next = prev.push(KeyChange { at_measure: (n - 1) as usize, key: k });
                    assert(next[0] == prev[0]);
                }
            },
            None => {},
        }
    }
}

/// Consecutive change events announce different keys at strictly
/// increasing positions, all within the track.
pub open spec fn changes_well_ordered(changes: Seq<KeyChange>, n: int) -> bool {
    &&& forall|k: int| 0 <= k < changes.len() ==> #[trigger] changes[k].at_measure < n
    &&& forall|k: int|
        0 <= k < changes.len() - 1 ==> #[trigger] changes[k].at_measure < changes[k
            + 1].at_measure && changes[k].key != changes[k + 1].key
}

proof fn lemma_changes_ordered(keys: Seq<Option<KeySignature>>, n: int)
    requires
        0 <= n <= keys.len(),
        keys.len() <= usize::MAX,
    ensures
        changes_well_ordered(key_changes(keys, n), n),
    decreases n,
{
    if n > 0 {
        lemma_changes_ordered(keys, n - 1);
        let prev = key_changes(keys, n - 1);
        match keys[n - 1] {
            Some(k) => {
                if prev.len() == 0 || prev.last().key != k {
                    let next = prev.push(KeyChange { at_measure: (n - 1) as usize, key: k });
                    assert forall|j: int| 0 <= j < next.len() implies #[trigger] next[j].at_measure
                        < n by {
                        if j < prev.len() {
                            assert(next[j] == prev[j]);
                        }
                    }
                    assert forall|j: int| 0 <= j < next.len() - 1 implies #[trigger] next[j].at_measure
                        < next[j + 1].at_measure && next[j].key != next[j + 1].key by {
                        assert(next[j] == prev[j]);
                        if j + 1 < prev.len() {
                            assert(next[j + 1] == prev[j + 1]);
                        } else {
                            assert(prev[j].at_measure < n - 1);
                        }
                    }
                }
            },
            None => {},
        }
    }
}

/// The first key change of a track in which some measure has a sounding
/// note is at measure 0.
pub proof fn lemma_first_change_at_start(track: Track, strings: Seq<(i8, i8)>, m: int)
    requires
        0 <= m < track.measures@.len() <= usize::MAX,
        measure_pcs(track.measures@[m], strings).len() > 0,
    ensures
        ({
            let changes = key_changes(
                smooth(measure_keys(track.measures@, strings)),
                track.measures@.len() as int,
            );
            changes.len() > 0 && changes[0].at_measure == 0
        }),
{
    let ms = track.measures@;
    lemma_pcs_range(ms[m], strings);
    lemma_sounding_measure_has_key(measure_pcs(ms[m], strings));
    let raw = measure_keys(ms, strings);
    let keys = smooth(raw);
    assert(raw[m] is Some);
    assert(keys[m] is Some);
    lemma_changes_start(keys, ms.len() as int, m);
}

/// Key changes come in track order, each announcing a key different from
/// the one before it.
pub proof fn lemma_key_changes_ordered(track: Track, strings: Seq<(i8, i8)>)
    requires
        track.measures@.len() <= usize::MAX,
    ensures
        changes_well_ordered(
            key_changes(smooth(measure_keys(track.measures@, strings)), track.measures@.len() as int),
            track.measures@.len() as int,
        ),
{
    lemma_changes_ordered(smooth(measure_keys(track.measures@, strings)), track.measures@.len() as int);
}

/// A single-measure transient never yields a key change of its own: the
/// smoothed key at such a measure is the key of its neighbours.
pub proof fn lemma_transient_suppressed(keys: Seq<Option<KeySignature>>, i: int)
    requires
        transient(keys, i),
    ensures
        smooth(keys)[i] == keys[i - 1],
        smooth(keys)[i] == keys[i + 1],
{
}


/// The key signature of the major key on pitch class `root` is that key's
/// place on the circle of fifths: a count `k` of sharps (negative: flats)
/// with `-5 <= k <= 6` and `7 * k` congruent to `root` modulo 12 (so A major,
/// pitch class 9, has three sharps). The relative minor, three semitones
/// below, has the same signature, marked minor; a natural minor scale on
/// `root` has the signature of the major key three semitones above.
pub proof fn lemma_major_signature_on_circle_of_fifths(root: int)
    ensures
        key_signature_of(root, Scale::Major) is Some,
        !key_signature_of(root, Scale::Major)->0.is_minor,
        -5 <= key_signature_of(root, Scale::Major)->0.key <= 6,
        (7 * key_signature_of(root, Scale::Major)->0.key - root) % 12 == 0,
        key_signature_of((root + 9) % 12, Scale::NaturalMinor) == Some(
            KeySignature { key: key_signature_of(root, Scale::Major)->0.key, is_minor: true },
        ),
{
    let p = root % 12;
    assert(0 <= p < 12);
    assert((root + 0) % 12 == p);
    assert((((root + 9) % 12) + 3) % 12 == p);
    let k = key_signature_of(root, Scale::Major)->0.key;
    assert((7 * k - root) % 12 == (7 * k - p) % 12);
    if p == 0 { assert(k == 0); }
    else if p == 1 { assert(k == -5); }
    else if p == 2 { assert(k == 2); }
    else if p == 3 { assert(k == -3); }
    else if p == 4 { assert(k == 4); }
    else if p == 5 { assert(k == -1); }
    else if p == 6 { assert(k == 6); }
    else if p == 7 { assert(k == 1); }
    else if p == 8 { assert(k == -4); }
    else if p == 9 { assert(k == 3); }
    else if p == 10 { assert(k == -2); }
    else { assert(k == 5); }
}

} // verus!
