//! Chord name detection.
//!
//! The notes sounding on a beat are reduced to a pitch-class set; every
//! (root, template) pair whose root is present is scored by the pitch classes
//! it leaves unexplained (`extra`) and the template tones absent from the
//! input (`missing`).  The winner minimises `(extra, missing, -size, root)`,
//! earlier templates winning exact ties.  The lowest sounding note gives the
//! slash bass when it differs from the root.

use vstd::prelude::*;
use crate::counting::{count_below, lemma_count_below_bounds, lemma_count_below_is_set_len, lemma_count_below_zero};
use crate::model::{Beat, Note, find_open_string, open_string_pitch, pitch_step_semitone, step_semitone};

verus! {

/// A pitch class: 0 = C, 1 = C#/Db, ..., 11 = B.
#[derive(Debug, Clone, Copy, PartialEq, Eq, Structural, Hash)]
pub struct PitchClass(pub u8);

pub open spec fn sharp_name(pc: u8) -> Seq<char> {
    if pc == 0 { "C"@ }
    else if pc == 1 { "C#"@ }
    else if pc == 2 { "D"@ }
    else if pc == 3 { "D#"@ }
    else if pc == 4 { "E"@ }
    else if pc == 5 { "F"@ }
    else if pc == 6 { "F#"@ }
    else if pc == 7 { "G"@ }
    else if pc == 8 { "G#"@ }
    else if pc == 9 { "A"@ }
    else if pc == 10 { "A#"@ }
    else { "B"@ }
}

pub open spec fn flat_name(pc: u8) -> Seq<char> {
    if pc == 0 { "C"@ }
    else if pc == 1 { "Db"@ }
    else if pc == 2 { "D"@ }
    else if pc == 3 { "Eb"@ }
    else if pc == 4 { "E"@ }
    else if pc == 5 { "F"@ }
    else if pc == 6 { "Gb"@ }
    else if pc == 7 { "G"@ }
    else if pc == 8 { "Ab"@ }
    else if pc == 9 { "A"@ }
    else if pc == 10 { "Bb"@ }
    else { "B"@ }
}

impl PitchClass {
    /// Preferred sharp spelling (e.g. `"C#"`, `"F#"`), of the class modulo 12.
    pub fn name_sharp(self) -> (r: &'static str)
        ensures
            r@ == sharp_name(self.0 % 12),
    {
        let pc = self.0 % 12;
        if pc == 0 { "C" }
        else if pc == 1 { "C#" }
        else if pc == 2 { "D" }
        else if pc == 3 { "D#" }
        else if pc == 4 { "E" }
        else if pc == 5 { "F" }
        else if pc == 6 { "F#" }
        else if pc == 7 { "G" }
        else if pc == 8 { "G#" }
        else if pc == 9 { "A" }
        else if pc == 10 { "A#" }
        else { "B" }
    }

    /// Preferred flat spelling (e.g. `"Db"`, `"Gb"`), of the class modulo 12.
    pub fn name_flat(self) -> (r: &'static str)
        ensures
            r@ == flat_name(self.0 % 12),
    {
        let pc = self.0 % 12;
        if pc == 0 { "C" }
        else if pc == 1 { "Db" }
        else if pc == 2 { "D" }
        else if pc == 3 { "Eb" }
        else if pc == 4 { "E" }
        else if pc == 5 { "F" }
        else if pc == 6 { "Gb" }
        else if pc == 7 { "G" }
        else if pc == 8 { "Ab" }
        else if pc == 9 { "A" }
        else if pc == 10 { "Bb" }
        else { "B" }
    }

    /// Display text: the sharp spelling.
    pub fn to_string(&self) -> (r: String)
        ensures
            r@ == sharp_name(self.0 % 12),
    {
        String::from_str(self.name_sharp())
    }
}

/// Chord quality / type.
#[derive(Debug, Clone, Copy, PartialEq, Eq, Structural)]
pub enum ChordQuality {
    Major,
    Minor,
    Dim,
    Aug,
    Sus2,
    Sus4,
    Dom7,
    Maj7,
    Min7,
    MinMaj7,
    Dim7,
    HalfDim7,
    AugMaj7,
    Dom7Sus4,
    Add9,
    MinAdd9,
    Dom9,
    Maj9,
    Min9,
    /// Root and fifth only.
    Power,
}

pub open spec fn quality_suffix(q: ChordQuality) -> Seq<char> {
    match q {
        ChordQuality::Major => ""@,
        ChordQuality::Minor => "m"@,
        ChordQuality::Dom7 => "7"@,
        ChordQuality::Maj7 => "maj7"@,
        ChordQuality::Min7 => "m7"@,
        ChordQuality::MinMaj7 => "m(maj7)"@,
        ChordQuality::Sus2 => "sus2"@,
        ChordQuality::Sus4 => "sus4"@,
        ChordQuality::Dim => "dim"@,
        ChordQuality::Dim7 => "dim7"@,
        ChordQuality::HalfDim7 => "m7b5"@,
        ChordQuality::Aug => "aug"@,
        ChordQuality::AugMaj7 => "aug(maj7)"@,
        ChordQuality::Dom7Sus4 => "7sus4"@,
        ChordQuality::Add9 => "add9"@,
        ChordQuality::MinAdd9 => "madd9"@,
        ChordQuality::Dom9 => "9"@,
        ChordQuality::Maj9 => "maj9"@,
        ChordQuality::Min9 => "m9"@,
        ChordQuality::Power => "5"@,
    }
}

impl ChordQuality {
    /// The chord-symbol suffix of the quality (`""`, `"m"`, `"7"`, ...).
    pub fn suffix(&self) -> (r: &'static str)
        ensures
            r@ == quality_suffix(*self),
    {
        match self {
            ChordQuality::Major => "",
            ChordQuality::Minor => "m",
            ChordQuality::Dom7 => "7",
            ChordQuality::Maj7 => "maj7",
            ChordQuality::Min7 => "m7",
            ChordQuality::MinMaj7 => "m(maj7)",
            ChordQuality::Sus2 => "sus2",
            ChordQuality::Sus4 => "sus4",
            ChordQuality::Dim => "dim",
            ChordQuality::Dim7 => "dim7",
            ChordQuality::HalfDim7 => "m7b5",
            ChordQuality::Aug => "aug",
            ChordQuality::AugMaj7 => "aug(maj7)",
            ChordQuality::Dom7Sus4 => "7sus4",
            ChordQuality::Add9 => "add9",
            ChordQuality::MinAdd9 => "madd9",
            ChordQuality::Dom9 => "9",
            ChordQuality::Maj9 => "maj9",
            ChordQuality::Min9 => "m9",
            ChordQuality::Power => "5",
        }
    }

    /// Display text: the chord-symbol suffix.
    pub fn to_string(&self) -> (r: String)
        ensures
            r@ == quality_suffix(*self),
    {
        String::from_str(self.suffix())
    }
}

/// A recognised chord name.
#[derive(Debug, Clone, Copy, PartialEq, Eq, Structural)]
pub struct ChordName {
    /// Pitch class of the chord root.
    pub root: PitchClass,
    pub quality: ChordQuality,
    /// Lowest-note pitch class when it differs from the root (slash chord).
    pub bass: Option<PitchClass>,
    /// `true` when the best candidate is not a perfect match.
    pub uncertain: bool,
}

/// Display text of a chord name: root, suffix, `/bass`, and `?` when uncertain.
pub open spec fn chord_text(c: ChordName) -> Seq<char> {
    sharp_name(c.root.0 % 12) + quality_suffix(c.quality) + match c.bass {
        Some(b) => "/"@ + sharp_name(b.0 % 12),
        None => ""@,
    } + if c.uncertain {
        "?"@
    } else {
        ""@
    }
}

impl ChordName {
    /// Display text, e.g. `"G/B"`, `"Fm?"`.
    pub fn to_string(&self) -> (r: String)
        ensures
            r@ == chord_text(*self),
    {
        let mut s = String::from_str(self.root.name_sharp());
        s.append(self.quality.suffix());
        let ghost after_quality = s@;
        match self.bass {
            Some(b) => {
                s.append("/");
                s.append(b.name_sharp());
            },
            None => {
                proof { reveal_strlit(""); }
            },
        }
        let ghost after_bass = s@;
        if self.uncertain {
            s.append("?");
        }
        proof {
            reveal_strlit("");
            match self.bass {
                Some(b) => {
                    assert(after_bass =~= after_quality + ("/"@ + sharp_name(b.0 % 12)));
                },
                None => {
                    assert(after_bass =~= after_quality + ""@);
                },
            }
            if !self.uncertain {
                assert(s@ =~= after_bass + ""@);
            }
        }
        s
    }
}

// ---------------------------------------------------------------------------
// Templates
// ---------------------------------------------------------------------------

/// Number of chord templates.
pub open spec fn num_templates() -> int {
    20
}

/// Template `t`: its quality and its semitone intervals above the root,
/// ordered most specific first; the power chord is last.
pub open spec fn template(t: int) -> (ChordQuality, Seq<int>) {
    if t == 0 { (ChordQuality::Dom9, seq![0, 2, 4, 7, 10]) }
    else if t == 1 { (ChordQuality::Maj9, seq![0, 2, 4, 7, 11]) }
    else if t == 2 { (ChordQuality::Min9, seq![0, 2, 3, 7, 10]) }
    else if t == 3 { (ChordQuality::Maj7, seq![0, 4, 7, 11]) }
    else if t == 4 { (ChordQuality::Dom7, seq![0, 4, 7, 10]) }
    else if t == 5 { (ChordQuality::Min7, seq![0, 3, 7, 10]) }
    else if t == 6 { (ChordQuality::MinMaj7, seq![0, 3, 7, 11]) }
    else if t == 7 { (ChordQuality::Dim7, seq![0, 3, 6, 9]) }
    else if t == 8 { (ChordQuality::HalfDim7, seq![0, 3, 6, 10]) }
    else if t == 9 { (ChordQuality::AugMaj7, seq![0, 4, 8, 11]) }
    else if t == 10 { (ChordQuality::Dom7Sus4, seq![0, 5, 7, 10]) }
    else if t == 11 { (ChordQuality::Add9, seq![0, 2, 4, 7]) }
    else if t == 12 { (ChordQuality::MinAdd9, seq![0, 2, 3, 7]) }
    else if t == 13 { (ChordQuality::Major, seq![0, 4, 7]) }
    else if t == 14 { (ChordQuality::Minor, seq![0, 3, 7]) }
    else if t == 15 { (ChordQuality::Dim, seq![0, 3, 6]) }
    else if t == 16 { (ChordQuality::Aug, seq![0, 4, 8]) }
    else if t == 17 { (ChordQuality::Sus2, seq![0, 2, 7]) }
    else if t == 18 { (ChordQuality::Sus4, seq![0, 5, 7]) }
    else { (ChordQuality::Power, seq![0, 7]) }
}

/// Template `t` as executable data.
fn template_data(t: usize) -> (r: (ChordQuality, Vec<u8>))
    requires
        t < 20,
    ensures
        r.0 == template(t as int).0,
        r.1@.len() == template(t as int).1.len(),
        forall|k: int| 0 <= k < r.1@.len() ==> r.1@[k] as int == #[trigger] template(t as int).1[k],
{
    let r = if t == 0 { (ChordQuality::Dom9, vec![0u8, 2, 4, 7, 10]) }
    else if t == 1 { (ChordQuality::Maj9, vec![0u8, 2, 4, 7, 11]) }
    else if t == 2 { (ChordQuality::Min9, vec![0u8, 2, 3, 7, 10]) }
    else if t == 3 { (ChordQuality::Maj7, vec![0u8, 4, 7, 11]) }
    else if t == 4 { (ChordQuality::Dom7, vec![0u8, 4, 7, 10]) }
    else if t == 5 { (ChordQuality::Min7, vec![0u8, 3, 7, 10]) }
    else if t == 6 { (ChordQuality::MinMaj7, vec![0u8, 3, 7, 11]) }
    else if t == 7 { (ChordQuality::Dim7, vec![0u8, 3, 6, 9]) }
    else if t == 8 { (ChordQuality::HalfDim7, vec![0u8, 3, 6, 10]) }
    else if t == 9 { (ChordQuality::AugMaj7, vec![0u8, 4, 8, 11]) }
    else if t == 10 { (ChordQuality::Dom7Sus4, vec![0u8, 5, 7, 10]) }
    else if t == 11 { (ChordQuality::Add9, vec![0u8, 2, 4, 7]) }
    else if t == 12 { (ChordQuality::MinAdd9, vec![0u8, 2, 3, 7]) }
    else if t == 13 { (ChordQuality::Major, vec![0u8, 4, 7]) }
    else if t == 14 { (ChordQuality::Minor, vec![0u8, 3, 7]) }
    else if t == 15 { (ChordQuality::Dim, vec![0u8, 3, 6]) }
    else if t == 16 { (ChordQuality::Aug, vec![0u8, 4, 8]) }
    else if t == 17 { (ChordQuality::Sus2, vec![0u8, 2, 7]) }
    else if t == 18 { (ChordQuality::Sus4, vec![0u8, 5, 7]) }
    else { (ChordQuality::Power, vec![0u8, 7]) };
    r
}

// ---------------------------------------------------------------------------
// Specification of the identification
// ---------------------------------------------------------------------------

/// The written pitch of a note as a MIDI number.
pub open spec fn written_midi(n: Note) -> Option<int> {
    match n.pitch {
        Some(p) => Some((p.octave + 1) * 12 + step_semitone(p.step) + p.alter),
        None => None,
    }
}

/// MIDI pitch of a note: tablature (open string + fret) when string and
/// fret are set and the string is one of `strings`, else the written pitch;
/// `None` when neither gives a pitch.
pub open spec fn note_midi(n: Note, strings: Seq<(i8, i8)>) -> Option<int> {
    if n.string is Some && n.fret is Some {
        match open_string_pitch(strings, n.string->0 as i8) {
            Some(o) => Some(o + n.fret->0),
            None => written_midi(n),
        }
    } else {
        written_midi(n)
    }
}

/// MIDI pitches of the sounding (non-rest, pitched) notes, in note order.
pub open spec fn sounding_midis(notes: Seq<Note>, strings: Seq<(i8, i8)>) -> Seq<int>
    decreases notes.len(),
{
    if notes.len() == 0 {
        seq![]
    } else {
        let prev = sounding_midis(notes.drop_last(), strings);
        let n = notes.last();
        if n.gp_is_rest {
            prev
        } else {
            match note_midi(n, strings) {
                Some(m) => prev.push(m),
                None => prev,
            }
        }
    }
}

/// Pitch-class presence set of a list of MIDI pitches.
pub open spec fn pc_set(midis: Seq<int>) -> Seq<bool> {
    Seq::new(12, |pc: int| exists|k: int| 0 <= k < midis.len() && #[trigger] (midis[k] % 12) == pc)
}

/// Number of pitch classes present.
pub open spec fn pc_count(pcs: Seq<bool>) -> int {
    count_below(12, |i: int| pcs[i])
}

/// Pitch classes of template `t` rooted at `root`.
pub open spec fn expected_set(root: int, t: int) -> Seq<bool> {
    Seq::new(
        12,
        |i: int|
            exists|k: int|
                0 <= k < template(t).1.len() && #[trigger] ((root + template(t).1[k]) % 12) == i,
    )
}

/// Present pitch classes the template does not explain.
pub open spec fn extra_of(pcs: Seq<bool>, root: int, t: int) -> int {
    count_below(12, |i: int| pcs[i] && !expected_set(root, t)[i])
}

/// Template tones absent from the input.
pub open spec fn missing_of(pcs: Seq<bool>, root: int, t: int) -> int {
    count_below(template(t).1.len() as int, |k: int| !pcs[(root + template(t).1[k]) % 12])
}

/// Candidate `(r1, t1)` ranks strictly before `(r2, t2)`: smaller
/// `(extra, missing, -size, root)`, the earlier template on an exact tie.
pub open spec fn ranks_before(pcs: Seq<bool>, r1: int, t1: int, r2: int, t2: int) -> bool {
    let e1 = extra_of(pcs, r1, t1);
    let e2 = extra_of(pcs, r2, t2);
    let m1 = missing_of(pcs, r1, t1);
    let m2 = missing_of(pcs, r2, t2);
    let s1 = template(t1).1.len() as int;
    let s2 = template(t2).1.len() as int;
    e1 < e2 || (e1 == e2 && (m1 < m2 || (m1 == m2 && (s1 > s2 || (s1 == s2 && (r1 < r2 || (r1
        == r2 && t1 < t2)))))))
}

/// A (root, template) pair is a candidate when the root is present.
pub open spec fn is_candidate(pcs: Seq<bool>, r: int, t: int) -> bool {
    0 <= r < 12 && 0 <= t < num_templates() && pcs[r]
}

/// `(r, t)` is the best-ranked candidate.
pub open spec fn is_best(pcs: Seq<bool>, r: int, t: int) -> bool {
    &&& is_candidate(pcs, r, t)
    &&& forall|r2: int, t2: int| is_candidate(pcs, r2, t2) ==> !ranks_before(pcs, r2, t2, r, t)
}

/// Minimum of a non-empty sequence.
pub open spec fn seq_min(s: Seq<int>) -> int
    decreases s.len(),
{
    if s.len() <= 1 {
        s[0]
    } else {
        let m = seq_min(s.drop_last());
        if s.last() < m {
            s.last()
        } else {
            m
        }
    }
}

/// What `identify_chord` returns for the given sounding pitches.
pub open spec fn chord_result_ok(midis: Seq<int>, c: ChordName) -> bool {
    let pcs = pc_set(midis);
    &&& c.root.0 < 12
    &&& exists|t: int|
        is_best(pcs, c.root.0 as int, t) && #[trigger] template(t).0 == c.quality && c.uncertain
            == (extra_of(pcs, c.root.0 as int, t) > 0 || missing_of(pcs, c.root.0 as int, t) > 0)
    &&& c.bass == if seq_min(midis) % 12 != c.root.0 {
        Some(PitchClass((seq_min(midis) % 12) as u8))
    } else {
        None
    }
}

// ---------------------------------------------------------------------------
// Implementation
// ---------------------------------------------------------------------------

/// MIDI pitch of a note (see [`note_midi`]).
pub fn note_to_midi(note: &Note, strings: &[(i8, i8)]) -> (r: Option<i32>)
    ensures
        match r {
            Some(m) => note_midi(*note, strings@) == Some(m as int),
            None => note_midi(*note, strings@) is None,
        },
        r matches Some(m) ==> -128 <= m <= 4000,
{
    if note.string.is_some() && note.fret.is_some() {
        let s = note.string.unwrap();
        let f = note.fret.unwrap();
        if let Some(open) = find_open_string(strings, s as i8) {
            return Some(open as i32 + f as i32);
        }
    }
    match note.pitch {
        Some(p) => Some((p.octave as i32 + 1) * 12 + pitch_step_semitone(p.step) + p.alter as i32),
        None => None,
    }
}

/// Pitch class (0..12) of a MIDI pitch not below -132.
fn midi_pc(m: i32) -> (r: u8)
    requires
        -132 <= m <= 100000,
    ensures
        r < 12,
        r as int == m as int % 12,
{
    (((m + 132) as u32) % 12) as u8
}

/// Collect the sounding MIDI pitches of a beat and their minimum.
fn collect_midis(notes: &Vec<Note>, strings: &[(i8, i8)]) -> (r: Vec<i32>)
    ensures
        r@.len() == sounding_midis(notes@, strings@).len(),
        forall|k: int| 0 <= k < r@.len() ==> r@[k] as int == #[trigger] sounding_midis(notes@, strings@)[k],
        forall|k: int| 0 <= k < r@.len() ==> -128 <= #[trigger] r@[k] <= 4000,
{
    let mut out: Vec<i32> = Vec::new();
    let mut i: usize = 0;
    while i < notes.len()
        invariant
            i <= notes@.len(),
            out@.len() == sounding_midis(notes@.take(i as int), strings@).len(),
            forall|k: int| 0 <= k < out@.len() ==> out@[k] as int == #[trigger] sounding_midis(notes@.take(i as int), strings@)[k],
            forall|k: int| 0 <= k < out@.len() ==> -128 <= #[trigger] out@[k] <= 4000,
        decreases notes@.len() - i,
    {
        assert(notes@.take(i + 1).drop_last() =~= notes@.take(i as int));
        let n = &notes[i];
        if !n.gp_is_rest {
            if let Some(m) = note_to_midi(n, strings) {
                out.push(m);
            }
        }
        i += 1;
    }
    assert(notes@.take(i as int) =~= notes@);
    out
}

/// Identify the chord sounding on `beat`.
///
/// `strings` maps 1-based string numbers to open-string MIDI pitches.
/// Returns `None` when fewer than two distinct pitch classes sound (single
/// note, unison, all rests); otherwise the best-ranked (root, template)
/// candidate, with the slash bass and the uncertainty flag.
pub fn identify_chord(beat: &Beat, strings: &[(i8, i8)]) -> (r: Option<ChordName>)
    ensures
        ({
            let midis = sounding_midis(beat.notes@, strings@);
            match r {
                None => midis.len() == 0 || pc_count(pc_set(midis)) < 2,
                Some(c) => midis.len() > 0 && pc_count(pc_set(midis)) >= 2 && chord_result_ok(midis, c),
            }
        }),
{
    let ghost midis_spec = sounding_midis(beat.notes@, strings@);
    let midis = collect_midis(&beat.notes, strings);
    if midis.len() == 0 {
        return None;
    }
    // Pitch-class set and the lowest pitch.
    let mut pc_present: Vec<bool> = vec![false, false, false, false, false, false, false, false, false, false, false, false];
    let mut bass_midi: i32 = midis[0];
    let mut j: usize = 0;
    while j < midis.len()
        invariant
            j <= midis@.len(),
            midis@.len() == midis_spec.len(),
            midis@.len() > 0,
            forall|k: int| 0 <= k < midis@.len() ==> midis@[k] as int == #[trigger] midis_spec[k],
            forall|k: int| 0 <= k < midis@.len() ==> -128 <= #[trigger] midis@[k] <= 4000,
            pc_present@.len() == 12,
            forall|pc: int|
                0 <= pc < 12 ==> #[trigger] pc_present@[pc] == exists|k: int|
                    0 <= k < j && #[trigger] (midis_spec[k] % 12) == pc,
            j == 0 ==> bass_midi == midis@[0],
            -128 <= bass_midi <= 4000,
            j > 0 ==> bass_midi as int == seq_min(midis_spec.take(j as int)),
        decreases midis@.len() - j,
    {
        let m = midis[j];
        let pc = midi_pc(m);
        pc_present.set(pc as usize, true);
        proof {
            assert forall|q: int| 0 <= q < 12 implies #[trigger] pc_present@[q] == exists|k: int|
                0 <= k < j + 1 && #[trigger] (midis_spec[k] % 12) == q by {
                if q == pc {
                    assert(midis_spec[j as int] % 12 == q);
                } else {
                    if exists|k: int| 0 <= k < j + 1 && #[trigger] (midis_spec[k] % 12) == q {
                        let k = choose|k: int| 0 <= k < j + 1 && #[trigger] (midis_spec[k] % 12) == q;
                        assert(k != j);
                    }
                }
            }
            assert(midis_spec.take(j + 1).drop_last() =~= midis_spec.take(j as int));
        }
        if j == 0 || m < bass_midi {
            bass_midi = m;
        }
        j += 1;
    }
    proof {
        assert(midis_spec.take(midis@.len() as int) =~= midis_spec);
        assert(pc_present@ =~= pc_set(midis_spec));
    }
    let ghost pcs = pc_set(midis_spec);
    // Count present pitch classes.
    let mut pc_count_exec: usize = 0;
    let mut q: usize = 0;
    while q < 12
        invariant
            q <= 12,
            pc_present@ == pcs,
            pcs.len() == 12,
            pc_count_exec as int == count_below(q as int, |i: int| pcs[i]),
            pc_count_exec <= q,
            -128 <= bass_midi <= 4000,
        decreases 12 - q,
    {
        if pc_present[q] {
            pc_count_exec += 1;
        }
        q += 1;
    }
    if pc_count_exec < 2 {
        return None;
    }
    let bass_pc = midi_pc(bass_midi);
    // Score all (root, template) pairs.
    let mut found = false;
    let mut best_extra: usize = 0;
    let mut best_missing: usize = 0;
    let mut best_size: usize = 0;
    let mut best_root: u8 = 0;
    let mut best_t: usize = 0;
    let mut best_quality = ChordQuality::Major;
    let mut root: u8 = 0;
    while root < 12
        invariant
            root <= 12,
            pc_present@ == pcs,
            pcs.len() == 12,
            pc_count_exec >= 2,
            found ==> {
                &&& is_candidate(pcs, best_root as int, best_t as int)
                &&& best_root < root
                &&& best_extra as int == extra_of(pcs, best_root as int, best_t as int)
                &&& best_missing as int == missing_of(pcs, best_root as int, best_t as int)
                &&& best_size as int == template(best_t as int).1.len()
                &&& best_quality == template(best_t as int).0
            },
            found ==> forall|r2: int, t2: int|
                is_candidate(pcs, r2, t2) && r2 < root ==> !ranks_before(pcs, r2, t2, best_root as int, best_t as int),
            !found ==> forall|r2: int, t2: int| is_candidate(pcs, r2, t2) ==> r2 >= root,
        decreases 12 - root,
    {
        if pc_present[root as usize] {
            let mut t: usize = 0;
            while t < 20
                invariant
                    t <= 20,
                    root < 12,
                    pcs[root as int],
                    pc_present@ == pcs,
                    pcs.len() == 12,
                    found ==> {
                        &&& is_candidate(pcs, best_root as int, best_t as int)
                        &&& best_root <= root
                        &&& (best_root == root ==> best_t < t)
                        &&& best_extra as int == extra_of(pcs, best_root as int, best_t as int)
                        &&& best_missing as int == missing_of(pcs, best_root as int, best_t as int)
                        &&& best_size as int == template(best_t as int).1.len()
                        &&& best_quality == template(best_t as int).0
                    },
                    found ==> forall|r2: int, t2: int|
                        is_candidate(pcs, r2, t2) && (r2 < root || (r2 == root && t2 < t)) ==> !ranks_before(pcs, r2, t2, best_root as int, best_t as int),
                    !found ==> forall|r2: int, t2: int| is_candidate(pcs, r2, t2) ==> (r2 > root || (r2 == root && t2 >= t)),
                decreases 20 - t,
            {
                let (quality, intervals) = template_data(t);
                let (extra, missing) = score_template(&pc_present, root, &intervals, Ghost(t as int));
                let size = intervals.len();
                let better = !found || extra < best_extra || (extra == best_extra && (missing
                    < best_missing || (missing == best_missing && (size > best_size || (size
                    == best_size && root < best_root)))));
                proof {
                    if found {
                        assert(better == ranks_before(pcs, root as int, t as int, best_root as int, best_t as int));
                    }
                }
                if better {
                    proof {
                        assert forall|r2: int, t2: int|
                            is_candidate(pcs, r2, t2) && (r2 < root || (r2 == root && t2 < t + 1)) implies !ranks_before(pcs, r2, t2, root as int, t as int) by {
                            if r2 == root && t2 == t {
                            } else if found {
                                assert(!ranks_before(pcs, r2, t2, best_root as int, best_t as int));
                            }
                        }
                    }
                    found = true;
                    best_extra = extra;
                    best_missing = missing;
                    best_size = size;
                    best_root = root;
                    best_t = t;
                    best_quality = quality;
                } else {
                    proof {
                        assert forall|r2: int, t2: int|
                            is_candidate(pcs, r2, t2) && (r2 < root || (r2 == root && t2 < t + 1)) implies !ranks_before(pcs, r2, t2, best_root as int, best_t as int) by {
                            if r2 == root && t2 == t {
                            } else {
                                assert(!ranks_before(pcs, r2, t2, best_root as int, best_t as int));
                            }
                        }
                    }
                }
                t += 1;
            }
        }
        root += 1;
    }
    proof {
        // Some pitch class is present, so a candidate exists.
        lemma_count_below_zero(12, |i: int| pcs[i]);
        let r0 = choose|i: int| 0 <= i < 12 && pcs[i];
        assert(is_candidate(pcs, r0, 0));
    }
    let uncertain = best_extra > 0 || best_missing > 0;
    let root_pc = PitchClass(best_root);
    let bass = if bass_pc != best_root { Some(PitchClass(bass_pc)) } else { None };
    let c = ChordName { root: root_pc, quality: best_quality, bass, uncertain };
    proof {
        assert(is_best(pcs, best_root as int, best_t as int));
        assert(template(best_t as int).0 == c.quality);
    }
    Some(c)
}

/// Score one (root, template) pair: `(extra, missing)`.
fn score_template(pc_present: &Vec<bool>, root: u8, intervals: &Vec<u8>, Ghost(t): Ghost<int>) -> (r: (usize, usize))
    requires
        pc_present@.len() == 12,
        root < 12,
        0 <= t < 20,
        intervals@.len() == template(t).1.len(),
        forall|k: int| 0 <= k < intervals@.len() ==> intervals@[k] as int == #[trigger] template(t).1[k],
    ensures
        r.0 as int == extra_of(pc_present@, root as int, t),
        r.1 as int == missing_of(pc_present@, root as int, t),
{
    let ghost pcs = pc_present@;
    let ghost tmpl = template(t).1;
    assert(forall|k: int| 0 <= k < tmpl.len() ==> 0 <= #[trigger] tmpl[k] < 12);
    // Expected pitch-class set.
    let mut expected: Vec<bool> = vec![false, false, false, false, false, false, false, false, false, false, false, false];
    let mut k: usize = 0;
    while k < intervals.len()
        invariant
            k <= intervals@.len(),
            intervals@.len() == tmpl.len(),
            forall|k2: int| 0 <= k2 < intervals@.len() ==> intervals@[k2] as int == #[trigger] tmpl[k2],
            forall|k2: int| 0 <= k2 < tmpl.len() ==> 0 <= #[trigger] tmpl[k2] < 12,
            root < 12,
            expected@.len() == 12,
            forall|i: int|
                0 <= i < 12 ==> #[trigger] expected@[i] == exists|k2: int|
                    0 <= k2 < k && #[trigger] ((root + tmpl[k2]) % 12) == i,
        decreases intervals@.len() - k,
    {
        let pc = ((root as usize) + (intervals[k] as usize)) % 12;
        expected.set(pc, true);
        proof {
            assert forall|i: int| 0 <= i < 12 implies #[trigger] expected@[i] == exists|k2: int|
                0 <= k2 < k + 1 && #[trigger] ((root + tmpl[k2]) % 12) == i by {
                if i == pc {
                    assert((root + tmpl[k as int]) % 12 == i);
                } else {
                    if exists|k2: int| 0 <= k2 < k + 1 && #[trigger] ((root + tmpl[k2]) % 12) == i {
                        let k2 = choose|k2: int| 0 <= k2 < k + 1 && #[trigger] ((root + tmpl[k2]) % 12) == i;
                        assert(k2 != k);
                    }
                }
            }
        }
        k += 1;
    }
    assert(expected@ =~= expected_set(root as int, t));
    let ghost exp = expected_set(root as int, t);
    let mut extra: usize = 0;
    let mut i: usize = 0;
    while i < 12
        invariant
            i <= 12,
            pc_present@ == pcs,
            pcs.len() == 12,
            expected@ == exp,
            exp.len() == 12,
            extra as int == count_below(i as int, |i2: int| pcs[i2] && !exp[i2]),
            extra <= i,
        decreases 12 - i,
    {
        if pc_present[i] && !expected[i] {
            extra += 1;
        }
        i += 1;
    }
    let mut missing: usize = 0;
    let mut k: usize = 0;
    while k < intervals.len()
        invariant
            k <= intervals@.len(),
            intervals@.len() == tmpl.len(),
            forall|k2: int| 0 <= k2 < intervals@.len() ==> intervals@[k2] as int == #[trigger] tmpl[k2],
            pc_present@ == pcs,
            pcs.len() == 12,
            root < 12,
            missing as int == count_below(k as int, |k2: int| !pcs[(root + tmpl[k2]) % 12]),
            missing <= k,
        decreases intervals@.len() - k,
    {
        let pc = ((root as usize) + (intervals[k] as usize)) % 12;
        if !pc_present[pc] {
            missing += 1;
        }
        k += 1;
    }
    (extra, missing)
}

/// An identified chord's root is one of the sounding pitch classes, and the
/// chord is marked uncertain exactly when no sounding root with any template
/// explains the sounding pitch classes exactly (no extra and no missing
/// tone).
pub proof fn lemma_chord_root_and_certainty(midis: Seq<int>, c: ChordName)
    requires
        chord_result_ok(midis, c),
    ensures
        pc_set(midis)[c.root.0 as int],
        c.uncertain <==> !(exists|r: int, t: int|
            is_candidate(pc_set(midis), r, t) && #[trigger] extra_of(pc_set(midis), r, t) == 0
                && #[trigger] missing_of(pc_set(midis), r, t) == 0),
{
    let pcs = pc_set(midis);
    let root = c.root.0 as int;
    let t = choose|t: int|
        is_best(pcs, root, t) && #[trigger] template(t).0 == c.quality && c.uncertain == (extra_of(
            pcs,
            root,
            t,
        ) > 0 || missing_of(pcs, root, t) > 0);
    lemma_count_below_bounds(12, |i: int| pcs[i] && !expected_set(root, t)[i]);
    lemma_count_below_bounds(template(t).1.len() as int, |k: int| !pcs[(root + template(t).1[k]) % 12]);
    if exists|r: int, t2: int|
        is_candidate(pcs, r, t2) && #[trigger] extra_of(pcs, r, t2) == 0 && #[trigger] missing_of(pcs, r, t2) == 0 {
        let (r, t2) = choose|r: int, t2: int|
            is_candidate(pcs, r, t2) && #[trigger] extra_of(pcs, r, t2) == 0 && #[trigger] missing_of(pcs, r, t2) == 0;
        assert(!ranks_before(pcs, r, t2, root, t));
    } else {
        if !c.uncertain {
            assert(is_candidate(pcs, root, t) && extra_of(pcs, root, t) == 0 && missing_of(pcs, root, t) == 0);
        }
    }
}


/// The pitch classes of the given MIDI pitches, as a set.
pub open spec fn pitch_classes(midis: Seq<int>) -> Set<int> {
    Set::new(|pc: int| exists|k: int| 0 <= k < midis.len() && #[trigger] (midis[k] % 12) == pc)
}

/// The count the chord contract uses is the number of distinct pitch
/// classes sounding: no chord is named exactly when fewer than two pitch
/// classes sound.
pub proof fn lemma_pc_count_is_distinct_classes(midis: Seq<int>)
    ensures
        pitch_classes(midis).finite(),
        pc_count(pc_set(midis)) == pitch_classes(midis).len(),
{
    let pcs = pc_set(midis);
    let p = |i: int| pcs[i];
    lemma_count_below_is_set_len(12, p);
    assert forall|pc: int| #[trigger] pitch_classes(midis).contains(pc) <==> crate::counting::set_below(12, p).contains(pc) by {
        if pitch_classes(midis).contains(pc) {
            let k = choose|k: int| 0 <= k < midis.len() && #[trigger] (midis[k] % 12) == pc;
            assert(0 <= midis[k] % 12 < 12);
        }
    }
    assert(pitch_classes(midis) =~= crate::counting::set_below(12, p));
}



/// What zero extra and zero missing tones say about the sounding pitch
/// classes and a template on a root.
proof fn lemma_exact_facts(pcs: Seq<bool>, r: int, t: int)
    ensures
        extra_of(pcs, r, t) >= 0,
        missing_of(pcs, r, t) >= 0,
        missing_of(pcs, r, t) == 0 ==> forall|k: int|
            0 <= k < template(t).1.len() ==> #[trigger] pcs[(r + template(t).1[k]) % 12],
        (forall|i: int| 0 <= i < 12 && pcs[i] ==> #[trigger] expected_set(r, t)[i]) ==> extra_of(pcs, r, t) == 0,
        (forall|k: int| 0 <= k < template(t).1.len() ==> #[trigger] pcs[(r + template(t).1[k]) % 12])
            ==> missing_of(pcs, r, t) == 0,
{
    let pe = |i: int| pcs[i] && !expected_set(r, t)[i];
    let pm = |k: int| !pcs[(r + template(t).1[k]) % 12];
    lemma_count_below_bounds(12, pe);
    lemma_count_below_zero(12, pe);
    lemma_count_below_bounds(template(t).1.len() as int, pm);
    lemma_count_below_zero(template(t).1.len() as int, pm);
    if forall|i: int| 0 <= i < 12 && pcs[i] ==> #[trigger] expected_set(r, t)[i] {
        assert forall|i: int| 0 <= i < 12 implies !#[trigger] pe(i) by {
            if pcs[i] {
                assert(expected_set(r, t)[i]);
            }
        }
    }
    if missing_of(pcs, r, t) == 0 {
        assert forall|k: int| 0 <= k < template(t).1.len() implies #[trigger] pcs[(r + template(t).1[k]) % 12] by {
            assert(!pm(k));
        }
    }
    if forall|k: int| 0 <= k < template(t).1.len() ==> #[trigger] pcs[(r + template(t).1[k]) % 12] {
        assert forall|k: int| 0 <= k < template(t).1.len() implies !#[trigger] pm(k) by {
            assert(pcs[(r + template(t).1[k]) % 12]);
        }
    }
}

/// The tones of template `t` on root `r` all sound, spelled out for its
/// first five intervals.
proof fn lemma_all_tones_sound(pcs: Seq<bool>, r: int, t: int)
    requires
        missing_of(pcs, r, t) == 0,
    ensures
        template(t).1.len() > 0 ==> pcs[(r + template(t).1[0]) % 12],
        template(t).1.len() > 1 ==> pcs[(r + template(t).1[1]) % 12],
        template(t).1.len() > 2 ==> pcs[(r + template(t).1[2]) % 12],
        template(t).1.len() > 3 ==> pcs[(r + template(t).1[3]) % 12],
        template(t).1.len() > 4 ==> pcs[(r + template(t).1[4]) % 12],
{
    lemma_exact_facts(pcs, r, t);
}

/// A chord whose sounding pitch classes are exactly a root, its minor
/// third, diminished fifth and minor seventh (root + {0, 3, 6, 10}) is named
/// half-diminished seventh on that root, with no uncertainty.
#[verifier::rlimit(40)]
pub proof fn lemma_half_diminished_is_named(midis: Seq<int>, r: int, c: ChordName)
    requires
        0 <= r < 12,
        forall|i: int|
            0 <= i < 12 ==> (#[trigger] pc_set(midis)[i] <==> (i == r || i == (r + 3) % 12 || i == (r + 6) % 12 || i
                == (r + 10) % 12)),
        chord_result_ok(midis, c),
    ensures
        c.root.0 == r,
        c.quality == ChordQuality::HalfDim7,
        !c.uncertain,
{
    let pcs = pc_set(midis);
    let rc = c.root.0 as int;
    let tc = choose|t: int|
        is_best(pcs, rc, t) && #[trigger] template(t).0 == c.quality && c.uncertain == (extra_of(pcs, rc, t) > 0
            || missing_of(pcs, rc, t) > 0);
    assert(is_best(pcs, rc, tc));
    let tt = template(8).1;
    assert(tt == seq![0int, 3, 6, 10]);
    lemma_exact_facts(pcs, r, 8);
    assert forall|i: int| 0 <= i < 12 && pcs[i] implies #[trigger] expected_set(r, 8)[i] by {
        if i == r {
            assert((r + tt[0]) % 12 == i);
        } else if i == (r + 3) % 12 {
            assert((r + tt[1]) % 12 == i);
        } else if i == (r + 6) % 12 {
            assert((r + tt[2]) % 12 == i);
        } else {
            assert((r + tt[3]) % 12 == i);
        }
    }
    assert forall|k: int| 0 <= k < tt.len() implies #[trigger] pcs[(r + template(8).1[k]) % 12] by {
        assert(pcs[(r + tt[k]) % 12]);
    }
    assert(pcs[r]);
    assert(is_candidate(pcs, r, 8));
    assert(!ranks_before(pcs, r, 8, rc, tc));
    lemma_exact_facts(pcs, rc, tc);
    assert(extra_of(pcs, rc, tc) == 0 && missing_of(pcs, rc, tc) == 0);
    lemma_all_tones_sound(pcs, rc, tc);
    assert(pcs[rc]);
    assert(0 <= tc < 20);
    assert(template(tc).1.len() >= 4);
    lemma_half_diminished_only(pcs, r, rc, tc);
}


/// Sounding exactly root + {0, 3, 6, 10}, the only template of four or more
/// tones whose tones all sound on a sounding root is the half-diminished
/// seventh on that root.
proof fn lemma_half_diminished_only(pcs: Seq<bool>, r: int, rc: int, tc: int)
    requires
        0 <= r < 12,
        0 <= rc < 12,
        0 <= tc <= 12,
        forall|i: int|
            0 <= i < 12 ==> (#[trigger] pcs[i] <==> (i == r || i == (r + 3) % 12 || i == (r + 6) % 12 || i == (r
                + 10) % 12)),
        pcs[rc],
        missing_of(pcs, rc, tc) == 0,
    ensures
        tc == 8 && rc == r,
{
    lemma_all_tones_sound(pcs, rc, tc);
    if tc == 0 {
        assert(template(tc).1 == seq![0int, 2, 4, 7, 10]);
        lemma_tones_0(pcs, r, rc);
    } else if tc == 1 {
        assert(template(tc).1 == seq![0int, 2, 4, 7, 11]);
        lemma_tones_1(pcs, r, rc);
    } else if tc == 2 {
        assert(template(tc).1 == seq![0int, 2, 3, 7, 10]);
        lemma_tones_2(pcs, r, rc);
    } else if tc == 3 {
        assert(template(tc).1 == seq![0int, 4, 7, 11]);
        lemma_tones_3(pcs, r, rc);
    } else if tc == 4 {
        assert(template(tc).1 == seq![0int, 4, 7, 10]);
        lemma_tones_4(pcs, r, rc);
    } else if tc == 5 {
        assert(template(tc).1 == seq![0int, 3, 7, 10]);
        lemma_tones_5(pcs, r, rc);
    } else if tc == 6 {
        assert(template(tc).1 == seq![0int, 3, 7, 11]);
        lemma_tones_6(pcs, r, rc);
    } else if tc == 7 {
        assert(template(tc).1 == seq![0int, 3, 6, 9]);
        lemma_tones_7(pcs, r, rc);
    } else if tc == 8 {
        assert(template(tc).1 == seq![0int, 3, 6, 10]);
        lemma_tones_8(pcs, r, rc);
    } else if tc == 9 {
        assert(template(tc).1 == seq![0int, 4, 8, 11]);
        lemma_tones_9(pcs, r, rc);
    } else if tc == 10 {
        assert(template(tc).1 == seq![0int, 5, 7, 10]);
        lemma_tones_10(pcs, r, rc);
    } else if tc == 11 {
        assert(template(tc).1 == seq![0int, 2, 4, 7]);
        lemma_tones_11(pcs, r, rc);
    } else if tc == 12 {
        assert(template(tc).1 == seq![0int, 2, 3, 7]);
        lemma_tones_12(pcs, r, rc);
    }
}

proof fn lemma_tones_0(pcs: Seq<bool>, r: int, rc: int)
    requires
        0 <= r < 12,
        0 <= rc < 12,
        forall|i: int|
            0 <= i < 12 ==> (#[trigger] pcs[i] <==> (i == r || i == (r + 3) % 12 || i == (r + 6) % 12 || i == (r
                + 10) % 12)),
    ensures
        (pcs[(rc + 0) % 12] && pcs[(rc + 2) % 12] && pcs[(rc + 4) % 12] && pcs[(rc + 7) % 12] && pcs[(rc + 10) % 12]) ==> false,
{
    lemma_tones_11(pcs, r, rc);
}

proof fn lemma_tones_1(pcs: Seq<bool>, r: int, rc: int)
    requires
        0 <= r < 12,
        0 <= rc < 12,
        forall|i: int|
            0 <= i < 12 ==> (#[trigger] pcs[i] <==> (i == r || i == (r + 3) % 12 || i == (r + 6) % 12 || i == (r
                + 10) % 12)),
    ensures
        (pcs[(rc + 0) % 12] && pcs[(rc + 2) % 12] && pcs[(rc + 4) % 12] && pcs[(rc + 7) % 12] && pcs[(rc + 11) % 12]) ==> false,
{
    lemma_tones_11(pcs, r, rc);
}

proof fn lemma_tones_2(pcs: Seq<bool>, r: int, rc: int)
    requires
        0 <= r < 12,
        0 <= rc < 12,
        forall|i: int|
            0 <= i < 12 ==> (#[trigger] pcs[i] <==> (i == r || i == (r + 3) % 12 || i == (r + 6) % 12 || i == (r
                + 10) % 12)),
    ensures
        (pcs[(rc + 0) % 12] && pcs[(rc + 2) % 12] && pcs[(rc + 3) % 12] && pcs[(rc + 7) % 12] && pcs[(rc + 10) % 12]) ==> false,
{
    lemma_tones_12(pcs, r, rc);
}

proof fn lemma_tones_3(pcs: Seq<bool>, r: int, rc: int)
    requires
        0 <= r < 12,
        0 <= rc < 12,
        forall|i: int|
            0 <= i < 12 ==> (#[trigger] pcs[i] <==> (i == r || i == (r + 3) % 12 || i == (r + 6) % 12 || i == (r
                + 10) % 12)),
    ensures
        (pcs[(rc + 0) % 12] && pcs[(rc + 4) % 12] && pcs[(rc + 7) % 12] && pcs[(rc + 11) % 12]) ==> false,
{
}

proof fn lemma_tones_4(pcs: Seq<bool>, r: int, rc: int)
    requires
        0 <= r < 12,
        0 <= rc < 12,
        forall|i: int|
            0 <= i < 12 ==> (#[trigger] pcs[i] <==> (i == r || i == (r + 3) % 12 || i == (r + 6) % 12 || i == (r
                + 10) % 12)),
    ensures
        (pcs[(rc + 0) % 12] && pcs[(rc + 4) % 12] && pcs[(rc + 7) % 12] && pcs[(rc + 10) % 12]) ==> false,
{
}

proof fn lemma_tones_5(pcs: Seq<bool>, r: int, rc: int)
    requires
        0 <= r < 12,
        0 <= rc < 12,
        forall|i: int|
            0 <= i < 12 ==> (#[trigger] pcs[i] <==> (i == r || i == (r + 3) % 12 || i == (r + 6) % 12 || i == (r
                + 10) % 12)),
    ensures
        (pcs[(rc + 0) % 12] && pcs[(rc + 3) % 12] && pcs[(rc + 7) % 12] && pcs[(rc + 10) % 12]) ==> false,
{
}

proof fn lemma_tones_6(pcs: Seq<bool>, r: int, rc: int)
    requires
        0 <= r < 12,
        0 <= rc < 12,
        forall|i: int|
            0 <= i < 12 ==> (#[trigger] pcs[i] <==> (i == r || i == (r + 3) % 12 || i == (r + 6) % 12 || i == (r
                + 10) % 12)),
    ensures
        (pcs[(rc + 0) % 12] && pcs[(rc + 3) % 12] && pcs[(rc + 7) % 12] && pcs[(rc + 11) % 12]) ==> false,
{
}

proof fn lemma_tones_7(pcs: Seq<bool>, r: int, rc: int)
    requires
        0 <= r < 12,
        0 <= rc < 12,
        forall|i: int|
            0 <= i < 12 ==> (#[trigger] pcs[i] <==> (i == r || i == (r + 3) % 12 || i == (r + 6) % 12 || i == (r
                + 10) % 12)),
    ensures
        (pcs[(rc + 0) % 12] && pcs[(rc + 3) % 12] && pcs[(rc + 6) % 12] && pcs[(rc + 9) % 12]) ==> false,
{
}

proof fn lemma_tones_8(pcs: Seq<bool>, r: int, rc: int)
    requires
        0 <= r < 12,
        0 <= rc < 12,
        forall|i: int|
            0 <= i < 12 ==> (#[trigger] pcs[i] <==> (i == r || i == (r + 3) % 12 || i == (r + 6) % 12 || i == (r
                + 10) % 12)),
    ensures
        (pcs[(rc + 0) % 12] && pcs[(rc + 3) % 12] && pcs[(rc + 6) % 12] && pcs[(rc + 10) % 12]) ==> rc == r,
{
}

proof fn lemma_tones_9(pcs: Seq<bool>, r: int, rc: int)
    requires
        0 <= r < 12,
        0 <= rc < 12,
        forall|i: int|
            0 <= i < 12 ==> (#[trigger] pcs[i] <==> (i == r || i == (r + 3) % 12 || i == (r + 6) % 12 || i == (r
                + 10) % 12)),
    ensures
        (pcs[(rc + 0) % 12] && pcs[(rc + 4) % 12] && pcs[(rc + 8) % 12] && pcs[(rc + 11) % 12]) ==> false,
{
}

proof fn lemma_tones_10(pcs: Seq<bool>, r: int, rc: int)
    requires
        0 <= r < 12,
        0 <= rc < 12,
        forall|i: int|
            0 <= i < 12 ==> (#[trigger] pcs[i] <==> (i == r || i == (r + 3) % 12 || i == (r + 6) % 12 || i == (r
                + 10) % 12)),
    ensures
        (pcs[(rc + 0) % 12] && pcs[(rc + 5) % 12] && pcs[(rc + 7) % 12] && pcs[(rc + 10) % 12]) ==> false,
{
}

proof fn lemma_tones_11(pcs: Seq<bool>, r: int, rc: int)
    requires
        0 <= r < 12,
        0 <= rc < 12,
        forall|i: int|
            0 <= i < 12 ==> (#[trigger] pcs[i] <==> (i == r || i == (r + 3) % 12 || i == (r + 6) % 12 || i == (r
                + 10) % 12)),
    ensures
        (pcs[(rc + 0) % 12] && pcs[(rc + 2) % 12] && pcs[(rc + 4) % 12] && pcs[(rc + 7) % 12]) ==> false,
{
}

proof fn lemma_tones_12(pcs: Seq<bool>, r: int, rc: int)
    requires
        0 <= r < 12,
        0 <= rc < 12,
        forall|i: int|
            0 <= i < 12 ==> (#[trigger] pcs[i] <==> (i == r || i == (r + 3) % 12 || i == (r + 6) % 12 || i == (r
                + 10) % 12)),
    ensures
        (pcs[(rc + 0) % 12] && pcs[(rc + 2) % 12] && pcs[(rc + 3) % 12] && pcs[(rc + 7) % 12]) ==> false,
{
}


proof fn lemma_dim_tones_0(pcs: Seq<bool>, b: int, rc: int)
    requires
        0 <= b < 3,
        0 <= rc < 12,
        forall|i: int|
            0 <= i < 12 ==> (#[trigger] pcs[i] <==> (i == b || i == b + 3 || i == b + 6 || i == b + 9)),
    ensures
        (pcs[(rc + 0) % 12] && pcs[(rc + 2) % 12] && pcs[(rc + 4) % 12] && pcs[(rc + 7) % 12] && pcs[(rc + 10) % 12]) ==> false,
{
    lemma_dim_tones_11(pcs, b, rc);
}

proof fn lemma_dim_tones_1(pcs: Seq<bool>, b: int, rc: int)
    requires
        0 <= b < 3,
        0 <= rc < 12,
        forall|i: int|
            0 <= i < 12 ==> (#[trigger] pcs[i] <==> (i == b || i == b + 3 || i == b + 6 || i == b + 9)),
    ensures
        (pcs[(rc + 0) % 12] && pcs[(rc + 2) % 12] && pcs[(rc + 4) % 12] && pcs[(rc + 7) % 12] && pcs[(rc + 11) % 12]) ==> false,
{
    lemma_dim_tones_11(pcs, b, rc);
}

proof fn lemma_dim_tones_2(pcs: Seq<bool>, b: int, rc: int)
    requires
        0 <= b < 3,
        0 <= rc < 12,
        forall|i: int|
            0 <= i < 12 ==> (#[trigger] pcs[i] <==> (i == b || i == b + 3 || i == b + 6 || i == b + 9)),
    ensures
        (pcs[(rc + 0) % 12] && pcs[(rc + 2) % 12] && pcs[(rc + 3) % 12] && pcs[(rc + 7) % 12] && pcs[(rc + 10) % 12]) ==> false,
{
    lemma_dim_tones_12(pcs, b, rc);
}

proof fn lemma_dim_tones_3(pcs: Seq<bool>, b: int, rc: int)
    requires
        0 <= b < 3,
        0 <= rc < 12,
        forall|i: int|
            0 <= i < 12 ==> (#[trigger] pcs[i] <==> (i == b || i == b + 3 || i == b + 6 || i == b + 9)),
    ensures
        (pcs[(rc + 0) % 12] && pcs[(rc + 4) % 12] && pcs[(rc + 7) % 12] && pcs[(rc + 11) % 12]) ==> false,
{
}

proof fn lemma_dim_tones_4(pcs: Seq<bool>, b: int, rc: int)
    requires
        0 <= b < 3,
        0 <= rc < 12,
        forall|i: int|
            0 <= i < 12 ==> (#[trigger] pcs[i] <==> (i == b || i == b + 3 || i == b + 6 || i == b + 9)),
    ensures
        (pcs[(rc + 0) % 12] && pcs[(rc + 4) % 12] && pcs[(rc + 7) % 12] && pcs[(rc + 10) % 12]) ==> false,
{
}

proof fn lemma_dim_tones_5(pcs: Seq<bool>, b: int, rc: int)
    requires
        0 <= b < 3,
        0 <= rc < 12,
        forall|i: int|
            0 <= i < 12 ==> (#[trigger] pcs[i] <==> (i == b || i == b + 3 || i == b + 6 || i == b + 9)),
    ensures
        (pcs[(rc + 0) % 12] && pcs[(rc + 3) % 12] && pcs[(rc + 7) % 12] && pcs[(rc + 10) % 12]) ==> false,
{
}

proof fn lemma_dim_tones_6(pcs: Seq<bool>, b: int, rc: int)
    requires
        0 <= b < 3,
        0 <= rc < 12,
        forall|i: int|
            0 <= i < 12 ==> (#[trigger] pcs[i] <==> (i == b || i == b + 3 || i == b + 6 || i == b + 9)),
    ensures
        (pcs[(rc + 0) % 12] && pcs[(rc + 3) % 12] && pcs[(rc + 7) % 12] && pcs[(rc + 11) % 12]) ==> false,
{
}

proof fn lemma_dim_tones_8(pcs: Seq<bool>, b: int, rc: int)
    requires
        0 <= b < 3,
        0 <= rc < 12,
        forall|i: int|
            0 <= i < 12 ==> (#[trigger] pcs[i] <==> (i == b || i == b + 3 || i == b + 6 || i == b + 9)),
    ensures
        (pcs[(rc + 0) % 12] && pcs[(rc + 3) % 12] && pcs[(rc + 6) % 12] && pcs[(rc + 10) % 12]) ==> false,
{
}

proof fn lemma_dim_tones_9(pcs: Seq<bool>, b: int, rc: int)
    requires
        0 <= b < 3,
        0 <= rc < 12,
        forall|i: int|
            0 <= i < 12 ==> (#[trigger] pcs[i] <==> (i == b || i == b + 3 || i == b + 6 || i == b + 9)),
    ensures
        (pcs[(rc + 0) % 12] && pcs[(rc + 4) % 12] && pcs[(rc + 8) % 12] && pcs[(rc + 11) % 12]) ==> false,
{
}

proof fn lemma_dim_tones_10(pcs: Seq<bool>, b: int, rc: int)
    requires
        0 <= b < 3,
        0 <= rc < 12,
        forall|i: int|
            0 <= i < 12 ==> (#[trigger] pcs[i] <==> (i == b || i == b + 3 || i == b + 6 || i == b + 9)),
    ensures
        (pcs[(rc + 0) % 12] && pcs[(rc + 5) % 12] && pcs[(rc + 7) % 12] && pcs[(rc + 10) % 12]) ==> false,
{
}

proof fn lemma_dim_tones_11(pcs: Seq<bool>, b: int, rc: int)
    requires
        0 <= b < 3,
        0 <= rc < 12,
        forall|i: int|
            0 <= i < 12 ==> (#[trigger] pcs[i] <==> (i == b || i == b + 3 || i == b + 6 || i == b + 9)),
    ensures
        (pcs[(rc + 0) % 12] && pcs[(rc + 2) % 12] && pcs[(rc + 4) % 12] && pcs[(rc + 7) % 12]) ==> false,
{
}

proof fn lemma_dim_tones_12(pcs: Seq<bool>, b: int, rc: int)
    requires
        0 <= b < 3,
        0 <= rc < 12,
        forall|i: int|
            0 <= i < 12 ==> (#[trigger] pcs[i] <==> (i == b || i == b + 3 || i == b + 6 || i == b + 9)),
    ensures
        (pcs[(rc + 0) % 12] && pcs[(rc + 2) % 12] && pcs[(rc + 3) % 12] && pcs[(rc + 7) % 12]) ==> false,
{
}

/// Sounding exactly a diminished seventh chord, the only template of four or
/// more tones whose tones all sound on a sounding root is the diminished
/// seventh.
proof fn lemma_diminished_only(pcs: Seq<bool>, b: int, rc: int, tc: int)
    requires
        0 <= b < 3,
        0 <= rc < 12,
        0 <= tc <= 12,
        forall|i: int|
            0 <= i < 12 ==> (#[trigger] pcs[i] <==> (i == b || i == b + 3 || i == b + 6 || i == b + 9)),
        missing_of(pcs, rc, tc) == 0,
    ensures
        tc == 7,
{
    lemma_all_tones_sound(pcs, rc, tc);
    if tc == 0 {
        assert(template(tc).1 == seq![0int, 2, 4, 7, 10]);
        lemma_dim_tones_0(pcs, b, rc);
    } else if tc == 1 {
        assert(template(tc).1 == seq![0int, 2, 4, 7, 11]);
        lemma_dim_tones_1(pcs, b, rc);
    } else if tc == 2 {
        assert(template(tc).1 == seq![0int, 2, 3, 7, 10]);
        lemma_dim_tones_2(pcs, b, rc);
    } else if tc == 3 {
        assert(template(tc).1 == seq![0int, 4, 7, 11]);
        lemma_dim_tones_3(pcs, b, rc);
    } else if tc == 4 {
        assert(template(tc).1 == seq![0int, 4, 7, 10]);
        lemma_dim_tones_4(pcs, b, rc);
    } else if tc == 5 {
        assert(template(tc).1 == seq![0int, 3, 7, 10]);
        lemma_dim_tones_5(pcs, b, rc);
    } else if tc == 6 {
        assert(template(tc).1 == seq![0int, 3, 7, 11]);
        lemma_dim_tones_6(pcs, b, rc);
    } else if tc == 8 {
        assert(template(tc).1 == seq![0int, 3, 6, 10]);
        lemma_dim_tones_8(pcs, b, rc);
    } else if tc == 9 {
        assert(template(tc).1 == seq![0int, 4, 8, 11]);
        lemma_dim_tones_9(pcs, b, rc);
    } else if tc == 10 {
        assert(template(tc).1 == seq![0int, 5, 7, 10]);
        lemma_dim_tones_10(pcs, b, rc);
    } else if tc == 11 {
        assert(template(tc).1 == seq![0int, 2, 4, 7]);
        lemma_dim_tones_11(pcs, b, rc);
    } else if tc == 12 {
        assert(template(tc).1 == seq![0int, 2, 3, 7]);
        lemma_dim_tones_12(pcs, b, rc);
    }
}

/// A chord whose sounding pitch classes are exactly a diminished seventh
/// chord (a root with its minor third, diminished fifth and diminished
/// seventh, root + {0, 3, 6, 9}) is named diminished seventh, with no
/// uncertainty, on the lowest of its four pitch classes (the chord is
/// symmetric, so each of them could serve as root).
#[verifier::rlimit(40)]
pub proof fn lemma_diminished_seventh_is_named(midis: Seq<int>, b: int, c: ChordName)
    requires
        0 <= b < 3,
        forall|i: int|
            0 <= i < 12 ==> (#[trigger] pc_set(midis)[i] <==> (i == b || i == b + 3 || i == b + 6 || i == b + 9)),
        chord_result_ok(midis, c),
    ensures
        c.root.0 == b,
        c.quality == ChordQuality::Dim7,
        !c.uncertain,
{
    let pcs = pc_set(midis);
    let rc = c.root.0 as int;
    let tc = choose|t: int|
        is_best(pcs, rc, t) && #[trigger] template(t).0 == c.quality && c.uncertain == (extra_of(pcs, rc, t) > 0
            || missing_of(pcs, rc, t) > 0);
    assert(is_best(pcs, rc, tc));
    let tt = template(7).1;
    assert(tt == seq![0int, 3, 6, 9]);
    lemma_exact_facts(pcs, b, 7);
    assert forall|i: int| 0 <= i < 12 && pcs[i] implies #[trigger] expected_set(b, 7)[i] by {
        if i == b {
            assert((b + tt[0]) % 12 == i);
        } else if i == b + 3 {
            assert((b + tt[1]) % 12 == i);
        } else if i == b + 6 {
            assert((b + tt[2]) % 12 == i);
        } else {
            assert((b + tt[3]) % 12 == i);
        }
    }
    assert forall|k: int| 0 <= k < tt.len() implies #[trigger] pcs[(b + template(7).1[k]) % 12] by {
        assert(pcs[(b + tt[k]) % 12]);
    }
    assert(pcs[b]);
    assert(is_candidate(pcs, b, 7));
    assert(!ranks_before(pcs, b, 7, rc, tc));
    lemma_exact_facts(pcs, rc, tc);
    assert(extra_of(pcs, rc, tc) == 0 && missing_of(pcs, rc, tc) == 0);
    assert(pcs[rc]);
    assert(0 <= tc < 20);
    assert(template(tc).1.len() >= 4);
    lemma_diminished_only(pcs, b, rc, tc);
    assert(template(tc).1.len() == 4);
    assert(rc == b);
}



/// `x` brought back into `0..12` from `0..24`.
pub open spec fn wrap12(x: int) -> int {
    if x >= 12 {
        x - 12
    } else {
        x
    }
}

proof fn lemma_wrap12(x: int)
    requires
        0 <= x < 24,
    ensures
        x % 12 == wrap12(x),
{
}

/// The tones of template `t` on root `rc` all sound, without the modulus.
proof fn lemma_all_tones_sound_wrapped(pcs: Seq<bool>, rc: int, t: int)
    requires
        0 <= rc < 12,
        0 <= t < 20,
        missing_of(pcs, rc, t) == 0,
    ensures
        template(t).1.len() > 0 ==> pcs[wrap12(rc + template(t).1[0])],
        template(t).1.len() > 1 ==> pcs[wrap12(rc + template(t).1[1])],
        template(t).1.len() > 2 ==> pcs[wrap12(rc + template(t).1[2])],
        template(t).1.len() > 3 ==> pcs[wrap12(rc + template(t).1[3])],
        template(t).1.len() > 4 ==> pcs[wrap12(rc + template(t).1[4])],
{
    lemma_all_tones_sound(pcs, rc, t);
    let tt = template(t).1;
    assert forall|k: int| 0 <= k < tt.len() implies 0 <= #[trigger] tt[k] < 12 by {
        if t == 0 { assert(tt == seq![0int, 2, 4, 7, 10]); }
        else if t == 1 { assert(tt == seq![0int, 2, 4, 7, 11]); }
        else if t == 2 { assert(tt == seq![0int, 2, 3, 7, 10]); }
        else if t == 3 { assert(tt == seq![0int, 4, 7, 11]); }
        else if t == 4 { assert(tt == seq![0int, 4, 7, 10]); }
        else if t == 5 { assert(tt == seq![0int, 3, 7, 10]); }
        else if t == 6 { assert(tt == seq![0int, 3, 7, 11]); }
        else if t == 7 { assert(tt == seq![0int, 3, 6, 9]); }
        else if t == 8 { assert(tt == seq![0int, 3, 6, 10]); }
        else if t == 9 { assert(tt == seq![0int, 4, 8, 11]); }
        else if t == 10 { assert(tt == seq![0int, 5, 7, 10]); }
        else if t == 11 { assert(tt == seq![0int, 2, 4, 7]); }
        else if t == 12 { assert(tt == seq![0int, 2, 3, 7]); }
        else if t == 13 { assert(tt == seq![0int, 4, 7]); }
        else if t == 14 { assert(tt == seq![0int, 3, 7]); }
        else if t == 15 { assert(tt == seq![0int, 3, 6]); }
        else if t == 16 { assert(tt == seq![0int, 4, 8]); }
        else if t == 17 { assert(tt == seq![0int, 2, 7]); }
        else if t == 18 { assert(tt == seq![0int, 5, 7]); }
        else { assert(tt == seq![0int, 7]); }
    }
    if tt.len() > 0 { lemma_wrap12(rc + tt[0]); }
    if tt.len() > 1 { lemma_wrap12(rc + tt[1]); }
    if tt.len() > 2 { lemma_wrap12(rc + tt[2]); }
    if tt.len() > 3 { lemma_wrap12(rc + tt[3]); }
    if tt.len() > 4 { lemma_wrap12(rc + tt[4]); }
}

proof fn lemma_q0_tones_0(pcs: Seq<bool>, r: int, rc: int)
    requires
        0 <= r < 12,
        0 <= rc < 12,
        forall|i: int| 0 <= i < 12 ==> (#[trigger] pcs[i] <==> (i == wrap12(r + 0) || i == wrap12(r + 2) || i == wrap12(r + 4) || i == wrap12(r + 7) || i == wrap12(r + 10))),
    ensures
        (pcs[wrap12(rc + 0)] && pcs[wrap12(rc + 2)] && pcs[wrap12(rc + 4)] && pcs[wrap12(rc + 7)] && pcs[wrap12(rc + 10)]) ==> rc == r,
{
}

proof fn lemma_q0_tones_1(pcs: Seq<bool>, r: int, rc: int)
    requires
        0 <= r < 12,
        0 <= rc < 12,
        forall|i: int| 0 <= i < 12 ==> (#[trigger] pcs[i] <==> (i == wrap12(r + 0) || i == wrap12(r + 2) || i == wrap12(r + 4) || i == wrap12(r + 7) || i == wrap12(r + 10))),
    ensures
        (pcs[wrap12(rc + 0)] && pcs[wrap12(rc + 2)] && pcs[wrap12(rc + 4)] && pcs[wrap12(rc + 7)] && pcs[wrap12(rc + 11)]) ==> false,
{
}

proof fn lemma_q0_tones_2(pcs: Seq<bool>, r: int, rc: int)
    requires
        0 <= r < 12,
        0 <= rc < 12,
        forall|i: int| 0 <= i < 12 ==> (#[trigger] pcs[i] <==> (i == wrap12(r + 0) || i == wrap12(r + 2) || i == wrap12(r + 4) || i == wrap12(r + 7) || i == wrap12(r + 10))),
    ensures
        (pcs[wrap12(rc + 0)] && pcs[wrap12(rc + 2)] && pcs[wrap12(rc + 3)] && pcs[wrap12(rc + 7)] && pcs[wrap12(rc + 10)]) ==> false,
{
}

proof fn lemma_q0_only(pcs: Seq<bool>, r: int, rc: int, tc: int)
    requires
        0 <= r < 12,
        0 <= rc < 12,
        0 <= tc < 20,
        template(tc).1.len() >= 5,
        forall|i: int| 0 <= i < 12 ==> (#[trigger] pcs[i] <==> (i == r || i == (r + 2) % 12 || i == (r + 4) % 12 || i == (r + 7) % 12 || i == (r + 10) % 12)),
        missing_of(pcs, rc, tc) == 0,
    ensures
        tc == 0 && rc == r,
{
    lemma_wrap12(r + 0);
    lemma_wrap12(r + 2);
    lemma_wrap12(r + 4);
    lemma_wrap12(r + 7);
    lemma_wrap12(r + 10);
    assert forall|i: int| 0 <= i < 12 implies (#[trigger] pcs[i] <==> (i == wrap12(r + 0) || i == wrap12(r + 2) || i == wrap12(r + 4) || i == wrap12(r + 7) || i == wrap12(r + 10))) by {}
    lemma_all_tones_sound_wrapped(pcs, rc, tc);
    if tc == 0 {
        assert(template(tc).1 == seq![0int, 2, 4, 7, 10]);
        lemma_q0_tones_0(pcs, r, rc);
    } else if tc == 1 {
        assert(template(tc).1 == seq![0int, 2, 4, 7, 11]);
        lemma_q0_tones_1(pcs, r, rc);
    } else if tc == 2 {
        assert(template(tc).1 == seq![0int, 2, 3, 7, 10]);
        lemma_q0_tones_2(pcs, r, rc);
    } else if tc == 3 {
        assert(template(tc).1 == seq![0int, 4, 7, 11]);
    } else if tc == 4 {
        assert(template(tc).1 == seq![0int, 4, 7, 10]);
    } else if tc == 5 {
        assert(template(tc).1 == seq![0int, 3, 7, 10]);
    } else if tc == 6 {
        assert(template(tc).1 == seq![0int, 3, 7, 11]);
    } else if tc == 7 {
        assert(template(tc).1 == seq![0int, 3, 6, 9]);
    } else if tc == 8 {
        assert(template(tc).1 == seq![0int, 3, 6, 10]);
    } else if tc == 9 {
        assert(template(tc).1 == seq![0int, 4, 8, 11]);
    } else if tc == 10 {
        assert(template(tc).1 == seq![0int, 5, 7, 10]);
    } else if tc == 11 {
        assert(template(tc).1 == seq![0int, 2, 4, 7]);
    } else if tc == 12 {
        assert(template(tc).1 == seq![0int, 2, 3, 7]);
    } else if tc == 13 {
        assert(template(tc).1 == seq![0int, 4, 7]);
    } else if tc == 14 {
        assert(template(tc).1 == seq![0int, 3, 7]);
    } else if tc == 15 {
        assert(template(tc).1 == seq![0int, 3, 6]);
    } else if tc == 16 {
        assert(template(tc).1 == seq![0int, 4, 8]);
    } else if tc == 17 {
        assert(template(tc).1 == seq![0int, 2, 7]);
    } else if tc == 18 {
        assert(template(tc).1 == seq![0int, 5, 7]);
    } else if tc == 19 {
        assert(template(tc).1 == seq![0int, 7]);
    }
}

/// A chord whose sounding pitch classes are exactly root + {0, 2, 4, 7, 10} (a
/// dominant ninth) is named Dom9 on that root, with no uncertainty.
#[verifier::rlimit(40)]
pub proof fn lemma_dom9_is_named(midis: Seq<int>, r: int, c: ChordName)
    requires
        0 <= r < 12,
        forall|i: int| 0 <= i < 12 ==> (#[trigger] pc_set(midis)[i] <==> (i == r || i == (r + 2) % 12 || i == (r + 4) % 12 || i == (r + 7) % 12 || i == (r + 10) % 12)),
        chord_result_ok(midis, c),
    ensures
        c.root.0 == r,
        c.quality == ChordQuality::Dom9,
        !c.uncertain,
{
    let pcs = pc_set(midis);
    let rc = c.root.0 as int;
    let tc = choose|t: int|
        is_best(pcs, rc, t) && #[trigger] template(t).0 == c.quality && c.uncertain == (extra_of(pcs, rc, t) > 0
            || missing_of(pcs, rc, t) > 0);
    assert(is_best(pcs, rc, tc));
    let tt = template(0).1;
    assert(tt == seq![0int, 2, 4, 7, 10]);
    lemma_exact_facts(pcs, r, 0);
    assert forall|i: int| 0 <= i < 12 && pcs[i] implies #[trigger] expected_set(r, 0)[i] by {
        if i == r {
            assert((r + tt[0]) % 12 == i);
        } else if i == (r + 2) % 12 {
            assert((r + tt[1]) % 12 == i);
        } else if i == (r + 4) % 12 {
            assert((r + tt[2]) % 12 == i);
        } else if i == (r + 7) % 12 {
            assert((r + tt[3]) % 12 == i);
        } else if i == (r + 10) % 12 {
            assert((r + tt[4]) % 12 == i);
        }
    }
    assert forall|k: int| 0 <= k < tt.len() implies #[trigger] pcs[(r + template(0).1[k]) % 12] by {
        assert(pcs[(r + tt[k]) % 12]);
    }
    assert(pcs[r]);
    assert(is_candidate(pcs, r, 0));
    assert(!ranks_before(pcs, r, 0, rc, tc));
    lemma_exact_facts(pcs, rc, tc);
    assert(extra_of(pcs, rc, tc) == 0 && missing_of(pcs, rc, tc) == 0);
    assert(pcs[rc]);
    assert(0 <= tc < 20);
    assert(template(tc).1.len() >= 5);
    lemma_q0_only(pcs, r, rc, tc);
}

proof fn lemma_q1_tones_0(pcs: Seq<bool>, r: int, rc: int)
    requires
        0 <= r < 12,
        0 <= rc < 12,
        forall|i: int| 0 <= i < 12 ==> (#[trigger] pcs[i] <==> (i == wrap12(r + 0) || i == wrap12(r + 2) || i == wrap12(r + 4) || i == wrap12(r + 7) || i == wrap12(r + 11))),
    ensures
        (pcs[wrap12(rc + 0)] && pcs[wrap12(rc + 2)] && pcs[wrap12(rc + 4)] && pcs[wrap12(rc + 7)] && pcs[wrap12(rc + 10)]) ==> false,
{
}

proof fn lemma_q1_tones_1(pcs: Seq<bool>, r: int, rc: int)
    requires
        0 <= r < 12,
        0 <= rc < 12,
        forall|i: int| 0 <= i < 12 ==> (#[trigger] pcs[i] <==> (i == wrap12(r + 0) || i == wrap12(r + 2) || i == wrap12(r + 4) || i == wrap12(r + 7) || i == wrap12(r + 11))),
    ensures
        (pcs[wrap12(rc + 0)] && pcs[wrap12(rc + 2)] && pcs[wrap12(rc + 4)] && pcs[wrap12(rc + 7)] && pcs[wrap12(rc + 11)]) ==> rc == r,
{
}

proof fn lemma_q1_tones_2(pcs: Seq<bool>, r: int, rc: int)
    requires
        0 <= r < 12,
        0 <= rc < 12,
        forall|i: int| 0 <= i < 12 ==> (#[trigger] pcs[i] <==> (i == wrap12(r + 0) || i == wrap12(r + 2) || i == wrap12(r + 4) || i == wrap12(r + 7) || i == wrap12(r + 11))),
    ensures
        (pcs[wrap12(rc + 0)] && pcs[wrap12(rc + 2)] && pcs[wrap12(rc + 3)] && pcs[wrap12(rc + 7)] && pcs[wrap12(rc + 10)]) ==> false,
{
}

proof fn lemma_q1_only(pcs: Seq<bool>, r: int, rc: int, tc: int)
    requires
        0 <= r < 12,
        0 <= rc < 12,
        0 <= tc < 20,
        template(tc).1.len() >= 5,
        forall|i: int| 0 <= i < 12 ==> (#[trigger] pcs[i] <==> (i == r || i == (r + 2) % 12 || i == (r + 4) % 12 || i == (r + 7) % 12 || i == (r + 11) % 12)),
        missing_of(pcs, rc, tc) == 0,
    ensures
        tc == 1 && rc == r,
{
    lemma_wrap12(r + 0);
    lemma_wrap12(r + 2);
    lemma_wrap12(r + 4);
    lemma_wrap12(r + 7);
    lemma_wrap12(r + 11);
    assert forall|i: int| 0 <= i < 12 implies (#[trigger] pcs[i] <==> (i == wrap12(r + 0) || i == wrap12(r + 2) || i == wrap12(r + 4) || i == wrap12(r + 7) || i == wrap12(r + 11))) by {}
    lemma_all_tones_sound_wrapped(pcs, rc, tc);
    if tc == 0 {
        assert(template(tc).1 == seq![0int, 2, 4, 7, 10]);
        lemma_q1_tones_0(pcs, r, rc);
    } else if tc == 1 {
        assert(template(tc).1 == seq![0int, 2, 4, 7, 11]);
        lemma_q1_tones_1(pcs, r, rc);
    } else if tc == 2 {
        assert(template(tc).1 == seq![0int, 2, 3, 7, 10]);
        lemma_q1_tones_2(pcs, r, rc);
    } else if tc == 3 {
        assert(template(tc).1 == seq![0int, 4, 7, 11]);
    } else if tc == 4 {
        assert(template(tc).1 == seq![0int, 4, 7, 10]);
    } else if tc == 5 {
        assert(template(tc).1 == seq![0int, 3, 7, 10]);
    } else if tc == 6 {
        assert(template(tc).1 == seq![0int, 3, 7, 11]);
    } else if tc == 7 {
        assert(template(tc).1 == seq![0int, 3, 6, 9]);
    } else if tc == 8 {
        assert(template(tc).1 == seq![0int, 3, 6, 10]);
    } else if tc == 9 {
        assert(template(tc).1 == seq![0int, 4, 8, 11]);
    } else if tc == 10 {
        assert(template(tc).1 == seq![0int, 5, 7, 10]);
    } else if tc == 11 {
        assert(template(tc).1 == seq![0int, 2, 4, 7]);
    } else if tc == 12 {
        assert(template(tc).1 == seq![0int, 2, 3, 7]);
    } else if tc == 13 {
        assert(template(tc).1 == seq![0int, 4, 7]);
    } else if tc == 14 {
        assert(template(tc).1 == seq![0int, 3, 7]);
    } else if tc == 15 {
        assert(template(tc).1 == seq![0int, 3, 6]);
    } else if tc == 16 {
        assert(template(tc).1 == seq![0int, 4, 8]);
    } else if tc == 17 {
        assert(template(tc).1 == seq![0int, 2, 7]);
    } else if tc == 18 {
        assert(template(tc).1 == seq![0int, 5, 7]);
    } else if tc == 19 {
        assert(template(tc).1 == seq![0int, 7]);
    }
}

/// A chord whose sounding pitch classes are exactly root + {0, 2, 4, 7, 11} (a
/// major ninth) is named Maj9 on that root, with no uncertainty.
#[verifier::rlimit(40)]
pub proof fn lemma_maj9_is_named(midis: Seq<int>, r: int, c: ChordName)
    requires
        0 <= r < 12,
        forall|i: int| 0 <= i < 12 ==> (#[trigger] pc_set(midis)[i] <==> (i == r || i == (r + 2) % 12 || i == (r + 4) % 12 || i == (r + 7) % 12 || i == (r + 11) % 12)),
        chord_result_ok(midis, c),
    ensures
        c.root.0 == r,
        c.quality == ChordQuality::Maj9,
        !c.uncertain,
{
    let pcs = pc_set(midis);
    let rc = c.root.0 as int;
    let tc = choose|t: int|
        is_best(pcs, rc, t) && #[trigger] template(t).0 == c.quality && c.uncertain == (extra_of(pcs, rc, t) > 0
            || missing_of(pcs, rc, t) > 0);
    assert(is_best(pcs, rc, tc));
    let tt = template(1).1;
    assert(tt == seq![0int, 2, 4, 7, 11]);
    lemma_exact_facts(pcs, r, 1);
    assert forall|i: int| 0 <= i < 12 && pcs[i] implies #[trigger] expected_set(r, 1)[i] by {
        if i == r {
            assert((r + tt[0]) % 12 == i);
        } else if i == (r + 2) % 12 {
            assert((r + tt[1]) % 12 == i);
        } else if i == (r + 4) % 12 {
            assert((r + tt[2]) % 12 == i);
        } else if i == (r + 7) % 12 {
            assert((r + tt[3]) % 12 == i);
        } else if i == (r + 11) % 12 {
            assert((r + tt[4]) % 12 == i);
        }
    }
    assert forall|k: int| 0 <= k < tt.len() implies #[trigger] pcs[(r + template(1).1[k]) % 12] by {
        assert(pcs[(r + tt[k]) % 12]);
    }
    assert(pcs[r]);
    assert(is_candidate(pcs, r, 1));
    assert(!ranks_before(pcs, r, 1, rc, tc));
    lemma_exact_facts(pcs, rc, tc);
    assert(extra_of(pcs, rc, tc) == 0 && missing_of(pcs, rc, tc) == 0);
    assert(pcs[rc]);
    assert(0 <= tc < 20);
    assert(template(tc).1.len() >= 5);
    lemma_q1_only(pcs, r, rc, tc);
}

proof fn lemma_q2_tones_0(pcs: Seq<bool>, r: int, rc: int)
    requires
        0 <= r < 12,
        0 <= rc < 12,
        forall|i: int| 0 <= i < 12 ==> (#[trigger] pcs[i] <==> (i == wrap12(r + 0) || i == wrap12(r + 2) || i == wrap12(r + 3) || i == wrap12(r + 7) || i == wrap12(r + 10))),
    ensures
        (pcs[wrap12(rc + 0)] && pcs[wrap12(rc + 2)] && pcs[wrap12(rc + 4)] && pcs[wrap12(rc + 7)] && pcs[wrap12(rc + 10)]) ==> false,
{
}

proof fn lemma_q2_tones_1(pcs: Seq<bool>, r: int, rc: int)
    requires
        0 <= r < 12,
        0 <= rc < 12,
        forall|i: int| 0 <= i < 12 ==> (#[trigger] pcs[i] <==> (i == wrap12(r + 0) || i == wrap12(r + 2) || i == wrap12(r + 3) || i == wrap12(r + 7) || i == wrap12(r + 10))),
    ensures
        (pcs[wrap12(rc + 0)] && pcs[wrap12(rc + 2)] && pcs[wrap12(rc + 4)] && pcs[wrap12(rc + 7)] && pcs[wrap12(rc + 11)]) ==> false,
{
}

proof fn lemma_q2_tones_2(pcs: Seq<bool>, r: int, rc: int)
    requires
        0 <= r < 12,
        0 <= rc < 12,
        forall|i: int| 0 <= i < 12 ==> (#[trigger] pcs[i] <==> (i == wrap12(r + 0) || i == wrap12(r + 2) || i == wrap12(r + 3) || i == wrap12(r + 7) || i == wrap12(r + 10))),
    ensures
        (pcs[wrap12(rc + 0)] && pcs[wrap12(rc + 2)] && pcs[wrap12(rc + 3)] && pcs[wrap12(rc + 7)] && pcs[wrap12(rc + 10)]) ==> rc == r,
{
}

proof fn lemma_q2_only(pcs: Seq<bool>, r: int, rc: int, tc: int)
    requires
        0 <= r < 12,
        0 <= rc < 12,
        0 <= tc < 20,
        template(tc).1.len() >= 5,
        forall|i: int| 0 <= i < 12 ==> (#[trigger] pcs[i] <==> (i == r || i == (r + 2) % 12 || i == (r + 3) % 12 || i == (r + 7) % 12 || i == (r + 10) % 12)),
        missing_of(pcs, rc, tc) == 0,
    ensures
        tc == 2 && rc == r,
{
    lemma_wrap12(r + 0);
    lemma_wrap12(r + 2);
    lemma_wrap12(r + 3);
    lemma_wrap12(r + 7);
    lemma_wrap12(r + 10);
    assert forall|i: int| 0 <= i < 12 implies (#[trigger] pcs[i] <==> (i == wrap12(r + 0) || i == wrap12(r + 2) || i == wrap12(r + 3) || i == wrap12(r + 7) || i == wrap12(r + 10))) by {}
    lemma_all_tones_sound_wrapped(pcs, rc, tc);
    if tc == 0 {
        assert(template(tc).1 == seq![0int, 2, 4, 7, 10]);
        lemma_q2_tones_0(pcs, r, rc);
    } else if tc == 1 {
        assert(template(tc).1 == seq![0int, 2, 4, 7, 11]);
        lemma_q2_tones_1(pcs, r, rc);
    } else if tc == 2 {
        assert(template(tc).1 == seq![0int, 2, 3, 7, 10]);
        lemma_q2_tones_2(pcs, r, rc);
    } else if tc == 3 {
        assert(template(tc).1 == seq![0int, 4, 7, 11]);
    } else if tc == 4 {
        assert(template(tc).1 == seq![0int, 4, 7, 10]);
    } else if tc == 5 {
        assert(template(tc).1 == seq![0int, 3, 7, 10]);
    } else if tc == 6 {
        assert(template(tc).1 == seq![0int, 3, 7, 11]);
    } else if tc == 7 {
        assert(template(tc).1 == seq![0int, 3, 6, 9]);
    } else if tc == 8 {
        assert(template(tc).1 == seq![0int, 3, 6, 10]);
    } else if tc == 9 {
        assert(template(tc).1 == seq![0int, 4, 8, 11]);
    } else if tc == 10 {
        assert(template(tc).1 == seq![0int, 5, 7, 10]);
    } else if tc == 11 {
        assert(template(tc).1 == seq![0int, 2, 4, 7]);
    } else if tc == 12 {
        assert(template(tc).1 == seq![0int, 2, 3, 7]);
    } else if tc == 13 {
        assert(template(tc).1 == seq![0int, 4, 7]);
    } else if tc == 14 {
        assert(template(tc).1 == seq![0int, 3, 7]);
    } else if tc == 15 {
        assert(template(tc).1 == seq![0int, 3, 6]);
    } else if tc == 16 {
        assert(template(tc).1 == seq![0int, 4, 8]);
    } else if tc == 17 {
        assert(template(tc).1 == seq![0int, 2, 7]);
    } else if tc == 18 {
        assert(template(tc).1 == seq![0int, 5, 7]);
    } else if tc == 19 {
        assert(template(tc).1 == seq![0int, 7]);
    }
}

/// A chord whose sounding pitch classes are exactly root + {0, 2, 3, 7, 10} (a
/// minor ninth) is named Min9 on that root, with no uncertainty.
#[verifier::rlimit(40)]
pub proof fn lemma_min9_is_named(midis: Seq<int>, r: int, c: ChordName)
    requires
        0 <= r < 12,
        forall|i: int| 0 <= i < 12 ==> (#[trigger] pc_set(midis)[i] <==> (i == r || i == (r + 2) % 12 || i == (r + 3) % 12 || i == (r + 7) % 12 || i == (r + 10) % 12)),
        chord_result_ok(midis, c),
    ensures
        c.root.0 == r,
        c.quality == ChordQuality::Min9,
        !c.uncertain,
{
    let pcs = pc_set(midis);
    let rc = c.root.0 as int;
    let tc = choose|t: int|
        is_best(pcs, rc, t) && #[trigger] template(t).0 == c.quality && c.uncertain == (extra_of(pcs, rc, t) > 0
            || missing_of(pcs, rc, t) > 0);
    assert(is_best(pcs, rc, tc));
    let tt = template(2).1;
    assert(tt == seq![0int, 2, 3, 7, 10]);
    lemma_exact_facts(pcs, r, 2);
    assert forall|i: int| 0 <= i < 12 && pcs[i] implies #[trigger] expected_set(r, 2)[i] by {
        if i == r {
            assert((r + tt[0]) % 12 == i);
        } else if i == (r + 2) % 12 {
            assert((r + tt[1]) % 12 == i);
        } else if i == (r + 3) % 12 {
            assert((r + tt[2]) % 12 == i);
        } else if i == (r + 7) % 12 {
            assert((r + tt[3]) % 12 == i);
        } else if i == (r + 10) % 12 {
            assert((r + tt[4]) % 12 == i);
        }
    }
    assert forall|k: int| 0 <= k < tt.len() implies #[trigger] pcs[(r + template(2).1[k]) % 12] by {
        assert(pcs[(r + tt[k]) % 12]);
    }
    assert(pcs[r]);
    assert(is_candidate(pcs, r, 2));
    assert(!ranks_before(pcs, r, 2, rc, tc));
    lemma_exact_facts(pcs, rc, tc);
    assert(extra_of(pcs, rc, tc) == 0 && missing_of(pcs, rc, tc) == 0);
    assert(pcs[rc]);
    assert(0 <= tc < 20);
    assert(template(tc).1.len() >= 5);
    lemma_q2_only(pcs, r, rc, tc);
}

proof fn lemma_q3_tones_0(pcs: Seq<bool>, r: int, rc: int)
    requires
        0 <= r < 12,
        0 <= rc < 12,
        forall|i: int| 0 <= i < 12 ==> (#[trigger] pcs[i] <==> (i == wrap12(r + 0) || i == wrap12(r + 4) || i == wrap12(r + 7) || i == wrap12(r + 11))),
    ensures
        (pcs[wrap12(rc + 0)] && pcs[wrap12(rc + 2)] && pcs[wrap12(rc + 4)] && pcs[wrap12(rc + 7)] && pcs[wrap12(rc + 10)]) ==> false,
{
}

proof fn lemma_q3_tones_1(pcs: Seq<bool>, r: int, rc: int)
    requires
        0 <= r < 12,
        0 <= rc < 12,
        forall|i: int| 0 <= i < 12 ==> (#[trigger] pcs[i] <==> (i == wrap12(r + 0) || i == wrap12(r + 4) || i == wrap12(r + 7) || i == wrap12(r + 11))),
    ensures
        (pcs[wrap12(rc + 0)] && pcs[wrap12(rc + 2)] && pcs[wrap12(rc + 4)] && pcs[wrap12(rc + 7)] && pcs[wrap12(rc + 11)]) ==> false,
{
}

proof fn lemma_q3_tones_2(pcs: Seq<bool>, r: int, rc: int)
    requires
        0 <= r < 12,
        0 <= rc < 12,
        forall|i: int| 0 <= i < 12 ==> (#[trigger] pcs[i] <==> (i == wrap12(r + 0) || i == wrap12(r + 4) || i == wrap12(r + 7) || i == wrap12(r + 11))),
    ensures
        (pcs[wrap12(rc + 0)] && pcs[wrap12(rc + 2)] && pcs[wrap12(rc + 3)] && pcs[wrap12(rc + 7)] && pcs[wrap12(rc + 10)]) ==> false,
{
}

proof fn lemma_q3_tones_3(pcs: Seq<bool>, r: int, rc: int)
    requires
        0 <= r < 12,
        0 <= rc < 12,
        forall|i: int| 0 <= i < 12 ==> (#[trigger] pcs[i] <==> (i == wrap12(r + 0) || i == wrap12(r + 4) || i == wrap12(r + 7) || i == wrap12(r + 11))),
    ensures
        (pcs[wrap12(rc + 0)] && pcs[wrap12(rc + 4)] && pcs[wrap12(rc + 7)] && pcs[wrap12(rc + 11)]) ==> rc == r,
{
}

proof fn lemma_q3_tones_4(pcs: Seq<bool>, r: int, rc: int)
    requires
        0 <= r < 12,
        0 <= rc < 12,
        forall|i: int| 0 <= i < 12 ==> (#[trigger] pcs[i] <==> (i == wrap12(r + 0) || i == wrap12(r + 4) || i == wrap12(r + 7) || i == wrap12(r + 11))),
    ensures
        (pcs[wrap12(rc + 0)] && pcs[wrap12(rc + 4)] && pcs[wrap12(rc + 7)] && pcs[wrap12(rc + 10)]) ==> false,
{
}

proof fn lemma_q3_tones_5(pcs: Seq<bool>, r: int, rc: int)
    requires
        0 <= r < 12,
        0 <= rc < 12,
        forall|i: int| 0 <= i < 12 ==> (#[trigger] pcs[i] <==> (i == wrap12(r + 0) || i == wrap12(r + 4) || i == wrap12(r + 7) || i == wrap12(r + 11))),
    ensures
        (pcs[wrap12(rc + 0)] && pcs[wrap12(rc + 3)] && pcs[wrap12(rc + 7)] && pcs[wrap12(rc + 10)]) ==> false,
{
}

proof fn lemma_q3_tones_6(pcs: Seq<bool>, r: int, rc: int)
    requires
        0 <= r < 12,
        0 <= rc < 12,
        forall|i: int| 0 <= i < 12 ==> (#[trigger] pcs[i] <==> (i == wrap12(r + 0) || i == wrap12(r + 4) || i == wrap12(r + 7) || i == wrap12(r + 11))),
    ensures
        (pcs[wrap12(rc + 0)] && pcs[wrap12(rc + 3)] && pcs[wrap12(rc + 7)] && pcs[wrap12(rc + 11)]) ==> false,
{
}

proof fn lemma_q3_tones_7(pcs: Seq<bool>, r: int, rc: int)
    requires
        0 <= r < 12,
        0 <= rc < 12,
        forall|i: int| 0 <= i < 12 ==> (#[trigger] pcs[i] <==> (i == wrap12(r + 0) || i == wrap12(r + 4) || i == wrap12(r + 7) || i == wrap12(r + 11))),
    ensures
        (pcs[wrap12(rc + 0)] && pcs[wrap12(rc + 3)] && pcs[wrap12(rc + 6)] && pcs[wrap12(rc + 9)]) ==> false,
{
}

proof fn lemma_q3_tones_8(pcs: Seq<bool>, r: int, rc: int)
    requires
        0 <= r < 12,
        0 <= rc < 12,
        forall|i: int| 0 <= i < 12 ==> (#[trigger] pcs[i] <==> (i == wrap12(r + 0) || i == wrap12(r + 4) || i == wrap12(r + 7) || i == wrap12(r + 11))),
    ensures
        (pcs[wrap12(rc + 0)] && pcs[wrap12(rc + 3)] && pcs[wrap12(rc + 6)] && pcs[wrap12(rc + 10)]) ==> false,
{
}

proof fn lemma_q3_tones_9(pcs: Seq<bool>, r: int, rc: int)
    requires
        0 <= r < 12,
        0 <= rc < 12,
        forall|i: int| 0 <= i < 12 ==> (#[trigger] pcs[i] <==> (i == wrap12(r + 0) || i == wrap12(r + 4) || i == wrap12(r + 7) || i == wrap12(r + 11))),
    ensures
        (pcs[wrap12(rc + 0)] && pcs[wrap12(rc + 4)] && pcs[wrap12(rc + 8)] && pcs[wrap12(rc + 11)]) ==> false,
{
}

proof fn lemma_q3_tones_10(pcs: Seq<bool>, r: int, rc: int)
    requires
        0 <= r < 12,
        0 <= rc < 12,
        forall|i: int| 0 <= i < 12 ==> (#[trigger] pcs[i] <==> (i == wrap12(r + 0) || i == wrap12(r + 4) || i == wrap12(r + 7) || i == wrap12(r + 11))),
    ensures
        (pcs[wrap12(rc + 0)] && pcs[wrap12(rc + 5)] && pcs[wrap12(rc + 7)] && pcs[wrap12(rc + 10)]) ==> false,
{
}

proof fn lemma_q3_tones_11(pcs: Seq<bool>, r: int, rc: int)
    requires
        0 <= r < 12,
        0 <= rc < 12,
        forall|i: int| 0 <= i < 12 ==> (#[trigger] pcs[i] <==> (i == wrap12(r + 0) || i == wrap12(r + 4) || i == wrap12(r + 7) || i == wrap12(r + 11))),
    ensures
        (pcs[wrap12(rc + 0)] && pcs[wrap12(rc + 2)] && pcs[wrap12(rc + 4)] && pcs[wrap12(rc + 7)]) ==> false,
{
}

proof fn lemma_q3_tones_12(pcs: Seq<bool>, r: int, rc: int)
    requires
        0 <= r < 12,
        0 <= rc < 12,
        forall|i: int| 0 <= i < 12 ==> (#[trigger] pcs[i] <==> (i == wrap12(r + 0) || i == wrap12(r + 4) || i == wrap12(r + 7) || i == wrap12(r + 11))),
    ensures
        (pcs[wrap12(rc + 0)] && pcs[wrap12(rc + 2)] && pcs[wrap12(rc + 3)] && pcs[wrap12(rc + 7)]) ==> false,
{
}

proof fn lemma_q3_only(pcs: Seq<bool>, r: int, rc: int, tc: int)
    requires
        0 <= r < 12,
        0 <= rc < 12,
        0 <= tc < 20,
        template(tc).1.len() >= 4,
        forall|i: int| 0 <= i < 12 ==> (#[trigger] pcs[i] <==> (i == r || i == (r + 4) % 12 || i == (r + 7) % 12 || i == (r + 11) % 12)),
        missing_of(pcs, rc, tc) == 0,
    ensures
        tc == 3 && rc == r,
{
    lemma_wrap12(r + 0);
    lemma_wrap12(r + 4);
    lemma_wrap12(r + 7);
    lemma_wrap12(r + 11);
    assert forall|i: int| 0 <= i < 12 implies (#[trigger] pcs[i] <==> (i == wrap12(r + 0) || i == wrap12(r + 4) || i == wrap12(r + 7) || i == wrap12(r + 11))) by {}
    lemma_all_tones_sound_wrapped(pcs, rc, tc);
    if tc == 0 {
        assert(template(tc).1 == seq![0int, 2, 4, 7, 10]);
        lemma_q3_tones_0(pcs, r, rc);
    } else if tc == 1 {
        assert(template(tc).1 == seq![0int, 2, 4, 7, 11]);
        lemma_q3_tones_1(pcs, r, rc);
    } else if tc == 2 {
        assert(template(tc).1 == seq![0int, 2, 3, 7, 10]);
        lemma_q3_tones_2(pcs, r, rc);
    } else if tc == 3 {
        assert(template(tc).1 == seq![0int, 4, 7, 11]);
        lemma_q3_tones_3(pcs, r, rc);
    } else if tc == 4 {
        assert(template(tc).1 == seq![0int, 4, 7, 10]);
        lemma_q3_tones_4(pcs, r, rc);
    } else if tc == 5 {
        assert(template(tc).1 == seq![0int, 3, 7, 10]);
        lemma_q3_tones_5(pcs, r, rc);
    } else if tc == 6 {
        assert(template(tc).1 == seq![0int, 3, 7, 11]);
        lemma_q3_tones_6(pcs, r, rc);
    } else if tc == 7 {
        assert(template(tc).1 == seq![0int, 3, 6, 9]);
        lemma_q3_tones_7(pcs, r, rc);
    } else if tc == 8 {
        assert(template(tc).1 == seq![0int, 3, 6, 10]);
        lemma_q3_tones_8(pcs, r, rc);
    } else if tc == 9 {
        assert(template(tc).1 == seq![0int, 4, 8, 11]);
        lemma_q3_tones_9(pcs, r, rc);
    } else if tc == 10 {
        assert(template(tc).1 == seq![0int, 5, 7, 10]);
        lemma_q3_tones_10(pcs, r, rc);
    } else if tc == 11 {
        assert(template(tc).1 == seq![0int, 2, 4, 7]);
        lemma_q3_tones_11(pcs, r, rc);
    } else if tc == 12 {
        assert(template(tc).1 == seq![0int, 2, 3, 7]);
        lemma_q3_tones_12(pcs, r, rc);
    } else if tc == 13 {
        assert(template(tc).1 == seq![0int, 4, 7]);
    } else if tc == 14 {
        assert(template(tc).1 == seq![0int, 3, 7]);
    } else if tc == 15 {
        assert(template(tc).1 == seq![0int, 3, 6]);
    } else if tc == 16 {
        assert(template(tc).1 == seq![0int, 4, 8]);
    } else if tc == 17 {
        assert(template(tc).1 == seq![0int, 2, 7]);
    } else if tc == 18 {
        assert(template(tc).1 == seq![0int, 5, 7]);
    } else if tc == 19 {
        assert(template(tc).1 == seq![0int, 7]);
    }
}

/// A chord whose sounding pitch classes are exactly root + {0, 4, 7, 11} (a
/// major seventh) is named Maj7 on that root, with no uncertainty.
#[verifier::rlimit(40)]
pub proof fn lemma_maj7_is_named(midis: Seq<int>, r: int, c: ChordName)
    requires
        0 <= r < 12,
        forall|i: int| 0 <= i < 12 ==> (#[trigger] pc_set(midis)[i] <==> (i == r || i == (r + 4) % 12 || i == (r + 7) % 12 || i == (r + 11) % 12)),
        chord_result_ok(midis, c),
    ensures
        c.root.0 == r,
        c.quality == ChordQuality::Maj7,
        !c.uncertain,
{
    let pcs = pc_set(midis);
    let rc = c.root.0 as int;
    let tc = choose|t: int|
        is_best(pcs, rc, t) && #[trigger] template(t).0 == c.quality && c.uncertain == (extra_of(pcs, rc, t) > 0
            || missing_of(pcs, rc, t) > 0);
    assert(is_best(pcs, rc, tc));
    let tt = template(3).1;
    assert(tt == seq![0int, 4, 7, 11]);
    lemma_exact_facts(pcs, r, 3);
    assert forall|i: int| 0 <= i < 12 && pcs[i] implies #[trigger] expected_set(r, 3)[i] by {
        if i == r {
            assert((r + tt[0]) % 12 == i);
        } else if i == (r + 4) % 12 {
            assert((r + tt[1]) % 12 == i);
        } else if i == (r + 7) % 12 {
            assert((r + tt[2]) % 12 == i);
        } else if i == (r + 11) % 12 {
            assert((r + tt[3]) % 12 == i);
        }
    }
    assert forall|k: int| 0 <= k < tt.len() implies #[trigger] pcs[(r + template(3).1[k]) % 12] by {
        assert(pcs[(r + tt[k]) % 12]);
    }
    assert(pcs[r]);
    assert(is_candidate(pcs, r, 3));
    assert(!ranks_before(pcs, r, 3, rc, tc));
    lemma_exact_facts(pcs, rc, tc);
    assert(extra_of(pcs, rc, tc) == 0 && missing_of(pcs, rc, tc) == 0);
    assert(pcs[rc]);
    assert(0 <= tc < 20);
    assert(template(tc).1.len() >= 4);
    lemma_q3_only(pcs, r, rc, tc);
}

proof fn lemma_q4_tones_0(pcs: Seq<bool>, r: int, rc: int)
    requires
        0 <= r < 12,
        0 <= rc < 12,
        forall|i: int| 0 <= i < 12 ==> (#[trigger] pcs[i] <==> (i == wrap12(r + 0) || i == wrap12(r + 4) || i == wrap12(r + 7) || i == wrap12(r + 10))),
    ensures
        (pcs[wrap12(rc + 0)] && pcs[wrap12(rc + 2)] && pcs[wrap12(rc + 4)] && pcs[wrap12(rc + 7)] && pcs[wrap12(rc + 10)]) ==> false,
{
}

proof fn lemma_q4_tones_1(pcs: Seq<bool>, r: int, rc: int)
    requires
        0 <= r < 12,
        0 <= rc < 12,
        forall|i: int| 0 <= i < 12 ==> (#[trigger] pcs[i] <==> (i == wrap12(r + 0) || i == wrap12(r + 4) || i == wrap12(r + 7) || i == wrap12(r + 10))),
    ensures
        (pcs[wrap12(rc + 0)] && pcs[wrap12(rc + 2)] && pcs[wrap12(rc + 4)] && pcs[wrap12(rc + 7)] && pcs[wrap12(rc + 11)]) ==> false,
{
}

proof fn lemma_q4_tones_2(pcs: Seq<bool>, r: int, rc: int)
    requires
        0 <= r < 12,
        0 <= rc < 12,
        forall|i: int| 0 <= i < 12 ==> (#[trigger] pcs[i] <==> (i == wrap12(r + 0) || i == wrap12(r + 4) || i == wrap12(r + 7) || i == wrap12(r + 10))),
    ensures
        (pcs[wrap12(rc + 0)] && pcs[wrap12(rc + 2)] && pcs[wrap12(rc + 3)] && pcs[wrap12(rc + 7)] && pcs[wrap12(rc + 10)]) ==> false,
{
}

proof fn lemma_q4_tones_3(pcs: Seq<bool>, r: int, rc: int)
    requires
        0 <= r < 12,
        0 <= rc < 12,
        forall|i: int| 0 <= i < 12 ==> (#[trigger] pcs[i] <==> (i == wrap12(r + 0) || i == wrap12(r + 4) || i == wrap12(r + 7) || i == wrap12(r + 10))),
    ensures
        (pcs[wrap12(rc + 0)] && pcs[wrap12(rc + 4)] && pcs[wrap12(rc + 7)] && pcs[wrap12(rc + 11)]) ==> false,
{
}

proof fn lemma_q4_tones_4(pcs: Seq<bool>, r: int, rc: int)
    requires
        0 <= r < 12,
        0 <= rc < 12,
        forall|i: int| 0 <= i < 12 ==> (#[trigger] pcs[i] <==> (i == wrap12(r + 0) || i == wrap12(r + 4) || i == wrap12(r + 7) || i == wrap12(r + 10))),
    ensures
        (pcs[wrap12(rc + 0)] && pcs[wrap12(rc + 4)] && pcs[wrap12(rc + 7)] && pcs[wrap12(rc + 10)]) ==> rc == r,
{
}

proof fn lemma_q4_tones_5(pcs: Seq<bool>, r: int, rc: int)
    requires
        0 <= r < 12,
        0 <= rc < 12,
        forall|i: int| 0 <= i < 12 ==> (#[trigger] pcs[i] <==> (i == wrap12(r + 0) || i == wrap12(r + 4) || i == wrap12(r + 7) || i == wrap12(r + 10))),
    ensures
        (pcs[wrap12(rc + 0)] && pcs[wrap12(rc + 3)] && pcs[wrap12(rc + 7)] && pcs[wrap12(rc + 10)]) ==> false,
{
}

proof fn lemma_q4_tones_6(pcs: Seq<bool>, r: int, rc: int)
    requires
        0 <= r < 12,
        0 <= rc < 12,
        forall|i: int| 0 <= i < 12 ==> (#[trigger] pcs[i] <==> (i == wrap12(r + 0) || i == wrap12(r + 4) || i == wrap12(r + 7) || i == wrap12(r + 10))),
    ensures
        (pcs[wrap12(rc + 0)] && pcs[wrap12(rc + 3)] && pcs[wrap12(rc + 7)] && pcs[wrap12(rc + 11)]) ==> false,
{
}

proof fn lemma_q4_tones_7(pcs: Seq<bool>, r: int, rc: int)
    requires
        0 <= r < 12,
        0 <= rc < 12,
        forall|i: int| 0 <= i < 12 ==> (#[trigger] pcs[i] <==> (i == wrap12(r + 0) || i == wrap12(r + 4) || i == wrap12(r + 7) || i == wrap12(r + 10))),
    ensures
        (pcs[wrap12(rc + 0)] && pcs[wrap12(rc + 3)] && pcs[wrap12(rc + 6)] && pcs[wrap12(rc + 9)]) ==> false,
{
}

proof fn lemma_q4_tones_8(pcs: Seq<bool>, r: int, rc: int)
    requires
        0 <= r < 12,
        0 <= rc < 12,
        forall|i: int| 0 <= i < 12 ==> (#[trigger] pcs[i] <==> (i == wrap12(r + 0) || i == wrap12(r + 4) || i == wrap12(r + 7) || i == wrap12(r + 10))),
    ensures
        (pcs[wrap12(rc + 0)] && pcs[wrap12(rc + 3)] && pcs[wrap12(rc + 6)] && pcs[wrap12(rc + 10)]) ==> false,
{
}

proof fn lemma_q4_tones_9(pcs: Seq<bool>, r: int, rc: int)
    requires
        0 <= r < 12,
        0 <= rc < 12,
        forall|i: int| 0 <= i < 12 ==> (#[trigger] pcs[i] <==> (i == wrap12(r + 0) || i == wrap12(r + 4) || i == wrap12(r + 7) || i == wrap12(r + 10))),
    ensures
        (pcs[wrap12(rc + 0)] && pcs[wrap12(rc + 4)] && pcs[wrap12(rc + 8)] && pcs[wrap12(rc + 11)]) ==> false,
{
}

proof fn lemma_q4_tones_10(pcs: Seq<bool>, r: int, rc: int)
    requires
        0 <= r < 12,
        0 <= rc < 12,
        forall|i: int| 0 <= i < 12 ==> (#[trigger] pcs[i] <==> (i == wrap12(r + 0) || i == wrap12(r + 4) || i == wrap12(r + 7) || i == wrap12(r + 10))),
    ensures
        (pcs[wrap12(rc + 0)] && pcs[wrap12(rc + 5)] && pcs[wrap12(rc + 7)] && pcs[wrap12(rc + 10)]) ==> false,
{
}

proof fn lemma_q4_tones_11(pcs: Seq<bool>, r: int, rc: int)
    requires
        0 <= r < 12,
        0 <= rc < 12,
        forall|i: int| 0 <= i < 12 ==> (#[trigger] pcs[i] <==> (i == wrap12(r + 0) || i == wrap12(r + 4) || i == wrap12(r + 7) || i == wrap12(r + 10))),
    ensures
        (pcs[wrap12(rc + 0)] && pcs[wrap12(rc + 2)] && pcs[wrap12(rc + 4)] && pcs[wrap12(rc + 7)]) ==> false,
{
}

proof fn lemma_q4_tones_12(pcs: Seq<bool>, r: int, rc: int)
    requires
        0 <= r < 12,
        0 <= rc < 12,
        forall|i: int| 0 <= i < 12 ==> (#[trigger] pcs[i] <==> (i == wrap12(r + 0) || i == wrap12(r + 4) || i == wrap12(r + 7) || i == wrap12(r + 10))),
    ensures
        (pcs[wrap12(rc + 0)] && pcs[wrap12(rc + 2)] && pcs[wrap12(rc + 3)] && pcs[wrap12(rc + 7)]) ==> false,
{
}

proof fn lemma_q4_only(pcs: Seq<bool>, r: int, rc: int, tc: int)
    requires
        0 <= r < 12,
        0 <= rc < 12,
        0 <= tc < 20,
        template(tc).1.len() >= 4,
        forall|i: int| 0 <= i < 12 ==> (#[trigger] pcs[i] <==> (i == r || i == (r + 4) % 12 || i == (r + 7) % 12 || i == (r + 10) % 12)),
        missing_of(pcs, rc, tc) == 0,
    ensures
        tc == 4 && rc == r,
{
    lemma_wrap12(r + 0);
    lemma_wrap12(r + 4);
    lemma_wrap12(r + 7);
    lemma_wrap12(r + 10);
    assert forall|i: int| 0 <= i < 12 implies (#[trigger] pcs[i] <==> (i == wrap12(r + 0) || i == wrap12(r + 4) || i == wrap12(r + 7) || i == wrap12(r + 10))) by {}
    lemma_all_tones_sound_wrapped(pcs, rc, tc);
    if tc == 0 {
        assert(template(tc).1 == seq![0int, 2, 4, 7, 10]);
        lemma_q4_tones_0(pcs, r, rc);
    } else if tc == 1 {
        assert(template(tc).1 == seq![0int, 2, 4, 7, 11]);
        lemma_q4_tones_1(pcs, r, rc);
    } else if tc == 2 {
        assert(template(tc).1 == seq![0int, 2, 3, 7, 10]);
        lemma_q4_tones_2(pcs, r, rc);
    } else if tc == 3 {
        assert(template(tc).1 == seq![0int, 4, 7, 11]);
        lemma_q4_tones_3(pcs, r, rc);
    } else if tc == 4 {
        assert(template(tc).1 == seq![0int, 4, 7, 10]);
        lemma_q4_tones_4(pcs, r, rc);
    } else if tc == 5 {
        assert(template(tc).1 == seq![0int, 3, 7, 10]);
        lemma_q4_tones_5(pcs, r, rc);
    } else if tc == 6 {
        assert(template(tc).1 == seq![0int, 3, 7, 11]);
        lemma_q4_tones_6(pcs, r, rc);
    } else if tc == 7 {
        assert(template(tc).1 == seq![0int, 3, 6, 9]);
        lemma_q4_tones_7(pcs, r, rc);
    } else if tc == 8 {
        assert(template(tc).1 == seq![0int, 3, 6, 10]);
        lemma_q4_tones_8(pcs, r, rc);
    } else if tc == 9 {
        assert(template(tc).1 == seq![0int, 4, 8, 11]);
        lemma_q4_tones_9(pcs, r, rc);
    } else if tc == 10 {
        assert(template(tc).1 == seq![0int, 5, 7, 10]);
        lemma_q4_tones_10(pcs, r, rc);
    } else if tc == 11 {
        assert(template(tc).1 == seq![0int, 2, 4, 7]);
        lemma_q4_tones_11(pcs, r, rc);
    } else if tc == 12 {
        assert(template(tc).1 == seq![0int, 2, 3, 7]);
        lemma_q4_tones_12(pcs, r, rc);
    } else if tc == 13 {
        assert(template(tc).1 == seq![0int, 4, 7]);
    } else if tc == 14 {
        assert(template(tc).1 == seq![0int, 3, 7]);
    } else if tc == 15 {
        assert(template(tc).1 == seq![0int, 3, 6]);
    } else if tc == 16 {
        assert(template(tc).1 == seq![0int, 4, 8]);
    } else if tc == 17 {
        assert(template(tc).1 == seq![0int, 2, 7]);
    } else if tc == 18 {
        assert(template(tc).1 == seq![0int, 5, 7]);
    } else if tc == 19 {
        assert(template(tc).1 == seq![0int, 7]);
    }
}

/// A chord whose sounding pitch classes are exactly root + {0, 4, 7, 10} (a
/// dominant seventh) is named Dom7 on that root, with no uncertainty.
#[verifier::rlimit(40)]
pub proof fn lemma_dom7_is_named(midis: Seq<int>, r: int, c: ChordName)
    requires
        0 <= r < 12,
        forall|i: int| 0 <= i < 12 ==> (#[trigger] pc_set(midis)[i] <==> (i == r || i == (r + 4) % 12 || i == (r + 7) % 12 || i == (r + 10) % 12)),
        chord_result_ok(midis, c),
    ensures
        c.root.0 == r,
        c.quality == ChordQuality::Dom7,
        !c.uncertain,
{
    let pcs = pc_set(midis);
    let rc = c.root.0 as int;
    let tc = choose|t: int|
        is_best(pcs, rc, t) && #[trigger] template(t).0 == c.quality && c.uncertain == (extra_of(pcs, rc, t) > 0
            || missing_of(pcs, rc, t) > 0);
    assert(is_best(pcs, rc, tc));
    let tt = template(4).1;
    assert(tt == seq![0int, 4, 7, 10]);
    lemma_exact_facts(pcs, r, 4);
    assert forall|i: int| 0 <= i < 12 && pcs[i] implies #[trigger] expected_set(r, 4)[i] by {
        if i == r {
            assert((r + tt[0]) % 12 == i);
        } else if i == (r + 4) % 12 {
            assert((r + tt[1]) % 12 == i);
        } else if i == (r + 7) % 12 {
            assert((r + tt[2]) % 12 == i);
        } else if i == (r + 10) % 12 {
            assert((r + tt[3]) % 12 == i);
        }
    }
    assert forall|k: int| 0 <= k < tt.len() implies #[trigger] pcs[(r + template(4).1[k]) % 12] by {
        assert(pcs[(r + tt[k]) % 12]);
    }
    assert(pcs[r]);
    assert(is_candidate(pcs, r, 4));
    assert(!ranks_before(pcs, r, 4, rc, tc));
    lemma_exact_facts(pcs, rc, tc);
    assert(extra_of(pcs, rc, tc) == 0 && missing_of(pcs, rc, tc) == 0);
    assert(pcs[rc]);
    assert(0 <= tc < 20);
    assert(template(tc).1.len() >= 4);
    lemma_q4_only(pcs, r, rc, tc);
}

proof fn lemma_q5_tones_0(pcs: Seq<bool>, r: int, rc: int)
    requires
        0 <= r < 12,
        0 <= rc < 12,
        forall|i: int| 0 <= i < 12 ==> (#[trigger] pcs[i] <==> (i == wrap12(r + 0) || i == wrap12(r + 3) || i == wrap12(r + 7) || i == wrap12(r + 10))),
    ensures
        (pcs[wrap12(rc + 0)] && pcs[wrap12(rc + 2)] && pcs[wrap12(rc + 4)] && pcs[wrap12(rc + 7)] && pcs[wrap12(rc + 10)]) ==> false,
{
}

proof fn lemma_q5_tones_1(pcs: Seq<bool>, r: int, rc: int)
    requires
        0 <= r < 12,
        0 <= rc < 12,
        forall|i: int| 0 <= i < 12 ==> (#[trigger] pcs[i] <==> (i == wrap12(r + 0) || i == wrap12(r + 3) || i == wrap12(r + 7) || i == wrap12(r + 10))),
    ensures
        (pcs[wrap12(rc + 0)] && pcs[wrap12(rc + 2)] && pcs[wrap12(rc + 4)] && pcs[wrap12(rc + 7)] && pcs[wrap12(rc + 11)]) ==> false,
{
}

proof fn lemma_q5_tones_2(pcs: Seq<bool>, r: int, rc: int)
    requires
        0 <= r < 12,
        0 <= rc < 12,
        forall|i: int| 0 <= i < 12 ==> (#[trigger] pcs[i] <==> (i == wrap12(r + 0) || i == wrap12(r + 3) || i == wrap12(r + 7) || i == wrap12(r + 10))),
    ensures
        (pcs[wrap12(rc + 0)] && pcs[wrap12(rc + 2)] && pcs[wrap12(rc + 3)] && pcs[wrap12(rc + 7)] && pcs[wrap12(rc + 10)]) ==> false,
{
}

proof fn lemma_q5_tones_3(pcs: Seq<bool>, r: int, rc: int)
    requires
        0 <= r < 12,
        0 <= rc < 12,
        forall|i: int| 0 <= i < 12 ==> (#[trigger] pcs[i] <==> (i == wrap12(r + 0) || i == wrap12(r + 3) || i == wrap12(r + 7) || i == wrap12(r + 10))),
    ensures
        (pcs[wrap12(rc + 0)] && pcs[wrap12(rc + 4)] && pcs[wrap12(rc + 7)] && pcs[wrap12(rc + 11)]) ==> false,
{
}

proof fn lemma_q5_tones_4(pcs: Seq<bool>, r: int, rc: int)
    requires
        0 <= r < 12,
        0 <= rc < 12,
        forall|i: int| 0 <= i < 12 ==> (#[trigger] pcs[i] <==> (i == wrap12(r + 0) || i == wrap12(r + 3) || i == wrap12(r + 7) || i == wrap12(r + 10))),
    ensures
        (pcs[wrap12(rc + 0)] && pcs[wrap12(rc + 4)] && pcs[wrap12(rc + 7)] && pcs[wrap12(rc + 10)]) ==> false,
{
}

proof fn lemma_q5_tones_5(pcs: Seq<bool>, r: int, rc: int)
    requires
        0 <= r < 12,
        0 <= rc < 12,
        forall|i: int| 0 <= i < 12 ==> (#[trigger] pcs[i] <==> (i == wrap12(r + 0) || i == wrap12(r + 3) || i == wrap12(r + 7) || i == wrap12(r + 10))),
    ensures
        (pcs[wrap12(rc + 0)] && pcs[wrap12(rc + 3)] && pcs[wrap12(rc + 7)] && pcs[wrap12(rc + 10)]) ==> rc == r,
{
}

proof fn lemma_q5_tones_6(pcs: Seq<bool>, r: int, rc: int)
    requires
        0 <= r < 12,
        0 <= rc < 12,
        forall|i: int| 0 <= i < 12 ==> (#[trigger] pcs[i] <==> (i == wrap12(r + 0) || i == wrap12(r + 3) || i == wrap12(r + 7) || i == wrap12(r + 10))),
    ensures
        (pcs[wrap12(rc + 0)] && pcs[wrap12(rc + 3)] && pcs[wrap12(rc + 7)] && pcs[wrap12(rc + 11)]) ==> false,
{
}

proof fn lemma_q5_tones_7(pcs: Seq<bool>, r: int, rc: int)
    requires
        0 <= r < 12,
        0 <= rc < 12,
        forall|i: int| 0 <= i < 12 ==> (#[trigger] pcs[i] <==> (i == wrap12(r + 0) || i == wrap12(r + 3) || i == wrap12(r + 7) || i == wrap12(r + 10))),
    ensures
        (pcs[wrap12(rc + 0)] && pcs[wrap12(rc + 3)] && pcs[wrap12(rc + 6)] && pcs[wrap12(rc + 9)]) ==> false,
{
}

proof fn lemma_q5_tones_8(pcs: Seq<bool>, r: int, rc: int)
    requires
        0 <= r < 12,
        0 <= rc < 12,
        forall|i: int| 0 <= i < 12 ==> (#[trigger] pcs[i] <==> (i == wrap12(r + 0) || i == wrap12(r + 3) || i == wrap12(r + 7) || i == wrap12(r + 10))),
    ensures
        (pcs[wrap12(rc + 0)] && pcs[wrap12(rc + 3)] && pcs[wrap12(rc + 6)] && pcs[wrap12(rc + 10)]) ==> false,
{
}

proof fn lemma_q5_tones_9(pcs: Seq<bool>, r: int, rc: int)
    requires
        0 <= r < 12,
        0 <= rc < 12,
        forall|i: int| 0 <= i < 12 ==> (#[trigger] pcs[i] <==> (i == wrap12(r + 0) || i == wrap12(r + 3) || i == wrap12(r + 7) || i == wrap12(r + 10))),
    ensures
        (pcs[wrap12(rc + 0)] && pcs[wrap12(rc + 4)] && pcs[wrap12(rc + 8)] && pcs[wrap12(rc + 11)]) ==> false,
{
}

proof fn lemma_q5_tones_10(pcs: Seq<bool>, r: int, rc: int)
    requires
        0 <= r < 12,
        0 <= rc < 12,
        forall|i: int| 0 <= i < 12 ==> (#[trigger] pcs[i] <==> (i == wrap12(r + 0) || i == wrap12(r + 3) || i == wrap12(r + 7) || i == wrap12(r + 10))),
    ensures
        (pcs[wrap12(rc + 0)] && pcs[wrap12(rc + 5)] && pcs[wrap12(rc + 7)] && pcs[wrap12(rc + 10)]) ==> false,
{
}

proof fn lemma_q5_tones_11(pcs: Seq<bool>, r: int, rc: int)
    requires
        0 <= r < 12,
        0 <= rc < 12,
        forall|i: int| 0 <= i < 12 ==> (#[trigger] pcs[i] <==> (i == wrap12(r + 0) || i == wrap12(r + 3) || i == wrap12(r + 7) || i == wrap12(r + 10))),
    ensures
        (pcs[wrap12(rc + 0)] && pcs[wrap12(rc + 2)] && pcs[wrap12(rc + 4)] && pcs[wrap12(rc + 7)]) ==> false,
{
}

proof fn lemma_q5_tones_12(pcs: Seq<bool>, r: int, rc: int)
    requires
        0 <= r < 12,
        0 <= rc < 12,
        forall|i: int| 0 <= i < 12 ==> (#[trigger] pcs[i] <==> (i == wrap12(r + 0) || i == wrap12(r + 3) || i == wrap12(r + 7) || i == wrap12(r + 10))),
    ensures
        (pcs[wrap12(rc + 0)] && pcs[wrap12(rc + 2)] && pcs[wrap12(rc + 3)] && pcs[wrap12(rc + 7)]) ==> false,
{
}

proof fn lemma_q5_only(pcs: Seq<bool>, r: int, rc: int, tc: int)
    requires
        0 <= r < 12,
        0 <= rc < 12,
        0 <= tc < 20,
        template(tc).1.len() >= 4,
        forall|i: int| 0 <= i < 12 ==> (#[trigger] pcs[i] <==> (i == r || i == (r + 3) % 12 || i == (r + 7) % 12 || i == (r + 10) % 12)),
        missing_of(pcs, rc, tc) == 0,
    ensures
        tc == 5 && rc == r,
{
    lemma_wrap12(r + 0);
    lemma_wrap12(r + 3);
    lemma_wrap12(r + 7);
    lemma_wrap12(r + 10);
    assert forall|i: int| 0 <= i < 12 implies (#[trigger] pcs[i] <==> (i == wrap12(r + 0) || i == wrap12(r + 3) || i == wrap12(r + 7) || i == wrap12(r + 10))) by {}
    lemma_all_tones_sound_wrapped(pcs, rc, tc);
    if tc == 0 {
        assert(template(tc).1 == seq![0int, 2, 4, 7, 10]);
        lemma_q5_tones_0(pcs, r, rc);
    } else if tc == 1 {
        assert(template(tc).1 == seq![0int, 2, 4, 7, 11]);
        lemma_q5_tones_1(pcs, r, rc);
    } else if tc == 2 {
        assert(template(tc).1 == seq![0int, 2, 3, 7, 10]);
        lemma_q5_tones_2(pcs, r, rc);
    } else if tc == 3 {
        assert(template(tc).1 == seq![0int, 4, 7, 11]);
        lemma_q5_tones_3(pcs, r, rc);
    } else if tc == 4 {
        assert(template(tc).1 == seq![0int, 4, 7, 10]);
        lemma_q5_tones_4(pcs, r, rc);
    } else if tc == 5 {
        assert(template(tc).1 == seq![0int, 3, 7, 10]);
        lemma_q5_tones_5(pcs, r, rc);
    } else if tc == 6 {
        assert(template(tc).1 == seq![0int, 3, 7, 11]);
        lemma_q5_tones_6(pcs, r, rc);
    } else if tc == 7 {
        assert(template(tc).1 == seq![0int, 3, 6, 9]);
        lemma_q5_tones_7(pcs, r, rc);
    } else if tc == 8 {
        assert(template(tc).1 == seq![0int, 3, 6, 10]);
        lemma_q5_tones_8(pcs, r, rc);
    } else if tc == 9 {
        assert(template(tc).1 == seq![0int, 4, 8, 11]);
        lemma_q5_tones_9(pcs, r, rc);
    } else if tc == 10 {
        assert(template(tc).1 == seq![0int, 5, 7, 10]);
        lemma_q5_tones_10(pcs, r, rc);
    } else if tc == 11 {
        assert(template(tc).1 == seq![0int, 2, 4, 7]);
        lemma_q5_tones_11(pcs, r, rc);
    } else if tc == 12 {
        assert(template(tc).1 == seq![0int, 2, 3, 7]);
        lemma_q5_tones_12(pcs, r, rc);
    } else if tc == 13 {
        assert(template(tc).1 == seq![0int, 4, 7]);
    } else if tc == 14 {
        assert(template(tc).1 == seq![0int, 3, 7]);
    } else if tc == 15 {
        assert(template(tc).1 == seq![0int, 3, 6]);
    } else if tc == 16 {
        assert(template(tc).1 == seq![0int, 4, 8]);
    } else if tc == 17 {
        assert(template(tc).1 == seq![0int, 2, 7]);
    } else if tc == 18 {
        assert(template(tc).1 == seq![0int, 5, 7]);
    } else if tc == 19 {
        assert(template(tc).1 == seq![0int, 7]);
    }
}

/// A chord whose sounding pitch classes are exactly root + {0, 3, 7, 10} (a
/// minor seventh) is named Min7 on that root, with no uncertainty.
#[verifier::rlimit(40)]
pub proof fn lemma_min7_is_named(midis: Seq<int>, r: int, c: ChordName)
    requires
        0 <= r < 12,
        forall|i: int| 0 <= i < 12 ==> (#[trigger] pc_set(midis)[i] <==> (i == r || i == (r + 3) % 12 || i == (r + 7) % 12 || i == (r + 10) % 12)),
        chord_result_ok(midis, c),
    ensures
        c.root.0 == r,
        c.quality == ChordQuality::Min7,
        !c.uncertain,
{
    let pcs = pc_set(midis);
    let rc = c.root.0 as int;
    let tc = choose|t: int|
        is_best(pcs, rc, t) && #[trigger] template(t).0 == c.quality && c.uncertain == (extra_of(pcs, rc, t) > 0
            || missing_of(pcs, rc, t) > 0);
    assert(is_best(pcs, rc, tc));
    let tt = template(5).1;
    assert(tt == seq![0int, 3, 7, 10]);
    lemma_exact_facts(pcs, r, 5);
    assert forall|i: int| 0 <= i < 12 && pcs[i] implies #[trigger] expected_set(r, 5)[i] by {
        if i == r {
            assert((r + tt[0]) % 12 == i);
        } else if i == (r + 3) % 12 {
            assert((r + tt[1]) % 12 == i);
        } else if i == (r + 7) % 12 {
            assert((r + tt[2]) % 12 == i);
        } else if i == (r + 10) % 12 {
            assert((r + tt[3]) % 12 == i);
        }
    }
    assert forall|k: int| 0 <= k < tt.len() implies #[trigger] pcs[(r + template(5).1[k]) % 12] by {
        assert(pcs[(r + tt[k]) % 12]);
    }
    assert(pcs[r]);
    assert(is_candidate(pcs, r, 5));
    assert(!ranks_before(pcs, r, 5, rc, tc));
    lemma_exact_facts(pcs, rc, tc);
    assert(extra_of(pcs, rc, tc) == 0 && missing_of(pcs, rc, tc) == 0);
    assert(pcs[rc]);
    assert(0 <= tc < 20);
    assert(template(tc).1.len() >= 4);
    lemma_q5_only(pcs, r, rc, tc);
}

proof fn lemma_q6_tones_0(pcs: Seq<bool>, r: int, rc: int)
    requires
        0 <= r < 12,
        0 <= rc < 12,
        forall|i: int| 0 <= i < 12 ==> (#[trigger] pcs[i] <==> (i == wrap12(r + 0) || i == wrap12(r + 3) || i == wrap12(r + 7) || i == wrap12(r + 11))),
    ensures
        (pcs[wrap12(rc + 0)] && pcs[wrap12(rc + 2)] && pcs[wrap12(rc + 4)] && pcs[wrap12(rc + 7)] && pcs[wrap12(rc + 10)]) ==> false,
{
}

proof fn lemma_q6_tones_1(pcs: Seq<bool>, r: int, rc: int)
    requires
        0 <= r < 12,
        0 <= rc < 12,
        forall|i: int| 0 <= i < 12 ==> (#[trigger] pcs[i] <==> (i == wrap12(r + 0) || i == wrap12(r + 3) || i == wrap12(r + 7) || i == wrap12(r + 11))),
    ensures
        (pcs[wrap12(rc + 0)] && pcs[wrap12(rc + 2)] && pcs[wrap12(rc + 4)] && pcs[wrap12(rc + 7)] && pcs[wrap12(rc + 11)]) ==> false,
{
}

proof fn lemma_q6_tones_2(pcs: Seq<bool>, r: int, rc: int)
    requires
        0 <= r < 12,
        0 <= rc < 12,
        forall|i: int| 0 <= i < 12 ==> (#[trigger] pcs[i] <==> (i == wrap12(r + 0) || i == wrap12(r + 3) || i == wrap12(r + 7) || i == wrap12(r + 11))),
    ensures
        (pcs[wrap12(rc + 0)] && pcs[wrap12(rc + 2)] && pcs[wrap12(rc + 3)] && pcs[wrap12(rc + 7)] && pcs[wrap12(rc + 10)]) ==> false,
{
}

proof fn lemma_q6_tones_3(pcs: Seq<bool>, r: int, rc: int)
    requires
        0 <= r < 12,
        0 <= rc < 12,
        forall|i: int| 0 <= i < 12 ==> (#[trigger] pcs[i] <==> (i == wrap12(r + 0) || i == wrap12(r + 3) || i == wrap12(r + 7) || i == wrap12(r + 11))),
    ensures
        (pcs[wrap12(rc + 0)] && pcs[wrap12(rc + 4)] && pcs[wrap12(rc + 7)] && pcs[wrap12(rc + 11)]) ==> false,
{
}

proof fn lemma_q6_tones_4(pcs: Seq<bool>, r: int, rc: int)
    requires
        0 <= r < 12,
        0 <= rc < 12,
        forall|i: int| 0 <= i < 12 ==> (#[trigger] pcs[i] <==> (i == wrap12(r + 0) || i == wrap12(r + 3) || i == wrap12(r + 7) || i == wrap12(r + 11))),
    ensures
        (pcs[wrap12(rc + 0)] && pcs[wrap12(rc + 4)] && pcs[wrap12(rc + 7)] && pcs[wrap12(rc + 10)]) ==> false,
{
}

proof fn lemma_q6_tones_5(pcs: Seq<bool>, r: int, rc: int)
    requires
        0 <= r < 12,
        0 <= rc < 12,
        forall|i: int| 0 <= i < 12 ==> (#[trigger] pcs[i] <==> (i == wrap12(r + 0) || i == wrap12(r + 3) || i == wrap12(r + 7) || i == wrap12(r + 11))),
    ensures
        (pcs[wrap12(rc + 0)] && pcs[wrap12(rc + 3)] && pcs[wrap12(rc + 7)] && pcs[wrap12(rc + 10)]) ==> false,
{
}

proof fn lemma_q6_tones_6(pcs: Seq<bool>, r: int, rc: int)
    requires
        0 <= r < 12,
        0 <= rc < 12,
        forall|i: int| 0 <= i < 12 ==> (#[trigger] pcs[i] <==> (i == wrap12(r + 0) || i == wrap12(r + 3) || i == wrap12(r + 7) || i == wrap12(r + 11))),
    ensures
        (pcs[wrap12(rc + 0)] && pcs[wrap12(rc + 3)] && pcs[wrap12(rc + 7)] && pcs[wrap12(rc + 11)]) ==> rc == r,
{
}

proof fn lemma_q6_tones_7(pcs: Seq<bool>, r: int, rc: int)
    requires
        0 <= r < 12,
        0 <= rc < 12,
        forall|i: int| 0 <= i < 12 ==> (#[trigger] pcs[i] <==> (i == wrap12(r + 0) || i == wrap12(r + 3) || i == wrap12(r + 7) || i == wrap12(r + 11))),
    ensures
        (pcs[wrap12(rc + 0)] && pcs[wrap12(rc + 3)] && pcs[wrap12(rc + 6)] && pcs[wrap12(rc + 9)]) ==> false,
{
}

proof fn lemma_q6_tones_8(pcs: Seq<bool>, r: int, rc: int)
    requires
        0 <= r < 12,
        0 <= rc < 12,
        forall|i: int| 0 <= i < 12 ==> (#[trigger] pcs[i] <==> (i == wrap12(r + 0) || i == wrap12(r + 3) || i == wrap12(r + 7) || i == wrap12(r + 11))),
    ensures
        (pcs[wrap12(rc + 0)] && pcs[wrap12(rc + 3)] && pcs[wrap12(rc + 6)] && pcs[wrap12(rc + 10)]) ==> false,
{
}

proof fn lemma_q6_tones_9(pcs: Seq<bool>, r: int, rc: int)
    requires
        0 <= r < 12,
        0 <= rc < 12,
        forall|i: int| 0 <= i < 12 ==> (#[trigger] pcs[i] <==> (i == wrap12(r + 0) || i == wrap12(r + 3) || i == wrap12(r + 7) || i == wrap12(r + 11))),
    ensures
        (pcs[wrap12(rc + 0)] && pcs[wrap12(rc + 4)] && pcs[wrap12(rc + 8)] && pcs[wrap12(rc + 11)]) ==> false,
{
}

proof fn lemma_q6_tones_10(pcs: Seq<bool>, r: int, rc: int)
    requires
        0 <= r < 12,
        0 <= rc < 12,
        forall|i: int| 0 <= i < 12 ==> (#[trigger] pcs[i] <==> (i == wrap12(r + 0) || i == wrap12(r + 3) || i == wrap12(r + 7) || i == wrap12(r + 11))),
    ensures
        (pcs[wrap12(rc + 0)] && pcs[wrap12(rc + 5)] && pcs[wrap12(rc + 7)] && pcs[wrap12(rc + 10)]) ==> false,
{
}

proof fn lemma_q6_tones_11(pcs: Seq<bool>, r: int, rc: int)
    requires
        0 <= r < 12,
        0 <= rc < 12,
        forall|i: int| 0 <= i < 12 ==> (#[trigger] pcs[i] <==> (i == wrap12(r + 0) || i == wrap12(r + 3) || i == wrap12(r + 7) || i == wrap12(r + 11))),
    ensures
        (pcs[wrap12(rc + 0)] && pcs[wrap12(rc + 2)] && pcs[wrap12(rc + 4)] && pcs[wrap12(rc + 7)]) ==> false,
{
}

proof fn lemma_q6_tones_12(pcs: Seq<bool>, r: int, rc: int)
    requires
        0 <= r < 12,
        0 <= rc < 12,
        forall|i: int| 0 <= i < 12 ==> (#[trigger] pcs[i] <==> (i == wrap12(r + 0) || i == wrap12(r + 3) || i == wrap12(r + 7) || i == wrap12(r + 11))),
    ensures
        (pcs[wrap12(rc + 0)] && pcs[wrap12(rc + 2)] && pcs[wrap12(rc + 3)] && pcs[wrap12(rc + 7)]) ==> false,
{
}

proof fn lemma_q6_only(pcs: Seq<bool>, r: int, rc: int, tc: int)
    requires
        0 <= r < 12,
        0 <= rc < 12,
        0 <= tc < 20,
        template(tc).1.len() >= 4,
        forall|i: int| 0 <= i < 12 ==> (#[trigger] pcs[i] <==> (i == r || i == (r + 3) % 12 || i == (r + 7) % 12 || i == (r + 11) % 12)),
        missing_of(pcs, rc, tc) == 0,
    ensures
        tc == 6 && rc == r,
{
    lemma_wrap12(r + 0);
    lemma_wrap12(r + 3);
    lemma_wrap12(r + 7);
    lemma_wrap12(r + 11);
    assert forall|i: int| 0 <= i < 12 implies (#[trigger] pcs[i] <==> (i == wrap12(r + 0) || i == wrap12(r + 3) || i == wrap12(r + 7) || i == wrap12(r + 11))) by {}
    lemma_all_tones_sound_wrapped(pcs, rc, tc);
    if tc == 0 {
        assert(template(tc).1 == seq![0int, 2, 4, 7, 10]);
        lemma_q6_tones_0(pcs, r, rc);
    } else if tc == 1 {
        assert(template(tc).1 == seq![0int, 2, 4, 7, 11]);
        lemma_q6_tones_1(pcs, r, rc);
    } else if tc == 2 {
        assert(template(tc).1 == seq![0int, 2, 3, 7, 10]);
        lemma_q6_tones_2(pcs, r, rc);
    } else if tc == 3 {
        assert(template(tc).1 == seq![0int, 4, 7, 11]);
        lemma_q6_tones_3(pcs, r, rc);
    } else if tc == 4 {
        assert(template(tc).1 == seq![0int, 4, 7, 10]);
        lemma_q6_tones_4(pcs, r, rc);
    } else if tc == 5 {
        assert(template(tc).1 == seq![0int, 3, 7, 10]);
        lemma_q6_tones_5(pcs, r, rc);
    } else if tc == 6 {
        assert(template(tc).1 == seq![0int, 3, 7, 11]);
        lemma_q6_tones_6(pcs, r, rc);
    } else if tc == 7 {
        assert(template(tc).1 == seq![0int, 3, 6, 9]);
        lemma_q6_tones_7(pcs, r, rc);
    } else if tc == 8 {
        assert(template(tc).1 == seq![0int, 3, 6, 10]);
        lemma_q6_tones_8(pcs, r, rc);
    } else if tc == 9 {
        assert(template(tc).1 == seq![0int, 4, 8, 11]);
        lemma_q6_tones_9(pcs, r, rc);
    } else if tc == 10 {
        assert(template(tc).1 == seq![0int, 5, 7, 10]);
        lemma_q6_tones_10(pcs, r, rc);
    } else if tc == 11 {
        assert(template(tc).1 == seq![0int, 2, 4, 7]);
        lemma_q6_tones_11(pcs, r, rc);
    } else if tc == 12 {
        assert(template(tc).1 == seq![0int, 2, 3, 7]);
        lemma_q6_tones_12(pcs, r, rc);
    } else if tc == 13 {
        assert(template(tc).1 == seq![0int, 4, 7]);
    } else if tc == 14 {
        assert(template(tc).1 == seq![0int, 3, 7]);
    } else if tc == 15 {
        assert(template(tc).1 == seq![0int, 3, 6]);
    } else if tc == 16 {
        assert(template(tc).1 == seq![0int, 4, 8]);
    } else if tc == 17 {
        assert(template(tc).1 == seq![0int, 2, 7]);
    } else if tc == 18 {
        assert(template(tc).1 == seq![0int, 5, 7]);
    } else if tc == 19 {
        assert(template(tc).1 == seq![0int, 7]);
    }
}

/// A chord whose sounding pitch classes are exactly root + {0, 3, 7, 11} (a
/// minor-major seventh) is named MinMaj7 on that root, with no uncertainty.
#[verifier::rlimit(40)]
pub proof fn lemma_minmaj7_is_named(midis: Seq<int>, r: int, c: ChordName)
    requires
        0 <= r < 12,
        forall|i: int| 0 <= i < 12 ==> (#[trigger] pc_set(midis)[i] <==> (i == r || i == (r + 3) % 12 || i == (r + 7) % 12 || i == (r + 11) % 12)),
        chord_result_ok(midis, c),
    ensures
        c.root.0 == r,
        c.quality == ChordQuality::MinMaj7,
        !c.uncertain,
{
    let pcs = pc_set(midis);
    let rc = c.root.0 as int;
    let tc = choose|t: int|
        is_best(pcs, rc, t) && #[trigger] template(t).0 == c.quality && c.uncertain == (extra_of(pcs, rc, t) > 0
            || missing_of(pcs, rc, t) > 0);
    assert(is_best(pcs, rc, tc));
    let tt = template(6).1;
    assert(tt == seq![0int, 3, 7, 11]);
    lemma_exact_facts(pcs, r, 6);
    assert forall|i: int| 0 <= i < 12 && pcs[i] implies #[trigger] expected_set(r, 6)[i] by {
        if i == r {
            assert((r + tt[0]) % 12 == i);
        } else if i == (r + 3) % 12 {
            assert((r + tt[1]) % 12 == i);
        } else if i == (r + 7) % 12 {
            assert((r + tt[2]) % 12 == i);
        } else if i == (r + 11) % 12 {
            assert((r + tt[3]) % 12 == i);
        }
    }
    assert forall|k: int| 0 <= k < tt.len() implies #[trigger] pcs[(r + template(6).1[k]) % 12] by {
        assert(pcs[(r + tt[k]) % 12]);
    }
    assert(pcs[r]);
    assert(is_candidate(pcs, r, 6));
    assert(!ranks_before(pcs, r, 6, rc, tc));
    lemma_exact_facts(pcs, rc, tc);
    assert(extra_of(pcs, rc, tc) == 0 && missing_of(pcs, rc, tc) == 0);
    assert(pcs[rc]);
    assert(0 <= tc < 20);
    assert(template(tc).1.len() >= 4);
    lemma_q6_only(pcs, r, rc, tc);
}

proof fn lemma_q9_tones_0(pcs: Seq<bool>, r: int, rc: int)
    requires
        0 <= r < 12,
        0 <= rc < 12,
        forall|i: int| 0 <= i < 12 ==> (#[trigger] pcs[i] <==> (i == wrap12(r + 0) || i == wrap12(r + 4) || i == wrap12(r + 8) || i == wrap12(r + 11))),
    ensures
        (pcs[wrap12(rc + 0)] && pcs[wrap12(rc + 2)] && pcs[wrap12(rc + 4)] && pcs[wrap12(rc + 7)] && pcs[wrap12(rc + 10)]) ==> false,
{
}

proof fn lemma_q9_tones_1(pcs: Seq<bool>, r: int, rc: int)
    requires
        0 <= r < 12,
        0 <= rc < 12,
        forall|i: int| 0 <= i < 12 ==> (#[trigger] pcs[i] <==> (i == wrap12(r + 0) || i == wrap12(r + 4) || i == wrap12(r + 8) || i == wrap12(r + 11))),
    ensures
        (pcs[wrap12(rc + 0)] && pcs[wrap12(rc + 2)] && pcs[wrap12(rc + 4)] && pcs[wrap12(rc + 7)] && pcs[wrap12(rc + 11)]) ==> false,
{
}

proof fn lemma_q9_tones_2(pcs: Seq<bool>, r: int, rc: int)
    requires
        0 <= r < 12,
        0 <= rc < 12,
        forall|i: int| 0 <= i < 12 ==> (#[trigger] pcs[i] <==> (i == wrap12(r + 0) || i == wrap12(r + 4) || i == wrap12(r + 8) || i == wrap12(r + 11))),
    ensures
        (pcs[wrap12(rc + 0)] && pcs[wrap12(rc + 2)] && pcs[wrap12(rc + 3)] && pcs[wrap12(rc + 7)] && pcs[wrap12(rc + 10)]) ==> false,
{
}

proof fn lemma_q9_tones_3(pcs: Seq<bool>, r: int, rc: int)
    requires
        0 <= r < 12,
        0 <= rc < 12,
        forall|i: int| 0 <= i < 12 ==> (#[trigger] pcs[i] <==> (i == wrap12(r + 0) || i == wrap12(r + 4) || i == wrap12(r + 8) || i == wrap12(r + 11))),
    ensures
        (pcs[wrap12(rc + 0)] && pcs[wrap12(rc + 4)] && pcs[wrap12(rc + 7)] && pcs[wrap12(rc + 11)]) ==> false,
{
}

proof fn lemma_q9_tones_4(pcs: Seq<bool>, r: int, rc: int)
    requires
        0 <= r < 12,
        0 <= rc < 12,
        forall|i: int| 0 <= i < 12 ==> (#[trigger] pcs[i] <==> (i == wrap12(r + 0) || i == wrap12(r + 4) || i == wrap12(r + 8) || i == wrap12(r + 11))),
    ensures
        (pcs[wrap12(rc + 0)] && pcs[wrap12(rc + 4)] && pcs[wrap12(rc + 7)] && pcs[wrap12(rc + 10)]) ==> false,
{
}

proof fn lemma_q9_tones_5(pcs: Seq<bool>, r: int, rc: int)
    requires
        0 <= r < 12,
        0 <= rc < 12,
        forall|i: int| 0 <= i < 12 ==> (#[trigger] pcs[i] <==> (i == wrap12(r + 0) || i == wrap12(r + 4) || i == wrap12(r + 8) || i == wrap12(r + 11))),
    ensures
        (pcs[wrap12(rc + 0)] && pcs[wrap12(rc + 3)] && pcs[wrap12(rc + 7)] && pcs[wrap12(rc + 10)]) ==> false,
{
}

proof fn lemma_q9_tones_6(pcs: Seq<bool>, r: int, rc: int)
    requires
        0 <= r < 12,
        0 <= rc < 12,
        forall|i: int| 0 <= i < 12 ==> (#[trigger] pcs[i] <==> (i == wrap12(r + 0) || i == wrap12(r + 4) || i == wrap12(r + 8) || i == wrap12(r + 11))),
    ensures
        (pcs[wrap12(rc + 0)] && pcs[wrap12(rc + 3)] && pcs[wrap12(rc + 7)] && pcs[wrap12(rc + 11)]) ==> false,
{
}

proof fn lemma_q9_tones_7(pcs: Seq<bool>, r: int, rc: int)
    requires
        0 <= r < 12,
        0 <= rc < 12,
        forall|i: int| 0 <= i < 12 ==> (#[trigger] pcs[i] <==> (i == wrap12(r + 0) || i == wrap12(r + 4) || i == wrap12(r + 8) || i == wrap12(r + 11))),
    ensures
        (pcs[wrap12(rc + 0)] && pcs[wrap12(rc + 3)] && pcs[wrap12(rc + 6)] && pcs[wrap12(rc + 9)]) ==> false,
{
}

proof fn lemma_q9_tones_8(pcs: Seq<bool>, r: int, rc: int)
    requires
        0 <= r < 12,
        0 <= rc < 12,
        forall|i: int| 0 <= i < 12 ==> (#[trigger] pcs[i] <==> (i == wrap12(r + 0) || i == wrap12(r + 4) || i == wrap12(r + 8) || i == wrap12(r + 11))),
    ensures
        (pcs[wrap12(rc + 0)] && pcs[wrap12(rc + 3)] && pcs[wrap12(rc + 6)] && pcs[wrap12(rc + 10)]) ==> false,
{
}

proof fn lemma_q9_tones_9(pcs: Seq<bool>, r: int, rc: int)
    requires
        0 <= r < 12,
        0 <= rc < 12,
        forall|i: int| 0 <= i < 12 ==> (#[trigger] pcs[i] <==> (i == wrap12(r + 0) || i == wrap12(r + 4) || i == wrap12(r + 8) || i == wrap12(r + 11))),
    ensures
        (pcs[wrap12(rc + 0)] && pcs[wrap12(rc + 4)] && pcs[wrap12(rc + 8)] && pcs[wrap12(rc + 11)]) ==> rc == r,
{
}

proof fn lemma_q9_tones_10(pcs: Seq<bool>, r: int, rc: int)
    requires
        0 <= r < 12,
        0 <= rc < 12,
        forall|i: int| 0 <= i < 12 ==> (#[trigger] pcs[i] <==> (i == wrap12(r + 0) || i == wrap12(r + 4) || i == wrap12(r + 8) || i == wrap12(r + 11))),
    ensures
        (pcs[wrap12(rc + 0)] && pcs[wrap12(rc + 5)] && pcs[wrap12(rc + 7)] && pcs[wrap12(rc + 10)]) ==> false,
{
}

proof fn lemma_q9_tones_11(pcs: Seq<bool>, r: int, rc: int)
    requires
        0 <= r < 12,
        0 <= rc < 12,
        forall|i: int| 0 <= i < 12 ==> (#[trigger] pcs[i] <==> (i == wrap12(r + 0) || i == wrap12(r + 4) || i == wrap12(r + 8) || i == wrap12(r + 11))),
    ensures
        (pcs[wrap12(rc + 0)] && pcs[wrap12(rc + 2)] && pcs[wrap12(rc + 4)] && pcs[wrap12(rc + 7)]) ==> false,
{
}

proof fn lemma_q9_tones_12(pcs: Seq<bool>, r: int, rc: int)
    requires
        0 <= r < 12,
        0 <= rc < 12,
        forall|i: int| 0 <= i < 12 ==> (#[trigger] pcs[i] <==> (i == wrap12(r + 0) || i == wrap12(r + 4) || i == wrap12(r + 8) || i == wrap12(r + 11))),
    ensures
        (pcs[wrap12(rc + 0)] && pcs[wrap12(rc + 2)] && pcs[wrap12(rc + 3)] && pcs[wrap12(rc + 7)]) ==> false,
{
}

proof fn lemma_q9_only(pcs: Seq<bool>, r: int, rc: int, tc: int)
    requires
        0 <= r < 12,
        0 <= rc < 12,
        0 <= tc < 20,
        template(tc).1.len() >= 4,
        forall|i: int| 0 <= i < 12 ==> (#[trigger] pcs[i] <==> (i == r || i == (r + 4) % 12 || i == (r + 8) % 12 || i == (r + 11) % 12)),
        missing_of(pcs, rc, tc) == 0,
    ensures
        tc == 9 && rc == r,
{
    lemma_wrap12(r + 0);
    lemma_wrap12(r + 4);
    lemma_wrap12(r + 8);
    lemma_wrap12(r + 11);
    assert forall|i: int| 0 <= i < 12 implies (#[trigger] pcs[i] <==> (i == wrap12(r + 0) || i == wrap12(r + 4) || i == wrap12(r + 8) || i == wrap12(r + 11))) by {}
    lemma_all_tones_sound_wrapped(pcs, rc, tc);
    if tc == 0 {
        assert(template(tc).1 == seq![0int, 2, 4, 7, 10]);
        lemma_q9_tones_0(pcs, r, rc);
    } else if tc == 1 {
        assert(template(tc).1 == seq![0int, 2, 4, 7, 11]);
        lemma_q9_tones_1(pcs, r, rc);
    } else if tc == 2 {
        assert(template(tc).1 == seq![0int, 2, 3, 7, 10]);
        lemma_q9_tones_2(pcs, r, rc);
    } else if tc == 3 {
        assert(template(tc).1 == seq![0int, 4, 7, 11]);
        lemma_q9_tones_3(pcs, r, rc);
    } else if tc == 4 {
        assert(template(tc).1 == seq![0int, 4, 7, 10]);
        lemma_q9_tones_4(pcs, r, rc);
    } else if tc == 5 {
        assert(template(tc).1 == seq![0int, 3, 7, 10]);
        lemma_q9_tones_5(pcs, r, rc);
    } else if tc == 6 {
        assert(template(tc).1 == seq![0int, 3, 7, 11]);
        lemma_q9_tones_6(pcs, r, rc);
    } else if tc == 7 {
        assert(template(tc).1 == seq![0int, 3, 6, 9]);
        lemma_q9_tones_7(pcs, r, rc);
    } else if tc == 8 {
        assert(template(tc).1 == seq![0int, 3, 6, 10]);
        lemma_q9_tones_8(pcs, r, rc);
    } else if tc == 9 {
        assert(template(tc).1 == seq![0int, 4, 8, 11]);
        lemma_q9_tones_9(pcs, r, rc);
    } else if tc == 10 {
        assert(template(tc).1 == seq![0int, 5, 7, 10]);
        lemma_q9_tones_10(pcs, r, rc);
    } else if tc == 11 {
        assert(template(tc).1 == seq![0int, 2, 4, 7]);
        lemma_q9_tones_11(pcs, r, rc);
    } else if tc == 12 {
        assert(template(tc).1 == seq![0int, 2, 3, 7]);
        lemma_q9_tones_12(pcs, r, rc);
    } else if tc == 13 {
        assert(template(tc).1 == seq![0int, 4, 7]);
    } else if tc == 14 {
        assert(template(tc).1 == seq![0int, 3, 7]);
    } else if tc == 15 {
        assert(template(tc).1 == seq![0int, 3, 6]);
    } else if tc == 16 {
        assert(template(tc).1 == seq![0int, 4, 8]);
    } else if tc == 17 {
        assert(template(tc).1 == seq![0int, 2, 7]);
    } else if tc == 18 {
        assert(template(tc).1 == seq![0int, 5, 7]);
    } else if tc == 19 {
        assert(template(tc).1 == seq![0int, 7]);
    }
}

/// A chord whose sounding pitch classes are exactly root + {0, 4, 8, 11} (a
/// augmented major seventh) is named AugMaj7 on that root, with no uncertainty.
#[verifier::rlimit(40)]
pub proof fn lemma_augmaj7_is_named(midis: Seq<int>, r: int, c: ChordName)
    requires
        0 <= r < 12,
        forall|i: int| 0 <= i < 12 ==> (#[trigger] pc_set(midis)[i] <==> (i == r || i == (r + 4) % 12 || i == (r + 8) % 12 || i == (r + 11) % 12)),
        chord_result_ok(midis, c),
    ensures
        c.root.0 == r,
        c.quality == ChordQuality::AugMaj7,
        !c.uncertain,
{
    let pcs = pc_set(midis);
    let rc = c.root.0 as int;
    let tc = choose|t: int|
        is_best(pcs, rc, t) && #[trigger] template(t).0 == c.quality && c.uncertain == (extra_of(pcs, rc, t) > 0
            || missing_of(pcs, rc, t) > 0);
    assert(is_best(pcs, rc, tc));
    let tt = template(9).1;
    assert(tt == seq![0int, 4, 8, 11]);
    lemma_exact_facts(pcs, r, 9);
    assert forall|i: int| 0 <= i < 12 && pcs[i] implies #[trigger] expected_set(r, 9)[i] by {
        if i == r {
            assert((r + tt[0]) % 12 == i);
        } else if i == (r + 4) % 12 {
            assert((r + tt[1]) % 12 == i);
        } else if i == (r + 8) % 12 {
            assert((r + tt[2]) % 12 == i);
        } else if i == (r + 11) % 12 {
            assert((r + tt[3]) % 12 == i);
        }
    }
    assert forall|k: int| 0 <= k < tt.len() implies #[trigger] pcs[(r + template(9).1[k]) % 12] by {
        assert(pcs[(r + tt[k]) % 12]);
    }
    assert(pcs[r]);
    assert(is_candidate(pcs, r, 9));
    assert(!ranks_before(pcs, r, 9, rc, tc));
    lemma_exact_facts(pcs, rc, tc);
    assert(extra_of(pcs, rc, tc) == 0 && missing_of(pcs, rc, tc) == 0);
    assert(pcs[rc]);
    assert(0 <= tc < 20);
    assert(template(tc).1.len() >= 4);
    lemma_q9_only(pcs, r, rc, tc);
}

proof fn lemma_q10_tones_0(pcs: Seq<bool>, r: int, rc: int)
    requires
        0 <= r < 12,
        0 <= rc < 12,
        forall|i: int| 0 <= i < 12 ==> (#[trigger] pcs[i] <==> (i == wrap12(r + 0) || i == wrap12(r + 5) || i == wrap12(r + 7) || i == wrap12(r + 10))),
    ensures
        (pcs[wrap12(rc + 0)] && pcs[wrap12(rc + 2)] && pcs[wrap12(rc + 4)] && pcs[wrap12(rc + 7)] && pcs[wrap12(rc + 10)]) ==> false,
{
}

proof fn lemma_q10_tones_1(pcs: Seq<bool>, r: int, rc: int)
    requires
        0 <= r < 12,
        0 <= rc < 12,
        forall|i: int| 0 <= i < 12 ==> (#[trigger] pcs[i] <==> (i == wrap12(r + 0) || i == wrap12(r + 5) || i == wrap12(r + 7) || i == wrap12(r + 10))),
    ensures
        (pcs[wrap12(rc + 0)] && pcs[wrap12(rc + 2)] && pcs[wrap12(rc + 4)] && pcs[wrap12(rc + 7)] && pcs[wrap12(rc + 11)]) ==> false,
{
}

proof fn lemma_q10_tones_2(pcs: Seq<bool>, r: int, rc: int)
    requires
        0 <= r < 12,
        0 <= rc < 12,
        forall|i: int| 0 <= i < 12 ==> (#[trigger] pcs[i] <==> (i == wrap12(r + 0) || i == wrap12(r + 5) || i == wrap12(r + 7) || i == wrap12(r + 10))),
    ensures
        (pcs[wrap12(rc + 0)] && pcs[wrap12(rc + 2)] && pcs[wrap12(rc + 3)] && pcs[wrap12(rc + 7)] && pcs[wrap12(rc + 10)]) ==> false,
{
}

proof fn lemma_q10_tones_3(pcs: Seq<bool>, r: int, rc: int)
    requires
        0 <= r < 12,
        0 <= rc < 12,
        forall|i: int| 0 <= i < 12 ==> (#[trigger] pcs[i] <==> (i == wrap12(r + 0) || i == wrap12(r + 5) || i == wrap12(r + 7) || i == wrap12(r + 10))),
    ensures
        (pcs[wrap12(rc + 0)] && pcs[wrap12(rc + 4)] && pcs[wrap12(rc + 7)] && pcs[wrap12(rc + 11)]) ==> false,
{
}

proof fn lemma_q10_tones_4(pcs: Seq<bool>, r: int, rc: int)
    requires
        0 <= r < 12,
        0 <= rc < 12,
        forall|i: int| 0 <= i < 12 ==> (#[trigger] pcs[i] <==> (i == wrap12(r + 0) || i == wrap12(r + 5) || i == wrap12(r + 7) || i == wrap12(r + 10))),
    ensures
        (pcs[wrap12(rc + 0)] && pcs[wrap12(rc + 4)] && pcs[wrap12(rc + 7)] && pcs[wrap12(rc + 10)]) ==> false,
{
}

proof fn lemma_q10_tones_5(pcs: Seq<bool>, r: int, rc: int)
    requires
        0 <= r < 12,
        0 <= rc < 12,
        forall|i: int| 0 <= i < 12 ==> (#[trigger] pcs[i] <==> (i == wrap12(r + 0) || i == wrap12(r + 5) || i == wrap12(r + 7) || i == wrap12(r + 10))),
    ensures
        (pcs[wrap12(rc + 0)] && pcs[wrap12(rc + 3)] && pcs[wrap12(rc + 7)] && pcs[wrap12(rc + 10)]) ==> false,
{
}

proof fn lemma_q10_tones_6(pcs: Seq<bool>, r: int, rc: int)
    requires
        0 <= r < 12,
        0 <= rc < 12,
        forall|i: int| 0 <= i < 12 ==> (#[trigger] pcs[i] <==> (i == wrap12(r + 0) || i == wrap12(r + 5) || i == wrap12(r + 7) || i == wrap12(r + 10))),
    ensures
        (pcs[wrap12(rc + 0)] && pcs[wrap12(rc + 3)] && pcs[wrap12(rc + 7)] && pcs[wrap12(rc + 11)]) ==> false,
{
}

proof fn lemma_q10_tones_7(pcs: Seq<bool>, r: int, rc: int)
    requires
        0 <= r < 12,
        0 <= rc < 12,
        forall|i: int| 0 <= i < 12 ==> (#[trigger] pcs[i] <==> (i == wrap12(r + 0) || i == wrap12(r + 5) || i == wrap12(r + 7) || i == wrap12(r + 10))),
    ensures
        (pcs[wrap12(rc + 0)] && pcs[wrap12(rc + 3)] && pcs[wrap12(rc + 6)] && pcs[wrap12(rc + 9)]) ==> false,
{
}

proof fn lemma_q10_tones_8(pcs: Seq<bool>, r: int, rc: int)
    requires
        0 <= r < 12,
        0 <= rc < 12,
        forall|i: int| 0 <= i < 12 ==> (#[trigger] pcs[i] <==> (i == wrap12(r + 0) || i == wrap12(r + 5) || i == wrap12(r + 7) || i == wrap12(r + 10))),
    ensures
        (pcs[wrap12(rc + 0)] && pcs[wrap12(rc + 3)] && pcs[wrap12(rc + 6)] && pcs[wrap12(rc + 10)]) ==> false,
{
}

proof fn lemma_q10_tones_9(pcs: Seq<bool>, r: int, rc: int)
    requires
        0 <= r < 12,
        0 <= rc < 12,
        forall|i: int| 0 <= i < 12 ==> (#[trigger] pcs[i] <==> (i == wrap12(r + 0) || i == wrap12(r + 5) || i == wrap12(r + 7) || i == wrap12(r + 10))),
    ensures
        (pcs[wrap12(rc + 0)] && pcs[wrap12(rc + 4)] && pcs[wrap12(rc + 8)] && pcs[wrap12(rc + 11)]) ==> false,
{
}

proof fn lemma_q10_tones_10(pcs: Seq<bool>, r: int, rc: int)
    requires
        0 <= r < 12,
        0 <= rc < 12,
        forall|i: int| 0 <= i < 12 ==> (#[trigger] pcs[i] <==> (i == wrap12(r + 0) || i == wrap12(r + 5) || i == wrap12(r + 7) || i == wrap12(r + 10))),
    ensures
        (pcs[wrap12(rc + 0)] && pcs[wrap12(rc + 5)] && pcs[wrap12(rc + 7)] && pcs[wrap12(rc + 10)]) ==> rc == r,
{
}

proof fn lemma_q10_tones_11(pcs: Seq<bool>, r: int, rc: int)
    requires
        0 <= r < 12,
        0 <= rc < 12,
        forall|i: int| 0 <= i < 12 ==> (#[trigger] pcs[i] <==> (i == wrap12(r + 0) || i == wrap12(r + 5) || i == wrap12(r + 7) || i == wrap12(r + 10))),
    ensures
        (pcs[wrap12(rc + 0)] && pcs[wrap12(rc + 2)] && pcs[wrap12(rc + 4)] && pcs[wrap12(rc + 7)]) ==> false,
{
}

proof fn lemma_q10_tones_12(pcs: Seq<bool>, r: int, rc: int)
    requires
        0 <= r < 12,
        0 <= rc < 12,
        forall|i: int| 0 <= i < 12 ==> (#[trigger] pcs[i] <==> (i == wrap12(r + 0) || i == wrap12(r + 5) || i == wrap12(r + 7) || i == wrap12(r + 10))),
    ensures
        (pcs[wrap12(rc + 0)] && pcs[wrap12(rc + 2)] && pcs[wrap12(rc + 3)] && pcs[wrap12(rc + 7)]) ==> false,
{
}

proof fn lemma_q10_only(pcs: Seq<bool>, r: int, rc: int, tc: int)
    requires
        0 <= r < 12,
        0 <= rc < 12,
        0 <= tc < 20,
        template(tc).1.len() >= 4,
        forall|i: int| 0 <= i < 12 ==> (#[trigger] pcs[i] <==> (i == r || i == (r + 5) % 12 || i == (r + 7) % 12 || i == (r + 10) % 12)),
        missing_of(pcs, rc, tc) == 0,
    ensures
        tc == 10 && rc == r,
{
    lemma_wrap12(r + 0);
    lemma_wrap12(r + 5);
    lemma_wrap12(r + 7);
    lemma_wrap12(r + 10);
    assert forall|i: int| 0 <= i < 12 implies (#[trigger] pcs[i] <==> (i == wrap12(r + 0) || i == wrap12(r + 5) || i == wrap12(r + 7) || i == wrap12(r + 10))) by {}
    lemma_all_tones_sound_wrapped(pcs, rc, tc);
    if tc == 0 {
        assert(template(tc).1 == seq![0int, 2, 4, 7, 10]);
        lemma_q10_tones_0(pcs, r, rc);
    } else if tc == 1 {
        assert(template(tc).1 == seq![0int, 2, 4, 7, 11]);
        lemma_q10_tones_1(pcs, r, rc);
    } else if tc == 2 {
        assert(template(tc).1 == seq![0int, 2, 3, 7, 10]);
        lemma_q10_tones_2(pcs, r, rc);
    } else if tc == 3 {
        assert(template(tc).1 == seq![0int, 4, 7, 11]);
        lemma_q10_tones_3(pcs, r, rc);
    } else if tc == 4 {
        assert(template(tc).1 == seq![0int, 4, 7, 10]);
        lemma_q10_tones_4(pcs, r, rc);
    } else if tc == 5 {
        assert(template(tc).1 == seq![0int, 3, 7, 10]);
        lemma_q10_tones_5(pcs, r, rc);
    } else if tc == 6 {
        assert(template(tc).1 == seq![0int, 3, 7, 11]);
        lemma_q10_tones_6(pcs, r, rc);
    } else if tc == 7 {
        assert(template(tc).1 == seq![0int, 3, 6, 9]);
        lemma_q10_tones_7(pcs, r, rc);
    } else if tc == 8 {
        assert(template(tc).1 == seq![0int, 3, 6, 10]);
        lemma_q10_tones_8(pcs, r, rc);
    } else if tc == 9 {
        assert(template(tc).1 == seq![0int, 4, 8, 11]);
        lemma_q10_tones_9(pcs, r, rc);
    } else if tc == 10 {
        assert(template(tc).1 == seq![0int, 5, 7, 10]);
        lemma_q10_tones_10(pcs, r, rc);
    } else if tc == 11 {
        assert(template(tc).1 == seq![0int, 2, 4, 7]);
        lemma_q10_tones_11(pcs, r, rc);
    } else if tc == 12 {
        assert(template(tc).1 == seq![0int, 2, 3, 7]);
        lemma_q10_tones_12(pcs, r, rc);
    } else if tc == 13 {
        assert(template(tc).1 == seq![0int, 4, 7]);
    } else if tc == 14 {
        assert(template(tc).1 == seq![0int, 3, 7]);
    } else if tc == 15 {
        assert(template(tc).1 == seq![0int, 3, 6]);
    } else if tc == 16 {
        assert(template(tc).1 == seq![0int, 4, 8]);
    } else if tc == 17 {
        assert(template(tc).1 == seq![0int, 2, 7]);
    } else if tc == 18 {
        assert(template(tc).1 == seq![0int, 5, 7]);
    } else if tc == 19 {
        assert(template(tc).1 == seq![0int, 7]);
    }
}

/// A chord whose sounding pitch classes are exactly root + {0, 5, 7, 10} (a
/// dominant seventh with suspended fourth) is named Dom7Sus4 on that root, with no uncertainty.
#[verifier::rlimit(40)]
pub proof fn lemma_dom7sus4_is_named(midis: Seq<int>, r: int, c: ChordName)
    requires
        0 <= r < 12,
        forall|i: int| 0 <= i < 12 ==> (#[trigger] pc_set(midis)[i] <==> (i == r || i == (r + 5) % 12 || i == (r + 7) % 12 || i == (r + 10) % 12)),
        chord_result_ok(midis, c),
    ensures
        c.root.0 == r,
        c.quality == ChordQuality::Dom7Sus4,
        !c.uncertain,
{
    let pcs = pc_set(midis);
    let rc = c.root.0 as int;
    let tc = choose|t: int|
        is_best(pcs, rc, t) && #[trigger] template(t).0 == c.quality && c.uncertain == (extra_of(pcs, rc, t) > 0
            || missing_of(pcs, rc, t) > 0);
    assert(is_best(pcs, rc, tc));
    let tt = template(10).1;
    assert(tt == seq![0int, 5, 7, 10]);
    lemma_exact_facts(pcs, r, 10);
    assert forall|i: int| 0 <= i < 12 && pcs[i] implies #[trigger] expected_set(r, 10)[i] by {
        if i == r {
            assert((r + tt[0]) % 12 == i);
        } else if i == (r + 5) % 12 {
            assert((r + tt[1]) % 12 == i);
        } else if i == (r + 7) % 12 {
            assert((r + tt[2]) % 12 == i);
        } else if i == (r + 10) % 12 {
            assert((r + tt[3]) % 12 == i);
        }
    }
    assert forall|k: int| 0 <= k < tt.len() implies #[trigger] pcs[(r + template(10).1[k]) % 12] by {
        assert(pcs[(r + tt[k]) % 12]);
    }
    assert(pcs[r]);
    assert(is_candidate(pcs, r, 10));
    assert(!ranks_before(pcs, r, 10, rc, tc));
    lemma_exact_facts(pcs, rc, tc);
    assert(extra_of(pcs, rc, tc) == 0 && missing_of(pcs, rc, tc) == 0);
    assert(pcs[rc]);
    assert(0 <= tc < 20);
    assert(template(tc).1.len() >= 4);
    lemma_q10_only(pcs, r, rc, tc);
}

proof fn lemma_q11_tones_0(pcs: Seq<bool>, r: int, rc: int)
    requires
        0 <= r < 12,
        0 <= rc < 12,
        forall|i: int| 0 <= i < 12 ==> (#[trigger] pcs[i] <==> (i == wrap12(r + 0) || i == wrap12(r + 2) || i == wrap12(r + 4) || i == wrap12(r + 7))),
    ensures
        (pcs[wrap12(rc + 0)] && pcs[wrap12(rc + 2)] && pcs[wrap12(rc + 4)] && pcs[wrap12(rc + 7)] && pcs[wrap12(rc + 10)]) ==> false,
{
}

proof fn lemma_q11_tones_1(pcs: Seq<bool>, r: int, rc: int)
    requires
        0 <= r < 12,
        0 <= rc < 12,
        forall|i: int| 0 <= i < 12 ==> (#[trigger] pcs[i] <==> (i == wrap12(r + 0) || i == wrap12(r + 2) || i == wrap12(r + 4) || i == wrap12(r + 7))),
    ensures
        (pcs[wrap12(rc + 0)] && pcs[wrap12(rc + 2)] && pcs[wrap12(rc + 4)] && pcs[wrap12(rc + 7)] && pcs[wrap12(rc + 11)]) ==> false,
{
}

proof fn lemma_q11_tones_2(pcs: Seq<bool>, r: int, rc: int)
    requires
        0 <= r < 12,
        0 <= rc < 12,
        forall|i: int| 0 <= i < 12 ==> (#[trigger] pcs[i] <==> (i == wrap12(r + 0) || i == wrap12(r + 2) || i == wrap12(r + 4) || i == wrap12(r + 7))),
    ensures
        (pcs[wrap12(rc + 0)] && pcs[wrap12(rc + 2)] && pcs[wrap12(rc + 3)] && pcs[wrap12(rc + 7)] && pcs[wrap12(rc + 10)]) ==> false,
{
}

proof fn lemma_q11_tones_3(pcs: Seq<bool>, r: int, rc: int)
    requires
        0 <= r < 12,
        0 <= rc < 12,
        forall|i: int| 0 <= i < 12 ==> (#[trigger] pcs[i] <==> (i == wrap12(r + 0) || i == wrap12(r + 2) || i == wrap12(r + 4) || i == wrap12(r + 7))),
    ensures
        (pcs[wrap12(rc + 0)] && pcs[wrap12(rc + 4)] && pcs[wrap12(rc + 7)] && pcs[wrap12(rc + 11)]) ==> false,
{
}

proof fn lemma_q11_tones_4(pcs: Seq<bool>, r: int, rc: int)
    requires
        0 <= r < 12,
        0 <= rc < 12,
        forall|i: int| 0 <= i < 12 ==> (#[trigger] pcs[i] <==> (i == wrap12(r + 0) || i == wrap12(r + 2) || i == wrap12(r + 4) || i == wrap12(r + 7))),
    ensures
        (pcs[wrap12(rc + 0)] && pcs[wrap12(rc + 4)] && pcs[wrap12(rc + 7)] && pcs[wrap12(rc + 10)]) ==> false,
{
}

proof fn lemma_q11_tones_5(pcs: Seq<bool>, r: int, rc: int)
    requires
        0 <= r < 12,
        0 <= rc < 12,
        forall|i: int| 0 <= i < 12 ==> (#[trigger] pcs[i] <==> (i == wrap12(r + 0) || i == wrap12(r + 2) || i == wrap12(r + 4) || i == wrap12(r + 7))),
    ensures
        (pcs[wrap12(rc + 0)] && pcs[wrap12(rc + 3)] && pcs[wrap12(rc + 7)] && pcs[wrap12(rc + 10)]) ==> false,
{
}

proof fn lemma_q11_tones_6(pcs: Seq<bool>, r: int, rc: int)
    requires
        0 <= r < 12,
        0 <= rc < 12,
        forall|i: int| 0 <= i < 12 ==> (#[trigger] pcs[i] <==> (i == wrap12(r + 0) || i == wrap12(r + 2) || i == wrap12(r + 4) || i == wrap12(r + 7))),
    ensures
        (pcs[wrap12(rc + 0)] && pcs[wrap12(rc + 3)] && pcs[wrap12(rc + 7)] && pcs[wrap12(rc + 11)]) ==> false,
{
}

proof fn lemma_q11_tones_7(pcs: Seq<bool>, r: int, rc: int)
    requires
        0 <= r < 12,
        0 <= rc < 12,
        forall|i: int| 0 <= i < 12 ==> (#[trigger] pcs[i] <==> (i == wrap12(r + 0) || i == wrap12(r + 2) || i == wrap12(r + 4) || i == wrap12(r + 7))),
    ensures
        (pcs[wrap12(rc + 0)] && pcs[wrap12(rc + 3)] && pcs[wrap12(rc + 6)] && pcs[wrap12(rc + 9)]) ==> false,
{
}

proof fn lemma_q11_tones_8(pcs: Seq<bool>, r: int, rc: int)
    requires
        0 <= r < 12,
        0 <= rc < 12,
        forall|i: int| 0 <= i < 12 ==> (#[trigger] pcs[i] <==> (i == wrap12(r + 0) || i == wrap12(r + 2) || i == wrap12(r + 4) || i == wrap12(r + 7))),
    ensures
        (pcs[wrap12(rc + 0)] && pcs[wrap12(rc + 3)] && pcs[wrap12(rc + 6)] && pcs[wrap12(rc + 10)]) ==> false,
{
}

proof fn lemma_q11_tones_9(pcs: Seq<bool>, r: int, rc: int)
    requires
        0 <= r < 12,
        0 <= rc < 12,
        forall|i: int| 0 <= i < 12 ==> (#[trigger] pcs[i] <==> (i == wrap12(r + 0) || i == wrap12(r + 2) || i == wrap12(r + 4) || i == wrap12(r + 7))),
    ensures
        (pcs[wrap12(rc + 0)] && pcs[wrap12(rc + 4)] && pcs[wrap12(rc + 8)] && pcs[wrap12(rc + 11)]) ==> false,
{
}

proof fn lemma_q11_tones_10(pcs: Seq<bool>, r: int, rc: int)
    requires
        0 <= r < 12,
        0 <= rc < 12,
        forall|i: int| 0 <= i < 12 ==> (#[trigger] pcs[i] <==> (i == wrap12(r + 0) || i == wrap12(r + 2) || i == wrap12(r + 4) || i == wrap12(r + 7))),
    ensures
        (pcs[wrap12(rc + 0)] && pcs[wrap12(rc + 5)] && pcs[wrap12(rc + 7)] && pcs[wrap12(rc + 10)]) ==> false,
{
}

proof fn lemma_q11_tones_11(pcs: Seq<bool>, r: int, rc: int)
    requires
        0 <= r < 12,
        0 <= rc < 12,
        forall|i: int| 0 <= i < 12 ==> (#[trigger] pcs[i] <==> (i == wrap12(r + 0) || i == wrap12(r + 2) || i == wrap12(r + 4) || i == wrap12(r + 7))),
    ensures
        (pcs[wrap12(rc + 0)] && pcs[wrap12(rc + 2)] && pcs[wrap12(rc + 4)] && pcs[wrap12(rc + 7)]) ==> rc == r,
{
}

proof fn lemma_q11_tones_12(pcs: Seq<bool>, r: int, rc: int)
    requires
        0 <= r < 12,
        0 <= rc < 12,
        forall|i: int| 0 <= i < 12 ==> (#[trigger] pcs[i] <==> (i == wrap12(r + 0) || i == wrap12(r + 2) || i == wrap12(r + 4) || i == wrap12(r + 7))),
    ensures
        (pcs[wrap12(rc + 0)] && pcs[wrap12(rc + 2)] && pcs[wrap12(rc + 3)] && pcs[wrap12(rc + 7)]) ==> false,
{
}

proof fn lemma_q11_only(pcs: Seq<bool>, r: int, rc: int, tc: int)
    requires
        0 <= r < 12,
        0 <= rc < 12,
        0 <= tc < 20,
        template(tc).1.len() >= 4,
        forall|i: int| 0 <= i < 12 ==> (#[trigger] pcs[i] <==> (i == r || i == (r + 2) % 12 || i == (r + 4) % 12 || i == (r + 7) % 12)),
        missing_of(pcs, rc, tc) == 0,
    ensures
        tc == 11 && rc == r,
{
    lemma_wrap12(r + 0);
    lemma_wrap12(r + 2);
    lemma_wrap12(r + 4);
    lemma_wrap12(r + 7);
    assert forall|i: int| 0 <= i < 12 implies (#[trigger] pcs[i] <==> (i == wrap12(r + 0) || i == wrap12(r + 2) || i == wrap12(r + 4) || i == wrap12(r + 7))) by {}
    lemma_all_tones_sound_wrapped(pcs, rc, tc);
    if tc == 0 {
        assert(template(tc).1 == seq![0int, 2, 4, 7, 10]);
        lemma_q11_tones_0(pcs, r, rc);
    } else if tc == 1 {
        assert(template(tc).1 == seq![0int, 2, 4, 7, 11]);
        lemma_q11_tones_1(pcs, r, rc);
    } else if tc == 2 {
        assert(template(tc).1 == seq![0int, 2, 3, 7, 10]);
        lemma_q11_tones_2(pcs, r, rc);
    } else if tc == 3 {
        assert(template(tc).1 == seq![0int, 4, 7, 11]);
        lemma_q11_tones_3(pcs, r, rc);
    } else if tc == 4 {
        assert(template(tc).1 == seq![0int, 4, 7, 10]);
        lemma_q11_tones_4(pcs, r, rc);
    } else if tc == 5 {
        assert(template(tc).1 == seq![0int, 3, 7, 10]);
        lemma_q11_tones_5(pcs, r, rc);
    } else if tc == 6 {
        assert(template(tc).1 == seq![0int, 3, 7, 11]);
        lemma_q11_tones_6(pcs, r, rc);
    } else if tc == 7 {
        assert(template(tc).1 == seq![0int, 3, 6, 9]);
        lemma_q11_tones_7(pcs, r, rc);
    } else if tc == 8 {
        assert(template(tc).1 == seq![0int, 3, 6, 10]);
        lemma_q11_tones_8(pcs, r, rc);
    } else if tc == 9 {
        assert(template(tc).1 == seq![0int, 4, 8, 11]);
        lemma_q11_tones_9(pcs, r, rc);
    } else if tc == 10 {
        assert(template(tc).1 == seq![0int, 5, 7, 10]);
        lemma_q11_tones_10(pcs, r, rc);
    } else if tc == 11 {
        assert(template(tc).1 == seq![0int, 2, 4, 7]);
        lemma_q11_tones_11(pcs, r, rc);
    } else if tc == 12 {
        assert(template(tc).1 == seq![0int, 2, 3, 7]);
        lemma_q11_tones_12(pcs, r, rc);
    } else if tc == 13 {
        assert(template(tc).1 == seq![0int, 4, 7]);
    } else if tc == 14 {
        assert(template(tc).1 == seq![0int, 3, 7]);
    } else if tc == 15 {
        assert(template(tc).1 == seq![0int, 3, 6]);
    } else if tc == 16 {
        assert(template(tc).1 == seq![0int, 4, 8]);
    } else if tc == 17 {
        assert(template(tc).1 == seq![0int, 2, 7]);
    } else if tc == 18 {
        assert(template(tc).1 == seq![0int, 5, 7]);
    } else if tc == 19 {
        assert(template(tc).1 == seq![0int, 7]);
    }
}

/// A chord whose sounding pitch classes are exactly root + {0, 2, 4, 7} (a
/// added ninth) is named Add9 on that root, with no uncertainty.
#[verifier::rlimit(40)]
pub proof fn lemma_add9_is_named(midis: Seq<int>, r: int, c: ChordName)
    requires
        0 <= r < 12,
        forall|i: int| 0 <= i < 12 ==> (#[trigger] pc_set(midis)[i] <==> (i == r || i == (r + 2) % 12 || i == (r + 4) % 12 || i == (r + 7) % 12)),
        chord_result_ok(midis, c),
    ensures
        c.root.0 == r,
        c.quality == ChordQuality::Add9,
        !c.uncertain,
{
    let pcs = pc_set(midis);
    let rc = c.root.0 as int;
    let tc = choose|t: int|
        is_best(pcs, rc, t) && #[trigger] template(t).0 == c.quality && c.uncertain == (extra_of(pcs, rc, t) > 0
            || missing_of(pcs, rc, t) > 0);
    assert(is_best(pcs, rc, tc));
    let tt = template(11).1;
    assert(tt == seq![0int, 2, 4, 7]);
    lemma_exact_facts(pcs, r, 11);
    assert forall|i: int| 0 <= i < 12 && pcs[i] implies #[trigger] expected_set(r, 11)[i] by {
        if i == r {
            assert((r + tt[0]) % 12 == i);
        } else if i == (r + 2) % 12 {
            assert((r + tt[1]) % 12 == i);
        } else if i == (r + 4) % 12 {
            assert((r + tt[2]) % 12 == i);
        } else if i == (r + 7) % 12 {
            assert((r + tt[3]) % 12 == i);
        }
    }
    assert forall|k: int| 0 <= k < tt.len() implies #[trigger] pcs[(r + template(11).1[k]) % 12] by {
        assert(pcs[(r + tt[k]) % 12]);
    }
    assert(pcs[r]);
    assert(is_candidate(pcs, r, 11));
    assert(!ranks_before(pcs, r, 11, rc, tc));
    lemma_exact_facts(pcs, rc, tc);
    assert(extra_of(pcs, rc, tc) == 0 && missing_of(pcs, rc, tc) == 0);
    assert(pcs[rc]);
    assert(0 <= tc < 20);
    assert(template(tc).1.len() >= 4);
    lemma_q11_only(pcs, r, rc, tc);
}

proof fn lemma_q12_tones_0(pcs: Seq<bool>, r: int, rc: int)
    requires
        0 <= r < 12,
        0 <= rc < 12,
        forall|i: int| 0 <= i < 12 ==> (#[trigger] pcs[i] <==> (i == wrap12(r + 0) || i == wrap12(r + 2) || i == wrap12(r + 3) || i == wrap12(r + 7))),
    ensures
        (pcs[wrap12(rc + 0)] && pcs[wrap12(rc + 2)] && pcs[wrap12(rc + 4)] && pcs[wrap12(rc + 7)] && pcs[wrap12(rc + 10)]) ==> false,
{
}

proof fn lemma_q12_tones_1(pcs: Seq<bool>, r: int, rc: int)
    requires
        0 <= r < 12,
        0 <= rc < 12,
        forall|i: int| 0 <= i < 12 ==> (#[trigger] pcs[i] <==> (i == wrap12(r + 0) || i == wrap12(r + 2) || i == wrap12(r + 3) || i == wrap12(r + 7))),
    ensures
        (pcs[wrap12(rc + 0)] && pcs[wrap12(rc + 2)] && pcs[wrap12(rc + 4)] && pcs[wrap12(rc + 7)] && pcs[wrap12(rc + 11)]) ==> false,
{
}

proof fn lemma_q12_tones_2(pcs: Seq<bool>, r: int, rc: int)
    requires
        0 <= r < 12,
        0 <= rc < 12,
        forall|i: int| 0 <= i < 12 ==> (#[trigger] pcs[i] <==> (i == wrap12(r + 0) || i == wrap12(r + 2) || i == wrap12(r + 3) || i == wrap12(r + 7))),
    ensures
        (pcs[wrap12(rc + 0)] && pcs[wrap12(rc + 2)] && pcs[wrap12(rc + 3)] && pcs[wrap12(rc + 7)] && pcs[wrap12(rc + 10)]) ==> false,
{
}

proof fn lemma_q12_tones_3(pcs: Seq<bool>, r: int, rc: int)
    requires
        0 <= r < 12,
        0 <= rc < 12,
        forall|i: int| 0 <= i < 12 ==> (#[trigger] pcs[i] <==> (i == wrap12(r + 0) || i == wrap12(r + 2) || i == wrap12(r + 3) || i == wrap12(r + 7))),
    ensures
        (pcs[wrap12(rc + 0)] && pcs[wrap12(rc + 4)] && pcs[wrap12(rc + 7)] && pcs[wrap12(rc + 11)]) ==> false,
{
}

proof fn lemma_q12_tones_4(pcs: Seq<bool>, r: int, rc: int)
    requires
        0 <= r < 12,
        0 <= rc < 12,
        forall|i: int| 0 <= i < 12 ==> (#[trigger] pcs[i] <==> (i == wrap12(r + 0) || i == wrap12(r + 2) || i == wrap12(r + 3) || i == wrap12(r + 7))),
    ensures
        (pcs[wrap12(rc + 0)] && pcs[wrap12(rc + 4)] && pcs[wrap12(rc + 7)] && pcs[wrap12(rc + 10)]) ==> false,
{
}

proof fn lemma_q12_tones_5(pcs: Seq<bool>, r: int, rc: int)
    requires
        0 <= r < 12,
        0 <= rc < 12,
        forall|i: int| 0 <= i < 12 ==> (#[trigger] pcs[i] <==> (i == wrap12(r + 0) || i == wrap12(r + 2) || i == wrap12(r + 3) || i == wrap12(r + 7))),
    ensures
        (pcs[wrap12(rc + 0)] && pcs[wrap12(rc + 3)] && pcs[wrap12(rc + 7)] && pcs[wrap12(rc + 10)]) ==> false,
{
}

proof fn lemma_q12_tones_6(pcs: Seq<bool>, r: int, rc: int)
    requires
        0 <= r < 12,
        0 <= rc < 12,
        forall|i: int| 0 <= i < 12 ==> (#[trigger] pcs[i] <==> (i == wrap12(r + 0) || i == wrap12(r + 2) || i == wrap12(r + 3) || i == wrap12(r + 7))),
    ensures
        (pcs[wrap12(rc + 0)] && pcs[wrap12(rc + 3)] && pcs[wrap12(rc + 7)] && pcs[wrap12(rc + 11)]) ==> false,
{
}

proof fn lemma_q12_tones_7(pcs: Seq<bool>, r: int, rc: int)
    requires
        0 <= r < 12,
        0 <= rc < 12,
        forall|i: int| 0 <= i < 12 ==> (#[trigger] pcs[i] <==> (i == wrap12(r + 0) || i == wrap12(r + 2) || i == wrap12(r + 3) || i == wrap12(r + 7))),
    ensures
        (pcs[wrap12(rc + 0)] && pcs[wrap12(rc + 3)] && pcs[wrap12(rc + 6)] && pcs[wrap12(rc + 9)]) ==> false,
{
}

proof fn lemma_q12_tones_8(pcs: Seq<bool>, r: int, rc: int)
    requires
        0 <= r < 12,
        0 <= rc < 12,
        forall|i: int| 0 <= i < 12 ==> (#[trigger] pcs[i] <==> (i == wrap12(r + 0) || i == wrap12(r + 2) || i == wrap12(r + 3) || i == wrap12(r + 7))),
    ensures
        (pcs[wrap12(rc + 0)] && pcs[wrap12(rc + 3)] && pcs[wrap12(rc + 6)] && pcs[wrap12(rc + 10)]) ==> false,
{
}

proof fn lemma_q12_tones_9(pcs: Seq<bool>, r: int, rc: int)
    requires
        0 <= r < 12,
        0 <= rc < 12,
        forall|i: int| 0 <= i < 12 ==> (#[trigger] pcs[i] <==> (i == wrap12(r + 0) || i == wrap12(r + 2) || i == wrap12(r + 3) || i == wrap12(r + 7))),
    ensures
        (pcs[wrap12(rc + 0)] && pcs[wrap12(rc + 4)] && pcs[wrap12(rc + 8)] && pcs[wrap12(rc + 11)]) ==> false,
{
}

proof fn lemma_q12_tones_10(pcs: Seq<bool>, r: int, rc: int)
    requires
        0 <= r < 12,
        0 <= rc < 12,
        forall|i: int| 0 <= i < 12 ==> (#[trigger] pcs[i] <==> (i == wrap12(r + 0) || i == wrap12(r + 2) || i == wrap12(r + 3) || i == wrap12(r + 7))),
    ensures
        (pcs[wrap12(rc + 0)] && pcs[wrap12(rc + 5)] && pcs[wrap12(rc + 7)] && pcs[wrap12(rc + 10)]) ==> false,
{
}

proof fn lemma_q12_tones_11(pcs: Seq<bool>, r: int, rc: int)
    requires
        0 <= r < 12,
        0 <= rc < 12,
        forall|i: int| 0 <= i < 12 ==> (#[trigger] pcs[i] <==> (i == wrap12(r + 0) || i == wrap12(r + 2) || i == wrap12(r + 3) || i == wrap12(r + 7))),
    ensures
        (pcs[wrap12(rc + 0)] && pcs[wrap12(rc + 2)] && pcs[wrap12(rc + 4)] && pcs[wrap12(rc + 7)]) ==> false,
{
}

proof fn lemma_q12_tones_12(pcs: Seq<bool>, r: int, rc: int)
    requires
        0 <= r < 12,
        0 <= rc < 12,
        forall|i: int| 0 <= i < 12 ==> (#[trigger] pcs[i] <==> (i == wrap12(r + 0) || i == wrap12(r + 2) || i == wrap12(r + 3) || i == wrap12(r + 7))),
    ensures
        (pcs[wrap12(rc + 0)] && pcs[wrap12(rc + 2)] && pcs[wrap12(rc + 3)] && pcs[wrap12(rc + 7)]) ==> rc == r,
{
}

proof fn lemma_q12_only(pcs: Seq<bool>, r: int, rc: int, tc: int)
    requires
        0 <= r < 12,
        0 <= rc < 12,
        0 <= tc < 20,
        template(tc).1.len() >= 4,
        forall|i: int| 0 <= i < 12 ==> (#[trigger] pcs[i] <==> (i == r || i == (r + 2) % 12 || i == (r + 3) % 12 || i == (r + 7) % 12)),
        missing_of(pcs, rc, tc) == 0,
    ensures
        tc == 12 && rc == r,
{
    lemma_wrap12(r + 0);
    lemma_wrap12(r + 2);
    lemma_wrap12(r + 3);
    lemma_wrap12(r + 7);
    assert forall|i: int| 0 <= i < 12 implies (#[trigger] pcs[i] <==> (i == wrap12(r + 0) || i == wrap12(r + 2) || i == wrap12(r + 3) || i == wrap12(r + 7))) by {}
    lemma_all_tones_sound_wrapped(pcs, rc, tc);
    if tc == 0 {
        assert(template(tc).1 == seq![0int, 2, 4, 7, 10]);
        lemma_q12_tones_0(pcs, r, rc);
    } else if tc == 1 {
        assert(template(tc).1 == seq![0int, 2, 4, 7, 11]);
        lemma_q12_tones_1(pcs, r, rc);
    } else if tc == 2 {
        assert(template(tc).1 == seq![0int, 2, 3, 7, 10]);
        lemma_q12_tones_2(pcs, r, rc);
    } else if tc == 3 {
        assert(template(tc).1 == seq![0int, 4, 7, 11]);
        lemma_q12_tones_3(pcs, r, rc);
    } else if tc == 4 {
        assert(template(tc).1 == seq![0int, 4, 7, 10]);
        lemma_q12_tones_4(pcs, r, rc);
    } else if tc == 5 {
        assert(template(tc).1 == seq![0int, 3, 7, 10]);
        lemma_q12_tones_5(pcs, r, rc);
    } else if tc == 6 {
        assert(template(tc).1 == seq![0int, 3, 7, 11]);
        lemma_q12_tones_6(pcs, r, rc);
    } else if tc == 7 {
        assert(template(tc).1 == seq![0int, 3, 6, 9]);
        lemma_q12_tones_7(pcs, r, rc);
    } else if tc == 8 {
        assert(template(tc).1 == seq![0int, 3, 6, 10]);
        lemma_q12_tones_8(pcs, r, rc);
    } else if tc == 9 {
        assert(template(tc).1 == seq![0int, 4, 8, 11]);
        lemma_q12_tones_9(pcs, r, rc);
    } else if tc == 10 {
        assert(template(tc).1 == seq![0int, 5, 7, 10]);
        lemma_q12_tones_10(pcs, r, rc);
    } else if tc == 11 {
        assert(template(tc).1 == seq![0int, 2, 4, 7]);
        lemma_q12_tones_11(pcs, r, rc);
    } else if tc == 12 {
        assert(template(tc).1 == seq![0int, 2, 3, 7]);
        lemma_q12_tones_12(pcs, r, rc);
    } else if tc == 13 {
        assert(template(tc).1 == seq![0int, 4, 7]);
    } else if tc == 14 {
        assert(template(tc).1 == seq![0int, 3, 7]);
    } else if tc == 15 {
        assert(template(tc).1 == seq![0int, 3, 6]);
    } else if tc == 16 {
        assert(template(tc).1 == seq![0int, 4, 8]);
    } else if tc == 17 {
        assert(template(tc).1 == seq![0int, 2, 7]);
    } else if tc == 18 {
        assert(template(tc).1 == seq![0int, 5, 7]);
    } else if tc == 19 {
        assert(template(tc).1 == seq![0int, 7]);
    }
}

/// A chord whose sounding pitch classes are exactly root + {0, 2, 3, 7} (a
/// minor added ninth) is named MinAdd9 on that root, with no uncertainty.
#[verifier::rlimit(40)]
pub proof fn lemma_minadd9_is_named(midis: Seq<int>, r: int, c: ChordName)
    requires
        0 <= r < 12,
        forall|i: int| 0 <= i < 12 ==> (#[trigger] pc_set(midis)[i] <==> (i == r || i == (r + 2) % 12 || i == (r + 3) % 12 || i == (r + 7) % 12)),
        chord_result_ok(midis, c),
    ensures
        c.root.0 == r,
        c.quality == ChordQuality::MinAdd9,
        !c.uncertain,
{
    let pcs = pc_set(midis);
    let rc = c.root.0 as int;
    let tc = choose|t: int|
        is_best(pcs, rc, t) && #[trigger] template(t).0 == c.quality && c.uncertain == (extra_of(pcs, rc, t) > 0
            || missing_of(pcs, rc, t) > 0);
    assert(is_best(pcs, rc, tc));
    let tt = template(12).1;
    assert(tt == seq![0int, 2, 3, 7]);
    lemma_exact_facts(pcs, r, 12);
    assert forall|i: int| 0 <= i < 12 && pcs[i] implies #[trigger] expected_set(r, 12)[i] by {
        if i == r {
            assert((r + tt[0]) % 12 == i);
        } else if i == (r + 2) % 12 {
            assert((r + tt[1]) % 12 == i);
        } else if i == (r + 3) % 12 {
            assert((r + tt[2]) % 12 == i);
        } else if i == (r + 7) % 12 {
            assert((r + tt[3]) % 12 == i);
        }
    }
    assert forall|k: int| 0 <= k < tt.len() implies #[trigger] pcs[(r + template(12).1[k]) % 12] by {
        assert(pcs[(r + tt[k]) % 12]);
    }
    assert(pcs[r]);
    assert(is_candidate(pcs, r, 12));
    assert(!ranks_before(pcs, r, 12, rc, tc));
    lemma_exact_facts(pcs, rc, tc);
    assert(extra_of(pcs, rc, tc) == 0 && missing_of(pcs, rc, tc) == 0);
    assert(pcs[rc]);
    assert(0 <= tc < 20);
    assert(template(tc).1.len() >= 4);
    lemma_q12_only(pcs, r, rc, tc);
}

proof fn lemma_q13_tones_0(pcs: Seq<bool>, r: int, rc: int)
    requires
        0 <= r < 12,
        0 <= rc < 12,
        forall|i: int| 0 <= i < 12 ==> (#[trigger] pcs[i] <==> (i == wrap12(r + 0) || i == wrap12(r + 4) || i == wrap12(r + 7))),
    ensures
        (pcs[wrap12(rc + 0)] && pcs[wrap12(rc + 2)] && pcs[wrap12(rc + 4)] && pcs[wrap12(rc + 7)] && pcs[wrap12(rc + 10)]) ==> false,
{
}

proof fn lemma_q13_tones_1(pcs: Seq<bool>, r: int, rc: int)
    requires
        0 <= r < 12,
        0 <= rc < 12,
        forall|i: int| 0 <= i < 12 ==> (#[trigger] pcs[i] <==> (i == wrap12(r + 0) || i == wrap12(r + 4) || i == wrap12(r + 7))),
    ensures
        (pcs[wrap12(rc + 0)] && pcs[wrap12(rc + 2)] && pcs[wrap12(rc + 4)] && pcs[wrap12(rc + 7)] && pcs[wrap12(rc + 11)]) ==> false,
{
}

proof fn lemma_q13_tones_2(pcs: Seq<bool>, r: int, rc: int)
    requires
        0 <= r < 12,
        0 <= rc < 12,
        forall|i: int| 0 <= i < 12 ==> (#[trigger] pcs[i] <==> (i == wrap12(r + 0) || i == wrap12(r + 4) || i == wrap12(r + 7))),
    ensures
        (pcs[wrap12(rc + 0)] && pcs[wrap12(rc + 2)] && pcs[wrap12(rc + 3)] && pcs[wrap12(rc + 7)] && pcs[wrap12(rc + 10)]) ==> false,
{
}

proof fn lemma_q13_tones_3(pcs: Seq<bool>, r: int, rc: int)
    requires
        0 <= r < 12,
        0 <= rc < 12,
        forall|i: int| 0 <= i < 12 ==> (#[trigger] pcs[i] <==> (i == wrap12(r + 0) || i == wrap12(r + 4) || i == wrap12(r + 7))),
    ensures
        (pcs[wrap12(rc + 0)] && pcs[wrap12(rc + 4)] && pcs[wrap12(rc + 7)] && pcs[wrap12(rc + 11)]) ==> false,
{
}

proof fn lemma_q13_tones_4(pcs: Seq<bool>, r: int, rc: int)
    requires
        0 <= r < 12,
        0 <= rc < 12,
        forall|i: int| 0 <= i < 12 ==> (#[trigger] pcs[i] <==> (i == wrap12(r + 0) || i == wrap12(r + 4) || i == wrap12(r + 7))),
    ensures
        (pcs[wrap12(rc + 0)] && pcs[wrap12(rc + 4)] && pcs[wrap12(rc + 7)] && pcs[wrap12(rc + 10)]) ==> false,
{
}

proof fn lemma_q13_tones_5(pcs: Seq<bool>, r: int, rc: int)
    requires
        0 <= r < 12,
        0 <= rc < 12,
        forall|i: int| 0 <= i < 12 ==> (#[trigger] pcs[i] <==> (i == wrap12(r + 0) || i == wrap12(r + 4) || i == wrap12(r + 7))),
    ensures
        (pcs[wrap12(rc + 0)] && pcs[wrap12(rc + 3)] && pcs[wrap12(rc + 7)] && pcs[wrap12(rc + 10)]) ==> false,
{
}

proof fn lemma_q13_tones_6(pcs: Seq<bool>, r: int, rc: int)
    requires
        0 <= r < 12,
        0 <= rc < 12,
        forall|i: int| 0 <= i < 12 ==> (#[trigger] pcs[i] <==> (i == wrap12(r + 0) || i == wrap12(r + 4) || i == wrap12(r + 7))),
    ensures
        (pcs[wrap12(rc + 0)] && pcs[wrap12(rc + 3)] && pcs[wrap12(rc + 7)] && pcs[wrap12(rc + 11)]) ==> false,
{
}

proof fn lemma_q13_tones_7(pcs: Seq<bool>, r: int, rc: int)
    requires
        0 <= r < 12,
        0 <= rc < 12,
        forall|i: int| 0 <= i < 12 ==> (#[trigger] pcs[i] <==> (i == wrap12(r + 0) || i == wrap12(r + 4) || i == wrap12(r + 7))),
    ensures
        (pcs[wrap12(rc + 0)] && pcs[wrap12(rc + 3)] && pcs[wrap12(rc + 6)] && pcs[wrap12(rc + 9)]) ==> false,
{
}

proof fn lemma_q13_tones_8(pcs: Seq<bool>, r: int, rc: int)
    requires
        0 <= r < 12,
        0 <= rc < 12,
        forall|i: int| 0 <= i < 12 ==> (#[trigger] pcs[i] <==> (i == wrap12(r + 0) || i == wrap12(r + 4) || i == wrap12(r + 7))),
    ensures
        (pcs[wrap12(rc + 0)] && pcs[wrap12(rc + 3)] && pcs[wrap12(rc + 6)] && pcs[wrap12(rc + 10)]) ==> false,
{
}

proof fn lemma_q13_tones_9(pcs: Seq<bool>, r: int, rc: int)
    requires
        0 <= r < 12,
        0 <= rc < 12,
        forall|i: int| 0 <= i < 12 ==> (#[trigger] pcs[i] <==> (i == wrap12(r + 0) || i == wrap12(r + 4) || i == wrap12(r + 7))),
    ensures
        (pcs[wrap12(rc + 0)] && pcs[wrap12(rc + 4)] && pcs[wrap12(rc + 8)] && pcs[wrap12(rc + 11)]) ==> false,
{
}

proof fn lemma_q13_tones_10(pcs: Seq<bool>, r: int, rc: int)
    requires
        0 <= r < 12,
        0 <= rc < 12,
        forall|i: int| 0 <= i < 12 ==> (#[trigger] pcs[i] <==> (i == wrap12(r + 0) || i == wrap12(r + 4) || i == wrap12(r + 7))),
    ensures
        (pcs[wrap12(rc + 0)] && pcs[wrap12(rc + 5)] && pcs[wrap12(rc + 7)] && pcs[wrap12(rc + 10)]) ==> false,
{
}

proof fn lemma_q13_tones_11(pcs: Seq<bool>, r: int, rc: int)
    requires
        0 <= r < 12,
        0 <= rc < 12,
        forall|i: int| 0 <= i < 12 ==> (#[trigger] pcs[i] <==> (i == wrap12(r + 0) || i == wrap12(r + 4) || i == wrap12(r + 7))),
    ensures
        (pcs[wrap12(rc + 0)] && pcs[wrap12(rc + 2)] && pcs[wrap12(rc + 4)] && pcs[wrap12(rc + 7)]) ==> false,
{
}

proof fn lemma_q13_tones_12(pcs: Seq<bool>, r: int, rc: int)
    requires
        0 <= r < 12,
        0 <= rc < 12,
        forall|i: int| 0 <= i < 12 ==> (#[trigger] pcs[i] <==> (i == wrap12(r + 0) || i == wrap12(r + 4) || i == wrap12(r + 7))),
    ensures
        (pcs[wrap12(rc + 0)] && pcs[wrap12(rc + 2)] && pcs[wrap12(rc + 3)] && pcs[wrap12(rc + 7)]) ==> false,
{
}

proof fn lemma_q13_tones_13(pcs: Seq<bool>, r: int, rc: int)
    requires
        0 <= r < 12,
        0 <= rc < 12,
        forall|i: int| 0 <= i < 12 ==> (#[trigger] pcs[i] <==> (i == wrap12(r + 0) || i == wrap12(r + 4) || i == wrap12(r + 7))),
    ensures
        (pcs[wrap12(rc + 0)] && pcs[wrap12(rc + 4)] && pcs[wrap12(rc + 7)]) ==> rc == r,
{
}

proof fn lemma_q13_tones_14(pcs: Seq<bool>, r: int, rc: int)
    requires
        0 <= r < 12,
        0 <= rc < 12,
        forall|i: int| 0 <= i < 12 ==> (#[trigger] pcs[i] <==> (i == wrap12(r + 0) || i == wrap12(r + 4) || i == wrap12(r + 7))),
    ensures
        (pcs[wrap12(rc + 0)] && pcs[wrap12(rc + 3)] && pcs[wrap12(rc + 7)]) ==> false,
{
}

proof fn lemma_q13_tones_15(pcs: Seq<bool>, r: int, rc: int)
    requires
        0 <= r < 12,
        0 <= rc < 12,
        forall|i: int| 0 <= i < 12 ==> (#[trigger] pcs[i] <==> (i == wrap12(r + 0) || i == wrap12(r + 4) || i == wrap12(r + 7))),
    ensures
        (pcs[wrap12(rc + 0)] && pcs[wrap12(rc + 3)] && pcs[wrap12(rc + 6)]) ==> false,
{
}

proof fn lemma_q13_tones_16(pcs: Seq<bool>, r: int, rc: int)
    requires
        0 <= r < 12,
        0 <= rc < 12,
        forall|i: int| 0 <= i < 12 ==> (#[trigger] pcs[i] <==> (i == wrap12(r + 0) || i == wrap12(r + 4) || i == wrap12(r + 7))),
    ensures
        (pcs[wrap12(rc + 0)] && pcs[wrap12(rc + 4)] && pcs[wrap12(rc + 8)]) ==> false,
{
}

proof fn lemma_q13_tones_17(pcs: Seq<bool>, r: int, rc: int)
    requires
        0 <= r < 12,
        0 <= rc < 12,
        forall|i: int| 0 <= i < 12 ==> (#[trigger] pcs[i] <==> (i == wrap12(r + 0) || i == wrap12(r + 4) || i == wrap12(r + 7))),
    ensures
        (pcs[wrap12(rc + 0)] && pcs[wrap12(rc + 2)] && pcs[wrap12(rc + 7)]) ==> false,
{
}

proof fn lemma_q13_tones_18(pcs: Seq<bool>, r: int, rc: int)
    requires
        0 <= r < 12,
        0 <= rc < 12,
        forall|i: int| 0 <= i < 12 ==> (#[trigger] pcs[i] <==> (i == wrap12(r + 0) || i == wrap12(r + 4) || i == wrap12(r + 7))),
    ensures
        (pcs[wrap12(rc + 0)] && pcs[wrap12(rc + 5)] && pcs[wrap12(rc + 7)]) ==> false,
{
}

proof fn lemma_q13_only(pcs: Seq<bool>, r: int, rc: int, tc: int)
    requires
        0 <= r < 12,
        0 <= rc < 12,
        0 <= tc < 20,
        template(tc).1.len() >= 3,
        forall|i: int| 0 <= i < 12 ==> (#[trigger] pcs[i] <==> (i == r || i == (r + 4) % 12 || i == (r + 7) % 12)),
        missing_of(pcs, rc, tc) == 0,
    ensures
        tc == 13 && rc == r,
{
    lemma_wrap12(r + 0);
    lemma_wrap12(r + 4);
    lemma_wrap12(r + 7);
    assert forall|i: int| 0 <= i < 12 implies (#[trigger] pcs[i] <==> (i == wrap12(r + 0) || i == wrap12(r + 4) || i == wrap12(r + 7))) by {}
    lemma_all_tones_sound_wrapped(pcs, rc, tc);
    if tc == 0 {
        assert(template(tc).1 == seq![0int, 2, 4, 7, 10]);
        lemma_q13_tones_0(pcs, r, rc);
    } else if tc == 1 {
        assert(template(tc).1 == seq![0int, 2, 4, 7, 11]);
        lemma_q13_tones_1(pcs, r, rc);
    } else if tc == 2 {
        assert(template(tc).1 == seq![0int, 2, 3, 7, 10]);
        lemma_q13_tones_2(pcs, r, rc);
    } else if tc == 3 {
        assert(template(tc).1 == seq![0int, 4, 7, 11]);
        lemma_q13_tones_3(pcs, r, rc);
    } else if tc == 4 {
        assert(template(tc).1 == seq![0int, 4, 7, 10]);
        lemma_q13_tones_4(pcs, r, rc);
    } else if tc == 5 {
        assert(template(tc).1 == seq![0int, 3, 7, 10]);
        lemma_q13_tones_5(pcs, r, rc);
    } else if tc == 6 {
        assert(template(tc).1 == seq![0int, 3, 7, 11]);
        lemma_q13_tones_6(pcs, r, rc);
    } else if tc == 7 {
        assert(template(tc).1 == seq![0int, 3, 6, 9]);
        lemma_q13_tones_7(pcs, r, rc);
    } else if tc == 8 {
        assert(template(tc).1 == seq![0int, 3, 6, 10]);
        lemma_q13_tones_8(pcs, r, rc);
    } else if tc == 9 {
        assert(template(tc).1 == seq![0int, 4, 8, 11]);
        lemma_q13_tones_9(pcs, r, rc);
    } else if tc == 10 {
        assert(template(tc).1 == seq![0int, 5, 7, 10]);
        lemma_q13_tones_10(pcs, r, rc);
    } else if tc == 11 {
        assert(template(tc).1 == seq![0int, 2, 4, 7]);
        lemma_q13_tones_11(pcs, r, rc);
    } else if tc == 12 {
        assert(template(tc).1 == seq![0int, 2, 3, 7]);
        lemma_q13_tones_12(pcs, r, rc);
    } else if tc == 13 {
        assert(template(tc).1 == seq![0int, 4, 7]);
        lemma_q13_tones_13(pcs, r, rc);
    } else if tc == 14 {
        assert(template(tc).1 == seq![0int, 3, 7]);
        lemma_q13_tones_14(pcs, r, rc);
    } else if tc == 15 {
        assert(template(tc).1 == seq![0int, 3, 6]);
        lemma_q13_tones_15(pcs, r, rc);
    } else if tc == 16 {
        assert(template(tc).1 == seq![0int, 4, 8]);
        lemma_q13_tones_16(pcs, r, rc);
    } else if tc == 17 {
        assert(template(tc).1 == seq![0int, 2, 7]);
        lemma_q13_tones_17(pcs, r, rc);
    } else if tc == 18 {
        assert(template(tc).1 == seq![0int, 5, 7]);
        lemma_q13_tones_18(pcs, r, rc);
    } else if tc == 19 {
        assert(template(tc).1 == seq![0int, 7]);
    }
}

/// A chord whose sounding pitch classes are exactly root + {0, 4, 7} (a
/// major triad) is named Major on that root, with no uncertainty.
#[verifier::rlimit(40)]
pub proof fn lemma_major_is_named(midis: Seq<int>, r: int, c: ChordName)
    requires
        0 <= r < 12,
        forall|i: int| 0 <= i < 12 ==> (#[trigger] pc_set(midis)[i] <==> (i == r || i == (r + 4) % 12 || i == (r + 7) % 12)),
        chord_result_ok(midis, c),
    ensures
        c.root.0 == r,
        c.quality == ChordQuality::Major,
        !c.uncertain,
{
    let pcs = pc_set(midis);
    let rc = c.root.0 as int;
    let tc = choose|t: int|
        is_best(pcs, rc, t) && #[trigger] template(t).0 == c.quality && c.uncertain == (extra_of(pcs, rc, t) > 0
            || missing_of(pcs, rc, t) > 0);
    assert(is_best(pcs, rc, tc));
    let tt = template(13).1;
    assert(tt == seq![0int, 4, 7]);
    lemma_exact_facts(pcs, r, 13);
    assert forall|i: int| 0 <= i < 12 && pcs[i] implies #[trigger] expected_set(r, 13)[i] by {
        if i == r {
            assert((r + tt[0]) % 12 == i);
        } else if i == (r + 4) % 12 {
            assert((r + tt[1]) % 12 == i);
        } else if i == (r + 7) % 12 {
            assert((r + tt[2]) % 12 == i);
        }
    }
    assert forall|k: int| 0 <= k < tt.len() implies #[trigger] pcs[(r + template(13).1[k]) % 12] by {
        assert(pcs[(r + tt[k]) % 12]);
    }
    assert(pcs[r]);
    assert(is_candidate(pcs, r, 13));
    assert(!ranks_before(pcs, r, 13, rc, tc));
    lemma_exact_facts(pcs, rc, tc);
    assert(extra_of(pcs, rc, tc) == 0 && missing_of(pcs, rc, tc) == 0);
    assert(pcs[rc]);
    assert(0 <= tc < 20);
    assert(template(tc).1.len() >= 3);
    lemma_q13_only(pcs, r, rc, tc);
}

proof fn lemma_q14_tones_0(pcs: Seq<bool>, r: int, rc: int)
    requires
        0 <= r < 12,
        0 <= rc < 12,
        forall|i: int| 0 <= i < 12 ==> (#[trigger] pcs[i] <==> (i == wrap12(r + 0) || i == wrap12(r + 3) || i == wrap12(r + 7))),
    ensures
        (pcs[wrap12(rc + 0)] && pcs[wrap12(rc + 2)] && pcs[wrap12(rc + 4)] && pcs[wrap12(rc + 7)] && pcs[wrap12(rc + 10)]) ==> false,
{
}

proof fn lemma_q14_tones_1(pcs: Seq<bool>, r: int, rc: int)
    requires
        0 <= r < 12,
        0 <= rc < 12,
        forall|i: int| 0 <= i < 12 ==> (#[trigger] pcs[i] <==> (i == wrap12(r + 0) || i == wrap12(r + 3) || i == wrap12(r + 7))),
    ensures
        (pcs[wrap12(rc + 0)] && pcs[wrap12(rc + 2)] && pcs[wrap12(rc + 4)] && pcs[wrap12(rc + 7)] && pcs[wrap12(rc + 11)]) ==> false,
{
}

proof fn lemma_q14_tones_2(pcs: Seq<bool>, r: int, rc: int)
    requires
        0 <= r < 12,
        0 <= rc < 12,
        forall|i: int| 0 <= i < 12 ==> (#[trigger] pcs[i] <==> (i == wrap12(r + 0) || i == wrap12(r + 3) || i == wrap12(r + 7))),
    ensures
        (pcs[wrap12(rc + 0)] && pcs[wrap12(rc + 2)] && pcs[wrap12(rc + 3)] && pcs[wrap12(rc + 7)] && pcs[wrap12(rc + 10)]) ==> false,
{
}

proof fn lemma_q14_tones_3(pcs: Seq<bool>, r: int, rc: int)
    requires
        0 <= r < 12,
        0 <= rc < 12,
        forall|i: int| 0 <= i < 12 ==> (#[trigger] pcs[i] <==> (i == wrap12(r + 0) || i == wrap12(r + 3) || i == wrap12(r + 7))),
    ensures
        (pcs[wrap12(rc + 0)] && pcs[wrap12(rc + 4)] && pcs[wrap12(rc + 7)] && pcs[wrap12(rc + 11)]) ==> false,
{
}

proof fn lemma_q14_tones_4(pcs: Seq<bool>, r: int, rc: int)
    requires
        0 <= r < 12,
        0 <= rc < 12,
        forall|i: int| 0 <= i < 12 ==> (#[trigger] pcs[i] <==> (i == wrap12(r + 0) || i == wrap12(r + 3) || i == wrap12(r + 7))),
    ensures
        (pcs[wrap12(rc + 0)] && pcs[wrap12(rc + 4)] && pcs[wrap12(rc + 7)] && pcs[wrap12(rc + 10)]) ==> false,
{
}

proof fn lemma_q14_tones_5(pcs: Seq<bool>, r: int, rc: int)
    requires
        0 <= r < 12,
        0 <= rc < 12,
        forall|i: int| 0 <= i < 12 ==> (#[trigger] pcs[i] <==> (i == wrap12(r + 0) || i == wrap12(r + 3) || i == wrap12(r + 7))),
    ensures
        (pcs[wrap12(rc + 0)] && pcs[wrap12(rc + 3)] && pcs[wrap12(rc + 7)] && pcs[wrap12(rc + 10)]) ==> false,
{
}

proof fn lemma_q14_tones_6(pcs: Seq<bool>, r: int, rc: int)
    requires
        0 <= r < 12,
        0 <= rc < 12,
        forall|i: int| 0 <= i < 12 ==> (#[trigger] pcs[i] <==> (i == wrap12(r + 0) || i == wrap12(r + 3) || i == wrap12(r + 7))),
    ensures
        (pcs[wrap12(rc + 0)] && pcs[wrap12(rc + 3)] && pcs[wrap12(rc + 7)] && pcs[wrap12(rc + 11)]) ==> false,
{
}

proof fn lemma_q14_tones_7(pcs: Seq<bool>, r: int, rc: int)
    requires
        0 <= r < 12,
        0 <= rc < 12,
        forall|i: int| 0 <= i < 12 ==> (#[trigger] pcs[i] <==> (i == wrap12(r + 0) || i == wrap12(r + 3) || i == wrap12(r + 7))),
    ensures
        (pcs[wrap12(rc + 0)] && pcs[wrap12(rc + 3)] && pcs[wrap12(rc + 6)] && pcs[wrap12(rc + 9)]) ==> false,
{
}

proof fn lemma_q14_tones_8(pcs: Seq<bool>, r: int, rc: int)
    requires
        0 <= r < 12,
        0 <= rc < 12,
        forall|i: int| 0 <= i < 12 ==> (#[trigger] pcs[i] <==> (i == wrap12(r + 0) || i == wrap12(r + 3) || i == wrap12(r + 7))),
    ensures
        (pcs[wrap12(rc + 0)] && pcs[wrap12(rc + 3)] && pcs[wrap12(rc + 6)] && pcs[wrap12(rc + 10)]) ==> false,
{
}

proof fn lemma_q14_tones_9(pcs: Seq<bool>, r: int, rc: int)
    requires
        0 <= r < 12,
        0 <= rc < 12,
        forall|i: int| 0 <= i < 12 ==> (#[trigger] pcs[i] <==> (i == wrap12(r + 0) || i == wrap12(r + 3) || i == wrap12(r + 7))),
    ensures
        (pcs[wrap12(rc + 0)] && pcs[wrap12(rc + 4)] && pcs[wrap12(rc + 8)] && pcs[wrap12(rc + 11)]) ==> false,
{
}

proof fn lemma_q14_tones_10(pcs: Seq<bool>, r: int, rc: int)
    requires
        0 <= r < 12,
        0 <= rc < 12,
        forall|i: int| 0 <= i < 12 ==> (#[trigger] pcs[i] <==> (i == wrap12(r + 0) || i == wrap12(r + 3) || i == wrap12(r + 7))),
    ensures
        (pcs[wrap12(rc + 0)] && pcs[wrap12(rc + 5)] && pcs[wrap12(rc + 7)] && pcs[wrap12(rc + 10)]) ==> false,
{
}

proof fn lemma_q14_tones_11(pcs: Seq<bool>, r: int, rc: int)
    requires
        0 <= r < 12,
        0 <= rc < 12,
        forall|i: int| 0 <= i < 12 ==> (#[trigger] pcs[i] <==> (i == wrap12(r + 0) || i == wrap12(r + 3) || i == wrap12(r + 7))),
    ensures
        (pcs[wrap12(rc + 0)] && pcs[wrap12(rc + 2)] && pcs[wrap12(rc + 4)] && pcs[wrap12(rc + 7)]) ==> false,
{
}

proof fn lemma_q14_tones_12(pcs: Seq<bool>, r: int, rc: int)
    requires
        0 <= r < 12,
        0 <= rc < 12,
        forall|i: int| 0 <= i < 12 ==> (#[trigger] pcs[i] <==> (i == wrap12(r + 0) || i == wrap12(r + 3) || i == wrap12(r + 7))),
    ensures
        (pcs[wrap12(rc + 0)] && pcs[wrap12(rc + 2)] && pcs[wrap12(rc + 3)] && pcs[wrap12(rc + 7)]) ==> false,
{
}

proof fn lemma_q14_tones_13(pcs: Seq<bool>, r: int, rc: int)
    requires
        0 <= r < 12,
        0 <= rc < 12,
        forall|i: int| 0 <= i < 12 ==> (#[trigger] pcs[i] <==> (i == wrap12(r + 0) || i == wrap12(r + 3) || i == wrap12(r + 7))),
    ensures
        (pcs[wrap12(rc + 0)] && pcs[wrap12(rc + 4)] && pcs[wrap12(rc + 7)]) ==> false,
{
}

proof fn lemma_q14_tones_14(pcs: Seq<bool>, r: int, rc: int)
    requires
        0 <= r < 12,
        0 <= rc < 12,
        forall|i: int| 0 <= i < 12 ==> (#[trigger] pcs[i] <==> (i == wrap12(r + 0) || i == wrap12(r + 3) || i == wrap12(r + 7))),
    ensures
        (pcs[wrap12(rc + 0)] && pcs[wrap12(rc + 3)] && pcs[wrap12(rc + 7)]) ==> rc == r,
{
}

proof fn lemma_q14_tones_15(pcs: Seq<bool>, r: int, rc: int)
    requires
        0 <= r < 12,
        0 <= rc < 12,
        forall|i: int| 0 <= i < 12 ==> (#[trigger] pcs[i] <==> (i == wrap12(r + 0) || i == wrap12(r + 3) || i == wrap12(r + 7))),
    ensures
        (pcs[wrap12(rc + 0)] && pcs[wrap12(rc + 3)] && pcs[wrap12(rc + 6)]) ==> false,
{
}

proof fn lemma_q14_tones_16(pcs: Seq<bool>, r: int, rc: int)
    requires
        0 <= r < 12,
        0 <= rc < 12,
        forall|i: int| 0 <= i < 12 ==> (#[trigger] pcs[i] <==> (i == wrap12(r + 0) || i == wrap12(r + 3) || i == wrap12(r + 7))),
    ensures
        (pcs[wrap12(rc + 0)] && pcs[wrap12(rc + 4)] && pcs[wrap12(rc + 8)]) ==> false,
{
}

proof fn lemma_q14_tones_17(pcs: Seq<bool>, r: int, rc: int)
    requires
        0 <= r < 12,
        0 <= rc < 12,
        forall|i: int| 0 <= i < 12 ==> (#[trigger] pcs[i] <==> (i == wrap12(r + 0) || i == wrap12(r + 3) || i == wrap12(r + 7))),
    ensures
        (pcs[wrap12(rc + 0)] && pcs[wrap12(rc + 2)] && pcs[wrap12(rc + 7)]) ==> false,
{
}

proof fn lemma_q14_tones_18(pcs: Seq<bool>, r: int, rc: int)
    requires
        0 <= r < 12,
        0 <= rc < 12,
        forall|i: int| 0 <= i < 12 ==> (#[trigger] pcs[i] <==> (i == wrap12(r + 0) || i == wrap12(r + 3) || i == wrap12(r + 7))),
    ensures
        (pcs[wrap12(rc + 0)] && pcs[wrap12(rc + 5)] && pcs[wrap12(rc + 7)]) ==> false,
{
}

proof fn lemma_q14_only(pcs: Seq<bool>, r: int, rc: int, tc: int)
    requires
        0 <= r < 12,
        0 <= rc < 12,
        0 <= tc < 20,
        template(tc).1.len() >= 3,
        forall|i: int| 0 <= i < 12 ==> (#[trigger] pcs[i] <==> (i == r || i == (r + 3) % 12 || i == (r + 7) % 12)),
        missing_of(pcs, rc, tc) == 0,
    ensures
        tc == 14 && rc == r,
{
    lemma_wrap12(r + 0);
    lemma_wrap12(r + 3);
    lemma_wrap12(r + 7);
    assert forall|i: int| 0 <= i < 12 implies (#[trigger] pcs[i] <==> (i == wrap12(r + 0) || i == wrap12(r + 3) || i == wrap12(r + 7))) by {}
    lemma_all_tones_sound_wrapped(pcs, rc, tc);
    if tc == 0 {
        assert(template(tc).1 == seq![0int, 2, 4, 7, 10]);
        lemma_q14_tones_0(pcs, r, rc);
    } else if tc == 1 {
        assert(template(tc).1 == seq![0int, 2, 4, 7, 11]);
        lemma_q14_tones_1(pcs, r, rc);
    } else if tc == 2 {
        assert(template(tc).1 == seq![0int, 2, 3, 7, 10]);
        lemma_q14_tones_2(pcs, r, rc);
    } else if tc == 3 {
        assert(template(tc).1 == seq![0int, 4, 7, 11]);
        lemma_q14_tones_3(pcs, r, rc);
    } else if tc == 4 {
        assert(template(tc).1 == seq![0int, 4, 7, 10]);
        lemma_q14_tones_4(pcs, r, rc);
    } else if tc == 5 {
        assert(template(tc).1 == seq![0int, 3, 7, 10]);
        lemma_q14_tones_5(pcs, r, rc);
    } else if tc == 6 {
        assert(template(tc).1 == seq![0int, 3, 7, 11]);
        lemma_q14_tones_6(pcs, r, rc);
    } else if tc == 7 {
        assert(template(tc).1 == seq![0int, 3, 6, 9]);
        lemma_q14_tones_7(pcs, r, rc);
    } else if tc == 8 {
        assert(template(tc).1 == seq![0int, 3, 6, 10]);
        lemma_q14_tones_8(pcs, r, rc);
    } else if tc == 9 {
        assert(template(tc).1 == seq![0int, 4, 8, 11]);
        lemma_q14_tones_9(pcs, r, rc);
    } else if tc == 10 {
        assert(template(tc).1 == seq![0int, 5, 7, 10]);
        lemma_q14_tones_10(pcs, r, rc);
    } else if tc == 11 {
        assert(template(tc).1 == seq![0int, 2, 4, 7]);
        lemma_q14_tones_11(pcs, r, rc);
    } else if tc == 12 {
        assert(template(tc).1 == seq![0int, 2, 3, 7]);
        lemma_q14_tones_12(pcs, r, rc);
    } else if tc == 13 {
        assert(template(tc).1 == seq![0int, 4, 7]);
        lemma_q14_tones_13(pcs, r, rc);
    } else if tc == 14 {
        assert(template(tc).1 == seq![0int, 3, 7]);
        lemma_q14_tones_14(pcs, r, rc);
    } else if tc == 15 {
        assert(template(tc).1 == seq![0int, 3, 6]);
        lemma_q14_tones_15(pcs, r, rc);
    } else if tc == 16 {
        assert(template(tc).1 == seq![0int, 4, 8]);
        lemma_q14_tones_16(pcs, r, rc);
    } else if tc == 17 {
        assert(template(tc).1 == seq![0int, 2, 7]);
        lemma_q14_tones_17(pcs, r, rc);
    } else if tc == 18 {
        assert(template(tc).1 == seq![0int, 5, 7]);
        lemma_q14_tones_18(pcs, r, rc);
    } else if tc == 19 {
        assert(template(tc).1 == seq![0int, 7]);
    }
}

/// A chord whose sounding pitch classes are exactly root + {0, 3, 7} (a
/// minor triad) is named Minor on that root, with no uncertainty.
#[verifier::rlimit(40)]
pub proof fn lemma_minor_is_named(midis: Seq<int>, r: int, c: ChordName)
    requires
        0 <= r < 12,
        forall|i: int| 0 <= i < 12 ==> (#[trigger] pc_set(midis)[i] <==> (i == r || i == (r + 3) % 12 || i == (r + 7) % 12)),
        chord_result_ok(midis, c),
    ensures
        c.root.0 == r,
        c.quality == ChordQuality::Minor,
        !c.uncertain,
{
    let pcs = pc_set(midis);
    let rc = c.root.0 as int;
    let tc = choose|t: int|
        is_best(pcs, rc, t) && #[trigger] template(t).0 == c.quality && c.uncertain == (extra_of(pcs, rc, t) > 0
            || missing_of(pcs, rc, t) > 0);
    assert(is_best(pcs, rc, tc));
    let tt = template(14).1;
    assert(tt == seq![0int, 3, 7]);
    lemma_exact_facts(pcs, r, 14);
    assert forall|i: int| 0 <= i < 12 && pcs[i] implies #[trigger] expected_set(r, 14)[i] by {
        if i == r {
            assert((r + tt[0]) % 12 == i);
        } else if i == (r + 3) % 12 {
            assert((r + tt[1]) % 12 == i);
        } else if i == (r + 7) % 12 {
            assert((r + tt[2]) % 12 == i);
        }
    }
    assert forall|k: int| 0 <= k < tt.len() implies #[trigger] pcs[(r + template(14).1[k]) % 12] by {
        assert(pcs[(r + tt[k]) % 12]);
    }
    assert(pcs[r]);
    assert(is_candidate(pcs, r, 14));
    assert(!ranks_before(pcs, r, 14, rc, tc));
    lemma_exact_facts(pcs, rc, tc);
    assert(extra_of(pcs, rc, tc) == 0 && missing_of(pcs, rc, tc) == 0);
    assert(pcs[rc]);
    assert(0 <= tc < 20);
    assert(template(tc).1.len() >= 3);
    lemma_q14_only(pcs, r, rc, tc);
}

proof fn lemma_q15_tones_0(pcs: Seq<bool>, r: int, rc: int)
    requires
        0 <= r < 12,
        0 <= rc < 12,
        forall|i: int| 0 <= i < 12 ==> (#[trigger] pcs[i] <==> (i == wrap12(r + 0) || i == wrap12(r + 3) || i == wrap12(r + 6))),
    ensures
        (pcs[wrap12(rc + 0)] && pcs[wrap12(rc + 2)] && pcs[wrap12(rc + 4)] && pcs[wrap12(rc + 7)] && pcs[wrap12(rc + 10)]) ==> false,
{
}

proof fn lemma_q15_tones_1(pcs: Seq<bool>, r: int, rc: int)
    requires
        0 <= r < 12,
        0 <= rc < 12,
        forall|i: int| 0 <= i < 12 ==> (#[trigger] pcs[i] <==> (i == wrap12(r + 0) || i == wrap12(r + 3) || i == wrap12(r + 6))),
    ensures
        (pcs[wrap12(rc + 0)] && pcs[wrap12(rc + 2)] && pcs[wrap12(rc + 4)] && pcs[wrap12(rc + 7)] && pcs[wrap12(rc + 11)]) ==> false,
{
}

proof fn lemma_q15_tones_2(pcs: Seq<bool>, r: int, rc: int)
    requires
        0 <= r < 12,
        0 <= rc < 12,
        forall|i: int| 0 <= i < 12 ==> (#[trigger] pcs[i] <==> (i == wrap12(r + 0) || i == wrap12(r + 3) || i == wrap12(r + 6))),
    ensures
        (pcs[wrap12(rc + 0)] && pcs[wrap12(rc + 2)] && pcs[wrap12(rc + 3)] && pcs[wrap12(rc + 7)] && pcs[wrap12(rc + 10)]) ==> false,
{
}

proof fn lemma_q15_tones_3(pcs: Seq<bool>, r: int, rc: int)
    requires
        0 <= r < 12,
        0 <= rc < 12,
        forall|i: int| 0 <= i < 12 ==> (#[trigger] pcs[i] <==> (i == wrap12(r + 0) || i == wrap12(r + 3) || i == wrap12(r + 6))),
    ensures
        (pcs[wrap12(rc + 0)] && pcs[wrap12(rc + 4)] && pcs[wrap12(rc + 7)] && pcs[wrap12(rc + 11)]) ==> false,
{
}

proof fn lemma_q15_tones_4(pcs: Seq<bool>, r: int, rc: int)
    requires
        0 <= r < 12,
        0 <= rc < 12,
        forall|i: int| 0 <= i < 12 ==> (#[trigger] pcs[i] <==> (i == wrap12(r + 0) || i == wrap12(r + 3) || i == wrap12(r + 6))),
    ensures
        (pcs[wrap12(rc + 0)] && pcs[wrap12(rc + 4)] && pcs[wrap12(rc + 7)] && pcs[wrap12(rc + 10)]) ==> false,
{
}

proof fn lemma_q15_tones_5(pcs: Seq<bool>, r: int, rc: int)
    requires
        0 <= r < 12,
        0 <= rc < 12,
        forall|i: int| 0 <= i < 12 ==> (#[trigger] pcs[i] <==> (i == wrap12(r + 0) || i == wrap12(r + 3) || i == wrap12(r + 6))),
    ensures
        (pcs[wrap12(rc + 0)] && pcs[wrap12(rc + 3)] && pcs[wrap12(rc + 7)] && pcs[wrap12(rc + 10)]) ==> false,
{
}

proof fn lemma_q15_tones_6(pcs: Seq<bool>, r: int, rc: int)
    requires
        0 <= r < 12,
        0 <= rc < 12,
        forall|i: int| 0 <= i < 12 ==> (#[trigger] pcs[i] <==> (i == wrap12(r + 0) || i == wrap12(r + 3) || i == wrap12(r + 6))),
    ensures
        (pcs[wrap12(rc + 0)] && pcs[wrap12(rc + 3)] && pcs[wrap12(rc + 7)] && pcs[wrap12(rc + 11)]) ==> false,
{
}

proof fn lemma_q15_tones_7(pcs: Seq<bool>, r: int, rc: int)
    requires
        0 <= r < 12,
        0 <= rc < 12,
        forall|i: int| 0 <= i < 12 ==> (#[trigger] pcs[i] <==> (i == wrap12(r + 0) || i == wrap12(r + 3) || i == wrap12(r + 6))),
    ensures
        (pcs[wrap12(rc + 0)] && pcs[wrap12(rc + 3)] && pcs[wrap12(rc + 6)] && pcs[wrap12(rc + 9)]) ==> false,
{
}

proof fn lemma_q15_tones_8(pcs: Seq<bool>, r: int, rc: int)
    requires
        0 <= r < 12,
        0 <= rc < 12,
        forall|i: int| 0 <= i < 12 ==> (#[trigger] pcs[i] <==> (i == wrap12(r + 0) || i == wrap12(r + 3) || i == wrap12(r + 6))),
    ensures
        (pcs[wrap12(rc + 0)] && pcs[wrap12(rc + 3)] && pcs[wrap12(rc + 6)] && pcs[wrap12(rc + 10)]) ==> false,
{
}

proof fn lemma_q15_tones_9(pcs: Seq<bool>, r: int, rc: int)
    requires
        0 <= r < 12,
        0 <= rc < 12,
        forall|i: int| 0 <= i < 12 ==> (#[trigger] pcs[i] <==> (i == wrap12(r + 0) || i == wrap12(r + 3) || i == wrap12(r + 6))),
    ensures
        (pcs[wrap12(rc + 0)] && pcs[wrap12(rc + 4)] && pcs[wrap12(rc + 8)] && pcs[wrap12(rc + 11)]) ==> false,
{
}

proof fn lemma_q15_tones_10(pcs: Seq<bool>, r: int, rc: int)
    requires
        0 <= r < 12,
        0 <= rc < 12,
        forall|i: int| 0 <= i < 12 ==> (#[trigger] pcs[i] <==> (i == wrap12(r + 0) || i == wrap12(r + 3) || i == wrap12(r + 6))),
    ensures
        (pcs[wrap12(rc + 0)] && pcs[wrap12(rc + 5)] && pcs[wrap12(rc + 7)] && pcs[wrap12(rc + 10)]) ==> false,
{
}

proof fn lemma_q15_tones_11(pcs: Seq<bool>, r: int, rc: int)
    requires
        0 <= r < 12,
        0 <= rc < 12,
        forall|i: int| 0 <= i < 12 ==> (#[trigger] pcs[i] <==> (i == wrap12(r + 0) || i == wrap12(r + 3) || i == wrap12(r + 6))),
    ensures
        (pcs[wrap12(rc + 0)] && pcs[wrap12(rc + 2)] && pcs[wrap12(rc + 4)] && pcs[wrap12(rc + 7)]) ==> false,
{
}

proof fn lemma_q15_tones_12(pcs: Seq<bool>, r: int, rc: int)
    requires
        0 <= r < 12,
        0 <= rc < 12,
        forall|i: int| 0 <= i < 12 ==> (#[trigger] pcs[i] <==> (i == wrap12(r + 0) || i == wrap12(r + 3) || i == wrap12(r + 6))),
    ensures
        (pcs[wrap12(rc + 0)] && pcs[wrap12(rc + 2)] && pcs[wrap12(rc + 3)] && pcs[wrap12(rc + 7)]) ==> false,
{
}

proof fn lemma_q15_tones_13(pcs: Seq<bool>, r: int, rc: int)
    requires
        0 <= r < 12,
        0 <= rc < 12,
        forall|i: int| 0 <= i < 12 ==> (#[trigger] pcs[i] <==> (i == wrap12(r + 0) || i == wrap12(r + 3) || i == wrap12(r + 6))),
    ensures
        (pcs[wrap12(rc + 0)] && pcs[wrap12(rc + 4)] && pcs[wrap12(rc + 7)]) ==> false,
{
}

proof fn lemma_q15_tones_14(pcs: Seq<bool>, r: int, rc: int)
    requires
        0 <= r < 12,
        0 <= rc < 12,
        forall|i: int| 0 <= i < 12 ==> (#[trigger] pcs[i] <==> (i == wrap12(r + 0) || i == wrap12(r + 3) || i == wrap12(r + 6))),
    ensures
        (pcs[wrap12(rc + 0)] && pcs[wrap12(rc + 3)] && pcs[wrap12(rc + 7)]) ==> false,
{
}

proof fn lemma_q15_tones_15(pcs: Seq<bool>, r: int, rc: int)
    requires
        0 <= r < 12,
        0 <= rc < 12,
        forall|i: int| 0 <= i < 12 ==> (#[trigger] pcs[i] <==> (i == wrap12(r + 0) || i == wrap12(r + 3) || i == wrap12(r + 6))),
    ensures
        (pcs[wrap12(rc + 0)] && pcs[wrap12(rc + 3)] && pcs[wrap12(rc + 6)]) ==> rc == r,
{
}

proof fn lemma_q15_tones_16(pcs: Seq<bool>, r: int, rc: int)
    requires
        0 <= r < 12,
        0 <= rc < 12,
        forall|i: int| 0 <= i < 12 ==> (#[trigger] pcs[i] <==> (i == wrap12(r + 0) || i == wrap12(r + 3) || i == wrap12(r + 6))),
    ensures
        (pcs[wrap12(rc + 0)] && pcs[wrap12(rc + 4)] && pcs[wrap12(rc + 8)]) ==> false,
{
}

proof fn lemma_q15_tones_17(pcs: Seq<bool>, r: int, rc: int)
    requires
        0 <= r < 12,
        0 <= rc < 12,
        forall|i: int| 0 <= i < 12 ==> (#[trigger] pcs[i] <==> (i == wrap12(r + 0) || i == wrap12(r + 3) || i == wrap12(r + 6))),
    ensures
        (pcs[wrap12(rc + 0)] && pcs[wrap12(rc + 2)] && pcs[wrap12(rc + 7)]) ==> false,
{
}

proof fn lemma_q15_tones_18(pcs: Seq<bool>, r: int, rc: int)
    requires
        0 <= r < 12,
        0 <= rc < 12,
        forall|i: int| 0 <= i < 12 ==> (#[trigger] pcs[i] <==> (i == wrap12(r + 0) || i == wrap12(r + 3) || i == wrap12(r + 6))),
    ensures
        (pcs[wrap12(rc + 0)] && pcs[wrap12(rc + 5)] && pcs[wrap12(rc + 7)]) ==> false,
{
}

proof fn lemma_q15_only(pcs: Seq<bool>, r: int, rc: int, tc: int)
    requires
        0 <= r < 12,
        0 <= rc < 12,
        0 <= tc < 20,
        template(tc).1.len() >= 3,
        forall|i: int| 0 <= i < 12 ==> (#[trigger] pcs[i] <==> (i == r || i == (r + 3) % 12 || i == (r + 6) % 12)),
        missing_of(pcs, rc, tc) == 0,
    ensures
        tc == 15 && rc == r,
{
    lemma_wrap12(r + 0);
    lemma_wrap12(r + 3);
    lemma_wrap12(r + 6);
    assert forall|i: int| 0 <= i < 12 implies (#[trigger] pcs[i] <==> (i == wrap12(r + 0) || i == wrap12(r + 3) || i == wrap12(r + 6))) by {}
    lemma_all_tones_sound_wrapped(pcs, rc, tc);
    if tc == 0 {
        assert(template(tc).1 == seq![0int, 2, 4, 7, 10]);
        lemma_q15_tones_0(pcs, r, rc);
    } else if tc == 1 {
        assert(template(tc).1 == seq![0int, 2, 4, 7, 11]);
        lemma_q15_tones_1(pcs, r, rc);
    } else if tc == 2 {
        assert(template(tc).1 == seq![0int, 2, 3, 7, 10]);
        lemma_q15_tones_2(pcs, r, rc);
    } else if tc == 3 {
        assert(template(tc).1 == seq![0int, 4, 7, 11]);
        lemma_q15_tones_3(pcs, r, rc);
    } else if tc == 4 {
        assert(template(tc).1 == seq![0int, 4, 7, 10]);
        lemma_q15_tones_4(pcs, r, rc);
    } else if tc == 5 {
        assert(template(tc).1 == seq![0int, 3, 7, 10]);
        lemma_q15_tones_5(pcs, r, rc);
    } else if tc == 6 {
        assert(template(tc).1 == seq![0int, 3, 7, 11]);
        lemma_q15_tones_6(pcs, r, rc);
    } else if tc == 7 {
        assert(template(tc).1 == seq![0int, 3, 6, 9]);
        lemma_q15_tones_7(pcs, r, rc);
    } else if tc == 8 {
        assert(template(tc).1 == seq![0int, 3, 6, 10]);
        lemma_q15_tones_8(pcs, r, rc);
    } else if tc == 9 {
        assert(template(tc).1 == seq![0int, 4, 8, 11]);
        lemma_q15_tones_9(pcs, r, rc);
    } else if tc == 10 {
        assert(template(tc).1 == seq![0int, 5, 7, 10]);
        lemma_q15_tones_10(pcs, r, rc);
    } else if tc == 11 {
        assert(template(tc).1 == seq![0int, 2, 4, 7]);
        lemma_q15_tones_11(pcs, r, rc);
    } else if tc == 12 {
        assert(template(tc).1 == seq![0int, 2, 3, 7]);
        lemma_q15_tones_12(pcs, r, rc);
    } else if tc == 13 {
        assert(template(tc).1 == seq![0int, 4, 7]);
        lemma_q15_tones_13(pcs, r, rc);
    } else if tc == 14 {
        assert(template(tc).1 == seq![0int, 3, 7]);
        lemma_q15_tones_14(pcs, r, rc);
    } else if tc == 15 {
        assert(template(tc).1 == seq![0int, 3, 6]);
        lemma_q15_tones_15(pcs, r, rc);
    } else if tc == 16 {
        assert(template(tc).1 == seq![0int, 4, 8]);
        lemma_q15_tones_16(pcs, r, rc);
    } else if tc == 17 {
        assert(template(tc).1 == seq![0int, 2, 7]);
        lemma_q15_tones_17(pcs, r, rc);
    } else if tc == 18 {
        assert(template(tc).1 == seq![0int, 5, 7]);
        lemma_q15_tones_18(pcs, r, rc);
    } else if tc == 19 {
        assert(template(tc).1 == seq![0int, 7]);
    }
}

/// A chord whose sounding pitch classes are exactly root + {0, 3, 6} (a
/// diminished triad) is named Dim on that root, with no uncertainty.
#[verifier::rlimit(40)]
pub proof fn lemma_dim_is_named(midis: Seq<int>, r: int, c: ChordName)
    requires
        0 <= r < 12,
        forall|i: int| 0 <= i < 12 ==> (#[trigger] pc_set(midis)[i] <==> (i == r || i == (r + 3) % 12 || i == (r + 6) % 12)),
        chord_result_ok(midis, c),
    ensures
        c.root.0 == r,
        c.quality == ChordQuality::Dim,
        !c.uncertain,
{
    let pcs = pc_set(midis);
    let rc = c.root.0 as int;
    let tc = choose|t: int|
        is_best(pcs, rc, t) && #[trigger] template(t).0 == c.quality && c.uncertain == (extra_of(pcs, rc, t) > 0
            || missing_of(pcs, rc, t) > 0);
    assert(is_best(pcs, rc, tc));
    let tt = template(15).1;
    assert(tt == seq![0int, 3, 6]);
    lemma_exact_facts(pcs, r, 15);
    assert forall|i: int| 0 <= i < 12 && pcs[i] implies #[trigger] expected_set(r, 15)[i] by {
        if i == r {
            assert((r + tt[0]) % 12 == i);
        } else if i == (r + 3) % 12 {
            assert((r + tt[1]) % 12 == i);
        } else if i == (r + 6) % 12 {
            assert((r + tt[2]) % 12 == i);
        }
    }
    assert forall|k: int| 0 <= k < tt.len() implies #[trigger] pcs[(r + template(15).1[k]) % 12] by {
        assert(pcs[(r + tt[k]) % 12]);
    }
    assert(pcs[r]);
    assert(is_candidate(pcs, r, 15));
    assert(!ranks_before(pcs, r, 15, rc, tc));
    lemma_exact_facts(pcs, rc, tc);
    assert(extra_of(pcs, rc, tc) == 0 && missing_of(pcs, rc, tc) == 0);
    assert(pcs[rc]);
    assert(0 <= tc < 20);
    assert(template(tc).1.len() >= 3);
    lemma_q15_only(pcs, r, rc, tc);
}

proof fn lemma_q19_tones_0(pcs: Seq<bool>, r: int, rc: int)
    requires
        0 <= r < 12,
        0 <= rc < 12,
        forall|i: int| 0 <= i < 12 ==> (#[trigger] pcs[i] <==> (i == wrap12(r + 0) || i == wrap12(r + 7))),
    ensures
        (pcs[wrap12(rc + 0)] && pcs[wrap12(rc + 2)] && pcs[wrap12(rc + 4)] && pcs[wrap12(rc + 7)] && pcs[wrap12(rc + 10)]) ==> false,
{
}

proof fn lemma_q19_tones_1(pcs: Seq<bool>, r: int, rc: int)
    requires
        0 <= r < 12,
        0 <= rc < 12,
        forall|i: int| 0 <= i < 12 ==> (#[trigger] pcs[i] <==> (i == wrap12(r + 0) || i == wrap12(r + 7))),
    ensures
        (pcs[wrap12(rc + 0)] && pcs[wrap12(rc + 2)] && pcs[wrap12(rc + 4)] && pcs[wrap12(rc + 7)] && pcs[wrap12(rc + 11)]) ==> false,
{
}

proof fn lemma_q19_tones_2(pcs: Seq<bool>, r: int, rc: int)
    requires
        0 <= r < 12,
        0 <= rc < 12,
        forall|i: int| 0 <= i < 12 ==> (#[trigger] pcs[i] <==> (i == wrap12(r + 0) || i == wrap12(r + 7))),
    ensures
        (pcs[wrap12(rc + 0)] && pcs[wrap12(rc + 2)] && pcs[wrap12(rc + 3)] && pcs[wrap12(rc + 7)] && pcs[wrap12(rc + 10)]) ==> false,
{
}

proof fn lemma_q19_tones_3(pcs: Seq<bool>, r: int, rc: int)
    requires
        0 <= r < 12,
        0 <= rc < 12,
        forall|i: int| 0 <= i < 12 ==> (#[trigger] pcs[i] <==> (i == wrap12(r + 0) || i == wrap12(r + 7))),
    ensures
        (pcs[wrap12(rc + 0)] && pcs[wrap12(rc + 4)] && pcs[wrap12(rc + 7)] && pcs[wrap12(rc + 11)]) ==> false,
{
}

proof fn lemma_q19_tones_4(pcs: Seq<bool>, r: int, rc: int)
    requires
        0 <= r < 12,
        0 <= rc < 12,
        forall|i: int| 0 <= i < 12 ==> (#[trigger] pcs[i] <==> (i == wrap12(r + 0) || i == wrap12(r + 7))),
    ensures
        (pcs[wrap12(rc + 0)] && pcs[wrap12(rc + 4)] && pcs[wrap12(rc + 7)] && pcs[wrap12(rc + 10)]) ==> false,
{
}

proof fn lemma_q19_tones_5(pcs: Seq<bool>, r: int, rc: int)
    requires
        0 <= r < 12,
        0 <= rc < 12,
        forall|i: int| 0 <= i < 12 ==> (#[trigger] pcs[i] <==> (i == wrap12(r + 0) || i == wrap12(r + 7))),
    ensures
        (pcs[wrap12(rc + 0)] && pcs[wrap12(rc + 3)] && pcs[wrap12(rc + 7)] && pcs[wrap12(rc + 10)]) ==> false,
{
}

proof fn lemma_q19_tones_6(pcs: Seq<bool>, r: int, rc: int)
    requires
        0 <= r < 12,
        0 <= rc < 12,
        forall|i: int| 0 <= i < 12 ==> (#[trigger] pcs[i] <==> (i == wrap12(r + 0) || i == wrap12(r + 7))),
    ensures
        (pcs[wrap12(rc + 0)] && pcs[wrap12(rc + 3)] && pcs[wrap12(rc + 7)] && pcs[wrap12(rc + 11)]) ==> false,
{
}

proof fn lemma_q19_tones_7(pcs: Seq<bool>, r: int, rc: int)
    requires
        0 <= r < 12,
        0 <= rc < 12,
        forall|i: int| 0 <= i < 12 ==> (#[trigger] pcs[i] <==> (i == wrap12(r + 0) || i == wrap12(r + 7))),
    ensures
        (pcs[wrap12(rc + 0)] && pcs[wrap12(rc + 3)] && pcs[wrap12(rc + 6)] && pcs[wrap12(rc + 9)]) ==> false,
{
}

proof fn lemma_q19_tones_8(pcs: Seq<bool>, r: int, rc: int)
    requires
        0 <= r < 12,
        0 <= rc < 12,
        forall|i: int| 0 <= i < 12 ==> (#[trigger] pcs[i] <==> (i == wrap12(r + 0) || i == wrap12(r + 7))),
    ensures
        (pcs[wrap12(rc + 0)] && pcs[wrap12(rc + 3)] && pcs[wrap12(rc + 6)] && pcs[wrap12(rc + 10)]) ==> false,
{
}

proof fn lemma_q19_tones_9(pcs: Seq<bool>, r: int, rc: int)
    requires
        0 <= r < 12,
        0 <= rc < 12,
        forall|i: int| 0 <= i < 12 ==> (#[trigger] pcs[i] <==> (i == wrap12(r + 0) || i == wrap12(r + 7))),
    ensures
        (pcs[wrap12(rc + 0)] && pcs[wrap12(rc + 4)] && pcs[wrap12(rc + 8)] && pcs[wrap12(rc + 11)]) ==> false,
{
}

proof fn lemma_q19_tones_10(pcs: Seq<bool>, r: int, rc: int)
    requires
        0 <= r < 12,
        0 <= rc < 12,
        forall|i: int| 0 <= i < 12 ==> (#[trigger] pcs[i] <==> (i == wrap12(r + 0) || i == wrap12(r + 7))),
    ensures
        (pcs[wrap12(rc + 0)] && pcs[wrap12(rc + 5)] && pcs[wrap12(rc + 7)] && pcs[wrap12(rc + 10)]) ==> false,
{
}

proof fn lemma_q19_tones_11(pcs: Seq<bool>, r: int, rc: int)
    requires
        0 <= r < 12,
        0 <= rc < 12,
        forall|i: int| 0 <= i < 12 ==> (#[trigger] pcs[i] <==> (i == wrap12(r + 0) || i == wrap12(r + 7))),
    ensures
        (pcs[wrap12(rc + 0)] && pcs[wrap12(rc + 2)] && pcs[wrap12(rc + 4)] && pcs[wrap12(rc + 7)]) ==> false,
{
}

proof fn lemma_q19_tones_12(pcs: Seq<bool>, r: int, rc: int)
    requires
        0 <= r < 12,
        0 <= rc < 12,
        forall|i: int| 0 <= i < 12 ==> (#[trigger] pcs[i] <==> (i == wrap12(r + 0) || i == wrap12(r + 7))),
    ensures
        (pcs[wrap12(rc + 0)] && pcs[wrap12(rc + 2)] && pcs[wrap12(rc + 3)] && pcs[wrap12(rc + 7)]) ==> false,
{
}

proof fn lemma_q19_tones_13(pcs: Seq<bool>, r: int, rc: int)
    requires
        0 <= r < 12,
        0 <= rc < 12,
        forall|i: int| 0 <= i < 12 ==> (#[trigger] pcs[i] <==> (i == wrap12(r + 0) || i == wrap12(r + 7))),
    ensures
        (pcs[wrap12(rc + 0)] && pcs[wrap12(rc + 4)] && pcs[wrap12(rc + 7)]) ==> false,
{
}

proof fn lemma_q19_tones_14(pcs: Seq<bool>, r: int, rc: int)
    requires
        0 <= r < 12,
        0 <= rc < 12,
        forall|i: int| 0 <= i < 12 ==> (#[trigger] pcs[i] <==> (i == wrap12(r + 0) || i == wrap12(r + 7))),
    ensures
        (pcs[wrap12(rc + 0)] && pcs[wrap12(rc + 3)] && pcs[wrap12(rc + 7)]) ==> false,
{
}

proof fn lemma_q19_tones_15(pcs: Seq<bool>, r: int, rc: int)
    requires
        0 <= r < 12,
        0 <= rc < 12,
        forall|i: int| 0 <= i < 12 ==> (#[trigger] pcs[i] <==> (i == wrap12(r + 0) || i == wrap12(r + 7))),
    ensures
        (pcs[wrap12(rc + 0)] && pcs[wrap12(rc + 3)] && pcs[wrap12(rc + 6)]) ==> false,
{
}

proof fn lemma_q19_tones_16(pcs: Seq<bool>, r: int, rc: int)
    requires
        0 <= r < 12,
        0 <= rc < 12,
        forall|i: int| 0 <= i < 12 ==> (#[trigger] pcs[i] <==> (i == wrap12(r + 0) || i == wrap12(r + 7))),
    ensures
        (pcs[wrap12(rc + 0)] && pcs[wrap12(rc + 4)] && pcs[wrap12(rc + 8)]) ==> false,
{
}

proof fn lemma_q19_tones_17(pcs: Seq<bool>, r: int, rc: int)
    requires
        0 <= r < 12,
        0 <= rc < 12,
        forall|i: int| 0 <= i < 12 ==> (#[trigger] pcs[i] <==> (i == wrap12(r + 0) || i == wrap12(r + 7))),
    ensures
        (pcs[wrap12(rc + 0)] && pcs[wrap12(rc + 2)] && pcs[wrap12(rc + 7)]) ==> false,
{
}

proof fn lemma_q19_tones_18(pcs: Seq<bool>, r: int, rc: int)
    requires
        0 <= r < 12,
        0 <= rc < 12,
        forall|i: int| 0 <= i < 12 ==> (#[trigger] pcs[i] <==> (i == wrap12(r + 0) || i == wrap12(r + 7))),
    ensures
        (pcs[wrap12(rc + 0)] && pcs[wrap12(rc + 5)] && pcs[wrap12(rc + 7)]) ==> false,
{
}

proof fn lemma_q19_tones_19(pcs: Seq<bool>, r: int, rc: int)
    requires
        0 <= r < 12,
        0 <= rc < 12,
        forall|i: int| 0 <= i < 12 ==> (#[trigger] pcs[i] <==> (i == wrap12(r + 0) || i == wrap12(r + 7))),
    ensures
        (pcs[wrap12(rc + 0)] && pcs[wrap12(rc + 7)]) ==> rc == r,
{
}

proof fn lemma_q19_only(pcs: Seq<bool>, r: int, rc: int, tc: int)
    requires
        0 <= r < 12,
        0 <= rc < 12,
        0 <= tc < 20,
        template(tc).1.len() >= 2,
        forall|i: int| 0 <= i < 12 ==> (#[trigger] pcs[i] <==> (i == r || i == (r + 7) % 12)),
        missing_of(pcs, rc, tc) == 0,
    ensures
        tc == 19 && rc == r,
{
    lemma_wrap12(r + 0);
    lemma_wrap12(r + 7);
    assert forall|i: int| 0 <= i < 12 implies (#[trigger] pcs[i] <==> (i == wrap12(r + 0) || i == wrap12(r + 7))) by {}
    lemma_all_tones_sound_wrapped(pcs, rc, tc);
    if tc == 0 {
        assert(template(tc).1 == seq![0int, 2, 4, 7, 10]);
        lemma_q19_tones_0(pcs, r, rc);
    } else if tc == 1 {
        assert(template(tc).1 == seq![0int, 2, 4, 7, 11]);
        lemma_q19_tones_1(pcs, r, rc);
    } else if tc == 2 {
        assert(template(tc).1 == seq![0int, 2, 3, 7, 10]);
        lemma_q19_tones_2(pcs, r, rc);
    } else if tc == 3 {
        assert(template(tc).1 == seq![0int, 4, 7, 11]);
        lemma_q19_tones_3(pcs, r, rc);
    } else if tc == 4 {
        assert(template(tc).1 == seq![0int, 4, 7, 10]);
        lemma_q19_tones_4(pcs, r, rc);
    } else if tc == 5 {
        assert(template(tc).1 == seq![0int, 3, 7, 10]);
        lemma_q19_tones_5(pcs, r, rc);
    } else if tc == 6 {
        assert(template(tc).1 == seq![0int, 3, 7, 11]);
        lemma_q19_tones_6(pcs, r, rc);
    } else if tc == 7 {
        assert(template(tc).1 == seq![0int, 3, 6, 9]);
        lemma_q19_tones_7(pcs, r, rc);
    } else if tc == 8 {
        assert(template(tc).1 == seq![0int, 3, 6, 10]);
        lemma_q19_tones_8(pcs, r, rc);
    } else if tc == 9 {
        assert(template(tc).1 == seq![0int, 4, 8, 11]);
        lemma_q19_tones_9(pcs, r, rc);
    } else if tc == 10 {
        assert(template(tc).1 == seq![0int, 5, 7, 10]);
        lemma_q19_tones_10(pcs, r, rc);
    } else if tc == 11 {
        assert(template(tc).1 == seq![0int, 2, 4, 7]);
        lemma_q19_tones_11(pcs, r, rc);
    } else if tc == 12 {
        assert(template(tc).1 == seq![0int, 2, 3, 7]);
        lemma_q19_tones_12(pcs, r, rc);
    } else if tc == 13 {
        assert(template(tc).1 == seq![0int, 4, 7]);
        lemma_q19_tones_13(pcs, r, rc);
    } else if tc == 14 {
        assert(template(tc).1 == seq![0int, 3, 7]);
        lemma_q19_tones_14(pcs, r, rc);
    } else if tc == 15 {
        assert(template(tc).1 == seq![0int, 3, 6]);
        lemma_q19_tones_15(pcs, r, rc);
    } else if tc == 16 {
        assert(template(tc).1 == seq![0int, 4, 8]);
        lemma_q19_tones_16(pcs, r, rc);
    } else if tc == 17 {
        assert(template(tc).1 == seq![0int, 2, 7]);
        lemma_q19_tones_17(pcs, r, rc);
    } else if tc == 18 {
        assert(template(tc).1 == seq![0int, 5, 7]);
        lemma_q19_tones_18(pcs, r, rc);
    } else if tc == 19 {
        assert(template(tc).1 == seq![0int, 7]);
        lemma_q19_tones_19(pcs, r, rc);
    }
}

/// A chord whose sounding pitch classes are exactly root + {0, 7} (a
/// power chord (root and fifth)) is named Power on that root, with no uncertainty.
#[verifier::rlimit(40)]
pub proof fn lemma_power_is_named(midis: Seq<int>, r: int, c: ChordName)
    requires
        0 <= r < 12,
        forall|i: int| 0 <= i < 12 ==> (#[trigger] pc_set(midis)[i] <==> (i == r || i == (r + 7) % 12)),
        chord_result_ok(midis, c),
    ensures
        c.root.0 == r,
        c.quality == ChordQuality::Power,
        !c.uncertain,
{
    let pcs = pc_set(midis);
    let rc = c.root.0 as int;
    let tc = choose|t: int|
        is_best(pcs, rc, t) && #[trigger] template(t).0 == c.quality && c.uncertain == (extra_of(pcs, rc, t) > 0
            || missing_of(pcs, rc, t) > 0);
    assert(is_best(pcs, rc, tc));
    let tt = template(19).1;
    assert(tt == seq![0int, 7]);
    lemma_exact_facts(pcs, r, 19);
    assert forall|i: int| 0 <= i < 12 && pcs[i] implies #[trigger] expected_set(r, 19)[i] by {
        if i == r {
            assert((r + tt[0]) % 12 == i);
        } else if i == (r + 7) % 12 {
            assert((r + tt[1]) % 12 == i);
        }
    }
    assert forall|k: int| 0 <= k < tt.len() implies #[trigger] pcs[(r + template(19).1[k]) % 12] by {
        assert(pcs[(r + tt[k]) % 12]);
    }
    assert(pcs[r]);
    assert(is_candidate(pcs, r, 19));
    assert(!ranks_before(pcs, r, 19, rc, tc));
    lemma_exact_facts(pcs, rc, tc);
    assert(extra_of(pcs, rc, tc) == 0 && missing_of(pcs, rc, tc) == 0);
    assert(pcs[rc]);
    assert(0 <= tc < 20);
    assert(template(tc).1.len() >= 2);
    lemma_q19_only(pcs, r, rc, tc);
}


proof fn lemma_aug_tones_0(pcs: Seq<bool>, r: int, rc: int)
    requires
        0 <= r < 4,
        0 <= rc < 12,
        forall|i: int| 0 <= i < 12 ==> (#[trigger] pcs[i] <==> (i == wrap12(r + 0) || i == wrap12(r + 4) || i == wrap12(r + 8))),
    ensures
        (pcs[wrap12(rc + 0)] && pcs[wrap12(rc + 2)] && pcs[wrap12(rc + 4)] && pcs[wrap12(rc + 7)] && pcs[wrap12(rc + 10)]) ==> false,
{
}

proof fn lemma_aug_tones_1(pcs: Seq<bool>, r: int, rc: int)
    requires
        0 <= r < 4,
        0 <= rc < 12,
        forall|i: int| 0 <= i < 12 ==> (#[trigger] pcs[i] <==> (i == wrap12(r + 0) || i == wrap12(r + 4) || i == wrap12(r + 8))),
    ensures
        (pcs[wrap12(rc + 0)] && pcs[wrap12(rc + 2)] && pcs[wrap12(rc + 4)] && pcs[wrap12(rc + 7)] && pcs[wrap12(rc + 11)]) ==> false,
{
}

proof fn lemma_aug_tones_2(pcs: Seq<bool>, r: int, rc: int)
    requires
        0 <= r < 4,
        0 <= rc < 12,
        forall|i: int| 0 <= i < 12 ==> (#[trigger] pcs[i] <==> (i == wrap12(r + 0) || i == wrap12(r + 4) || i == wrap12(r + 8))),
    ensures
        (pcs[wrap12(rc + 0)] && pcs[wrap12(rc + 2)] && pcs[wrap12(rc + 3)] && pcs[wrap12(rc + 7)] && pcs[wrap12(rc + 10)]) ==> false,
{
}

proof fn lemma_aug_tones_3(pcs: Seq<bool>, r: int, rc: int)
    requires
        0 <= r < 4,
        0 <= rc < 12,
        forall|i: int| 0 <= i < 12 ==> (#[trigger] pcs[i] <==> (i == wrap12(r + 0) || i == wrap12(r + 4) || i == wrap12(r + 8))),
    ensures
        (pcs[wrap12(rc + 0)] && pcs[wrap12(rc + 4)] && pcs[wrap12(rc + 7)] && pcs[wrap12(rc + 11)]) ==> false,
{
}

proof fn lemma_aug_tones_4(pcs: Seq<bool>, r: int, rc: int)
    requires
        0 <= r < 4,
        0 <= rc < 12,
        forall|i: int| 0 <= i < 12 ==> (#[trigger] pcs[i] <==> (i == wrap12(r + 0) || i == wrap12(r + 4) || i == wrap12(r + 8))),
    ensures
        (pcs[wrap12(rc + 0)] && pcs[wrap12(rc + 4)] && pcs[wrap12(rc + 7)] && pcs[wrap12(rc + 10)]) ==> false,
{
}

proof fn lemma_aug_tones_5(pcs: Seq<bool>, r: int, rc: int)
    requires
        0 <= r < 4,
        0 <= rc < 12,
        forall|i: int| 0 <= i < 12 ==> (#[trigger] pcs[i] <==> (i == wrap12(r + 0) || i == wrap12(r + 4) || i == wrap12(r + 8))),
    ensures
        (pcs[wrap12(rc + 0)] && pcs[wrap12(rc + 3)] && pcs[wrap12(rc + 7)] && pcs[wrap12(rc + 10)]) ==> false,
{
}

proof fn lemma_aug_tones_6(pcs: Seq<bool>, r: int, rc: int)
    requires
        0 <= r < 4,
        0 <= rc < 12,
        forall|i: int| 0 <= i < 12 ==> (#[trigger] pcs[i] <==> (i == wrap12(r + 0) || i == wrap12(r + 4) || i == wrap12(r + 8))),
    ensures
        (pcs[wrap12(rc + 0)] && pcs[wrap12(rc + 3)] && pcs[wrap12(rc + 7)] && pcs[wrap12(rc + 11)]) ==> false,
{
}

proof fn lemma_aug_tones_7(pcs: Seq<bool>, r: int, rc: int)
    requires
        0 <= r < 4,
        0 <= rc < 12,
        forall|i: int| 0 <= i < 12 ==> (#[trigger] pcs[i] <==> (i == wrap12(r + 0) || i == wrap12(r + 4) || i == wrap12(r + 8))),
    ensures
        (pcs[wrap12(rc + 0)] && pcs[wrap12(rc + 3)] && pcs[wrap12(rc + 6)] && pcs[wrap12(rc + 9)]) ==> false,
{
}

proof fn lemma_aug_tones_8(pcs: Seq<bool>, r: int, rc: int)
    requires
        0 <= r < 4,
        0 <= rc < 12,
        forall|i: int| 0 <= i < 12 ==> (#[trigger] pcs[i] <==> (i == wrap12(r + 0) || i == wrap12(r + 4) || i == wrap12(r + 8))),
    ensures
        (pcs[wrap12(rc + 0)] && pcs[wrap12(rc + 3)] && pcs[wrap12(rc + 6)] && pcs[wrap12(rc + 10)]) ==> false,
{
}

proof fn lemma_aug_tones_9(pcs: Seq<bool>, r: int, rc: int)
    requires
        0 <= r < 4,
        0 <= rc < 12,
        forall|i: int| 0 <= i < 12 ==> (#[trigger] pcs[i] <==> (i == wrap12(r + 0) || i == wrap12(r + 4) || i == wrap12(r + 8))),
    ensures
        (pcs[wrap12(rc + 0)] && pcs[wrap12(rc + 4)] && pcs[wrap12(rc + 8)] && pcs[wrap12(rc + 11)]) ==> false,
{
}

proof fn lemma_aug_tones_10(pcs: Seq<bool>, r: int, rc: int)
    requires
        0 <= r < 4,
        0 <= rc < 12,
        forall|i: int| 0 <= i < 12 ==> (#[trigger] pcs[i] <==> (i == wrap12(r + 0) || i == wrap12(r + 4) || i == wrap12(r + 8))),
    ensures
        (pcs[wrap12(rc + 0)] && pcs[wrap12(rc + 5)] && pcs[wrap12(rc + 7)] && pcs[wrap12(rc + 10)]) ==> false,
{
}

proof fn lemma_aug_tones_11(pcs: Seq<bool>, r: int, rc: int)
    requires
        0 <= r < 4,
        0 <= rc < 12,
        forall|i: int| 0 <= i < 12 ==> (#[trigger] pcs[i] <==> (i == wrap12(r + 0) || i == wrap12(r + 4) || i == wrap12(r + 8))),
    ensures
        (pcs[wrap12(rc + 0)] && pcs[wrap12(rc + 2)] && pcs[wrap12(rc + 4)] && pcs[wrap12(rc + 7)]) ==> false,
{
}

proof fn lemma_aug_tones_12(pcs: Seq<bool>, r: int, rc: int)
    requires
        0 <= r < 4,
        0 <= rc < 12,
        forall|i: int| 0 <= i < 12 ==> (#[trigger] pcs[i] <==> (i == wrap12(r + 0) || i == wrap12(r + 4) || i == wrap12(r + 8))),
    ensures
        (pcs[wrap12(rc + 0)] && pcs[wrap12(rc + 2)] && pcs[wrap12(rc + 3)] && pcs[wrap12(rc + 7)]) ==> false,
{
}

proof fn lemma_aug_tones_13(pcs: Seq<bool>, r: int, rc: int)
    requires
        0 <= r < 4,
        0 <= rc < 12,
        forall|i: int| 0 <= i < 12 ==> (#[trigger] pcs[i] <==> (i == wrap12(r + 0) || i == wrap12(r + 4) || i == wrap12(r + 8))),
    ensures
        (pcs[wrap12(rc + 0)] && pcs[wrap12(rc + 4)] && pcs[wrap12(rc + 7)]) ==> false,
{
}

proof fn lemma_aug_tones_14(pcs: Seq<bool>, r: int, rc: int)
    requires
        0 <= r < 4,
        0 <= rc < 12,
        forall|i: int| 0 <= i < 12 ==> (#[trigger] pcs[i] <==> (i == wrap12(r + 0) || i == wrap12(r + 4) || i == wrap12(r + 8))),
    ensures
        (pcs[wrap12(rc + 0)] && pcs[wrap12(rc + 3)] && pcs[wrap12(rc + 7)]) ==> false,
{
}

proof fn lemma_aug_tones_15(pcs: Seq<bool>, r: int, rc: int)
    requires
        0 <= r < 4,
        0 <= rc < 12,
        forall|i: int| 0 <= i < 12 ==> (#[trigger] pcs[i] <==> (i == wrap12(r + 0) || i == wrap12(r + 4) || i == wrap12(r + 8))),
    ensures
        (pcs[wrap12(rc + 0)] && pcs[wrap12(rc + 3)] && pcs[wrap12(rc + 6)]) ==> false,
{
}

proof fn lemma_aug_tones_17(pcs: Seq<bool>, r: int, rc: int)
    requires
        0 <= r < 4,
        0 <= rc < 12,
        forall|i: int| 0 <= i < 12 ==> (#[trigger] pcs[i] <==> (i == wrap12(r + 0) || i == wrap12(r + 4) || i == wrap12(r + 8))),
    ensures
        (pcs[wrap12(rc + 0)] && pcs[wrap12(rc + 2)] && pcs[wrap12(rc + 7)]) ==> false,
{
}

proof fn lemma_aug_tones_18(pcs: Seq<bool>, r: int, rc: int)
    requires
        0 <= r < 4,
        0 <= rc < 12,
        forall|i: int| 0 <= i < 12 ==> (#[trigger] pcs[i] <==> (i == wrap12(r + 0) || i == wrap12(r + 4) || i == wrap12(r + 8))),
    ensures
        (pcs[wrap12(rc + 0)] && pcs[wrap12(rc + 5)] && pcs[wrap12(rc + 7)]) ==> false,
{
}

proof fn lemma_aug_only(pcs: Seq<bool>, r: int, rc: int, tc: int)
    requires
        0 <= r < 4,
        0 <= rc < 12,
        0 <= tc < 20,
        template(tc).1.len() >= 3,
        forall|i: int| 0 <= i < 12 ==> (#[trigger] pcs[i] <==> (i == r || i == (r + 4) % 12 || i == (r + 8) % 12)),
        missing_of(pcs, rc, tc) == 0,
    ensures
        tc == 16,
{
    lemma_wrap12(r + 0);
    lemma_wrap12(r + 4);
    lemma_wrap12(r + 8);
    assert forall|i: int| 0 <= i < 12 implies (#[trigger] pcs[i] <==> (i == wrap12(r + 0) || i == wrap12(r + 4) || i == wrap12(r + 8))) by {}
    lemma_all_tones_sound_wrapped(pcs, rc, tc);
    if tc == 0 {
        assert(template(tc).1 == seq![0int, 2, 4, 7, 10]);
        lemma_aug_tones_0(pcs, r, rc);
    } else if tc == 1 {
        assert(template(tc).1 == seq![0int, 2, 4, 7, 11]);
        lemma_aug_tones_1(pcs, r, rc);
    } else if tc == 2 {
        assert(template(tc).1 == seq![0int, 2, 3, 7, 10]);
        lemma_aug_tones_2(pcs, r, rc);
    } else if tc == 3 {
        assert(template(tc).1 == seq![0int, 4, 7, 11]);
        lemma_aug_tones_3(pcs, r, rc);
    } else if tc == 4 {
        assert(template(tc).1 == seq![0int, 4, 7, 10]);
        lemma_aug_tones_4(pcs, r, rc);
    } else if tc == 5 {
        assert(template(tc).1 == seq![0int, 3, 7, 10]);
        lemma_aug_tones_5(pcs, r, rc);
    } else if tc == 6 {
        assert(template(tc).1 == seq![0int, 3, 7, 11]);
        lemma_aug_tones_6(pcs, r, rc);
    } else if tc == 7 {
        assert(template(tc).1 == seq![0int, 3, 6, 9]);
        lemma_aug_tones_7(pcs, r, rc);
    } else if tc == 8 {
        assert(template(tc).1 == seq![0int, 3, 6, 10]);
        lemma_aug_tones_8(pcs, r, rc);
    } else if tc == 9 {
        assert(template(tc).1 == seq![0int, 4, 8, 11]);
        lemma_aug_tones_9(pcs, r, rc);
    } else if tc == 10 {
        assert(template(tc).1 == seq![0int, 5, 7, 10]);
        lemma_aug_tones_10(pcs, r, rc);
    } else if tc == 11 {
        assert(template(tc).1 == seq![0int, 2, 4, 7]);
        lemma_aug_tones_11(pcs, r, rc);
    } else if tc == 12 {
        assert(template(tc).1 == seq![0int, 2, 3, 7]);
        lemma_aug_tones_12(pcs, r, rc);
    } else if tc == 13 {
        assert(template(tc).1 == seq![0int, 4, 7]);
        lemma_aug_tones_13(pcs, r, rc);
    } else if tc == 14 {
        assert(template(tc).1 == seq![0int, 3, 7]);
        lemma_aug_tones_14(pcs, r, rc);
    } else if tc == 15 {
        assert(template(tc).1 == seq![0int, 3, 6]);
        lemma_aug_tones_15(pcs, r, rc);
    } else if tc == 16 {
        assert(template(tc).1 == seq![0int, 4, 8]);
    } else if tc == 17 {
        assert(template(tc).1 == seq![0int, 2, 7]);
        lemma_aug_tones_17(pcs, r, rc);
    } else if tc == 18 {
        assert(template(tc).1 == seq![0int, 5, 7]);
        lemma_aug_tones_18(pcs, r, rc);
    } else if tc == 19 {
        assert(template(tc).1 == seq![0int, 7]);
    }
}

/// A chord whose sounding pitch classes are exactly an augmented triad (root + {0, 4, 8}, taken on the lowest of its
/// three pitch classes, `r < 4`; the chord is symmetric), is named Aug on
/// `r`, with no uncertainty.
#[verifier::rlimit(40)]
pub proof fn lemma_aug_is_named(midis: Seq<int>, r: int, c: ChordName)
    requires
        0 <= r < 4,
        forall|i: int| 0 <= i < 12 ==> (#[trigger] pc_set(midis)[i] <==> (i == r || i == (r + 4) % 12 || i == (r + 8) % 12)),
        chord_result_ok(midis, c),
    ensures
        c.root.0 == r,
        c.quality == ChordQuality::Aug,
        !c.uncertain,
{
    let pcs = pc_set(midis);
    let rc = c.root.0 as int;
    let tc = choose|t: int|
        is_best(pcs, rc, t) && #[trigger] template(t).0 == c.quality && c.uncertain == (extra_of(pcs, rc, t) > 0
            || missing_of(pcs, rc, t) > 0);
    assert(is_best(pcs, rc, tc));
    let tt = template(16).1;
    assert(tt == seq![0int, 4, 8]);
    lemma_exact_facts(pcs, r, 16);
    assert forall|i: int| 0 <= i < 12 && pcs[i] implies #[trigger] expected_set(r, 16)[i] by {
        if i == r {
            assert((r + tt[0]) % 12 == i);
        } else if i == (r + 4) % 12 {
            assert((r + tt[1]) % 12 == i);
        } else if i == (r + 8) % 12 {
            assert((r + tt[2]) % 12 == i);
        }
    }
    assert forall|k: int| 0 <= k < tt.len() implies #[trigger] pcs[(r + template(16).1[k]) % 12] by {
        assert(pcs[(r + tt[k]) % 12]);
    }
    assert(pcs[r]);
    assert(is_candidate(pcs, r, 16));
    assert(!ranks_before(pcs, r, 16, rc, tc));
    lemma_exact_facts(pcs, rc, tc);
    assert(extra_of(pcs, rc, tc) == 0 && missing_of(pcs, rc, tc) == 0);
    assert(pcs[rc]);
    assert(0 <= tc < 20);
    assert(template(tc).1.len() >= 3);
    lemma_aug_only(pcs, r, rc, tc);
    assert(template(tc).1.len() == 3);
    assert(tc == 16 && rc == r);
}

proof fn lemma_sus2_tones_0(pcs: Seq<bool>, r: int, rc: int)
    requires
        0 <= r < 5,
        0 <= rc < 12,
        forall|i: int| 0 <= i < 12 ==> (#[trigger] pcs[i] <==> (i == wrap12(r + 0) || i == wrap12(r + 2) || i == wrap12(r + 7))),
    ensures
        (pcs[wrap12(rc + 0)] && pcs[wrap12(rc + 2)] && pcs[wrap12(rc + 4)] && pcs[wrap12(rc + 7)] && pcs[wrap12(rc + 10)]) ==> false,
{
}

proof fn lemma_sus2_tones_1(pcs: Seq<bool>, r: int, rc: int)
    requires
        0 <= r < 5,
        0 <= rc < 12,
        forall|i: int| 0 <= i < 12 ==> (#[trigger] pcs[i] <==> (i == wrap12(r + 0) || i == wrap12(r + 2) || i == wrap12(r + 7))),
    ensures
        (pcs[wrap12(rc + 0)] && pcs[wrap12(rc + 2)] && pcs[wrap12(rc + 4)] && pcs[wrap12(rc + 7)] && pcs[wrap12(rc + 11)]) ==> false,
{
}

proof fn lemma_sus2_tones_2(pcs: Seq<bool>, r: int, rc: int)
    requires
        0 <= r < 5,
        0 <= rc < 12,
        forall|i: int| 0 <= i < 12 ==> (#[trigger] pcs[i] <==> (i == wrap12(r + 0) || i == wrap12(r + 2) || i == wrap12(r + 7))),
    ensures
        (pcs[wrap12(rc + 0)] && pcs[wrap12(rc + 2)] && pcs[wrap12(rc + 3)] && pcs[wrap12(rc + 7)] && pcs[wrap12(rc + 10)]) ==> false,
{
}

proof fn lemma_sus2_tones_3(pcs: Seq<bool>, r: int, rc: int)
    requires
        0 <= r < 5,
        0 <= rc < 12,
        forall|i: int| 0 <= i < 12 ==> (#[trigger] pcs[i] <==> (i == wrap12(r + 0) || i == wrap12(r + 2) || i == wrap12(r + 7))),
    ensures
        (pcs[wrap12(rc + 0)] && pcs[wrap12(rc + 4)] && pcs[wrap12(rc + 7)] && pcs[wrap12(rc + 11)]) ==> false,
{
}

proof fn lemma_sus2_tones_4(pcs: Seq<bool>, r: int, rc: int)
    requires
        0 <= r < 5,
        0 <= rc < 12,
        forall|i: int| 0 <= i < 12 ==> (#[trigger] pcs[i] <==> (i == wrap12(r + 0) || i == wrap12(r + 2) || i == wrap12(r + 7))),
    ensures
        (pcs[wrap12(rc + 0)] && pcs[wrap12(rc + 4)] && pcs[wrap12(rc + 7)] && pcs[wrap12(rc + 10)]) ==> false,
{
}

proof fn lemma_sus2_tones_5(pcs: Seq<bool>, r: int, rc: int)
    requires
        0 <= r < 5,
        0 <= rc < 12,
        forall|i: int| 0 <= i < 12 ==> (#[trigger] pcs[i] <==> (i == wrap12(r + 0) || i == wrap12(r + 2) || i == wrap12(r + 7))),
    ensures
        (pcs[wrap12(rc + 0)] && pcs[wrap12(rc + 3)] && pcs[wrap12(rc + 7)] && pcs[wrap12(rc + 10)]) ==> false,
{
}

proof fn lemma_sus2_tones_6(pcs: Seq<bool>, r: int, rc: int)
    requires
        0 <= r < 5,
        0 <= rc < 12,
        forall|i: int| 0 <= i < 12 ==> (#[trigger] pcs[i] <==> (i == wrap12(r + 0) || i == wrap12(r + 2) || i == wrap12(r + 7))),
    ensures
        (pcs[wrap12(rc + 0)] && pcs[wrap12(rc + 3)] && pcs[wrap12(rc + 7)] && pcs[wrap12(rc + 11)]) ==> false,
{
}

proof fn lemma_sus2_tones_7(pcs: Seq<bool>, r: int, rc: int)
    requires
        0 <= r < 5,
        0 <= rc < 12,
        forall|i: int| 0 <= i < 12 ==> (#[trigger] pcs[i] <==> (i == wrap12(r + 0) || i == wrap12(r + 2) || i == wrap12(r + 7))),
    ensures
        (pcs[wrap12(rc + 0)] && pcs[wrap12(rc + 3)] && pcs[wrap12(rc + 6)] && pcs[wrap12(rc + 9)]) ==> false,
{
}

proof fn lemma_sus2_tones_8(pcs: Seq<bool>, r: int, rc: int)
    requires
        0 <= r < 5,
        0 <= rc < 12,
        forall|i: int| 0 <= i < 12 ==> (#[trigger] pcs[i] <==> (i == wrap12(r + 0) || i == wrap12(r + 2) || i == wrap12(r + 7))),
    ensures
        (pcs[wrap12(rc + 0)] && pcs[wrap12(rc + 3)] && pcs[wrap12(rc + 6)] && pcs[wrap12(rc + 10)]) ==> false,
{
}

proof fn lemma_sus2_tones_9(pcs: Seq<bool>, r: int, rc: int)
    requires
        0 <= r < 5,
        0 <= rc < 12,
        forall|i: int| 0 <= i < 12 ==> (#[trigger] pcs[i] <==> (i == wrap12(r + 0) || i == wrap12(r + 2) || i == wrap12(r + 7))),
    ensures
        (pcs[wrap12(rc + 0)] && pcs[wrap12(rc + 4)] && pcs[wrap12(rc + 8)] && pcs[wrap12(rc + 11)]) ==> false,
{
}

proof fn lemma_sus2_tones_10(pcs: Seq<bool>, r: int, rc: int)
    requires
        0 <= r < 5,
        0 <= rc < 12,
        forall|i: int| 0 <= i < 12 ==> (#[trigger] pcs[i] <==> (i == wrap12(r + 0) || i == wrap12(r + 2) || i == wrap12(r + 7))),
    ensures
        (pcs[wrap12(rc + 0)] && pcs[wrap12(rc + 5)] && pcs[wrap12(rc + 7)] && pcs[wrap12(rc + 10)]) ==> false,
{
}

proof fn lemma_sus2_tones_11(pcs: Seq<bool>, r: int, rc: int)
    requires
        0 <= r < 5,
        0 <= rc < 12,
        forall|i: int| 0 <= i < 12 ==> (#[trigger] pcs[i] <==> (i == wrap12(r + 0) || i == wrap12(r + 2) || i == wrap12(r + 7))),
    ensures
        (pcs[wrap12(rc + 0)] && pcs[wrap12(rc + 2)] && pcs[wrap12(rc + 4)] && pcs[wrap12(rc + 7)]) ==> false,
{
}

proof fn lemma_sus2_tones_12(pcs: Seq<bool>, r: int, rc: int)
    requires
        0 <= r < 5,
        0 <= rc < 12,
        forall|i: int| 0 <= i < 12 ==> (#[trigger] pcs[i] <==> (i == wrap12(r + 0) || i == wrap12(r + 2) || i == wrap12(r + 7))),
    ensures
        (pcs[wrap12(rc + 0)] && pcs[wrap12(rc + 2)] && pcs[wrap12(rc + 3)] && pcs[wrap12(rc + 7)]) ==> false,
{
}

proof fn lemma_sus2_tones_13(pcs: Seq<bool>, r: int, rc: int)
    requires
        0 <= r < 5,
        0 <= rc < 12,
        forall|i: int| 0 <= i < 12 ==> (#[trigger] pcs[i] <==> (i == wrap12(r + 0) || i == wrap12(r + 2) || i == wrap12(r + 7))),
    ensures
        (pcs[wrap12(rc + 0)] && pcs[wrap12(rc + 4)] && pcs[wrap12(rc + 7)]) ==> false,
{
}

proof fn lemma_sus2_tones_14(pcs: Seq<bool>, r: int, rc: int)
    requires
        0 <= r < 5,
        0 <= rc < 12,
        forall|i: int| 0 <= i < 12 ==> (#[trigger] pcs[i] <==> (i == wrap12(r + 0) || i == wrap12(r + 2) || i == wrap12(r + 7))),
    ensures
        (pcs[wrap12(rc + 0)] && pcs[wrap12(rc + 3)] && pcs[wrap12(rc + 7)]) ==> false,
{
}

proof fn lemma_sus2_tones_15(pcs: Seq<bool>, r: int, rc: int)
    requires
        0 <= r < 5,
        0 <= rc < 12,
        forall|i: int| 0 <= i < 12 ==> (#[trigger] pcs[i] <==> (i == wrap12(r + 0) || i == wrap12(r + 2) || i == wrap12(r + 7))),
    ensures
        (pcs[wrap12(rc + 0)] && pcs[wrap12(rc + 3)] && pcs[wrap12(rc + 6)]) ==> false,
{
}

proof fn lemma_sus2_tones_16(pcs: Seq<bool>, r: int, rc: int)
    requires
        0 <= r < 5,
        0 <= rc < 12,
        forall|i: int| 0 <= i < 12 ==> (#[trigger] pcs[i] <==> (i == wrap12(r + 0) || i == wrap12(r + 2) || i == wrap12(r + 7))),
    ensures
        (pcs[wrap12(rc + 0)] && pcs[wrap12(rc + 4)] && pcs[wrap12(rc + 8)]) ==> false,
{
}

proof fn lemma_sus2_tones_17(pcs: Seq<bool>, r: int, rc: int)
    requires
        0 <= r < 5,
        0 <= rc < 12,
        forall|i: int| 0 <= i < 12 ==> (#[trigger] pcs[i] <==> (i == wrap12(r + 0) || i == wrap12(r + 2) || i == wrap12(r + 7))),
    ensures
        (pcs[wrap12(rc + 0)] && pcs[wrap12(rc + 2)] && pcs[wrap12(rc + 7)]) ==> rc == r,
{
}

proof fn lemma_sus2_tones_18(pcs: Seq<bool>, r: int, rc: int)
    requires
        0 <= r < 5,
        0 <= rc < 12,
        forall|i: int| 0 <= i < 12 ==> (#[trigger] pcs[i] <==> (i == wrap12(r + 0) || i == wrap12(r + 2) || i == wrap12(r + 7))),
    ensures
        (pcs[wrap12(rc + 0)] && pcs[wrap12(rc + 5)] && pcs[wrap12(rc + 7)]) ==> rc == r + 7,
{
}

proof fn lemma_sus2_only(pcs: Seq<bool>, r: int, rc: int, tc: int)
    requires
        0 <= r < 5,
        0 <= rc < 12,
        0 <= tc < 20,
        template(tc).1.len() >= 3,
        forall|i: int| 0 <= i < 12 ==> (#[trigger] pcs[i] <==> (i == r || i == (r + 2) % 12 || i == (r + 7) % 12)),
        missing_of(pcs, rc, tc) == 0,
    ensures
        (tc == 17 && rc == r) || (tc == 18 && rc == r + 7),
{
    lemma_wrap12(r + 0);
    lemma_wrap12(r + 2);
    lemma_wrap12(r + 7);
    assert forall|i: int| 0 <= i < 12 implies (#[trigger] pcs[i] <==> (i == wrap12(r + 0) || i == wrap12(r + 2) || i == wrap12(r + 7))) by {}
    lemma_all_tones_sound_wrapped(pcs, rc, tc);
    if tc == 0 {
        assert(template(tc).1 == seq![0int, 2, 4, 7, 10]);
        lemma_sus2_tones_0(pcs, r, rc);
    } else if tc == 1 {
        assert(template(tc).1 == seq![0int, 2, 4, 7, 11]);
        lemma_sus2_tones_1(pcs, r, rc);
    } else if tc == 2 {
        assert(template(tc).1 == seq![0int, 2, 3, 7, 10]);
        lemma_sus2_tones_2(pcs, r, rc);
    } else if tc == 3 {
        assert(template(tc).1 == seq![0int, 4, 7, 11]);
        lemma_sus2_tones_3(pcs, r, rc);
    } else if tc == 4 {
        assert(template(tc).1 == seq![0int, 4, 7, 10]);
        lemma_sus2_tones_4(pcs, r, rc);
    } else if tc == 5 {
        assert(template(tc).1 == seq![0int, 3, 7, 10]);
        lemma_sus2_tones_5(pcs, r, rc);
    } else if tc == 6 {
        assert(template(tc).1 == seq![0int, 3, 7, 11]);
        lemma_sus2_tones_6(pcs, r, rc);
    } else if tc == 7 {
        assert(template(tc).1 == seq![0int, 3, 6, 9]);
        lemma_sus2_tones_7(pcs, r, rc);
    } else if tc == 8 {
        assert(template(tc).1 == seq![0int, 3, 6, 10]);
        lemma_sus2_tones_8(pcs, r, rc);
    } else if tc == 9 {
        assert(template(tc).1 == seq![0int, 4, 8, 11]);
        lemma_sus2_tones_9(pcs, r, rc);
    } else if tc == 10 {
        assert(template(tc).1 == seq![0int, 5, 7, 10]);
        lemma_sus2_tones_10(pcs, r, rc);
    } else if tc == 11 {
        assert(template(tc).1 == seq![0int, 2, 4, 7]);
        lemma_sus2_tones_11(pcs, r, rc);
    } else if tc == 12 {
        assert(template(tc).1 == seq![0int, 2, 3, 7]);
        lemma_sus2_tones_12(pcs, r, rc);
    } else if tc == 13 {
        assert(template(tc).1 == seq![0int, 4, 7]);
        lemma_sus2_tones_13(pcs, r, rc);
    } else if tc == 14 {
        assert(template(tc).1 == seq![0int, 3, 7]);
        lemma_sus2_tones_14(pcs, r, rc);
    } else if tc == 15 {
        assert(template(tc).1 == seq![0int, 3, 6]);
        lemma_sus2_tones_15(pcs, r, rc);
    } else if tc == 16 {
        assert(template(tc).1 == seq![0int, 4, 8]);
        lemma_sus2_tones_16(pcs, r, rc);
    } else if tc == 17 {
        assert(template(tc).1 == seq![0int, 2, 7]);
        lemma_sus2_tones_17(pcs, r, rc);
    } else if tc == 18 {
        assert(template(tc).1 == seq![0int, 5, 7]);
        lemma_sus2_tones_18(pcs, r, rc);
    } else if tc == 19 {
        assert(template(tc).1 == seq![0int, 7]);
    }
}

/// A chord whose sounding pitch classes are exactly a suspended second (root + {0, 2, 7}) on a root `r < 5`, whose pitch
/// classes are also a suspended fourth on `r + 7`, is named Sus2 on
/// `r`, with no uncertainty.
#[verifier::rlimit(40)]
pub proof fn lemma_sus2_is_named(midis: Seq<int>, r: int, c: ChordName)
    requires
        0 <= r < 5,
        forall|i: int| 0 <= i < 12 ==> (#[trigger] pc_set(midis)[i] <==> (i == r || i == (r + 2) % 12 || i == (r + 7) % 12)),
        chord_result_ok(midis, c),
    ensures
        c.root.0 == r,
        c.quality == ChordQuality::Sus2,
        !c.uncertain,
{
    let pcs = pc_set(midis);
    let rc = c.root.0 as int;
    let tc = choose|t: int|
        is_best(pcs, rc, t) && #[trigger] template(t).0 == c.quality && c.uncertain == (extra_of(pcs, rc, t) > 0
            || missing_of(pcs, rc, t) > 0);
    assert(is_best(pcs, rc, tc));
    let tt = template(17).1;
    assert(tt == seq![0int, 2, 7]);
    lemma_exact_facts(pcs, r, 17);
    assert forall|i: int| 0 <= i < 12 && pcs[i] implies #[trigger] expected_set(r, 17)[i] by {
        if i == r {
            assert((r + tt[0]) % 12 == i);
        } else if i == (r + 2) % 12 {
            assert((r + tt[1]) % 12 == i);
        } else if i == (r + 7) % 12 {
            assert((r + tt[2]) % 12 == i);
        }
    }
    assert forall|k: int| 0 <= k < tt.len() implies #[trigger] pcs[(r + template(17).1[k]) % 12] by {
        assert(pcs[(r + tt[k]) % 12]);
    }
    assert(pcs[r]);
    assert(is_candidate(pcs, r, 17));
    assert(!ranks_before(pcs, r, 17, rc, tc));
    lemma_exact_facts(pcs, rc, tc);
    assert(extra_of(pcs, rc, tc) == 0 && missing_of(pcs, rc, tc) == 0);
    assert(pcs[rc]);
    assert(0 <= tc < 20);
    assert(template(tc).1.len() >= 3);
    lemma_sus2_only(pcs, r, rc, tc);
    assert(template(tc).1.len() == 3);
    assert(tc == 17 && rc == r);
}

proof fn lemma_sus4_tones_0(pcs: Seq<bool>, r: int, rc: int)
    requires
        0 <= r < 7,
        0 <= rc < 12,
        forall|i: int| 0 <= i < 12 ==> (#[trigger] pcs[i] <==> (i == wrap12(r + 0) || i == wrap12(r + 5) || i == wrap12(r + 7))),
    ensures
        (pcs[wrap12(rc + 0)] && pcs[wrap12(rc + 2)] && pcs[wrap12(rc + 4)] && pcs[wrap12(rc + 7)] && pcs[wrap12(rc + 10)]) ==> false,
{
}

proof fn lemma_sus4_tones_1(pcs: Seq<bool>, r: int, rc: int)
    requires
        0 <= r < 7,
        0 <= rc < 12,
        forall|i: int| 0 <= i < 12 ==> (#[trigger] pcs[i] <==> (i == wrap12(r + 0) || i == wrap12(r + 5) || i == wrap12(r + 7))),
    ensures
        (pcs[wrap12(rc + 0)] && pcs[wrap12(rc + 2)] && pcs[wrap12(rc + 4)] && pcs[wrap12(rc + 7)] && pcs[wrap12(rc + 11)]) ==> false,
{
}

proof fn lemma_sus4_tones_2(pcs: Seq<bool>, r: int, rc: int)
    requires
        0 <= r < 7,
        0 <= rc < 12,
        forall|i: int| 0 <= i < 12 ==> (#[trigger] pcs[i] <==> (i == wrap12(r + 0) || i == wrap12(r + 5) || i == wrap12(r + 7))),
    ensures
        (pcs[wrap12(rc + 0)] && pcs[wrap12(rc + 2)] && pcs[wrap12(rc + 3)] && pcs[wrap12(rc + 7)] && pcs[wrap12(rc + 10)]) ==> false,
{
}

proof fn lemma_sus4_tones_3(pcs: Seq<bool>, r: int, rc: int)
    requires
        0 <= r < 7,
        0 <= rc < 12,
        forall|i: int| 0 <= i < 12 ==> (#[trigger] pcs[i] <==> (i == wrap12(r + 0) || i == wrap12(r + 5) || i == wrap12(r + 7))),
    ensures
        (pcs[wrap12(rc + 0)] && pcs[wrap12(rc + 4)] && pcs[wrap12(rc + 7)] && pcs[wrap12(rc + 11)]) ==> false,
{
}

proof fn lemma_sus4_tones_4(pcs: Seq<bool>, r: int, rc: int)
    requires
        0 <= r < 7,
        0 <= rc < 12,
        forall|i: int| 0 <= i < 12 ==> (#[trigger] pcs[i] <==> (i == wrap12(r + 0) || i == wrap12(r + 5) || i == wrap12(r + 7))),
    ensures
        (pcs[wrap12(rc + 0)] && pcs[wrap12(rc + 4)] && pcs[wrap12(rc + 7)] && pcs[wrap12(rc + 10)]) ==> false,
{
}

proof fn lemma_sus4_tones_5(pcs: Seq<bool>, r: int, rc: int)
    requires
        0 <= r < 7,
        0 <= rc < 12,
        forall|i: int| 0 <= i < 12 ==> (#[trigger] pcs[i] <==> (i == wrap12(r + 0) || i == wrap12(r + 5) || i == wrap12(r + 7))),
    ensures
        (pcs[wrap12(rc + 0)] && pcs[wrap12(rc + 3)] && pcs[wrap12(rc + 7)] && pcs[wrap12(rc + 10)]) ==> false,
{
}

proof fn lemma_sus4_tones_6(pcs: Seq<bool>, r: int, rc: int)
    requires
        0 <= r < 7,
        0 <= rc < 12,
        forall|i: int| 0 <= i < 12 ==> (#[trigger] pcs[i] <==> (i == wrap12(r + 0) || i == wrap12(r + 5) || i == wrap12(r + 7))),
    ensures
        (pcs[wrap12(rc + 0)] && pcs[wrap12(rc + 3)] && pcs[wrap12(rc + 7)] && pcs[wrap12(rc + 11)]) ==> false,
{
}

proof fn lemma_sus4_tones_7(pcs: Seq<bool>, r: int, rc: int)
    requires
        0 <= r < 7,
        0 <= rc < 12,
        forall|i: int| 0 <= i < 12 ==> (#[trigger] pcs[i] <==> (i == wrap12(r + 0) || i == wrap12(r + 5) || i == wrap12(r + 7))),
    ensures
        (pcs[wrap12(rc + 0)] && pcs[wrap12(rc + 3)] && pcs[wrap12(rc + 6)] && pcs[wrap12(rc + 9)]) ==> false,
{
}

proof fn lemma_sus4_tones_8(pcs: Seq<bool>, r: int, rc: int)
    requires
        0 <= r < 7,
        0 <= rc < 12,
        forall|i: int| 0 <= i < 12 ==> (#[trigger] pcs[i] <==> (i == wrap12(r + 0) || i == wrap12(r + 5) || i == wrap12(r + 7))),
    ensures
        (pcs[wrap12(rc + 0)] && pcs[wrap12(rc + 3)] && pcs[wrap12(rc + 6)] && pcs[wrap12(rc + 10)]) ==> false,
{
}

proof fn lemma_sus4_tones_9(pcs: Seq<bool>, r: int, rc: int)
    requires
        0 <= r < 7,
        0 <= rc < 12,
        forall|i: int| 0 <= i < 12 ==> (#[trigger] pcs[i] <==> (i == wrap12(r + 0) || i == wrap12(r + 5) || i == wrap12(r + 7))),
    ensures
        (pcs[wrap12(rc + 0)] && pcs[wrap12(rc + 4)] && pcs[wrap12(rc + 8)] && pcs[wrap12(rc + 11)]) ==> false,
{
}

proof fn lemma_sus4_tones_10(pcs: Seq<bool>, r: int, rc: int)
    requires
        0 <= r < 7,
        0 <= rc < 12,
        forall|i: int| 0 <= i < 12 ==> (#[trigger] pcs[i] <==> (i == wrap12(r + 0) || i == wrap12(r + 5) || i == wrap12(r + 7))),
    ensures
        (pcs[wrap12(rc + 0)] && pcs[wrap12(rc + 5)] && pcs[wrap12(rc + 7)] && pcs[wrap12(rc + 10)]) ==> false,
{
}

proof fn lemma_sus4_tones_11(pcs: Seq<bool>, r: int, rc: int)
    requires
        0 <= r < 7,
        0 <= rc < 12,
        forall|i: int| 0 <= i < 12 ==> (#[trigger] pcs[i] <==> (i == wrap12(r + 0) || i == wrap12(r + 5) || i == wrap12(r + 7))),
    ensures
        (pcs[wrap12(rc + 0)] && pcs[wrap12(rc + 2)] && pcs[wrap12(rc + 4)] && pcs[wrap12(rc + 7)]) ==> false,
{
}

proof fn lemma_sus4_tones_12(pcs: Seq<bool>, r: int, rc: int)
    requires
        0 <= r < 7,
        0 <= rc < 12,
        forall|i: int| 0 <= i < 12 ==> (#[trigger] pcs[i] <==> (i == wrap12(r + 0) || i == wrap12(r + 5) || i == wrap12(r + 7))),
    ensures
        (pcs[wrap12(rc + 0)] && pcs[wrap12(rc + 2)] && pcs[wrap12(rc + 3)] && pcs[wrap12(rc + 7)]) ==> false,
{
}

proof fn lemma_sus4_tones_13(pcs: Seq<bool>, r: int, rc: int)
    requires
        0 <= r < 7,
        0 <= rc < 12,
        forall|i: int| 0 <= i < 12 ==> (#[trigger] pcs[i] <==> (i == wrap12(r + 0) || i == wrap12(r + 5) || i == wrap12(r + 7))),
    ensures
        (pcs[wrap12(rc + 0)] && pcs[wrap12(rc + 4)] && pcs[wrap12(rc + 7)]) ==> false,
{
}

proof fn lemma_sus4_tones_14(pcs: Seq<bool>, r: int, rc: int)
    requires
        0 <= r < 7,
        0 <= rc < 12,
        forall|i: int| 0 <= i < 12 ==> (#[trigger] pcs[i] <==> (i == wrap12(r + 0) || i == wrap12(r + 5) || i == wrap12(r + 7))),
    ensures
        (pcs[wrap12(rc + 0)] && pcs[wrap12(rc + 3)] && pcs[wrap12(rc + 7)]) ==> false,
{
}

proof fn lemma_sus4_tones_15(pcs: Seq<bool>, r: int, rc: int)
    requires
        0 <= r < 7,
        0 <= rc < 12,
        forall|i: int| 0 <= i < 12 ==> (#[trigger] pcs[i] <==> (i == wrap12(r + 0) || i == wrap12(r + 5) || i == wrap12(r + 7))),
    ensures
        (pcs[wrap12(rc + 0)] && pcs[wrap12(rc + 3)] && pcs[wrap12(rc + 6)]) ==> false,
{
}

proof fn lemma_sus4_tones_16(pcs: Seq<bool>, r: int, rc: int)
    requires
        0 <= r < 7,
        0 <= rc < 12,
        forall|i: int| 0 <= i < 12 ==> (#[trigger] pcs[i] <==> (i == wrap12(r + 0) || i == wrap12(r + 5) || i == wrap12(r + 7))),
    ensures
        (pcs[wrap12(rc + 0)] && pcs[wrap12(rc + 4)] && pcs[wrap12(rc + 8)]) ==> false,
{
}

proof fn lemma_sus4_tones_17(pcs: Seq<bool>, r: int, rc: int)
    requires
        0 <= r < 7,
        0 <= rc < 12,
        forall|i: int| 0 <= i < 12 ==> (#[trigger] pcs[i] <==> (i == wrap12(r + 0) || i == wrap12(r + 5) || i == wrap12(r + 7))),
    ensures
        (pcs[wrap12(rc + 0)] && pcs[wrap12(rc + 2)] && pcs[wrap12(rc + 7)]) ==> rc == r + 5,
{
}

proof fn lemma_sus4_tones_18(pcs: Seq<bool>, r: int, rc: int)
    requires
        0 <= r < 7,
        0 <= rc < 12,
        forall|i: int| 0 <= i < 12 ==> (#[trigger] pcs[i] <==> (i == wrap12(r + 0) || i == wrap12(r + 5) || i == wrap12(r + 7))),
    ensures
        (pcs[wrap12(rc + 0)] && pcs[wrap12(rc + 5)] && pcs[wrap12(rc + 7)]) ==> rc == r,
{
}

proof fn lemma_sus4_only(pcs: Seq<bool>, r: int, rc: int, tc: int)
    requires
        0 <= r < 7,
        0 <= rc < 12,
        0 <= tc < 20,
        template(tc).1.len() >= 3,
        forall|i: int| 0 <= i < 12 ==> (#[trigger] pcs[i] <==> (i == r || i == (r + 5) % 12 || i == (r + 7) % 12)),
        missing_of(pcs, rc, tc) == 0,
    ensures
        (tc == 18 && rc == r) || (tc == 17 && rc == r + 5),
{
    lemma_wrap12(r + 0);
    lemma_wrap12(r + 5);
    lemma_wrap12(r + 7);
    assert forall|i: int| 0 <= i < 12 implies (#[trigger] pcs[i] <==> (i == wrap12(r + 0) || i == wrap12(r + 5) || i == wrap12(r + 7))) by {}
    lemma_all_tones_sound_wrapped(pcs, rc, tc);
    if tc == 0 {
        assert(template(tc).1 == seq![0int, 2, 4, 7, 10]);
        lemma_sus4_tones_0(pcs, r, rc);
    } else if tc == 1 {
        assert(template(tc).1 == seq![0int, 2, 4, 7, 11]);
        lemma_sus4_tones_1(pcs, r, rc);
    } else if tc == 2 {
        assert(template(tc).1 == seq![0int, 2, 3, 7, 10]);
        lemma_sus4_tones_2(pcs, r, rc);
    } else if tc == 3 {
        assert(template(tc).1 == seq![0int, 4, 7, 11]);
        lemma_sus4_tones_3(pcs, r, rc);
    } else if tc == 4 {
        assert(template(tc).1 == seq![0int, 4, 7, 10]);
        lemma_sus4_tones_4(pcs, r, rc);
    } else if tc == 5 {
        assert(template(tc).1 == seq![0int, 3, 7, 10]);
        lemma_sus4_tones_5(pcs, r, rc);
    } else if tc == 6 {
        assert(template(tc).1 == seq![0int, 3, 7, 11]);
        lemma_sus4_tones_6(pcs, r, rc);
    } else if tc == 7 {
        assert(template(tc).1 == seq![0int, 3, 6, 9]);
        lemma_sus4_tones_7(pcs, r, rc);
    } else if tc == 8 {
        assert(template(tc).1 == seq![0int, 3, 6, 10]);
        lemma_sus4_tones_8(pcs, r, rc);
    } else if tc == 9 {
        assert(template(tc).1 == seq![0int, 4, 8, 11]);
        lemma_sus4_tones_9(pcs, r, rc);
    } else if tc == 10 {
        assert(template(tc).1 == seq![0int, 5, 7, 10]);
        lemma_sus4_tones_10(pcs, r, rc);
    } else if tc == 11 {
        assert(template(tc).1 == seq![0int, 2, 4, 7]);
        lemma_sus4_tones_11(pcs, r, rc);
    } else if tc == 12 {
        assert(template(tc).1 == seq![0int, 2, 3, 7]);
        lemma_sus4_tones_12(pcs, r, rc);
    } else if tc == 13 {
        assert(template(tc).1 == seq![0int, 4, 7]);
        lemma_sus4_tones_13(pcs, r, rc);
    } else if tc == 14 {
        assert(template(tc).1 == seq![0int, 3, 7]);
        lemma_sus4_tones_14(pcs, r, rc);
    } else if tc == 15 {
        assert(template(tc).1 == seq![0int, 3, 6]);
        lemma_sus4_tones_15(pcs, r, rc);
    } else if tc == 16 {
        assert(template(tc).1 == seq![0int, 4, 8]);
        lemma_sus4_tones_16(pcs, r, rc);
    } else if tc == 17 {
        assert(template(tc).1 == seq![0int, 2, 7]);
        lemma_sus4_tones_17(pcs, r, rc);
    } else if tc == 18 {
        assert(template(tc).1 == seq![0int, 5, 7]);
        lemma_sus4_tones_18(pcs, r, rc);
    } else if tc == 19 {
        assert(template(tc).1 == seq![0int, 7]);
    }
}

/// A chord whose sounding pitch classes are exactly a suspended fourth (root + {0, 5, 7}) on a root `r < 7`, whose pitch
/// classes are also a suspended second on `r + 5`, is named Sus4 on
/// `r`, with no uncertainty.
#[verifier::rlimit(40)]
pub proof fn lemma_sus4_is_named(midis: Seq<int>, r: int, c: ChordName)
    requires
        0 <= r < 7,
        forall|i: int| 0 <= i < 12 ==> (#[trigger] pc_set(midis)[i] <==> (i == r || i == (r + 5) % 12 || i == (r + 7) % 12)),
        chord_result_ok(midis, c),
    ensures
        c.root.0 == r,
        c.quality == ChordQuality::Sus4,
        !c.uncertain,
{
    let pcs = pc_set(midis);
    let rc = c.root.0 as int;
    let tc = choose|t: int|
        is_best(pcs, rc, t) && #[trigger] template(t).0 == c.quality && c.uncertain == (extra_of(pcs, rc, t) > 0
            || missing_of(pcs, rc, t) > 0);
    assert(is_best(pcs, rc, tc));
    let tt = template(18).1;
    assert(tt == seq![0int, 5, 7]);
    lemma_exact_facts(pcs, r, 18);
    assert forall|i: int| 0 <= i < 12 && pcs[i] implies #[trigger] expected_set(r, 18)[i] by {
        if i == r {
            assert((r + tt[0]) % 12 == i);
        } else if i == (r + 5) % 12 {
            assert((r + tt[1]) % 12 == i);
        } else if i == (r + 7) % 12 {
            assert((r + tt[2]) % 12 == i);
        }
    }
    assert forall|k: int| 0 <= k < tt.len() implies #[trigger] pcs[(r + template(18).1[k]) % 12] by {
        assert(pcs[(r + tt[k]) % 12]);
    }
    assert(pcs[r]);
    assert(is_candidate(pcs, r, 18));
    assert(!ranks_before(pcs, r, 18, rc, tc));
    lemma_exact_facts(pcs, rc, tc);
    assert(extra_of(pcs, rc, tc) == 0 && missing_of(pcs, rc, tc) == 0);
    assert(pcs[rc]);
    assert(0 <= tc < 20);
    assert(template(tc).1.len() >= 3);
    lemma_sus4_only(pcs, r, rc, tc);
    assert(template(tc).1.len() == 3);
    assert(tc == 18 && rc == r);
}

} // verus!
