//! The MuseScore reader's conversions: key signatures from fifths,
//! durations and their tick lengths, and voices of chords and rests.

use vstd::prelude::*;

use crate::convert::mscz::from_optimized::{mscx_midi, root_fifths};
use crate::convert::optimized::legacy::{midi_to_pitch, sharp_pitch};
use crate::model::mscz::{
    MetaTag, MscxBeat, MscxBeatKind, MscxDuration, MscxDurationKind, MscxKeySig, MscxNote, MscxTimeSig,
    MscxVoice,
};
use crate::model::{
    core_of, plain_note, plain_note_of, step_semitone, Beat, NoteCore, Clef, Duration, KeySignature, Mode, Note, NoteValue, Pitch, PitchStep, TieType, TimeSignature, Voice,
};
use crate::text::{parse_usize, split_at_char, split_pieces, split_ranges, str_eq, unsigned_value};

verus! {

/// The tonic, at octave 4, of the major key with `fifths` sharps (or
/// `-fifths` flats); C for a count outside -7..=7.
pub open spec fn fifths_root(fifths: i8) -> Pitch {
    let (step, alter) = if fifths == -7 {
        (PitchStep::C, -1i8)
    } else if fifths == -6 {
        (PitchStep::G, -1i8)
    } else if fifths == -5 {
        (PitchStep::D, -1i8)
    } else if fifths == -4 {
        (PitchStep::A, -1i8)
    } else if fifths == -3 {
        (PitchStep::E, -1i8)
    } else if fifths == -2 {
        (PitchStep::B, -1i8)
    } else if fifths == -1 {
        (PitchStep::F, 0i8)
    } else if fifths == 1 {
        (PitchStep::G, 0i8)
    } else if fifths == 2 {
        (PitchStep::D, 0i8)
    } else if fifths == 3 {
        (PitchStep::A, 0i8)
    } else if fifths == 4 {
        (PitchStep::E, 0i8)
    } else if fifths == 5 {
        (PitchStep::B, 0i8)
    } else if fifths == 6 {
        (PitchStep::F, 1i8)
    } else if fifths == 7 {
        (PitchStep::C, 1i8)
    } else {
        (PitchStep::C, 0i8)
    };
    Pitch { step, alter, octave: 4 }
}

/// The major-key tonic (octave 4) of a fifths count.
pub fn root_from_fifths(fifths: i8) -> (r: Pitch)
    ensures
        r == fifths_root(fifths),
{
    let (step, alter) = match fifths {
        -7 => (PitchStep::C, -1i8),
        -6 => (PitchStep::G, -1i8),
        -5 => (PitchStep::D, -1i8),
        -4 => (PitchStep::A, -1i8),
        -3 => (PitchStep::E, -1i8),
        -2 => (PitchStep::B, -1i8),
        -1 => (PitchStep::F, 0i8),
        0 => (PitchStep::C, 0i8),
        1 => (PitchStep::G, 0i8),
        2 => (PitchStep::D, 0i8),
        3 => (PitchStep::A, 0i8),
        4 => (PitchStep::E, 0i8),
        5 => (PitchStep::B, 0i8),
        6 => (PitchStep::F, 1i8),
        7 => (PitchStep::C, 1i8),
        _ => (PitchStep::C, 0i8),
    };
    Pitch { step, alter, octave: 4 }
}

/// Reading a key's fifths count as a tonic and writing the tonic back as a
/// fifths count gives the count again, for every count that a key
/// signature has (-7..=7).
pub proof fn lemma_fifths_root_round_trip(fifths: i8)
    requires
        -7 <= fifths <= 7,
    ensures
        root_fifths(fifths_root(fifths).step, fifths_root(fifths).alter) == fifths,
{
}

/// Writing a tonic as a fifths count and reading it back gives the same
/// step and alteration, at octave 4, for every tonic that a major key has:
/// those whose count is not 0, and C natural.
pub proof fn lemma_root_fifths_round_trip(root: Pitch)
    requires
        root_fifths(root.step, root.alter) != 0 || (root.step == PitchStep::C && root.alter == 0),
    ensures
        fifths_root(root_fifths(root.step, root.alter)) == (Pitch { step: root.step, alter: root.alter, octave: 4 }),
{
}

/// Length of a duration of `base` ticks with `dots` augmentation dots:
/// each of the first three dots adds half of what the previous one added
/// (rounded down); further dots add nothing, and the total stops at the
/// largest `u32`.
pub open spec fn dotted_length(base: int, dots: int) -> int {
    let total = base + (if dots >= 1 { base / 2 } else { 0 }) + (if dots >= 2 { base / 4 } else { 0 })
        + (if dots >= 3 { base / 8 } else { 0 });
    if total > u32::MAX {
        u32::MAX as int
    } else {
        total
    }
}

/// What the first `k` dots add to `base`.
spec fn dot_increments(base: int, k: int) -> int {
    (if k >= 1 { base / 2 } else { 0 }) + (if k >= 2 { base / 4 } else { 0 }) + (if k >= 3 {
        base / 8
    } else {
        0
    })
}

/// Halving `base` `k` times, as an integer division.
spec fn halved(base: int, k: int) -> int {
    if k == 1 {
        base / 2
    } else if k == 2 {
        base / 4
    } else if k == 3 {
        base / 8
    } else {
        base / 16
    }
}

proof fn lemma_halve_step(base: int, k: int)
    requires
        base >= 0,
        1 <= k <= 3,
    ensures
        halved(base, k) / 2 == halved(base, k + 1),
        halved(base, k) >= halved(base, k + 1),
{
    vstd::arithmetic::div_mod::lemma_div_denominator(base, 2, 2);
    vstd::arithmetic::div_mod::lemma_div_denominator(base, 4, 2);
    vstd::arithmetic::div_mod::lemma_div_denominator(base, 8, 2);
}

/// Tick length of `base` ticks carrying `dots` dots.
pub fn apply_dots(base: u32, dots: u8) -> (r: u32)
    ensures
        r == dotted_length(base as int, dots as int),
{
    let mut total = base;
    let mut increment = base / 2;
    let cap: u8 = if dots < 3 { dots } else { 3 };
    let mut i: u8 = 0;
    while i < cap
        invariant
            cap <= 3,
            cap == (if dots < 3 { dots } else { 3 }),
            i <= cap,
            increment == halved(base as int, i + 1),
            total as int == (if base + dot_increments(base as int, i as int) > u32::MAX {
                u32::MAX as int
            } else {
                base + dot_increments(base as int, i as int)
            }),
        decreases cap - i,
    {
        total = total.saturating_add(increment);
        proof {
            lemma_halve_step(base as int, i + 1);
        }
        increment = increment / 2;
        i += 1;
        if increment == 0 {
            proof {
                lemma_halve_step(base as int, 1);
                lemma_halve_step(base as int, 2);
                lemma_halve_step(base as int, 3);
                assert(dot_increments(base as int, cap as int) == dot_increments(base as int, i as int));
            }
            return total;
        }
    }
    total
}

/// Ticks per quarter note of the scores the reader produces.
pub const DIVISIONS: u32 = 960;

/// The note value of a MuseScore duration type; a whole-measure rest
/// counts as a whole.
pub open spec fn kind_value(kind: MscxDurationKind) -> NoteValue {
    match kind {
        MscxDurationKind::Whole => NoteValue::Whole,
        MscxDurationKind::Half => NoteValue::Half,
        MscxDurationKind::Quarter => NoteValue::Quarter,
        MscxDurationKind::Eighth => NoteValue::Eighth,
        MscxDurationKind::Sixteenth => NoteValue::Sixteenth,
        MscxDurationKind::ThirtySecond => NoteValue::ThirtySecond,
        MscxDurationKind::SixtyFourth => NoteValue::SixtyFourth,
        MscxDurationKind::HundredTwentyEighth => NoteValue::HundredTwentyEighth,
        MscxDurationKind::Measure => NoteValue::Whole,
    }
}

/// The note value of a duration type.
pub fn convert_duration_kind(kind: MscxDurationKind) -> (r: NoteValue)
    ensures
        r == kind_value(kind),
{
    match kind {
        MscxDurationKind::Whole => NoteValue::Whole,
        MscxDurationKind::Half => NoteValue::Half,
        MscxDurationKind::Quarter => NoteValue::Quarter,
        MscxDurationKind::Eighth => NoteValue::Eighth,
        MscxDurationKind::Sixteenth => NoteValue::Sixteenth,
        MscxDurationKind::ThirtySecond => NoteValue::ThirtySecond,
        MscxDurationKind::SixtyFourth => NoteValue::SixtyFourth,
        MscxDurationKind::HundredTwentyEighth => NoteValue::HundredTwentyEighth,
        MscxDurationKind::Measure => NoteValue::Whole,
    }
}

/// A MuseScore duration as a score duration: same value and dots, no
/// tuplet.
pub fn convert_duration(duration: MscxDuration) -> (r: Duration)
    ensures
        r == (Duration { base: kind_value(duration.kind), dots: duration.dots, tuplet: None }),
{
    Duration { base: convert_duration_kind(duration.kind), dots: duration.dots, tuplet: None }
}

/// Undotted length in ticks of a duration type: four quarters for a whole
/// (and a whole-measure rest), halving down to a 128th.
pub open spec fn kind_ticks(kind: MscxDurationKind) -> int {
    match kind {
        MscxDurationKind::Whole => 3840,
        MscxDurationKind::Half => 1920,
        MscxDurationKind::Quarter => 960,
        MscxDurationKind::Eighth => 480,
        MscxDurationKind::Sixteenth => 240,
        MscxDurationKind::ThirtySecond => 120,
        MscxDurationKind::SixtyFourth => 60,
        MscxDurationKind::HundredTwentyEighth => 30,
        MscxDurationKind::Measure => 3840,
    }
}

/// Length in ticks of a duration, dots included.
pub open spec fn mscx_ticks(d: MscxDuration) -> int {
    dotted_length(kind_ticks(d.kind), d.dots as int)
}

/// Tick length of a duration.
pub fn duration_ticks(duration: MscxDuration) -> (r: u32)
    ensures
        r == mscx_ticks(duration),
{
    let base = match duration.kind {
        MscxDurationKind::Whole => DIVISIONS * 4,
        MscxDurationKind::Half => DIVISIONS * 2,
        MscxDurationKind::Quarter => DIVISIONS,
        MscxDurationKind::Eighth => DIVISIONS / 2,
        MscxDurationKind::Sixteenth => DIVISIONS / 4,
        MscxDurationKind::ThirtySecond => DIVISIONS / 8,
        MscxDurationKind::SixtyFourth => DIVISIONS / 16,
        MscxDurationKind::HundredTwentyEighth => DIVISIONS / 32,
        MscxDurationKind::Measure => DIVISIONS * 4,
    };
    apply_dots(base, duration.dots)
}

/// A MuseScore note in the score model: the MIDI pitch spelled with sharps,
/// the string made 1-based (saturating), fret and tie kept; a tie that
/// arrives wins over one that leaves; nothing else.
pub open spec fn note_of(n: MscxNote) -> NoteCore {
    NoteCore {
        pitch: match n.pitch {
            Some(m) => Some(sharp_pitch(m as i8)),
            None => None,
        },
        string: match n.string {
            Some(s) => Some(if s < 255 { (s + 1) as u8 } else { 255u8 }),
            None => None,
        },
        fret: n.fret,
        tie: if n.tie_end {
            Some(TieType::End)
        } else if n.tie_start {
            Some(TieType::Start)
        } else {
            None
        },
        gp_is_rest: false,
    }
}

/// Convert one note.
pub fn convert_note(note: &MscxNote) -> (r: Note)
    ensures
        core_of(r) == note_of(*note),
        plain_note(r),
{
    let pitch = match note.pitch {
        Some(midi) => Some(midi_to_pitch(midi as i8)),
        None => None,
    };
    let tie = if note.tie_end {
        Some(TieType::End)
    } else if note.tie_start {
        Some(TieType::Start)
    } else {
        None
    };
    let string = match note.string {
        Some(s) => Some(s.saturating_add(1)),
        None => None,
    };
    plain_note_of(pitch, string, note.fret, tie, false)
}

/// Convert the notes of a chord, in order.
pub fn convert_notes(notes: &[MscxNote]) -> (r: Vec<Note>)
    ensures
        r@.map_values(|n: Note| core_of(n)) == notes@.map_values(|n: MscxNote| note_of(n)),
        forall|i: int| 0 <= i < r@.len() ==> plain_note(#[trigger] r@[i]),
{
    let mut out: Vec<Note> = Vec::new();
    let mut i: usize = 0;
    while i < notes.len()
        invariant
            i <= notes@.len(),
            out@.map_values(|n: Note| core_of(n)) == notes@.subrange(0, i as int).map_values(|n: MscxNote| note_of(n)),
            forall|k: int| 0 <= k < out@.len() ==> plain_note(#[trigger] out@[k]),
        decreases notes@.len() - i,
    {
        let n = convert_note(&notes[i]);
        let ghost before = out@;
        out.push(n);
        assert(out@.map_values(|n: Note| core_of(n)) =~= before.map_values(|n: Note| core_of(n)).push(
            core_of(out@[i as int]),
        ));
        assert(notes@.subrange(0, i + 1) =~= notes@.subrange(0, i as int).push(notes@[i as int]));
        i += 1;
        assert(out@.map_values(|n: Note| core_of(n)) =~= notes@.subrange(0, i as int).map_values(|n: MscxNote| note_of(n)));
    }
    assert(notes@.subrange(0, notes@.len() as int) =~= notes@);
    out
}

/// A beat converted at `tick_offset`: its duration; a rest holds no note and
/// is marked as a rest, a chord holds its converted notes.
pub open spec fn beat_converted(src: MscxBeat, tick_offset: u32, b: Beat) -> bool {
    &&& b.tick_offset == tick_offset
    &&& b.duration == (Duration { base: kind_value(src.duration.kind), dots: src.duration.dots, tuplet: None })
    &&& !b.gp_empty
    &&& b.dynamic is None
    &&& match src.kind {
        MscxBeatKind::Rest => b.gp_rest && b.notes@.len() == 0,
        MscxBeatKind::Chord(ns) => !b.gp_rest && b.notes@.map_values(|n: Note| core_of(n)) == ns@.map_values(
            |n: MscxNote| note_of(n),
        ) && forall|i: int| 0 <= i < b.notes@.len() ==> plain_note(#[trigger] b.notes@[i]),
    }
}

/// Convert a beat that starts `tick_offset` ticks into its measure.
pub fn convert_beat(beat: &MscxBeat, tick_offset: u32) -> (r: Beat)
    ensures
        beat_converted(*beat, tick_offset, r),
{
    let duration = convert_duration(beat.duration);
    let (notes, gp_rest) = match &beat.kind {
        MscxBeatKind::Rest => (Vec::new(), true),
        MscxBeatKind::Chord(mscx_notes) => (convert_notes(mscx_notes.as_slice()), false),
    };
    Beat { tick_offset, duration, notes, dynamic: None, gp_empty: false, gp_rest }
}

/// Sum of the tick lengths of the first `k` beats.
pub open spec fn ticks_before(beats: Seq<MscxBeat>, k: int) -> int
    decreases k,
{
    if k <= 0 {
        0
    } else {
        ticks_before(beats, k - 1) + mscx_ticks(beats[k - 1].duration)
    }
}

/// Tick offset of beat `k`: the lengths of the beats before it, stopped at
/// the largest `u32`.
pub open spec fn beat_offset(beats: Seq<MscxBeat>, k: int) -> int {
    let t = ticks_before(beats, k);
    if t > u32::MAX {
        u32::MAX as int
    } else {
        t
    }
}

proof fn lemma_ticks_monotone(beats: Seq<MscxBeat>, k: int)
    requires
        0 <= k,
    ensures
        ticks_before(beats, k) >= 0,
    decreases k,
{
    if k > 0 {
        lemma_ticks_monotone(beats, k - 1);
        lemma_dotted_nonneg(kind_ticks(beats[k - 1].duration.kind), beats[k - 1].duration.dots as int);
    }
}

proof fn lemma_dotted_nonneg(base: int, dots: int)
    requires
        0 <= base,
    ensures
        dotted_length(base, dots) >= 0,
{
    assert(base / 2 >= 0 && base / 4 >= 0 && base / 8 >= 0) by (nonlinear_arith)
        requires
            base >= 0,
    ;
}

/// Convert a voice: beat `k` starts where the beats before it end.
pub fn convert_voice(voice: &MscxVoice, voice_id: u8) -> (r: Voice)
    ensures
        r.voice_id == voice_id,
        r.beats@.len() == voice.beats@.len(),
        forall|k: int| 0 <= k < r.beats@.len() ==> beat_converted(
            voice.beats@[k],
            beat_offset(voice.beats@, k) as u32,
            #[trigger] r.beats@[k],
        ),
{
    let mut beats: Vec<Beat> = Vec::new();
    let mut tick_offset: u32 = 0;
    let mut i: usize = 0;
    while i < voice.beats.len()
        invariant
            i <= voice.beats@.len(),
            beats@.len() == i,
            tick_offset == beat_offset(voice.beats@, i as int),
            forall|k: int| 0 <= k < i ==> beat_converted(
                voice.beats@[k],
                beat_offset(voice.beats@, k) as u32,
                #[trigger] beats@[k],
            ),
        decreases voice.beats@.len() - i,
    {
        let beat = &voice.beats[i];
        let ticks = duration_ticks(beat.duration);
        let converted = convert_beat(beat, tick_offset);
        beats.push(converted);
        proof {
            lemma_ticks_monotone(voice.beats@, i as int);
            lemma_dotted_nonneg(kind_ticks(beat.duration.kind), beat.duration.dots as int);
        }
        tick_offset = tick_offset.saturating_add(ticks);
        i += 1;
    }
    Voice { voice_id, beats }
}

// ---------------------------------------------------------------------------
// Signatures, clefs and meta tags
// ---------------------------------------------------------------------------

/// The key a score without a key signature is read in: C major.
pub fn default_key_signature() -> (r: KeySignature)
    ensures
        r == (KeySignature { root: Pitch { step: PitchStep::C, alter: 0, octave: 4 }, mode: Mode::Major }),
{
    KeySignature { root: Pitch { step: PitchStep::C, alter: 0, octave: 4 }, mode: Mode::Major }
}

/// A time signature, with a zero numerator or denominator read as 1.
pub fn convert_time_sig(sig: MscxTimeSig) -> (r: TimeSignature)
    ensures
        r.numerator == (if sig.numerator > 1 { sig.numerator } else { 1 }),
        r.denominator == (if sig.denominator > 1 { sig.denominator } else { 1 }),
{
    TimeSignature {
        numerator: if sig.numerator > 1 { sig.numerator } else { 1 },
        denominator: if sig.denominator > 1 { sig.denominator } else { 1 },
    }
}

/// A key signature as the major key with that many fifths.
pub fn convert_key_sig(sig: MscxKeySig) -> (r: KeySignature)
    ensures
        r == (KeySignature { root: fifths_root(sig.fifths), mode: Mode::Major }),
{
    KeySignature { root: root_from_fifths(sig.fifths), mode: Mode::Major }
}

/// Ticks in a measure of the time signature: the numerator times the ticks
/// of one beat (a whole's 3840 ticks divided by the denominator, read as 1
/// when zero).
pub open spec fn measure_ticks(time: TimeSignature) -> int {
    (3840int / (if time.denominator > 1 { time.denominator as int } else { 1int })) * time.numerator
}

/// Length in ticks of a measure.
pub fn measure_duration_ticks(time: TimeSignature) -> (r: u32)
    ensures
        r == measure_ticks(time),
{
    let den: u32 = if time.denominator > 1 { time.denominator as u32 } else { 1 };
    let per_beat = (DIVISIONS * 4) / den;
    assert(per_beat <= 3840);
    assert(per_beat * time.numerator <= 3840 * 255) by (nonlinear_arith)
        requires
            per_beat <= 3840,
            time.numerator <= 255,
    ;
    per_beat * time.numerator as u32
}

/// The clef that a MuseScore default-clef name stands for; a tablature
/// staff always has the tab clef, and a missing or unknown name is treble.
pub open spec fn clef_named(name: Seq<char>) -> Clef {
    if name == "G"@ || name == "G8vb"@ || name == "G8va"@ {
        Clef::Treble
    } else if name == "F"@ || name == "F8va"@ || name == "F8vb"@ || name == "F15ma"@ || name == "F15mb"@ {
        Clef::Bass
    } else if name == "C1"@ || name == "C2"@ || name == "C3"@ {
        Clef::Alto
    } else if name == "C4"@ || name == "C5"@ {
        Clef::Tenor
    } else if name == "PERC"@ || name == "PERC2"@ {
        Clef::Percussion
    } else if name == "TAB"@ || name == "TAB4"@ || name == "TAB6"@ || name == "TAB_SERIF"@ {
        Clef::Tab
    } else {
        Clef::Treble
    }
}

/// The clef of a staff from its default-clef name.
pub fn clef_from_default(clef: Option<&str>, is_tab: bool) -> (r: Clef)
    ensures
        r == (if is_tab {
            Clef::Tab
        } else {
            match clef {
                Some(c) => clef_named(c@),
                None => Clef::Treble,
            }
        }),
{
    if is_tab {
        return Clef::Tab;
    }
    let name = match clef {
        Some(c) => c,
        None => "G",
    };
    proof {
        reveal_strlit("G");
    }
    if str_eq(name, "G") || str_eq(name, "G8vb") || str_eq(name, "G8va") {
        Clef::Treble
    } else if str_eq(name, "F") || str_eq(name, "F8va") || str_eq(name, "F8vb") || str_eq(name, "F15ma")
        || str_eq(name, "F15mb") {
        Clef::Bass
    } else if str_eq(name, "C1") || str_eq(name, "C2") || str_eq(name, "C3") {
        Clef::Alto
    } else if str_eq(name, "C4") || str_eq(name, "C5") {
        Clef::Tenor
    } else if str_eq(name, "PERC") || str_eq(name, "PERC2") {
        Clef::Percussion
    } else if str_eq(name, "TAB") || str_eq(name, "TAB4") || str_eq(name, "TAB6") || str_eq(name, "TAB_SERIF") {
        Clef::Tab
    } else {
        Clef::Treble
    }
}

/// Index of the first tag from `i` on named `name`; the number of tags
/// when there is none.
pub open spec fn first_tag(tags: Seq<MetaTag>, name: Seq<char>, i: int) -> int
    decreases tags.len() - i,
{
    if i < 0 || i >= tags.len() {
        tags.len() as int
    } else if tags[i].name@ == name {
        i
    } else {
        first_tag(tags, name, i + 1)
    }
}

/// The text of the first tag named `name`.
pub open spec fn meta_text(tags: Seq<MetaTag>, name: Seq<char>) -> Option<Seq<char>> {
    let k = first_tag(tags, name, 0);
    if k < tags.len() {
        Some(tags[k].value@)
    } else {
        None
    }
}

proof fn lemma_first_tag(tags: Seq<MetaTag>, name: Seq<char>, i: int)
    requires
        0 <= i <= tags.len(),
    ensures
        i <= first_tag(tags, name, i) <= tags.len(),
        first_tag(tags, name, i) < tags.len() ==> tags[first_tag(tags, name, i)].name@ == name,
    decreases tags.len() - i,
{
    if i < tags.len() && tags[i].name@ != name {
        lemma_first_tag(tags, name, i + 1);
    }
}

/// The value of the first meta tag named `name`.
pub fn meta_value(tags: &[MetaTag], name: &str) -> (r: Option<String>)
    ensures
        match r {
            Some(v) => meta_text(tags@, name@) == Some(v@),
            None => meta_text(tags@, name@) is None,
        },
{
    let mut i: usize = 0;
    while i < tags.len()
        invariant
            i <= tags@.len(),
            first_tag(tags@, name@, 0) == first_tag(tags@, name@, i as int),
        decreases tags@.len() - i,
    {
        if str_eq(tags[i].name.as_str(), name) {
            return Some(tags[i].value.clone());
        }
        i += 1;
    }
    None
}

/// The year of a `creationDate` text: what comes before its first `-`,
/// read as an unsigned 16-bit number.
pub open spec fn year_of(date: Seq<char>) -> Option<u16> {
    match unsigned_value(split_pieces(date, '-')[0]) {
        Some(y) => if y <= 65535 {
            Some(y as u16)
        } else {
            None
        },
        None => None,
    }
}

/// The year the score was created, from its `creationDate` tag.
pub fn encoding_year_from_meta(tags: &[MetaTag]) -> (r: Option<u16>)
    ensures
        r == match meta_text(tags@, "creationDate"@) {
            Some(date) => year_of(date),
            None => None,
        },
{
    let raw = match meta_value(tags, "creationDate") {
        Some(v) => v,
        None => {
            return None;
        },
    };
    let ranges = split_at_char(raw.as_str(), '-');
    let (a, b) = ranges[0];
    let piece = raw.as_str().substring_char(a, b);
    proof {
        assert(piece@ == split_pieces(raw@, '-')[0]);
    }
    match parse_usize(piece) {
        Some(y) => if y <= 65535 {
            Some(y as u16)
        } else {
            None
        },
        None => None,
    }
}

/// A note read from MuseScore and written back keeps its MIDI pitch, for
/// pitches from 12 (C0) to 127.
pub proof fn lemma_note_pitch_round_trip(n: MscxNote)
    requires
        n.pitch is Some,
        12 <= n.pitch->0 <= 127,
    ensures
        note_of(n).pitch is Some,
        mscx_midi(note_of(n).pitch->0) == n.pitch->0,
{
    let m = n.pitch->0 as int;
    assert((m as i8) as int == m);
    assert(m == (m / 12) * 12 + m % 12);
}

} // verus!
