//! Note construction: the notes and rests of a measure's voices.

use vstd::prelude::*;

use crate::convert::musicxml::helpers::{
    div12_toward_zero, divisions_of, duration_to_divisions, duration_to_note_type, midi_to_pitch,
    note_type_of, sharp_spelling,
};
use crate::convert::musicxml::notations::{build_notations, needs_notations, notations_ok};
use crate::model::legacy::{
    Beat, BeatStatus, Duration, Measure, Note as GpNote, NoteType as GpNoteType, Track, Voice,
};
use crate::model::musicxml::{
    Backup, Dot, MusicData, Note, NoteType, NoteTypeValue, Pitch, Rest, Tie, TimeModification,
};
use crate::text::{decimal, prefixed_decimal};

verus! {

/// The time modification of a legacy duration: none for a 1:1 tuplet, else
/// `tuplet_enters` actual notes in the time of `tuplet_times`.
pub open spec fn time_modification_of(d: Duration) -> Option<TimeModification> {
    if d.tuplet_enters == 1 && d.tuplet_times == 1 {
        None
    } else {
        Some(
            TimeModification {
                actual_notes: d.tuplet_enters,
                normal_notes: d.tuplet_times,
                normal_type: None,
                normal_dots: 0,
            },
        )
    }
}

/// The `<time-modification>` of a legacy duration.
pub fn build_time_modification(duration: &Duration) -> (r: Option<TimeModification>)
    ensures
        r == time_modification_of(*duration),
{
    if duration.is_default_tuplet() {
        return None;
    }
    Some(
        TimeModification {
            actual_notes: duration.tuplet_enters,
            normal_notes: duration.tuplet_times,
            normal_type: None,
            normal_dots: 0,
        },
    )
}

/// The parts that a rest and a note share: `divisions` ticks in voice
/// `voice`, the note type, one dot when the duration is dotted, and the
/// duration's time modification.
pub open spec fn timing_ok(
    r: Note,
    divisions: u32,
    note_type: NoteTypeValue,
    duration: Duration,
    voice: Seq<char>,
) -> bool {
    &&& r.duration == Some(divisions)
    &&& r.voice is Some && r.voice->0@ == voice
    &&& r.note_type == Some(NoteType { size: None, value: note_type })
    &&& r.dots@.len() == if duration.dotted {
        1int
    } else {
        0int
    }
    &&& forall|k: int| 0 <= k < r.dots@.len() ==> #[trigger] r.dots@[k] == (Dot { placement: None })
    &&& r.time_modification == time_modification_of(duration)
}

/// `r` is the rest that [`make_rest_note`] makes.
pub open spec fn rest_note_ok(
    r: Note,
    divisions: u32,
    note_type: NoteTypeValue,
    duration: Duration,
    voice: Seq<char>,
) -> bool {
    &&& r.pitch is None
    &&& r.rest == Some(Rest { measure: None, display_step: None, display_octave: None })
    &&& r.chord is None
    &&& r.ties@.len() == 0
    &&& r.notations@.len() == 0
    &&& timing_ok(r, divisions, note_type, duration, voice)
}

/// A rest of `divisions` ticks in voice `voice`, with its note type, one dot
/// when the duration is dotted, and the duration's time modification.
pub fn make_rest_note(divisions: u32, note_type: NoteTypeValue, duration: &Duration, voice: &str) -> (r:
    Note)
    ensures
        rest_note_ok(r, divisions, note_type, *duration, voice@),
{
    let mut dots: Vec<Dot> = Vec::new();
    if duration.dotted {
        dots.push(Dot { placement: None });
    }
    Note {
        pitch: None,
        rest: Some(Rest { measure: None, display_step: None, display_octave: None }),
        chord: None,
        grace: None,
        duration: Some(divisions),
        ties: Vec::new(),
        voice: Some(String::from_str(voice)),
        note_type: Some(NoteType { size: None, value: note_type }),
        dots,
        time_modification: build_time_modification(duration),
        notations: Vec::new(),
    }
}

/// `a + b` clamped to the range of `i8`.
pub open spec fn saturating_i8(a: int, b: int) -> int {
    if a + b < -128 {
        -128
    } else if a + b > 127 {
        127
    } else {
        a + b
    }
}

/// MIDI pitch of a legacy note: its fret (truncated to `i8`) on the open
/// string's pitch, saturating, when the string is one of `strings`; the
/// fret value alone otherwise.
pub open spec fn fretted_midi(note: GpNote, strings: Seq<(i8, i8)>) -> int {
    if note.string > 0 && note.string <= strings.len() {
        saturating_i8((note.value as i8) as int, strings[note.string - 1].1 as int)
    } else {
        (note.value as i8) as int
    }
}

/// `r` is the MusicXML note that [`make_note`] makes of `note`: a rest for a
/// rest note, else the sharp-spelled pitch of its fretted MIDI number; a
/// `stop` tie for a tie note; marked as a chord note when `is_chord`; the
/// timing; and the `<notations>` of the note.
pub open spec fn played_note_ok(
    r: Note,
    note: GpNote,
    strings: Seq<(i8, i8)>,
    divisions: u32,
    note_type: NoteTypeValue,
    duration: Duration,
    voice: Seq<char>,
    is_chord: bool,
) -> bool {
    let m = fretted_midi(note, strings);
    &&& (note.kind == GpNoteType::Rest ==> r.pitch is None && r.rest == Some(
        Rest { measure: None, display_step: None, display_octave: None },
    ))
    &&& (note.kind != GpNoteType::Rest ==> r.rest is None && r.pitch is Some
        && r.pitch->0.step@ == sharp_spelling(m % 12).0 && r.pitch->0.alter == sharp_spelling(m % 12).1
        && r.pitch->0.octave == div12_toward_zero(m) - 1)
    &&& r.ties@.len() == if note.kind == GpNoteType::Tie {
        1int
    } else {
        0int
    }
    &&& (note.kind == GpNoteType::Tie ==> r.ties@[0].tie_type@ == "stop"@)
    &&& (r.chord is Some <==> is_chord)
    &&& timing_ok(r, divisions, note_type, duration, voice)
    &&& r.notations@.len() == if needs_notations(note, strings.len() as int) {
        1int
    } else {
        0int
    }
    &&& (r.notations@.len() == 1 ==> notations_ok(r.notations@[0], note, strings.len() as int))
}

/// The MusicXML note of a legacy note of a beat.
pub fn make_note(
    note: &GpNote,
    strings: &[(i8, i8)],
    divisions: u32,
    note_type: NoteTypeValue,
    duration: &Duration,
    voice: &str,
    is_chord: bool,
) -> (r: Note)
    ensures
        played_note_ok(r, *note, strings@, divisions, note_type, *duration, voice@, is_chord),
{
    let is_rest = note.kind == GpNoteType::Rest;
    let is_tie_stop = note.kind == GpNoteType::Tie;
    let (pitch, rest) = if is_rest {
        (None, Some(Rest { measure: None, display_step: None, display_octave: None }))
    } else {
        let midi: i8 = if note.string > 0 && (note.string as usize) <= strings.len() {
            let sum: i16 = (note.value as i8) as i16 + strings[(note.string as usize) - 1].1 as i16;
            if sum < -128 {
                -128
            } else if sum > 127 {
                127
            } else {
                sum as i8
            }
        } else {
            note.value as i8
        };
        let (step, alter, octave) = midi_to_pitch(midi);
        (Some(Pitch { step, alter, octave }), None)
    };
    let mut ties: Vec<Tie> = Vec::new();
    if is_tie_stop {
        ties.push(Tie { tie_type: String::from_str("stop") });
    }
    proof {
        reveal_strlit("stop");
    }
    let mut dots: Vec<Dot> = Vec::new();
    if duration.dotted {
        dots.push(Dot { placement: None });
    }
    Note {
        pitch,
        rest,
        chord: if is_chord {
            Some(())
        } else {
            None
        },
        grace: None,
        duration: Some(divisions),
        ties,
        voice: Some(String::from_str(voice)),
        note_type: Some(NoteType { size: None, value: note_type }),
        dots,
        time_modification: build_time_modification(duration),
        notations: build_notations(note, strings),
    }
}

// ---------------------------------------------------------------------------
// Voices
// ---------------------------------------------------------------------------

/// A duration that [`duration_to_divisions`] can measure: a nonzero note
/// value, and a nonzero `tuplet_enters` unless the tuplet is 1:1.
pub open spec fn measurable(d: Duration) -> bool {
    d.value != 0 && (d.tuplet_enters != 1 || d.tuplet_times != 1 ==> d.tuplet_enters != 0)
}

/// Every beat of the voice is empty.
pub open spec fn voice_is_empty(v: Voice) -> bool {
    forall|k: int| 0 <= k < v.beats@.len() ==> (#[trigger] v.beats@[k]).status == BeatStatus::Empty
}

/// Total ticks of the first `n` beats.
pub open spec fn beats_ticks(beats: Seq<Beat>, n: int) -> int
    decreases n,
{
    if n <= 0 {
        0
    } else {
        beats_ticks(beats, n - 1) + divisions_of(beats[n - 1].duration)
    }
}

/// Some voice after the first has a beat that is not empty.
pub open spec fn has_later_voice(m: Measure) -> bool {
    exists|v: int| 1 <= v < m.voices@.len() && !voice_is_empty(#[trigger] m.voices@[v])
}

/// What [`build_voices`] can convert without failing: every beat that is not
/// empty has a measurable duration, and when a later voice is written, every
/// beat of the first voice is measurable and their ticks fit in `u32`.
pub open spec fn voices_convertible(m: Measure) -> bool {
    &&& forall|v: int, b: int|
        0 <= v < m.voices@.len() && 0 <= b < m.voices@[v].beats@.len()
            && (#[trigger] m.voices@[v].beats@[b]).status != BeatStatus::Empty ==> measurable(
            m.voices@[v].beats@[b].duration,
        )
    &&& has_later_voice(m) ==> {
        &&& m.voices@.len() > 0
        &&& forall|b: int|
            0 <= b < m.voices@[0].beats@.len() ==> measurable(#[trigger] m.voices@[0].beats@[b].duration)
        &&& beats_ticks(m.voices@[0].beats@, m.voices@[0].beats@.len() as int) <= u32::MAX
    }
}

/// One element of a measure's music data, by where it comes from.
pub enum Emitted {
    /// A backup of this many ticks.
    Backup(int),
    /// The rest of beat `.1` of voice `.0`.
    Rest(int, int),
    /// Note `.2` of beat `.1` of voice `.0`.
    Played(int, int, int),
}

/// What beat `b` of voice `v` emits: nothing when empty, a rest when it
/// rests or has no notes, else each of its notes.
pub open spec fn beat_items(v: int, b: int, beat: Beat) -> Seq<Emitted> {
    if beat.status == BeatStatus::Empty {
        Seq::empty()
    } else if beat.status == BeatStatus::Rest || beat.notes@.len() == 0 {
        seq![Emitted::Rest(v, b)]
    } else {
        Seq::new(beat.notes@.len(), |k: int| Emitted::Played(v, b, k))
    }
}

/// What the first `n` beats of voice `v` emit.
pub open spec fn voice_items(v: int, beats: Seq<Beat>, n: int) -> Seq<Emitted>
    decreases n,
{
    if n <= 0 {
        Seq::empty()
    } else {
        voice_items(v, beats, n - 1) + beat_items(v, n - 1, beats[n - 1])
    }
}

/// The backup before voice `v`: the first voice's total ticks, for a voice
/// after the first, when that total is not zero.
pub open spec fn backup_items(m: Measure, v: int) -> Seq<Emitted> {
    let t = beats_ticks(m.voices@[0].beats@, m.voices@[0].beats@.len() as int);
    if v > 0 && t > 0 {
        seq![Emitted::Backup(t)]
    } else {
        Seq::empty()
    }
}

/// What the first `n` voices of the measure emit: each voice that is not
/// empty, after its backup.
pub open spec fn measure_items(m: Measure, n: int) -> Seq<Emitted>
    decreases n,
{
    if n <= 0 {
        Seq::empty()
    } else {
        let voice = m.voices@[n - 1];
        measure_items(m, n - 1) + if voice_is_empty(voice) {
            Seq::empty()
        } else {
            backup_items(m, n - 1) + voice_items(n - 1, voice.beats@, voice.beats@.len() as int)
        }
    }
}

/// The voice number text of voice `v`: `v + 1` in decimal.
pub open spec fn voice_label(v: int) -> Seq<char> {
    decimal((v + 1) as nat)
}

/// `x` is the music data that `e` stands for.
pub open spec fn item_ok(x: MusicData, e: Emitted, m: Measure, strings: Seq<(i8, i8)>) -> bool {
    match e {
        Emitted::Backup(t) => x matches MusicData::Backup(bk) && bk.duration == t,
        Emitted::Rest(v, b) => {
            let beat = m.voices@[v].beats@[b];
            x matches MusicData::Note(n) && rest_note_ok(
                n,
                divisions_of(beat.duration) as u32,
                note_type_of(beat.duration.value),
                beat.duration,
                voice_label(v),
            )
        },
        Emitted::Played(v, b, k) => {
            let beat = m.voices@[v].beats@[b];
            x matches MusicData::Note(n) && played_note_ok(
                n,
                beat.notes@[k],
                strings,
                divisions_of(beat.duration) as u32,
                note_type_of(beat.duration.value),
                beat.duration,
                voice_label(v),
                k > 0,
            )
        },
    }
}

/// The items of beat `b` as far as note `k`.
proof fn lemma_played_prefix(v: int, b: int, beat: Beat, k: int)
    requires
        beat.status != BeatStatus::Empty,
        beat.status != BeatStatus::Rest,
        0 <= k <= beat.notes@.len(),
        beat.notes@.len() > 0,
    ensures
        beat_items(v, b, beat).len() == beat.notes@.len(),
        forall|j: int| 0 <= j < k ==> beat_items(v, b, beat)[j] == Emitted::Played(v, b, j),
{
}

/// Ticks of the first voice's beats.
fn voice_ticks(beats: &Vec<Beat>) -> (r: u32)
    requires
        forall|b: int| 0 <= b < beats@.len() ==> measurable(#[trigger] beats@[b].duration),
        beats_ticks(beats@, beats@.len() as int) <= u32::MAX,
    ensures
        r == beats_ticks(beats@, beats@.len() as int),
{
    let mut total: u32 = 0;
    let mut i: usize = 0;
    while i < beats.len()
        invariant
            i <= beats@.len(),
            forall|b: int| 0 <= b < beats@.len() ==> measurable(#[trigger] beats@[b].duration),
            beats_ticks(beats@, beats@.len() as int) <= u32::MAX,
            total == beats_ticks(beats@, i as int),
        decreases beats@.len() - i,
    {
        let d = duration_to_divisions(&beats[i].duration);
        proof {
            lemma_ticks_grow(beats@, i + 1, beats@.len() as int);
        }
        total = total + d;
        i += 1;
    }
    total
}

/// A measurable duration has a nonnegative number of ticks.
proof fn lemma_divisions_nonneg(d: Duration)
    requires
        measurable(d),
    ensures
        divisions_of(d) >= 0,
{
    let base = 3840int / d.value as int;
    assert(base >= 0) by (nonlinear_arith)
        requires
            d.value > 0,
            base == 3840int / d.value as int,
    ;
    let dotted = if d.dotted {
        base + base / 2
    } else {
        base
    };
    assert(dotted >= 0);
    if d.tuplet_enters != 1 || d.tuplet_times != 1 {
        assert(dotted * d.tuplet_times / d.tuplet_enters as int >= 0) by (nonlinear_arith)
            requires
                dotted >= 0,
                d.tuplet_enters > 0,
        ;
    }
}

proof fn lemma_ticks_grow(beats: Seq<Beat>, i: int, n: int)
    requires
        0 <= i <= n <= beats.len(),
        forall|b: int| 0 <= b < beats.len() ==> measurable(#[trigger] beats[b].duration),
    ensures
        beats_ticks(beats, i) <= beats_ticks(beats, n),
    decreases n - i,
{
    if i < n {
        lemma_ticks_grow(beats, i, n - 1);
        lemma_divisions_nonneg(beats[n - 1].duration);
    }
}

/// Whether every beat of the voice is empty.
fn voice_empty(voice: &Voice) -> (r: bool)
    ensures
        r == voice_is_empty(*voice),
{
    let mut i: usize = 0;
    while i < voice.beats.len()
        invariant
            i <= voice.beats@.len(),
            forall|k: int| 0 <= k < i ==> (#[trigger] voice.beats@[k]).status == BeatStatus::Empty,
        decreases voice.beats@.len() - i,
    {
        if voice.beats[i].status != BeatStatus::Empty {
            return false;
        }
        i += 1;
    }
    true
}

/// The music data of a measure's voices: each voice that is not empty, in
/// order, the voices after the first each behind a backup to the start of
/// the measure; a beat's notes are one chord, a resting beat one rest.
pub fn build_voices(measure: &Measure, track: &Track) -> (r: Vec<MusicData>)
    requires
        voices_convertible(*measure),
    ensures
        r@.len() == measure_items(*measure, measure.voices@.len() as int).len(),
        forall|i: int| 0 <= i < r@.len() ==> item_ok(
            #[trigger] r@[i],
            measure_items(*measure, measure.voices@.len() as int)[i],
            *measure,
            track.strings@,
        ),
{
    let ghost m = *measure;
    let ghost strings = track.strings@;
    let mut result: Vec<MusicData> = Vec::new();
    let nv = measure.voices.len();
    let mut v: usize = 0;
    while v < nv
        invariant
            m == *measure,
            strings == track.strings@,
            nv == m.voices@.len(),
            voices_convertible(m),
            v <= nv,
            result@.len() == measure_items(m, v as int).len(),
            forall|i: int| 0 <= i < result@.len() ==> item_ok(
                #[trigger] result@[i],
                measure_items(m, v as int)[i],
                m,
                strings,
            ),
        decreases nv - v,
    {
        let voice = &measure.voices[v];
        if voice_empty(voice) {
            assert(measure_items(m, v + 1) =~= measure_items(m, v as int));
            v += 1;
            continue;
        }
        let ghost before = measure_items(m, v as int);
        if v > 0 {
            proof {
                assert(!voice_is_empty(m.voices@[v as int]));
                assert(has_later_voice(m));
            }
            let backup_duration = voice_ticks(&measure.voices[0].beats);
            if backup_duration > 0 {
                result.push(MusicData::Backup(Backup { duration: backup_duration }));
            }
        }
        let ghost head = before + backup_items(m, v as int);
        assert(result@.len() == head.len());
        assert forall|i: int| 0 <= i < result@.len() implies item_ok(#[trigger] result@[i], head[i], m, strings) by {
            if i < before.len() {
                assert(head[i] == before[i]);
            }
        }
        let voice_num = prefixed_decimal("", (v + 1) as u64);
        proof {
            reveal_strlit("");
            assert(voice_num@ =~= voice_label(v as int));
        }
        let nb = voice.beats.len();
        let mut b: usize = 0;
        while b < nb
            invariant
                m == *measure,
                strings == track.strings@,
                nv == m.voices@.len(),
                voices_convertible(m),
                v < nv,
                *voice == m.voices@[v as int],
                nb == voice.beats@.len(),
                b <= nb,
                voice_num@ == voice_label(v as int),
                result@.len() == head.len() + voice_items(v as int, voice.beats@, b as int).len(),
                forall|i: int| 0 <= i < head.len() ==> item_ok(#[trigger] result@[i], head[i], m, strings),
                forall|i: int| 0 <= i < voice_items(v as int, voice.beats@, b as int).len() ==> item_ok(
                    #[trigger] result@[head.len() + i],
                    voice_items(v as int, voice.beats@, b as int)[i],
                    m,
                    strings,
                ),
            decreases nb - b,
        {
            let beat = &voice.beats[b];
            let ghost done = voice_items(v as int, voice.beats@, b as int);
            let ghost snap = result@;
            let ghost items = beat_items(v as int, b as int, *beat);
            if beat.status != BeatStatus::Empty {
                assert(measurable(m.voices@[v as int].beats@[b as int].duration));
                let divisions = duration_to_divisions(&beat.duration);
                let note_type = duration_to_note_type(&beat.duration);
                if beat.status == BeatStatus::Rest || beat.notes.len() == 0 {
                    let rest = make_rest_note(divisions, note_type, &beat.duration, voice_num.as_str());
                    result.push(MusicData::Note(rest));
                    assert(items =~= seq![Emitted::Rest(v as int, b as int)]);
                    assert(item_ok(result@[snap.len() as int], items[0], m, strings));
                } else {
                    let nn = beat.notes.len();
                    let mut k: usize = 0;
                    while k < nn
                        invariant
                            m == *measure,
                            strings == track.strings@,
                            v < nv,
                            nv == m.voices@.len(),
                            b < nb,
                            nb == m.voices@[v as int].beats@.len(),
                            *beat == m.voices@[v as int].beats@[b as int],
                            nn == beat.notes@.len(),
                            k <= nn,
                            divisions == divisions_of(beat.duration),
                            note_type == note_type_of(beat.duration.value),
                            voice_num@ == voice_label(v as int),
                            result@.len() == snap.len() + k,
                            forall|i: int| 0 <= i < snap.len() ==> #[trigger] result@[i] == snap[i],
                            forall|j: int| 0 <= j < k ==> item_ok(
                                #[trigger] result@[snap.len() + j],
                                Emitted::Played(v as int, b as int, j),
                                m,
                                strings,
                            ),
                        decreases nn - k,
                    {
                        let n = make_note(
                            &beat.notes[k],
                            track.strings.as_slice(),
                            divisions,
                            note_type,
                            &beat.duration,
                            voice_num.as_str(),
                            k > 0,
                        );
                        result.push(MusicData::Note(n));
                        proof {
                            assert(item_ok(
                                result@[snap.len() + k],
                                Emitted::Played(v as int, b as int, k as int),
                                m,
                                strings,
                            ));
                        }
                        k += 1;
                    }
                    proof {
                        lemma_played_prefix(v as int, b as int, *beat, nn as int);
                        assert forall|j: int| 0 <= j < items.len() implies item_ok(
                            #[trigger] result@[snap.len() + j],
                            items[j],
                            m,
                            strings,
                        ) by {
                            assert(items[j] == Emitted::Played(v as int, b as int, j));
                        }
                    }
                }
            } else {
                assert(items =~= Seq::<Emitted>::empty());
            }
            proof {
                assert(result@.len() == snap.len() + items.len());
                assert(forall|j: int| 0 <= j < items.len() ==> item_ok(#[trigger] result@[snap.len() + j], items[j], m, strings));
                assert(forall|i: int| 0 <= i < snap.len() ==> #[trigger] result@[i] == snap[i]);
                let next = voice_items(v as int, voice.beats@, b + 1);
                assert(next =~= done + items);
                assert forall|i: int| 0 <= i < head.len() implies item_ok(#[trigger] result@[i], head[i], m, strings) by {
                    assert(result@[i] == snap[i]);
                }
                assert forall|i: int| 0 <= i < next.len() implies item_ok(
                    #[trigger] result@[head.len() + i],
                    next[i],
                    m,
                    strings,
                ) by {
                    if i < done.len() {
                        assert(result@[head.len() + i] == snap[head.len() + i]);
                        assert(next[i] == done[i]);
                    } else {
                        assert(next[i] == items[i - done.len()]);
                        assert(head.len() + i == snap.len() + (i - done.len()));
                    }
                }
            }
            b += 1;
        }
        proof {
            let all = voice_items(v as int, voice.beats@, nb as int);
            let next = measure_items(m, v + 1);
            assert(next =~= head + all);
            assert forall|i: int| 0 <= i < result@.len() implies item_ok(#[trigger] result@[i], next[i], m, strings) by {
                if i < head.len() {
                    assert(next[i] == head[i]);
                } else {
                    assert(next[i] == all[i - head.len()]);
                    assert(result@[i] == result@[head.len() + (i - head.len())]);
                }
            }
        }
        v += 1;
    }
    result
}

} // verus!
