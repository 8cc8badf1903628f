//! The MusicXML to Guitar Pro conversion of notes and beats: durations,
//! pitches, placing a pitch on the fretboard, and the notes of a beat.

use vstd::prelude::*;

use crate::model::legacy::{
    Song, Beat, BeatStatus, Duration as LegacyDuration, Note as LegacyNote, no_effect, NoteEffect, NoteType as LegacyNoteType,
};
use crate::model::musicxml::{
    Creator, Identification, MiscellaneousField, MusicData, Note as XmlNote, NoteTypeValue, Notations, Part, PartListItem, Pitch as XmlPitch, ScorePartwise,
    StaffDetails, StaffTuning, Tie,
};
use crate::convert::musicxml::helpers::{div12_toward_zero, note_type_of, sharp_spelling};
use crate::convert::musicxml::note::timing_ok;
use crate::text::str_eq;

verus! {

/// Fret at which string `i` of `strings` (string number, open-string MIDI
/// pitch) sounds `midi`.
pub open spec fn fret_on(strings: Seq<(i8, i8)>, midi: int, i: int) -> int {
    midi - strings[i].1
}

/// String `i` can sound `midi` at a fret from 0 to 24.
pub open spec fn playable_on(strings: Seq<(i8, i8)>, midi: int, i: int) -> bool {
    0 <= i < strings.len() && 0 <= fret_on(strings, midi, i) <= 24
}

/// String `k` is where `midi` is placed: it can sound the pitch, no string
/// can sound it lower on the neck, and no earlier string can sound it as
/// low.
pub open spec fn best_string(strings: Seq<(i8, i8)>, midi: int, k: int) -> bool {
    &&& playable_on(strings, midi, k)
    &&& forall|j: int| #[trigger] playable_on(strings, midi, j) ==> fret_on(strings, midi, k) <= fret_on(strings, midi, j)
    &&& forall|j: int| 0 <= j < k && #[trigger] playable_on(strings, midi, j) ==> fret_on(strings, midi, k) < fret_on(strings, midi, j)
}

/// The string and fret that play MIDI pitch `midi` on an instrument tuned to
/// `strings`: the lowest fret (0 to 24) at which some string sounds it, on
/// the first such string; `None` when no string reaches it.
pub fn pitch_to_string_fret(midi: i32, strings: &[(i8, i8)]) -> (r: Option<(i8, i16)>)
    ensures
        r is None <==> forall|i: int| !#[trigger] playable_on(strings@, midi as int, i),
        r matches Some((s, f)) ==> exists|k: int| #![trigger strings@[k]]
            best_string(strings@, midi as int, k) && s == strings@[k].0 && f == fret_on(strings@, midi as int, k),
{
    let mut best: Option<(i8, i16)> = None;
    let ghost mut at: int = -1;
    let n = strings.len();
    let mut i: usize = 0;
    while i < n
        invariant
            n == strings@.len(),
            i <= n,
            best is None <==> forall|j: int| 0 <= j < i ==> !#[trigger] playable_on(strings@, midi as int, j),
            best is Some ==> {
                &&& 0 <= at < i
                &&& playable_on(strings@, midi as int, at)
                &&& best == Some((strings@[at].0, fret_on(strings@, midi as int, at) as i16))
                &&& forall|j: int| 0 <= j < i && #[trigger] playable_on(strings@, midi as int, j)
                    ==> fret_on(strings@, midi as int, at) <= fret_on(strings@, midi as int, j)
                &&& forall|j: int| 0 <= j < at && #[trigger] playable_on(strings@, midi as int, j)
                    ==> fret_on(strings@, midi as int, at) < fret_on(strings@, midi as int, j)
            },
        decreases n - i,
    {
        let (string_num, open_midi) = strings[i];
        let fret: i64 = midi as i64 - open_midi as i64;
        assert(fret == fret_on(strings@, midi as int, i as int));
        assert(playable_on(strings@, midi as int, i as int) <==> (0 <= fret && fret <= 24));
        if 0 <= fret && fret <= 24 {
            let fret = fret as i16;
            let better = match best {
                None => true,
                Some((_, bf)) => fret < bf,
            };
            if better {
                best = Some((string_num, fret));
                proof {
                    at = i as int;
                }
            }
        }
        i += 1;
    }
    proof {
        if best is Some {
            assert forall|j: int| #[trigger] playable_on(strings@, midi as int, j) implies
                fret_on(strings@, midi as int, at) <= fret_on(strings@, midi as int, j) by {}
            assert(best_string(strings@, midi as int, at));
        }
    }
    best
}

// ---------------------------------------------------------------------------
// Durations
// ---------------------------------------------------------------------------

/// The legacy note value (1 = whole, …, 128) of a MusicXML note type.
pub open spec fn type_value(v: NoteTypeValue) -> u16 {
    match v {
        NoteTypeValue::Whole => 1,
        NoteTypeValue::Half => 2,
        NoteTypeValue::Quarter => 4,
        NoteTypeValue::Eighth => 8,
        NoteTypeValue::N16th => 16,
        NoteTypeValue::N32nd => 32,
        NoteTypeValue::N64th => 64,
        NoteTypeValue::N128th => 128,
    }
}

/// The legacy note value of a note type.
pub fn note_type_value_to_u16(v: NoteTypeValue) -> (r: u16)
    ensures
        r == type_value(v),
{
    match v {
        NoteTypeValue::Whole => 1,
        NoteTypeValue::Half => 2,
        NoteTypeValue::Quarter => 4,
        NoteTypeValue::Eighth => 8,
        NoteTypeValue::N16th => 16,
        NoteTypeValue::N32nd => 32,
        NoteTypeValue::N64th => 64,
        NoteTypeValue::N128th => 128,
    }
}

/// `a / b` rounded to the nearest integer, halves rounded up (for positive
/// `a` and `b`).
pub open spec fn nearest_quotient(a: int, b: int) -> int {
    (2 * a + b) / (2 * b)
}

/// A legacy note value: a power of two from 1 to 128.
pub open spec fn is_note_value(v: int) -> bool {
    v == 1 || v == 2 || v == 4 || v == 8 || v == 16 || v == 32 || v == 64 || v == 128
}

/// The note value of a MusicXML note: its type when it has one, else the
/// note value that its duration in `divisions` per quarter comes nearest
/// to (a quarter when that is no note value, or the duration or divisions
/// is zero or missing).
pub open spec fn xml_value(n: XmlNote, divisions: u32) -> u16 {
    match n.note_type {
        Some(nt) => type_value(nt.value),
        None => match n.duration {
            Some(d) => if d == 0 || divisions == 0 {
                4
            } else {
                let v = nearest_quotient(4 * divisions, d as int);
                if is_note_value(v) {
                    v as u16
                } else {
                    4
                }
            },
            None => 4,
        },
    }
}

/// The legacy duration of a MusicXML note: its value, a dot when it has
/// any, and its time modification as the tuplet (1:1 without one).
pub open spec fn xml_duration(n: XmlNote, divisions: u32) -> LegacyDuration {
    LegacyDuration {
        value: xml_value(n, divisions),
        dotted: n.dots@.len() > 0,
        tuplet_enters: match n.time_modification {
            Some(tm) => tm.actual_notes,
            None => 1,
        },
        tuplet_times: match n.time_modification {
            Some(tm) => tm.normal_notes,
            None => 1,
        },
    }
}

/// The legacy duration of a note.
pub fn xml_note_to_duration(note: &XmlNote, divisions: u32) -> (r: LegacyDuration)
    ensures
        r == xml_duration(*note, divisions),
{
    let value: u16 = match &note.note_type {
        Some(nt) => note_type_value_to_u16(nt.value),
        None => match note.duration {
            Some(dur) => {
                if dur == 0 || divisions == 0 {
                    4
                } else {
                    let v: u64 = (8 * divisions as u64 + dur as u64) / (2 * dur as u64);
                    if v == 1 || v == 2 || v == 4 || v == 8 || v == 16 || v == 32 || v == 64 || v == 128 {
                        v as u16
                    } else {
                        4
                    }
                }
            },
            None => 4,
        },
    };
    let dotted = note.dots.len() > 0;
    let (tuplet_enters, tuplet_times) = match note.time_modification {
        Some(tm) => (tm.actual_notes, tm.normal_notes),
        None => (1u8, 1u8),
    };
    LegacyDuration { value, dotted, tuplet_enters, tuplet_times }
}

// ---------------------------------------------------------------------------
// Pitches
// ---------------------------------------------------------------------------

/// Semitones above C of a step name; 0 for a name that is no step.
pub open spec fn step_name_semitone(step: Seq<char>) -> int {
    if step == "C"@ {
        0
    } else if step == "D"@ {
        2
    } else if step == "E"@ {
        4
    } else if step == "F"@ {
        5
    } else if step == "G"@ {
        7
    } else if step == "A"@ {
        9
    } else if step == "B"@ {
        11
    } else {
        0
    }
}

/// MIDI number of a MusicXML pitch.
pub open spec fn xml_midi(p: XmlPitch) -> int {
    (p.octave + 1) * 12 + step_name_semitone(p.step@) + match p.alter {
        Some(a) => a as int,
        None => 0,
    }
}

/// The MIDI number of a pitch.
pub fn xml_pitch_to_midi(pitch: &XmlPitch) -> (r: i32)
    ensures
        r == xml_midi(*pitch),
{
    let step = pitch.step.as_str();
    let base: i32 = if str_eq(step, "C") {
        0
    } else if str_eq(step, "D") {
        2
    } else if str_eq(step, "E") {
        4
    } else if str_eq(step, "F") {
        5
    } else if str_eq(step, "G") {
        7
    } else if str_eq(step, "A") {
        9
    } else if str_eq(step, "B") {
        11
    } else {
        0
    };
    let alter: i32 = match pitch.alter {
        Some(a) => a as i32,
        None => 0,
    };
    (pitch.octave as i32 + 1) * 12 + base + alter
}

// ---------------------------------------------------------------------------
// Notes and beats
// ---------------------------------------------------------------------------

/// The first string and fret that the notations spell out (from entry `i`
/// on): the first entry whose technical block has both.
pub open spec fn first_tab(notations: Seq<Notations>, i: int) -> Option<(i8, i16)>
    decreases notations.len() - i,
{
    if i < 0 || i >= notations.len() {
        None
    } else {
        match notations[i].technical {
            Some(t) => if t.string is Some && t.fret is Some {
                Some((t.string->0.value as i8, t.fret->0.value as i16))
            } else {
                first_tab(notations, i + 1)
            },
            None => first_tab(notations, i + 1),
        }
    }
}

/// A note ends a tie when one of its ties is a `stop`.
pub open spec fn ends_tie(ties: Seq<Tie>) -> bool {
    exists|k: int| 0 <= k < ties.len() && ties[k].tie_type@ == "stop"@
}

/// Where a MusicXML note goes on the fretboard, as (string, fret, kind):
/// none for a rest; the string and fret that its notations give, else its
/// pitch placed on the strings (none when no string reaches it), else none.
/// A note that ends a tie is a tie note, any other a normal note.
pub open spec fn legacy_placement(n: XmlNote, strings: Seq<(i8, i8)>) -> Option<(i8, i16, LegacyNoteType)> {
    let kind = if ends_tie(n.ties@) {
        LegacyNoteType::Tie
    } else {
        LegacyNoteType::Normal
    };
    if n.rest is Some {
        None
    } else {
        match first_tab(n.notations@, 0) {
            Some(tab) => Some((tab.0, tab.1, kind)),
            None => match n.pitch {
                Some(p) => if exists|i: int| #[trigger] playable_on(strings, xml_midi(p), i) {
                    let k = choose|k: int| best_string(strings, xml_midi(p), k);
                    Some((strings[k].0, fret_on(strings, xml_midi(p), k) as i16, kind))
                } else {
                    None
                },
                None => None,
            },
        }
    }
}

/// A legacy note is the placement `p`, without effects.
pub open spec fn note_placed(n: LegacyNote, p: (i8, i16, LegacyNoteType)) -> bool {
    n.string == p.0 && n.value == p.1 && n.kind == p.2 && no_effect(n.effect)
}

/// Two strings that sound a pitch at the lowest fret, each first among
/// those, are the same string.
proof fn lemma_best_string_unique(strings: Seq<(i8, i8)>, midi: int, a: int, b: int)
    requires
        best_string(strings, midi, a),
        best_string(strings, midi, b),
    ensures
        a == b,
{
    assert(playable_on(strings, midi, a) && playable_on(strings, midi, b));
}

/// Whether some tie of the note stops.
fn ends_tie_exec(ties: &Vec<Tie>) -> (r: bool)
    ensures
        r == ends_tie(ties@),
{
    let mut i: usize = 0;
    while i < ties.len()
        invariant
            i <= ties@.len(),
            forall|k: int| 0 <= k < i ==> ties@[k].tie_type@ != "stop"@,
        decreases ties@.len() - i,
    {
        if str_eq(ties[i].tie_type.as_str(), "stop") {
            return true;
        }
        i += 1;
    }
    false
}

/// The string and fret the notations give.
fn tab_of(notations: &Vec<Notations>) -> (r: Option<(i8, i16)>)
    ensures
        r == first_tab(notations@, 0),
{
    let mut i: usize = 0;
    while i < notations.len()
        invariant
            i <= notations@.len(),
            first_tab(notations@, 0) == first_tab(notations@, i as int),
        decreases notations@.len() - i,
    {
        if let Some(tech) = &notations[i].technical {
            if let (Some(s), Some(f)) = (&tech.string, &tech.fret) {
                return Some((s.value as i8, f.value as i16));
            }
        }
        i += 1;
    }
    None
}

/// The legacy note of a MusicXML note, or `None` for a rest or a note that
/// has no place on the strings.
pub fn xml_note_to_legacy(note: &XmlNote, strings: &[(i8, i8)]) -> (r: Option<LegacyNote>)
    ensures
        match r {
            Some(n) => legacy_placement(*note, strings@) matches Some(p) && note_placed(n, p),
            None => legacy_placement(*note, strings@) is None,
        },
{
    if note.rest.is_some() {
        return None;
    }
    let kind = if ends_tie_exec(&note.ties) {
        LegacyNoteType::Tie
    } else {
        LegacyNoteType::Normal
    };
    let (string_num, fret_val) = match tab_of(&note.notations) {
        Some(tab) => tab,
        None => match &note.pitch {
            Some(pitch) => {
                let midi = xml_pitch_to_midi(pitch);
                match pitch_to_string_fret(midi, strings) {
                    Some(place) => {
                        proof {
                            let k = choose|k: int| #![trigger strings@[k]] best_string(strings@, midi as int, k)
                                && place.0 == strings@[k].0 && place.1 == fret_on(strings@, midi as int, k);
                            let c = choose|c: int| best_string(strings@, midi as int, c);
                            lemma_best_string_unique(strings@, midi as int, k, c);
                        }
                        place
                    },
                    None => {
                        return None;
                    },
                }
            },
            None => {
                return None;
            },
        },
    };
    let n = LegacyNote { value: fret_val, string: string_num, kind, ..LegacyNote::default() };
    Some(n)
}

/// The placements of the notes that have one, in order.
pub open spec fn placements(notes: Seq<XmlNote>, strings: Seq<(i8, i8)>) -> Seq<(i8, i16, LegacyNoteType)>
    decreases notes.len(),
{
    if notes.len() == 0 {
        Seq::empty()
    } else {
        let prev = placements(notes.drop_last(), strings);
        match legacy_placement(notes.last(), strings) {
            Some(p) => prev.push(p),
            None => prev,
        }
    }
}

/// `r` is the beat of the notes `xs` struck together: the first note's
/// duration; a rest when every note is a rest or none has a place on the
/// strings; else the placed notes, in order.
pub open spec fn beat_built(r: Beat, xs: Seq<XmlNote>, strings: Seq<(i8, i8)>, divisions: u32) -> bool {
    &&& r.duration == xml_duration(xs[0], divisions)
    &&& r.start is None
    &&& (forall|k: int| 0 <= k < xs.len() ==> (#[trigger] xs[k]).rest is Some) ==> (r.status == BeatStatus::Rest
        && r.notes@.len() == 0)
    &&& !(forall|k: int| 0 <= k < xs.len() ==> (#[trigger] xs[k]).rest is Some) ==> {
        let placed = placements(xs, strings);
        &&& r.notes@.len() == placed.len()
        &&& forall|k: int| 0 <= k < placed.len() ==> note_placed(#[trigger] r.notes@[k], placed[k])
        &&& r.status == if placed.len() == 0 {
            BeatStatus::Rest
        } else {
            BeatStatus::Normal
        }
    }
}

/// The beat of MusicXML notes struck together (a chord, or one note or
/// rest): the first note's duration; a rest when every note is a rest or
/// none has a place on the strings; else the placed notes, in order.
pub fn build_beat(notes: &[&XmlNote], strings: &[(i8, i8)], divisions: u32) -> (r: Beat)
    requires
        notes@.len() > 0,
    ensures
        beat_built(r, notes@.map_values(|n: &XmlNote| *n), strings@, divisions),
{
    let first = notes[0];
    let duration = xml_note_to_duration(first, divisions);
    let mut all_rests = true;
    let mut i: usize = 0;
    while i < notes.len()
        invariant
            i <= notes@.len(),
            all_rests == forall|k: int| 0 <= k < i ==> (#[trigger] notes@[k]).rest is Some,
        decreases notes@.len() - i,
    {
        if notes[i].rest.is_none() {
            all_rests = false;
        }
        i += 1;
    }
    let ghost xs = notes@.map_values(|n: &XmlNote| *n);
    assert(all_rests == forall|k: int| 0 <= k < xs.len() ==> (#[trigger] xs[k]).rest is Some) by {
        if !all_rests {
            let k = choose|k: int| 0 <= k < notes@.len() && !((#[trigger] notes@[k]).rest is Some);
            assert(xs[k] == *notes@[k]);
        }
    }
    if all_rests {
        return Beat { notes: Vec::new(), duration, status: BeatStatus::Rest, start: None };
    }
    let mut legacy_notes: Vec<LegacyNote> = Vec::new();
    let mut j: usize = 0;
    while j < notes.len()
        invariant
            j <= notes@.len(),
            xs == notes@.map_values(|n: &XmlNote| *n),
            legacy_notes@.len() == placements(xs.subrange(0, j as int), strings@).len(),
            forall|k: int| 0 <= k < legacy_notes@.len() ==> note_placed(
                #[trigger] legacy_notes@[k],
                placements(xs.subrange(0, j as int), strings@)[k],
            ),
        decreases notes@.len() - j,
    {
        let placed = xml_note_to_legacy(notes[j], strings);
        proof {
            let next = xs.subrange(0, j + 1);
            assert(next.drop_last() =~= xs.subrange(0, j as int));
            assert(next.last() == *notes@[j as int]);
        }
        match placed {
            Some(n) => {
                legacy_notes.push(n);
            },
            None => {},
        }
        j += 1;
    }
    assert(xs.subrange(0, notes@.len() as int) =~= xs);
    if legacy_notes.len() == 0 {
        return Beat { notes: legacy_notes, duration, status: BeatStatus::Rest, start: None };
    }
    Beat { notes: legacy_notes, duration, status: BeatStatus::Normal, start: None }
}

// ---------------------------------------------------------------------------
// Parts and tunings
// ---------------------------------------------------------------------------

/// Index of the part with id `id`, from `i` on; the number of parts when
/// there is none.
pub open spec fn part_index(parts: Seq<Part>, id: Seq<char>, i: int) -> int
    decreases parts.len() - i,
{
    if i < 0 || i >= parts.len() {
        parts.len() as int
    } else if parts[i].id@ == id {
        i
    } else {
        part_index(parts, id, i + 1)
    }
}

/// The index of the part of the first entry of the part list, when the
/// list has an entry and a part has its id.
pub open spec fn first_part_index(src: ScorePartwise) -> Option<int> {
    if src.part_list.items@.len() == 0 {
        None
    } else {
        match src.part_list.items@[0] {
            PartListItem::ScorePart(sp) => {
                let k = part_index(src.parts@, sp.id@, 0);
                if k < src.parts@.len() {
                    Some(k)
                } else {
                    None
                }
            },
        }
    }
}

/// The part of the first entry of the part list.
pub fn first_part(src: &ScorePartwise) -> (r: Option<&Part>)
    ensures
        match first_part_index(*src) {
            Some(k) => r == Some(&src.parts@[k]),
            None => r is None,
        },
{
    if src.part_list.items.len() == 0 {
        return None;
    }
    let first_id = match &src.part_list.items[0] {
        PartListItem::ScorePart(sp) => sp.id.as_str(),
    };
    let mut i: usize = 0;
    while i < src.parts.len()
        invariant
            i <= src.parts@.len(),
            src.part_list.items@.len() > 0,
            src.part_list.items@[0] matches PartListItem::ScorePart(sp) && first_id@ == sp.id@,
            part_index(src.parts@, first_id@, 0) == part_index(src.parts@, first_id@, i as int),
        decreases src.parts@.len() - i,
    {
        if str_eq(src.parts[i].id.as_str(), first_id) {
            return Some(&src.parts[i]);
        }
        i += 1;
    }
    None
}

/// MIDI number of a tuning pitch, clamped to the range of `i8`.
pub open spec fn tuning_midi(step: Seq<char>, alter: Option<i8>, octave: i8) -> i8 {
    let m = (octave + 1) * 12 + step_name_semitone(step) + match alter {
        Some(a) => a as int,
        None => 0,
    };
    if m < -128 {
        -128i8
    } else if m > 127 {
        127i8
    } else {
        m as i8
    }
}

/// The MIDI number of a tuning's step, alteration and octave.
pub fn pitch_step_to_midi(step: &str, alter: Option<i8>, octave: i8) -> (r: i8)
    ensures
        r == tuning_midi(step@, alter, octave),
{
    let base: i32 = if str_eq(step, "C") {
        0
    } else if str_eq(step, "D") {
        2
    } else if str_eq(step, "E") {
        4
    } else if str_eq(step, "F") {
        5
    } else if str_eq(step, "G") {
        7
    } else if str_eq(step, "A") {
        9
    } else if str_eq(step, "B") {
        11
    } else {
        0
    };
    let alt: i32 = match alter {
        Some(a) => a as i32,
        None => 0,
    };
    let m = (octave as i32 + 1) * 12 + base + alt;
    if m < -128 {
        -128
    } else if m > 127 {
        127
    } else {
        m as i8
    }
}

/// The first staff details, from entry `j` on, that tune some lines.
pub open spec fn tuned_details(sds: Seq<StaffDetails>, j: int) -> Option<Seq<StaffTuning>>
    decreases sds.len() - j,
{
    if j < 0 || j >= sds.len() {
        None
    } else if sds[j].staff_tunings@.len() > 0 {
        Some(sds[j].staff_tunings@)
    } else {
        tuned_details(sds, j + 1)
    }
}

/// The first tuning that the attributes of the music data, from element
/// `i` on, give.
pub open spec fn tuned_data(data: Seq<MusicData>, i: int) -> Option<Seq<StaffTuning>>
    decreases data.len() - i,
{
    if i < 0 || i >= data.len() {
        None
    } else {
        match data[i] {
            MusicData::Attributes(a) => match tuned_details(a.staff_details@, 0) {
                Some(t) => Some(t),
                None => tuned_data(data, i + 1),
            },
            _ => tuned_data(data, i + 1),
        }
    }
}

/// The tuning the first measure of a part gives.
pub open spec fn part_tuning(part: Option<Part>) -> Option<Seq<StaffTuning>> {
    match part {
        Some(p) => if p.measures@.len() > 0 {
            tuned_data(p.measures@[0].music_data@, 0)
        } else {
            None
        },
        None => None,
    }
}

/// A standard six-string guitar, string 1 the highest: E4 B3 G3 D3 A2 E2.
pub open spec fn standard_tuning() -> Seq<(i8, i8)> {
    seq![(1i8, 64i8), (2i8, 59i8), (3i8, 55i8), (4i8, 50i8), (5i8, 45i8), (6i8, 40i8)]
}

/// The strings of a part, string 1 the highest: the first tuning of its
/// first measure (given lowest line first), else a standard guitar.
pub open spec fn part_strings(part: Option<Part>) -> Seq<(i8, i8)> {
    match part_tuning(part) {
        Some(ts) => Seq::new(
            ts.len(),
            |i: int|
                (
                    (i + 1) as i8,
                    tuning_midi(
                        ts[ts.len() - 1 - i].tuning_step@,
                        ts[ts.len() - 1 - i].tuning_alter,
                        ts[ts.len() - 1 - i].tuning_octave,
                    ),
                ),
        ),
        None => standard_tuning(),
    }
}

/// The strings of the tuning lines, highest first.
fn strings_of(ts: &Vec<StaffTuning>) -> (r: Vec<(i8, i8)>)
    ensures
        r@ == Seq::new(
            ts@.len(),
            |i: int|
                (
                    (i + 1) as i8,
                    tuning_midi(
                        ts@[ts@.len() - 1 - i].tuning_step@,
                        ts@[ts@.len() - 1 - i].tuning_alter,
                        ts@[ts@.len() - 1 - i].tuning_octave,
                    ),
                ),
        ),
{
    let n = ts.len();
    let mut out: Vec<(i8, i8)> = Vec::new();
    let mut i: usize = 0;
    while i < n
        invariant
            n == ts@.len(),
            i <= n,
            out@.len() == i,
            forall|k: int|
                0 <= k < i ==> #[trigger] out@[k] == (
                    (k + 1) as i8,
                    tuning_midi(
                        ts@[n - 1 - k].tuning_step@,
                        ts@[n - 1 - k].tuning_alter,
                        ts@[n - 1 - k].tuning_octave,
                    ),
                ),
        decreases n - i,
    {
        let t = &ts[n - 1 - i];
        let midi = pitch_step_to_midi(t.tuning_step.as_str(), t.tuning_alter, t.tuning_octave);
        out.push(((i + 1) as i8, midi));
        i += 1;
    }
    assert(out@ =~= Seq::new(
        n as nat,
        |i: int|
            (
                (i + 1) as i8,
                tuning_midi(ts@[n - 1 - i].tuning_step@, ts@[n - 1 - i].tuning_alter, ts@[n - 1 - i].tuning_octave),
            ),
    ));
    out
}

/// The strings of a part: the tuning of its first measure's attributes,
/// string 1 the highest, or a standard guitar when it gives none.
pub fn extract_string_tunings(part: Option<&Part>) -> (r: Vec<(i8, i8)>)
    ensures
        r@ == part_strings(match part {
            Some(p) => Some(*p),
            None => None,
        }),
{
    if let Some(p) = part {
        if p.measures.len() > 0 {
            let data = &p.measures[0].music_data;
            let mut i: usize = 0;
            while i < data.len()
                invariant
                    part == Some(p),
                    p.measures@.len() > 0,
                    i <= data@.len(),
                    *data == p.measures@[0].music_data,
                    tuned_data(data@, 0) == tuned_data(data@, i as int),
                decreases data@.len() - i,
            {
                if let MusicData::Attributes(attr) = &data[i] {
                    let mut j: usize = 0;
                    while j < attr.staff_details.len()
                        invariant
                            part == Some(p),
                            p.measures@.len() > 0,
                            *data == p.measures@[0].music_data,
                            i < data@.len(),
                            data@[i as int] == MusicData::Attributes(*attr),
                            tuned_data(data@, 0) == tuned_data(data@, i as int),
                            j <= attr.staff_details@.len(),
                            tuned_details(attr.staff_details@, 0) == tuned_details(attr.staff_details@, j as int),
                        decreases attr.staff_details@.len() - j,
                    {
                        if attr.staff_details[j].staff_tunings.len() > 0 {
                            return strings_of(&attr.staff_details[j].staff_tunings);
                        }
                        j += 1;
                    }
                }
                i += 1;
            }
        }
    }
    let r = vec![(1i8, 64i8), (2, 59), (3, 55), (4, 50), (5, 45), (6, 40)];
    assert(r@ =~= standard_tuning());
    r
}

// ---------------------------------------------------------------------------
// Writing MusicXML and reading it back
// ---------------------------------------------------------------------------

/// A MIDI note from 0 to 127 that the MusicXML writer spells (sharp
/// spelling, octave `midi / 12 - 1`) reads back as the same MIDI note.
pub proof fn lemma_written_pitch_reads_back(midi: i8, p: XmlPitch)
    requires
        0 <= midi,
        p.step@ == sharp_spelling(midi as int % 12).0,
        p.alter == sharp_spelling(midi as int % 12).1,
        p.octave == div12_toward_zero(midi as int) - 1,
    ensures
        xml_midi(p) == midi,
{
    lemma_step_name_semitones();
    let m = midi as int;
    assert(m == (m / 12) * 12 + m % 12);
}

/// The semitones of the seven step names.
proof fn lemma_step_name_semitones()
    ensures
        step_name_semitone("C"@) == 0,
        step_name_semitone("D"@) == 2,
        step_name_semitone("E"@) == 4,
        step_name_semitone("F"@) == 5,
        step_name_semitone("G"@) == 7,
        step_name_semitone("A"@) == 9,
        step_name_semitone("B"@) == 11,
{
    reveal_strlit("C");
    reveal_strlit("D");
    reveal_strlit("E");
    reveal_strlit("F");
    reveal_strlit("G");
    reveal_strlit("A");
    reveal_strlit("B");
    assert("D"@[0] != "C"@[0]);
    assert("E"@[0] != "C"@[0] && "E"@[0] != "D"@[0]);
    assert("F"@[0] != "C"@[0] && "F"@[0] != "D"@[0] && "F"@[0] != "E"@[0]);
    assert("G"@[0] != "C"@[0] && "G"@[0] != "D"@[0] && "G"@[0] != "E"@[0] && "G"@[0] != "F"@[0]);
    assert("A"@[0] != "C"@[0] && "A"@[0] != "D"@[0] && "A"@[0] != "E"@[0] && "A"@[0] != "F"@[0] && "A"@[0]
        != "G"@[0]);
    assert("B"@[0] != "C"@[0] && "B"@[0] != "D"@[0] && "B"@[0] != "E"@[0] && "B"@[0] != "F"@[0] && "B"@[0]
        != "G"@[0] && "B"@[0] != "A"@[0]);
}

/// The duration that the MusicXML writer gives a note or rest (its note
/// type, dot and time modification) reads back as the legacy duration it
/// was written from, for every note value from a whole to a 128th.
pub proof fn lemma_written_duration_reads_back(
    n: XmlNote,
    d: LegacyDuration,
    divisions: u32,
    voice: Seq<char>,
    read_divisions: u32,
)
    requires
        is_note_value(d.value as int),
        timing_ok(n, divisions, note_type_of(d.value), d, voice),
    ensures
        xml_duration(n, read_divisions) == d,
{
}

// ---------------------------------------------------------------------------
// Song metadata
// ---------------------------------------------------------------------------

/// The value of the last creator of the given type, from the first `n`.
pub open spec fn last_creator(cs: Seq<Creator>, kind: Seq<char>, n: int) -> Option<Seq<char>>
    decreases n,
{
    if n <= 0 {
        None
    } else if cs[n - 1].creator_type is Some && cs[n - 1].creator_type->0@ == kind {
        Some(cs[n - 1].value@)
    } else {
        last_creator(cs, kind, n - 1)
    }
}

/// The value of the last field with the given name, from the first `n`.
pub open spec fn last_field(fs: Seq<MiscellaneousField>, name: Seq<char>, n: int) -> Option<Seq<char>>
    decreases n,
{
    if n <= 0 {
        None
    } else if fs[n - 1].name@ == name {
        Some(fs[n - 1].value@)
    } else {
        last_field(fs, name, n - 1)
    }
}

/// A field name that begins with `notice-`.
pub open spec fn is_notice(name: Seq<char>) -> bool {
    name.len() >= 7 && name.subrange(0, 7) == "notice-"@
}

/// The values of the notice fields among the first `n`, in order.
pub open spec fn notices(fs: Seq<MiscellaneousField>, n: int) -> Seq<Seq<char>>
    decreases n,
{
    if n <= 0 {
        Seq::empty()
    } else if is_notice(fs[n - 1].name@) {
        notices(fs, n - 1).push(fs[n - 1].value@)
    } else {
        notices(fs, n - 1)
    }
}

/// `v` if given, else `old`.
pub open spec fn or_keep(v: Option<Seq<char>>, old: Seq<char>) -> Seq<char> {
    match v {
        Some(x) => x,
        None => old,
    }
}

/// The song's title after reading the document: the work title when there
/// is one, then the movement title when the title is still empty.
pub open spec fn title_after(src: ScorePartwise, old: Seq<char>) -> Seq<char> {
    let t = match src.work {
        Some(w) => match w.work_title {
            Some(title) => title@,
            None => old,
        },
        None => old,
    };
    if t.len() == 0 && src.movement_title is Some {
        src.movement_title->0@
    } else {
        t
    }
}

/// `new` is `old` with the metadata of `src` read in: the title, and from
/// the identification the last composer (as artist), arranger (as author),
/// lyricist (as words) and transcriber (as writer), the first rights (as
/// copyright), the last `subtitle`, `album`, `date` and `instructions`
/// fields, and every `notice-…` field added to the notice.
pub open spec fn metadata_read(old: Song, new: Song, src: ScorePartwise) -> bool {
    &&& new == (Song {
        name: new.name,
        artist: new.artist,
        author: new.author,
        words: new.words,
        writer: new.writer,
        copyright: new.copyright,
        subtitle: new.subtitle,
        album: new.album,
        date: new.date,
        instructions: new.instructions,
        notice: new.notice,
        ..old
    })
    &&& new.name@ == title_after(src, old.name@)
    &&& match src.identification {
        None => {
            &&& new.artist@ == old.artist@
            &&& new.author@ == old.author@
            &&& new.words@ == old.words@
            &&& new.writer@ == old.writer@
            &&& new.copyright@ == old.copyright@
            &&& new.subtitle@ == old.subtitle@
            &&& new.album@ == old.album@
            &&& new.date@ == old.date@
            &&& new.instructions@ == old.instructions@
            &&& new.notice@.map_values(|s: String| s@) == old.notice@.map_values(|s: String| s@)
        },
        Some(id) => {
            let cs = id.creators@;
            let n = cs.len() as int;
            let fs = match id.miscellaneous {
                Some(m) => m.fields@,
                None => Seq::empty(),
            };
            let k = fs.len() as int;
            &&& new.artist@ == or_keep(last_creator(cs, "composer"@, n), old.artist@)
            &&& new.author@ == or_keep(last_creator(cs, "arranger"@, n), old.author@)
            &&& new.words@ == or_keep(last_creator(cs, "lyricist"@, n), old.words@)
            &&& new.writer@ == or_keep(last_creator(cs, "transcriber"@, n), old.writer@)
            &&& new.copyright@ == if id.rights@.len() > 0 {
                id.rights@[0].value@
            } else {
                old.copyright@
            }
            &&& new.subtitle@ == or_keep(last_field(fs, "subtitle"@, k), old.subtitle@)
            &&& new.album@ == or_keep(last_field(fs, "album"@, k), old.album@)
            &&& new.date@ == or_keep(last_field(fs, "date"@, k), old.date@)
            &&& new.instructions@ == or_keep(last_field(fs, "instructions"@, k), old.instructions@)
            &&& new.notice@.map_values(|s: String| s@) == old.notice@.map_values(|s: String| s@) + notices(fs, k)
        },
    }
}

/// Whether a field name begins with `notice-`.
fn starts_with_notice(name: &str) -> (r: bool)
    ensures
        r == is_notice(name@),
{
    if name.unicode_len() < 7 {
        return false;
    }
    str_eq(name.substring_char(0, 7), "notice-")
}

/// Read the document's title and identification into the song's metadata.
pub fn build_metadata(song: &mut Song, src: &ScorePartwise)
    ensures
        metadata_read(*old(song), *final(song), *src),
{
    if let Some(work) = &src.work {
        if let Some(title) = &work.work_title {
            song.name = title.clone();
        }
    }
    if song.name.unicode_len() == 0 {
        if let Some(mt) = &src.movement_title {
            song.name = mt.clone();
        }
    }
    let ident = match &src.identification {
        Some(i) => i,
        None => {
            return;
        },
    };
    let ghost start = *song;
    let n = ident.creators.len();
    let mut i: usize = 0;
    while i < n
        invariant
            n == ident.creators@.len(),
            i <= n,
            *song == (Song { artist: song.artist, author: song.author, words: song.words, writer: song.writer, ..start }),
            song.artist@ == or_keep(last_creator(ident.creators@, "composer"@, i as int), start.artist@),
            song.author@ == or_keep(last_creator(ident.creators@, "arranger"@, i as int), start.author@),
            song.words@ == or_keep(last_creator(ident.creators@, "lyricist"@, i as int), start.words@),
            song.writer@ == or_keep(last_creator(ident.creators@, "transcriber"@, i as int), start.writer@),
        decreases n - i,
    {
        let creator = &ident.creators[i];
        proof {
            reveal_strlit("composer");
            reveal_strlit("arranger");
            reveal_strlit("lyricist");
            reveal_strlit("transcriber");
            assert("composer"@[0] != "arranger"@[0] && "composer"@[0] != "lyricist"@[0] && "composer"@[0]
                != "transcriber"@[0]);
            assert("arranger"@[0] != "lyricist"@[0] && "arranger"@[0] != "transcriber"@[0]);
            assert("lyricist"@[0] != "transcriber"@[0]);
        }
        if let Some(kind) = &creator.creator_type {
            let k = kind.as_str();
            if str_eq(k, "composer") {
                song.artist = creator.value.clone();
            } else if str_eq(k, "arranger") {
                song.author = creator.value.clone();
            } else if str_eq(k, "lyricist") {
                song.words = creator.value.clone();
            } else if str_eq(k, "transcriber") {
                song.writer = creator.value.clone();
            }
        }
        i += 1;
    }
    if ident.rights.len() > 0 {
        song.copyright = ident.rights[0].value.clone();
    }
    let ghost mid = *song;
    if let Some(misc) = &ident.miscellaneous {
        let k = misc.fields.len();
        let mut j: usize = 0;
        while j < k
            invariant
                k == misc.fields@.len(),
                j <= k,
                *song == (Song {
                    subtitle: song.subtitle,
                    album: song.album,
                    date: song.date,
                    instructions: song.instructions,
                    notice: song.notice,
                    ..mid
                }),
                song.subtitle@ == or_keep(last_field(misc.fields@, "subtitle"@, j as int), mid.subtitle@),
                song.album@ == or_keep(last_field(misc.fields@, "album"@, j as int), mid.album@),
                song.date@ == or_keep(last_field(misc.fields@, "date"@, j as int), mid.date@),
                song.instructions@ == or_keep(
                    last_field(misc.fields@, "instructions"@, j as int),
                    mid.instructions@,
                ),
                song.notice@.map_values(|s: String| s@) == mid.notice@.map_values(|s: String| s@) + notices(
                    misc.fields@,
                    j as int,
                ),
            decreases k - j,
        {
            let field = &misc.fields[j];
            let name = field.name.as_str();
            proof {
                reveal_strlit("subtitle");
                reveal_strlit("album");
                reveal_strlit("date");
                reveal_strlit("instructions");
                reveal_strlit("notice-");
                assert("subtitle"@[0] != "album"@[0] && "subtitle"@[0] != "date"@[0] && "subtitle"@[0]
                    != "instructions"@[0]);
                assert("album"@[0] != "date"@[0] && "album"@[0] != "instructions"@[0]);
                assert("date"@[0] != "instructions"@[0]);
                assert(!is_notice("subtitle"@) && !is_notice("album"@) && !is_notice("date"@) && !is_notice(
                    "instructions"@,
                )) by {
                    assert("subtitle"@.subrange(0, 7)[0] != "notice-"@[0]);
                    assert("instructions"@.subrange(0, 7)[0] != "notice-"@[0]);
                }
            }
            let ghost before = song.notice@.map_values(|s: String| s@);
            if str_eq(name, "subtitle") {
                song.subtitle = field.value.clone();
            } else if str_eq(name, "album") {
                song.album = field.value.clone();
            } else if str_eq(name, "date") {
                song.date = field.value.clone();
            } else if str_eq(name, "instructions") {
                song.instructions = field.value.clone();
            } else if starts_with_notice(name) {
                song.notice.push(field.value.clone());
                assert(song.notice@.map_values(|s: String| s@) =~= before.push(field.value@));
            }
            j += 1;
        }
    }
    proof {
        assert(mid.notice@.map_values(|s: String| s@) + notices(Seq::<MiscellaneousField>::empty(), 0)
            =~= mid.notice@.map_values(|s: String| s@));
    }
}

} // verus!
