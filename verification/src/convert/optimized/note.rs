//! Notes read from MusicXML into the optimized model: pitches, durations,
//! tablature positions, ties and fingerings.

use vstd::prelude::*;

use crate::convert::musicxml::from_optimized::type_of_value;
use crate::model::musicxml::{Note as XmlNote, NoteTypeValue, Notations, Pitch as XmlPitch, Tie};
use crate::model::{Duration, Finger, NoteValue, Pitch, PitchStep, TieType, Tuplet};
use crate::text::{str_eq, trim, trimmed};

verus! {

/// The finger a fingering text names: `0` or `T` the thumb, `1` to `4`
/// the fingers (`5` the little finger too), `O` or `o` an open string.
pub open spec fn finger_named(t: Seq<char>) -> Option<Finger> {
    if t == "0"@ || t == "T"@ {
        Some(Finger::Thumb)
    } else if t == "1"@ {
        Some(Finger::Index)
    } else if t == "2"@ {
        Some(Finger::Middle)
    } else if t == "3"@ {
        Some(Finger::Ring)
    } else if t == "4"@ || t == "5"@ {
        Some(Finger::Pinky)
    } else if t == "O"@ || t == "o"@ {
        Some(Finger::Open)
    } else {
        None
    }
}

/// Read a fingering text, surrounding whitespace ignored.
pub fn parse_finger(s: &str) -> (r: Option<Finger>)
    ensures
        r == finger_named(trimmed(s@)),
{
    let t = trim(s);
    if str_eq(t, "0") || str_eq(t, "T") {
        Some(Finger::Thumb)
    } else if str_eq(t, "1") {
        Some(Finger::Index)
    } else if str_eq(t, "2") {
        Some(Finger::Middle)
    } else if str_eq(t, "3") {
        Some(Finger::Ring)
    } else if str_eq(t, "4") || str_eq(t, "5") {
        Some(Finger::Pinky)
    } else if str_eq(t, "O") || str_eq(t, "o") {
        Some(Finger::Open)
    } else {
        None
    }
}

// ---------------------------------------------------------------------------
// Pitch
// ---------------------------------------------------------------------------

/// The step a step name stands for; C for a name that is no step.
pub open spec fn step_named(step: Seq<char>) -> PitchStep {
    if step == "C"@ {
        PitchStep::C
    } else if step == "D"@ {
        PitchStep::D
    } else if step == "E"@ {
        PitchStep::E
    } else if step == "F"@ {
        PitchStep::F
    } else if step == "G"@ {
        PitchStep::G
    } else if step == "A"@ {
        PitchStep::A
    } else if step == "B"@ {
        PitchStep::B
    } else {
        PitchStep::C
    }
}

/// The step a step name stands for.
fn step_from_name(step: &str) -> (r: PitchStep)
    ensures
        r == step_named(step@),
{
    if str_eq(step, "C") {
        PitchStep::C
    } else if str_eq(step, "D") {
        PitchStep::D
    } else if str_eq(step, "E") {
        PitchStep::E
    } else if str_eq(step, "F") {
        PitchStep::F
    } else if str_eq(step, "G") {
        PitchStep::G
    } else if str_eq(step, "A") {
        PitchStep::A
    } else if str_eq(step, "B") {
        PitchStep::B
    } else {
        PitchStep::C
    }
}

/// A pitch from a step name, an alteration (none: 0) and an octave (its
/// byte read unsigned).
pub open spec fn pitch_from(step: Seq<char>, alter: Option<i8>, octave: i8) -> Pitch {
    Pitch {
        step: step_named(step),
        alter: match alter {
            Some(a) => a,
            None => 0,
        },
        octave: octave as u8,
    }
}

/// The score pitch of a MusicXML pitch.
pub fn convert_pitch(p: &XmlPitch) -> (r: Pitch)
    ensures
        r == pitch_from(p.step@, p.alter, p.octave),
{
    let alter: i8 = match p.alter {
        Some(a) => a,
        None => 0,
    };
    Pitch { step: step_from_name(p.step.as_str()), alter, octave: p.octave as u8 }
}

/// The pitch of a step name, alteration and octave.
pub fn pitch_from_step_alter_octave(step: &str, alter: Option<i8>, octave: i8) -> (r: Pitch)
    ensures
        r == pitch_from(step@, alter, octave),
{
    let a: i8 = match alter {
        Some(a) => a,
        None => 0,
    };
    Pitch { step: step_from_name(step), alter: a, octave: octave as u8 }
}

// ---------------------------------------------------------------------------
// Duration
// ---------------------------------------------------------------------------

/// The note value of a MusicXML note type; a 128th is read as a 64th.
pub open spec fn type_note_value(t: NoteTypeValue) -> NoteValue {
    match t {
        NoteTypeValue::N128th => NoteValue::SixtyFourth,
        NoteTypeValue::N64th => NoteValue::SixtyFourth,
        NoteTypeValue::N32nd => NoteValue::ThirtySecond,
        NoteTypeValue::N16th => NoteValue::Sixteenth,
        NoteTypeValue::Eighth => NoteValue::Eighth,
        NoteTypeValue::Quarter => NoteValue::Quarter,
        NoteTypeValue::Half => NoteValue::Half,
        NoteTypeValue::Whole => NoteValue::Whole,
    }
}

/// The note value of a note type.
pub fn convert_note_type(t: NoteTypeValue) -> (r: NoteValue)
    ensures
        r == type_note_value(t),
{
    match t {
        NoteTypeValue::N64th => NoteValue::SixtyFourth,
        NoteTypeValue::N32nd => NoteValue::ThirtySecond,
        NoteTypeValue::N16th => NoteValue::Sixteenth,
        NoteTypeValue::Eighth => NoteValue::Eighth,
        NoteTypeValue::Quarter => NoteValue::Quarter,
        NoteTypeValue::Half => NoteValue::Half,
        NoteTypeValue::Whole => NoteValue::Whole,
        NoteTypeValue::N128th => NoteValue::SixtyFourth,
    }
}

/// The duration of a MusicXML note: its type's value (a quarter without
/// one), at most two dots, and its time modification as the tuplet.
pub open spec fn xml_note_duration(n: XmlNote) -> Duration {
    Duration {
        base: match n.note_type {
            Some(t) => type_note_value(t.value),
            None => NoteValue::Quarter,
        },
        dots: if n.dots@.len() < 2 {
            n.dots@.len() as u8
        } else {
            2
        },
        tuplet: match n.time_modification {
            Some(tm) => Some(Tuplet { actual: tm.actual_notes, normal: tm.normal_notes }),
            None => None,
        },
    }
}

/// The duration of a note.
pub fn note_duration(n: &XmlNote) -> (r: Duration)
    ensures
        r == xml_note_duration(*n),
{
    let base = match &n.note_type {
        Some(t) => convert_note_type(t.value),
        None => NoteValue::Quarter,
    };
    let dots: u8 = if n.dots.len() < 2 {
        n.dots.len() as u8
    } else {
        2
    };
    let tuplet = match n.time_modification {
        Some(tm) => Some(Tuplet { actual: tm.actual_notes, normal: tm.normal_notes }),
        None => None,
    };
    Duration { base, dots, tuplet }
}

// ---------------------------------------------------------------------------
// Tablature and ties
// ---------------------------------------------------------------------------

/// Index of the first notations entry from `i` on with a technical block;
/// the number of entries when there is none.
pub open spec fn first_technical(ns: Seq<Notations>, i: int) -> int
    decreases ns.len() - i,
{
    if i < 0 || i >= ns.len() {
        ns.len() as int
    } else if ns[i].technical is Some {
        i
    } else {
        first_technical(ns, i + 1)
    }
}

/// The (string, fret) of a note: from the first technical block of its
/// notations, each when that block has it.
pub open spec fn tab_position(n: XmlNote) -> (Option<u8>, Option<u8>) {
    let k = first_technical(n.notations@, 0);
    if k < n.notations@.len() {
        let t = n.notations@[k].technical->0;
        (
            match t.string {
                Some(s) => Some(s.value),
                None => None,
            },
            match t.fret {
                Some(f) => Some(f.value),
                None => None,
            },
        )
    } else {
        (None, None)
    }
}

/// The string and fret of a note.
pub fn note_tab(n: &XmlNote) -> (r: (Option<u8>, Option<u8>))
    ensures
        r == tab_position(*n),
{
    let mut i: usize = 0;
    while i < n.notations.len()
        invariant
            i <= n.notations@.len(),
            first_technical(n.notations@, 0) == first_technical(n.notations@, i as int),
        decreases n.notations@.len() - i,
    {
        if let Some(t) = &n.notations[i].technical {
            let string = match t.string {
                Some(s) => Some(s.value),
                None => None,
            };
            let fret = match t.fret {
                Some(f) => Some(f.value),
                None => None,
            };
            return (string, fret);
        }
        i += 1;
    }
    (None, None)
}

/// The tie role of a note: from its first tie, `start` or `stop`; none for
/// any other text or without ties.
pub open spec fn tie_role(ties: Seq<Tie>) -> Option<TieType> {
    if ties.len() == 0 {
        None
    } else if ties[0].tie_type@ == "start"@ {
        Some(TieType::Start)
    } else if ties[0].tie_type@ == "stop"@ {
        Some(TieType::End)
    } else {
        None
    }
}

/// The tie role of a note.
pub fn note_tie(n: &XmlNote) -> (r: Option<TieType>)
    ensures
        r == tie_role(n.ties@),
{
    if n.ties.len() == 0 {
        return None;
    }
    let t = n.ties[0].tie_type.as_str();
    if str_eq(t, "start") {
        Some(TieType::Start)
    } else if str_eq(t, "stop") {
        Some(TieType::End)
    } else {
        None
    }
}

/// A note value from a whole to a 64th, written as a MusicXML note type
/// and read back, is the same value.
pub proof fn lemma_note_type_round_trip(v: NoteValue)
    requires
        !(v is Other),
        v != NoteValue::HundredTwentyEighth,
    ensures
        type_note_value(type_of_value(v)) == v,
{
}

} // verus!
