//! Pitch and duration helpers of the MusicXML conversion.

use vstd::prelude::*;

use crate::convert::musicxml::DIVISIONS;
use crate::model::legacy::Duration;
use crate::model::musicxml::NoteTypeValue;

verus! {

/// Step letter and sharp of a pitch class, sharps for accidentals.
pub open spec fn sharp_spelling(pc: int) -> (Seq<char>, Option<i8>) {
    if pc == 0 { ("C"@, None) }
    else if pc == 1 { ("C"@, Some(1i8)) }
    else if pc == 2 { ("D"@, None) }
    else if pc == 3 { ("D"@, Some(1i8)) }
    else if pc == 4 { ("E"@, None) }
    else if pc == 5 { ("F"@, None) }
    else if pc == 6 { ("F"@, Some(1i8)) }
    else if pc == 7 { ("G"@, None) }
    else if pc == 8 { ("G"@, Some(1i8)) }
    else if pc == 9 { ("A"@, None) }
    else if pc == 10 { ("A"@, Some(1i8)) }
    else { ("B"@, None) }
}

/// `m / 12` rounded toward zero.
pub open spec fn div12_toward_zero(m: int) -> int {
    if m >= 0 {
        m / 12
    } else {
        -((-m) / 12)
    }
}

/// Convert a MIDI note number to a MusicXML pitch `(step, alter, octave)`.
///
/// Uses sharps for accidentals (alter = 1).  MIDI 60 = C4 (middle C); the
/// octave is `midi / 12 - 1` with the division rounded toward zero.
pub fn midi_to_pitch(midi: i8) -> (r: (String, Option<i8>, i8))
    ensures
        r.0@ == sharp_spelling(midi as int % 12).0,
        r.1 == sharp_spelling(midi as int % 12).1,
        r.2 == div12_toward_zero(midi as int) - 1,
{
    let m: i32 = midi as i32;
    let pitch_class: i32 = (m + 132) % 12;
    let octave: i8 = if m >= 0 {
        (m / 12 - 1) as i8
    } else {
        (-((-m) / 12) - 1) as i8
    };
    let (step, alter): (&str, Option<i8>) = if pitch_class == 0 { ("C", None) }
    else if pitch_class == 1 { ("C", Some(1)) }
    else if pitch_class == 2 { ("D", None) }
    else if pitch_class == 3 { ("D", Some(1)) }
    else if pitch_class == 4 { ("E", None) }
    else if pitch_class == 5 { ("F", None) }
    else if pitch_class == 6 { ("F", Some(1)) }
    else if pitch_class == 7 { ("G", None) }
    else if pitch_class == 8 { ("G", Some(1)) }
    else if pitch_class == 9 { ("A", None) }
    else if pitch_class == 10 { ("A", Some(1)) }
    else { ("B", None) };
    (String::from_str(step), alter, octave)
}

/// Ticks of a legacy duration: the note value's share of a whole note,
/// times 3/2 when dotted, then times `tuplet_times / tuplet_enters` unless
/// the tuplet is 1:1; each division rounds down.
pub open spec fn divisions_of(d: Duration) -> int {
    let base = (DIVISIONS * 4) as int / d.value as int;
    let dotted = if d.dotted {
        base + base / 2
    } else {
        base
    };
    if d.tuplet_enters != 1 || d.tuplet_times != 1 {
        dotted * d.tuplet_times / d.tuplet_enters as int
    } else {
        dotted
    }
}

/// Convert a legacy [`Duration`] to MusicXML `<divisions>` ticks, in units
/// of [`DIVISIONS`] per quarter note, with dot and tuplet applied.
pub fn duration_to_divisions(d: &Duration) -> (r: u32)
    requires
        d.value != 0,
        d.tuplet_enters != 1 || d.tuplet_times != 1 ==> d.tuplet_enters != 0,
    ensures
        r == divisions_of(*d),
{
    let base = (DIVISIONS * 4) / d.value as u32;
    let dotted = if d.dotted {
        base + base / 2
    } else {
        base
    };
    if d.tuplet_enters != 1 || d.tuplet_times != 1 {
        proof {
            assert(dotted <= 5760);
            assert(dotted * d.tuplet_times <= 5760 * 255) by (nonlinear_arith)
                requires
                    dotted <= 5760,
                    d.tuplet_times <= 255,
            ;
        }
        dotted * d.tuplet_times as u32 / d.tuplet_enters as u32
    } else {
        dotted
    }
}

/// The note type of a legacy note value; unknown values give a quarter.
pub open spec fn note_type_of(value: u16) -> NoteTypeValue {
    if value == 1 { NoteTypeValue::Whole }
    else if value == 2 { NoteTypeValue::Half }
    else if value == 4 { NoteTypeValue::Quarter }
    else if value == 8 { NoteTypeValue::Eighth }
    else if value == 16 { NoteTypeValue::N16th }
    else if value == 32 { NoteTypeValue::N32nd }
    else if value == 64 { NoteTypeValue::N64th }
    else if value == 128 { NoteTypeValue::N128th }
    else { NoteTypeValue::Quarter }
}

/// Convert a legacy [`Duration`] value to the MusicXML note type.
pub fn duration_to_note_type(d: &Duration) -> (r: NoteTypeValue)
    ensures
        r == note_type_of(d.value),
{
    match d.value {
        1 => NoteTypeValue::Whole,
        2 => NoteTypeValue::Half,
        4 => NoteTypeValue::Quarter,
        8 => NoteTypeValue::Eighth,
        16 => NoteTypeValue::N16th,
        32 => NoteTypeValue::N32nd,
        64 => NoteTypeValue::N64th,
        128 => NoteTypeValue::N128th,
        _ => NoteTypeValue::Quarter,
    }
}

} // verus!
