//! Helpers of the conversion from the optimized model to MusicXML: pitch,
//! duration, clef and key.
//!
//! Durations are emitted at a fixed [`DIVISIONS`] per quarter note, so
//! converting a document `musicxml -> optimized -> musicxml` twice yields
//! the same divisions and note durations.

use vstd::prelude::*;

use crate::convert::optimized::timeline::{key_sig_from_fifths, key_signature_for};
use crate::model::musicxml::{self as mx, NoteTypeValue, TimeModification};
use crate::model::{Clef as OptClef, Duration, KeySignature, Mode, NoteValue, Pitch, PitchStep};

verus! {

/// Divisions per quarter note emitted throughout the document.
pub const DIVISIONS: u32 = 480;

/// Letter of a step.
pub open spec fn step_letter(s: PitchStep) -> Seq<char> {
    match s {
        PitchStep::C => "C"@,
        PitchStep::D => "D"@,
        PitchStep::E => "E"@,
        PitchStep::F => "F"@,
        PitchStep::G => "G"@,
        PitchStep::A => "A"@,
        PitchStep::B => "B"@,
    }
}

/// A MusicXML pitch from an optimized one; a zero alteration is omitted.
pub fn pitch_out(pitch: &Pitch) -> (r: mx::Pitch)
    ensures
        r.step@ == step_letter(pitch.step),
        r.alter == if pitch.alter != 0 {
            Some(pitch.alter)
        } else {
            None
        },
        r.octave == pitch.octave as i8,
{
    let step = match pitch.step {
        PitchStep::C => "C",
        PitchStep::D => "D",
        PitchStep::E => "E",
        PitchStep::F => "F",
        PitchStep::G => "G",
        PitchStep::A => "A",
        PitchStep::B => "B",
    };
    mx::Pitch {
        step: String::from_str(step),
        alter: if pitch.alter != 0 {
            Some(pitch.alter)
        } else {
            None
        },
        octave: pitch.octave as i8,
    }
}

/// Note-value denominator: whole 1, half 2, quarter 4, …; another value
/// gives its own number, at least 1.
pub open spec fn value_number(v: NoteValue) -> int {
    match v {
        NoteValue::Whole => 1,
        NoteValue::Half => 2,
        NoteValue::Quarter => 4,
        NoteValue::Eighth => 8,
        NoteValue::Sixteenth => 16,
        NoteValue::ThirtySecond => 32,
        NoteValue::SixtyFourth => 64,
        NoteValue::HundredTwentyEighth => 128,
        NoteValue::Other(n) => if n == 0 {
            1
        } else {
            n as int
        },
    }
}

/// Note-value denominator.
pub fn note_value_number(value: NoteValue) -> (r: u32)
    ensures
        r == value_number(value),
        r >= 1,
{
    match value {
        NoteValue::Whole => 1,
        NoteValue::Half => 2,
        NoteValue::Quarter => 4,
        NoteValue::Eighth => 8,
        NoteValue::Sixteenth => 16,
        NoteValue::ThirtySecond => 32,
        NoteValue::SixtyFourth => 64,
        NoteValue::HundredTwentyEighth => 128,
        NoteValue::Other(n) => if n == 0 {
            1
        } else {
            n as u32
        },
    }
}

/// Ticks after `k` more dots: each dot adds half of the previous increment,
/// rounded down.
pub open spec fn dotted_ticks(ticks: int, increment: int, k: nat) -> int
    decreases k,
{
    if k == 0 {
        ticks
    } else {
        dotted_ticks(ticks + increment / 2, increment / 2, (k - 1) as nat)
    }
}

/// Duration in divisions: the value's share of a whole note, plus its dots,
/// then scaled by `normal / actual` for a tuplet with `actual > 0`.
pub open spec fn divisions_of(d: Duration) -> int {
    let base = (DIVISIONS * 4) as int / value_number(d.base);
    let ticks = dotted_ticks(base, base, d.dots as nat);
    match d.tuplet {
        Some(t) => if t.actual > 0 {
            ticks * t.normal / t.actual as int
        } else {
            ticks
        },
        None => ticks,
    }
}

proof fn lemma_dotted_bound(ticks: int, increment: int, k: nat)
    requires
        0 <= increment,
        ticks + increment <= 2 * 1920,
    ensures
        0 <= ticks ==> 0 <= dotted_ticks(ticks, increment, k) <= 2 * 1920,
    decreases k,
{
    if k > 0 {
        lemma_dotted_bound(ticks + increment / 2, increment / 2, (k - 1) as nat);
    }
}

/// Duration in `<divisions>` ticks, applying dots and tuplet scaling.
pub fn duration_divisions(duration: &Duration) -> (r: u32)
    ensures
        r == divisions_of(*duration),
{
    let base = (DIVISIONS * 4) / note_value_number(duration.base);
    let mut ticks = base;
    let mut increment = base;
    let mut k: u8 = 0;
    proof {
        lemma_dotted_bound(base as int, base as int, duration.dots as nat);
    }
    while k < duration.dots
        invariant
            k <= duration.dots,
            base <= 1920,
            increment <= base,
            ticks + increment <= 2 * 1920,
            dotted_ticks(ticks as int, increment as int, (duration.dots - k) as nat)
                == dotted_ticks(base as int, base as int, duration.dots as nat),
        decreases duration.dots - k,
    {
        increment = increment / 2;
        ticks = ticks + increment;
        k += 1;
    }
    proof {
        lemma_dotted_bound(base as int, base as int, duration.dots as nat);
    }
    match duration.tuplet {
        Some(t) => {
            if t.actual > 0 {
                proof {
                    assert(ticks * t.normal <= 3840 * 255) by (nonlinear_arith)
                        requires
                            ticks <= 3840,
                            t.normal <= 255,
                    ;
                }
                ticks * t.normal as u32 / t.actual as u32
            } else {
                ticks
            }
        },
        None => ticks,
    }
}

/// MusicXML note type of a note value; another value gives a quarter.
pub open spec fn type_of_value(v: NoteValue) -> NoteTypeValue {
    match v {
        NoteValue::Whole => NoteTypeValue::Whole,
        NoteValue::Half => NoteTypeValue::Half,
        NoteValue::Quarter => NoteTypeValue::Quarter,
        NoteValue::Eighth => NoteTypeValue::Eighth,
        NoteValue::Sixteenth => NoteTypeValue::N16th,
        NoteValue::ThirtySecond => NoteTypeValue::N32nd,
        NoteValue::SixtyFourth => NoteTypeValue::N64th,
        NoteValue::HundredTwentyEighth => NoteTypeValue::N128th,
        NoteValue::Other(_) => NoteTypeValue::Quarter,
    }
}

/// MusicXML note type of a note value.
pub fn note_value_to_type(value: NoteValue) -> (r: NoteTypeValue)
    ensures
        r == type_of_value(value),
{
    match value {
        NoteValue::Whole => NoteTypeValue::Whole,
        NoteValue::Half => NoteTypeValue::Half,
        NoteValue::Quarter => NoteTypeValue::Quarter,
        NoteValue::Eighth => NoteTypeValue::Eighth,
        NoteValue::Sixteenth => NoteTypeValue::N16th,
        NoteValue::ThirtySecond => NoteTypeValue::N32nd,
        NoteValue::SixtyFourth => NoteTypeValue::N64th,
        NoteValue::HundredTwentyEighth => NoteTypeValue::N128th,
        NoteValue::Other(_) => NoteTypeValue::Quarter,
    }
}

/// The `<time-modification>` of a duration: its tuplet, if any.
pub fn build_time_modification(duration: &Duration) -> (r: Option<TimeModification>)
    ensures
        r == match duration.tuplet {
            Some(t) => Some(
                TimeModification {
                    actual_notes: t.actual,
                    normal_notes: t.normal,
                    normal_type: None,
                    normal_dots: 0,
                },
            ),
            None => None,
        },
{
    match duration.tuplet {
        Some(t) => Some(
            TimeModification {
                actual_notes: t.actual,
                normal_notes: t.normal,
                normal_type: None,
                normal_dots: 0,
            },
        ),
        None => None,
    }
}

/// MusicXML text of a mode.
pub open spec fn mode_text(mode: Mode) -> Seq<char> {
    match mode {
        Mode::Major => "major"@,
        Mode::Minor => "minor"@,
        Mode::Dorian => "dorian"@,
        Mode::Phrygian => "phrygian"@,
        Mode::Lydian => "lydian"@,
        Mode::Mixolydian => "mixolydian"@,
        Mode::Locrian => "locrian"@,
    }
}

/// MusicXML text of a mode.
pub fn mode_str(mode: Mode) -> (r: &'static str)
    ensures
        r@ == mode_text(mode),
{
    match mode {
        Mode::Major => "major",
        Mode::Minor => "minor",
        Mode::Dorian => "dorian",
        Mode::Phrygian => "phrygian",
        Mode::Lydian => "lydian",
        Mode::Mixolydian => "mixolydian",
        Mode::Locrian => "locrian",
    }
}

/// The first fifths count from `from` up to 7 whose key signature, in the
/// key's own mode, is `key_sig`; 0 when there is none.
pub open spec fn fifths_search(key_sig: KeySignature, from: int) -> i8
    decreases 8 - from,
{
    if from > 7 {
        0
    } else if key_signature_for(from as i8, Some(mode_text(key_sig.mode))) == key_sig {
        from as i8
    } else {
        fifths_search(key_sig, from + 1)
    }
}

/// Inverse of [`key_sig_from_fifths`]: the first fifths count in -7..=7
/// that reproduces this key signature, 0 if none does.
pub fn fifths_from_key_sig(key_sig: &KeySignature) -> (r: i8)
    ensures
        r == fifths_search(*key_sig, -7),
{
    let mode = mode_str(key_sig.mode);
    let mut f: i8 = -7;
    while f <= 7
        invariant
            -7 <= f <= 8,
            mode@ == mode_text(key_sig.mode),
            fifths_search(*key_sig, -7) == fifths_search(*key_sig, f as int),
        decreases 8 - f,
    {
        let ks = key_sig_from_fifths(f, Some(mode));
        if ks == *key_sig {
            return f;
        }
        f += 1;
    }
    0
}

/// A MusicXML clef from an optimized one; `number` is the staff number.
pub fn make_clef(clef: OptClef, number: Option<u8>) -> (r: mx::Clef)
    ensures
        r.number == number,
        r.sign@ == match clef {
            OptClef::Treble => "G"@,
            OptClef::Bass => "F"@,
            OptClef::Alto | OptClef::Tenor => "C"@,
            OptClef::Percussion => "percussion"@,
            OptClef::Tab => "TAB"@,
        },
        r.line == match clef {
            OptClef::Treble => Some(2u8),
            OptClef::Bass => Some(4u8),
            OptClef::Alto => Some(3u8),
            OptClef::Tenor => Some(4u8),
            _ => None,
        },
        r.additional is None,
        r.size is None,
        r.after_barline is None,
        r.print_object is None,
        r.clef_octave_change is None,
{
    let (sign, line): (&str, Option<u8>) = match clef {
        OptClef::Treble => ("G", Some(2)),
        OptClef::Bass => ("F", Some(4)),
        OptClef::Alto => ("C", Some(3)),
        OptClef::Tenor => ("C", Some(4)),
        OptClef::Percussion => ("percussion", None),
        OptClef::Tab => ("TAB", None),
    };
    mx::Clef {
        number,
        additional: None,
        size: None,
        after_barline: None,
        print_object: None,
        sign: String::from_str(sign),
        line,
        clef_octave_change: None,
    }
}

proof fn lemma_mode_text_named(m: Mode)
    ensures
        crate::convert::optimized::timeline::mode_named(Some(mode_text(m))) == m,
{
    reveal_strlit("major");
    reveal_strlit("minor");
    reveal_strlit("aeolian");
    reveal_strlit("dorian");
    reveal_strlit("phrygian");
    reveal_strlit("lydian");
    reveal_strlit("mixolydian");
    reveal_strlit("locrian");
    match m {
        Mode::Major => {
            assert("major"@[1] != "minor"@[1]);
            assert("major"@ != "minor"@);
            assert("major"@.len() != "aeolian"@.len());
            assert("major"@ != "aeolian"@);
            assert("major"@.len() != "dorian"@.len());
            assert("major"@ != "dorian"@);
            assert("major"@.len() != "phrygian"@.len());
            assert("major"@ != "phrygian"@);
            assert("major"@.len() != "lydian"@.len());
            assert("major"@ != "lydian"@);
            assert("major"@.len() != "mixolydian"@.len());
            assert("major"@ != "mixolydian"@);
            assert("major"@.len() != "locrian"@.len());
            assert("major"@ != "locrian"@);
            assert(crate::convert::optimized::timeline::mode_named(Some("major"@)) == Mode::Major);
        },
        Mode::Minor => {
            assert("minor"@[1] != "major"@[1]);
            assert("minor"@ != "major"@);
            assert("minor"@.len() != "aeolian"@.len());
            assert("minor"@ != "aeolian"@);
            assert("minor"@.len() != "dorian"@.len());
            assert("minor"@ != "dorian"@);
            assert("minor"@.len() != "phrygian"@.len());
            assert("minor"@ != "phrygian"@);
            assert("minor"@.len() != "lydian"@.len());
            assert("minor"@ != "lydian"@);
            assert("minor"@.len() != "mixolydian"@.len());
            assert("minor"@ != "mixolydian"@);
            assert("minor"@.len() != "locrian"@.len());
            assert("minor"@ != "locrian"@);
            assert(crate::convert::optimized::timeline::mode_named(Some("minor"@)) == Mode::Minor);
        },
        Mode::Dorian => {
            assert("dorian"@.len() != "major"@.len());
            assert("dorian"@ != "major"@);
            assert("dorian"@.len() != "minor"@.len());
            assert("dorian"@ != "minor"@);
            assert("dorian"@.len() != "aeolian"@.len());
            assert("dorian"@ != "aeolian"@);
            assert("dorian"@.len() != "phrygian"@.len());
            assert("dorian"@ != "phrygian"@);
            assert("dorian"@[0] != "lydian"@[0]);
            assert("dorian"@ != "lydian"@);
            assert("dorian"@.len() != "mixolydian"@.len());
            assert("dorian"@ != "mixolydian"@);
            assert("dorian"@.len() != "locrian"@.len());
            assert("dorian"@ != "locrian"@);
            assert(crate::convert::optimized::timeline::mode_named(Some("dorian"@)) == Mode::Dorian);
        },
        Mode::Phrygian => {
            assert("phrygian"@.len() != "major"@.len());
            assert("phrygian"@ != "major"@);
            assert("phrygian"@.len() != "minor"@.len());
            assert("phrygian"@ != "minor"@);
            assert("phrygian"@.len() != "aeolian"@.len());
            assert("phrygian"@ != "aeolian"@);
            assert("phrygian"@.len() != "dorian"@.len());
            assert("phrygian"@ != "dorian"@);
            assert("phrygian"@.len() != "lydian"@.len());
            assert("phrygian"@ != "lydian"@);
            assert("phrygian"@.len() != "mixolydian"@.len());
            assert("phrygian"@ != "mixolydian"@);
            assert("phrygian"@.len() != "locrian"@.len());
            assert("phrygian"@ != "locrian"@);
            assert(crate::convert::optimized::timeline::mode_named(Some("phrygian"@)) == Mode::Phrygian);
        },
        Mode::Lydian => {
            assert("lydian"@.len() != "major"@.len());
            assert("lydian"@ != "major"@);
            assert("lydian"@.len() != "minor"@.len());
            assert("lydian"@ != "minor"@);
            assert("lydian"@.len() != "aeolian"@.len());
            assert("lydian"@ != "aeolian"@);
            assert("lydian"@[0] != "dorian"@[0]);
            assert("lydian"@ != "dorian"@);
            assert("lydian"@.len() != "phrygian"@.len());
            assert("lydian"@ != "phrygian"@);
            assert("lydian"@.len() != "mixolydian"@.len());
            assert("lydian"@ != "mixolydian"@);
            assert("lydian"@.len() != "locrian"@.len());
            assert("lydian"@ != "locrian"@);
            assert(crate::convert::optimized::timeline::mode_named(Some("lydian"@)) == Mode::Lydian);
        },
        Mode::Mixolydian => {
            assert("mixolydian"@.len() != "major"@.len());
            assert("mixolydian"@ != "major"@);
            assert("mixolydian"@.len() != "minor"@.len());
            assert("mixolydian"@ != "minor"@);
            assert("mixolydian"@.len() != "aeolian"@.len());
            assert("mixolydian"@ != "aeolian"@);
            assert("mixolydian"@.len() != "dorian"@.len());
            assert("mixolydian"@ != "dorian"@);
            assert("mixolydian"@.len() != "phrygian"@.len());
            assert("mixolydian"@ != "phrygian"@);
            assert("mixolydian"@.len() != "lydian"@.len());
            assert("mixolydian"@ != "lydian"@);
            assert("mixolydian"@.len() != "locrian"@.len());
            assert("mixolydian"@ != "locrian"@);
            assert(crate::convert::optimized::timeline::mode_named(Some("mixolydian"@)) == Mode::Mixolydian);
        },
        Mode::Locrian => {
            assert("locrian"@.len() != "major"@.len());
            assert("locrian"@ != "major"@);
            assert("locrian"@.len() != "minor"@.len());
            assert("locrian"@ != "minor"@);
            assert("locrian"@[0] != "aeolian"@[0]);
            assert("locrian"@ != "aeolian"@);
            assert("locrian"@.len() != "dorian"@.len());
            assert("locrian"@ != "dorian"@);
            assert("locrian"@.len() != "phrygian"@.len());
            assert("locrian"@ != "phrygian"@);
            assert("locrian"@.len() != "lydian"@.len());
            assert("locrian"@ != "lydian"@);
            assert("locrian"@.len() != "mixolydian"@.len());
            assert("locrian"@ != "mixolydian"@);
            assert(crate::convert::optimized::timeline::mode_named(Some("locrian"@)) == Mode::Locrian);
        },
    }
}

proof fn lemma_search_finds(ks: KeySignature, f: int, from: int)
    requires
        -7 <= from <= f <= 7,
        key_signature_for(f as i8, Some(mode_text(ks.mode))) == ks,
        forall|g: int|
            from <= g < f ==> #[trigger] key_signature_for(g as i8, Some(mode_text(ks.mode))) != ks,
    ensures
        fifths_search(ks, from) == f,
    decreases f - from,
{
    if from < f {
        lemma_search_finds(ks, f, from + 1);
    }
}

/// Converting a fifths count in -7..=7 to a key signature, under any mode
/// text, and back gives the fifths count again.
pub proof fn lemma_fifths_round_trip(fifths: i8, mode: Option<Seq<char>>)
    requires
        -7 <= fifths <= 7,
    ensures
        fifths_search(key_signature_for(fifths, mode), -7) == fifths,
{
    let ks = key_signature_for(fifths, mode);
    lemma_mode_text_named(ks.mode);
    assert(key_signature_for(fifths, Some(mode_text(ks.mode))) == ks);
    assert forall|g: int| -7 <= g < fifths implies #[trigger] key_signature_for(
        g as i8,
        Some(mode_text(ks.mode)),
    ) != ks by {
        assert(key_signature_for(g as i8, Some(mode_text(ks.mode))).mode == ks.mode);
    }
    lemma_search_finds(ks, fifths as int, -7);
}

} // verus!
