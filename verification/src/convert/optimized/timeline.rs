//! Global timeline helpers.

use vstd::prelude::*;

use crate::model::{step_semitone, KeySignature, Mode, Pitch, PitchStep};
use crate::text::str_eq;

verus! {

/// A pitch in octave 4.
pub open spec fn pitch(step: PitchStep, alter: i8) -> Pitch {
    Pitch { step, alter, octave: 4 }
}

/// The mode a MusicXML `<mode>` text names; anything unrecognized, or no
/// text, is major.
pub open spec fn mode_named(mode: Option<Seq<char>>) -> Mode {
    match mode {
        Some(m) => if m == "minor"@ || m == "aeolian"@ {
            Mode::Minor
        } else if m == "dorian"@ {
            Mode::Dorian
        } else if m == "phrygian"@ {
            Mode::Phrygian
        } else if m == "lydian"@ {
            Mode::Lydian
        } else if m == "mixolydian"@ {
            Mode::Mixolydian
        } else if m == "locrian"@ {
            Mode::Locrian
        } else {
            Mode::Major
        },
        None => Mode::Major,
    }
}

/// Tonic of the minor key with `fifths` sharps (flats when negative); A
/// outside -7..=7.
pub open spec fn minor_root(fifths: i8) -> Pitch {
    if fifths == -7i8 { pitch(PitchStep::A, -1i8) }
    else if fifths == -6i8 { pitch(PitchStep::E, -1i8) }
    else if fifths == -5i8 { pitch(PitchStep::B, -1i8) }
    else if fifths == -4i8 { pitch(PitchStep::F, 0i8) }
    else if fifths == -3i8 { pitch(PitchStep::C, 0i8) }
    else if fifths == -2i8 { pitch(PitchStep::G, 0i8) }
    else if fifths == -1i8 { pitch(PitchStep::D, 0i8) }
    else if fifths == 0i8 { pitch(PitchStep::A, 0i8) }
    else if fifths == 1i8 { pitch(PitchStep::E, 0i8) }
    else if fifths == 2i8 { pitch(PitchStep::B, 0i8) }
    else if fifths == 3i8 { pitch(PitchStep::F, 1i8) }
    else if fifths == 4i8 { pitch(PitchStep::C, 1i8) }
    else if fifths == 5i8 { pitch(PitchStep::G, 1i8) }
    else if fifths == 6i8 { pitch(PitchStep::D, 1i8) }
    else if fifths == 7i8 { pitch(PitchStep::A, 1i8) }
    else { pitch(PitchStep::A, 0i8) }
}

/// Tonic of the major key with `fifths` sharps (flats when negative); C
/// outside -7..=7.
pub open spec fn major_root(fifths: i8) -> Pitch {
    if fifths == -7i8 { pitch(PitchStep::C, -1i8) }
    else if fifths == -6i8 { pitch(PitchStep::G, -1i8) }
    else if fifths == -5i8 { pitch(PitchStep::D, -1i8) }
    else if fifths == -4i8 { pitch(PitchStep::A, -1i8) }
    else if fifths == -3i8 { pitch(PitchStep::E, -1i8) }
    else if fifths == -2i8 { pitch(PitchStep::B, -1i8) }
    else if fifths == -1i8 { pitch(PitchStep::F, 0i8) }
    else if fifths == 0i8 { pitch(PitchStep::C, 0i8) }
    else if fifths == 1i8 { pitch(PitchStep::G, 0i8) }
    else if fifths == 2i8 { pitch(PitchStep::D, 0i8) }
    else if fifths == 3i8 { pitch(PitchStep::A, 0i8) }
    else if fifths == 4i8 { pitch(PitchStep::E, 0i8) }
    else if fifths == 5i8 { pitch(PitchStep::B, 0i8) }
    else if fifths == 6i8 { pitch(PitchStep::F, 1i8) }
    else if fifths == 7i8 { pitch(PitchStep::C, 1i8) }
    else { pitch(PitchStep::C, 0i8) }
}

/// The key signature for `fifths` and a mode text: a minor mode takes the
/// relative minor's tonic, every other mode the major tonic.
pub open spec fn key_signature_for(fifths: i8, mode: Option<Seq<char>>) -> KeySignature {
    let m = mode_named(mode);
    KeySignature {
        root: if m == Mode::Minor {
            minor_root(fifths)
        } else {
            major_root(fifths)
        },
        mode: m,
    }
}

/// Pitch class (0 = C .. 11 = B) of a spelled pitch.
pub open spec fn root_pitch_class(p: Pitch) -> int {
    (step_semitone(p.step) + p.alter) % 12
}

/// The tonic of a key with `fifths` sharps (flats when negative) lies
/// `fifths` perfect fifths above C, seven semitones each; the relative
/// minor's tonic lies a major sixth (nine semitones) above the major one.
pub proof fn lemma_tonic_pitch_class(fifths: i8)
    requires
        -7 <= fifths <= 7,
    ensures
        root_pitch_class(major_root(fifths)) == (7 * fifths) % 12,
        root_pitch_class(minor_root(fifths)) == (7 * fifths + 9) % 12,
{
}

/// The view of an optional text.
pub open spec fn text_view(mode: Option<&str>) -> Option<Seq<char>> {
    match mode {
        Some(s) => Some(s@),
        None => None,
    }
}

fn mode_from_text(mode: Option<&str>) -> (r: Mode)
    ensures
        r == mode_named(text_view(mode)),
{
    proof {
        reveal_strlit("minor");
        reveal_strlit("aeolian");
        reveal_strlit("dorian");
        reveal_strlit("phrygian");
        reveal_strlit("lydian");
        reveal_strlit("mixolydian");
        reveal_strlit("locrian");
    }
    match mode {
        Some(m) => {
            if str_eq(m, "minor") || str_eq(m, "aeolian") {
                Mode::Minor
            } else if str_eq(m, "dorian") {
                Mode::Dorian
            } else if str_eq(m, "phrygian") {
                Mode::Phrygian
            } else if str_eq(m, "lydian") {
                Mode::Lydian
            } else if str_eq(m, "mixolydian") {
                Mode::Mixolydian
            } else if str_eq(m, "locrian") {
                Mode::Locrian
            } else {
                Mode::Major
            }
        },
        None => Mode::Major,
    }
}

fn p(step: PitchStep, alter: i8) -> (r: Pitch)
    ensures
        r == pitch(step, alter),
{
    Pitch { step, alter, octave: 4 }
}

/// Convert a MusicXML `<fifths>` count and `<mode>` text to a key signature.
pub fn key_sig_from_fifths(fifths: i8, mode: Option<&str>) -> (r: KeySignature)
    ensures
        r == key_signature_for(fifths, text_view(mode)),
        -7 <= fifths <= 7 ==> root_pitch_class(r.root) == (7 * fifths + if r.mode == Mode::Minor {
            9int
        } else {
            0int
        }) % 12,
{
    proof {
        if -7 <= fifths <= 7 {
            lemma_tonic_pitch_class(fifths);
        }
    }
    let mode_val = mode_from_text(mode);
    let root = if mode_val == Mode::Minor {
        if fifths == -7 { p(PitchStep::A, -1) }
        else if fifths == -6 { p(PitchStep::E, -1) }
        else if fifths == -5 { p(PitchStep::B, -1) }
        else if fifths == -4 { p(PitchStep::F, 0) }
        else if fifths == -3 { p(PitchStep::C, 0) }
        else if fifths == -2 { p(PitchStep::G, 0) }
        else if fifths == -1 { p(PitchStep::D, 0) }
        else if fifths == 0 { p(PitchStep::A, 0) }
        else if fifths == 1 { p(PitchStep::E, 0) }
        else if fifths == 2 { p(PitchStep::B, 0) }
        else if fifths == 3 { p(PitchStep::F, 1) }
        else if fifths == 4 { p(PitchStep::C, 1) }
        else if fifths == 5 { p(PitchStep::G, 1) }
        else if fifths == 6 { p(PitchStep::D, 1) }
        else if fifths == 7 { p(PitchStep::A, 1) }
        else { p(PitchStep::A, 0) }
    } else {
        if fifths == -7 { p(PitchStep::C, -1) }
        else if fifths == -6 { p(PitchStep::G, -1) }
        else if fifths == -5 { p(PitchStep::D, -1) }
        else if fifths == -4 { p(PitchStep::A, -1) }
        else if fifths == -3 { p(PitchStep::E, -1) }
        else if fifths == -2 { p(PitchStep::B, -1) }
        else if fifths == -1 { p(PitchStep::F, 0) }
        else if fifths == 0 { p(PitchStep::C, 0) }
        else if fifths == 1 { p(PitchStep::G, 0) }
        else if fifths == 2 { p(PitchStep::D, 0) }
        else if fifths == 3 { p(PitchStep::A, 0) }
        else if fifths == 4 { p(PitchStep::E, 0) }
        else if fifths == 5 { p(PitchStep::B, 0) }
        else if fifths == 6 { p(PitchStep::F, 1) }
        else if fifths == 7 { p(PitchStep::C, 1) }
        else { p(PitchStep::C, 0) }
    };
    KeySignature { root, mode: mode_val }
}

} // verus!
