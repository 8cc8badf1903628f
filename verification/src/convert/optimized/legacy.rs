//! Conversion of legacy Guitar Pro values into the optimized model, and the
//! round trips with the opposite conversion.

use vstd::prelude::*;

use crate::convert::legacy::{
    fifths_of, legacy_duration, legacy_finger, legacy_key, settings_of, velocity_of,
};
use crate::convert::optimized::timeline::{key_sig_from_fifths, key_signature_for};
use crate::model::legacy::{
    Duration as LDuration, Fingering, KeySignature as LKeySignature, TrackSettings,
    DEFAULT_VELOCITY,
};
use crate::model::{Duration, Dynamic, Finger, KeySignature, Mode, NoteValue, Pitch, PitchStep, Tuplet};

verus! {

/// The written note value of a legacy note value.
pub open spec fn note_value_of(v: u16) -> NoteValue {
    if v == 1 { NoteValue::Whole }
    else if v == 2 { NoteValue::Half }
    else if v == 4 { NoteValue::Quarter }
    else if v == 8 { NoteValue::Eighth }
    else if v == 16 { NoteValue::Sixteenth }
    else if v == 32 { NoteValue::ThirtySecond }
    else if v == 64 { NoteValue::SixtyFourth }
    else if v == 128 { NoteValue::HundredTwentyEighth }
    else { NoteValue::Other(v) }
}

/// A legacy duration in the optimized model: one dot for a dotted
/// duration, and a tuplet unless it is 1:1.
pub open spec fn optimized_duration(d: LDuration) -> Duration {
    Duration {
        base: note_value_of(d.value),
        dots: if d.dotted { 1 } else { 0 },
        tuplet: if d.tuplet_enters != 1 || d.tuplet_times != 1 {
            Some(Tuplet { actual: d.tuplet_enters, normal: d.tuplet_times })
        } else {
            None
        },
    }
}

/// Convert a legacy duration.
pub fn convert_duration(dur: &LDuration) -> (r: Duration)
    ensures
        r == optimized_duration(*dur),
{
    let v = dur.value;
    let base = if v == 1 { NoteValue::Whole }
        else if v == 2 { NoteValue::Half }
        else if v == 4 { NoteValue::Quarter }
        else if v == 8 { NoteValue::Eighth }
        else if v == 16 { NoteValue::Sixteenth }
        else if v == 32 { NoteValue::ThirtySecond }
        else if v == 64 { NoteValue::SixtyFourth }
        else if v == 128 { NoteValue::HundredTwentyEighth }
        else { NoteValue::Other(v) };
    let dots: u8 = if dur.dotted { 1 } else { 0 };
    let tuplet = if dur.tuplet_enters != 1 || dur.tuplet_times != 1 {
        Some(Tuplet { actual: dur.tuplet_enters, normal: dur.tuplet_times })
    } else {
        None
    };
    Duration { base, dots, tuplet }
}

/// The finger of a legacy fingering; none for open strings and unknown
/// fingerings.
pub open spec fn finger_of(f: Fingering) -> Option<Finger> {
    match f {
        Fingering::Open => None,
        Fingering::Thumb => Some(Finger::Thumb),
        Fingering::Index => Some(Finger::Index),
        Fingering::Middle => Some(Finger::Middle),
        Fingering::Annular => Some(Finger::Ring),
        Fingering::Little => Some(Finger::Pinky),
        Fingering::Unknown(_) => None,
    }
}

/// Convert a legacy fingering.
pub fn convert_finger(f: &Fingering) -> (r: Option<Finger>)
    ensures
        r == finger_of(*f),
{
    match f {
        Fingering::Open => None,
        Fingering::Thumb => Some(Finger::Thumb),
        Fingering::Index => Some(Finger::Index),
        Fingering::Middle => Some(Finger::Middle),
        Fingering::Annular => Some(Finger::Ring),
        Fingering::Little => Some(Finger::Pinky),
        Fingering::Unknown(_) => None,
    }
}

/// Sharp spelling of a MIDI note, negative numbers read as 0 and octaves
/// below 0 as 0.
pub open spec fn sharp_pitch(midi: i8) -> Pitch {
    let m: int = if midi < 0 { 0 } else { midi as int };
    let octave: int = if m / 12 - 1 < 0 { 0 } else { m / 12 - 1 };
    let (step, alter) = if m % 12 == 0 { (PitchStep::C, 0i8) }
        else if m % 12 == 1 { (PitchStep::C, 1i8) }
        else if m % 12 == 2 { (PitchStep::D, 0i8) }
        else if m % 12 == 3 { (PitchStep::D, 1i8) }
        else if m % 12 == 4 { (PitchStep::E, 0i8) }
        else if m % 12 == 5 { (PitchStep::F, 0i8) }
        else if m % 12 == 6 { (PitchStep::F, 1i8) }
        else if m % 12 == 7 { (PitchStep::G, 0i8) }
        else if m % 12 == 8 { (PitchStep::G, 1i8) }
        else if m % 12 == 9 { (PitchStep::A, 0i8) }
        else if m % 12 == 10 { (PitchStep::A, 1i8) }
        else { (PitchStep::B, 0i8) };
    Pitch { step, alter, octave: octave as u8 }
}

/// The pitch of a MIDI note, spelled with sharps.
pub fn midi_to_pitch(midi: i8) -> (r: Pitch)
    ensures
        r == sharp_pitch(midi),
{
    let m: i32 = if midi < 0 { 0 } else { midi as i32 };
    let o: i32 = m / 12 - 1;
    let octave: u8 = if o < 0 { 0 } else { o as u8 };
    let pc = m % 12;
    let (step, alter) = if pc == 0 { (PitchStep::C, 0i8) }
        else if pc == 1 { (PitchStep::C, 1i8) }
        else if pc == 2 { (PitchStep::D, 0i8) }
        else if pc == 3 { (PitchStep::D, 1i8) }
        else if pc == 4 { (PitchStep::E, 0i8) }
        else if pc == 5 { (PitchStep::F, 0i8) }
        else if pc == 6 { (PitchStep::F, 1i8) }
        else if pc == 7 { (PitchStep::G, 0i8) }
        else if pc == 8 { (PitchStep::G, 1i8) }
        else if pc == 9 { (PitchStep::A, 0i8) }
        else if pc == 10 { (PitchStep::A, 1i8) }
        else { (PitchStep::B, 0i8) };
    Pitch { step, alter, octave }
}

/// The dynamic of a legacy velocity: none for the default (forte), else
/// the nearest of the eight dynamic velocities.
pub open spec fn dynamic_of(v: i16) -> Option<Dynamic> {
    if v == DEFAULT_VELOCITY { None }
    else if v <= 22 { Some(Dynamic::PPP) }
    else if v <= 38 { Some(Dynamic::PP) }
    else if v <= 54 { Some(Dynamic::P) }
    else if v <= 70 { Some(Dynamic::MP) }
    else if v <= 86 { Some(Dynamic::MF) }
    else if v <= 102 { Some(Dynamic::F) }
    else if v <= 118 { Some(Dynamic::FF) }
    else { Some(Dynamic::FFF) }
}

/// The dynamic marking of a legacy velocity.
pub fn velocity_to_dynamic(v: i16) -> (r: Option<Dynamic>)
    ensures
        r == dynamic_of(v),
{
    if v == DEFAULT_VELOCITY {
        return None;
    }
    Some(if v <= 22 { Dynamic::PPP }
        else if v <= 38 { Dynamic::PP }
        else if v <= 54 { Dynamic::P }
        else if v <= 70 { Dynamic::MP }
        else if v <= 86 { Dynamic::MF }
        else if v <= 102 { Dynamic::F }
        else if v <= 118 { Dynamic::FF }
        else { Dynamic::FFF })
}

/// Convert a legacy key signature: its fifths, as a minor key when marked
/// minor.
pub fn legacy_key_to_opt_key(key: &LKeySignature) -> (r: KeySignature)
    ensures
        r == key_signature_for(key.key, if key.is_minor { Some("minor"@) } else { None }),
{
    let mode: Option<&str> = if key.is_minor { Some("minor") } else { None };
    key_sig_from_fifths(key.key, mode)
}

/// The bit flags of track settings.
pub open spec fn flags_of(s: TrackSettings) -> i16 {
    (if s.tablature { 0x0001i16 } else { 0 }) | (if s.notation { 0x0002i16 } else { 0 }) | (
    if s.diagram_are_below { 0x0004i16 } else { 0 }) | (if s.show_rhythm { 0x0008i16 } else { 0 })
        | (if s.force_horizontal { 0x0010i16 } else { 0 }) | (if s.force_channels { 0x0020i16 } else {
        0
    }) | (if s.diagram_list { 0x0040i16 } else { 0 }) | (if s.diagram_in_score { 0x0080i16 } else {
        0
    }) | (if s.auto_let_ring { 0x0200i16 } else { 0 }) | (if s.auto_brush { 0x0400i16 } else { 0 }) | (
    if s.extend_rhythmic { 0x0800i16 } else { 0 })
}

/// Encode track settings as bit flags.
pub fn track_settings_flags(s: &TrackSettings) -> (r: i16)
    ensures
        r == flags_of(*s),
{
    (if s.tablature { 0x0001i16 } else { 0 }) | (if s.notation { 0x0002i16 } else { 0 }) | (
    if s.diagram_are_below { 0x0004i16 } else { 0 }) | (if s.show_rhythm { 0x0008i16 } else { 0 })
        | (if s.force_horizontal { 0x0010i16 } else { 0 }) | (if s.force_channels { 0x0020i16 } else {
        0
    }) | (if s.diagram_list { 0x0040i16 } else { 0 }) | (if s.diagram_in_score { 0x0080i16 } else {
        0
    }) | (if s.auto_let_ring { 0x0200i16 } else { 0 }) | (if s.auto_brush { 0x0400i16 } else { 0 }) | (
    if s.extend_rhythmic { 0x0800i16 } else { 0 })
}

// ---------------------------------------------------------------------------
// Round trips
// ---------------------------------------------------------------------------

/// A legacy duration survives the trip to the optimized model and back.
pub proof fn lemma_legacy_duration_round_trip(l: LDuration)
    ensures
        legacy_duration(optimized_duration(l)) == l,
{
}

/// A written note value that the legacy model spells as a standard value.
pub open spec fn standard_value(b: NoteValue) -> bool {
    match b {
        NoteValue::Other(v) => v == 1 || v == 2 || v == 4 || v == 8 || v == 16 || v == 32 || v == 64
            || v == 128,
        _ => false,
    }
}

/// A duration with at most one dot, no 1:1 tuplet and no standard value
/// spelled as `Other` survives the trip to the legacy model and back.
pub proof fn lemma_duration_round_trip(d: Duration)
    requires
        d.dots <= 1,
        d.tuplet != Some(Tuplet { actual: 1, normal: 1 }),
        !standard_value(d.base),
    ensures
        optimized_duration(legacy_duration(d)) == d,
{
    match d.tuplet {
        Some(t) => {
            assert(t.actual != 1 || t.normal != 1);
        },
        None => {},
    }
}

/// A dynamic survives the trip through its velocity, but for forte, whose
/// velocity is the default and reads back as no dynamic.
pub proof fn lemma_dynamic_round_trip(d: Option<Dynamic>)
    requires
        d != Some(Dynamic::F),
    ensures
        dynamic_of(velocity_of(d)) == d,
{
}

/// A finger survives the trip through the legacy fingering, but for an
/// open string, which reads back as no finger.
pub proof fn lemma_finger_round_trip(f: Finger)
    requires
        f != Finger::Open,
    ensures
        finger_of(legacy_finger(f)) == Some(f),
{
}

proof fn lemma_flag_bits(
    a: bool,
    b: bool,
    c: bool,
    d: bool,
    e: bool,
    f: bool,
    g: bool,
    h: bool,
    i: bool,
    j: bool,
    k: bool,
) by (bit_vector)
    ensures
        ({
            let x: i16 = (if a { 0x0001i16 } else { 0 }) | (if b { 0x0002i16 } else { 0 }) | (if c {
                0x0004i16
            } else {
                0
            }) | (if d { 0x0008i16 } else { 0 }) | (if e { 0x0010i16 } else { 0 }) | (if f {
                0x0020i16
            } else {
                0
            }) | (if g { 0x0040i16 } else { 0 }) | (if h { 0x0080i16 } else { 0 }) | (if i {
                0x0200i16
            } else {
                0
            }) | (if j { 0x0400i16 } else { 0 }) | (if k { 0x0800i16 } else { 0 });
            &&& (x & 0x0001 != 0) == a
            &&& (x & 0x0002 != 0) == b
            &&& (x & 0x0004 != 0) == c
            &&& (x & 0x0008 != 0) == d
            &&& (x & 0x0010 != 0) == e
            &&& (x & 0x0020 != 0) == f
            &&& (x & 0x0040 != 0) == g
            &&& (x & 0x0080 != 0) == h
            &&& (x & 0x0200 != 0) == i
            &&& (x & 0x0400 != 0) == j
            &&& (x & 0x0800 != 0) == k
        }),
{
}

/// Track settings survive the trip through their bit flags.
pub proof fn lemma_track_settings_round_trip(s: TrackSettings)
    ensures
        settings_of(flags_of(s)) == s,
{
    lemma_flag_bits(
        s.tablature,
        s.notation,
        s.diagram_are_below,
        s.show_rhythm,
        s.force_horizontal,
        s.force_channels,
        s.diagram_list,
        s.diagram_in_score,
        s.auto_let_ring,
        s.auto_brush,
        s.extend_rhythmic,
    );
}

proof fn lemma_flags_mask(f: i16) by (bit_vector)
    ensures
        ((if f & 0x0001 != 0 { 0x0001i16 } else { 0 }) | (if f & 0x0002 != 0 { 0x0002i16 } else { 0 })
            | (if f & 0x0004 != 0 { 0x0004i16 } else { 0 }) | (if f & 0x0008 != 0 { 0x0008i16 } else {
            0
        }) | (if f & 0x0010 != 0 { 0x0010i16 } else { 0 }) | (if f & 0x0020 != 0 { 0x0020i16 } else {
            0
        }) | (if f & 0x0040 != 0 { 0x0040i16 } else { 0 }) | (if f & 0x0080 != 0 { 0x0080i16 } else {
            0
        }) | (if f & 0x0200 != 0 { 0x0200i16 } else { 0 }) | (if f & 0x0400 != 0 { 0x0400i16 } else {
            0
        }) | (if f & 0x0800 != 0 { 0x0800i16 } else { 0 })) == f & 0x0eff,
{
}

/// Decoding bit flags and encoding them again keeps exactly the known
/// flags.
pub proof fn lemma_flags_round_trip(f: i16)
    ensures
        flags_of(settings_of(f)) == f & 0x0eff,
{
    lemma_flags_mask(f);
}

/// A legacy key of at most seven accidentals survives the trip to the
/// optimized model and back.
pub proof fn lemma_legacy_key_round_trip(l: LKeySignature)
    requires
        -7 <= l.key <= 7,
    ensures
        legacy_key(key_signature_for(l.key, if l.is_minor { Some("minor"@) } else { None })) == l,
{
    reveal_strlit("minor");
    reveal_strlit("aeolian");
    let k = key_signature_for(l.key, if l.is_minor { Some("minor"@) } else { None });
    assert(k.mode == Mode::Minor <==> l.is_minor);
    if l.is_minor {
        assert(fifths_of(k.root.step, k.root.alter, true) == l.key);
    } else {
        assert(fifths_of(k.root.step, k.root.alter, false) == l.key);
    }
}

} // verus!
