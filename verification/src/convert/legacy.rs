//! Conversion of optimized-model values into the legacy Guitar Pro model:
//! durations, pitches, dynamics, keys, fingers, track flags and measure
//! positions.

use vstd::prelude::*;

use crate::model::legacy::{
    Duration as LDuration, Fingering, KeySignature as LKeySignature, TrackSettings,
    DEFAULT_VELOCITY, DURATION_QUARTER_TIME,
};
use crate::model::{
    pitch_step_semitone, step_semitone, Duration, Dynamic, Finger, KeySignature, MeasureDef, Mode,
    NoteValue, Pitch, PitchStep,
};

verus! {

/// The legacy note value (denominator) of a written note value.
pub open spec fn legacy_value(b: NoteValue) -> u16 {
    match b {
        NoteValue::Whole => 1,
        NoteValue::Half => 2,
        NoteValue::Quarter => 4,
        NoteValue::Eighth => 8,
        NoteValue::Sixteenth => 16,
        NoteValue::ThirtySecond => 32,
        NoteValue::SixtyFourth => 64,
        NoteValue::HundredTwentyEighth => 128,
        NoteValue::Other(v) => v,
    }
}

/// A duration in the legacy model: value, a dot for one or more dots, and
/// the tuplet (1:1 when there is none).
pub open spec fn legacy_duration(d: Duration) -> LDuration {
    LDuration {
        value: legacy_value(d.base),
        dotted: d.dots > 0,
        tuplet_enters: match d.tuplet {
            Some(t) => t.actual,
            None => 1,
        },
        tuplet_times: match d.tuplet {
            Some(t) => t.normal,
            None => 1,
        },
    }
}

/// Convert a duration to the legacy model.
pub fn duration_to_legacy(dur: &Duration) -> (r: LDuration)
    ensures
        r == legacy_duration(*dur),
{
    let value: u16 = match dur.base {
        NoteValue::Whole => 1,
        NoteValue::Half => 2,
        NoteValue::Quarter => 4,
        NoteValue::Eighth => 8,
        NoteValue::Sixteenth => 16,
        NoteValue::ThirtySecond => 32,
        NoteValue::SixtyFourth => 64,
        NoteValue::HundredTwentyEighth => 128,
        NoteValue::Other(v) => v,
    };
    let (tuplet_enters, tuplet_times) = match dur.tuplet {
        Some(t) => (t.actual, t.normal),
        None => (1u8, 1u8),
    };
    LDuration { value, dotted: dur.dots > 0, tuplet_enters, tuplet_times }
}

/// MIDI number of a pitch, clamped to `i8`.
pub open spec fn pitch_midi(p: Pitch) -> i8 {
    let m = (p.octave + 1) * 12 + step_semitone(p.step) + p.alter;
    if m < -128 {
        -128i8
    } else if m > 127 {
        127
    } else {
        m as i8
    }
}

/// MIDI number of a pitch, clamped to the range of `i8`.
pub fn pitch_to_midi(pitch: &Pitch) -> (r: i8)
    ensures
        r == pitch_midi(*pitch),
{
    let midi: i32 = (pitch.octave as i32 + 1) * 12 + pitch_step_semitone(pitch.step) + pitch.alter as i32;
    if midi < -128 {
        -128
    } else if midi > 127 {
        127
    } else {
        midi as i8
    }
}

/// Velocity of a dynamic: 15 for ppp up to 127 for fff in steps of 16;
/// forte without a dynamic.
pub open spec fn velocity_of(d: Option<Dynamic>) -> i16 {
    match d {
        None => DEFAULT_VELOCITY,
        Some(Dynamic::PPP) => 15,
        Some(Dynamic::PP) => 31,
        Some(Dynamic::P) => 47,
        Some(Dynamic::MP) => 63,
        Some(Dynamic::MF) => 79,
        Some(Dynamic::F) => 95,
        Some(Dynamic::FF) => 111,
        Some(Dynamic::FFF) => 127,
    }
}

/// The velocity the legacy model stores for a dynamic.
pub fn dynamic_to_velocity(dyn_opt: Option<Dynamic>) -> (r: i16)
    ensures
        r == velocity_of(dyn_opt),
{
    match dyn_opt {
        None => DEFAULT_VELOCITY,
        Some(Dynamic::PPP) => 15,
        Some(Dynamic::PP) => 31,
        Some(Dynamic::P) => 47,
        Some(Dynamic::MP) => 63,
        Some(Dynamic::MF) => 79,
        Some(Dynamic::F) => 95,
        Some(Dynamic::FF) => 111,
        Some(Dynamic::FFF) => 127,
    }
}

/// Circle-of-fifths position of a key with tonic `(step, alter)` in the
/// given mode, keeping its spelling; 0 for a tonic not listed.  Minor keys
/// are placed as minor keys, every other mode as major.
pub open spec fn fifths_of(step: PitchStep, alter: i8, minor: bool) -> i8 {
    if minor {
        if step == PitchStep::A && alter == 0 { 0 }
        else if step == PitchStep::E && alter == 0 { 1 }
        else if step == PitchStep::B && alter == 0 { 2 }
        else if step == PitchStep::F && alter == 1 { 3 }
        else if step == PitchStep::C && alter == 1 { 4 }
        else if step == PitchStep::G && alter == 1 { 5 }
        else if step == PitchStep::D && alter == 1 { 6 }
        else if step == PitchStep::A && alter == 1 { 7 }
        else if step == PitchStep::D && alter == 0 { -1i8 }
        else if step == PitchStep::G && alter == 0 { -2i8 }
        else if step == PitchStep::C && alter == 0 { -3i8 }
        else if step == PitchStep::F && alter == 0 { -4i8 }
        else if step == PitchStep::B && alter == -1 { -5i8 }
        else if step == PitchStep::E && alter == -1 { -6i8 }
        else if step == PitchStep::A && alter == -1 { -7i8 }
        else { 0 }
    } else {
        if step == PitchStep::C && alter == 0 { 0 }
        else if step == PitchStep::G && alter == 0 { 1 }
        else if step == PitchStep::D && alter == 0 { 2 }
        else if step == PitchStep::A && alter == 0 { 3 }
        else if step == PitchStep::E && alter == 0 { 4 }
        else if step == PitchStep::B && alter == 0 { 5 }
        else if step == PitchStep::F && alter == 1 { 6 }
        else if step == PitchStep::C && alter == 1 { 7 }
        else if step == PitchStep::F && alter == 0 { -1i8 }
        else if step == PitchStep::B && alter == -1 { -2i8 }
        else if step == PitchStep::E && alter == -1 { -3i8 }
        else if step == PitchStep::A && alter == -1 { -4i8 }
        else if step == PitchStep::D && alter == -1 { -5i8 }
        else if step == PitchStep::G && alter == -1 { -6i8 }
        else if step == PitchStep::C && alter == -1 { -7i8 }
        else { 0 }
    }
}

/// Circle-of-fifths position of a tonic in a mode.
pub fn pitch_and_mode_to_fifths(root: &Pitch, mode: Mode) -> (r: i8)
    ensures
        r == fifths_of(root.step, root.alter, mode == Mode::Minor),
{
    let step = root.step;
    let alter = root.alter;
    if mode == Mode::Minor {
        if step == PitchStep::A && alter == 0 { 0 }
        else if step == PitchStep::E && alter == 0 { 1 }
        else if step == PitchStep::B && alter == 0 { 2 }
        else if step == PitchStep::F && alter == 1 { 3 }
        else if step == PitchStep::C && alter == 1 { 4 }
        else if step == PitchStep::G && alter == 1 { 5 }
        else if step == PitchStep::D && alter == 1 { 6 }
        else if step == PitchStep::A && alter == 1 { 7 }
        else if step == PitchStep::D && alter == 0 { -1 }
        else if step == PitchStep::G && alter == 0 { -2 }
        else if step == PitchStep::C && alter == 0 { -3 }
        else if step == PitchStep::F && alter == 0 { -4 }
        else if step == PitchStep::B && alter == -1 { -5 }
        else if step == PitchStep::E && alter == -1 { -6 }
        else if step == PitchStep::A && alter == -1 { -7 }
        else { 0 }
    } else {
        if step == PitchStep::C && alter == 0 { 0 }
        else if step == PitchStep::G && alter == 0 { 1 }
        else if step == PitchStep::D && alter == 0 { 2 }
        else if step == PitchStep::A && alter == 0 { 3 }
        else if step == PitchStep::E && alter == 0 { 4 }
        else if step == PitchStep::B && alter == 0 { 5 }
        else if step == PitchStep::F && alter == 1 { 6 }
        else if step == PitchStep::C && alter == 1 { 7 }
        else if step == PitchStep::F && alter == 0 { -1 }
        else if step == PitchStep::B && alter == -1 { -2 }
        else if step == PitchStep::E && alter == -1 { -3 }
        else if step == PitchStep::A && alter == -1 { -4 }
        else if step == PitchStep::D && alter == -1 { -5 }
        else if step == PitchStep::G && alter == -1 { -6 }
        else if step == PitchStep::C && alter == -1 { -7 }
        else { 0 }
    }
}

/// The legacy form of a key signature: its fifths, minor or not.
pub open spec fn legacy_key(ks: KeySignature) -> LKeySignature {
    LKeySignature {
        key: fifths_of(ks.root.step, ks.root.alter, ks.mode == Mode::Minor),
        is_minor: ks.mode == Mode::Minor,
    }
}

/// Convert a key signature to the legacy model.
pub fn opt_key_to_legacy_key(ks: &KeySignature) -> (r: LKeySignature)
    ensures
        r == legacy_key(*ks),
{
    let is_minor = ks.mode == Mode::Minor;
    let key = pitch_and_mode_to_fifths(&ks.root, ks.mode);
    LKeySignature { key, is_minor }
}

/// Track settings from their bit flags.
pub open spec fn settings_of(f: i16) -> TrackSettings {
    TrackSettings {
        tablature: f & 0x0001 != 0,
        notation: f & 0x0002 != 0,
        diagram_are_below: f & 0x0004 != 0,
        show_rhythm: f & 0x0008 != 0,
        force_horizontal: f & 0x0010 != 0,
        force_channels: f & 0x0020 != 0,
        diagram_list: f & 0x0040 != 0,
        diagram_in_score: f & 0x0080 != 0,
        auto_let_ring: f & 0x0200 != 0,
        auto_brush: f & 0x0400 != 0,
        extend_rhythmic: f & 0x0800 != 0,
    }
}

/// Decode track settings from their bit flags.
pub fn flags_to_track_settings(f: i16) -> (r: TrackSettings)
    ensures
        r == settings_of(f),
{
    TrackSettings {
        tablature: (f & 0x0001) != 0,
        notation: (f & 0x0002) != 0,
        diagram_are_below: (f & 0x0004) != 0,
        show_rhythm: (f & 0x0008) != 0,
        force_horizontal: (f & 0x0010) != 0,
        force_channels: (f & 0x0020) != 0,
        diagram_list: (f & 0x0040) != 0,
        diagram_in_score: (f & 0x0080) != 0,
        auto_let_ring: (f & 0x0200) != 0,
        auto_brush: (f & 0x0400) != 0,
        extend_rhythmic: (f & 0x0800) != 0,
    }
}

/// The legacy fingering of a finger.
pub open spec fn legacy_finger(f: Finger) -> Fingering {
    match f {
        Finger::Thumb => Fingering::Thumb,
        Finger::Index => Fingering::Index,
        Finger::Middle => Fingering::Middle,
        Finger::Ring => Fingering::Annular,
        Finger::Pinky => Fingering::Little,
        Finger::Open => Fingering::Open,
    }
}

/// Convert a finger to the legacy model.
pub fn finger_to_legacy(f: Finger) -> (r: Fingering)
    ensures
        r == legacy_finger(f),
{
    match f {
        Finger::Thumb => Fingering::Thumb,
        Finger::Index => Fingering::Index,
        Finger::Middle => Fingering::Middle,
        Finger::Ring => Fingering::Annular,
        Finger::Pinky => Fingering::Little,
        Finger::Open => Fingering::Open,
    }
}

/// Ticks of a measure in `num/den` time (`num` quarters when `den` is 0).
pub open spec fn measure_ticks(num: int, den: int) -> int {
    if den > 0 {
        num * DURATION_QUARTER_TIME * 4 / den
    } else {
        num * DURATION_QUARTER_TIME
    }
}

/// Start tick of each of the first `k` measures and the tick after them,
/// with the time signature in force: the first measure starts at tick 960
/// in 4/4.
pub open spec fn measure_starts_upto(timeline: Seq<MeasureDef>, k: int) -> (Seq<i64>, int, int, int)
    decreases k,
{
    if k <= 0 {
        (Seq::empty(), DURATION_QUARTER_TIME as int, 4, 4)
    } else {
        let (starts, pos, num, den) = measure_starts_upto(timeline, k - 1);
        let (n2, d2) = match timeline[k - 1].time_signature {
            Some(ts) => (ts.numerator as int, ts.denominator as int),
            None => (num, den),
        };
        (starts.push(pos as i64), pos + measure_ticks(n2, d2), n2, d2)
    }
}

pub proof fn lemma_measure_starts_bounds(timeline: Seq<MeasureDef>, k: int)
    requires
        0 <= k,
    ensures
        ({
            let (starts, pos, num, den) = measure_starts_upto(timeline, k);
            &&& starts.len() == if k < 0 { 0 } else { k }
            &&& 960 <= pos <= 960 + k * 255 * 960 * 4
            &&& 0 <= num <= 255
            &&& 0 <= den <= 255
        }),
    decreases k,
{
    if k > 0 {
        lemma_measure_starts_bounds(timeline, k - 1);
        let (starts, pos, num, den) = measure_starts_upto(timeline, k - 1);
        let (n2, d2) = match timeline[k - 1].time_signature {
            Some(ts) => (ts.numerator as int, ts.denominator as int),
            None => (num, den),
        };
        assert(0 <= measure_ticks(n2, d2) <= 255 * 960 * 4) by (nonlinear_arith)
            requires
                0 <= n2 <= 255,
                0 <= d2 <= 255,
                measure_ticks(n2, d2) == if d2 > 0 {
                    n2 * 960 * 4 / d2
                } else {
                    n2 * 960
                },
        ;
    }
}

/// Start tick of every measure: the first at tick 960, each later one a
/// measure's length (in the time signature in force) after the previous.
pub fn compute_measure_starts(timeline: &[MeasureDef]) -> (r: Vec<i64>)
    requires
        timeline@.len() <= 9_000_000_000_000,
    ensures
        r@ == measure_starts_upto(timeline@, timeline@.len() as int).0,
{
    let mut starts: Vec<i64> = Vec::new();
    let mut pos: i64 = DURATION_QUARTER_TIME;
    let mut running_num: i64 = 4;
    let mut running_den: i64 = 4;
    let mut i: usize = 0;
    while i < timeline.len()
        invariant
            timeline@.len() <= 9_000_000_000_000,
            i <= timeline@.len(),
            measure_starts_upto(timeline@, i as int) == (
                starts@,
                pos as int,
                running_num as int,
                running_den as int,
            ),
        decreases timeline@.len() - i,
    {
        proof {
            lemma_measure_starts_bounds(timeline@, i as int);
            lemma_measure_starts_bounds(timeline@, i + 1);
        }
        starts.push(pos);
        match timeline[i].time_signature {
            Some(ts) => {
                running_num = ts.numerator as i64;
                running_den = ts.denominator as i64;
            },
            None => {},
        }
        let length: i64 = if running_den > 0 {
            running_num * DURATION_QUARTER_TIME * 4 / running_den
        } else {
            running_num * DURATION_QUARTER_TIME
        };
        pos = pos + length;
        i += 1;
    }
    starts
}

/// Beaming of a measure by the time signature's numerator: 2/x as 2+2,
/// 4/x as 2+2+2+2, 6/x as 3+3, any other numerator as one group.
pub open spec fn beam_groups(numerator: u8) -> Seq<u8> {
    if numerator == 2 {
        seq![2u8, 2u8]
    } else if numerator == 4 {
        seq![2u8, 2u8, 2u8, 2u8]
    } else if numerator == 6 {
        seq![3u8, 3u8]
    } else {
        seq![numerator]
    }
}

/// The default beam groups of a measure with `numerator` beats.
pub fn default_beams(numerator: u8) -> (r: Vec<u8>)
    ensures
        r@ == beam_groups(numerator),
{
    let r = match numerator {
        2 => vec![2u8, 2],
        3 => vec![3u8],
        4 => vec![2u8, 2, 2, 2],
        6 => vec![3u8, 3],
        _ => vec![numerator],
    };
    assert(r@ =~= beam_groups(numerator));
    r
}

} // verus!

