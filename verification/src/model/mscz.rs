//! The parts of a MuseScore (`.mscx`) score that the reader converts:
//! voices of beats (chords and rests) with their durations and notes.

use vstd::prelude::*;

verus! {

/// A MuseScore `durationType`.
#[derive(Debug, Clone, Copy, PartialEq, Eq, Structural)]
pub enum MscxDurationKind {
    Whole,
    Half,
    Quarter,
    Eighth,
    Sixteenth,
    ThirtySecond,
    SixtyFourth,
    HundredTwentyEighth,
    /// A rest lasting the whole measure.
    Measure,
}

/// A duration: its type and augmentation dots.
#[derive(Debug, Clone, Copy, PartialEq, Eq, Structural)]
pub struct MscxDuration {
    pub kind: MscxDurationKind,
    pub dots: u8,
}

/// A note of a chord.
#[derive(Debug, Clone, Copy, PartialEq, Eq, Structural)]
pub struct MscxNote {
    /// MIDI pitch.
    pub pitch: Option<u8>,
    /// 0-based string (0 = top string).
    pub string: Option<u8>,
    pub fret: Option<u8>,
    /// A tie leaves this note for the next one.
    pub tie_start: bool,
    /// A tie arrives at this note from the previous one.
    pub tie_end: bool,
}

/// What a beat holds.
#[derive(Debug)]
pub enum MscxBeatKind {
    Rest,
    Chord(Vec<MscxNote>),
}

/// A beat of a voice.
#[derive(Debug)]
pub struct MscxBeat {
    pub duration: MscxDuration,
    pub kind: MscxBeatKind,
}

/// A voice of a measure.
#[derive(Debug)]
pub struct MscxVoice {
    pub beats: Vec<MscxBeat>,
}

/// A time signature as MuseScore writes it.
#[derive(Debug, Clone, Copy, PartialEq, Eq, Structural)]
pub struct MscxTimeSig {
    pub numerator: u8,
    pub denominator: u8,
}

/// A key signature as MuseScore writes it: sharps (positive) or flats
/// (negative).
#[derive(Debug, Clone, Copy, PartialEq, Eq, Structural)]
pub struct MscxKeySig {
    pub fifths: i8,
}

/// A `metaTag` of the score: a name and its text.
#[derive(Debug)]
pub struct MetaTag {
    pub name: String,
    pub value: String,
}

} // verus!
