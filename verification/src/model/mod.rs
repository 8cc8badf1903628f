//! The score model that the analyses and converters read: tracks of measures, measures of
//! voices, voices of beats, beats of notes.
//!
//! Each type holds, as plain values, the fields that the library's logic
//! reads.  Maps of the score (voices by id, measures by index) are held as
//! vectors ordered by their key, with the key strictly increasing; the
//! well-formedness predicates below state that.

use vstd::prelude::*;

pub mod legacy;
pub mod mscz;
pub mod musicxml;

verus! {

/// Diatonic step of a pitch.
#[derive(Debug, Clone, Copy, PartialEq, Eq, Structural)]
pub enum PitchStep {
    C,
    D,
    E,
    F,
    G,
    A,
    B,
}

/// A written pitch: step, chromatic alteration in semitones, octave
/// (scientific pitch notation, C4 = middle C).
#[derive(Debug, Clone, Copy, PartialEq, Eq, Structural)]
pub struct Pitch {
    pub step: PitchStep,
    pub alter: i8,
    pub octave: u8,
}

/// Tie role of a note.
#[derive(Debug, Clone, Copy, PartialEq, Eq, Structural)]
pub enum TieType {
    /// The note rings into the next note of the same pitch.
    Start,
    /// The note continues a previous note (no new attack).
    End,
}

/// Written note value (the base of a duration).
#[derive(Debug, Clone, Copy, PartialEq, Eq, Structural)]
pub enum NoteValue {
    Whole,
    Half,
    Quarter,
    Eighth,
    Sixteenth,
    ThirtySecond,
    SixtyFourth,
    HundredTwentyEighth,
    /// Any other denominator.
    Other(u16),
}

/// Tuplet ratio: `actual` notes in the time of `normal`.
#[derive(Debug, Clone, Copy, PartialEq, Eq, Structural)]
pub struct Tuplet {
    pub actual: u8,
    pub normal: u8,
}

/// A beat's duration: base value, augmentation dots and tuplet.
#[derive(Debug, Clone, Copy, PartialEq, Eq, Structural)]
pub struct Duration {
    pub base: NoteValue,
    pub dots: u8,
    pub tuplet: Option<Tuplet>,
}

/// A playing technique.
#[derive(Debug, Clone, Copy, PartialEq, Eq, Structural)]
pub enum TechniqueKind {
    HammerOn,
    PullOff,
    LetRing,
    Vibrato,
    /// Palm mute.
    HalfMuted,
    SlideUp,
    SlideLegato,
    SlideDown,
    SlideOutUp,
    SlideIntoAbove,
    SlideIntoBelow,
    Bend,
    Harmonic,
}

/// Parameters of a technique.
#[derive(Debug, Clone, Copy, PartialEq, Eq, Structural)]
pub enum TechniqueParams {
    /// No parameter.
    Plain,
    Harmonic { natural: bool },
}

/// A technique applied to a note.
#[derive(Debug, Clone, Copy, PartialEq, Eq, Structural)]
pub struct Technique {
    pub kind: TechniqueKind,
    pub params: TechniqueParams,
}

/// An articulation mark.
#[derive(Debug, Clone, Copy, PartialEq, Eq, Structural)]
pub enum Articulation {
    Staccato,
    Accent,
    Marcato,
}

/// A special notehead.
#[derive(Debug, Clone, Copy, PartialEq, Eq, Structural)]
pub enum Notehead {
    /// A cross: a dead (muted) note.
    X,
}

/// A point of a Guitar Pro bend curve.
#[derive(Debug, Clone, Copy, PartialEq, Eq, Structural)]
pub struct GpBendPoint {
    pub position: u8,
    pub value: i16,
    pub vibrato: bool,
}

/// A Guitar Pro bend, kept for a lossless trip back.
#[derive(Debug, Clone, PartialEq, Eq)]
pub struct GpBendEffect {
    pub points: Vec<GpBendPoint>,
}

/// A Guitar Pro harmonic, kept for a lossless trip back: its kind code
/// (1 natural, 2 artificial, 3 tapped, 4 pinch, 5 semi).
#[derive(Debug, Clone, Copy, PartialEq, Eq, Structural)]
pub struct GpHarmonicEffect {
    pub kind: u8,
}

/// A note: either tablature (string + fret), a written pitch, or both, with
/// its techniques, articulations and notehead.
#[derive(Debug, Clone, PartialEq, Eq)]
pub struct Note {
    pub pitch: Option<Pitch>,
    /// 1-based string number (string 1 = highest).
    pub string: Option<u8>,
    pub fret: Option<u8>,
    pub tie: Option<TieType>,
    /// The note is a rest placeholder.
    pub gp_is_rest: bool,
    pub techniques: Vec<Technique>,
    pub articulations: Vec<Articulation>,
    pub notehead: Option<Notehead>,
    pub gp_harmonic: Option<GpHarmonicEffect>,
    pub gp_bend: Option<GpBendEffect>,
    /// A ghost (parenthesized) note.
    pub gp_ghost: bool,
    pub gp_swap_accidentals: bool,
    /// The note's own velocity.
    pub gp_velocity: Option<i16>,
}

/// A note carries no technique, articulation, notehead or Guitar Pro
/// detail.
pub open spec fn plain_note(n: Note) -> bool {
    &&& n.techniques@.len() == 0
    &&& n.articulations@.len() == 0
    &&& n.notehead is None
    &&& n.gp_harmonic is None
    &&& n.gp_bend is None
    &&& !n.gp_ghost
    &&& !n.gp_swap_accidentals
    &&& n.gp_velocity is None
}

/// The pitch, tablature, tie and rest flag of a note.
#[derive(Debug, Clone, Copy, PartialEq, Eq, Structural)]
pub struct NoteCore {
    pub pitch: Option<Pitch>,
    pub string: Option<u8>,
    pub fret: Option<u8>,
    pub tie: Option<TieType>,
    pub gp_is_rest: bool,
}

/// The pitch, tablature, tie and rest flag of `n`.
pub open spec fn core_of(n: Note) -> NoteCore {
    NoteCore { pitch: n.pitch, string: n.string, fret: n.fret, tie: n.tie, gp_is_rest: n.gp_is_rest }
}

/// A note with the given pitch, tablature, tie and rest flag, and nothing
/// else.
pub fn plain_note_of(
    pitch: Option<Pitch>,
    string: Option<u8>,
    fret: Option<u8>,
    tie: Option<TieType>,
    gp_is_rest: bool,
) -> (r: Note)
    ensures
        core_of(r) == (NoteCore { pitch, string, fret, tie, gp_is_rest }),
        plain_note(r),
{
    Note {
        pitch,
        string,
        fret,
        tie,
        gp_is_rest,
        techniques: Vec::new(),
        articulations: Vec::new(),
        notehead: None,
        gp_harmonic: None,
        gp_bend: None,
        gp_ghost: false,
        gp_swap_accidentals: false,
        gp_velocity: None,
    }
}

impl Default for Note {
    /// No pitch, no tablature, no tie, not a rest, and nothing else.
    fn default() -> (r: Self)
        ensures
            r.pitch is None && r.string is None && r.fret is None && r.tie is None && !r.gp_is_rest,
            plain_note(r),
    {
        Note {
            pitch: None,
            string: None,
            fret: None,
            tie: None,
            gp_is_rest: false,
            techniques: Vec::new(),
            articulations: Vec::new(),
            notehead: None,
            gp_harmonic: None,
            gp_bend: None,
            gp_ghost: false,
            gp_swap_accidentals: false,
            gp_velocity: None,
        }
    }
}

/// A beat: the notes struck together at one tick of a voice.
#[derive(Debug)]
pub struct Beat {
    /// Tick offset from the start of the measure.
    pub tick_offset: u32,
    pub duration: Duration,
    pub notes: Vec<Note>,
    /// The beat's dynamic marking, if any.
    pub dynamic: Option<Dynamic>,
    /// Filler beat with no musical content.
    pub gp_empty: bool,
    /// Rest beat.
    pub gp_rest: bool,
}

/// One voice of a measure.
#[derive(Debug)]
pub struct Voice {
    pub voice_id: u8,
    pub beats: Vec<Beat>,
}

/// Kind of a measure-repeat (simile) sign.
#[derive(Debug, Clone, Copy, PartialEq, Eq, Structural)]
pub enum MeasureRepeatKind {
    Single,
    Double,
    Fourth,
}

/// A measure-repeat sign carried by a measure.
#[derive(Debug, Clone, Copy, PartialEq, Eq, Structural)]
pub struct MeasureRepeat {
    pub kind: MeasureRepeatKind,
}

/// The content of one track in one measure.
#[derive(Debug)]
pub struct MeasureData {
    pub measure_index: u16,
    pub repeat: Option<MeasureRepeat>,
    /// Voices ordered by strictly increasing `voice_id`.
    pub voices: Vec<Voice>,
    /// Simile mark recorded by the source file, if any.
    pub gp_simile_mark: Option<String>,
}

/// A track: the instrument that plays it, its staves, and its measures
/// ordered by strictly increasing `measure_index`.
#[derive(Debug)]
pub struct Track {
    pub name: String,
    /// Position of the track's instrument among the score's instruments.
    pub instrument: u8,
    /// Positions of the track's staves among the score's staves.
    pub staves: Vec<u8>,
    pub measures: Vec<MeasureData>,
}

/// What kind of instrument plays a track.
#[derive(Debug, Clone)]
pub enum InstrumentKind {
    /// Unpitched percussion.
    Percussion,
    /// A fretted instrument with its open strings, highest first.
    Stringed { tuning: Vec<Pitch>, string_count: u8, capo: u8 },
    /// Any other pitched instrument.
    Pitched,
}

/// An instrument of the score and its MIDI playback.
#[derive(Debug, Clone)]
pub struct Instrument {
    pub name: String,
    /// 0-based MIDI channel.
    pub midi_channel: u8,
    pub midi_program: u8,
    pub kind: InstrumentKind,
    /// The open strings as MIDI values, as the source file gave them.
    pub gp_strings: Vec<i8>,
}

/// How a staff is drawn.
#[derive(Debug, Clone, Copy, PartialEq, Eq, Structural)]
pub enum StaffDisplay {
    Notation,
    Tab,
}

/// A staff: its clef and how it is drawn.
#[derive(Debug, Clone, Copy, PartialEq, Eq, Structural)]
pub struct StaffDef {
    pub clef: Clef,
    pub display: StaffDisplay,
}

/// Identification of a score: named miscellaneous fields, in order.
#[derive(Debug)]
pub struct Identification {
    pub miscellaneous: Vec<(String, String)>,
}

/// Score-wide metadata.
#[derive(Debug)]
pub struct Metadata {
    pub title: String,
    pub artist: Option<String>,
    pub album: Option<String>,
    pub composer: Option<String>,
    pub copyright: Option<String>,
    pub identification: Option<Identification>,
    /// Initial tempo in quarter notes per minute.
    pub master_tempo: i32,
    pub time_signature: TimeSignature,
    pub key_signature: KeySignature,
}

/// A score: metadata, instruments, staves, tracks and the global timeline.
#[derive(Debug)]
pub struct Score {
    pub metadata: Metadata,
    pub instruments: Vec<Instrument>,
    pub staves: Vec<StaffDef>,
    pub tracks: Vec<Track>,
    /// One definition per measure.
    pub timeline: Vec<MeasureDef>,
}

/// A score as loaded from a file.
#[derive(Debug)]
pub struct LoadedScore {
    pub score: Score,
}

/// A time signature.
#[derive(Debug, Clone, Copy, PartialEq, Eq, Structural)]
pub struct TimeSignature {
    pub numerator: u8,
    pub denominator: u8,
}

/// The global (all-track) definition of one measure.
#[derive(Debug, Clone, Copy, PartialEq, Eq, Structural)]
pub struct MeasureDef {
    pub index: u16,
    /// A tempo (quarter notes per minute) that this measure introduces, if
    /// any.
    pub tempo: Option<i32>,
    /// A time signature that this measure introduces, if any.
    pub time_signature: Option<TimeSignature>,
    /// A key signature that this measure introduces, if any.
    pub key_signature: Option<KeySignature>,
}

/// Mode of a key.
#[derive(Debug, Clone, Copy, PartialEq, Eq, Structural)]
pub enum Mode {
    Major,
    Minor,
    Dorian,
    Phrygian,
    Lydian,
    Mixolydian,
    Locrian,
}

/// A key signature: its tonic and mode.
#[derive(Debug, Clone, Copy, PartialEq, Eq, Structural)]
pub struct KeySignature {
    pub root: Pitch,
    pub mode: Mode,
}

/// A dynamic marking, softest first.
#[derive(Debug, Clone, Copy, PartialEq, Eq, Structural)]
pub enum Dynamic {
    PPP,
    PP,
    P,
    MP,
    MF,
    F,
    FF,
    FFF,
}

/// A left-hand finger.
#[derive(Debug, Clone, Copy, PartialEq, Eq, Structural)]
pub enum Finger {
    Thumb,
    Index,
    Middle,
    Ring,
    Pinky,
    Open,
}

/// Clef of a staff.
#[derive(Debug, Clone, Copy, PartialEq, Eq, Structural)]
pub enum Clef {
    Treble,
    Bass,
    Alto,
    Tenor,
    Percussion,
    Tab,
}

// ---------------------------------------------------------------------------
// Well-formedness
// ---------------------------------------------------------------------------

/// Voices are keyed by their id: ids strictly increase along the vector.
pub open spec fn voices_wf(voices: Seq<Voice>) -> bool {
    forall|i: int, j: int| 0 <= i < j < voices.len() ==> voices[i].voice_id < voices[j].voice_id
}

/// Measures are keyed by their index: indices strictly increase.
pub open spec fn measures_wf(measures: Seq<MeasureData>) -> bool {
    forall|i: int, j: int|
        0 <= i < j < measures.len() ==> measures[i].measure_index < measures[j].measure_index
}

impl MeasureData {
    pub open spec fn wf(&self) -> bool {
        voices_wf(self.voices@)
    }
}

impl Track {
    pub open spec fn wf(&self) -> bool {
        &&& measures_wf(self.measures@)
        &&& forall|i: int| 0 <= i < self.measures@.len() ==> #[trigger] self.measures@[i].wf()
    }
}

// ---------------------------------------------------------------------------
// Pitch arithmetic shared by the analyses
// ---------------------------------------------------------------------------

/// Semitones of a step above C.
pub open spec fn step_semitone(step: PitchStep) -> int {
    match step {
        PitchStep::C => 0,
        PitchStep::D => 2,
        PitchStep::E => 4,
        PitchStep::F => 5,
        PitchStep::G => 7,
        PitchStep::A => 9,
        PitchStep::B => 11,
    }
}

/// Semitones of a step above C.
pub fn pitch_step_semitone(step: PitchStep) -> (r: i32)
    ensures
        r == step_semitone(step),
{
    match step {
        PitchStep::C => 0,
        PitchStep::D => 2,
        PitchStep::E => 4,
        PitchStep::F => 5,
        PitchStep::G => 7,
        PitchStep::A => 9,
        PitchStep::B => 11,
    }
}

/// Open-string pitch of the first entry of `strings` whose string number
/// equals `s`.
pub open spec fn open_string_pitch(strings: Seq<(i8, i8)>, s: i8) -> Option<i8>
    decreases strings.len(),
{
    if strings.len() == 0 {
        None
    } else if strings[0].0 == s {
        Some(strings[0].1)
    } else {
        open_string_pitch(strings.drop_first(), s)
    }
}

/// Look up the open-string pitch of string `s` (first match wins).
pub fn find_open_string(strings: &[(i8, i8)], s: i8) -> (r: Option<i8>)
    ensures
        r == open_string_pitch(strings@, s),
{
    let mut i: usize = 0;
    assert(strings@.skip(0) =~= strings@);
    while i < strings.len()
        invariant
            i <= strings@.len(),
            open_string_pitch(strings@, s) == open_string_pitch(strings@.skip(i as int), s),
        decreases strings@.len() - i,
    {
        assert(strings@.skip(i as int).drop_first() =~= strings@.skip(i + 1));
        if strings[i].0 == s {
            return Some(strings[i].1);
        }
        i += 1;
    }
    assert(strings@.skip(i as int).len() == 0);
    None
}

} // verus!
