//! The MusicXML document model, as far as the converters build it.
//!
//! Decimal quantities of MusicXML are held exactly as integers: a pitch's
//! `alter` in semitones, a bend's alteration in hundredths of a semitone,
//! a MIDI instrument's volume and pan as the raw channel values they are
//! computed from.

use vstd::prelude::*;

verus! {

/// Graphic note type.
#[derive(Debug, Clone, Copy, PartialEq, Eq, Structural)]
pub enum NoteTypeValue {
    Whole,
    Half,
    Quarter,
    Eighth,
    N16th,
    N32nd,
    N64th,
    N128th,
}

/// A written pitch.
#[derive(Debug, Clone, PartialEq, Eq)]
pub struct Pitch {
    pub step: String,
    /// Chromatic alteration in semitones.
    pub alter: Option<i8>,
    pub octave: i8,
}

/// A tuplet's time modification.
#[derive(Debug, Clone, Copy, PartialEq, Eq, Structural)]
pub struct TimeModification {
    pub actual_notes: u8,
    pub normal_notes: u8,
    pub normal_type: Option<NoteTypeValue>,
    /// Number of dots of the normal type.
    pub normal_dots: u8,
}

/// A clef.
#[derive(Debug, Clone, PartialEq, Eq)]
pub struct Clef {
    /// Staff number within the part, when the part has several staves.
    pub number: Option<u8>,
    pub additional: Option<bool>,
    pub size: Option<String>,
    pub after_barline: Option<bool>,
    pub print_object: Option<bool>,
    pub sign: String,
    pub line: Option<u8>,
    pub clef_octave_change: Option<i8>,
}

/// A rest.
#[derive(Debug, Clone, PartialEq, Eq)]
pub struct Rest {
    pub measure: Option<bool>,
    pub display_step: Option<String>,
    pub display_octave: Option<i8>,
}

/// A note's graphic type.
#[derive(Debug, Clone, PartialEq, Eq)]
pub struct NoteType {
    pub size: Option<String>,
    pub value: NoteTypeValue,
}

/// An augmentation dot.
#[derive(Debug, Clone, PartialEq, Eq)]
pub struct Dot {
    pub placement: Option<String>,
}

/// A tie of a note: `start` or `stop`.
#[derive(Debug, Clone, PartialEq, Eq)]
pub struct Tie {
    pub tie_type: String,
}

/// A note or rest.
#[derive(Debug)]
pub struct Note {
    pub pitch: Option<Pitch>,
    pub rest: Option<Rest>,
    /// Present on the second and later notes of a chord.
    pub chord: Option<()>,
    /// Present on a grace note.
    pub grace: Option<()>,
    /// Duration in divisions.
    pub duration: Option<u32>,
    pub ties: Vec<Tie>,
    pub voice: Option<String>,
    pub note_type: Option<NoteType>,
    pub dots: Vec<Dot>,
    pub time_modification: Option<TimeModification>,
    pub notations: Vec<Notations>,
}

/// A `<backup>`: moves the time cursor back by `duration` divisions.
#[derive(Debug, Clone, Copy, PartialEq, Eq, Structural)]
pub struct Backup {
    pub duration: u32,
}

/// A `<forward>`: moves the time cursor on by `duration` divisions.
#[derive(Debug, Clone, Copy, PartialEq, Eq, Structural)]
pub struct Forward {
    pub duration: u32,
}

/// A key signature.
#[derive(Debug, Clone, PartialEq, Eq)]
pub struct Key {
    pub fifths: Option<i8>,
    pub mode: Option<String>,
}

/// A time signature, its numbers as written.
#[derive(Debug, Clone, PartialEq, Eq)]
pub struct Time {
    pub beats: Option<String>,
    pub beat_type: Option<String>,
}

/// The open-string pitch of one line of a tablature staff.
#[derive(Debug, Clone, PartialEq, Eq)]
pub struct StaffTuning {
    /// 1-based line, line 1 the lowest.
    pub line: u8,
    pub tuning_step: String,
    pub tuning_alter: Option<i8>,
    pub tuning_octave: i8,
}

/// Details of a staff.
#[derive(Debug)]
pub struct StaffDetails {
    pub number: Option<u8>,
    pub staff_type: Option<String>,
    pub staff_lines: Option<u8>,
    pub staff_tunings: Vec<StaffTuning>,
}

/// A measure's `<attributes>`.
#[derive(Debug)]
pub struct Attributes {
    pub divisions: Option<u32>,
    pub keys: Vec<Key>,
    pub times: Vec<Time>,
    pub staves: Option<u8>,
    pub clefs: Vec<Clef>,
    pub staff_details: Vec<StaffDetails>,
}

/// The beats per minute of a metronome mark, as written.
#[derive(Debug, Clone, PartialEq, Eq)]
pub struct PerMinute {
    pub value: String,
}

/// A metronome mark.
#[derive(Debug, Clone, PartialEq, Eq)]
pub struct Metronome {
    pub beat_unit: Option<String>,
    pub per_minute: Option<PerMinute>,
}

/// What a direction shows.
#[derive(Debug, Clone, PartialEq, Eq)]
pub enum DirectionType {
    Metronome(Metronome),
}

/// The playback part of a direction: its tempo, in beats per minute (a
/// whole number wherever the converters write one).
#[derive(Debug, Clone, Copy, PartialEq, Eq, Structural)]
pub struct Sound {
    pub tempo: Option<i32>,
}

/// A direction.
#[derive(Debug)]
pub struct Direction {
    pub placement: Option<String>,
    pub direction_types: Vec<DirectionType>,
    pub sound: Option<Sound>,
}

/// Style of a barline.
#[derive(Debug, Clone, Copy, PartialEq, Eq, Structural)]
pub enum BarStyle {
    HeavyLight,
    LightHeavy,
}

/// A repeat sign of a barline.
#[derive(Debug, Clone, PartialEq, Eq)]
pub struct Repeat {
    /// `forward` or `backward`.
    pub direction: String,
    pub times: Option<u8>,
}

/// A barline.
#[derive(Debug, Clone, PartialEq, Eq)]
pub struct Barline {
    /// `left` or `right`.
    pub location: Option<String>,
    pub bar_style: Option<BarStyle>,
    pub repeat: Option<Repeat>,
}

/// An element of a measure's music data.
#[derive(Debug)]
pub enum MusicData {
    Note(Note),
    Backup(Backup),
    Forward(Forward),
    Attributes(Attributes),
    Direction(Direction),
    Barline(Barline),
    /// A `<sound>` outside a direction.
    Sound(Sound),
}

/// A measure of a part.
#[derive(Debug)]
pub struct Measure {
    pub number: String,
    pub music_data: Vec<MusicData>,
}

/// A part: its id in the part list and its measures.
#[derive(Debug)]
pub struct Part {
    pub id: String,
    pub measures: Vec<Measure>,
}

// ---------------------------------------------------------------------------
// Notations
// ---------------------------------------------------------------------------

/// Fret of a tablature note.
#[derive(Debug, Clone, Copy, PartialEq, Eq, Structural)]
pub struct Fret {
    pub value: u8,
}

/// String of a tablature note.
#[derive(Debug, Clone, Copy, PartialEq, Eq, Structural)]
pub struct StringNumber {
    pub value: u8,
}

/// A hammer-on or pull-off.
#[derive(Debug, Clone, PartialEq, Eq)]
pub struct HammerPull {
    pub technique_type: String,
    pub number: Option<u8>,
}

/// A bend, its alteration in hundredths of a semitone.
#[derive(Debug, Clone, Copy, PartialEq, Eq, Structural)]
pub struct Bend {
    pub bend_alter_hundredths: i32,
}

/// A technical marking carried by its text.
#[derive(Debug, Clone, PartialEq, Eq)]
pub struct OtherPlacement {
    pub value: Option<String>,
}

/// A harmonic.
#[derive(Debug, Clone, Copy, PartialEq, Eq, Structural)]
pub struct Harmonic {
    pub natural: bool,
    pub artificial: bool,
}

/// Technical markings of a note.
#[derive(Debug)]
pub struct Technical {
    pub harmonic: Option<Harmonic>,
    pub fret: Option<Fret>,
    pub string: Option<StringNumber>,
    pub hammer_on: Option<HammerPull>,
    pub pull_off: Option<HammerPull>,
    pub bend: Option<Bend>,
    pub half_muted: Option<OtherPlacement>,
    pub other_technical: Option<OtherPlacement>,
}

/// A slide.
#[derive(Debug, Clone, PartialEq, Eq)]
pub struct Slide {
    pub slide_type: String,
    pub line_type: Option<String>,
}

/// A wavy line (vibrato).
#[derive(Debug, Clone, PartialEq, Eq)]
pub struct WavyLine {
    pub wavy_type: String,
}

/// Ornaments of a note.
#[derive(Debug, Clone, PartialEq, Eq)]
pub struct Ornaments {
    pub wavy_line: Option<WavyLine>,
}

/// An articulation mark without content.
#[derive(Debug, Clone, PartialEq, Eq)]
pub struct PlacedEmpty {
    pub placement: Option<String>,
}

/// A strong accent.
#[derive(Debug, Clone, PartialEq, Eq)]
pub struct StrongAccent {
    pub accent_type: Option<String>,
}

/// Articulations of a note.
#[derive(Debug, Clone, PartialEq, Eq)]
pub struct Articulations {
    pub accent: Option<PlacedEmpty>,
    pub strong_accent: Option<StrongAccent>,
    pub staccato: Option<PlacedEmpty>,
}

/// A note's `<notations>` block.
#[derive(Debug)]
pub struct Notations {
    pub slides: Vec<Slide>,
    pub ornaments: Option<Ornaments>,
    pub technical: Option<Technical>,
    pub articulations: Vec<Articulations>,
}

// ---------------------------------------------------------------------------
// Identification
// ---------------------------------------------------------------------------

/// A creator (composer, arranger, …).
#[derive(Debug, Clone, PartialEq, Eq)]
pub struct Creator {
    pub creator_type: Option<String>,
    pub value: String,
}

/// A rights statement.
#[derive(Debug, Clone, PartialEq, Eq)]
pub struct Rights {
    pub rights_type: Option<String>,
    pub value: String,
}

/// A `<supports>` declaration.
#[derive(Debug, Clone, PartialEq, Eq)]
pub struct Supports {
    pub supports_type: String,
    pub element: String,
}

/// Encoding information.
#[derive(Debug)]
pub struct Encoding {
    pub software: Vec<String>,
    pub supports: Vec<Supports>,
}

/// A named miscellaneous field.
#[derive(Debug, Clone, PartialEq, Eq)]
pub struct MiscellaneousField {
    pub name: String,
    pub value: String,
}

/// Miscellaneous fields.
#[derive(Debug)]
pub struct Miscellaneous {
    pub fields: Vec<MiscellaneousField>,
}

/// A document's identification.
#[derive(Debug)]
pub struct Identification {
    pub creators: Vec<Creator>,
    pub rights: Vec<Rights>,
    pub encoding: Option<Encoding>,
    pub miscellaneous: Option<Miscellaneous>,
}

// ---------------------------------------------------------------------------
// Part list
// ---------------------------------------------------------------------------

/// A part or instrument name.
#[derive(Debug, Clone, PartialEq, Eq)]
pub struct PartName {
    pub value: Option<String>,
}

/// An instrument of a part.
#[derive(Debug, Clone, PartialEq, Eq)]
pub struct ScoreInstrument {
    pub id: String,
    pub instrument_name: String,
}

/// MIDI playback of an instrument.  `volume` and `pan` hold the channel's
/// raw values (0–127, pan centred on 64); the document's percentages are
/// `volume / 127 * 100` and `(pan - 64) / 63 * 90`.
#[derive(Debug, Clone, PartialEq, Eq)]
pub struct MidiInstrument {
    pub id: String,
    pub midi_channel: Option<u8>,
    pub midi_bank: Option<u16>,
    pub midi_program: Option<u8>,
    pub midi_unpitched: Option<u8>,
    pub volume: Option<i8>,
    pub pan: Option<i8>,
}

/// A part of the part list.
#[derive(Debug)]
pub struct ScorePart {
    pub id: String,
    pub part_name: Option<PartName>,
    pub part_abbreviation: Option<PartName>,
    pub score_instruments: Vec<ScoreInstrument>,
    pub midi_instruments: Vec<MidiInstrument>,
}

/// An entry of the part list.
#[derive(Debug)]
pub enum PartListItem {
    ScorePart(ScorePart),
}

/// The part list.
#[derive(Debug)]
pub struct PartList {
    pub items: Vec<PartListItem>,
}

/// The work a score belongs to.
#[derive(Debug, Clone, PartialEq, Eq)]
pub struct Work {
    pub work_title: Option<String>,
}

/// A `score-partwise` document: its header (work, movement title,
/// identification), part list and parts.
#[derive(Debug)]
pub struct ScorePartwise {
    pub work: Option<Work>,
    pub movement_title: Option<String>,
    pub identification: Option<Identification>,
    pub part_list: PartList,
    pub parts: Vec<Part>,
}

} // verus!
