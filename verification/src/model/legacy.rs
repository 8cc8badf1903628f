//! The Guitar Pro (legacy) song model, as far as the converters read it.

use vstd::prelude::*;

verus! {

/// Ticks of a quarter note in the legacy model.
pub const DURATION_QUARTER_TIME: i64 = 960;

/// Note value of a quarter note.
pub const DURATION_QUARTER: u8 = 4;

/// A legacy duration: note value (1 = whole, 2 = half, 4 = quarter, …),
/// dot, and tuplet (`tuplet_enters` notes in the time of `tuplet_times`).
#[derive(Debug, Clone, Copy, PartialEq, Eq, Structural)]
pub struct Duration {
    pub value: u16,
    pub dotted: bool,
    pub tuplet_enters: u8,
    pub tuplet_times: u8,
}

impl Duration {
    /// Whether the tuplet is the plain 1:1.
    pub fn is_default_tuplet(&self) -> (r: bool)
        ensures
            r == (self.tuplet_enters == 1 && self.tuplet_times == 1),
    {
        self.tuplet_enters == 1 && self.tuplet_times == 1
    }
}

impl Default for Duration {
    /// An undotted quarter, no tuplet.
    fn default() -> (r: Self)
        ensures
            r == (Duration { value: 4, dotted: false, tuplet_enters: 1, tuplet_times: 1 }),
    {
        Duration { value: 4, dotted: false, tuplet_enters: 1, tuplet_times: 1 }
    }
}

/// Velocity of a note without an explicit dynamic (forte).
pub const DEFAULT_VELOCITY: i16 = 95;

/// A left-hand fingering of the legacy model.
#[derive(Debug, Clone, Copy, PartialEq, Eq, Structural)]
pub enum Fingering {
    Open,
    Thumb,
    Index,
    Middle,
    Annular,
    Little,
    Unknown(i8),
}

/// Display settings of a track, stored as bit flags in the file.
#[derive(Debug, Clone, Copy, PartialEq, Eq, Structural)]
pub struct TrackSettings {
    pub tablature: bool,
    pub notation: bool,
    pub diagram_are_below: bool,
    pub show_rhythm: bool,
    pub force_horizontal: bool,
    pub force_channels: bool,
    pub diagram_list: bool,
    pub diagram_in_score: bool,
    pub auto_let_ring: bool,
    pub auto_brush: bool,
    pub extend_rhythmic: bool,
}

/// A key signature in circle-of-fifths form: `key` sharps (positive) or
/// flats (negative), and whether the key is the relative minor.
#[derive(Debug, Clone, Copy, PartialEq, Eq, Structural)]
pub struct KeySignature {
    pub key: i8,
    pub is_minor: bool,
}

/// Kind of a slide.
#[derive(Debug, Clone, Copy, PartialEq, Eq, Structural)]
pub enum SlideType {
    IntoFromAbove,
    IntoFromBelow,
    NoSlide,
    ShiftSlideTo,
    LegatoSlideTo,
    OutDownwards,
    OutUpWards,
}

/// Kind of a harmonic.
#[derive(Debug, Clone, Copy, PartialEq, Eq, Structural)]
pub enum HarmonicType {
    Natural,
    Artificial,
    Tapped,
    Pinch,
    Semi,
}

/// A point of a bend curve; `value` in hundredths of a semitone.
#[derive(Debug, Clone, Copy, PartialEq, Eq, Structural)]
pub struct BendPoint {
    pub position: u8,
    pub value: i16,
    pub vibrato: bool,
}

/// A bend: its curve.
#[derive(Debug, Clone)]
pub struct BendEffect {
    pub points: Vec<BendPoint>,
}

/// Effects of a note.
#[derive(Debug, Clone)]
pub struct NoteEffect {
    pub hammer: bool,
    pub bend: Option<BendEffect>,
    pub let_ring: bool,
    pub palm_mute: bool,
    pub harmonic: Option<HarmonicType>,
    pub slides: Vec<SlideType>,
    pub vibrato: bool,
    pub staccato: bool,
    pub accentuated_note: bool,
    pub heavy_accentuated_note: bool,
    /// A ghost (parenthesized) note.
    pub ghost_note: bool,
}

/// No effect is set.
pub open spec fn no_effect(e: NoteEffect) -> bool {
    !e.hammer && e.bend is None && !e.let_ring && !e.palm_mute && e.harmonic is None
        && e.slides@.len() == 0 && !e.vibrato && !e.staccato && !e.accentuated_note
        && !e.heavy_accentuated_note && !e.ghost_note
}

impl Default for NoteEffect {
    /// No effect at all.
    fn default() -> (r: Self)
        ensures
            no_effect(r),
    {
        NoteEffect {
            hammer: false,
            bend: None,
            let_ring: false,
            palm_mute: false,
            harmonic: None,
            slides: Vec::new(),
            vibrato: false,
            staccato: false,
            accentuated_note: false,
            heavy_accentuated_note: false,
            ghost_note: false,
        }
    }
}

/// A note: fret (`value`), 1-based string (0 = none) and effects.
#[derive(Debug, Clone)]
pub struct Note {
    /// Fret, or the drum note on a percussion track.
    pub value: i16,
    /// 1-based string.
    pub string: i8,
    pub kind: NoteType,
    pub effect: NoteEffect,
    /// MIDI velocity.
    pub velocity: i16,
    pub swap_accidentals: bool,
}

impl Default for Note {
    /// Fret 0 on no string at the default velocity, without effects.
    fn default() -> (r: Self)
        ensures
            r.value == 0 && r.string == 0 && r.kind == NoteType::Normal && no_effect(r.effect)
                && r.velocity == DEFAULT_VELOCITY && !r.swap_accidentals,
    {
        Note {
            value: 0,
            string: 0,
            kind: NoteType::Normal,
            effect: NoteEffect::default(),
            velocity: DEFAULT_VELOCITY,
            swap_accidentals: false,
        }
    }
}

/// What a note is: sounding, a rest, tied to the previous note, or dead
/// (muted).
#[derive(Debug, Clone, Copy, PartialEq, Eq, Structural)]
pub enum NoteType {
    Rest,
    Normal,
    Tie,
    Dead,
}

/// Whether a beat is empty, sounds, or rests.
#[derive(Debug, Clone, Copy, PartialEq, Eq, Structural)]
pub enum BeatStatus {
    Empty,
    Normal,
    Rest,
}

/// A beat: the notes struck together, for how long.
#[derive(Debug, Clone)]
pub struct Beat {
    pub notes: Vec<Note>,
    pub duration: Duration,
    pub status: BeatStatus,
    /// Start tick in the measure's frame, where a measure begins at one
    /// quarter note (960 ticks); `None` when not known.
    pub start: Option<i64>,
}

/// A voice of a measure.
#[derive(Debug, Clone)]
pub struct Voice {
    pub beats: Vec<Beat>,
}

/// A MIDI channel of the song.
#[derive(Debug, Clone, Copy, PartialEq, Eq, Structural)]
pub struct MidiChannel {
    /// 0-based MIDI channel.
    pub channel: u8,
    pub instrument: i32,
    pub bank: u8,
    /// 0–127.
    pub volume: i8,
    /// 0–127, 64 = centre.
    pub balance: i8,
}

impl Default for MidiChannel {
    /// Channel 0, program 0, bank 0, volume 104, centred.
    fn default() -> (r: Self)
        ensures
            r == (MidiChannel { channel: 0, instrument: 0, bank: 0, volume: 104, balance: 64 }),
    {
        MidiChannel { channel: 0, instrument: 0, bank: 0, volume: 104, balance: 64 }
    }
}

/// Clef of a measure.
#[derive(Debug, Clone, Copy, PartialEq, Eq, Structural)]
pub enum MeasureClef {
    Treble,
    Bass,
    Tenor,
    Alto,
}

/// A measure of a track, as far as the converters read it.
#[derive(Debug)]
pub struct Measure {
    /// Position of this measure's header among the song's headers.
    pub header_index: usize,
    pub voices: Vec<Voice>,
    /// Simile mark of the measure (`Simple`, `FirstOfDouble`,
    /// `SecondOfDouble`), if any.
    pub simile_mark: Option<String>,
    pub clef: MeasureClef,
}

/// A track of the song.
#[derive(Debug)]
pub struct Track {
    /// 1-based position of the track in the song.
    pub number: i32,
    pub name: String,
    pub short_name: String,
    /// Index into the song's channels.
    pub channel_index: usize,
    pub percussion_track: bool,
    pub twelve_stringed_guitar_track: bool,
    pub banjo_track: bool,
    pub solo: bool,
    pub mute: bool,
    pub visible: bool,
    /// Strings as (1-based number, open-string MIDI pitch).
    pub strings: Vec<(i8, i8)>,
    pub measures: Vec<Measure>,
}

/// Triplet feel of a song.
#[derive(Debug, Clone, Copy, PartialEq, Eq, Structural)]
pub enum TripletFeel {
    /// Straight time.
    Straight,
    Eighth,
    Sixteenth,
}

/// The song's lyrics: the track they follow and their lines as
/// (line number, starting measure, text).
#[derive(Debug, Clone)]
pub struct Lyrics {
    pub track_choice: u8,
    pub lines: Vec<(u8, u16, String)>,
}

/// A song's metadata and tracks.
#[derive(Debug)]
pub struct Song {
    pub name: String,
    pub subtitle: String,
    pub artist: String,
    pub album: String,
    pub words: String,
    pub author: String,
    pub date: String,
    pub copyright: String,
    pub writer: String,
    pub instructions: String,
    pub transcriber: String,
    pub comments: String,
    pub notice: Vec<String>,
    /// The song's key.
    pub key: KeySignature,
    /// File format version as (major, minor, patch).
    pub version: (u8, u8, u8),
    /// Tempo in beats per minute.
    pub tempo: i16,
    /// The tempo's name (e.g. "Moderate").
    pub tempo_name: String,
    pub hide_tempo: bool,
    pub triplet_feel: TripletFeel,
    pub lyrics: Lyrics,
    pub tracks: Vec<Track>,
    pub channels: Vec<MidiChannel>,
    pub measure_headers: Vec<MeasureHeader>,
}

impl Default for Song {
    /// An empty song at 120 beats per minute.
    fn default() -> (r: Self)
        ensures
            r.name@.len() == 0,
            r.subtitle@.len() == 0,
            r.artist@.len() == 0,
            r.album@.len() == 0,
            r.words@.len() == 0,
            r.author@.len() == 0,
            r.date@.len() == 0,
            r.copyright@.len() == 0,
            r.writer@.len() == 0,
            r.instructions@.len() == 0,
            r.transcriber@.len() == 0,
            r.comments@.len() == 0,
            r.notice@.len() == 0,
            r.key == (KeySignature { key: 0, is_minor: false }),
            r.version == (0u8, 0u8, 0u8),
            r.tempo == 120,
            r.tempo_name@ == "Moderate"@,
            !r.hide_tempo,
            r.triplet_feel == TripletFeel::Straight,
            r.lyrics.track_choice == 0,
            r.lyrics.lines@.len() == 0,
            r.tracks@.len() == 0,
            r.channels@.len() == 0,
            r.measure_headers@.len() == 0,
    {
        proof {
            reveal_strlit("Moderate");
        }
        Song {
            name: String::new(),
            subtitle: String::new(),
            artist: String::new(),
            album: String::new(),
            words: String::new(),
            author: String::new(),
            date: String::new(),
            copyright: String::new(),
            writer: String::new(),
            instructions: String::new(),
            transcriber: String::new(),
            comments: String::new(),
            notice: Vec::new(),
            key: KeySignature { key: 0, is_minor: false },
            version: (0, 0, 0),
            tempo: 120,
            tempo_name: String::from_str("Moderate"),
            hide_tempo: false,
            triplet_feel: TripletFeel::Straight,
            lyrics: Lyrics { track_choice: 0, lines: Vec::new() },
            tracks: Vec::new(),
            channels: Vec::new(),
            measure_headers: Vec::new(),
        }
    }
}

/// A navigation sign of a measure.
#[derive(Debug, Clone, Copy, PartialEq, Eq, Structural)]
pub enum DirectionSign {
    Coda,
    DoubleCoda,
    Segno,
    SegnoSegno,
    Fine,
    DaCapo,
    DaCapoAlCoda,
    DaCapoAlDoubleCoda,
    DaCapoAlFine,
    DaSegno,
    DaSegnoAlCoda,
    DaSegnoAlDoubleCoda,
    DaSegnoAlFine,
    DaSegnoSegno,
    DaSegnoSegnoAlCoda,
    DaSegnoSegnoAlDoubleCoda,
    DaSegnoSegnoAlFine,
    DaCoda,
    DaDoubleCoda,
}

/// A rehearsal marker.
#[derive(Debug, Clone, PartialEq, Eq)]
pub struct Marker {
    pub title: String,
}

/// A time signature: beats per measure, the beat's note value, and the
/// beaming groups.
#[derive(Debug)]
pub struct TimeSignature {
    pub numerator: i8,
    pub denominator: Duration,
    pub beams: Vec<u8>,
}

/// The header of a measure: number, tempo, signatures and navigation.
#[derive(Debug)]
pub struct MeasureHeader {
    /// 1-based bar number.
    pub number: u16,
    /// Start tick of the measure, where the first measure begins at one
    /// quarter note (960 ticks).
    pub start: i64,
    /// Tempo in beats per minute; 0 or less when the measure sets none.
    pub tempo: i32,
    pub time_signature: TimeSignature,
    pub key_signature: KeySignature,
    /// A repeat opens at this measure.
    pub repeat_open: bool,
    /// A repeat closes here, repeated this many times (the section plays
    /// `repeat_close + 1` times); negative for no close.
    pub repeat_close: i8,
    /// Volta endings as a bitmask: bit `k` set for ending `k + 1`.
    pub repeat_alternative: u8,
    pub direction: Option<DirectionSign>,
    pub marker: Option<Marker>,
}

} // verus!
