//! Per-measure conversion: attributes, barlines, tempo direction, voices.

use vstd::prelude::*;

use crate::convert::musicxml::helpers::{div12_toward_zero, midi_to_pitch, sharp_spelling};
use crate::convert::musicxml::note::{build_voices, item_ok, measure_items, voices_convertible};
use crate::convert::musicxml::DIVISIONS;
use crate::model::legacy::{Measure as GpMeasure, MeasureClef, MeasureHeader, Song, Track};
use crate::model::musicxml::{
    Attributes, BarStyle, Barline, Clef, Direction, DirectionType, Key, Measure, Metronome, MusicData,
    PerMinute, Repeat, Sound, StaffDetails, StaffTuning, Time,
};
use crate::text::{decimal, prefixed_decimal, push_decimal, push_signed_decimal, signed_decimal};

verus! {

/// `c` has the given sign, line and staff number, and nothing else set.
pub open spec fn clef_is(c: Clef, sign: Seq<char>, line: Option<u8>, number: Option<u8>) -> bool {
    &&& c.sign@ == sign
    &&& c.line == line
    &&& c.number == number
    &&& c.additional is None
    &&& c.size is None
    &&& c.after_barline is None
    &&& c.print_object is None
    &&& c.clef_octave_change is None
}

/// A clef with the given sign, line and staff number, every other field
/// unset.
pub fn make_clef(sign: &str, line: Option<u8>, number: Option<u8>) -> (r: Clef)
    ensures
        clef_is(r, sign@, line, number),
{
    Clef {
        number,
        additional: None,
        size: None,
        after_barline: None,
        print_object: None,
        sign: String::from_str(sign),
        line,
        clef_octave_change: None,
    }
}

/// Sign and line of the notation clef of a measure clef.
pub open spec fn clef_sign_line(c: MeasureClef) -> (Seq<char>, Option<u8>) {
    match c {
        MeasureClef::Treble => ("G"@, Some(2u8)),
        MeasureClef::Bass => ("F"@, Some(4u8)),
        MeasureClef::Tenor => ("C"@, Some(4u8)),
        MeasureClef::Alto => ("C"@, Some(3u8)),
    }
}

/// `t` tunes line `i + 1` of a tablature staff over `strings` (string 1
/// the highest): lines count up from the lowest string, each with the
/// sharp-spelled pitch of its open string.
pub open spec fn tuning_ok(t: StaffTuning, strings: Seq<(i8, i8)>, i: int) -> bool {
    let midi = strings[strings.len() - 1 - i].1 as int;
    &&& t.line == (i + 1) as u8
    &&& t.tuning_step@ == sharp_spelling(midi % 12).0
    &&& t.tuning_alter == sharp_spelling(midi % 12).1
    &&& t.tuning_octave == div12_toward_zero(midi) - 1
}

/// `a` is the `<attributes>` of the first measure: the divisions, the
/// header's key and time, two staves (notation with the measure's clef,
/// then tablature) and the tablature staff's tuning.
pub open spec fn attributes_ok(a: Attributes, measure: GpMeasure, header: MeasureHeader, strings: Seq<(i8, i8)>) -> bool {
    &&& a.divisions == Some(DIVISIONS)
    &&& a.keys@.len() == 1
    &&& a.keys@[0].fifths == Some(header.key_signature.key)
    &&& a.keys@[0].mode is Some
    &&& a.keys@[0].mode->0@ == if header.key_signature.is_minor {
        "minor"@
    } else {
        "major"@
    }
    &&& a.times@.len() == 1
    &&& a.times@[0].beats is Some
    &&& a.times@[0].beats->0@ == signed_decimal(header.time_signature.numerator as int)
    &&& a.times@[0].beat_type is Some
    &&& a.times@[0].beat_type->0@ == decimal(header.time_signature.denominator.value as nat)
    &&& a.staves == Some(2u8)
    &&& a.clefs@.len() == 2
    &&& clef_is(a.clefs@[0], clef_sign_line(measure.clef).0, clef_sign_line(measure.clef).1, None)
    &&& clef_is(a.clefs@[1], "TAB"@, None, Some(2u8))
    &&& a.staff_details@.len() == 1
    &&& a.staff_details@[0].number == Some(2u8)
    &&& a.staff_details@[0].staff_type is Some
    &&& a.staff_details@[0].staff_type->0@ == "tab"@
    &&& a.staff_details@[0].staff_lines == Some(strings.len() as u8)
    &&& a.staff_details@[0].staff_tunings@.len() == strings.len()
    &&& forall|i: int|
        0 <= i < strings.len() ==> tuning_ok(#[trigger] a.staff_details@[0].staff_tunings@[i], strings, i)
}

/// The tempo of the first measure: the header's when it sets one, else
/// the song's.
pub open spec fn opening_tempo(song: Song, header: MeasureHeader) -> int {
    if header.tempo > 0 {
        header.tempo as int
    } else {
        song.tempo as int
    }
}

/// `d` is the tempo direction: above the staff, a metronome mark of
/// `tempo` quarters per minute (written as 0 when negative), and the tempo
/// for playback.
pub open spec fn tempo_direction_ok(d: Direction, tempo: int) -> bool {
    &&& d.placement is Some
    &&& d.placement->0@ == "above"@
    &&& d.direction_types@.len() == 1
    &&& d.direction_types@[0] matches DirectionType::Metronome(m) && m.beat_unit is Some
        && m.beat_unit->0@ == "quarter"@ && m.per_minute is Some && m.per_minute->0.value@ == decimal(
        (if tempo < 0 {
            0
        } else {
            tempo
        }) as nat,
    )
    &&& d.sound == Some(Sound { tempo: Some(tempo as i32) })
}

/// `b` is the barline on `location` with the given style and repeat
/// direction, repeated `times` times when given.
pub open spec fn barline_ok(
    b: Barline,
    location: Seq<char>,
    style: BarStyle,
    direction: Seq<char>,
    times: Option<u8>,
) -> bool {
    &&& b.location is Some
    &&& b.location->0@ == location
    &&& b.bar_style == Some(style)
    &&& b.repeat is Some
    &&& b.repeat->0.direction@ == direction
    &&& b.repeat->0.times == times
}

/// What comes before a measure's notes.
pub enum Head {
    /// The barline that opens a repeat.
    OpenRepeat,
    /// The first measure's attributes.
    Attributes,
    /// The first track's tempo direction.
    Tempo,
    /// The barline that closes a repeat.
    CloseRepeat,
}

/// What comes before the notes of measure `measure_idx` of track
/// `track_idx`: an opening repeat barline, the attributes (first measure),
/// the tempo (first measure of the first track), and a closing repeat
/// barline.
pub open spec fn heads(header: MeasureHeader, track_idx: int, measure_idx: int) -> Seq<Head> {
    (if header.repeat_open {
        seq![Head::OpenRepeat]
    } else {
        Seq::empty()
    }) + (if measure_idx == 0 {
        seq![Head::Attributes]
    } else {
        Seq::empty()
    }) + (if measure_idx == 0 && track_idx == 0 {
        seq![Head::Tempo]
    } else {
        Seq::empty()
    }) + (if header.repeat_close > 0 {
        seq![Head::CloseRepeat]
    } else {
        Seq::empty()
    })
}

/// `x` is the element that `h` stands for.
pub open spec fn head_ok(
    x: MusicData,
    h: Head,
    song: Song,
    track: Track,
    measure: GpMeasure,
    header: MeasureHeader,
) -> bool {
    match h {
        Head::OpenRepeat => x matches MusicData::Barline(b) && barline_ok(
            b,
            "left"@,
            BarStyle::HeavyLight,
            "forward"@,
            None,
        ),
        Head::Attributes => x matches MusicData::Attributes(a) && attributes_ok(
            a,
            measure,
            header,
            track.strings@,
        ),
        Head::Tempo => x matches MusicData::Direction(d) && tempo_direction_ok(d, opening_tempo(song, header)),
        Head::CloseRepeat => x matches MusicData::Barline(b) && barline_ok(
            b,
            "right"@,
            BarStyle::LightHeavy,
            "backward"@,
            Some(header.repeat_close as u8),
        ),
    }
}

/// The tuning of a tablature staff over `strings`, lowest string first.
fn staff_tunings(strings: &Vec<(i8, i8)>) -> (r: Vec<StaffTuning>)
    ensures
        r@.len() == strings@.len(),
        forall|i: int| 0 <= i < strings@.len() ==> tuning_ok(#[trigger] r@[i], strings@, i),
{
    let n = strings.len();
    let mut out: Vec<StaffTuning> = Vec::new();
    let mut i: usize = 0;
    while i < n
        invariant
            n == strings@.len(),
            i <= n,
            out@.len() == i,
            forall|k: int| 0 <= k < i ==> tuning_ok(#[trigger] out@[k], strings@, k),
        decreases n - i,
    {
        let midi = strings[n - 1 - i].1;
        let (step, alter, octave) = midi_to_pitch(midi);
        out.push(StaffTuning { line: (i + 1) as u8, tuning_step: step, tuning_alter: alter, tuning_octave: octave });
        i += 1;
    }
    out
}

/// The attributes of a track's first measure.
fn first_attributes(track: &Track, measure: &GpMeasure, header: &MeasureHeader) -> (r: Attributes)
    ensures
        attributes_ok(r, *measure, *header, track.strings@),
{
    proof {
        reveal_strlit("minor");
        reveal_strlit("major");
        reveal_strlit("tab");
        reveal_strlit("TAB");
        reveal_strlit("G");
        reveal_strlit("F");
        reveal_strlit("C");
    }
    let notation_clef = match measure.clef {
        MeasureClef::Treble => make_clef("G", Some(2), None),
        MeasureClef::Bass => make_clef("F", Some(4), None),
        MeasureClef::Tenor => make_clef("C", Some(4), None),
        MeasureClef::Alto => make_clef("C", Some(3), None),
    };
    let tab_clef = make_clef("TAB", None, Some(2));
    let mode = if header.key_signature.is_minor {
        String::from_str("minor")
    } else {
        String::from_str("major")
    };
    let mut beats = String::new();
    push_signed_decimal(&mut beats, header.time_signature.numerator as i64);
    let mut beat_type = String::new();
    push_decimal(&mut beat_type, header.time_signature.denominator.value as u64);
    assert(beats@ =~= signed_decimal(header.time_signature.numerator as int));
    assert(beat_type@ =~= decimal(header.time_signature.denominator.value as nat));
    let tunings = staff_tunings(&track.strings);
    let mut keys: Vec<Key> = Vec::new();
    keys.push(Key { fifths: Some(header.key_signature.key), mode: Some(mode) });
    let mut times: Vec<Time> = Vec::new();
    times.push(Time { beats: Some(beats), beat_type: Some(beat_type) });
    let mut clefs: Vec<Clef> = Vec::new();
    clefs.push(notation_clef);
    clefs.push(tab_clef);
    let mut details: Vec<StaffDetails> = Vec::new();
    details.push(
        StaffDetails {
            number: Some(2),
            staff_type: Some(String::from_str("tab")),
            staff_lines: Some(track.strings.len() as u8),
            staff_tunings: tunings,
        },
    );
    Attributes { divisions: Some(DIVISIONS), keys, times, staves: Some(2), clefs, staff_details: details }
}

/// The tempo direction of the first measure.
fn tempo_direction(song: &Song, header: &MeasureHeader) -> (r: Direction)
    ensures
        tempo_direction_ok(r, opening_tempo(*song, *header)),
{
    proof {
        reveal_strlit("above");
        reveal_strlit("quarter");
    }
    let tempo_bpm: i32 = if header.tempo > 0 {
        header.tempo
    } else {
        song.tempo as i32
    };
    let mut per_minute = String::new();
    push_decimal(&mut per_minute, if tempo_bpm < 0 { 0 } else { tempo_bpm as u64 });
    assert(per_minute@ =~= decimal((if tempo_bpm < 0 { 0 } else { tempo_bpm as int }) as nat));
    let metronome = Metronome {
        beat_unit: Some(String::from_str("quarter")),
        per_minute: Some(PerMinute { value: per_minute }),
    };
    let mut types: Vec<DirectionType> = Vec::new();
    types.push(DirectionType::Metronome(metronome));
    Direction {
        placement: Some(String::from_str("above")),
        direction_types: types,
        sound: Some(Sound { tempo: Some(tempo_bpm) }),
    }
}

/// `r` is the MusicXML measure of measure `measure_idx` of track
/// `track_idx`, whose header is `header`.
pub open spec fn xml_measure_made(
    r: Measure,
    song: Song,
    track: Track,
    track_idx: int,
    measure: GpMeasure,
    header: MeasureHeader,
    measure_idx: int,
) -> bool {
    let hs = heads(header, track_idx, measure_idx);
    let items = measure_items(measure, measure.voices@.len() as int);
    &&& r.number@ == decimal(header.number as nat)
    &&& r.music_data@.len() == hs.len() + items.len()
    &&& forall|i: int| 0 <= i < hs.len() ==> head_ok(#[trigger] r.music_data@[i], hs[i], song, track, measure, header)
    &&& forall|i: int|
        0 <= i < items.len() ==> item_ok(#[trigger] r.music_data@[hs.len() + i], items[i], measure, track.strings@)
}

/// The MusicXML measure of measure `measure_idx` of track `track_idx`: the
/// header's bar number, then any opening repeat barline, the attributes
/// (first measure), the tempo (first measure of the first track), any
/// closing repeat barline, and the voices' notes.
pub fn build_measure(
    song: &Song,
    track: &Track,
    track_idx: usize,
    measure: &GpMeasure,
    header: &MeasureHeader,
    measure_idx: usize,
) -> (r: Measure)
    requires
        voices_convertible(*measure),
    ensures
        xml_measure_made(r, *song, *track, track_idx as int, *measure, *header, measure_idx as int),
{
    proof {
        reveal_strlit("left");
        reveal_strlit("right");
        reveal_strlit("forward");
        reveal_strlit("backward");
        reveal_strlit("");
    }
    let ghost hs = heads(*header, track_idx as int, measure_idx as int);
    let mut music_data: Vec<MusicData> = Vec::new();
    if header.repeat_open {
        music_data.push(
            MusicData::Barline(
                Barline {
                    location: Some(String::from_str("left")),
                    bar_style: Some(BarStyle::HeavyLight),
                    repeat: Some(Repeat { direction: String::from_str("forward"), times: None }),
                },
            ),
        );
    }
    if measure_idx == 0 {
        music_data.push(MusicData::Attributes(first_attributes(track, measure, header)));
    }
    if measure_idx == 0 && track_idx == 0 {
        music_data.push(MusicData::Direction(tempo_direction(song, header)));
    }
    if header.repeat_close > 0 {
        music_data.push(
            MusicData::Barline(
                Barline {
                    location: Some(String::from_str("right")),
                    bar_style: Some(BarStyle::LightHeavy),
                    repeat: Some(
                        Repeat { direction: String::from_str("backward"), times: Some(header.repeat_close as u8) },
                    ),
                },
            ),
        );
    }
    assert(music_data@.len() == hs.len());
    assert forall|i: int| 0 <= i < hs.len() implies head_ok(#[trigger] music_data@[i], hs[i], *song, *track, *measure, *header) by {
    }
    let ghost head = music_data@;
    let mut voices = build_voices(measure, track);
    music_data.append(&mut voices);
    let number = prefixed_decimal("", header.number as u64);
    assert(number@ =~= decimal(header.number as nat));
    Measure { number, music_data }
}

} // verus!
