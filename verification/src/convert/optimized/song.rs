//! Conversion of a legacy song into the optimized score: the timeline, the
//! tracks with their measures, voices, beats and notes, and the metadata.
//!
//! Fields of the song that the optimized score has no place for travel as
//! named miscellaneous fields of the score's identification, so that the
//! opposite conversion can restore them.

use vstd::prelude::*;

use crate::convert::musicxml::note::saturating_i8;
use crate::convert::optimized::legacy::{
    convert_duration, dynamic_of, legacy_key_to_opt_key, midi_to_pitch, optimized_duration, sharp_pitch,
    velocity_to_dynamic,
};
use crate::convert::optimized::timeline::key_signature_for;
use crate::model::legacy::{
    Beat as LBeat, BeatStatus, BendEffect, BendPoint, DirectionSign, HarmonicType, Measure as LMeasure,
    Lyrics, MeasureHeader, MidiChannel, Note as LNote, NoteEffect, NoteType, SlideType, Song, Track as LTrack, TripletFeel, Voice as LVoice,
};
use crate::model::{
    core_of, Articulation, Beat, Clef, GpBendEffect, GpBendPoint, GpHarmonicEffect, Identification, Instrument,
    InstrumentKind, KeySignature, LoadedScore, MeasureData, MeasureDef, Metadata, Mode, Note, NoteCore, Notehead, Pitch, PitchStep, Score,
    StaffDef, StaffDisplay, Technique, TechniqueKind, TechniqueParams, TieType, TimeSignature, Track, Voice,
};
use crate::text::{decimal, push_decimal};

verus! {

// ---------------------------------------------------------------------------
// Notes and beats
// ---------------------------------------------------------------------------

/// The pitch, tablature, tie and rest flag of the optimized note of a legacy
/// note: the tablature kept as it is (string and fret, truncated to bytes);
/// the sounding pitch, spelled with sharps, of the fret on its string's open
/// pitch (saturating) when the note is neither a rest nor a tie and its
/// string is one of `strings`; a tie end for a tie note.
pub open spec fn note_core_of(n: LNote, strings: Seq<(i8, i8)>) -> NoteCore {
    NoteCore {
        pitch: if n.kind == NoteType::Rest || n.kind == NoteType::Tie {
            None
        } else if 0 < n.string && n.string <= strings.len() {
            Some(sharp_pitch(saturating_i8(strings[n.string - 1].1 as int, (n.value as i8) as int) as i8))
        } else {
            None
        },
        string: Some(n.string as u8),
        fret: Some(n.value as u8),
        tie: if n.kind == NoteType::Tie {
            Some(TieType::End)
        } else {
            None
        },
        gp_is_rest: n.kind == NoteType::Rest,
    }
}

/// The articulations of a note's effects: staccato, accent, marcato (heavy
/// accent), in that order.
pub open spec fn articulations_of(e: NoteEffect) -> Seq<Articulation> {
    (if e.staccato { seq![Articulation::Staccato] } else { Seq::empty() }) + (if e.accentuated_note {
        seq![Articulation::Accent]
    } else {
        Seq::empty()
    }) + (if e.heavy_accentuated_note { seq![Articulation::Marcato] } else { Seq::empty() })
}

/// A technique without parameters.
pub open spec fn plain_technique(k: TechniqueKind) -> Technique {
    Technique { kind: k, params: TechniqueParams::Plain }
}

/// The technique a slide stands for; none for no slide.
pub open spec fn slide_technique(sl: SlideType) -> Option<TechniqueKind> {
    match sl {
        SlideType::ShiftSlideTo => Some(TechniqueKind::SlideUp),
        SlideType::LegatoSlideTo => Some(TechniqueKind::SlideLegato),
        SlideType::OutDownwards => Some(TechniqueKind::SlideDown),
        SlideType::OutUpWards => Some(TechniqueKind::SlideOutUp),
        SlideType::IntoFromAbove => Some(TechniqueKind::SlideIntoAbove),
        SlideType::IntoFromBelow => Some(TechniqueKind::SlideIntoBelow),
        SlideType::NoSlide => None,
    }
}

/// The techniques of the slides, in order.
pub open spec fn slide_techniques(ss: Seq<SlideType>) -> Seq<Technique>
    decreases ss.len(),
{
    if ss.len() == 0 {
        Seq::empty()
    } else {
        slide_techniques(ss.drop_last()) + match slide_technique(ss.last()) {
            Some(k) => seq![plain_technique(k)],
            None => Seq::empty(),
        }
    }
}

/// The code of a harmonic kind: 1 natural, 2 artificial, 3 tapped, 4 pinch,
/// 5 semi.
pub open spec fn harmonic_code(h: HarmonicType) -> u8 {
    match h {
        HarmonicType::Natural => 1,
        HarmonicType::Artificial => 2,
        HarmonicType::Tapped => 3,
        HarmonicType::Pinch => 4,
        HarmonicType::Semi => 5,
    }
}

/// The techniques of a note's effects: hammer-on, let ring, vibrato, palm
/// mute, then the slides in order, then a bend and a harmonic.
pub open spec fn techniques_of(e: NoteEffect) -> Seq<Technique> {
    (if e.hammer { seq![plain_technique(TechniqueKind::HammerOn)] } else { Seq::empty() }) + (if e.let_ring {
        seq![plain_technique(TechniqueKind::LetRing)]
    } else {
        Seq::empty()
    }) + (if e.vibrato { seq![plain_technique(TechniqueKind::Vibrato)] } else { Seq::empty() }) + (
    if e.palm_mute {
        seq![plain_technique(TechniqueKind::HalfMuted)]
    } else {
        Seq::empty()
    }) + slide_techniques(e.slides@) + (if e.bend is Some {
        seq![plain_technique(TechniqueKind::Bend)]
    } else {
        Seq::empty()
    }) + match e.harmonic {
        Some(h) => seq![
            Technique {
                kind: TechniqueKind::Harmonic,
                params: TechniqueParams::Harmonic { natural: h == HarmonicType::Natural },
            },
        ],
        None => Seq::empty(),
    }
}

/// A legacy bend point in the optimized model.
pub open spec fn bend_point(p: BendPoint) -> GpBendPoint {
    GpBendPoint { position: p.position, value: p.value, vibrato: p.vibrato }
}

/// `r` is the optimized note of `n`: its pitch and tablature, its
/// articulations and techniques, a cross notehead for a dead note, the
/// bend curve and harmonic kind, and the ghost, accidental-swap and velocity
/// details.
pub open spec fn note_made(r: Note, n: LNote, strings: Seq<(i8, i8)>) -> bool {
    &&& core_of(r) == note_core_of(n, strings)
    &&& r.articulations@ == articulations_of(n.effect)
    &&& r.techniques@ == techniques_of(n.effect)
    &&& r.notehead == if n.kind == NoteType::Dead {
        Some(Notehead::X)
    } else {
        None
    }
    &&& r.gp_harmonic == match n.effect.harmonic {
        Some(h) => Some(GpHarmonicEffect { kind: harmonic_code(h) }),
        None => None,
    }
    &&& match n.effect.bend {
        Some(bd) => r.gp_bend is Some && r.gp_bend->0.points@ == bd.points@.map_values(
            |p: BendPoint| bend_point(p),
        ),
        None => r.gp_bend is None,
    }
    &&& r.gp_ghost == n.effect.ghost_note
    &&& r.gp_swap_accidentals == n.swap_accidentals
    &&& r.gp_velocity == Some(n.velocity)
}

fn slide_kind(sl: SlideType) -> (r: Option<TechniqueKind>)
    ensures
        r == slide_technique(sl),
{
    match sl {
        SlideType::ShiftSlideTo => Some(TechniqueKind::SlideUp),
        SlideType::LegatoSlideTo => Some(TechniqueKind::SlideLegato),
        SlideType::OutDownwards => Some(TechniqueKind::SlideDown),
        SlideType::OutUpWards => Some(TechniqueKind::SlideOutUp),
        SlideType::IntoFromAbove => Some(TechniqueKind::SlideIntoAbove),
        SlideType::IntoFromBelow => Some(TechniqueKind::SlideIntoBelow),
        SlideType::NoSlide => None,
    }
}

#[verifier::rlimit(40)]
fn build_techniques(e: &NoteEffect) -> (r: Vec<Technique>)
    ensures
        r@ == techniques_of(*e),
{
    let mut t: Vec<Technique> = Vec::new();
    if e.hammer {
        t.push(Technique { kind: TechniqueKind::HammerOn, params: TechniqueParams::Plain });
    }
    if e.let_ring {
        t.push(Technique { kind: TechniqueKind::LetRing, params: TechniqueParams::Plain });
    }
    if e.vibrato {
        t.push(Technique { kind: TechniqueKind::Vibrato, params: TechniqueParams::Plain });
    }
    if e.palm_mute {
        t.push(Technique { kind: TechniqueKind::HalfMuted, params: TechniqueParams::Plain });
    }
    let ghost head = t@;
    assert(head =~= (if e.hammer { seq![plain_technique(TechniqueKind::HammerOn)] } else { Seq::empty() }) + (
    if e.let_ring {
        seq![plain_technique(TechniqueKind::LetRing)]
    } else {
        Seq::empty()
    }) + (if e.vibrato { seq![plain_technique(TechniqueKind::Vibrato)] } else { Seq::empty() }) + (
    if e.palm_mute {
        seq![plain_technique(TechniqueKind::HalfMuted)]
    } else {
        Seq::empty()
    }));
    let mut i: usize = 0;
    while i < e.slides.len()
        invariant
            i <= e.slides@.len(),
            t@ == head + slide_techniques(e.slides@.take(i as int)),
        decreases e.slides@.len() - i,
    {
        assert(e.slides@.take(i + 1).drop_last() =~= e.slides@.take(i as int));
        match slide_kind(e.slides[i]) {
            Some(k) => {
                t.push(Technique { kind: k, params: TechniqueParams::Plain });
            },
            None => {},
        }
        i += 1;
        assert(t@ =~= head + slide_techniques(e.slides@.take(i as int)));
    }
    assert(e.slides@.take(i as int) =~= e.slides@);
    if e.bend.is_some() {
        t.push(Technique { kind: TechniqueKind::Bend, params: TechniqueParams::Plain });
    }
    match e.harmonic {
        Some(h) => {
            t.push(
                Technique {
                    kind: TechniqueKind::Harmonic,
                    params: TechniqueParams::Harmonic { natural: h == HarmonicType::Natural },
                },
            );
        },
        None => {},
    }
    assert(t@ =~= techniques_of(*e));
    t
}

fn build_articulations(e: &NoteEffect) -> (r: Vec<Articulation>)
    ensures
        r@ == articulations_of(*e),
{
    let mut a: Vec<Articulation> = Vec::new();
    if e.staccato {
        a.push(Articulation::Staccato);
    }
    if e.accentuated_note {
        a.push(Articulation::Accent);
    }
    if e.heavy_accentuated_note {
        a.push(Articulation::Marcato);
    }
    assert(a@ =~= articulations_of(*e));
    a
}

fn harmonic_kind_code(h: HarmonicType) -> (r: u8)
    ensures
        r == harmonic_code(h),
{
    match h {
        HarmonicType::Natural => 1,
        HarmonicType::Artificial => 2,
        HarmonicType::Tapped => 3,
        HarmonicType::Pinch => 4,
        HarmonicType::Semi => 5,
    }
}

fn build_bend(b: &BendEffect) -> (r: GpBendEffect)
    ensures
        r.points@ == b.points@.map_values(|p: BendPoint| bend_point(p)),
{
    let mut points: Vec<GpBendPoint> = Vec::new();
    let mut i: usize = 0;
    while i < b.points.len()
        invariant
            i <= b.points@.len(),
            points@ == b.points@.take(i as int).map_values(|p: BendPoint| bend_point(p)),
        decreases b.points@.len() - i,
    {
        let p = b.points[i];
        points.push(GpBendPoint { position: p.position, value: p.value, vibrato: p.vibrato });
        i += 1;
        assert(points@ =~= b.points@.take(i as int).map_values(|p: BendPoint| bend_point(p)));
    }
    assert(b.points@.take(i as int) =~= b.points@);
    GpBendEffect { points }
}

/// Convert a legacy note, given the open-string pitches of its track.
pub fn build_note(n: &LNote, strings: &[(i8, i8)]) -> (r: Note)
    ensures
        note_made(r, *n, strings@),
{
    let is_rest = n.kind == NoteType::Rest;
    let is_tie = n.kind == NoteType::Tie;
    let fret: i8 = n.value as i8;
    let pitch = if is_rest || is_tie {
        None
    } else if n.string > 0 && (n.string as usize) <= strings.len() {
        let open = strings[(n.string - 1) as usize].1;
        let sum: i16 = open as i16 + fret as i16;
        let midi: i8 = if sum < -128 {
            -128
        } else if sum > 127 {
            127
        } else {
            sum as i8
        };
        Some(midi_to_pitch(midi))
    } else {
        None
    };
    let tie = if is_tie {
        Some(TieType::End)
    } else {
        None
    };
    let notehead = if n.kind == NoteType::Dead {
        Some(Notehead::X)
    } else {
        None
    };
    let gp_harmonic = match n.effect.harmonic {
        Some(h) => Some(GpHarmonicEffect { kind: harmonic_kind_code(h) }),
        None => None,
    };
    let gp_bend = match &n.effect.bend {
        Some(b) => Some(build_bend(b)),
        None => None,
    };
    Note {
        pitch,
        string: Some(n.string as u8),
        fret: Some(n.value as u8),
        tie,
        gp_is_rest: is_rest,
        techniques: build_techniques(&n.effect),
        articulations: build_articulations(&n.effect),
        notehead,
        gp_harmonic,
        gp_bend,
        gp_ghost: n.effect.ghost_note,
        gp_swap_accidentals: n.swap_accidentals,
        gp_velocity: Some(n.velocity),
    }
}

/// Ticks from the start of the measure, which legacy beats place at one
/// quarter note (960); 0 for a beat before it or with no known start.
pub open spec fn tick_of(start: Option<i64>) -> u32 {
    match start {
        Some(s) => if s - 960 < 0 {
            0u32
        } else {
            (s - 960) as u32
        },
        None => 0u32,
    }
}

/// The beat's start can be taken relative to the measure without overflow.
pub open spec fn start_ok(b: LBeat) -> bool {
    b.start matches Some(s) ==> s >= i64::MIN + 960
}

/// `r` is the optimized beat of `b`: its offset, duration and notes, the
/// dynamic of its first note's velocity, and whether it is empty or a rest.
pub open spec fn beat_made(r: Beat, b: LBeat, strings: Seq<(i8, i8)>) -> bool {
    &&& r.tick_offset == tick_of(b.start)
    &&& r.duration == optimized_duration(b.duration)
    &&& r.notes@.len() == b.notes@.len()
    &&& forall|i: int| 0 <= i < b.notes@.len() ==> note_made(#[trigger] r.notes@[i], b.notes@[i], strings)
    &&& r.dynamic == if b.notes@.len() > 0 {
        dynamic_of(b.notes@[0].velocity)
    } else {
        None
    }
    &&& r.gp_empty == (b.status == BeatStatus::Empty)
    &&& r.gp_rest == (b.status == BeatStatus::Rest)
}

/// Convert a legacy beat: its offset in the measure, duration, notes and
/// dynamic, and whether it is empty or a rest.
pub fn build_beat(b: &LBeat, strings: &[(i8, i8)]) -> (r: Beat)
    requires
        start_ok(*b),
    ensures
        beat_made(r, *b, strings@),
{
    let tick_offset: u32 = match b.start {
        Some(s) => {
            let d: i64 = s - 960;
            if d < 0 {
                0
            } else {
                d as u32
            }
        },
        None => 0,
    };
    let mut notes: Vec<Note> = Vec::new();
    let mut i: usize = 0;
    while i < b.notes.len()
        invariant
            i <= b.notes@.len(),
            notes@.len() == i,
            forall|k: int| 0 <= k < i ==> note_made(#[trigger] notes@[k], b.notes@[k], strings@),
        decreases b.notes@.len() - i,
    {
        let n = build_note(&b.notes[i], strings);
        notes.push(n);
        i += 1;
    }
    let dynamic = if b.notes.len() > 0 {
        velocity_to_dynamic(b.notes[0].velocity)
    } else {
        None
    };
    Beat {
        tick_offset,
        duration: convert_duration(&b.duration),
        notes,
        dynamic,
        gp_empty: b.status == BeatStatus::Empty,
        gp_rest: b.status == BeatStatus::Rest,
    }
}

// ---------------------------------------------------------------------------
// Voices, measures and tracks
// ---------------------------------------------------------------------------

/// `r` is the optimized voice of `v`, the `vi`-th voice of its measure.
pub open spec fn voice_made(r: Voice, v: LVoice, vi: int, strings: Seq<(i8, i8)>) -> bool {
    &&& r.voice_id == vi as u8
    &&& r.beats@.len() == v.beats@.len()
    &&& forall|i: int| 0 <= i < v.beats@.len() ==> beat_made(#[trigger] r.beats@[i], v.beats@[i], strings)
}

/// Every beat of the voice has a usable start.
pub open spec fn voice_starts_ok(v: LVoice) -> bool {
    forall|i: int| 0 <= i < v.beats@.len() ==> start_ok(#[trigger] v.beats@[i])
}

/// Convert the `vi`-th voice of a measure.
pub fn build_voice(v: &LVoice, vi: u8, strings: &[(i8, i8)]) -> (r: Voice)
    requires
        voice_starts_ok(*v),
    ensures
        voice_made(r, *v, vi as int, strings@),
{
    let mut beats: Vec<Beat> = Vec::new();
    let mut i: usize = 0;
    while i < v.beats.len()
        invariant
            i <= v.beats@.len(),
            voice_starts_ok(*v),
            beats@.len() == i,
            forall|k: int| 0 <= k < i ==> beat_made(#[trigger] beats@[k], v.beats@[k], strings@),
        decreases v.beats@.len() - i,
    {
        let b = build_beat(&v.beats[i], strings);
        beats.push(b);
        i += 1;
    }
    Voice { voice_id: vi, beats }
}

/// The text of an optional string.
pub open spec fn opt_text(o: Option<String>) -> Option<Seq<char>> {
    match o {
        Some(s) => Some(s@),
        None => None,
    }
}

/// `r` is the optimized measure of `m`, at position `idx` of its track:
/// no measure-repeat sign, the simile mark kept, the voices numbered from 0.
pub open spec fn measure_made(r: MeasureData, m: LMeasure, idx: int, strings: Seq<(i8, i8)>) -> bool {
    &&& r.measure_index == idx as u16
    &&& r.repeat is None
    &&& opt_text(r.gp_simile_mark) == opt_text(m.simile_mark)
    &&& r.voices@.len() == m.voices@.len()
    &&& forall|vi: int|
        0 <= vi < m.voices@.len() ==> voice_made(#[trigger] r.voices@[vi], m.voices@[vi], vi, strings)
}

/// Every beat of the measure has a usable start, and its voices can be
/// numbered by a byte.
pub open spec fn measure_ok(m: LMeasure) -> bool {
    &&& m.voices@.len() <= 256
    &&& forall|vi: int| 0 <= vi < m.voices@.len() ==> voice_starts_ok(#[trigger] m.voices@[vi])
}

/// Convert a measure at position `idx` of its track.
pub fn build_measure_data(m: &LMeasure, idx: u16, strings: &[(i8, i8)]) -> (r: MeasureData)
    requires
        measure_ok(*m),
    ensures
        measure_made(r, *m, idx as int, strings@),
        r.wf(),
{
    let mut voices: Vec<Voice> = Vec::new();
    let mut vi: usize = 0;
    while vi < m.voices.len()
        invariant
            vi <= m.voices@.len(),
            measure_ok(*m),
            voices@.len() == vi,
            forall|k: int| 0 <= k < vi ==> voice_made(#[trigger] voices@[k], m.voices@[k], k, strings@),
        decreases m.voices@.len() - vi,
    {
        let v = build_voice(&m.voices[vi], vi as u8, strings);
        voices.push(v);
        vi += 1;
    }
    let gp_simile_mark = match &m.simile_mark {
        Some(s) => Some(s.clone()),
        None => None,
    };
    let r = MeasureData { measure_index: idx, repeat: None, voices, gp_simile_mark };
    assert forall|i: int, j: int| 0 <= i < j < r.voices@.len() implies r.voices@[i].voice_id
        < r.voices@[j].voice_id by {
        assert(voice_made(r.voices@[i], m.voices@[i], i, strings@));
        assert(voice_made(r.voices@[j], m.voices@[j], j, strings@));
    }
    r
}

/// `r` is the optimized track of `t` in a song of `headers` measures: its
/// name, and one measure for each measure of the track that has a header.
pub open spec fn track_made(r: Track, t: LTrack, headers: int) -> bool {
    &&& r.name@ == t.name@
    &&& r.measures@.len() == if headers < t.measures@.len() {
        headers
    } else {
        t.measures@.len() as int
    }
    &&& forall|i: int|
        0 <= i < r.measures@.len() ==> measure_made(#[trigger] r.measures@[i], t.measures@[i], i, t.strings@)
}

/// Every measure of the track converts.
pub open spec fn track_ok(t: LTrack) -> bool {
    forall|i: int| 0 <= i < t.measures@.len() ==> measure_ok(#[trigger] t.measures@[i])
}

/// Convert a track of a song with `headers` measure headers.
pub fn build_track(t: &LTrack, headers: usize, instrument: u8, staves: Vec<u8>) -> (r: Track)
    requires
        track_ok(*t),
        headers <= 65536,
    ensures
        track_made(r, *t, headers as int),
        r.instrument == instrument,
        r.staves@ == staves@,
        r.wf(),
{
    let n = if headers < t.measures.len() {
        headers
    } else {
        t.measures.len()
    };
    let mut measures: Vec<MeasureData> = Vec::new();
    let mut i: usize = 0;
    while i < n
        invariant
            n <= t.measures@.len(),
            n <= 65536,
            i <= n,
            track_ok(*t),
            measures@.len() == i,
            forall|k: int|
                0 <= k < i ==> measure_made(#[trigger] measures@[k], t.measures@[k], k, t.strings@),
            forall|k: int| 0 <= k < i ==> (#[trigger] measures@[k]).wf(),
        decreases n - i,
    {
        let md = build_measure_data(&t.measures[i], i as u16, t.strings.as_slice());
        measures.push(md);
        i += 1;
    }
    let r = Track { name: t.name.clone(), instrument, staves, measures };
    assert forall|a: int, b: int| 0 <= a < b < r.measures@.len() implies r.measures@[a].measure_index
        < r.measures@[b].measure_index by {
        assert(measure_made(r.measures@[a], t.measures@[a], a, t.strings@));
        assert(measure_made(r.measures@[b], t.measures@[b], b, t.strings@));
    }
    r
}

/// The song's tracks convert.
pub open spec fn song_tracks_ok(song: Song) -> bool {
    &&& song.measure_headers@.len() <= 65536
    &&& song.tracks@.len() <= usize::MAX / 2
    &&& forall|t: int| 0 <= t < song.tracks@.len() ==> track_ok(#[trigger] song.tracks@[t])
}

/// How many staves a track gets: one for percussion, else notation and tab.
pub open spec fn staff_count(t: LTrack) -> nat {
    if t.percussion_track {
        1
    } else {
        2
    }
}

/// The staves of a track.
pub open spec fn track_staff_defs(t: LTrack) -> Seq<StaffDef> {
    if t.percussion_track {
        seq![StaffDef { clef: Clef::Percussion, display: StaffDisplay::Notation }]
    } else {
        seq![
            StaffDef { clef: Clef::Treble, display: StaffDisplay::Notation },
            StaffDef { clef: Clef::Tab, display: StaffDisplay::Tab },
        ]
    }
}

/// The staves of the first `n` tracks, in order.
pub open spec fn staves_of(ts: Seq<LTrack>, n: int) -> Seq<StaffDef>
    decreases n,
{
    if n <= 0 {
        Seq::empty()
    } else {
        staves_of(ts, n - 1) + track_staff_defs(ts[n - 1])
    }
}

/// The positions of track `t`'s staves, as bytes.
pub open spec fn track_staff_ids(ts: Seq<LTrack>, t: int) -> Seq<u8> {
    let p = staves_of(ts, t).len();
    if ts[t].percussion_track {
        seq![p as u8]
    } else {
        seq![p as u8, (p + 1) as u8]
    }
}

proof fn lemma_staves_len(ts: Seq<LTrack>, n: int)
    ensures
        n >= 0 ==> staves_of(ts, n).len() <= 2 * n,
    decreases n,
{
    if n > 0 {
        lemma_staves_len(ts, n - 1);
    }
}

/// Convert every track of the song: track `t` is played by instrument `t`
/// and drawn on its own staves.
pub fn build_tracks(song: &Song) -> (r: Vec<Track>)
    requires
        song_tracks_ok(*song),
    ensures
        r@.len() == song.tracks@.len(),
        forall|t: int|
            0 <= t < r@.len() ==> track_made(#[trigger] r@[t], song.tracks@[t], song.measure_headers@.len() as int),
        forall|t: int|
            0 <= t < r@.len() ==> (#[trigger] r@[t]).instrument == #[verifier::truncate] (t as u8) && r@[t].staves@ == track_staff_ids(
                song.tracks@,
                t,
            ),
        forall|t: int| 0 <= t < r@.len() ==> (#[trigger] r@[t]).wf(),
{
    let mut tracks: Vec<Track> = Vec::new();
    let mut t: usize = 0;
    let mut next: usize = 0;
    while t < song.tracks.len()
        invariant
            t <= song.tracks@.len(),
            song_tracks_ok(*song),
            tracks@.len() == t,
            next == staves_of(song.tracks@, t as int).len(),
            next <= 2 * t,
            forall|k: int|
                0 <= k < t ==> track_made(#[trigger] tracks@[k], song.tracks@[k], song.measure_headers@.len() as int),
            forall|k: int|
                0 <= k < t ==> (#[trigger] tracks@[k]).instrument == #[verifier::truncate] (k as u8) && tracks@[k].staves@
                    == track_staff_ids(song.tracks@, k),
            forall|k: int| 0 <= k < t ==> (#[trigger] tracks@[k]).wf(),
        decreases song.tracks@.len() - t,
    {
        proof {
            lemma_staves_len(song.tracks@, t as int);
        }
        let mut ids: Vec<u8> = Vec::new();
        let first: u8 = #[verifier::truncate] (next as u8);
        ids.push(first);
        if !song.tracks[t].percussion_track {
            let second: u8 = #[verifier::truncate] ((next + 1) as u8);
            ids.push(second);
        }
        assert(ids@ == track_staff_ids(song.tracks@, t as int));
        let ins: u8 = #[verifier::truncate] (t as u8);
        let tr = build_track(&song.tracks[t], song.measure_headers.len(), ins, ids);
        tracks.push(tr);
        next = if song.tracks[t].percussion_track {
            next + 1
        } else {
            next + 2
        };
        assert(staves_of(song.tracks@, t + 1) == staves_of(song.tracks@, t as int) + track_staff_defs(
            song.tracks@[t as int],
        ));
        t += 1;
    }
    tracks
}

/// The staves of the song's tracks.
pub fn build_staves(song: &Song) -> (r: Vec<StaffDef>)
    ensures
        r@ == staves_of(song.tracks@, song.tracks@.len() as int),
{
    let mut staves: Vec<StaffDef> = Vec::new();
    let mut t: usize = 0;
    while t < song.tracks.len()
        invariant
            t <= song.tracks@.len(),
            staves@ == staves_of(song.tracks@, t as int),
        decreases song.tracks@.len() - t,
    {
        if song.tracks[t].percussion_track {
            staves.push(StaffDef { clef: Clef::Percussion, display: StaffDisplay::Notation });
        } else {
            staves.push(StaffDef { clef: Clef::Treble, display: StaffDisplay::Notation });
            staves.push(StaffDef { clef: Clef::Tab, display: StaffDisplay::Tab });
        }
        assert(staves@ =~= staves_of(song.tracks@, t + 1));
        t += 1;
    }
    staves
}

/// The channel a track plays on: the song's channel at the track's index,
/// or the default channel when there is none.
pub open spec fn track_channel(channels: Seq<MidiChannel>, t: LTrack) -> MidiChannel {
    if t.channel_index < channels.len() {
        channels[t.channel_index as int]
    } else {
        MidiChannel { channel: 0, instrument: 0, bank: 0, volume: 104, balance: 64 }
    }
}

/// A MIDI program number clamped to 0–127.
pub open spec fn clamp_program(p: i32) -> u8 {
    if p < 0 {
        0
    } else if p > 127 {
        127
    } else {
        p as u8
    }
}

/// `r` is the instrument of track `t`.
pub open spec fn instrument_made(r: Instrument, channels: Seq<MidiChannel>, t: LTrack) -> bool {
    &&& r.name@ == t.name@
    &&& r.midi_channel == track_channel(channels, t).channel
    &&& r.midi_program == clamp_program(track_channel(channels, t).instrument)
    &&& r.gp_strings@ == t.strings@.map_values(|s: (i8, i8)| s.1)
    &&& match r.kind {
        InstrumentKind::Percussion => t.percussion_track,
        InstrumentKind::Stringed { tuning, string_count, capo } => {
            &&& !t.percussion_track
            &&& t.strings@.len() > 0
            &&& tuning@ == t.strings@.map_values(|s: (i8, i8)| sharp_pitch(s.1))
            &&& string_count == t.strings@.len() as u8
            &&& capo == 0
        },
        InstrumentKind::Pitched => !t.percussion_track && t.strings@.len() == 0,
    }
}

fn build_instrument(t: &LTrack, channels: &Vec<MidiChannel>) -> (r: Instrument)
    ensures
        instrument_made(r, channels@, *t),
{
    let channel = if t.channel_index < channels.len() {
        channels[t.channel_index]
    } else {
        MidiChannel { channel: 0, instrument: 0, bank: 0, volume: 104, balance: 64 }
    };
    let program: u8 = if channel.instrument < 0 {
        0
    } else if channel.instrument > 127 {
        127
    } else {
        channel.instrument as u8
    };
    let mut gp_strings: Vec<i8> = Vec::new();
    let mut tuning: Vec<Pitch> = Vec::new();
    let mut i: usize = 0;
    while i < t.strings.len()
        invariant
            i <= t.strings@.len(),
            gp_strings@ == t.strings@.take(i as int).map_values(|s: (i8, i8)| s.1),
            tuning@ == t.strings@.take(i as int).map_values(|s: (i8, i8)| sharp_pitch(s.1)),
        decreases t.strings@.len() - i,
    {
        let (_, midi) = t.strings[i];
        gp_strings.push(midi);
        tuning.push(midi_to_pitch(midi));
        assert(t.strings@.take(i + 1) =~= t.strings@.take(i as int).push(t.strings@[i as int]));
        i += 1;
        assert(gp_strings@ =~= t.strings@.take(i as int).map_values(|s: (i8, i8)| s.1));
        assert(tuning@ =~= t.strings@.take(i as int).map_values(|s: (i8, i8)| sharp_pitch(s.1)));
    }
    assert(t.strings@.take(i as int) =~= t.strings@);
    let kind = if t.percussion_track {
        InstrumentKind::Percussion
    } else if t.strings.len() > 0 {
        let count: u8 = #[verifier::truncate] (t.strings.len() as u8);
        InstrumentKind::Stringed { tuning, string_count: count, capo: 0 }
    } else {
        InstrumentKind::Pitched
    };
    Instrument { name: t.name.clone(), midi_channel: channel.channel, midi_program: program, kind, gp_strings }
}

/// The instruments of the song's tracks, one per track.
pub fn build_instruments(song: &Song) -> (r: Vec<Instrument>)
    ensures
        r@.len() == song.tracks@.len(),
        forall|t: int|
            0 <= t < r@.len() ==> instrument_made(#[trigger] r@[t], song.channels@, song.tracks@[t]),
{
    let mut r: Vec<Instrument> = Vec::new();
    let mut t: usize = 0;
    while t < song.tracks.len()
        invariant
            t <= song.tracks@.len(),
            r@.len() == t,
            forall|k: int| 0 <= k < t ==> instrument_made(#[trigger] r@[k], song.channels@, song.tracks@[k]),
        decreases song.tracks@.len() - t,
    {
        r.push(build_instrument(&song.tracks[t], &song.channels));
        t += 1;
    }
    r
}

// ---------------------------------------------------------------------------
// Timeline
// ---------------------------------------------------------------------------

/// The time signature a header sets, as bytes.
pub open spec fn header_time(h: MeasureHeader) -> TimeSignature {
    TimeSignature {
        numerator: h.time_signature.numerator as u8,
        denominator: h.time_signature.denominator.value as u8,
    }
}

/// The tempo a header plays at: its own when it sets one, else the song's.
pub open spec fn header_tempo(h: MeasureHeader, song_tempo: i16) -> i32 {
    if h.tempo > 0 {
        h.tempo
    } else {
        song_tempo as i32
    }
}

/// The key a header plays in, in the optimized model.
pub open spec fn header_key(h: MeasureHeader) -> KeySignature {
    key_signature_for(
        h.key_signature.key,
        if h.key_signature.is_minor {
            Some("minor"@)
        } else {
            None
        },
    )
}

/// The definition of measure `i`: its index, and its tempo, time signature
/// and key, each when it is the first measure or the value differs from
/// the previous measure's.
pub open spec fn def_of(hs: Seq<MeasureHeader>, song_tempo: i16, i: int) -> MeasureDef {
    MeasureDef {
        index: i as u16,
        tempo: if i == 0 || header_tempo(hs[i], song_tempo) != header_tempo(hs[i - 1], song_tempo) {
            Some(header_tempo(hs[i], song_tempo))
        } else {
            None
        },
        time_signature: if i == 0 || header_time(hs[i]) != header_time(hs[i - 1]) {
            Some(header_time(hs[i]))
        } else {
            None
        },
        key_signature: if i == 0 || header_key(hs[i]) != header_key(hs[i - 1]) {
            Some(header_key(hs[i]))
        } else {
            None
        },
    }
}

fn header_time_of(h: &MeasureHeader) -> (r: TimeSignature)
    ensures
        r == header_time(*h),
{
    TimeSignature {
        numerator: h.time_signature.numerator as u8,
        denominator: h.time_signature.denominator.value as u8,
    }
}

/// The global timeline: one definition per measure header.
pub fn build_timeline(song: &Song) -> (r: Vec<MeasureDef>)
    ensures
        r@.len() == song.measure_headers@.len(),
        forall|i: int| 0 <= i < r@.len() ==> #[trigger] r@[i] == def_of(song.measure_headers@, song.tempo, i),
{
    let hs = &song.measure_headers;
    let mut out: Vec<MeasureDef> = Vec::new();
    let mut i: usize = 0;
    while i < hs.len()
        invariant
            i <= hs@.len(),
            out@.len() == i,
            forall|k: int| 0 <= k < i ==> #[trigger] out@[k] == def_of(hs@, song.tempo, k),
        decreases hs@.len() - i,
    {
        let time = header_time_of(&hs[i]);
        let tempo: i32 = if hs[i].tempo > 0 {
            hs[i].tempo
        } else {
            song.tempo as i32
        };
        let key = legacy_key_to_opt_key(&hs[i].key_signature);
        let (tempo_changed, time_changed, key_changed) = if i == 0 {
            (true, true, true)
        } else {
            let prev_time = header_time_of(&hs[i - 1]);
            let prev_tempo: i32 = if hs[i - 1].tempo > 0 {
                hs[i - 1].tempo
            } else {
                song.tempo as i32
            };
            let prev_key = legacy_key_to_opt_key(&hs[i - 1].key_signature);
            (prev_tempo != tempo, prev_time != time, prev_key != key)
        };
        out.push(
            MeasureDef {
                index: i as u16,
                tempo: if tempo_changed {
                    Some(tempo)
                } else {
                    None
                },
                time_signature: if time_changed {
                    Some(time)
                } else {
                    None
                },
                key_signature: if key_changed {
                    Some(key)
                } else {
                    None
                },
            },
        );
        i += 1;
    }
    out
}

// ---------------------------------------------------------------------------
// Metadata
// ---------------------------------------------------------------------------

/// A text field as a miscellaneous entry: none when the text is empty.
pub open spec fn text_entry(key: Seq<char>, value: Seq<char>) -> Seq<(Seq<char>, Seq<char>)> {
    if value.len() == 0 {
        Seq::empty()
    } else {
        seq![(key, value)]
    }
}

/// `gp.notice.<i>` entries for the first `n` notice lines.
pub open spec fn notice_entries(notice: Seq<String>, n: int) -> Seq<(Seq<char>, Seq<char>)>
    decreases n,
{
    if n <= 0 {
        Seq::empty()
    } else {
        notice_entries(notice, n - 1).push(("gp.notice."@ + decimal((n - 1) as nat), notice[n - 1]@))
    }
}

/// Name of a navigation sign in the miscellaneous fields.
pub open spec fn sign_name(d: DirectionSign) -> Seq<char> {
    match d {
        DirectionSign::Coda => "Coda"@,
        DirectionSign::DoubleCoda => "DoubleCoda"@,
        DirectionSign::Segno => "Segno"@,
        DirectionSign::SegnoSegno => "SegnoSegno"@,
        DirectionSign::Fine => "Fine"@,
        DirectionSign::DaCapo => "DaCapo"@,
        DirectionSign::DaCapoAlCoda => "DaCapoAlCoda"@,
        DirectionSign::DaCapoAlDoubleCoda => "DaCapoAlDoubleCoda"@,
        DirectionSign::DaCapoAlFine => "DaCapoAlFine"@,
        DirectionSign::DaSegno => "DaSegno"@,
        DirectionSign::DaSegnoAlCoda => "DaSegnoAlCoda"@,
        DirectionSign::DaSegnoAlDoubleCoda => "DaSegnoAlDoubleCoda"@,
        DirectionSign::DaSegnoAlFine => "DaSegnoAlFine"@,
        DirectionSign::DaSegnoSegno => "DaSegnoSegno"@,
        DirectionSign::DaSegnoSegnoAlCoda => "DaSegnoSegnoAlCoda"@,
        DirectionSign::DaSegnoSegnoAlDoubleCoda => "DaSegnoSegnoAlDoubleCoda"@,
        DirectionSign::DaSegnoSegnoAlFine => "DaSegnoSegnoAlFine"@,
        DirectionSign::DaCoda => "DaCoda"@,
        DirectionSign::DaDoubleCoda => "DaDoubleCoda"@,
    }
}

fn direction_name(d: &DirectionSign) -> (r: &'static str)
    ensures
        r@ == sign_name(*d),
{
    proof {
        reveal_strlit("Coda");
        reveal_strlit("DoubleCoda");
        reveal_strlit("Segno");
        reveal_strlit("SegnoSegno");
        reveal_strlit("Fine");
        reveal_strlit("DaCapo");
        reveal_strlit("DaCapoAlCoda");
        reveal_strlit("DaCapoAlDoubleCoda");
        reveal_strlit("DaCapoAlFine");
        reveal_strlit("DaSegno");
        reveal_strlit("DaSegnoAlCoda");
        reveal_strlit("DaSegnoAlDoubleCoda");
        reveal_strlit("DaSegnoAlFine");
        reveal_strlit("DaSegnoSegno");
        reveal_strlit("DaSegnoSegnoAlCoda");
        reveal_strlit("DaSegnoSegnoAlDoubleCoda");
        reveal_strlit("DaSegnoSegnoAlFine");
        reveal_strlit("DaCoda");
        reveal_strlit("DaDoubleCoda");
    }
    match d {
        DirectionSign::Coda => "Coda",
        DirectionSign::DoubleCoda => "DoubleCoda",
        DirectionSign::Segno => "Segno",
        DirectionSign::SegnoSegno => "SegnoSegno",
        DirectionSign::Fine => "Fine",
        DirectionSign::DaCapo => "DaCapo",
        DirectionSign::DaCapoAlCoda => "DaCapoAlCoda",
        DirectionSign::DaCapoAlDoubleCoda => "DaCapoAlDoubleCoda",
        DirectionSign::DaCapoAlFine => "DaCapoAlFine",
        DirectionSign::DaSegno => "DaSegno",
        DirectionSign::DaSegnoAlCoda => "DaSegnoAlCoda",
        DirectionSign::DaSegnoAlDoubleCoda => "DaSegnoAlDoubleCoda",
        DirectionSign::DaSegnoAlFine => "DaSegnoAlFine",
        DirectionSign::DaSegnoSegno => "DaSegnoSegno",
        DirectionSign::DaSegnoSegnoAlCoda => "DaSegnoSegnoAlCoda",
        DirectionSign::DaSegnoSegnoAlDoubleCoda => "DaSegnoSegnoAlDoubleCoda",
        DirectionSign::DaSegnoSegnoAlFine => "DaSegnoSegnoAlFine",
        DirectionSign::DaCoda => "DaCoda",
        DirectionSign::DaDoubleCoda => "DaDoubleCoda",
    }
}

/// `gp.direction.<i>` entries for the navigation signs of the first `n`
/// measure headers.
pub open spec fn direction_entries(hs: Seq<MeasureHeader>, n: int) -> Seq<(Seq<char>, Seq<char>)>
    decreases n,
{
    if n <= 0 {
        Seq::empty()
    } else {
        let rest = direction_entries(hs, n - 1);
        match hs[n - 1].direction {
            Some(d) => rest.push(("gp.direction."@ + decimal((n - 1) as nat), sign_name(d))),
            None => rest,
        }
    }
}

/// "true" or "false".
pub open spec fn bool_text(b: bool) -> Seq<char> {
    if b {
        "true"@
    } else {
        "false"@
    }
}

/// The `gp.track.<i>.*` entries of one track.
pub open spec fn track_fields(t: LTrack, i: int) -> Seq<(Seq<char>, Seq<char>)> {
    let p = "gp.track."@ + decimal(i as nat) + "."@;
    seq![
        (p + "short_name"@, t.short_name@),
        (p + "channel_index"@, decimal(t.channel_index as nat)),
        (p + "visible"@, bool_text(t.visible)),
        (p + "solo"@, bool_text(t.solo)),
        (p + "mute"@, bool_text(t.mute)),
        (p + "twelve_stringed"@, bool_text(t.twelve_stringed_guitar_track)),
        (p + "banjo"@, bool_text(t.banjo_track)),
    ]
}

/// Track entries of the first `n` tracks.
pub open spec fn track_entries(ts: Seq<LTrack>, n: int) -> Seq<(Seq<char>, Seq<char>)>
    decreases n,
{
    if n <= 0 {
        Seq::empty()
    } else {
        track_entries(ts, n - 1) + track_fields(ts[n - 1], n - 1)
    }
}

/// The version as "major.minor.patch".
pub open spec fn version_text(v: (u8, u8, u8)) -> Seq<char> {
    decimal(v.0 as nat) + "."@ + decimal(v.1 as nat) + "."@ + decimal(v.2 as nat)
}

/// The miscellaneous fields that carry what the optimized metadata has no
/// field for: the non-empty texts, the notice lines, the triplet feel,
/// tempo name, version and hidden-tempo flag, the lyrics, the navigation
/// signs and the per-track settings, in that order.
pub open spec fn misc_of(song: Song) -> Seq<(Seq<char>, Seq<char>)> {
    text_entry("gp.subtitle"@, song.subtitle@) + text_entry("gp.words"@, song.words@) + text_entry(
        "gp.writer"@,
        song.writer@,
    ) + text_entry("gp.instructions"@, song.instructions@) + text_entry("gp.date"@, song.date@)
        + text_entry("gp.transcriber"@, song.transcriber@) + text_entry(
        "gp.comments"@,
        song.comments@,
    ) + notice_entries(song.notice@, song.notice@.len() as int) + song_fields(song) + lyric_entries(
        song.lyrics,
    ) + direction_entries(song.measure_headers@, song.measure_headers@.len() as int) + track_entries(
        song.tracks@,
        song.tracks@.len() as int,
    )
}

/// The code of a triplet feel: 0 straight, 1 eighth, 2 sixteenth.
pub open spec fn triplet_code(t: TripletFeel) -> nat {
    match t {
        TripletFeel::Straight => 0,
        TripletFeel::Eighth => 1,
        TripletFeel::Sixteenth => 2,
    }
}

/// The song-wide fields: triplet feel, tempo name, version and whether the
/// tempo is hidden.
pub open spec fn song_fields(song: Song) -> Seq<(Seq<char>, Seq<char>)> {
    seq![
        ("gp.triplet_feel"@, decimal(triplet_code(song.triplet_feel))),
        ("gp.tempo_name"@, song.tempo_name@),
        ("gp.version"@, version_text(song.version)),
        ("gp.hide_tempo"@, bool_text(song.hide_tempo)),
    ]
}

/// The fields of lyric line `l`: its starting measure, and its text when
/// not empty.
pub open spec fn lyric_line_entries(l: (u8, u16, String)) -> Seq<(Seq<char>, Seq<char>)> {
    let p = "gp.lyrics."@ + decimal(l.0 as nat);
    seq![(p + ".start"@, decimal(l.1 as nat))] + if l.2@.len() == 0 {
        Seq::empty()
    } else {
        seq![(p + ".text"@, l.2@)]
    }
}

/// The fields of the first `n` lyric lines.
pub open spec fn lyric_lines_entries(lines: Seq<(u8, u16, String)>, n: int) -> Seq<(Seq<char>, Seq<char>)>
    decreases n,
{
    if n <= 0 {
        Seq::empty()
    } else {
        lyric_lines_entries(lines, n - 1) + lyric_line_entries(lines[n - 1])
    }
}

/// The lyrics' fields: the track they follow, then each line.
pub open spec fn lyric_entries(ly: Lyrics) -> Seq<(Seq<char>, Seq<char>)> {
    seq![("gp.lyrics.track_choice"@, decimal(ly.track_choice as nat))] + lyric_lines_entries(
        ly.lines@,
        ly.lines@.len() as int,
    )
}

/// The view of miscellaneous fields.
pub open spec fn misc_view(m: Seq<(String, String)>) -> Seq<(Seq<char>, Seq<char>)> {
    m.map_values(|e: (String, String)| (e.0@, e.1@))
}

/// A text as an optional text: none when empty.
pub open spec fn non_empty_text(s: Seq<char>) -> Option<Seq<char>> {
    if s.len() == 0 {
        None
    } else {
        Some(s)
    }
}

/// The initial tempo: the first header's when it sets one, else the
/// song's.
pub open spec fn initial_tempo(song: Song) -> i32 {
    if song.measure_headers@.len() > 0 && song.measure_headers@[0].tempo > 0 {
        song.measure_headers@[0].tempo
    } else {
        song.tempo as i32
    }
}

/// The initial time signature: the first header's, else 4/4.
pub open spec fn initial_time(song: Song) -> TimeSignature {
    if song.measure_headers@.len() > 0 {
        header_time(song.measure_headers@[0])
    } else {
        TimeSignature { numerator: 4, denominator: 4 }
    }
}

/// The initial key: the first header's, else C major.
pub open spec fn initial_key(song: Song) -> KeySignature {
    if song.measure_headers@.len() > 0 {
        let k = song.measure_headers@[0].key_signature;
        key_signature_for(k.key, if k.is_minor { Some("minor"@) } else { None })
    } else {
        KeySignature { root: Pitch { step: PitchStep::C, alter: 0, octave: 4 }, mode: Mode::Major }
    }
}

/// `r` is the optimized metadata of `song`.
pub open spec fn metadata_made(r: Metadata, song: Song) -> bool {
    &&& r.title@ == song.name@
    &&& opt_text(r.artist) == non_empty_text(song.artist@)
    &&& opt_text(r.album) == non_empty_text(song.album@)
    &&& opt_text(r.composer) == non_empty_text(song.author@)
    &&& opt_text(r.copyright) == non_empty_text(song.copyright@)
    &&& r.identification is Some
    &&& misc_view(r.identification->0.miscellaneous@) == misc_of(song)
    &&& r.master_tempo == initial_tempo(song)
    &&& r.time_signature == initial_time(song)
    &&& r.key_signature == initial_key(song)
}

fn non_empty(s: &String) -> (r: Option<String>)
    ensures
        opt_text(r) == non_empty_text(s@),
{
    if s.unicode_len() == 0 {
        None
    } else {
        Some(s.clone())
    }
}

fn push_text_entry(misc: &mut Vec<(String, String)>, key: &str, value: &String)
    ensures
        misc_view(final(misc)@) == misc_view(old(misc)@) + text_entry(key@, value@),
{
    if value.unicode_len() > 0 {
        misc.push((String::from_str(key), value.clone()));
    }
    assert(misc_view(misc@) =~= misc_view(old(misc)@) + text_entry(key@, value@));
}

fn bool_string(b: bool) -> (r: String)
    ensures
        r@ == bool_text(b),
{
    proof {
        reveal_strlit("true");
        reveal_strlit("false");
    }
    if b {
        String::from_str("true")
    } else {
        String::from_str("false")
    }
}

fn triplet_feel_code(t: TripletFeel) -> (r: u64)
    ensures
        r == triplet_code(t),
{
    match t {
        TripletFeel::Straight => 0,
        TripletFeel::Eighth => 1,
        TripletFeel::Sixteenth => 2,
    }
}

fn push_lyric_entries(misc: &mut Vec<(String, String)>, ly: &Lyrics)
    ensures
        misc_view(final(misc)@) == misc_view(old(misc)@) + lyric_entries(*ly),
{
    proof {
        reveal_strlit("gp.lyrics.track_choice");
        reveal_strlit("gp.lyrics.");
        reveal_strlit(".start");
        reveal_strlit(".text");
    }
    let mut choice = String::new();
    push_decimal(&mut choice, ly.track_choice as u64);
    misc.push((String::from_str("gp.lyrics.track_choice"), choice));
    let ghost head = misc_view(misc@);
    assert(head =~= misc_view(old(misc)@) + seq![("gp.lyrics.track_choice"@, decimal(ly.track_choice as nat))]);
    let mut i: usize = 0;
    while i < ly.lines.len()
        invariant
            i <= ly.lines@.len(),
            misc_view(misc@) == head + lyric_lines_entries(ly.lines@, i as int),
        decreases ly.lines@.len() - i,
    {
        let ghost before = misc_view(misc@);
        let line = &ly.lines[i];
        let mut p = String::from_str("gp.lyrics.");
        push_decimal(&mut p, line.0 as u64);
        let mut k1 = p.clone();
        k1.append(".start");
        let mut v1 = String::new();
        push_decimal(&mut v1, line.1 as u64);
        misc.push((k1, v1));
        if line.2.unicode_len() > 0 {
            let mut k2 = p.clone();
            k2.append(".text");
            misc.push((k2, line.2.clone()));
        }
        assert(misc_view(misc@) =~= before + lyric_line_entries(ly.lines@[i as int]));
        assert(lyric_lines_entries(ly.lines@, i + 1) == lyric_lines_entries(ly.lines@, i as int)
            + lyric_line_entries(ly.lines@[i as int]));
        i += 1;
        assert(misc_view(misc@) =~= head + lyric_lines_entries(ly.lines@, i as int));
    }
    assert(misc_view(misc@) =~= misc_view(old(misc)@) + lyric_entries(*ly));
}

fn push_track_fields(misc: &mut Vec<(String, String)>, t: &LTrack, i: usize)
    ensures
        misc_view(final(misc)@) == misc_view(old(misc)@) + track_fields(*t, i as int),
{
    proof {
        reveal_strlit("gp.track.");
        reveal_strlit(".");
        reveal_strlit("short_name");
        reveal_strlit("channel_index");
        reveal_strlit("visible");
        reveal_strlit("solo");
        reveal_strlit("mute");
        reveal_strlit("twelve_stringed");
        reveal_strlit("banjo");
    }
    let mut p = String::from_str("gp.track.");
    push_decimal(&mut p, i as u64);
    p.append(".");
    let mut k1 = p.clone();
    k1.append("short_name");
    let mut k2 = p.clone();
    k2.append("channel_index");
    let mut v2 = String::new();
    push_decimal(&mut v2, t.channel_index as u64);
    let mut k3 = p.clone();
    k3.append("visible");
    let mut k4 = p.clone();
    k4.append("solo");
    let mut k5 = p.clone();
    k5.append("mute");
    let mut k6 = p.clone();
    k6.append("twelve_stringed");
    let mut k7 = p.clone();
    k7.append("banjo");
    misc.push((k1, t.short_name.clone()));
    misc.push((k2, v2));
    misc.push((k3, bool_string(t.visible)));
    misc.push((k4, bool_string(t.solo)));
    misc.push((k5, bool_string(t.mute)));
    misc.push((k6, bool_string(t.twelve_stringed_guitar_track)));
    misc.push((k7, bool_string(t.banjo_track)));
    assert(misc_view(misc@) =~= misc_view(old(misc)@) + track_fields(*t, i as int));
}

/// The miscellaneous fields of the song.
pub fn build_misc(song: &Song) -> (r: Vec<(String, String)>)
    ensures
        misc_view(r@) == misc_of(*song),
{
    proof {
        reveal_strlit("gp.subtitle");
        reveal_strlit("gp.words");
        reveal_strlit("gp.writer");
        reveal_strlit("gp.instructions");
        reveal_strlit("gp.date");
        reveal_strlit("gp.transcriber");
        reveal_strlit("gp.comments");
        reveal_strlit("gp.notice.");
        reveal_strlit("gp.version");
        reveal_strlit("gp.triplet_feel");
        reveal_strlit("gp.tempo_name");
        reveal_strlit("gp.hide_tempo");
        reveal_strlit("gp.direction.");
        reveal_strlit(".");
    }
    let mut misc: Vec<(String, String)> = Vec::new();
    push_text_entry(&mut misc, "gp.subtitle", &song.subtitle);
    push_text_entry(&mut misc, "gp.words", &song.words);
    push_text_entry(&mut misc, "gp.writer", &song.writer);
    push_text_entry(&mut misc, "gp.instructions", &song.instructions);
    push_text_entry(&mut misc, "gp.date", &song.date);
    push_text_entry(&mut misc, "gp.transcriber", &song.transcriber);
    push_text_entry(&mut misc, "gp.comments", &song.comments);
    let ghost texts = misc_view(misc@);
    let mut i: usize = 0;
    while i < song.notice.len()
        invariant
            i <= song.notice@.len(),
            misc_view(misc@) == texts + notice_entries(song.notice@, i as int),
        decreases song.notice@.len() - i,
    {
        let ghost before = misc_view(misc@);
        let mut key = String::from_str("gp.notice.");
        push_decimal(&mut key, i as u64);
        let value = song.notice[i].clone();
        let ghost entry = (key@, value@);
        misc.push((key, value));
        assert(misc_view(misc@) =~= before.push(entry));
        assert(notice_entries(song.notice@, i + 1) == notice_entries(song.notice@, i as int).push(
            entry,
        ));
        i += 1;
        assert(misc_view(misc@) =~= texts + notice_entries(song.notice@, i as int));
    }
    let mut feel = String::new();
    push_decimal(&mut feel, triplet_feel_code(song.triplet_feel));
    misc.push((String::from_str("gp.triplet_feel"), feel));
    misc.push((String::from_str("gp.tempo_name"), song.tempo_name.clone()));
    let mut version = String::new();
    push_decimal(&mut version, song.version.0 as u64);
    version.append(".");
    push_decimal(&mut version, song.version.1 as u64);
    version.append(".");
    push_decimal(&mut version, song.version.2 as u64);
    misc.push((String::from_str("gp.version"), version));
    misc.push((String::from_str("gp.hide_tempo"), bool_string(song.hide_tempo)));
    let ghost upto_fields = misc_view(misc@);
    assert(upto_fields =~= texts + notice_entries(song.notice@, song.notice@.len() as int) + song_fields(*song));
    push_lyric_entries(&mut misc, &song.lyrics);
    let ghost upto_version = misc_view(misc@);
    assert(upto_version =~= texts + notice_entries(song.notice@, song.notice@.len() as int) + song_fields(*song)
        + lyric_entries(song.lyrics));
    let hs = &song.measure_headers;
    let mut j: usize = 0;
    while j < hs.len()
        invariant
            j <= hs@.len(),
            misc_view(misc@) == upto_version + direction_entries(hs@, j as int),
        decreases hs@.len() - j,
    {
        let ghost before = misc_view(misc@);
        match &hs[j].direction {
            Some(d) => {
                let mut key = String::from_str("gp.direction.");
                push_decimal(&mut key, j as u64);
                let value = String::from_str(direction_name(d));
                let ghost entry = (key@, value@);
                misc.push((key, value));
                assert(misc_view(misc@) =~= before.push(entry));
                assert(direction_entries(hs@, j + 1) == direction_entries(hs@, j as int).push(entry));
            },
            None => {
                assert(direction_entries(hs@, j + 1) == direction_entries(hs@, j as int));
            },
        }
        j += 1;
        assert(misc_view(misc@) =~= upto_version + direction_entries(hs@, j as int));
    }
    let ghost upto_directions = misc_view(misc@);
    let mut t: usize = 0;
    while t < song.tracks.len()
        invariant
            t <= song.tracks@.len(),
            misc_view(misc@) == upto_directions + track_entries(song.tracks@, t as int),
        decreases song.tracks@.len() - t,
    {
        push_track_fields(&mut misc, &song.tracks[t], t);
        t += 1;
        assert(misc_view(misc@) =~= upto_directions + track_entries(song.tracks@, t as int));
    }
    misc
}

/// The optimized metadata of the song: title and credits, the initial
/// tempo, time signature and key, and the miscellaneous fields that carry
/// the rest.
pub fn build_metadata(song: &Song) -> (r: Metadata)
    ensures
        metadata_made(r, *song),
{
    let hs = &song.measure_headers;
    let master_tempo: i32 = if hs.len() > 0 && hs[0].tempo > 0 {
        hs[0].tempo
    } else {
        song.tempo as i32
    };
    let time_signature = if hs.len() > 0 {
        header_time_of(&hs[0])
    } else {
        TimeSignature { numerator: 4, denominator: 4 }
    };
    let key_signature = if hs.len() > 0 {
        legacy_key_to_opt_key(&hs[0].key_signature)
    } else {
        KeySignature { root: Pitch { step: PitchStep::C, alter: 0, octave: 4 }, mode: Mode::Major }
    };
    Metadata {
        title: song.name.clone(),
        artist: non_empty(&song.artist),
        album: non_empty(&song.album),
        composer: non_empty(&song.author),
        copyright: non_empty(&song.copyright),
        identification: Some(Identification { miscellaneous: build_misc(song) }),
        master_tempo,
        time_signature,
        key_signature,
    }
}

/// `r` is the optimized score of `song`.
pub open spec fn loaded_made(r: LoadedScore, song: Song) -> bool {
    &&& metadata_made(r.score.metadata, song)
    &&& r.score.timeline@.len() == song.measure_headers@.len()
    &&& forall|i: int|
        0 <= i < r.score.timeline@.len() ==> #[trigger] r.score.timeline@[i] == def_of(song.measure_headers@, song.tempo, i)
    &&& r.score.instruments@.len() == song.tracks@.len()
    &&& forall|t: int|
        0 <= t < r.score.instruments@.len() ==> instrument_made(
            #[trigger] r.score.instruments@[t],
            song.channels@,
            song.tracks@[t],
        )
    &&& r.score.staves@ == staves_of(song.tracks@, song.tracks@.len() as int)
    &&& r.score.tracks@.len() == song.tracks@.len()
    &&& forall|t: int|
        0 <= t < r.score.tracks@.len() ==> (#[trigger] r.score.tracks@[t]).instrument == #[verifier::truncate] (t as u8)
            && r.score.tracks@[t].staves@ == track_staff_ids(song.tracks@, t)
    &&& forall|t: int|
        0 <= t < r.score.tracks@.len() ==> track_made(
            #[trigger] r.score.tracks@[t],
            song.tracks@[t],
            song.measure_headers@.len() as int,
        )
}

/// Convert a legacy song into an optimized score.
pub fn legacy_song_to_loaded_score(song: &Song) -> (r: LoadedScore)
    requires
        song_tracks_ok(*song),
    ensures
        loaded_made(r, *song),
        forall|t: int| 0 <= t < r.score.tracks@.len() ==> (#[trigger] r.score.tracks@[t]).wf(),
{
    let timeline = build_timeline(song);
    let metadata = build_metadata(song);
    let instruments = build_instruments(song);
    let staves = build_staves(song);
    let tracks = build_tracks(song);
    LoadedScore { score: Score { metadata, instruments, staves, tracks, timeline } }
}

} // verus!
