//! Reading a whole MusicXML `score-partwise` document into a Guitar Pro
//! song: its metadata, one MIDI channel per part, the measure headers read
//! from the first part, and one track per part.

use vstd::prelude::*;

use crate::convert::guitarpro::{
    beat_built, build_beat, build_metadata, extract_string_tunings, first_part, first_part_index, last_creator,
    last_field, metadata_read, notices, or_keep, part_index, part_strings, title_after,
};
use crate::model::legacy::{
    Beat, Voice, Duration as LegacyDuration, Measure as LMeasure, MeasureClef, Song, Track as LTrack, TripletFeel, KeySignature as LKeySignature, MeasureHeader, MidiChannel,
    TimeSignature as LTimeSig,
};
use crate::model::musicxml::{MusicData, Note as XmlNote, ScorePart, ScorePartwise, PartListItem};
use crate::convert::to_legacy::signed_digits;
use crate::model::musicxml::Measure as XmlMeasure;
use crate::model::musicxml::{Part, PartName};
use crate::text::{all_digits, digits_value, is_digit, parse_usize, str_eq, unsigned_value};

verus! {

// ---------------------------------------------------------------------------
// Channels
// ---------------------------------------------------------------------------

/// A value clamped to 0–127.
pub open spec fn clamp_7bit(v: i8) -> i8 {
    if v < 0 {
        0
    } else {
        v
    }
}

/// The channel of a score part: the default channel, changed by what the
/// part's first MIDI instrument gives: its 1-based channel, its 1-based
/// program, its volume and pan clamped to 0–127, and the low byte of its
/// bank.
pub open spec fn part_channel(sp: ScorePart) -> MidiChannel {
    let d = MidiChannel { channel: 0, instrument: 0, bank: 0, volume: 104, balance: 64 };
    if sp.midi_instruments@.len() == 0 {
        d
    } else {
        let m = sp.midi_instruments@[0];
        MidiChannel {
            channel: match m.midi_channel {
                Some(c) => if c == 0 {
                    0u8
                } else {
                    (c - 1) as u8
                },
                None => 0u8,
            },
            instrument: match m.midi_program {
                Some(p) => (p - 1) as i32,
                None => 0i32,
            },
            bank: match m.midi_bank {
                Some(b) => #[verifier::truncate] (b as u8),
                None => 0u8,
            },
            volume: match m.volume {
                Some(v) => clamp_7bit(v),
                None => 104i8,
            },
            balance: match m.pan {
                Some(p) => clamp_7bit(p),
                None => 64i8,
            },
        }
    }
}

/// The score part of a part-list entry.
pub open spec fn item_part(item: PartListItem) -> ScorePart {
    match item {
        PartListItem::ScorePart(sp) => sp,
    }
}

/// The song's channels: one per part, or the default channel alone when
/// there is no part.
pub open spec fn channels_of(src: ScorePartwise) -> Seq<MidiChannel> {
    let items = src.part_list.items@;
    if items.len() == 0 {
        seq![MidiChannel { channel: 0, instrument: 0, bank: 0, volume: 104, balance: 64 }]
    } else {
        items.map_values(|it: PartListItem| part_channel(item_part(it)))
    }
}

fn channel_of_part(sp: &ScorePart) -> (r: MidiChannel)
    ensures
        r == part_channel(*sp),
{
    let mut ch = MidiChannel { channel: 0, instrument: 0, bank: 0, volume: 104, balance: 64 };
    if sp.midi_instruments.len() > 0 {
        let m = &sp.midi_instruments[0];
        match m.midi_channel {
            Some(c) => {
                ch.channel = if c == 0 {
                    0
                } else {
                    c - 1
                };
            },
            None => {},
        }
        match m.midi_program {
            Some(p) => {
                ch.instrument = p as i32 - 1;
            },
            None => {},
        }
        match m.volume {
            Some(v) => {
                ch.volume = if v < 0 {
                    0
                } else {
                    v
                };
            },
            None => {},
        }
        match m.pan {
            Some(p) => {
                ch.balance = if p < 0 {
                    0
                } else {
                    p
                };
            },
            None => {},
        }
        match m.midi_bank {
            Some(b) => {
                ch.bank = #[verifier::truncate] (b as u8);
            },
            None => {},
        }
    }
    ch
}

/// The song's MIDI channels, one per part of the part list.
pub fn build_channels(src: &ScorePartwise) -> (r: Vec<MidiChannel>)
    ensures
        r@ == channels_of(*src),
{
    let items = &src.part_list.items;
    let mut r: Vec<MidiChannel> = Vec::new();
    let mut i: usize = 0;
    while i < items.len()
        invariant
            i <= items@.len(),
            r@ == items@.take(i as int).map_values(|it: PartListItem| part_channel(item_part(it))),
        decreases items@.len() - i,
    {
        let ch = match &items[i] {
            PartListItem::ScorePart(sp) => channel_of_part(sp),
        };
        r.push(ch);
        assert(items@.take(i + 1) =~= items@.take(i as int).push(items@[i as int]));
        i += 1;
        assert(r@ =~= items@.take(i as int).map_values(|it: PartListItem| part_channel(item_part(it))));
    }
    assert(items@.take(i as int) =~= items@);
    if r.len() == 0 {
        r.push(MidiChannel { channel: 0, instrument: 0, bank: 0, volume: 104, balance: 64 });
    }
    r
}

// ---------------------------------------------------------------------------
// Tempo
// ---------------------------------------------------------------------------

/// The tempo a music-data element sets, if any.
pub open spec fn data_tempo(d: MusicData) -> Option<i32> {
    match d {
        MusicData::Direction(dir) => match dir.sound {
            Some(s) => s.tempo,
            None => None,
        },
        MusicData::Sound(s) => s.tempo,
        _ => None,
    }
}

/// The first tempo among the elements from `i` on.
pub open spec fn first_tempo(d: Seq<MusicData>, i: int) -> Option<i32>
    decreases d.len() - i,
{
    if i < 0 || i >= d.len() {
        None
    } else if data_tempo(d[i]) is Some {
        data_tempo(d[i])
    } else {
        first_tempo(d, i + 1)
    }
}

/// A tempo as a 16-bit value, saturating.
pub open spec fn tempo_i16(t: i32) -> i16 {
    if t > 32767 {
        32767i16
    } else if t < -32768 {
        -32768i16
    } else {
        t as i16
    }
}

/// The tempo of the first measure of the first part, if it sets one.
pub open spec fn global_tempo(src: ScorePartwise) -> Option<i16> {
    match first_part_index(src) {
        Some(k) => if src.parts@[k].measures@.len() > 0 {
            match first_tempo(src.parts@[k].measures@[0].music_data@, 0) {
                Some(t) => Some(tempo_i16(t)),
                None => None,
            }
        } else {
            None
        },
        None => None,
    }
}

fn saturate_tempo(t: i32) -> (r: i16)
    ensures
        r == tempo_i16(t),
{
    if t > 32767 {
        32767
    } else if t < -32768 {
        -32768
    } else {
        t as i16
    }
}

fn tempo_of_data(d: &MusicData) -> (r: Option<i32>)
    ensures
        r == data_tempo(*d),
{
    match d {
        MusicData::Direction(dir) => match &dir.sound {
            Some(s) => s.tempo,
            None => None,
        },
        MusicData::Sound(s) => s.tempo,
        _ => None,
    }
}

/// The tempo the first measure of the first part sets, if any.
pub fn extract_global_tempo(src: &ScorePartwise) -> (r: Option<i16>)
    ensures
        r == global_tempo(*src),
{
    let part = match first_part(src) {
        Some(p) => p,
        None => return None,
    };
    if part.measures.len() == 0 {
        return None;
    }
    let d = &part.measures[0].music_data;
    assert(first_part_index(*src) is Some);
    let ghost k = first_part_index(*src)->0;
    assert(d@ == src.parts@[k].measures@[0].music_data@);
    let mut i: usize = 0;
    while i < d.len()
        invariant
            first_part_index(*src) == Some(k),
            src.parts@[k].measures@.len() > 0,
            d@ == src.parts@[k].measures@[0].music_data@,
            i <= d@.len(),
            first_tempo(d@, 0) == first_tempo(d@, i as int),
        decreases d@.len() - i,
    {
        match tempo_of_data(&d[i]) {
            Some(t) => {
                return Some(saturate_tempo(t));
            },
            None => {},
        }
        i += 1;
    }
    None
}


// ---------------------------------------------------------------------------
// Measure headers
// ---------------------------------------------------------------------------

/// The signed byte a text spells, as `i8::from_str` reads it.
pub open spec fn i8_named(t: Seq<char>) -> Option<i8> {
    let d = signed_digits(t);
    if d.len() > 0 && all_digits(d) {
        let v = digits_value(d);
        if t[0] == '-' {
            if v <= 128 {
                Some((-v) as i8)
            } else {
                None
            }
        } else if v <= 127 {
            Some(v as i8)
        } else {
            None
        }
    } else {
        None
    }
}

/// The 16-bit unsigned number a text spells, as `u16::from_str` reads it.
pub open spec fn u16_named(t: Seq<char>) -> Option<u16> {
    match unsigned_value(t) {
        Some(v) => if v <= 65535 {
            Some(v as u16)
        } else {
            None
        },
        None => None,
    }
}

fn parse_i8(t: &str) -> (r: Option<i8>)
    ensures
        r == i8_named(t@),
{
    let n = t.unicode_len();
    if n == 0 {
        return None;
    }
    let first = t.get_char(0);
    let neg = first == '-';
    let start: usize = if first == '-' || first == '+' {
        1
    } else {
        0
    };
    let ghost d = signed_digits(t@);
    assert(d =~= t@.subrange(start as int, n as int));
    if start == n {
        return None;
    }
    let mut v: u32 = 0;
    let mut i: usize = start;
    while i < n
        invariant
            n == t@.len(),
            start <= i <= n,
            start < n,
            d == signed_digits(t@),
            neg == (t@[0] == '-'),
            d =~= t@.subrange(start as int, n as int),
            forall|k: int| start <= k < i ==> is_digit(#[trigger] t@[k]),
            v <= 129,
            v == if digits_value(t@.subrange(start as int, i as int)) < 129 {
                digits_value(t@.subrange(start as int, i as int))
            } else {
                129
            },
        decreases n - i,
    {
        let c = t.get_char(i);
        if !('0' <= c && c <= '9') {
            assert(d[i - start] == t@[i as int]);
            assert(!all_digits(d));
            return None;
        }
        let dg = (c as u32 - '0' as u32);
        let ghost p = t@.subrange(start as int, i + 1);
        assert(p.drop_last() =~= t@.subrange(start as int, i as int));
        assert(digits_value(p) == digits_value(p.drop_last()) * 10 + dg);
        if v < 129 {
            let w = v * 10 + dg;
            v = if w < 129 {
                w
            } else {
                129
            };
        } else {
            assert(digits_value(p) >= 129) by (nonlinear_arith)
                requires
                    digits_value(p) == digits_value(p.drop_last()) * 10 + dg,
                    digits_value(p.drop_last()) >= 129,
            ;
        }
        i += 1;
    }
    assert(t@.subrange(start as int, n as int) =~= d);
    if neg {
        if v <= 128 {
            Some((0 - (v as i32)) as i8)
        } else {
            None
        }
    } else if v <= 127 {
        Some(v as i8)
    } else {
        None
    }
}

fn parse_u16(t: &str) -> (r: Option<u16>)
    ensures
        r == u16_named(t@),
{
    match parse_usize(t) {
        Some(v) => if v <= 65535 {
            Some(v as u16)
        } else {
            None
        },
        None => None,
    }
}

/// What the headers carry from element to element: the running key, time
/// numerator and denominator, and for the current measure its tempo
/// change, whether a repeat opens and the repeat count that closes it.
pub type HeaderScan = (LKeySignature, i8, u16, Option<i16>, bool, i8);

/// A key's mode is minor.
pub open spec fn mode_is_minor(mode: Option<String>) -> bool {
    mode is Some && mode->0@ == "minor"@
}

/// A time signature's numerator text, 4 when absent or unreadable.
pub open spec fn beats_value(b: Option<String>) -> i8 {
    match b {
        Some(t) => match i8_named(t@) {
            Some(v) => v,
            None => 4,
        },
        None => 4,
    }
}

/// A time signature's denominator text, 4 when absent or unreadable.
pub open spec fn beat_type_value(b: Option<String>) -> u16 {
    match b {
        Some(t) => match u16_named(t@) {
            Some(v) => v,
            None => 4,
        },
        None => 4,
    }
}

/// The scan after one element; `first` tells whether the measure is the
/// first one, whose tempo is the song's and no change.
pub open spec fn header_step(st: HeaderScan, e: MusicData, first: bool) -> HeaderScan {
    match e {
        MusicData::Attributes(a) => {
            let k = if a.keys@.len() > 0 && a.keys@[0].fifths is Some {
                LKeySignature { key: a.keys@[0].fifths->0, is_minor: mode_is_minor(a.keys@[0].mode) }
            } else {
                st.0
            };
            let (num, den) = if a.times@.len() > 0 {
                (beats_value(a.times@[0].beats), beat_type_value(a.times@[0].beat_type))
            } else {
                (st.1, st.2)
            };
            (k, num, den, st.3, st.4, st.5)
        },
        MusicData::Barline(b) => match b.repeat {
            Some(rep) => if rep.direction@ == "forward"@ {
                (st.0, st.1, st.2, st.3, true, st.5)
            } else if rep.direction@ == "backward"@ {
                let times: u8 = match rep.times {
                    Some(x) => x,
                    None => 1,
                };
                (st.0, st.1, st.2, st.3, st.4, #[verifier::truncate] (times as i8))
            } else {
                st
            },
            None => st,
        },
        _ => match data_tempo(e) {
            Some(t) => if first {
                st
            } else {
                (st.0, st.1, st.2, Some(tempo_i16(t)), st.4, st.5)
            },
            None => st,
        },
    }
}

/// The scan after the first `n` elements.
pub open spec fn scan_elements(st: HeaderScan, d: Seq<MusicData>, n: int, first: bool) -> HeaderScan
    decreases n,
{
    if n <= 0 {
        st
    } else {
        header_step(scan_elements(st, d, n - 1, first), d[n - 1], first)
    }
}

/// The scan at the end of measure `m`, entered with the running key and
/// time `run`.
pub open spec fn measure_scan(run: (LKeySignature, i8, u16), m: XmlMeasure, first: bool) -> HeaderScan {
    scan_elements((run.0, run.1, run.2, None, false, -1i8), m.music_data@, m.music_data@.len() as int, first)
}

/// The running key and time before measure `n`.
pub open spec fn running_before(ms: Seq<XmlMeasure>, n: int) -> (LKeySignature, i8, u16)
    decreases n,
{
    if n <= 0 {
        (LKeySignature { key: 0, is_minor: false }, 4i8, 4u16)
    } else {
        let e = measure_scan(running_before(ms, n - 1), ms[n - 1], n - 1 == 0);
        (e.0, e.1, e.2)
    }
}

/// The start tick of measure `n`: one quarter note (960 ticks), plus the
/// length of each measure before it, its numerator times 3840 divided by
/// its denominator.
pub open spec fn header_start(ms: Seq<XmlMeasure>, n: int) -> int
    decreases n,
{
    if n <= 0 {
        960
    } else {
        let e = measure_scan(running_before(ms, n - 1), ms[n - 1], n - 1 == 0);
        header_start(ms, n - 1) + e.1 * (3840int / (e.2 as int))
    }
}

/// No measure of `ms` is read with a denominator of 0, whose beat length
/// cannot be computed.
pub open spec fn denominators_ok(ms: Seq<XmlMeasure>) -> bool {
    forall|i: int| 1 <= i <= ms.len() ==> (#[trigger] running_before(ms, i)).2 != 0
}

/// `h` is the header of measure `i` of the first part's measures `ms`.
pub open spec fn xml_header_made(h: MeasureHeader, ms: Seq<XmlMeasure>, i: int) -> bool {
    let e = measure_scan(running_before(ms, i), ms[i], i == 0);
    &&& h.number == #[verifier::truncate] ((i + 1) as u16)
    &&& h.start == header_start(ms, i)
    &&& h.tempo == match e.3 {
        Some(t) => t as i32,
        None => 0,
    }
    &&& h.time_signature.numerator == e.1
    &&& h.time_signature.denominator == (LegacyDuration { value: e.2, dotted: false, tuplet_enters: 1, tuplet_times: 1 })
    &&& h.time_signature.beams@ == seq![2u8, 2u8, 2u8, 2u8]
    &&& h.key_signature == e.0
    &&& h.repeat_open == e.4
    &&& h.repeat_close == e.5
    &&& h.repeat_alternative == 0
    &&& h.direction is None
    &&& h.marker is None
}

/// The measures of the first part, none when there is no first part.
pub open spec fn first_measures(src: ScorePartwise) -> Seq<XmlMeasure> {
    match first_part_index(src) {
        Some(k) => src.parts@[k].measures@,
        None => Seq::empty(),
    }
}

fn scan_step(st: HeaderScan, e: &MusicData, first: bool) -> (r: HeaderScan)
    ensures
        r == header_step(st, *e, first),
{
    proof {
        reveal_strlit("minor");
        reveal_strlit("forward");
        reveal_strlit("backward");
    }
    match e {
        MusicData::Attributes(a) => {
            let k = if a.keys.len() > 0 && a.keys[0].fifths.is_some() {
                let minor = match &a.keys[0].mode {
                    Some(m) => str_eq(m.as_str(), "minor"),
                    None => false,
                };
                LKeySignature { key: a.keys[0].fifths.unwrap(), is_minor: minor }
            } else {
                st.0
            };
            let (num, den) = if a.times.len() > 0 {
                let num: i8 = match &a.times[0].beats {
                    Some(t) => match parse_i8(t.as_str()) {
                        Some(v) => v,
                        None => 4,
                    },
                    None => 4,
                };
                let den: u16 = match &a.times[0].beat_type {
                    Some(t) => match parse_u16(t.as_str()) {
                        Some(v) => v,
                        None => 4,
                    },
                    None => 4,
                };
                (num, den)
            } else {
                (st.1, st.2)
            };
            (k, num, den, st.3, st.4, st.5)
        },
        MusicData::Barline(b) => match &b.repeat {
            Some(rep) => if str_eq(rep.direction.as_str(), "forward") {
                (st.0, st.1, st.2, st.3, true, st.5)
            } else if str_eq(rep.direction.as_str(), "backward") {
                let times: u8 = match rep.times {
                    Some(x) => x,
                    None => 1,
                };
                let close: i8 = #[verifier::truncate] (times as i8);
                (st.0, st.1, st.2, st.3, st.4, close)
            } else {
                st
            },
            None => st,
        },
        _ => match tempo_of_data(e) {
            Some(t) => if first {
                st
            } else {
                (st.0, st.1, st.2, Some(saturate_tempo(t)), st.4, st.5)
            },
            None => st,
        },
    }
}

fn scan_measure(run: (LKeySignature, i8, u16), m: &XmlMeasure, first: bool) -> (r: HeaderScan)
    ensures
        r == measure_scan(run, *m, first),
{
    let d = &m.music_data;
    let mut st: HeaderScan = (run.0, run.1, run.2, None, false, -1);
    let mut i: usize = 0;
    while i < d.len()
        invariant
            i <= d@.len(),
            st == scan_elements((run.0, run.1, run.2, None, false, -1i8), d@, i as int, first),
        decreases d@.len() - i,
    {
        st = scan_step(st, &d[i], first);
        i += 1;
    }
    st
}

proof fn lemma_start_bound(ms: Seq<XmlMeasure>, n: int)
    requires
        0 <= n,
        forall|i: int| 1 <= i <= n ==> (#[trigger] running_before(ms, i)).2 != 0,
    ensures
        960 - n * 491520 <= header_start(ms, n) <= 960 + n * 491520,
    decreases n,
{
    if n > 0 {
        lemma_start_bound(ms, n - 1);
        let e = measure_scan(running_before(ms, n - 1), ms[n - 1], n - 1 == 0);
        assert(running_before(ms, n).2 == e.2);
        assert(e.2 != 0);
        let q = 3840int / (e.2 as int);
        assert(0 <= q <= 3840) by (nonlinear_arith)
            requires
                e.2 >= 1,
                q == 3840int / (e.2 as int),
        ;
        assert(-491520 <= e.1 * q <= 491520) by (nonlinear_arith)
            requires
                -128 <= e.1 <= 127,
                0 <= q <= 3840,
        ;
    }
}

/// The measure headers, read from the measures of the first part.
pub fn build_measure_headers(src: &ScorePartwise) -> (r: Vec<MeasureHeader>)
    requires
        denominators_ok(first_measures(*src)),
        first_measures(*src).len() <= 9_000_000_000_000,
    ensures
        r@.len() == first_measures(*src).len(),
        forall|i: int| 0 <= i < r@.len() ==> xml_header_made(#[trigger] r@[i], first_measures(*src), i),
{
    let part = match first_part(src) {
        Some(p) => p,
        None => return Vec::new(),
    };
    assert(first_part_index(*src) is Some);
    let ms = &part.measures;
    assert(ms@ == first_measures(*src));
    let mut r: Vec<MeasureHeader> = Vec::new();
    let mut run: (LKeySignature, i8, u16) = (LKeySignature { key: 0, is_minor: false }, 4, 4);
    let mut start: i64 = 960;
    let mut i: usize = 0;
    while i < ms.len()
        invariant
            ms@ == first_measures(*src),
            denominators_ok(ms@),
            ms@.len() <= 9_000_000_000_000,
            start == header_start(ms@, i as int),
            i <= ms@.len(),
            r@.len() == i,
            run == running_before(ms@, i as int),
            forall|k: int| 0 <= k < i ==> xml_header_made(#[trigger] r@[k], ms@, k),
        decreases ms@.len() - i,
    {
        let e = scan_measure(run, &ms[i], i == 0);
        proof {
            assert(running_before(ms@, i + 1).2 == e.2);
            lemma_start_bound(ms@, i + 1);
            assert(i + 1 <= 9_000_000_000_000);
            assert((i + 1) * 491520 <= 9_000_000_000_000 * 491520) by (nonlinear_arith)
                requires
                    i + 1 <= 9_000_000_000_000,
            ;
        }
        let beat: i64 = 3840 / (e.2 as i64);
        proof {
            let q = 3840int / (e.2 as int);
            assert(beat == q);
            assert(0 <= q <= 3840) by (nonlinear_arith)
                requires
                    e.2 >= 1,
                    q == 3840int / (e.2 as int),
            ;
            assert(-491520 <= e.1 * q <= 491520) by (nonlinear_arith)
                requires
                    -128 <= e.1 <= 127,
                    0 <= q <= 3840,
            ;
            assert(header_start(ms@, i + 1) == start + e.1 * q);
        }
        let next: i64 = start + (e.1 as i64) * beat;
        let tempo: i32 = match e.3 {
            Some(t) => t as i32,
            None => 0,
        };
        let number: u16 = #[verifier::truncate] ((i + 1) as u16);
        r.push(
            MeasureHeader {
                number,
                start,
                tempo,
                time_signature: LTimeSig {
                    numerator: e.1,
                    denominator: LegacyDuration { value: e.2, dotted: false, tuplet_enters: 1, tuplet_times: 1 },
                    beams: vec![2, 2, 2, 2],
                },
                key_signature: e.0,
                repeat_open: e.4,
                repeat_close: e.5,
                repeat_alternative: 0,
                direction: None,
                marker: None,
            },
        );
        run = (e.0, e.1, e.2);
        start = next;
        i += 1;
    }
    r
}


// ---------------------------------------------------------------------------
// Voices
// ---------------------------------------------------------------------------

/// The voice a note belongs to, "1" when it names none.
pub open spec fn voice_name(n: XmlNote) -> Seq<char> {
    match n.voice {
        Some(v) => v@,
        None => "1"@,
    }
}

/// The first position from `i` on of `v` among `names`; their number when
/// `v` is not there.
pub open spec fn slot_from(names: Seq<Seq<char>>, v: Seq<char>, i: int) -> int
    decreases names.len() - i,
{
    if i < 0 || i >= names.len() {
        names.len() as int
    } else if names[i] == v {
        i
    } else {
        slot_from(names, v, i + 1)
    }
}

/// What reading a measure's elements carries: the time cursor, the
/// divisions per quarter, the voices in order of appearance with the onset
/// of each one's last note, and the notes read as (voice position, onset,
/// element position).
pub type VoiceScan = (int, u32, Seq<Seq<char>>, Seq<int>, Seq<(int, int, int)>);

/// The scan after element `e` at position `idx`: divisions change the
/// divisions, a backup moves the cursor back (not before 0), a forward moves
/// it on; a note that is not a grace note starts at the cursor, or with the
/// previous note of its voice when it is a chord note, and moves the cursor
/// on by its duration when it is not.
pub open spec fn voice_step(st: VoiceScan, e: MusicData, idx: int) -> VoiceScan {
    let (cursor, div, names, lasts, pending) = st;
    match e {
        MusicData::Attributes(a) => (
            cursor,
            match a.divisions {
                Some(d) => d,
                None => div,
            },
            names,
            lasts,
            pending,
        ),
        MusicData::Backup(b) => (
            if cursor - b.duration < 0 {
                0
            } else {
                cursor - b.duration
            },
            div,
            names,
            lasts,
            pending,
        ),
        MusicData::Forward(fw) => (cursor + fw.duration, div, names, lasts, pending),
        MusicData::Note(n) => if n.grace is Some {
            st
        } else {
            let v = voice_name(n);
            let j = slot_from(names, v, 0);
            let onset = if n.chord is Some && j < names.len() {
                lasts[j]
            } else {
                cursor
            };
            let next = if n.chord is Some {
                cursor
            } else {
                cursor + match n.duration {
                    Some(d) => d as int,
                    None => 0,
                }
            };
            if j < names.len() {
                (next, div, names, lasts.update(j, onset), pending.push((j, onset, idx)))
            } else {
                (next, div, names.push(v), lasts.push(onset), pending.push((j, onset, idx)))
            }
        },
        _ => st,
    }
}

/// The scan after the first `n` elements.
pub open spec fn voice_scan(st: VoiceScan, d: Seq<MusicData>, n: int) -> VoiceScan
    decreases n,
{
    if n <= 0 {
        st
    } else {
        voice_step(voice_scan(st, d, n - 1), d[n - 1], n - 1)
    }
}

/// The beats of voice position `j` among the first `n` notes read: a note
/// joins the previous beat of its voice when it has the same onset, else it
/// starts a beat; each beat as (onset, element positions).
pub open spec fn groups_of(ps: Seq<(int, int, int)>, j: int, n: int) -> Seq<(int, Seq<int>)>
    decreases n,
{
    if n <= 0 {
        Seq::empty()
    } else {
        let g = groups_of(ps, j, n - 1);
        let p = ps[n - 1];
        if p.0 != j {
            g
        } else if g.len() > 0 && g.last().0 == p.1 {
            g.update(g.len() - 1, (p.1, g.last().1.push(p.2)))
        } else {
            g.push((p.1, seq![p.2]))
        }
    }
}

/// `a` sorts before `b`, character by character.
pub open spec fn chars_lt(a: Seq<char>, b: Seq<char>) -> bool
    decreases a.len(),
{
    if a.len() == 0 {
        b.len() > 0
    } else if b.len() == 0 {
        false
    } else if a[0] != b[0] {
        (a[0] as u32) < (b[0] as u32)
    } else {
        chars_lt(a.drop_first(), b.drop_first())
    }
}

/// Where voice `j` goes among `order`: before the first voice whose name
/// sorts after its name.
pub open spec fn insert_at(names: Seq<Seq<char>>, order: Seq<int>, j: int, p: int) -> int
    decreases order.len() - p,
{
    if p < 0 || p >= order.len() {
        order.len() as int
    } else if chars_lt(names[j], names[order[p]]) {
        p
    } else {
        insert_at(names, order, j, p + 1)
    }
}

/// The first `m` voice positions in the order of their names.
pub open spec fn slot_order(names: Seq<Seq<char>>, m: int) -> Seq<int>
    decreases m,
{
    if m <= 0 {
        Seq::empty()
    } else {
        let o = slot_order(names, m - 1);
        o.insert(insert_at(names, o, m - 1, 0), m - 1)
    }
}

/// The note at an element, if the element is one.
pub open spec fn note_at(e: MusicData) -> XmlNote {
    match e {
        MusicData::Note(n) => n,
        _ => vstd::pervasive::arbitrary(),
    }
}

/// The notes at the given element positions.
pub open spec fn notes_at(d: Seq<MusicData>, idxs: Seq<int>) -> Seq<XmlNote> {
    idxs.map_values(|i: int| note_at(d[i]))
}

/// The scan of a whole measure entered with `div` divisions.
pub open spec fn measure_voices_scan(d: Seq<MusicData>, div: u32) -> VoiceScan {
    voice_scan((0, div, Seq::empty(), Seq::empty(), Seq::empty()), d, d.len() as int)
}

/// `r` is the voices of the measure with elements `d` entered with `div`
/// divisions: one voice per voice name, in the order of the names, each
/// with its beats; one empty voice when the measure has no note.
pub open spec fn voices_made(r: Seq<Voice>, d: Seq<MusicData>, strings: Seq<(i8, i8)>, div: u32) -> bool {
    let st = measure_voices_scan(d, div);
    if st.2.len() == 0 {
        r.len() == 1 && r[0].beats@.len() == 0
    } else {
        let order = slot_order(st.2, st.2.len() as int);
        &&& r.len() == order.len()
        &&& forall|v: int|
            0 <= v < r.len() ==> {
                let gs = groups_of(st.4, order[v], st.4.len() as int);
                &&& (#[trigger] r[v]).beats@.len() == gs.len()
                &&& forall|b: int|
                    0 <= b < gs.len() ==> beat_built(
                        #[trigger] r[v].beats@[b],
                        notes_at(d, gs[b].1),
                        strings,
                        st.1,
                    )
            }
    }
}

fn str_lt(a: &str, b: &str) -> (r: bool)
    ensures
        r == chars_lt(a@, b@),
{
    let n = a.unicode_len();
    let m = b.unicode_len();
    let mut i: usize = 0;
    assert(a@.skip(0) =~= a@ && b@.skip(0) =~= b@);
    while i < n && i < m
        invariant
            n == a@.len(),
            m == b@.len(),
            i <= n,
            i <= m,
            chars_lt(a@, b@) == chars_lt(a@.skip(i as int), b@.skip(i as int)),
        decreases n - i,
    {
        let x = a.get_char(i);
        let y = b.get_char(i);
        assert(a@.skip(i as int)[0] == x && b@.skip(i as int)[0] == y);
        if x != y {
            return (x as u32) < (y as u32);
        }
        assert(a@.skip(i as int).drop_first() =~= a@.skip(i + 1));
        assert(b@.skip(i as int).drop_first() =~= b@.skip(i + 1));
        i += 1;
    }
    i == n && i < m
}

proof fn lemma_slot_bound(names: Seq<Seq<char>>, v: Seq<char>, i: int)
    requires
        0 <= i,
    ensures
        slot_from(names, v, i) <= names.len(),
        slot_from(names, v, i) < names.len() ==> names[slot_from(names, v, i)] == v,
    decreases names.len() - i,
{
    if i < names.len() && names[i] != v {
        lemma_slot_bound(names, v, i + 1);
    }
}

fn find_slot(names: &Vec<String>, v: &str) -> (r: usize)
    ensures
        r as int == slot_from(names@.map_values(|s: String| s@), v@, 0),
        r <= names@.len(),
{
    proof {
        lemma_slot_bound(names@.map_values(|s: String| s@), v@, 0);
    }
    let ghost nv = names@.map_values(|s: String| s@);
    let mut i: usize = 0;
    while i < names.len()
        invariant
            nv == names@.map_values(|s: String| s@),
            i <= names@.len(),
            slot_from(nv, v@, 0) == slot_from(nv, v@, i as int),
        decreases names@.len() - i,
    {
        if str_eq(names[i].as_str(), v) {
            return i;
        }
        i += 1;
    }
    i
}


/// The view of the scan's running values.
pub open spec fn scan_view(
    cursor: i128,
    div: u32,
    names: Seq<String>,
    lasts: Seq<i128>,
    pending: Seq<(usize, i128, usize)>,
) -> VoiceScan {
    (
        cursor as int,
        div,
        names.map_values(|s: String| s@),
        lasts.map_values(|x: i128| x as int),
        pending.map_values(|p: (usize, i128, usize)| (p.0 as int, p.1 as int, p.2 as int)),
    )
}

fn voice_beats(
    d: &Vec<MusicData>,
    pending: &Vec<(usize, i128, usize)>,
    j: usize,
    strings: &[(i8, i8)],
    div: u32,
) -> (r: Vec<Beat>)
    requires
        forall|k: int|
            0 <= k < pending@.len() ==> (#[trigger] pending@[k]).2 < d@.len() && d@[pending@[k].2 as int] is Note,
    ensures
        ({
            let gs = groups_of(
                pending@.map_values(|p: (usize, i128, usize)| (p.0 as int, p.1 as int, p.2 as int)),
                j as int,
                pending@.len() as int,
            );
            &&& r@.len() == gs.len()
            &&& forall|b: int| 0 <= b < gs.len() ==> beat_built(#[trigger] r@[b], notes_at(d@, gs[b].1), strings@, div)
        }),
{
    let ghost pv = pending@.map_values(|p: (usize, i128, usize)| (p.0 as int, p.1 as int, p.2 as int));
    let mut beats: Vec<Beat> = Vec::new();
    let mut cur: Vec<&XmlNote> = Vec::new();
    let mut cur_onset: i128 = 0;
    let mut k: usize = 0;
    while k < pending.len()
        invariant
            pv == pending@.map_values(|p: (usize, i128, usize)| (p.0 as int, p.1 as int, p.2 as int)),
            forall|q: int|
                0 <= q < pending@.len() ==> (#[trigger] pending@[q]).2 < d@.len() && d@[pending@[q].2 as int] is Note,
            k <= pending@.len(),
            ({
                let g = groups_of(pv, j as int, k as int);
                if g.len() == 0 {
                    beats@.len() == 0 && cur@.len() == 0
                } else {
                    &&& beats@.len() == g.len() - 1
                    &&& forall|b: int|
                        0 <= b < beats@.len() ==> beat_built(#[trigger] beats@[b], notes_at(d@, g[b].1), strings@, div)
                    &&& cur@.map_values(|n: &XmlNote| *n) == notes_at(d@, g.last().1)
                    &&& cur_onset as int == g.last().0
                    &&& cur@.len() > 0
                }
            }),
        decreases pending@.len() - k,
    {
        let ghost g0 = groups_of(pv, j as int, k as int);
        let (pj, po, pi) = pending[k];
        assert(pv[k as int] == (pj as int, po as int, pi as int));
        if pj == j {
            let ghost nt = note_at(d@[pi as int]);
            if cur.len() > 0 && cur_onset == po {
                if let MusicData::Note(n) = &d[pi] {
                    cur.push(n);
                }
                proof {
                    let last = g0.last();
                    assert(notes_at(d@, last.1.push(pi as int)) =~= notes_at(d@, last.1).push(nt));
                    assert(cur@.map_values(|n: &XmlNote| *n) =~= notes_at(d@, last.1).push(nt));
                }
            } else {
                if cur.len() > 0 {
                    let beat = build_beat(cur.as_slice(), strings, div);
                    proof {
                        assert(cur@.map_values(|n: &XmlNote| *n) == notes_at(d@, g0.last().1));
                    }
                    beats.push(beat);
                }
                cur = Vec::new();
                if let MusicData::Note(n) = &d[pi] {
                    cur.push(n);
                }
                cur_onset = po;
                proof {
                    assert(notes_at(d@, seq![pi as int]) =~= seq![nt]);
                    assert(cur@.map_values(|n: &XmlNote| *n) =~= seq![nt]);
                }
            }
        }
        k += 1;
    }
    if cur.len() > 0 {
        let beat = build_beat(cur.as_slice(), strings, div);
        beats.push(beat);
    }
    beats
}


/// Read a measure's notes into voices; `divisions` carries the divisions
/// per quarter from measure to measure.
pub fn build_voices(m: &XmlMeasure, strings: &[(i8, i8)], divisions: &mut u32) -> (r: Vec<Voice>)
    ensures
        voices_made(r@, m.music_data@, strings@, *old(divisions)),
        *final(divisions) == measure_voices_scan(m.music_data@, *old(divisions)).1,
{
    let d = &m.music_data;
    let mut cursor: i128 = 0;
    let mut div: u32 = *divisions;
    let mut names: Vec<String> = Vec::new();
    let mut lasts: Vec<i128> = Vec::new();
    let mut pending: Vec<(usize, i128, usize)> = Vec::new();
    let ghost init: VoiceScan = (0, div, Seq::empty(), Seq::empty(), Seq::empty());
    assert(scan_view(cursor, div, names@, lasts@, pending@) =~= init);
    let mut i: usize = 0;
    while i < d.len()
        invariant
            i <= d@.len(),
            init == (0int, *old(divisions), Seq::<Seq<char>>::empty(), Seq::<int>::empty(), Seq::<(int, int, int)>::empty()),
            scan_view(cursor, div, names@, lasts@, pending@) == voice_scan(init, d@, i as int),
            0 <= cursor <= i * 4294967295,
            names@.len() == lasts@.len(),
            forall|k: int| 0 <= k < lasts@.len() ==> 0 <= #[trigger] lasts@[k] <= i * 4294967295,
            forall|k: int|
                0 <= k < pending@.len() ==> (#[trigger] pending@[k]).0 < names@.len() && pending@[k].2 < i
                    && d@[pending@[k].2 as int] is Note,
        decreases d@.len() - i,
    {
        let ghost before = scan_view(cursor, div, names@, lasts@, pending@);
        match &d[i] {
            MusicData::Attributes(a) => {
                match a.divisions {
                    Some(x) => {
                        div = x;
                    },
                    None => {},
                }
            },
            MusicData::Backup(b) => {
                let back = b.duration as i128;
                cursor = if cursor - back < 0 {
                    0
                } else {
                    cursor - back
                };
            },
            MusicData::Forward(fw) => {
                cursor = cursor + fw.duration as i128;
            },
            MusicData::Note(n) => {
                if n.grace.is_none() {
                    let v: &str = match &n.voice {
                        Some(x) => x.as_str(),
                        None => "1",
                    };
                    let j = find_slot(&names, v);
                    let onset: i128 = if n.chord.is_some() && j < names.len() {
                        lasts[j]
                    } else {
                        cursor
                    };
                    if n.chord.is_none() {
                        let step: i128 = match n.duration {
                            Some(x) => x as i128,
                            None => 0,
                        };
                        cursor = cursor + step;
                    }
                    if j < names.len() {
                        lasts.set(j, onset);
                    } else {
                        names.push(String::from_str(v));
                        lasts.push(onset);
                    }
                    pending.push((j, onset, i));
                }
            },
            _ => {},
        }
        proof {
            let after = scan_view(cursor, div, names@, lasts@, pending@);
            assert(after =~= voice_step(before, d@[i as int], i as int));
        }
        i += 1;
    }
    *divisions = div;
    let ghost nv = names@.map_values(|x: String| x@);
    let ghost pv = pending@.map_values(|p: (usize, i128, usize)| (p.0 as int, p.1 as int, p.2 as int));
    if names.len() == 0 {
        let mut r: Vec<Voice> = Vec::new();
        r.push(Voice { beats: Vec::new() });
        return r;
    }
    let mut order: Vec<usize> = Vec::new();
    let mut j: usize = 0;
    while j < names.len()
        invariant
            nv == names@.map_values(|x: String| x@),
            j <= names@.len(),
            order@.map_values(|x: usize| x as int) == slot_order(nv, j as int),
            forall|k: int| 0 <= k < order@.len() ==> #[trigger] order@[k] < j,
            order@.len() == j,
        decreases names@.len() - j,
    {
        let ghost ov = order@.map_values(|x: usize| x as int);
        let mut p: usize = 0;
        let mut found = false;
        while p < order.len() && !found
            invariant
                nv == names@.map_values(|x: String| x@),
                j < names@.len(),
                ov == order@.map_values(|x: usize| x as int),
                forall|k: int| 0 <= k < order@.len() ==> #[trigger] order@[k] < j,
                p <= order@.len(),
                !found ==> insert_at(nv, ov, j as int, 0) == insert_at(nv, ov, j as int, p as int),
                found ==> insert_at(nv, ov, j as int, 0) == p && p < order@.len(),
            decreases order@.len() - p + (if found { 0int } else { 1int }),
        {
            let q = order[p];
            if str_lt(names[j].as_str(), names[q].as_str()) {
                found = true;
            } else {
                p += 1;
            }
        }
        assert(insert_at(nv, ov, j as int, 0) == p);
        assert(forall|k: int| 0 <= k < ov.len() ==> #[trigger] ov[k] < j);
        order.insert(p, j);
        proof {
            let ins = ov.insert(p as int, j as int);
            assert(order@.map_values(|x: usize| x as int) =~= ins);
            assert forall|k: int| 0 <= k < order@.len() implies #[trigger] order@[k] < j + 1 by {
                assert(order@[k] as int == order@.map_values(|x: usize| x as int)[k]);
                if k < p {
                    assert(ins[k] == ov[k]);
                } else if k > p {
                    assert(ins[k] == ov[k - 1]);
                }
            }
            assert(slot_order(nv, j + 1) == ov.insert(insert_at(nv, ov, j as int, 0), j as int));
        }
        j += 1;
    }
    let mut r: Vec<Voice> = Vec::new();
    let mut v: usize = 0;
    while v < order.len()
        invariant
            nv == names@.map_values(|x: String| x@),
            pv == pending@.map_values(|p: (usize, i128, usize)| (p.0 as int, p.1 as int, p.2 as int)),
            order@.map_values(|x: usize| x as int) == slot_order(nv, nv.len() as int),
            forall|k: int|
                0 <= k < pending@.len() ==> (#[trigger] pending@[k]).2 < d@.len() && d@[pending@[k].2 as int] is Note,
            v <= order@.len(),
            r@.len() == v,
            forall|w: int|
                0 <= w < v ==> {
                    let gs = groups_of(pv, order@[w] as int, pv.len() as int);
                    &&& (#[trigger] r@[w]).beats@.len() == gs.len()
                    &&& forall|b: int|
                        0 <= b < gs.len() ==> beat_built(#[trigger] r@[w].beats@[b], notes_at(d@, gs[b].1), strings@, div)
                },
        decreases order@.len() - v,
    {
        let beats = voice_beats(d, &pending, order[v], strings, div);
        r.push(Voice { beats });
        v += 1;
    }
    proof {
        let st = measure_voices_scan(d@, *old(divisions));
        assert(st == scan_view(cursor, div, names@, lasts@, pending@));
        assert forall|w: int| 0 <= w < r@.len() implies order@[w] as int == slot_order(st.2, st.2.len() as int)[w] by {
            assert(order@.map_values(|x: usize| x as int)[w] == order@[w] as int);
        }
    }
    r
}


// ---------------------------------------------------------------------------
// Tracks
// ---------------------------------------------------------------------------

/// The part with the score part's id, if there is one.
pub open spec fn part_of(src: ScorePartwise, sp: ScorePart) -> Option<Part> {
    let k = part_index(src.parts@, sp.id@, 0);
    if 0 <= k < src.parts@.len() {
        Some(src.parts@[k])
    } else {
        None
    }
}

/// A part is percussion when its first MIDI instrument is unpitched.
pub open spec fn part_percussion(sp: ScorePart) -> bool {
    sp.midi_instruments@.len() > 0 && sp.midi_instruments@[0].midi_unpitched is Some
}

/// A part name's text, or `default`.
pub open spec fn name_or(pn: Option<PartName>, default: Seq<char>) -> Seq<char> {
    match pn {
        Some(p) => match p.value {
            Some(v) => v@,
            None => default,
        },
        None => default,
    }
}

/// The divisions per quarter in force after the first `n` measures, 960
/// before any.
pub open spec fn divisions_before(ms: Seq<XmlMeasure>, n: int) -> u32
    decreases n,
{
    if n <= 0 {
        960
    } else {
        measure_voices_scan(ms[n - 1].music_data@, divisions_before(ms, n - 1)).1
    }
}

/// `r` is measure `mi` of a track whose part has the measures `ms`: read
/// from the part when it has that measure, else an empty measure.
pub open spec fn xml_measure_made(r: LMeasure, ms: Seq<XmlMeasure>, strings: Seq<(i8, i8)>, mi: int) -> bool {
    &&& r.header_index == mi
    &&& r.simile_mark is None
    &&& r.clef == MeasureClef::Treble
    &&& if mi < ms.len() {
        voices_made(r.voices@, ms[mi].music_data@, strings, divisions_before(ms, mi))
    } else {
        r.voices@.len() == 1 && r.voices@[0].beats@.len() == 0
    }
}

/// `r` is track `ti` of the document, for the part `sp`, padded to
/// `count` measures.
pub open spec fn xml_track_made(r: LTrack, src: ScorePartwise, sp: ScorePart, ti: int, count: int) -> bool {
    let part = part_of(src, sp);
    let ms = match part {
        Some(p) => p.measures@,
        None => Seq::empty(),
    };
    let strings = part_strings(part);
    &&& r.number == #[verifier::truncate] (ti as i32)
    &&& r.name@ == name_or(sp.part_name, "Track"@)
    &&& r.short_name@ == name_or(sp.part_abbreviation, ""@)
    &&& r.strings@ == strings
    &&& r.channel_index == if ti < 63 {
        ti
    } else {
        63
    }
    &&& r.percussion_track == part_percussion(sp)
    &&& !r.twelve_stringed_guitar_track && !r.banjo_track && !r.solo && !r.mute && r.visible
    &&& r.measures@.len() == if ms.len() < count {
        count
    } else {
        ms.len() as int
    }
    &&& forall|mi: int| 0 <= mi < r.measures@.len() ==> xml_measure_made(#[trigger] r.measures@[mi], ms, strings, mi)
}

fn find_part<'a>(src: &'a ScorePartwise, sp: &ScorePart) -> (r: Option<&'a Part>)
    ensures
        match part_of(*src, *sp) {
            Some(p) => r == Some(&p),
            None => r is None,
        },
{
    let mut i: usize = 0;
    while i < src.parts.len()
        invariant
            i <= src.parts@.len(),
            part_index(src.parts@, sp.id@, 0) == part_index(src.parts@, sp.id@, i as int),
        decreases src.parts@.len() - i,
    {
        if str_eq(src.parts[i].id.as_str(), sp.id.as_str()) {
            return Some(&src.parts[i]);
        }
        i += 1;
    }
    None
}

fn name_text(pn: &Option<PartName>, default: &str) -> (r: String)
    ensures
        r@ == name_or(*pn, default@),
{
    match pn {
        Some(p) => match &p.value {
            Some(v) => v.clone(),
            None => String::from_str(default),
        },
        None => String::from_str(default),
    }
}

fn build_track(src: &ScorePartwise, sp: &ScorePart, ti: usize, count: usize) -> (r: LTrack)
    ensures
        xml_track_made(r, *src, *sp, ti as int, count as int),
{
    let part = find_part(src, sp);
    let strings = extract_string_tunings(part);
    let ghost ms = match part_of(*src, *sp) {
        Some(p) => p.measures@,
        None => Seq::<XmlMeasure>::empty(),
    };
    let percussion = sp.midi_instruments.len() > 0 && sp.midi_instruments[0].midi_unpitched.is_some();
    let mut measures: Vec<LMeasure> = Vec::new();
    match part {
        Some(p) => {
            let mut divisions: u32 = 960;
            let mut mi: usize = 0;
            while mi < p.measures.len()
                invariant
                    ms == p.measures@,
                    strings@ == part_strings(part_of(*src, *sp)),
                    mi <= p.measures@.len(),
                    measures@.len() == mi,
                    divisions == divisions_before(ms, mi as int),
                    forall|k: int| 0 <= k < mi ==> xml_measure_made(#[trigger] measures@[k], ms, strings@, k),
                decreases p.measures@.len() - mi,
            {
                let voices = build_voices(&p.measures[mi], strings.as_slice(), &mut divisions);
                measures.push(LMeasure { header_index: mi, voices, simile_mark: None, clef: MeasureClef::Treble });
                mi += 1;
            }
        },
        None => {},
    }
    assert(measures@.len() == ms.len());
    while measures.len() < count
        invariant
            strings@ == part_strings(part_of(*src, *sp)),
            measures@.len() >= ms.len(),
            measures@.len() <= if ms.len() < count {
                count as int
            } else {
                ms.len() as int
            },
            forall|k: int| 0 <= k < measures@.len() ==> xml_measure_made(#[trigger] measures@[k], ms, strings@, k),
        decreases count - measures@.len(),
    {
        let mi = measures.len();
        let mut voices: Vec<Voice> = Vec::new();
        voices.push(Voice { beats: Vec::new() });
        measures.push(LMeasure { header_index: mi, voices, simile_mark: None, clef: MeasureClef::Treble });
    }
    let number: i32 = #[verifier::truncate] (ti as i32);
    LTrack {
        number,
        name: name_text(&sp.part_name, "Track"),
        short_name: name_text(&sp.part_abbreviation, ""),
        channel_index: if ti < 63 {
            ti
        } else {
            63
        },
        percussion_track: percussion,
        twelve_stringed_guitar_track: false,
        banjo_track: false,
        solo: false,
        mute: false,
        visible: true,
        strings,
        measures,
    }
}

/// The song's tracks: one per part of the part list, each padded to
/// `count` measures.
pub fn build_tracks(src: &ScorePartwise, count: usize) -> (r: Vec<LTrack>)
    ensures
        r@.len() == src.part_list.items@.len(),
        forall|t: int|
            0 <= t < r@.len() ==> xml_track_made(
                #[trigger] r@[t],
                *src,
                item_part(src.part_list.items@[t]),
                t,
                count as int,
            ),
{
    let mut r: Vec<LTrack> = Vec::new();
    let mut t: usize = 0;
    while t < src.part_list.items.len()
        invariant
            t <= src.part_list.items@.len(),
            r@.len() == t,
            forall|k: int|
                0 <= k < t ==> xml_track_made(#[trigger] r@[k], *src, item_part(src.part_list.items@[k]), k, count as int),
        decreases src.part_list.items@.len() - t,
    {
        let tr = match &src.part_list.items[t] {
            PartListItem::ScorePart(sp) => build_track(src, sp, t, count),
        };
        r.push(tr);
        t += 1;
    }
    r
}


// ---------------------------------------------------------------------------
// The song
// ---------------------------------------------------------------------------

/// The texts of `r` are those the document gives an empty song: the title,
/// and from the identification the last composer (as artist), arranger (as
/// author), lyricist (as words) and transcriber (as writer), the first
/// rights (as copyright), the last `subtitle`, `album`, `date` and
/// `instructions` fields, and the `notice-…` fields as the notice.
pub open spec fn texts_from(r: Song, src: ScorePartwise) -> bool {
    let e = Seq::<char>::empty();
    &&& r.name@ == title_after(src, e)
    &&& r.transcriber@.len() == 0
    &&& r.comments@.len() == 0
    &&& match src.identification {
        None => {
            &&& r.artist@ == e && r.author@ == e && r.words@ == e && r.writer@ == e
            &&& r.copyright@ == e && r.subtitle@ == e && r.album@ == e && r.date@ == e
            &&& r.instructions@ == e && r.notice@.len() == 0
        },
        Some(id) => {
            let cs = id.creators@;
            let n = cs.len() as int;
            let fs = match id.miscellaneous {
                Some(m) => m.fields@,
                None => Seq::empty(),
            };
            let k = fs.len() as int;
            &&& r.artist@ == or_keep(last_creator(cs, "composer"@, n), e)
            &&& r.author@ == or_keep(last_creator(cs, "arranger"@, n), e)
            &&& r.words@ == or_keep(last_creator(cs, "lyricist"@, n), e)
            &&& r.writer@ == or_keep(last_creator(cs, "transcriber"@, n), e)
            &&& r.copyright@ == if id.rights@.len() > 0 {
                id.rights@[0].value@
            } else {
                e
            }
            &&& r.subtitle@ == or_keep(last_field(fs, "subtitle"@, k), e)
            &&& r.album@ == or_keep(last_field(fs, "album"@, k), e)
            &&& r.date@ == or_keep(last_field(fs, "date"@, k), e)
            &&& r.instructions@ == or_keep(last_field(fs, "instructions"@, k), e)
            &&& r.notice@.map_values(|x: String| x@) == notices(fs, k)
        },
    }
}

/// `r` is the song of the document `src`: its texts; the defaults of an
/// empty song for what the document does not give; one channel per part;
/// the first measure's tempo, else 120; the headers of the first part's
/// measures; and one track per part, padded to the number of headers.
pub open spec fn xml_song_made(r: Song, src: ScorePartwise) -> bool {
    let count = first_measures(src).len() as int;
    &&& texts_from(r, src)
    &&& r.key == (LKeySignature { key: 0, is_minor: false })
    &&& r.version == (0u8, 0u8, 0u8)
    &&& r.tempo_name@ == "Moderate"@
    &&& !r.hide_tempo
    &&& r.triplet_feel == TripletFeel::Straight
    &&& r.lyrics.track_choice == 0
    &&& r.lyrics.lines@.len() == 0
    &&& r.channels@ == channels_of(src)
    &&& r.tempo == match global_tempo(src) {
        Some(t) => t,
        None => 120i16,
    }
    &&& r.measure_headers@.len() == count
    &&& forall|i: int| 0 <= i < count ==> xml_header_made(#[trigger] r.measure_headers@[i], first_measures(src), i)
    &&& r.tracks@.len() == src.part_list.items@.len()
    &&& forall|t: int|
        0 <= t < r.tracks@.len() ==> xml_track_made(
            #[trigger] r.tracks@[t],
            src,
            item_part(src.part_list.items@[t]),
            t,
            count,
        )
}

/// Convert a MusicXML `score-partwise` document into a Guitar Pro song.
pub fn musicxml_to_legacy_song(src: &ScorePartwise) -> (r: Song)
    requires
        denominators_ok(first_measures(*src)),
        first_measures(*src).len() <= 9_000_000_000_000,
    ensures
        xml_song_made(r, *src),
{
    let mut song = Song::default();
    let ghost d = song;
    build_metadata(&mut song, src);
    assert(metadata_read(d, song, *src));
    song.channels = build_channels(src);
    song.tempo = match extract_global_tempo(src) {
        Some(t) => t,
        None => song.tempo,
    };
    song.measure_headers = build_measure_headers(src);
    let count = song.measure_headers.len();
    song.tracks = build_tracks(src, count);
    proof {
        let e = Seq::<char>::empty();
        assert(d.name@ =~= e && d.artist@ =~= e && d.author@ =~= e && d.words@ =~= e && d.writer@ =~= e);
        assert(d.copyright@ =~= e && d.subtitle@ =~= e && d.album@ =~= e && d.date@ =~= e);
        assert(d.instructions@ =~= e);
        assert(d.notice@.map_values(|x: String| x@) =~= Seq::<Seq<char>>::empty());
        assert(song.notice@.map_values(|x: String| x@).len() == song.notice@.len());
        if src.identification is Some {
            assert(song.notice@.map_values(|x: String| x@) =~= d.notice@.map_values(|x: String| x@) + notices(
                match src.identification->0.miscellaneous {
                    Some(m) => m.fields@,
                    None => Seq::empty(),
                },
                match src.identification->0.miscellaneous {
                    Some(m) => m.fields@.len() as int,
                    None => 0,
                },
            ));
        }
        assert(texts_from(song, *src));
        assert(song.tempo == match global_tempo(*src) {
            Some(t) => t,
            None => 120i16,
        });
        assert(song.channels@ == channels_of(*src));
    }
    song
}

} // verus!
