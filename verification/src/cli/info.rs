//! The `info` command: note names of tunings, shortened titles, and the
//! rows of the timeline table.

use vstd::prelude::*;

use crate::analysis::chords::{sharp_name, PitchClass};
use crate::cli::repeats::{decode_volta_mask, volta_numbers};
use crate::model::legacy::{DirectionSign, KeySignature, Measure, MeasureHeader, Song, Track, Voice};
use crate::text::{decimal, prefixed_decimal, push_decimal, str_eq};

verus! {

/// Arguments of the `info` command.
#[derive(Debug)]
pub struct InfoArgs {
    /// Input score file.
    pub input: String,
    /// Print as JSON instead of text.
    pub json: bool,
}

/// The "Format:" line of the metadata table: the file format with its
/// version, e.g. "Guitar Pro 5 (GP5 v5.1.0)"; GPX and GP files are named by
/// their Guitar Pro generation alone.
pub open spec fn format_text(fmt: Seq<char>, v: (u8, u8, u8)) -> Seq<char> {
    if fmt == "GPX"@ {
        "Guitar Pro 6 (GPX)"@
    } else if fmt == "GP"@ {
        "Guitar Pro 7+ (GP)"@
    } else {
        "Guitar Pro "@ + decimal(v.0 as nat) + " ("@ + fmt + " v"@ + decimal(v.0 as nat) + "."@
            + decimal(v.1 as nat) + "."@ + decimal(v.2 as nat) + ")"@
    }
}

/// Label of the file format and version.
pub fn format_label(fmt: &str, version: (u8, u8, u8)) -> (r: String)
    ensures
        r@ == format_text(fmt@, version),
{
    proof {
        reveal_strlit("GPX");
        reveal_strlit("GP");
        reveal_strlit("Guitar Pro 6 (GPX)");
        reveal_strlit("Guitar Pro 7+ (GP)");
        reveal_strlit("Guitar Pro ");
        reveal_strlit(" (");
        reveal_strlit(" v");
        reveal_strlit(".");
        reveal_strlit(")");
    }
    if str_eq(fmt, "GPX") {
        return String::from_str("Guitar Pro 6 (GPX)");
    }
    if str_eq(fmt, "GP") {
        return String::from_str("Guitar Pro 7+ (GP)");
    }
    let mut s = String::from_str("Guitar Pro ");
    push_decimal(&mut s, version.0 as u64);
    s.append(" (");
    s.append(fmt);
    s.append(" v");
    push_decimal(&mut s, version.0 as u64);
    s.append(".");
    push_decimal(&mut s, version.1 as u64);
    s.append(".");
    push_decimal(&mut s, version.2 as u64);
    s.append(")");
    assert(s@ =~= format_text(fmt@, version));
    s
}

/// The "Type" column of a track.
pub open spec fn kind_text(t: Track) -> Seq<char> {
    if t.percussion_track {
        "Percussion"@
    } else if t.twelve_stringed_guitar_track {
        "12-string"@
    } else if t.banjo_track {
        "Banjo"@
    } else {
        "Stringed"@
    }
}

/// Kind of a track: percussion first, then 12-string guitar, then banjo,
/// else an ordinary stringed instrument.
pub fn track_kind(track: &Track) -> (r: &'static str)
    ensures
        r@ == kind_text(*track),
{
    proof {
        reveal_strlit("Percussion");
        reveal_strlit("12-string");
        reveal_strlit("Banjo");
        reveal_strlit("Stringed");
    }
    if track.percussion_track {
        "Percussion"
    } else if track.twelve_stringed_guitar_track {
        "12-string"
    } else if track.banjo_track {
        "Banjo"
    } else {
        "Stringed"
    }
}

/// The "Flags" column: "solo", "mute" and "hidden", those that apply,
/// joined by commas.
pub open spec fn flags_text(t: Track) -> Seq<char> {
    let words: Seq<Seq<char>> = (if t.solo { seq!["solo"@] } else { Seq::empty() }) + (if t.mute {
        seq!["mute"@]
    } else {
        Seq::empty()
    }) + (if !t.visible { seq!["hidden"@] } else { Seq::empty() });
    joined_words(words)
}

/// Words joined by commas.
pub open spec fn joined_words(ws: Seq<Seq<char>>) -> Seq<char>
    decreases ws.len(),
{
    if ws.len() == 0 {
        Seq::empty()
    } else if ws.len() == 1 {
        ws[0]
    } else {
        joined_words(ws.drop_last()) + ","@ + ws.last()
    }
}

/// Flags of a track: solo, muted, hidden.
pub fn track_flags(track: &Track) -> (r: String)
    ensures
        r@ == flags_text(*track),
{
    proof {
        reveal_strlit("solo");
        reveal_strlit("mute");
        reveal_strlit("hidden");
        reveal_strlit(",");
    }
    let ghost words: Seq<Seq<char>> = Seq::empty();
    let mut s = String::new();
    if track.solo {
        s.append("solo");
        proof {
            words = words.push("solo"@);
            assert(joined_words(words) =~= "solo"@);
        }
    }
    if track.mute {
        proof {
            assert(words.push("mute"@).drop_last() =~= words);
        }
        if s.unicode_len() > 0 {
            s.append(",");
        }
        s.append("mute");
        proof {
            words = words.push("mute"@);
            assert(s@ =~= joined_words(words));
        }
    }
    if !track.visible {
        proof {
            assert(words.push("hidden"@).drop_last() =~= words);
        }
        if s.unicode_len() > 0 {
            s.append(",");
        }
        s.append("hidden");
        proof {
            words = words.push("hidden"@);
            assert(s@ =~= joined_words(words));
        }
    }
    proof {
        let w: Seq<Seq<char>> = (if track.solo { seq!["solo"@] } else { Seq::empty() }) + (
        if track.mute {
            seq!["mute"@]
        } else {
            Seq::empty()
        }) + (if !track.visible { seq!["hidden"@] } else { Seq::empty() });
        assert(w =~= words);
    }
    s
}

/// Number of voices of a measure that hold at least one beat.
pub open spec fn filled_voices(vs: Seq<Voice>) -> nat
    decreases vs.len(),
{
    if vs.len() == 0 {
        0
    } else {
        filled_voices(vs.drop_last()) + if vs.last().beats@.len() > 0 {
            1nat
        } else {
            0nat
        }
    }
}

/// The most filled voices in any of the measures, 0 when there are none.
pub open spec fn most_filled_voices(ms: Seq<Measure>) -> nat
    decreases ms.len(),
{
    if ms.len() == 0 {
        0
    } else {
        let rest = most_filled_voices(ms.drop_last());
        let here = filled_voices(ms.last().voices@);
        if here > rest {
            here
        } else {
            rest
        }
    }
}

proof fn lemma_filled_voices_bound(vs: Seq<Voice>)
    ensures
        filled_voices(vs) <= vs.len(),
    decreases vs.len(),
{
    if vs.len() > 0 {
        lemma_filled_voices_bound(vs.drop_last());
    }
}

/// The "Voices" column: the most voices with beats in any measure of the
/// track.
pub fn max_voices(track: &Track) -> (r: usize)
    ensures
        r == most_filled_voices(track.measures@),
{
    let mut best: usize = 0;
    let mut i: usize = 0;
    while i < track.measures.len()
        invariant
            i <= track.measures@.len(),
            best == most_filled_voices(track.measures@.take(i as int)),
        decreases track.measures@.len() - i,
    {
        let vs = &track.measures[i].voices;
        let mut c: usize = 0;
        let mut j: usize = 0;
        while j < vs.len()
            invariant
                j <= vs@.len(),
                c == filled_voices(vs@.take(j as int)),
                c <= j,
            decreases vs@.len() - j,
        {
            assert(vs@.take(j + 1).drop_last() =~= vs@.take(j as int));
            if vs[j].beats.len() > 0 {
                c += 1;
            }
            j += 1;
        }
        assert(vs@.take(j as int) =~= vs@);
        assert(track.measures@.take(i + 1).drop_last() =~= track.measures@.take(i as int));
        if c > best {
            best = c;
        }
        i += 1;
    }
    assert(track.measures@.take(i as int) =~= track.measures@);
    best
}

/// The track's MIDI channel and program: those of the song channel it
/// names, channel 0 with program 25 when there is no such channel.
pub fn channel_of(song: &Song, track: &Track) -> (r: (u8, i32))
    ensures
        r == if track.channel_index < song.channels@.len() {
            (
                song.channels@[track.channel_index as int].channel,
                song.channels@[track.channel_index as int].instrument,
            )
        } else {
            (0u8, 25i32)
        },
{
    if track.channel_index < song.channels.len() {
        let c = &song.channels[track.channel_index];
        (c.channel, c.instrument)
    } else {
        (0, 25)
    }
}

/// Tonic of the major key with `k` sharps (flats when negative), `k` taken within -7..=7.
pub open spec fn major_tonic_text(k: int) -> Seq<char> {
    if k <= -7 {
        "Cb"@
    } else if k == -6 {
        "Gb"@
    } else if k == -5 {
        "Db"@
    } else if k == -4 {
        "Ab"@
    } else if k == -3 {
        "Eb"@
    } else if k == -2 {
        "Bb"@
    } else if k == -1 {
        "F"@
    } else if k == 0 {
        "C"@
    } else if k == 1 {
        "G"@
    } else if k == 2 {
        "D"@
    } else if k == 3 {
        "A"@
    } else if k == 4 {
        "E"@
    } else if k == 5 {
        "B"@
    } else if k == 6 {
        "F#"@
    } else {
        "C#"@
    }
}

/// Tonic of the minor key with `k` sharps (flats when negative), `k` taken within -7..=7.
pub open spec fn minor_tonic_text(k: int) -> Seq<char> {
    if k <= -7 {
        "Ab"@
    } else if k == -6 {
        "Eb"@
    } else if k == -5 {
        "Bb"@
    } else if k == -4 {
        "F"@
    } else if k == -3 {
        "C"@
    } else if k == -2 {
        "G"@
    } else if k == -1 {
        "D"@
    } else if k == 0 {
        "A"@
    } else if k == 1 {
        "E"@
    } else if k == 2 {
        "B"@
    } else if k == 3 {
        "F#"@
    } else if k == 4 {
        "C#"@
    } else if k == 5 {
        "G#"@
    } else if k == 6 {
        "D#"@
    } else {
        "A#"@
    }
}

fn major_tonic(k: i8) -> (r: &'static str)
    ensures
        r@ == major_tonic_text(k as int),
{
    proof {
        reveal_strlit("A");
        reveal_strlit("Ab");
        reveal_strlit("B");
        reveal_strlit("Bb");
        reveal_strlit("C");
        reveal_strlit("C#");
        reveal_strlit("Cb");
        reveal_strlit("D");
        reveal_strlit("Db");
        reveal_strlit("E");
        reveal_strlit("Eb");
        reveal_strlit("F");
        reveal_strlit("F#");
        reveal_strlit("G");
        reveal_strlit("Gb");
    }
    if k <= -7 {
        "Cb"
    } else if k == -6 {
        "Gb"
    } else if k == -5 {
        "Db"
    } else if k == -4 {
        "Ab"
    } else if k == -3 {
        "Eb"
    } else if k == -2 {
        "Bb"
    } else if k == -1 {
        "F"
    } else if k == 0 {
        "C"
    } else if k == 1 {
        "G"
    } else if k == 2 {
        "D"
    } else if k == 3 {
        "A"
    } else if k == 4 {
        "E"
    } else if k == 5 {
        "B"
    } else if k == 6 {
        "F#"
    } else {
        "C#"
    }
}

fn minor_tonic(k: i8) -> (r: &'static str)
    ensures
        r@ == minor_tonic_text(k as int),
{
    proof {
        reveal_strlit("A");
        reveal_strlit("A#");
        reveal_strlit("Ab");
        reveal_strlit("B");
        reveal_strlit("Bb");
        reveal_strlit("C");
        reveal_strlit("C#");
        reveal_strlit("D");
        reveal_strlit("D#");
        reveal_strlit("E");
        reveal_strlit("Eb");
        reveal_strlit("F");
        reveal_strlit("F#");
        reveal_strlit("G");
        reveal_strlit("G#");
    }
    if k <= -7 {
        "Ab"
    } else if k == -6 {
        "Eb"
    } else if k == -5 {
        "Bb"
    } else if k == -4 {
        "F"
    } else if k == -3 {
        "C"
    } else if k == -2 {
        "G"
    } else if k == -1 {
        "D"
    } else if k == 0 {
        "A"
    } else if k == 1 {
        "E"
    } else if k == 2 {
        "B"
    } else if k == 3 {
        "F#"
    } else if k == 4 {
        "C#"
    } else if k == 5 {
        "G#"
    } else if k == 6 {
        "D#"
    } else {
        "A#"
    }
}

/// Name of a key signature, e.g. "E minor" or "Bb major".
pub open spec fn key_text(ks: KeySignature) -> Seq<char> {
    if ks.is_minor {
        minor_tonic_text(ks.key as int) + " minor"@
    } else {
        major_tonic_text(ks.key as int) + " major"@
    }
}

/// Name of a key signature: its tonic, found from the number of sharps
/// (positive) or flats (negative) clamped to seven, and its mode.
pub fn key_name(ks: &KeySignature) -> (r: String)
    ensures
        r@ == key_text(*ks),
{
    proof {
        reveal_strlit(" minor");
        reveal_strlit(" major");
    }
    let mut s;
    if ks.is_minor {
        s = String::from_str(minor_tonic(ks.key));
        s.append(" minor");
    } else {
        s = String::from_str(major_tonic(ks.key));
        s.append(" major");
    }
    s
}

/// The octave number of the MIDI octave `q` (MIDI 0–11 is octave -1).
pub open spec fn octave_text(q: int) -> Seq<char> {
    if q == 0 {
        "-1"@
    } else {
        decimal((q - 1) as nat)
    }
}

/// Scientific name of a MIDI note, such as `E2` for 40; the byte is read
/// unsigned, so negative values name notes above 127.
pub fn midi_to_note(midi: i8) -> (r: String)
    ensures
        r@ == sharp_name(((midi as u8) % 12) as u8) + octave_text(((midi as u8) / 12) as int),
{
    let m: u8 = midi as u8;
    let mut s = String::from_str(PitchClass(m % 12).name_sharp());
    assert((m % 12) % 12 == m % 12);
    let q = m / 12;
    if q == 0 {
        proof {
            reveal_strlit("-1");
        }
        s.append("-1");
    } else {
        push_decimal(&mut s, (q - 1) as u64);
    }
    s
}

/// Bytes of a character in UTF-8.
pub open spec fn utf8_len(c: char) -> int {
    if (c as u32) < 0x80 {
        1
    } else if (c as u32) < 0x800 {
        2
    } else if (c as u32) < 0x10000 {
        3
    } else {
        4
    }
}

/// Bytes of the first `k` characters of `s` in UTF-8.
pub open spec fn prefix_bytes(s: Seq<char>, k: int) -> int
    decreases k,
{
    if k <= 0 {
        0
    } else {
        prefix_bytes(s, k - 1) + utf8_len(s[k - 1])
    }
}

/// How many characters of `s`, from the `k`-th on, fit in `max` bytes.
pub open spec fn fitting_chars(s: Seq<char>, max: int, k: int) -> int
    decreases s.len() - k,
{
    if 0 <= k < s.len() && prefix_bytes(s, k + 1) <= max {
        fitting_chars(s, max, k + 1)
    } else {
        k
    }
}

fn char_utf8_len(c: char) -> (r: usize)
    ensures
        r == utf8_len(c),
{
    if (c as u32) < 0x80 {
        1
    } else if (c as u32) < 0x800 {
        2
    } else if (c as u32) < 0x10000 {
        3
    } else {
        4
    }
}

/// The longest prefix of `s` that fits in `max` bytes of UTF-8 without
/// splitting a character.
pub fn truncate(s: &str, max: usize) -> (r: &str)
    ensures
        r@ == s@.take(fitting_chars(s@, max as int, 0)),
{
    let n = s.unicode_len();
    let mut k: usize = 0;
    let mut bytes: usize = 0;
    while k < n
        invariant
            n == s@.len(),
            k <= n,
            bytes == prefix_bytes(s@, k as int),
            bytes <= max,
            fitting_chars(s@, max as int, k as int) == fitting_chars(s@, max as int, 0),
        decreases n - k,
    {
        let w = char_utf8_len(s.get_char(k));
        if w > max - bytes {
            assert(fitting_chars(s@, max as int, k as int) == k);
            return s.substring_char(0, k);
        }
        bytes = bytes + w;
        k += 1;
    }
    assert(s@.take(n as int) =~= s@);
    s
}

// ---------------------------------------------------------------------------
// Timeline
// ---------------------------------------------------------------------------

/// Text of a navigation sign in the timeline.
pub open spec fn sign_text(d: DirectionSign) -> Seq<char> {
    match d {
        DirectionSign::Coda => "Coda"@,
        DirectionSign::DoubleCoda => "Double Coda"@,
        DirectionSign::Segno => "Segno"@,
        DirectionSign::SegnoSegno => "Segno Segno"@,
        DirectionSign::Fine => "Fine"@,
        DirectionSign::DaCapo => "D.C."@,
        DirectionSign::DaCapoAlCoda => "D.C. al Coda"@,
        DirectionSign::DaCapoAlDoubleCoda => "D.C. al Double Coda"@,
        DirectionSign::DaCapoAlFine => "D.C. al Fine"@,
        DirectionSign::DaSegno => "D.S."@,
        DirectionSign::DaSegnoAlCoda => "D.S. al Coda"@,
        DirectionSign::DaSegnoAlDoubleCoda => "D.S. al Double Coda"@,
        DirectionSign::DaSegnoAlFine => "D.S. al Fine"@,
        DirectionSign::DaSegnoSegno => "D.S.S."@,
        DirectionSign::DaSegnoSegnoAlCoda => "D.S.S. al Coda"@,
        DirectionSign::DaSegnoSegnoAlDoubleCoda => "D.S.S. al Double Coda"@,
        DirectionSign::DaSegnoSegnoAlFine => "D.S.S. al Fine"@,
        DirectionSign::DaCoda => "Da Coda"@,
        DirectionSign::DaDoubleCoda => "Da Double Coda"@,
    }
}

/// The timeline's text of a navigation sign.
pub fn direction_label(d: &DirectionSign) -> (r: &'static str)
    ensures
        r@ == sign_text(*d),
{
    match d {
        DirectionSign::Coda => "Coda",
        DirectionSign::DoubleCoda => "Double Coda",
        DirectionSign::Segno => "Segno",
        DirectionSign::SegnoSegno => "Segno Segno",
        DirectionSign::Fine => "Fine",
        DirectionSign::DaCapo => "D.C.",
        DirectionSign::DaCapoAlCoda => "D.C. al Coda",
        DirectionSign::DaCapoAlDoubleCoda => "D.C. al Double Coda",
        DirectionSign::DaCapoAlFine => "D.C. al Fine",
        DirectionSign::DaSegno => "D.S.",
        DirectionSign::DaSegnoAlCoda => "D.S. al Coda",
        DirectionSign::DaSegnoAlDoubleCoda => "D.S. al Double Coda",
        DirectionSign::DaSegnoAlFine => "D.S. al Fine",
        DirectionSign::DaSegnoSegno => "D.S.S.",
        DirectionSign::DaSegnoSegnoAlCoda => "D.S.S. al Coda",
        DirectionSign::DaSegnoSegnoAlDoubleCoda => "D.S.S. al Double Coda",
        DirectionSign::DaSegnoSegnoAlFine => "D.S.S. al Fine",
        DirectionSign::DaCoda => "Da Coda",
        DirectionSign::DaDoubleCoda => "Da Double Coda",
    }
}

/// Numbers in decimal, joined by commas.
pub open spec fn joined_numbers(ns: Seq<u8>) -> Seq<char>
    decreases ns.len(),
{
    if ns.len() == 0 {
        Seq::empty()
    } else if ns.len() == 1 {
        decimal(ns[0] as nat)
    } else {
        joined_numbers(ns.drop_last()) + ","@ + decimal(ns.last() as nat)
    }
}

/// The navigation column of a bar: `|:` for an opening repeat, `:|xN` for
/// a closing one played N times, `[1,2.]` for its volta endings, and its
/// sign.
pub open spec fn nav_texts(h: MeasureHeader) -> Seq<Seq<char>> {
    (if h.repeat_open {
        seq!["|:"@]
    } else {
        Seq::empty()
    }) + (if h.repeat_close >= 0 {
        seq![":|x"@ + decimal((h.repeat_close + 1) as nat)]
    } else {
        Seq::empty()
    }) + (if h.repeat_alternative != 0 {
        seq!["["@ + joined_numbers(volta_numbers(h.repeat_alternative, 8)) + ".]"@]
    } else {
        Seq::empty()
    }) + match h.direction {
        Some(d) => seq![sign_text(d)],
        None => Seq::empty(),
    }
}

/// A bar's time signature as (numerator, denominator).
pub open spec fn time_of(h: MeasureHeader) -> (i8, u16) {
    (h.time_signature.numerator, h.time_signature.denominator.value)
}

/// A bar's tempo: the song's on a first bar that sets none.
pub open spec fn tempo_of(h: MeasureHeader, song_tempo: i16) -> int {
    if h.tempo == 0 && h.number == 1 {
        song_tempo as int
    } else {
        h.tempo as int
    }
}

/// The time signature, tempo and key text last shown, after the first `n`
/// bars (nothing shown yet: 0/0, 0 and the empty text).
pub open spec fn shown_state(hs: Seq<MeasureHeader>, song_tempo: i16, keys: Seq<Seq<char>>, n: int) -> (
    (i8, u16),
    int,
    Seq<char>,
)
    decreases n,
{
    if n <= 0 {
        ((0i8, 0u16), 0, Seq::empty())
    } else {
        let (t, tp, k) = shown_state(hs, song_tempo, keys, n - 1);
        let h = hs[n - 1];
        let first = h.number == 1;
        let eff = tempo_of(h, song_tempo);
        (
            if first || time_of(h) != t {
                time_of(h)
            } else {
                t
            },
            if first || (eff != 0 && eff != tp) {
                eff
            } else {
                tp
            },
            if first || keys[n - 1] != k {
                keys[n - 1]
            } else {
                k
            },
        )
    }
}

/// A timeline row as (bar number, time shown, tempo shown, key shown,
/// marker, navigation).
pub type RowView = (u16, Option<(i8, u16)>, Option<int>, Option<Seq<char>>, Seq<char>, Seq<Seq<char>>);

/// The row of bar `i`: a bar is listed when it is the first bar, changes
/// the time signature, the tempo (to one that is not 0) or the key text,
/// or has a marker or navigation; a column shows its value on the first
/// bar and where it changes.
pub open spec fn row_at(hs: Seq<MeasureHeader>, song_tempo: i16, keys: Seq<Seq<char>>, i: int) -> Option<RowView> {
    let (t, tp, k) = shown_state(hs, song_tempo, keys, i);
    let h = hs[i];
    let first = h.number == 1;
    let time_changed = time_of(h) != t;
    let eff = tempo_of(h, song_tempo);
    let tempo_changed = eff != 0 && eff != tp;
    let key_changed = keys[i] != k;
    let has_nav = h.repeat_open || h.repeat_close >= 0 || h.repeat_alternative != 0 || h.direction is Some;
    if first || time_changed || tempo_changed || key_changed || h.marker is Some || has_nav {
        Some(
            (
                h.number,
                if first || time_changed {
                    Some(time_of(h))
                } else {
                    None
                },
                if first || tempo_changed {
                    Some(eff)
                } else {
                    None
                },
                if first || key_changed {
                    Some(keys[i])
                } else {
                    None
                },
                match h.marker {
                    Some(m) => m.title@,
                    None => Seq::empty(),
                },
                nav_texts(h),
            ),
        )
    } else {
        None
    }
}

/// The rows of the first `n` bars.
pub open spec fn rows_upto(hs: Seq<MeasureHeader>, song_tempo: i16, keys: Seq<Seq<char>>, n: int) -> Seq<RowView>
    decreases n,
{
    if n <= 0 {
        Seq::empty()
    } else {
        let prev = rows_upto(hs, song_tempo, keys, n - 1);
        match row_at(hs, song_tempo, keys, n - 1) {
            Some(r) => prev.push(r),
            None => prev,
        }
    }
}

/// A row of the timeline table; `None` columns are left blank.
#[derive(Debug)]
pub struct TimelineRow {
    pub number: u16,
    pub time: Option<(i8, u16)>,
    pub tempo: Option<i32>,
    pub key: Option<String>,
    pub marker: String,
    pub navigation: Vec<String>,
}

/// The view of a row.
pub open spec fn row_view(r: TimelineRow) -> RowView {
    (
        r.number,
        r.time,
        match r.tempo {
            Some(t) => Some(t as int),
            None => None,
        },
        match r.key {
            Some(k) => Some(k@),
            None => None,
        },
        r.marker@,
        r.navigation@.map_values(|s: String| s@),
    )
}

/// The volta numbers in decimal, joined by commas.
fn join_numbers(ns: &Vec<u8>) -> (r: String)
    ensures
        r@ == joined_numbers(ns@),
{
    proof {
        reveal_strlit(",");
    }
    let mut out = String::new();
    let mut i: usize = 0;
    while i < ns.len()
        invariant
            i <= ns@.len(),
            out@ == joined_numbers(ns@.subrange(0, i as int)),
        decreases ns@.len() - i,
    {
        let ghost before = out@;
        if i > 0 {
            out.append(",");
        }
        push_decimal(&mut out, ns[i] as u64);
        proof {
            let next = ns@.subrange(0, i + 1);
            assert(next.drop_last() =~= ns@.subrange(0, i as int));
            if i > 0 {
                assert(out@ =~= before + ","@ + decimal(ns@[i as int] as nat));
            } else {
                assert(out@ =~= decimal(ns@[0] as nat));
            }
        }
        i += 1;
    }
    assert(ns@.subrange(0, ns@.len() as int) =~= ns@);
    out
}

/// The navigation column of a bar.
fn navigation(h: &MeasureHeader) -> (r: Vec<String>)
    requires
        h.repeat_close < 127,
    ensures
        r@.map_values(|s: String| s@) == nav_texts(*h),
{
    proof {
        reveal_strlit("|:");
        reveal_strlit("[");
        reveal_strlit(".]");
    }
    let mut nav: Vec<String> = Vec::new();
    let ghost v0 = nav@.map_values(|s: String| s@);
    if h.repeat_open {
        nav.push(String::from_str("|:"));
    }
    let ghost v1 = nav@.map_values(|s: String| s@);
    if h.repeat_close >= 0 {
        nav.push(prefixed_decimal(":|x", (h.repeat_close + 1) as u64));
    }
    let ghost v2 = nav@.map_values(|s: String| s@);
    if h.repeat_alternative != 0 {
        let endings = decode_volta_mask(h.repeat_alternative);
        let mut text = String::from_str("[");
        let labels = join_numbers(&endings);
        text.append(labels.as_str());
        text.append(".]");
        nav.push(text);
    }
    let ghost v3 = nav@.map_values(|s: String| s@);
    match &h.direction {
        Some(d) => {
            nav.push(String::from_str(direction_label(d)));
        },
        None => {},
    }
    proof {
        let n = nav_texts(*h);
        assert(nav@.map_values(|s: String| s@) =~= n);
    }
    nav
}

/// The rows of the timeline table of bars with `headers`, at song tempo
/// `song_tempo`, each bar's key named by `keys`.
pub fn timeline_rows(headers: &[MeasureHeader], song_tempo: i16, keys: &[String]) -> (r: Vec<TimelineRow>)
    requires
        keys@.len() == headers@.len(),
        forall|i: int| 0 <= i < headers@.len() ==> (#[trigger] headers@[i]).repeat_close < 127,
    ensures
        r@.map_values(|x: TimelineRow| row_view(x)) == rows_upto(
            headers@,
            song_tempo,
            keys@.map_values(|s: String| s@),
            headers@.len() as int,
        ),
{
    let ghost ks = keys@.map_values(|s: String| s@);
    let mut rows: Vec<TimelineRow> = Vec::new();
    let mut prev_time: (i8, u16) = (0, 0);
    let mut prev_tempo: i32 = 0;
    let mut prev_key = String::new();
    let n = headers.len();
    let mut i: usize = 0;
    while i < n
        invariant
            n == headers@.len(),
            keys@.len() == n,
            ks == keys@.map_values(|s: String| s@),
            forall|j: int| 0 <= j < headers@.len() ==> (#[trigger] headers@[j]).repeat_close < 127,
            i <= n,
            shown_state(headers@, song_tempo, ks, i as int) == (prev_time, prev_tempo as int, prev_key@),
            rows@.map_values(|x: TimelineRow| row_view(x)) == rows_upto(headers@, song_tempo, ks, i as int),
        decreases n - i,
    {
        let h = &headers[i];
        let is_first = h.number == 1;
        let time = (h.time_signature.numerator, h.time_signature.denominator.value);
        let time_changed = time.0 != prev_time.0 || time.1 != prev_time.1;
        let effective_tempo: i32 = if h.tempo == 0 && is_first {
            song_tempo as i32
        } else {
            h.tempo
        };
        let tempo_changed = effective_tempo != 0 && effective_tempo != prev_tempo;
        let key = keys[i].as_str();
        let key_changed = !str_eq(key, prev_key.as_str());
        let has_marker = h.marker.is_some();
        let has_nav = h.repeat_open || h.repeat_close >= 0 || h.repeat_alternative != 0 || h.direction.is_some();
        let ghost before = rows@.map_values(|x: TimelineRow| row_view(x));
        proof {
            assert(ks[i as int] == keys@[i as int]@);
        }
        if is_first || time_changed || tempo_changed || key_changed || has_marker || has_nav {
            let marker = match &h.marker {
                Some(m) => m.title.clone(),
                None => String::new(),
            };
            let row = TimelineRow {
                number: h.number,
                time: if is_first || time_changed {
                    Some(time)
                } else {
                    None
                },
                tempo: if is_first || tempo_changed {
                    Some(effective_tempo)
                } else {
                    None
                },
                key: if is_first || key_changed {
                    Some(String::from_str(key))
                } else {
                    None
                },
                marker,
                navigation: navigation(h),
            };
            rows.push(row);
            proof {
                assert(rows@.map_values(|x: TimelineRow| row_view(x)) =~= before.push(row_view(row)));
            }
        }
        if is_first || time_changed {
            prev_time = time;
        }
        if is_first || tempo_changed {
            prev_tempo = effective_tempo;
        }
        if is_first || key_changed {
            prev_key = String::from_str(key);
        }
        i += 1;
    }
    rows
}

/// The navigation of a bar as the JSON timeline names it: `repeat_open`,
/// `repeat_close:N` for a closing repeat played N times, `volta:1,2` for
/// its endings, and its sign.
pub open spec fn json_nav_texts(h: MeasureHeader) -> Seq<Seq<char>> {
    (if h.repeat_open {
        seq!["repeat_open"@]
    } else {
        Seq::empty()
    }) + (if h.repeat_close >= 0 {
        seq!["repeat_close:"@ + decimal((h.repeat_close + 1) as nat)]
    } else {
        Seq::empty()
    }) + (if h.repeat_alternative != 0 {
        seq!["volta:"@ + joined_numbers(volta_numbers(h.repeat_alternative, 8))]
    } else {
        Seq::empty()
    }) + match h.direction {
        Some(d) => seq![sign_text(d)],
        None => Seq::empty(),
    }
}

/// A bar of the JSON timeline: its number, time signature, the tempo and
/// key in force (as last shown), marker and navigation.
#[derive(Debug)]
pub struct TimelineEntry {
    pub number: u16,
    pub time: (i8, u16),
    pub tempo: i32,
    pub key: String,
    pub marker: Option<String>,
    pub navigation: Vec<String>,
}

/// `e` is the JSON timeline entry of bar `i`.
pub open spec fn entry_ok(e: TimelineEntry, hs: Seq<MeasureHeader>, song_tempo: i16, keys: Seq<Seq<char>>, i: int) -> bool {
    let h = hs[i];
    let (_, tempo, key) = shown_state(hs, song_tempo, keys, i + 1);
    &&& e.number == h.number
    &&& e.time == time_of(h)
    &&& e.tempo == tempo
    &&& e.key@ == key
    &&& match h.marker {
        Some(m) => e.marker is Some && e.marker->0@ == m.title@,
        None => e.marker is None,
    }
    &&& e.navigation@.map_values(|s: String| s@) == json_nav_texts(h)
}

/// The JSON navigation of a bar.
fn json_navigation(h: &MeasureHeader) -> (r: Vec<String>)
    requires
        h.repeat_close < 127,
    ensures
        r@.map_values(|s: String| s@) == json_nav_texts(*h),
{
    proof {
        reveal_strlit("repeat_open");
    }
    let mut nav: Vec<String> = Vec::new();
    if h.repeat_open {
        nav.push(String::from_str("repeat_open"));
    }
    if h.repeat_close >= 0 {
        nav.push(prefixed_decimal("repeat_close:", (h.repeat_close + 1) as u64));
    }
    if h.repeat_alternative != 0 {
        let endings = decode_volta_mask(h.repeat_alternative);
        let mut text = String::from_str("volta:");
        let labels = join_numbers(&endings);
        text.append(labels.as_str());
        nav.push(text);
    }
    match &h.direction {
        Some(d) => {
            nav.push(String::from_str(direction_label(d)));
        },
        None => {},
    }
    assert(nav@.map_values(|s: String| s@) =~= json_nav_texts(*h));
    nav
}

/// Every bar of the timeline with the tempo and key in force.
pub fn timeline_entries(headers: &[MeasureHeader], song_tempo: i16, keys: &[String]) -> (r: Vec<TimelineEntry>)
    requires
        keys@.len() == headers@.len(),
        forall|i: int| 0 <= i < headers@.len() ==> (#[trigger] headers@[i]).repeat_close < 127,
    ensures
        r@.len() == headers@.len(),
        forall|i: int| 0 <= i < r@.len() ==> entry_ok(
            #[trigger] r@[i],
            headers@,
            song_tempo,
            keys@.map_values(|s: String| s@),
            i,
        ),
{
    let ghost ks = keys@.map_values(|s: String| s@);
    let mut out: Vec<TimelineEntry> = Vec::new();
    let mut prev_time: (i8, u16) = (0, 0);
    let mut prev_tempo: i32 = 0;
    let mut prev_key = String::new();
    let n = headers.len();
    let mut i: usize = 0;
    while i < n
        invariant
            n == headers@.len(),
            keys@.len() == n,
            ks == keys@.map_values(|s: String| s@),
            forall|j: int| 0 <= j < headers@.len() ==> (#[trigger] headers@[j]).repeat_close < 127,
            i <= n,
            shown_state(headers@, song_tempo, ks, i as int) == (prev_time, prev_tempo as int, prev_key@),
            out@.len() == i,
            forall|j: int| 0 <= j < i ==> entry_ok(#[trigger] out@[j], headers@, song_tempo, ks, j),
        decreases n - i,
    {
        let h = &headers[i];
        let is_first = h.number == 1;
        let time = (h.time_signature.numerator, h.time_signature.denominator.value);
        let time_changed = time.0 != prev_time.0 || time.1 != prev_time.1;
        let effective_tempo: i32 = if h.tempo == 0 && is_first {
            song_tempo as i32
        } else {
            h.tempo
        };
        let tempo_changed = effective_tempo != 0 && effective_tempo != prev_tempo;
        let key = keys[i].as_str();
        let key_changed = !str_eq(key, prev_key.as_str());
        proof {
            assert(ks[i as int] == keys@[i as int]@);
        }
        if is_first || time_changed {
            prev_time = time;
        }
        if is_first || tempo_changed {
            prev_tempo = effective_tempo;
        }
        if is_first || key_changed {
            prev_key = String::from_str(key);
        }
        let marker = match &h.marker {
            Some(m) => Some(m.title.clone()),
            None => None,
        };
        out.push(
            TimelineEntry {
                number: h.number,
                time,
                tempo: prev_tempo,
                key: prev_key.clone(),
                marker,
                navigation: json_navigation(h),
            },
        );
        i += 1;
    }
    out
}

/// The text and JSON timelines agree: where the row of a bar shows a time
/// signature, tempo or key, that is the one in force at the bar in the
/// JSON timeline.
pub proof fn lemma_rows_agree_with_entries(hs: Seq<MeasureHeader>, song_tempo: i16, keys: Seq<Seq<char>>, i: int)
    requires
        0 <= i < hs.len(),
        keys.len() == hs.len(),
        row_at(hs, song_tempo, keys, i) is Some,
    ensures
        ({
            let row = row_at(hs, song_tempo, keys, i)->0;
            let (time, tempo, key) = shown_state(hs, song_tempo, keys, i + 1);
            &&& (row.1 matches Some(t) ==> t == time)
            &&& (row.2 matches Some(t) ==> t == tempo)
            &&& (row.3 matches Some(k) ==> k == key)
        }),
{
}

} // verus!
