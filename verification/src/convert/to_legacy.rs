//! Conversion of an optimized score back into a legacy song: the metadata
//! and what the miscellaneous fields carry, the measure headers from the
//! timeline, the MIDI channels, and the tracks with their measures, voices,
//! beats and notes.
//!
//! The score here holds no instruments, so every track gets channel 0, no
//! strings, and is not a percussion track, and the channels are the 64
//! default ones.

use vstd::prelude::*;

use crate::convert::legacy::{
    beam_groups, compute_measure_starts, default_beams, duration_to_legacy, dynamic_to_velocity, legacy_duration,
    legacy_key, measure_starts_upto, opt_key_to_legacy_key, pitch_midi, pitch_to_midi, velocity_of,
};
use crate::convert::optimized::song::{
    articulations_of, bend_point, note_core_of, note_made, plain_technique, slide_technique, slide_techniques,
    techniques_of, direction_entries, loaded_made, misc_of, misc_view, non_empty_text, notice_entries, opt_text,
    bool_text, lyric_entries, lyric_line_entries, lyric_lines_entries, song_fields, text_entry, track_entries,
    def_of, header_key, header_tempo, header_time, triplet_code, version_text,
};
use crate::model::legacy::{
    Beat as LBeat, BeatStatus, BendEffect, BendPoint, DirectionSign, Duration as LDuration, HarmonicType,
    KeySignature as LKeySignature, Measure as LMeasure, MeasureClef, MeasureHeader, MidiChannel, Note as LNote,
    Lyrics, NoteEffect, NoteType, SlideType, Song, TimeSignature as LTimeSig, Track as LTrack, TripletFeel,
    Voice as LVoice,
};
use crate::model::{
    Articulation, Beat, GpBendEffect, GpBendPoint, Instrument, InstrumentKind, LoadedScore, MeasureData, MeasureDef, Note, Notehead,
    Technique, TechniqueKind, TechniqueParams, TieType, Track, Voice,
};
use crate::text::{
    all_digits, decimal, digits_value, is_digit, lemma_decimal_reads_back, parse_usize, push_decimal, str_eq,
    unsigned_value,
};

verus! {

// ---------------------------------------------------------------------------
// Miscellaneous fields
// ---------------------------------------------------------------------------

/// The value of the first field named `k`.
pub open spec fn first_value(m: Seq<(Seq<char>, Seq<char>)>, k: Seq<char>) -> Option<Seq<char>>
    decreases m.len(),
{
    if m.len() == 0 {
        None
    } else if m[0].0 == k {
        Some(m[0].1)
    } else {
        first_value(m.drop_first(), k)
    }
}

/// The miscellaneous fields of a score, none without identification.
pub open spec fn score_misc(s: LoadedScore) -> Seq<(Seq<char>, Seq<char>)> {
    match s.score.metadata.identification {
        Some(id) => misc_view(id.miscellaneous@),
        None => Seq::empty(),
    }
}

/// A found text, or the empty text.
pub open spec fn or_empty(o: Option<Seq<char>>) -> Seq<char> {
    match o {
        Some(v) => v,
        None => Seq::empty(),
    }
}

/// The value of the first field named `key`.
fn misc_get(misc: &[(String, String)], key: &str) -> (r: Option<String>)
    ensures
        opt_text(r) == first_value(misc_view(misc@), key@),
{
    let mut i: usize = 0;
    assert(misc_view(misc@).skip(0) =~= misc_view(misc@));
    while i < misc.len()
        invariant
            i <= misc@.len(),
            first_value(misc_view(misc@), key@) == first_value(misc_view(misc@).skip(i as int), key@),
        decreases misc@.len() - i,
    {
        let ghost rest = misc_view(misc@).skip(i as int);
        assert(rest.drop_first() =~= misc_view(misc@).skip(i + 1));
        if str_eq(misc[i].0.as_str(), key) {
            return Some(misc[i].1.clone());
        }
        i += 1;
    }
    assert(misc_view(misc@).skip(i as int) =~= Seq::<(Seq<char>, Seq<char>)>::empty());
    None
}

fn text_or_empty(o: Option<String>) -> (r: String)
    ensures
        r@ == or_empty(opt_text(o)),
{
    match o {
        Some(v) => v,
        None => String::new(),
    }
}

/// The bool a text spells, as `bool::from_str` reads it.
pub open spec fn bool_named(t: Seq<char>) -> Option<bool> {
    if t == "true"@ {
        Some(true)
    } else if t == "false"@ {
        Some(false)
    } else {
        None
    }
}

/// A field's bool, or `default` when it is absent or not a bool.
pub open spec fn bool_field(m: Seq<(Seq<char>, Seq<char>)>, k: Seq<char>, default: bool) -> bool {
    match first_value(m, k) {
        Some(v) => match bool_named(v) {
            Some(b) => b,
            None => default,
        },
        None => default,
    }
}

fn misc_bool(misc: &[(String, String)], key: &str, default: bool) -> (r: bool)
    ensures
        r == bool_field(misc_view(misc@), key@, default),
{
    proof {
        reveal_strlit("true");
        reveal_strlit("false");
    }
    match misc_get(misc, key) {
        Some(v) => {
            if str_eq(v.as_str(), "true") {
                true
            } else if str_eq(v.as_str(), "false") {
                false
            } else {
                default
            }
        },
        None => default,
    }
}

// ---------------------------------------------------------------------------
// Version and notice
// ---------------------------------------------------------------------------

/// The version a text spells: exactly three `.`-separated bytes.
pub open spec fn version_named(t: Seq<char>) -> Option<(u8, u8, u8)> {
    if exists|i: int, j: int|
        0 <= i < j < t.len() && t[i] == '.' && t[j] == '.' && version_parts(t, i, j) is Some {
        let (i, j) = choose|i: int, j: int|
            0 <= i < j < t.len() && t[i] == '.' && t[j] == '.' && version_parts(t, i, j) is Some;
        version_parts(t, i, j)
    } else {
        None
    }
}

/// The version whose parts end at the dots `i` and `j`, when the text has no
/// other dot and every part is a byte.
pub open spec fn version_parts(t: Seq<char>, i: int, j: int) -> Option<(u8, u8, u8)> {
    let a = unsigned_value(t.subrange(0, i));
    let b = unsigned_value(t.subrange(i + 1, j));
    let c = unsigned_value(t.subrange(j + 1, t.len() as int));
    if (forall|k: int| 0 <= k < t.len() && k != i && k != j ==> #[trigger] t[k] != '.') && a is Some
        && a->0 <= 255 && b is Some && b->0 <= 255 && c is Some && c->0 <= 255 {
        Some((a->0 as u8, b->0 as u8, c->0 as u8))
    } else {
        None
    }
}

/// The index a notice field's name carries: `gp.notice.` then an index.
pub open spec fn notice_index(k: Seq<char>) -> Option<nat> {
    if k.len() >= 10 && k.subrange(0, 10) == "gp.notice."@ {
        match unsigned_value(k.skip(10)) {
            Some(v) => if v <= usize::MAX {
                Some(v)
            } else {
                None
            },
            None => None,
        }
    } else {
        None
    }
}

/// The notice fields among the first `n`, as (index, line), in order.
pub open spec fn notice_items(m: Seq<(Seq<char>, Seq<char>)>, n: int) -> Seq<(nat, Seq<char>)>
    decreases n,
{
    if n <= 0 {
        Seq::empty()
    } else {
        match notice_index(m[n - 1].0) {
            Some(i) => notice_items(m, n - 1).push((i, m[n - 1].1)),
            None => notice_items(m, n - 1),
        }
    }
}

/// `x` inserted into `s` after every item whose index is not greater.
pub open spec fn insert_item(s: Seq<(nat, Seq<char>)>, x: (nat, Seq<char>)) -> Seq<(nat, Seq<char>)>
    decreases s.len(),
{
    if s.len() == 0 {
        seq![x]
    } else if x.0 < s.last().0 {
        insert_item(s.drop_last(), x).push(s.last())
    } else {
        s.push(x)
    }
}

/// The items sorted by index, items of equal index kept in order.
pub open spec fn sorted_items(xs: Seq<(nat, Seq<char>)>) -> Seq<(nat, Seq<char>)>
    decreases xs.len(),
{
    if xs.len() == 0 {
        Seq::empty()
    } else {
        insert_item(sorted_items(xs.drop_last()), xs.last())
    }
}

/// The notice lines carried by the fields, by index.
pub open spec fn notice_of(m: Seq<(Seq<char>, Seq<char>)>) -> Seq<Seq<char>> {
    sorted_items(notice_items(m, m.len() as int)).map_values(|e: (nat, Seq<char>)| e.1)
}

pub open spec fn items_view(v: Seq<(usize, String)>) -> Seq<(nat, Seq<char>)> {
    v.map_values(|e: (usize, String)| (e.0 as nat, e.1@))
}

proof fn lemma_insert_at(s: Seq<(nat, Seq<char>)>, x: (nat, Seq<char>), j: int)
    requires
        0 <= j <= s.len(),
        forall|k: int| j <= k < s.len() ==> x.0 < (#[trigger] s[k]).0,
        j > 0 ==> !(x.0 < s[j - 1].0),
    ensures
        insert_item(s, x) == s.insert(j, x),
    decreases s.len(),
{
    if s.len() == 0 {
        assert(s.insert(j, x) =~= seq![x]);
    } else if j == s.len() {
        assert(s.insert(j, x) =~= s.push(x));
    } else {
        assert(x.0 < s.last().0);
        lemma_insert_at(s.drop_last(), x, j);
        assert(s.insert(j, x) =~= s.drop_last().insert(j, x).push(s.last()));
    }
}

/// Parse a version text.
fn parse_version(t: &str) -> (r: Option<(u8, u8, u8)>)
    ensures
        r == version_named(t@),
{
    let n = t.unicode_len();
    let mut dots: Vec<usize> = Vec::new();
    let mut k: usize = 0;
    while k < n
        invariant
            n == t@.len(),
            k <= n,
            forall|a: int| 0 <= a < dots@.len() ==> (#[trigger] dots@[a]) < k && t@[dots@[a] as int] == '.',
            forall|a: int, b: int| 0 <= a < b < dots@.len() ==> dots@[a] < dots@[b],
            forall|q: int| 0 <= q < k && t@[q] == '.' ==> exists|a: int| 0 <= a < dots@.len() && dots@[a] == q,
            dots@.len() <= k,
        decreases n - k,
    {
        let ghost old_dots = dots@;
        if t.get_char(k) == '.' {
            dots.push(k);
        }
        proof {
            assert forall|q: int| 0 <= q < k + 1 && t@[q] == '.' implies exists|a: int|
                0 <= a < dots@.len() && dots@[a] == q by {
                if q == k {
                    assert(dots@[dots@.len() - 1] == q);
                } else {
                    let a = choose|a: int| 0 <= a < old_dots.len() && old_dots[a] == q;
                    assert(dots@[a] == q);
                }
            }
        }
        k += 1;
    }
    if dots.len() != 2 {
        proof {
            assert forall|i: int, j: int|
                0 <= i < j < t@.len() && t@[i] == '.' && t@[j] == '.' implies version_parts(t@, i, j) is None by {
                let ai = choose|a: int| 0 <= a < dots@.len() && dots@[a] == i;
                let aj = choose|a: int| 0 <= a < dots@.len() && dots@[a] == j;
                if dots@.len() > 2 {
                    let o = if dots@[0] != i && dots@[0] != j {
                        dots@[0]
                    } else if dots@[1] != i && dots@[1] != j {
                        dots@[1]
                    } else {
                        dots@[2]
                    };
                    assert(t@[o as int] == '.');
                } else {
                    assert(ai != aj);
                }
            }
        }
        return None;
    }
    let i = dots[0];
    let j = dots[1];
    let a = parse_usize(t.substring_char(0, i));
    let b = parse_usize(t.substring_char(i + 1, j));
    let c = parse_usize(t.substring_char(j + 1, n));
    proof {
        assert forall|q: int| 0 <= q < t@.len() && q != i && q != j implies #[trigger] t@[q] != '.' by {
            if t@[q] == '.' {
                let aq = choose|x: int| 0 <= x < dots@.len() && dots@[x] == q;
            }
        }
        assert forall|i2: int, j2: int|
            0 <= i2 < j2 < t@.len() && t@[i2] == '.' && t@[j2] == '.' implies i2 == i && j2 == j by {
            let a2 = choose|x: int| 0 <= x < dots@.len() && dots@[x] == i2;
            let b2 = choose|x: int| 0 <= x < dots@.len() && dots@[x] == j2;
        }
    }
    match (a, b, c) {
        (Some(x), Some(y), Some(z)) => {
            if x <= 255 && y <= 255 && z <= 255 {
                assert(version_parts(t@, i as int, j as int) is Some);
                Some((x as u8, y as u8, z as u8))
            } else {
                None
            }
        },
        _ => None,
    }
}

/// The notice lines carried by the fields.
fn recover_notice(misc: &[(String, String)]) -> (r: Vec<String>)
    ensures
        r@.map_values(|s: String| s@) == notice_of(misc_view(misc@)),
{
    proof {
        reveal_strlit("gp.notice.");
    }
    let ghost m = misc_view(misc@);
    let mut items: Vec<(usize, String)> = Vec::new();
    let mut i: usize = 0;
    while i < misc.len()
        invariant
            i <= misc@.len(),
            m == misc_view(misc@),
            items_view(items@) == sorted_items(notice_items(m, i as int)),
        decreases misc@.len() - i,
    {
        let key = misc[i].0.as_str();
        let kn = key.unicode_len();
        let mut idx: Option<usize> = None;
        if kn >= 10 && str_eq(key.substring_char(0, 10), "gp.notice.") {
            idx = parse_usize(key.substring_char(10, kn));
            assert(key@.skip(10) =~= key@.subrange(10, kn as int));
        }
        assert(idx matches Some(v) ==> notice_index(m[i as int].0) == Some(v as nat));
        assert(idx is None ==> notice_index(m[i as int].0) is None);
        match idx {
            Some(v) => {
                let x = (v, misc[i].1.clone());
                let ghost xv = (v as nat, x.1@);
                let ghost before = items_view(items@);
                let mut j: usize = items.len();
                while j > 0 && v < items[j - 1].0
                    invariant
                        j <= items@.len(),
                        before == items_view(items@),
                        forall|q: int| j <= q < items@.len() ==> v < (#[trigger] items@[q]).0,
                    decreases j,
                {
                    j -= 1;
                }
                proof {
                    lemma_insert_at(before, xv, j as int);
                }
                items.insert(j, x);
                assert(items_view(items@) =~= before.insert(j as int, xv));
                assert(notice_items(m, i + 1) == notice_items(m, i as int).push(xv));
                assert(notice_items(m, i + 1).drop_last() =~= notice_items(m, i as int));
            },
            None => {
                assert(notice_items(m, i + 1) == notice_items(m, i as int));
            },
        }
        i += 1;
    }
    let mut out: Vec<String> = Vec::new();
    let mut k: usize = 0;
    while k < items.len()
        invariant
            k <= items@.len(),
            out@.map_values(|s: String| s@) == items_view(items@).take(k as int).map_values(
                |e: (nat, Seq<char>)| e.1,
            ),
        decreases items@.len() - k,
    {
        let ghost prev = out@.map_values(|s: String| s@);
        let line = items[k].1.clone();
        out.push(line);
        assert(out@.map_values(|s: String| s@) =~= prev.push(items_view(items@)[k as int].1));
        assert(items_view(items@).take(k + 1) =~= items_view(items@).take(k as int).push(
            items_view(items@)[k as int],
        ));
        k += 1;
        assert(out@.map_values(|s: String| s@) =~= items_view(items@).take(k as int).map_values(
            |e: (nat, Seq<char>)| e.1,
        ));
    }
    assert(items_view(items@).take(k as int) =~= items_view(items@));
    out
}

/// The navigation sign a name in the miscellaneous fields stands for.
pub open spec fn sign_named(t: Seq<char>) -> Option<DirectionSign> {
    if t == "Coda"@ {
        Some(DirectionSign::Coda)
    } else if t == "DoubleCoda"@ {
        Some(DirectionSign::DoubleCoda)
    } else if t == "Segno"@ {
        Some(DirectionSign::Segno)
    } else if t == "SegnoSegno"@ {
        Some(DirectionSign::SegnoSegno)
    } else if t == "Fine"@ {
        Some(DirectionSign::Fine)
    } else if t == "DaCapo"@ {
        Some(DirectionSign::DaCapo)
    } else if t == "DaCapoAlCoda"@ {
        Some(DirectionSign::DaCapoAlCoda)
    } else if t == "DaCapoAlDoubleCoda"@ {
        Some(DirectionSign::DaCapoAlDoubleCoda)
    } else if t == "DaCapoAlFine"@ {
        Some(DirectionSign::DaCapoAlFine)
    } else if t == "DaSegno"@ {
        Some(DirectionSign::DaSegno)
    } else if t == "DaSegnoAlCoda"@ {
        Some(DirectionSign::DaSegnoAlCoda)
    } else if t == "DaSegnoAlDoubleCoda"@ {
        Some(DirectionSign::DaSegnoAlDoubleCoda)
    } else if t == "DaSegnoAlFine"@ {
        Some(DirectionSign::DaSegnoAlFine)
    } else if t == "DaSegnoSegno"@ {
        Some(DirectionSign::DaSegnoSegno)
    } else if t == "DaSegnoSegnoAlCoda"@ {
        Some(DirectionSign::DaSegnoSegnoAlCoda)
    } else if t == "DaSegnoSegnoAlDoubleCoda"@ {
        Some(DirectionSign::DaSegnoSegnoAlDoubleCoda)
    } else if t == "DaSegnoSegnoAlFine"@ {
        Some(DirectionSign::DaSegnoSegnoAlFine)
    } else if t == "DaCoda"@ {
        Some(DirectionSign::DaCoda)
    } else if t == "DaDoubleCoda"@ {
        Some(DirectionSign::DaDoubleCoda)
    } else {
        None
    }
}

fn sign_from_name(t: &str) -> (r: Option<DirectionSign>)
    ensures
        r == sign_named(t@),
{
    proof {
        reveal_strlit("Coda");
        reveal_strlit("DoubleCoda");
        reveal_strlit("Segno");
        reveal_strlit("SegnoSegno");
        reveal_strlit("Fine");
        reveal_strlit("DaCapo");
        reveal_strlit("DaCapoAlCoda");
        reveal_strlit("DaCapoAlDoubleCoda");
        reveal_strlit("DaCapoAlFine");
        reveal_strlit("DaSegno");
        reveal_strlit("DaSegnoAlCoda");
        reveal_strlit("DaSegnoAlDoubleCoda");
        reveal_strlit("DaSegnoAlFine");
        reveal_strlit("DaSegnoSegno");
        reveal_strlit("DaSegnoSegnoAlCoda");
        reveal_strlit("DaSegnoSegnoAlDoubleCoda");
        reveal_strlit("DaSegnoSegnoAlFine");
        reveal_strlit("DaCoda");
        reveal_strlit("DaDoubleCoda");
    }
    if str_eq(t, "Coda") {
        Some(DirectionSign::Coda)
    } else if str_eq(t, "DoubleCoda") {
        Some(DirectionSign::DoubleCoda)
    } else if str_eq(t, "Segno") {
        Some(DirectionSign::Segno)
    } else if str_eq(t, "SegnoSegno") {
        Some(DirectionSign::SegnoSegno)
    } else if str_eq(t, "Fine") {
        Some(DirectionSign::Fine)
    } else if str_eq(t, "DaCapo") {
        Some(DirectionSign::DaCapo)
    } else if str_eq(t, "DaCapoAlCoda") {
        Some(DirectionSign::DaCapoAlCoda)
    } else if str_eq(t, "DaCapoAlDoubleCoda") {
        Some(DirectionSign::DaCapoAlDoubleCoda)
    } else if str_eq(t, "DaCapoAlFine") {
        Some(DirectionSign::DaCapoAlFine)
    } else if str_eq(t, "DaSegno") {
        Some(DirectionSign::DaSegno)
    } else if str_eq(t, "DaSegnoAlCoda") {
        Some(DirectionSign::DaSegnoAlCoda)
    } else if str_eq(t, "DaSegnoAlDoubleCoda") {
        Some(DirectionSign::DaSegnoAlDoubleCoda)
    } else if str_eq(t, "DaSegnoAlFine") {
        Some(DirectionSign::DaSegnoAlFine)
    } else if str_eq(t, "DaSegnoSegno") {
        Some(DirectionSign::DaSegnoSegno)
    } else if str_eq(t, "DaSegnoSegnoAlCoda") {
        Some(DirectionSign::DaSegnoSegnoAlCoda)
    } else if str_eq(t, "DaSegnoSegnoAlDoubleCoda") {
        Some(DirectionSign::DaSegnoSegnoAlDoubleCoda)
    } else if str_eq(t, "DaSegnoSegnoAlFine") {
        Some(DirectionSign::DaSegnoSegnoAlFine)
    } else if str_eq(t, "DaCoda") {
        Some(DirectionSign::DaCoda)
    } else if str_eq(t, "DaDoubleCoda") {
        Some(DirectionSign::DaDoubleCoda)
    } else {
        None
    }
}

/// The measure a direction field's name points at: `gp.direction.` then an
/// index.
pub open spec fn direction_target(k: Seq<char>) -> Option<nat> {
    if k.len() >= 13 && k.subrange(0, 13) == "gp.direction."@ {
        match unsigned_value(k.skip(13)) {
            Some(v) => if v <= usize::MAX {
                Some(v)
            } else {
                None
            },
            None => None,
        }
    } else {
        None
    }
}

/// The navigation sign of measure `i`: set by the last of the first `n`
/// fields that points at it (none for an unknown name), none if no field
/// does.
pub open spec fn direction_of(m: Seq<(Seq<char>, Seq<char>)>, n: int, i: nat) -> Option<DirectionSign>
    decreases n,
{
    if n <= 0 {
        None
    } else if direction_target(m[n - 1].0) == Some(i) {
        sign_named(m[n - 1].1)
    } else {
        direction_of(m, n - 1, i)
    }
}

fn target_of(key: &str) -> (r: Option<usize>)
    ensures
        r matches Some(v) ==> direction_target(key@) == Some(v as nat),
        r is None ==> direction_target(key@) is None,
{
    proof {
        reveal_strlit("gp.direction.");
    }
    let kn = key.unicode_len();
    if kn >= 13 && str_eq(key.substring_char(0, 13), "gp.direction.") {
        assert(key@.skip(13) =~= key@.subrange(13, kn as int));
        parse_usize(key.substring_char(13, kn))
    } else {
        None
    }
}

fn direction_for(misc: &[(String, String)], i: usize) -> (r: Option<DirectionSign>)
    ensures
        r == direction_of(misc_view(misc@), misc@.len() as int, i as nat),
{
    let ghost m = misc_view(misc@);
    let mut n: usize = misc.len();
    while n > 0
        invariant
            n <= misc@.len(),
            m == misc_view(misc@),
            direction_of(m, misc@.len() as int, i as nat) == direction_of(m, n as int, i as nat),
        decreases n,
    {
        let t = target_of(misc[n - 1].0.as_str());
        match t {
            Some(v) => {
                if v == i {
                    return sign_from_name(misc[n - 1].1.as_str());
                }
            },
            None => {},
        }
        n -= 1;
    }
    None
}

// ---------------------------------------------------------------------------
// Measure headers
// ---------------------------------------------------------------------------

/// Values in force after the first `n` measure definitions: tempo, time
/// signature numerator and denominator, the numerator the beams follow, and
/// key; 120, 4/4 and C major before any.
pub open spec fn header_state(tl: Seq<MeasureDef>, n: int) -> (i32, i8, u16, u8, LKeySignature)
    decreases n,
{
    if n <= 0 {
        (120i32, 4i8, 4u16, 4u8, LKeySignature { key: 0, is_minor: false })
    } else {
        let (t, num, den, nb, key) = header_state(tl, n - 1);
        let d = tl[n - 1];
        (
            match d.tempo {
                Some(x) => x,
                None => t,
            },
            match d.time_signature {
                Some(ts) => ts.numerator as i8,
                None => num,
            },
            match d.time_signature {
                Some(ts) => ts.denominator as u16,
                None => den,
            },
            match d.time_signature {
                Some(ts) => ts.numerator,
                None => nb,
            },
            match d.key_signature {
                Some(k) => legacy_key(k),
                None => key,
            },
        )
    }
}

/// `h` is the legacy header of measure `i`: its number, the tempo, time
/// signature (with default beams) and key in force, no repeat, no marker,
/// and the navigation sign the fields give it.
pub open spec fn header_made(h: MeasureHeader, tl: Seq<MeasureDef>, m: Seq<(Seq<char>, Seq<char>)>, i: int) -> bool {
    let (t, num, den, nb, key) = header_state(tl, i + 1);
    &&& h.number == (i + 1) as u16
    &&& h.tempo == t
    &&& h.time_signature.numerator == num
    &&& h.time_signature.denominator == (LDuration { value: den, dotted: false, tuplet_enters: 1, tuplet_times: 1 })
    &&& h.time_signature.beams@ == beam_groups(nb)
    &&& h.key_signature == key
    &&& !h.repeat_open
    &&& h.repeat_close == -1
    &&& h.repeat_alternative == 0
    &&& h.direction == direction_of(m, m.len() as int, i as nat)
    &&& h.marker is None
}

/// The measure headers of a timeline.
pub fn build_measure_headers(timeline: &[MeasureDef], starts: &Vec<i64>, misc: &[(String, String)]) -> (r: Vec<
    MeasureHeader,
>)
    requires
        starts@ == measure_starts_upto(timeline@, timeline@.len() as int).0,
    ensures
        r@.len() == timeline@.len(),
        forall|i: int| 0 <= i < r@.len() ==> header_made(#[trigger] r@[i], timeline@, misc_view(misc@), i),
        forall|i: int| 0 <= i < r@.len() ==> (#[trigger] r@[i]).start == starts@[i],
{
    proof {
        crate::convert::legacy::lemma_measure_starts_bounds(timeline@, timeline@.len() as int);
    }
    let mut headers: Vec<MeasureHeader> = Vec::new();
    let mut tempo: i32 = 120;
    let mut num: i8 = 4;
    let mut den: u16 = 4;
    let mut nb: u8 = 4;
    let mut key = LKeySignature { key: 0, is_minor: false };
    let mut i: usize = 0;
    while i < timeline.len()
        invariant
            i <= timeline@.len(),
            headers@.len() == i,
            header_state(timeline@, i as int) == (tempo, num, den, nb, key),
            starts@.len() == timeline@.len(),
            forall|k: int| 0 <= k < i ==> header_made(#[trigger] headers@[k], timeline@, misc_view(misc@), k),
            forall|k: int| 0 <= k < i ==> (#[trigger] headers@[k]).start == starts@[k],
        decreases timeline@.len() - i,
    {
        let d = timeline[i];
        match d.tempo {
            Some(x) => {
                tempo = x;
            },
            None => {},
        }
        match d.time_signature {
            Some(ts) => {
                num = ts.numerator as i8;
                den = ts.denominator as u16;
                nb = ts.numerator;
            },
            None => {},
        }
        match d.key_signature {
            Some(k) => {
                key = opt_key_to_legacy_key(&k);
            },
            None => {},
        }
        let h = MeasureHeader {
            number: (i + 1) as u16,
            start: starts[i],
            tempo,
            time_signature: LTimeSig {
                numerator: num,
                denominator: LDuration { value: den, dotted: false, tuplet_enters: 1, tuplet_times: 1 },
                beams: default_beams(nb),
            },
            key_signature: key,
            repeat_open: false,
            repeat_close: -1,
            repeat_alternative: 0,
            direction: direction_for(misc, i),
            marker: None,
        };
        headers.push(h);
        i += 1;
    }
    headers
}

// ---------------------------------------------------------------------------
// Channels
// ---------------------------------------------------------------------------

/// The default channel `i`: program 25, volume 95, centred.
pub open spec fn default_channel(i: int) -> MidiChannel {
    MidiChannel { channel: i as u8, instrument: 25, bank: 0, volume: 95, balance: 64 }
}

/// The 64 MIDI channels of a Guitar Pro file, all default.
/// The position of the first instrument on MIDI channel `c`, from `k` on;
/// the number of instruments when none is.
pub open spec fn instrument_on(ins: Seq<Instrument>, c: int, k: int) -> int
    decreases ins.len() - k,
{
    if k < 0 || k >= ins.len() {
        ins.len() as int
    } else if ins[k].midi_channel == c {
        k
    } else {
        instrument_on(ins, c, k + 1)
    }
}

/// Channel `i` of the song: the default channel, playing the program of the
/// first instrument on that channel when there is one.
pub open spec fn channel_of(ins: Seq<Instrument>, i: int) -> MidiChannel {
    let k = instrument_on(ins, i, 0);
    if 0 <= k < ins.len() {
        MidiChannel { instrument: ins[k].midi_program as i32, ..default_channel(i) }
    } else {
        default_channel(i)
    }
}

fn find_instrument_on(ins: &Vec<Instrument>, c: u8) -> (r: usize)
    ensures
        r as int == instrument_on(ins@, c as int, 0),
{
    let mut k: usize = 0;
    while k < ins.len()
        invariant
            k <= ins@.len(),
            instrument_on(ins@, c as int, 0) == instrument_on(ins@, c as int, k as int),
        decreases ins@.len() - k,
    {
        if ins[k].midi_channel == c {
            return k;
        }
        k += 1;
    }
    k
}

/// The song's 64 MIDI channels, each playing the program of the first
/// instrument on it.
pub fn build_channels(ins: &Vec<Instrument>) -> (r: Vec<MidiChannel>)
    ensures
        r@.len() == 64,
        forall|i: int| 0 <= i < 64 ==> #[trigger] r@[i] == channel_of(ins@, i),
{
    let mut channels: Vec<MidiChannel> = Vec::new();
    let mut i: u8 = 0;
    while i < 64
        invariant
            i <= 64,
            channels@.len() == i,
            forall|k: int| 0 <= k < i ==> #[trigger] channels@[k] == channel_of(ins@, k),
        decreases 64 - i,
    {
        let k = find_instrument_on(ins, i);
        let program: i32 = if k < ins.len() {
            ins[k].midi_program as i32
        } else {
            25
        };
        channels.push(MidiChannel { channel: i, instrument: program, bank: 0, volume: 95, balance: 64 });
        i += 1;
    }
    channels
}


// ---------------------------------------------------------------------------
// Notes, beats and voices
// ---------------------------------------------------------------------------

/// Fret, string and kind of the legacy note of `n`: a rest keeps its
/// tablature (0 where it has none); a note with string and fret keeps them
/// and is a tie when it ends a tie, else dead with a cross notehead, else
/// normal; a note without tablature is a tie when it ends one, else a rest
/// at string 0, fret 0.
pub open spec fn legacy_note_of(n: Note) -> (i16, i8, NoteType) {
    if n.gp_is_rest {
        (
            match n.fret {
                Some(f) => f as i16,
                None => 0i16,
            },
            match n.string {
                Some(x) => x as i8,
                None => 0i8,
            },
            NoteType::Rest,
        )
    } else if n.string is Some && n.fret is Some {
        (
            n.fret->0 as i16,
            n.string->0 as i8,
            if n.tie == Some(TieType::End) {
                NoteType::Tie
            } else if n.notehead == Some(Notehead::X) {
                NoteType::Dead
            } else {
                NoteType::Normal
            },
        )
    } else if n.tie == Some(TieType::End) {
        (0i16, 0i8, NoteType::Tie)
    } else {
        (0i16, 0i8, NoteType::Rest)
    }
}

/// Whether one of the techniques is of kind `k`.
pub open spec fn has_technique(ts: Seq<Technique>, k: TechniqueKind) -> bool {
    exists|i: int| 0 <= i < ts.len() && #[trigger] ts[i].kind == k
}

/// The slide a technique stands for, if it is a slide.
pub open spec fn technique_slide(k: TechniqueKind) -> Option<SlideType> {
    match k {
        TechniqueKind::SlideUp => Some(SlideType::ShiftSlideTo),
        TechniqueKind::SlideLegato => Some(SlideType::LegatoSlideTo),
        TechniqueKind::SlideDown => Some(SlideType::OutDownwards),
        TechniqueKind::SlideOutUp => Some(SlideType::OutUpWards),
        TechniqueKind::SlideIntoAbove => Some(SlideType::IntoFromAbove),
        TechniqueKind::SlideIntoBelow => Some(SlideType::IntoFromBelow),
        _ => None,
    }
}

/// The slides of the techniques, in order.
pub open spec fn slides_of(ts: Seq<Technique>) -> Seq<SlideType>
    decreases ts.len(),
{
    if ts.len() == 0 {
        Seq::empty()
    } else {
        slides_of(ts.drop_last()) + match technique_slide(ts.last().kind) {
            Some(sl) => seq![sl],
            None => Seq::empty(),
        }
    }
}

/// The harmonic kind of a code; natural for an unknown code.
pub open spec fn harmonic_of_code(c: u8) -> HarmonicType {
    if c == 2 {
        HarmonicType::Artificial
    } else if c == 3 {
        HarmonicType::Tapped
    } else if c == 4 {
        HarmonicType::Pinch
    } else if c == 5 {
        HarmonicType::Semi
    } else {
        HarmonicType::Natural
    }
}

/// An optimized bend point in the legacy model.
pub open spec fn legacy_bend_point(p: GpBendPoint) -> BendPoint {
    BendPoint { position: p.position, value: p.value, vibrato: p.vibrato }
}

/// `r` is the legacy note of `n` in a beat of velocity `velocity`: its fret,
/// string and kind; its effects read from the articulations (staccato,
/// accent, marcato), the techniques (hammer-on or pull-off, let ring,
/// vibrato, palm mute, the slides in order), the bend curve, the harmonic
/// kind and the ghost flag; its own velocity, else the beat's; and the
/// accidental swap.
pub open spec fn legacy_note_made(r: LNote, n: Note, velocity: i16) -> bool {
    let e = r.effect;
    &&& (r.value, r.string, r.kind) == legacy_note_of(n)
    &&& e.staccato == n.articulations@.contains(Articulation::Staccato)
    &&& e.accentuated_note == n.articulations@.contains(Articulation::Accent)
    &&& e.heavy_accentuated_note == n.articulations@.contains(Articulation::Marcato)
    &&& e.hammer == (has_technique(n.techniques@, TechniqueKind::HammerOn) || has_technique(
        n.techniques@,
        TechniqueKind::PullOff,
    ))
    &&& e.let_ring == has_technique(n.techniques@, TechniqueKind::LetRing)
    &&& e.vibrato == has_technique(n.techniques@, TechniqueKind::Vibrato)
    &&& e.palm_mute == has_technique(n.techniques@, TechniqueKind::HalfMuted)
    &&& e.slides@ == slides_of(n.techniques@)
    &&& match n.gp_bend {
        Some(b) => e.bend is Some && e.bend->0.points@ == b.points@.map_values(
            |p: GpBendPoint| legacy_bend_point(p),
        ),
        None => e.bend is None,
    }
    &&& e.harmonic == match n.gp_harmonic {
        Some(h) => Some(harmonic_of_code(h.kind)),
        None => None,
    }
    &&& e.ghost_note == n.gp_ghost
    &&& r.velocity == match n.gp_velocity {
        Some(v) => v,
        None => velocity,
    }
    &&& r.swap_accidentals == n.gp_swap_accidentals
}

fn technique_slide_of(k: TechniqueKind) -> (r: Option<SlideType>)
    ensures
        r == technique_slide(k),
{
    match k {
        TechniqueKind::SlideUp => Some(SlideType::ShiftSlideTo),
        TechniqueKind::SlideLegato => Some(SlideType::LegatoSlideTo),
        TechniqueKind::SlideDown => Some(SlideType::OutDownwards),
        TechniqueKind::SlideOutUp => Some(SlideType::OutUpWards),
        TechniqueKind::SlideIntoAbove => Some(SlideType::IntoFromAbove),
        TechniqueKind::SlideIntoBelow => Some(SlideType::IntoFromBelow),
        _ => None,
    }
}

fn harmonic_from_code(c: u8) -> (r: HarmonicType)
    ensures
        r == harmonic_of_code(c),
{
    if c == 2 {
        HarmonicType::Artificial
    } else if c == 3 {
        HarmonicType::Tapped
    } else if c == 4 {
        HarmonicType::Pinch
    } else if c == 5 {
        HarmonicType::Semi
    } else {
        HarmonicType::Natural
    }
}

fn legacy_bend(b: &GpBendEffect) -> (r: BendEffect)
    ensures
        r.points@ == b.points@.map_values(|p: GpBendPoint| legacy_bend_point(p)),
{
    let mut points: Vec<BendPoint> = Vec::new();
    let mut i: usize = 0;
    while i < b.points.len()
        invariant
            i <= b.points@.len(),
            points@ == b.points@.take(i as int).map_values(|p: GpBendPoint| legacy_bend_point(p)),
        decreases b.points@.len() - i,
    {
        let p = b.points[i];
        points.push(BendPoint { position: p.position, value: p.value, vibrato: p.vibrato });
        i += 1;
        assert(points@ =~= b.points@.take(i as int).map_values(|p: GpBendPoint| legacy_bend_point(p)));
    }
    assert(b.points@.take(i as int) =~= b.points@);
    BendEffect { points }
}

/// Convert a note back to the legacy model, in a beat of velocity
/// `velocity`.
pub fn build_legacy_note(n: &Note, velocity: i16) -> (r: LNote)
    ensures
        legacy_note_made(r, *n, velocity),
{
    let (value, string, kind): (i16, i8, NoteType) = if n.gp_is_rest {
        let v: i16 = match n.fret {
            Some(f) => f as i16,
            None => 0,
        };
        let st: i8 = match n.string {
            Some(x) => x as i8,
            None => 0,
        };
        (v, st, NoteType::Rest)
    } else {
        match (n.string, n.fret) {
            (Some(x), Some(f)) => {
                let k = if n.tie == Some(TieType::End) {
                    NoteType::Tie
                } else if n.notehead == Some(Notehead::X) {
                    NoteType::Dead
                } else {
                    NoteType::Normal
                };
                (f as i16, x as i8, k)
            },
            _ => {
                if n.tie == Some(TieType::End) {
                    (0, 0, NoteType::Tie)
                } else {
                    (0, 0, NoteType::Rest)
                }
            },
        }
    };
    let mut staccato = false;
    let mut accent = false;
    let mut marcato = false;
    let mut i: usize = 0;
    while i < n.articulations.len()
        invariant
            i <= n.articulations@.len(),
            staccato == n.articulations@.take(i as int).contains(Articulation::Staccato),
            accent == n.articulations@.take(i as int).contains(Articulation::Accent),
            marcato == n.articulations@.take(i as int).contains(Articulation::Marcato),
        decreases n.articulations@.len() - i,
    {
        let ghost pre = n.articulations@.take(i as int);
        let a = n.articulations[i];
        match a {
            Articulation::Staccato => {
                staccato = true;
            },
            Articulation::Accent => {
                accent = true;
            },
            Articulation::Marcato => {
                marcato = true;
            },
        }
        assert(n.articulations@.take(i + 1) =~= pre.push(a));
        proof {
            let nxt = pre.push(a);
            assert(nxt[i as int] == a);
            assert forall|x: Articulation| pre.contains(x) implies nxt.contains(x) by {
                let j = choose|j: int| 0 <= j < pre.len() && pre[j] == x;
                assert(nxt[j] == x);
            }
            assert forall|x: Articulation| nxt.contains(x) && x != a implies pre.contains(x) by {
                let j = choose|j: int| 0 <= j < nxt.len() && nxt[j] == x;
                assert(j < pre.len());
                assert(pre[j] == x);
            }
        }
        i += 1;
    }
    assert(n.articulations@.take(i as int) =~= n.articulations@);
    let mut hammer = false;
    let mut let_ring = false;
    let mut vibrato = false;
    let mut palm_mute = false;
    let mut slides: Vec<SlideType> = Vec::new();
    let mut k: usize = 0;
    while k < n.techniques.len()
        invariant
            k <= n.techniques@.len(),
            hammer == (has_technique(n.techniques@.take(k as int), TechniqueKind::HammerOn) || has_technique(
                n.techniques@.take(k as int),
                TechniqueKind::PullOff,
            )),
            let_ring == has_technique(n.techniques@.take(k as int), TechniqueKind::LetRing),
            vibrato == has_technique(n.techniques@.take(k as int), TechniqueKind::Vibrato),
            palm_mute == has_technique(n.techniques@.take(k as int), TechniqueKind::HalfMuted),
            slides@ == slides_of(n.techniques@.take(k as int)),
        decreases n.techniques@.len() - k,
    {
        let ghost pre = n.techniques@.take(k as int);
        let t = n.techniques[k];
        let ghost nxt = pre.push(t);
        assert(n.techniques@.take(k + 1) =~= nxt);
        assert(nxt.drop_last() =~= pre);
        proof {
            assert forall|kind: TechniqueKind| has_technique(nxt, kind) == (has_technique(pre, kind) || t.kind
                == kind) by {
                if has_technique(pre, kind) {
                    let j = choose|j: int| 0 <= j < pre.len() && #[trigger] pre[j].kind == kind;
                    assert(nxt[j].kind == kind);
                }
                if has_technique(nxt, kind) {
                    let j = choose|j: int| 0 <= j < nxt.len() && #[trigger] nxt[j].kind == kind;
                    if j < pre.len() {
                        assert(pre[j].kind == kind);
                    }
                }
                if t.kind == kind {
                    assert(nxt[pre.len() as int].kind == kind);
                }
            }
        }
        match t.kind {
            TechniqueKind::HammerOn => {
                hammer = true;
            },
            TechniqueKind::PullOff => {
                hammer = true;
            },
            TechniqueKind::LetRing => {
                let_ring = true;
            },
            TechniqueKind::Vibrato => {
                vibrato = true;
            },
            TechniqueKind::HalfMuted => {
                palm_mute = true;
            },
            _ => {},
        }
        match technique_slide_of(t.kind) {
            Some(sl) => {
                slides.push(sl);
            },
            None => {},
        }
        assert(slides@ =~= slides_of(nxt));
        k += 1;
    }
    assert(n.techniques@.take(k as int) =~= n.techniques@);
    let bend = match &n.gp_bend {
        Some(b) => Some(legacy_bend(b)),
        None => None,
    };
    let harmonic = match n.gp_harmonic {
        Some(h) => Some(harmonic_from_code(h.kind)),
        None => None,
    };
    let effect = NoteEffect {
        hammer,
        bend,
        let_ring,
        palm_mute,
        harmonic,
        slides,
        vibrato,
        staccato,
        accentuated_note: accent,
        heavy_accentuated_note: marcato,
        ghost_note: n.gp_ghost,
    };
    let note_velocity = match n.gp_velocity {
        Some(v) => v,
        None => velocity,
    };
    LNote { value, string, kind, effect, velocity: note_velocity, swap_accidentals: n.gp_swap_accidentals }
}

/// The legacy status of a beat.
pub open spec fn status_of(b: Beat) -> BeatStatus {
    if b.gp_empty {
        BeatStatus::Empty
    } else if b.gp_rest {
        BeatStatus::Rest
    } else {
        BeatStatus::Normal
    }
}

/// `r` is the legacy beat of `b` in a measure starting at tick `start`: its
/// notes in the velocity of the beat's dynamic.
pub open spec fn legacy_beat_made(r: LBeat, b: Beat, start: i64) -> bool {
    &&& r.start == Some((start + b.tick_offset) as i64)
    &&& r.duration == legacy_duration(b.duration)
    &&& r.notes@.len() == b.notes@.len()
    &&& forall|i: int|
        0 <= i < b.notes@.len() ==> legacy_note_made(#[trigger] r.notes@[i], b.notes@[i], velocity_of(b.dynamic))
    &&& r.status == status_of(b)
}

/// Convert a beat of a measure starting at tick `start`.
pub fn build_legacy_beat(b: &Beat, start: i64) -> (r: LBeat)
    requires
        0 <= start <= i64::MAX - u32::MAX,
    ensures
        legacy_beat_made(r, *b, start),
{
    let velocity = dynamic_to_velocity(b.dynamic);
    let mut notes: Vec<LNote> = Vec::new();
    let mut i: usize = 0;
    while i < b.notes.len()
        invariant
            i <= b.notes@.len(),
            velocity == velocity_of(b.dynamic),
            notes@.len() == i,
            forall|k: int| 0 <= k < i ==> legacy_note_made(#[trigger] notes@[k], b.notes@[k], velocity),
        decreases b.notes@.len() - i,
    {
        notes.push(build_legacy_note(&b.notes[i], velocity));
        i += 1;
    }
    let status = if b.gp_empty {
        BeatStatus::Empty
    } else if b.gp_rest {
        BeatStatus::Rest
    } else {
        BeatStatus::Normal
    };
    LBeat {
        notes,
        duration: duration_to_legacy(&b.duration),
        status,
        start: Some(start + b.tick_offset as i64),
    }
}

/// `r` is the legacy voice of `v` in a measure starting at tick `start`.
pub open spec fn legacy_voice_made(r: LVoice, v: Voice, start: i64) -> bool {
    &&& r.beats@.len() == v.beats@.len()
    &&& forall|i: int| 0 <= i < v.beats@.len() ==> legacy_beat_made(#[trigger] r.beats@[i], v.beats@[i], start)
}

/// Convert a voice of a measure starting at tick `start`.
pub fn build_legacy_voice(v: &Voice, start: i64) -> (r: LVoice)
    requires
        0 <= start <= i64::MAX - u32::MAX,
    ensures
        legacy_voice_made(r, *v, start),
{
    let mut beats: Vec<LBeat> = Vec::new();
    let mut i: usize = 0;
    while i < v.beats.len()
        invariant
            0 <= start <= i64::MAX - u32::MAX,
            i <= v.beats@.len(),
            beats@.len() == i,
            forall|k: int| 0 <= k < i ==> legacy_beat_made(#[trigger] beats@[k], v.beats@[k], start),
        decreases v.beats@.len() - i,
    {
        beats.push(build_legacy_beat(&v.beats[i], start));
        i += 1;
    }
    LVoice { beats }
}

// ---------------------------------------------------------------------------
// Measures and tracks
// ---------------------------------------------------------------------------

/// Position of the first voice with id `id`, -1 when there is none.
pub open spec fn voice_pos(vs: Seq<Voice>, id: u8) -> int
    decreases vs.len(),
{
    if vs.len() == 0 {
        -1
    } else if vs[0].voice_id == id {
        0
    } else {
        let r = voice_pos(vs.drop_first(), id);
        if r < 0 {
            -1
        } else {
            r + 1
        }
    }
}

/// Position of the first measure with index `idx`, -1 when there is none.
pub open spec fn measure_pos(ms: Seq<MeasureData>, idx: u16) -> int
    decreases ms.len(),
{
    if ms.len() == 0 {
        -1
    } else if ms[0].measure_index == idx {
        0
    } else {
        let r = measure_pos(ms.drop_first(), idx);
        if r < 0 {
            -1
        } else {
            r + 1
        }
    }
}

proof fn lemma_voice_pos(vs: Seq<Voice>, id: u8)
    ensures
        -1 <= voice_pos(vs, id) < vs.len(),
        voice_pos(vs, id) >= 0 ==> vs[voice_pos(vs, id)].voice_id == id,
        voice_pos(vs, id) >= 0 ==> forall|k: int| 0 <= k < voice_pos(vs, id) ==> vs[k].voice_id != id,
        voice_pos(vs, id) < 0 ==> forall|k: int| 0 <= k < vs.len() ==> vs[k].voice_id != id,
    decreases vs.len(),
{
    if vs.len() > 0 && vs[0].voice_id != id {
        lemma_voice_pos(vs.drop_first(), id);
        assert forall|k: int| 1 <= k < vs.len() implies vs[k] == vs.drop_first()[k - 1] by {}
    }
}

proof fn lemma_measure_pos(ms: Seq<MeasureData>, idx: u16)
    ensures
        -1 <= measure_pos(ms, idx) < ms.len(),
        measure_pos(ms, idx) >= 0 ==> ms[measure_pos(ms, idx)].measure_index == idx,
        measure_pos(ms, idx) >= 0 ==> forall|k: int| 0 <= k < measure_pos(ms, idx) ==> ms[k].measure_index != idx,
        measure_pos(ms, idx) < 0 ==> forall|k: int| 0 <= k < ms.len() ==> ms[k].measure_index != idx,
    decreases ms.len(),
{
    if ms.len() > 0 && ms[0].measure_index != idx {
        lemma_measure_pos(ms.drop_first(), idx);
        assert forall|k: int| 1 <= k < ms.len() implies ms[k] == ms.drop_first()[k - 1] by {}
    }
}

fn find_voice(vs: &Vec<Voice>, id: u8) -> (r: Option<usize>)
    ensures
        r matches Some(p) ==> p as int == voice_pos(vs@, id) && p < vs@.len(),
        r is None ==> voice_pos(vs@, id) < 0,
{
    proof {
        lemma_voice_pos(vs@, id);
    }
    let mut k: usize = 0;
    while k < vs.len()
        invariant
            k <= vs@.len(),
            forall|q: int| 0 <= q < k ==> vs@[q].voice_id != id,
            -1 <= voice_pos(vs@, id) < vs@.len(),
            voice_pos(vs@, id) >= 0 ==> vs@[voice_pos(vs@, id)].voice_id == id,
            voice_pos(vs@, id) >= 0 ==> forall|q: int| 0 <= q < voice_pos(vs@, id) ==> vs@[q].voice_id != id,
            voice_pos(vs@, id) < 0 ==> forall|q: int| 0 <= q < vs@.len() ==> vs@[q].voice_id != id,
        decreases vs@.len() - k,
    {
        if vs[k].voice_id == id {
            return Some(k);
        }
        k += 1;
    }
    None
}

fn find_measure(ms: &Vec<MeasureData>, idx: u16) -> (r: Option<usize>)
    ensures
        r matches Some(p) ==> p as int == measure_pos(ms@, idx) && p < ms@.len(),
        r is None ==> measure_pos(ms@, idx) < 0,
{
    proof {
        lemma_measure_pos(ms@, idx);
    }
    let mut k: usize = 0;
    while k < ms.len()
        invariant
            k <= ms@.len(),
            forall|q: int| 0 <= q < k ==> ms@[q].measure_index != idx,
            -1 <= measure_pos(ms@, idx) < ms@.len(),
            measure_pos(ms@, idx) >= 0 ==> ms@[measure_pos(ms@, idx)].measure_index == idx,
            measure_pos(ms@, idx) >= 0 ==> forall|q: int|
                0 <= q < measure_pos(ms@, idx) ==> ms@[q].measure_index != idx,
            measure_pos(ms@, idx) < 0 ==> forall|q: int| 0 <= q < ms@.len() ==> ms@[q].measure_index != idx,
        decreases ms@.len() - k,
    {
        if ms[k].measure_index == idx {
            return Some(k);
        }
        k += 1;
    }
    None
}

/// `r` is the legacy measure `i` of track `t`, starting at tick `start`:
/// two voices, each converted from the track's voice of that id in the
/// measure of index `i` (empty when there is none), no simile mark, treble
/// clef.
pub open spec fn legacy_measure_made(r: LMeasure, t: Track, i: int, start: i64) -> bool {
    let mp = measure_pos(t.measures@, i as u16);
    &&& r.header_index == i
    &&& r.voices@.len() == 2
    &&& r.simile_mark is None
    &&& r.clef == MeasureClef::Treble
    &&& forall|vi: int|
        0 <= vi < 2 ==> {
            let vp = if mp >= 0 {
                voice_pos(t.measures@[mp].voices@, vi as u8)
            } else {
                -1
            };
            if vp >= 0 {
                legacy_voice_made(#[trigger] r.voices@[vi], t.measures@[mp].voices@[vp], start)
            } else {
                r.voices@[vi].beats@.len() == 0
            }
        }
}

fn build_legacy_measure(t: &Track, i: usize, start: i64) -> (r: LMeasure)
    requires
        0 <= start <= i64::MAX - u32::MAX,
    ensures
        legacy_measure_made(r, *t, i as int, start),
{
    let mut voices: Vec<LVoice> = Vec::new();
    let mp = find_measure(&t.measures, i as u16);
    let mut vi: u8 = 0;
    while vi < 2
        invariant
            0 <= start <= i64::MAX - u32::MAX,
            vi <= 2,
            voices@.len() == vi,
            mp matches Some(p) ==> p as int == measure_pos(t.measures@, i as u16) && p < t.measures@.len(),
            mp is None ==> measure_pos(t.measures@, i as u16) < 0,
            forall|k: int|
                0 <= k < vi ==> {
                    let m = measure_pos(t.measures@, i as u16);
                    let vp = if m >= 0 {
                        voice_pos(t.measures@[m].voices@, k as u8)
                    } else {
                        -1
                    };
                    if vp >= 0 {
                        legacy_voice_made(#[trigger] voices@[k], t.measures@[m].voices@[vp], start)
                    } else {
                        voices@[k].beats@.len() == 0
                    }
                },
        decreases 2 - vi,
    {
        let v = match mp {
            Some(p) => match find_voice(&t.measures[p].voices, vi) {
                Some(q) => build_legacy_voice(&t.measures[p].voices[q], start),
                None => LVoice { beats: Vec::new() },
            },
            None => LVoice { beats: Vec::new() },
        };
        voices.push(v);
        vi += 1;
    }
    LMeasure { header_index: i, voices, simile_mark: None, clef: MeasureClef::Treble }
}

/// The name of a per-track field: `gp.track.<t>.<suffix>`.
pub open spec fn track_key(t: int, suffix: Seq<char>) -> Seq<char> {
    "gp.track."@ + crate::text::decimal(t as nat) + "."@ + suffix
}

/// The instrument at position `i`, if there is one.
pub open spec fn instrument_at(ins: Seq<Instrument>, i: u8) -> Option<Instrument> {
    if (i as int) < ins.len() {
        Some(ins[i as int])
    } else {
        None
    }
}

/// Open strings numbered from 1, in order.
pub open spec fn numbered_strings(midis: Seq<i8>) -> Seq<(i8, i8)> {
    Seq::new(midis.len(), |k: int| (#[verifier::truncate] ((k + 1) as i8), midis[k]))
}

/// The strings of a track played by `ins`: the instrument's recorded MIDI
/// strings, else the MIDI values of a fretted instrument's tuning, else none.
pub open spec fn instrument_strings(ins: Option<Instrument>) -> Seq<(i8, i8)> {
    match ins {
        None => Seq::empty(),
        Some(i) => if i.gp_strings@.len() > 0 {
            numbered_strings(i.gp_strings@)
        } else {
            match i.kind {
                InstrumentKind::Stringed { tuning, .. } => numbered_strings(
                    tuning@.map_values(|p: crate::model::Pitch| pitch_midi(p)),
                ),
                _ => Seq::empty(),
            }
        },
    }
}

fn number_strings(midis: &Vec<i8>) -> (r: Vec<(i8, i8)>)
    ensures
        r@ == numbered_strings(midis@),
{
    let mut r: Vec<(i8, i8)> = Vec::new();
    let mut k: usize = 0;
    while k < midis.len()
        invariant
            k <= midis@.len(),
            r@ == numbered_strings(midis@.take(k as int)),
        decreases midis@.len() - k,
    {
        let n: i8 = #[verifier::truncate] ((k + 1) as i8);
        r.push((n, midis[k]));
        k += 1;
        assert(r@ =~= numbered_strings(midis@.take(k as int)));
    }
    assert(midis@.take(k as int) =~= midis@);
    r
}

fn strings_of_instrument(ins: &Instrument) -> (r: Vec<(i8, i8)>)
    ensures
        r@ == instrument_strings(Some(*ins)),
{
    if ins.gp_strings.len() > 0 {
        number_strings(&ins.gp_strings)
    } else {
        match &ins.kind {
            InstrumentKind::Stringed { tuning, .. } => {
                let mut midis: Vec<i8> = Vec::new();
                let mut k: usize = 0;
                while k < tuning.len()
                    invariant
                        k <= tuning@.len(),
                        midis@ == tuning@.take(k as int).map_values(|p: crate::model::Pitch| pitch_midi(p)),
                    decreases tuning@.len() - k,
                {
                    midis.push(pitch_to_midi(&tuning[k]));
                    assert(tuning@.take(k + 1) =~= tuning@.take(k as int).push(tuning@[k as int]));
                    k += 1;
                    assert(midis@ =~= tuning@.take(k as int).map_values(|p: crate::model::Pitch| pitch_midi(p)));
                }
                assert(tuning@.take(k as int) =~= tuning@);
                number_strings(&midis)
            },
            _ => Vec::new(),
        }
    }
}

/// `r` is the legacy track `idx` of the score, whose timeline's measures
/// start at `starts`.
pub open spec fn legacy_track_made(
    r: LTrack,
    t: Track,
    idx: int,
    tl_len: int,
    starts: Seq<i64>,
    m: Seq<(Seq<char>, Seq<char>)>,
    ins: Option<Instrument>,
) -> bool {
    &&& r.number == (idx + 1) as i32
    &&& r.name@ == t.name@
    &&& r.short_name@.len() == 0
    &&& r.channel_index == match ins {
        Some(i) => i.midi_channel as usize,
        None => 0,
    }
    &&& r.percussion_track == (ins matches Some(i) && i.kind is Percussion)
    &&& r.strings@ == instrument_strings(ins)
    &&& r.visible == bool_field(m, track_key(idx, "visible"@), true)
    &&& r.solo == bool_field(m, track_key(idx, "solo"@), false)
    &&& r.mute == bool_field(m, track_key(idx, "mute"@), false)
    &&& r.twelve_stringed_guitar_track == bool_field(m, track_key(idx, "twelve_stringed"@), false)
    &&& r.banjo_track == bool_field(m, track_key(idx, "banjo"@), false)
    &&& r.measures@.len() == tl_len
    &&& forall|i: int| 0 <= i < tl_len ==> legacy_measure_made(#[trigger] r.measures@[i], t, i, starts[i])
}

fn track_field_key(idx: usize, suffix: &str) -> (r: String)
    ensures
        r@ == track_key(idx as int, suffix@),
{
    proof {
        reveal_strlit("gp.track.");
        reveal_strlit(".");
    }
    let mut k = String::from_str("gp.track.");
    crate::text::push_decimal(&mut k, idx as u64);
    k.append(".");
    k.append(suffix);
    k
}

/// Every start of the first `n` measures lies between 960 and
/// 960 + i · 979200 for measure `i`.
proof fn lemma_starts_bound(tl: Seq<MeasureDef>, n: int, i: int)
    requires
        0 <= i < n <= 9_000_000_000_000,
    ensures
        960 <= measure_starts_upto(tl, n).0[i] <= 960 + i * 979200,
        measure_starts_upto(tl, n).0.len() == n,
    decreases n,
{
    crate::convert::legacy::lemma_measure_starts_bounds(tl, n);
    crate::convert::legacy::lemma_measure_starts_bounds(tl, n - 1);
    let prev = measure_starts_upto(tl, n - 1);
    assert(measure_starts_upto(tl, n).0 == prev.0.push(prev.1 as i64));
    if i < n - 1 {
        lemma_starts_bound(tl, n - 1, i);
    }
}

fn build_legacy_track(
    t: &Track,
    idx: usize,
    timeline: &[MeasureDef],
    starts: &Vec<i64>,
    misc: &[(String, String)],
    instruments: &Vec<Instrument>,
) -> (r: LTrack)
    requires
        timeline@.len() <= 9_000_000_000_000,
        starts@ == measure_starts_upto(timeline@, timeline@.len() as int).0,
        idx < i32::MAX,
    ensures
        legacy_track_made(
            r,
            *t,
            idx as int,
            timeline@.len() as int,
            starts@,
            misc_view(misc@),
            instrument_at(instruments@, t.instrument),
        ),
{
    proof {
        reveal_strlit("visible");
        reveal_strlit("solo");
        reveal_strlit("mute");
        reveal_strlit("twelve_stringed");
        reveal_strlit("banjo");
    }
    let mut measures: Vec<LMeasure> = Vec::new();
    let mut i: usize = 0;
    while i < timeline.len()
        invariant
            timeline@.len() <= 9_000_000_000_000,
            starts@ == measure_starts_upto(timeline@, timeline@.len() as int).0,
            i <= timeline@.len(),
            measures@.len() == i,
            forall|k: int| 0 <= k < i ==> legacy_measure_made(#[trigger] measures@[k], *t, k, starts@[k]),
        decreases timeline@.len() - i,
    {
        proof {
            lemma_starts_bound(timeline@, timeline@.len() as int, i as int);
            assert(i * 979200 <= 9_000_000_000_000 * 979200) by (nonlinear_arith)
                requires
                    i <= 9_000_000_000_000,
            ;
        }
        let m = build_legacy_measure(t, i, starts[i]);
        measures.push(m);
        i += 1;
    }
    let visible = misc_bool(misc, track_field_key(idx, "visible").as_str(), true);
    let solo = misc_bool(misc, track_field_key(idx, "solo").as_str(), false);
    let mute = misc_bool(misc, track_field_key(idx, "mute").as_str(), false);
    let twelve = misc_bool(misc, track_field_key(idx, "twelve_stringed").as_str(), false);
    let banjo = misc_bool(misc, track_field_key(idx, "banjo").as_str(), false);
    let (channel_index, percussion, strings) = if (t.instrument as usize) < instruments.len() {
        let ins = &instruments[t.instrument as usize];
        let perc = match ins.kind {
            InstrumentKind::Percussion => true,
            _ => false,
        };
        (ins.midi_channel as usize, perc, strings_of_instrument(ins))
    } else {
        (0, false, Vec::new())
    };
    LTrack {
        number: (idx + 1) as i32,
        name: t.name.clone(),
        short_name: String::new(),
        channel_index,
        percussion_track: percussion,
        twelve_stringed_guitar_track: twelve,
        banjo_track: banjo,
        solo,
        mute,
        visible,
        strings,
        measures,
    }
}


// ---------------------------------------------------------------------------
// Song-wide fields and lyrics
// ---------------------------------------------------------------------------

/// The digits of a signed decimal: the text without one leading sign.
pub open spec fn signed_digits(t: Seq<char>) -> Seq<char> {
    if t.len() > 0 && (t[0] == '-' || t[0] == '+') {
        t.drop_first()
    } else {
        t
    }
}

/// The triplet feel a text names: the code it spells as a signed byte,
/// 0 straight, 1 eighth, 2 sixteenth; `None` for any other text.
pub open spec fn triplet_named(t: Seq<char>) -> Option<TripletFeel> {
    let d = signed_digits(t);
    if d.len() > 0 && all_digits(d) {
        let v = digits_value(d);
        if t[0] == '-' {
            if v == 0 {
                Some(TripletFeel::Straight)
            } else {
                None
            }
        } else if v == 0 {
            Some(TripletFeel::Straight)
        } else if v == 1 {
            Some(TripletFeel::Eighth)
        } else if v == 2 {
            Some(TripletFeel::Sixteenth)
        } else {
            None
        }
    } else {
        None
    }
}

/// The triplet feel the fields carry, straight when none is readable.
pub open spec fn triplet_field(m: Seq<(Seq<char>, Seq<char>)>) -> TripletFeel {
    match first_value(m, "gp.triplet_feel"@) {
        Some(v) => match triplet_named(v) {
            Some(f) => f,
            None => TripletFeel::Straight,
        },
        None => TripletFeel::Straight,
    }
}

/// A field's unsigned number when it is at most `max`, else `default`.
pub open spec fn number_field(m: Seq<(Seq<char>, Seq<char>)>, k: Seq<char>, max: nat, default: nat) -> nat {
    match first_value(m, k) {
        Some(v) => match unsigned_value(v) {
            Some(n) => if n <= max {
                n
            } else {
                default
            },
            None => default,
        },
        None => default,
    }
}

/// The tempo name the fields carry, "Moderate" when there is none.
pub open spec fn tempo_name_field(m: Seq<(Seq<char>, Seq<char>)>) -> Seq<char> {
    match first_value(m, "gp.tempo_name"@) {
        Some(v) => v,
        None => "Moderate"@,
    }
}

/// The field name `gp.lyrics.<i><suffix>`.
pub open spec fn lyric_key(i: int, suffix: Seq<char>) -> Seq<char> {
    "gp.lyrics."@ + decimal(i as nat) + suffix
}

/// `l` is lyric line `i` as the fields give it.
pub open spec fn lyric_line_made(l: (u8, u16, String), m: Seq<(Seq<char>, Seq<char>)>, i: int) -> bool {
    &&& l.0 == i
    &&& l.1 == number_field(m, lyric_key(i, ".start"@), 65535, 0)
    &&& l.2@ == or_empty(first_value(m, lyric_key(i, ".text"@)))
}

/// `r` is the lyrics the fields give: the track choice and five lines.
pub open spec fn lyrics_made(r: Lyrics, m: Seq<(Seq<char>, Seq<char>)>) -> bool {
    &&& r.track_choice == number_field(m, "gp.lyrics.track_choice"@, 255, 0)
    &&& r.lines@.len() == 5
    &&& forall|i: int| 0 <= i < 5 ==> lyric_line_made(#[trigger] r.lines@[i], m, i)
}

fn parse_triplet(t: &str) -> (r: Option<TripletFeel>)
    ensures
        r == triplet_named(t@),
{
    let n = t.unicode_len();
    if n == 0 {
        return None;
    }
    let first = t.get_char(0);
    let neg = first == '-';
    let start: usize = if first == '-' || first == '+' {
        1
    } else {
        0
    };
    let ghost d = signed_digits(t@);
    assert(d =~= t@.subrange(start as int, n as int));
    if start == n {
        return None;
    }
    let mut v: u64 = 0;
    let mut i: usize = start;
    while i < n
        invariant
            n == t@.len(),
            start <= i <= n,
            start < n,
            d == signed_digits(t@),
            neg == (t@[0] == '-'),
            d =~= t@.subrange(start as int, n as int),
            forall|k: int| start <= k < i ==> is_digit(#[trigger] t@[k]),
            v <= 3,
            v == if digits_value(t@.subrange(start as int, i as int)) < 3 {
                digits_value(t@.subrange(start as int, i as int))
            } else {
                3
            },
        decreases n - i,
    {
        let c = t.get_char(i);
        if !('0' <= c && c <= '9') {
            assert(d[i - start] == t@[i as int]);
            assert(!all_digits(d));
            return None;
        }
        let dg = (c as u32 - '0' as u32) as u64;
        let ghost p = t@.subrange(start as int, i + 1);
        assert(p.drop_last() =~= t@.subrange(start as int, i as int));
        assert(digits_value(p) == digits_value(p.drop_last()) * 10 + dg);
        if v < 3 {
            let w = v * 10 + dg;
            v = if w < 3 {
                w
            } else {
                3
            };
        } else {
            assert(digits_value(p) >= 3) by (nonlinear_arith)
                requires
                    digits_value(p) == digits_value(p.drop_last()) * 10 + dg,
                    digits_value(p.drop_last()) >= 3,
            ;
        }
        i += 1;
    }
    assert(t@.subrange(start as int, n as int) =~= d);
    if neg {
        if v == 0 {
            Some(TripletFeel::Straight)
        } else {
            None
        }
    } else if v == 0 {
        Some(TripletFeel::Straight)
    } else if v == 1 {
        Some(TripletFeel::Eighth)
    } else if v == 2 {
        Some(TripletFeel::Sixteenth)
    } else {
        None
    }
}

fn misc_number(misc: &[(String, String)], key: &str, max: usize, default: usize) -> (r: usize)
    requires
        max <= 65535,
        default <= max,
    ensures
        r as nat == number_field(misc_view(misc@), key@, max as nat, default as nat),
        r <= max,
{
    match misc_get(misc, key) {
        Some(v) => match parse_usize(v.as_str()) {
            Some(n) => if n <= max {
                n
            } else {
                default
            },
            None => default,
        },
        None => default,
    }
}

fn recover_lyrics(misc: &[(String, String)]) -> (r: Lyrics)
    ensures
        lyrics_made(r, misc_view(misc@)),
{
    proof {
        reveal_strlit("gp.lyrics.track_choice");
        reveal_strlit("gp.lyrics.");
        reveal_strlit(".start");
        reveal_strlit(".text");
    }
    let choice = misc_number(misc, "gp.lyrics.track_choice", 255, 0) as u8;
    let mut lines: Vec<(u8, u16, String)> = Vec::new();
    let mut i: u8 = 0;
    while i < 5
        invariant
            i <= 5,
            lines@.len() == i,
            forall|k: int| 0 <= k < i ==> lyric_line_made(#[trigger] lines@[k], misc_view(misc@), k),
        decreases 5 - i,
    {
        let mut p = String::from_str("gp.lyrics.");
        push_decimal(&mut p, i as u64);
        let mut k1 = p.clone();
        k1.append(".start");
        let mut k2 = p.clone();
        k2.append(".text");
        assert(k1@ == lyric_key(i as int, ".start"@));
        assert(k2@ == lyric_key(i as int, ".text"@));
        let start = misc_number(misc, k1.as_str(), 65535, 0) as u16;
        let text = text_or_empty(misc_get(misc, k2.as_str()));
        lines.push((i, start, text));
        i += 1;
    }
    Lyrics { track_choice: choice, lines }
}

// ---------------------------------------------------------------------------
// The song
// ---------------------------------------------------------------------------

/// A tempo as a 16-bit value, saturating.
pub open spec fn clamp_i16(t: i32) -> i16 {
    if t > 32767 {
        32767i16
    } else if t < -32768 {
        -32768i16
    } else {
        t as i16
    }
}

/// The version the fields carry, (0, 0, 0) when none is readable.
pub open spec fn version_field(m: Seq<(Seq<char>, Seq<char>)>) -> (u8, u8, u8) {
    match first_value(m, "gp.version"@) {
        Some(v) => match version_named(v) {
            Some(x) => x,
            None => (0u8, 0u8, 0u8),
        },
        None => (0u8, 0u8, 0u8),
    }
}

/// `r` is the legacy song of the score `s`.
pub open spec fn song_made(r: Song, s: LoadedScore) -> bool {
    let md = s.score.metadata;
    let m = score_misc(s);
    let tl = s.score.timeline@;
    &&& r.name@ == md.title@
    &&& r.artist@ == or_empty(opt_text(md.artist))
    &&& r.album@ == or_empty(opt_text(md.album))
    &&& r.author@ == or_empty(opt_text(md.composer))
    &&& r.copyright@ == or_empty(opt_text(md.copyright))
    &&& r.tempo == clamp_i16(md.master_tempo)
    &&& r.subtitle@ == or_empty(first_value(m, "gp.subtitle"@))
    &&& r.words@ == or_empty(first_value(m, "gp.words"@))
    &&& r.writer@ == or_empty(first_value(m, "gp.writer"@))
    &&& r.instructions@ == or_empty(first_value(m, "gp.instructions"@))
    &&& r.date@ == or_empty(first_value(m, "gp.date"@))
    &&& r.transcriber@ == or_empty(first_value(m, "gp.transcriber"@))
    &&& r.comments@ == or_empty(first_value(m, "gp.comments"@))
    &&& r.version == version_field(m)
    &&& r.tempo_name@ == tempo_name_field(m)
    &&& r.hide_tempo == bool_field(m, "gp.hide_tempo"@, false)
    &&& r.triplet_feel == triplet_field(m)
    &&& lyrics_made(r.lyrics, m)
    &&& r.notice@.map_values(|x: String| x@) == notice_of(m)
    &&& r.key == legacy_key(md.key_signature)
    &&& r.measure_headers@.len() == tl.len()
    &&& forall|i: int| 0 <= i < tl.len() ==> header_made(#[trigger] r.measure_headers@[i], tl, m, i)
    &&& forall|i: int|
        0 <= i < tl.len() ==> (#[trigger] r.measure_headers@[i]).start == measure_starts_upto(tl, tl.len() as int).0[i]
    &&& r.channels@.len() == 64
    &&& forall|i: int| 0 <= i < 64 ==> #[trigger] r.channels@[i] == channel_of(s.score.instruments@, i)
    &&& r.tracks@.len() == s.score.tracks@.len()
    &&& forall|t: int|
        0 <= t < s.score.tracks@.len() ==> legacy_track_made(
            #[trigger] r.tracks@[t],
            s.score.tracks@[t],
            t,
            tl.len() as int,
            measure_starts_upto(tl, tl.len() as int).0,
            m,
            instrument_at(s.score.instruments@, s.score.tracks@[t].instrument),
        )
}

fn opt_or_empty(o: &Option<String>) -> (r: String)
    ensures
        r@ == or_empty(opt_text(*o)),
{
    match o {
        Some(v) => v.clone(),
        None => String::new(),
    }
}

/// Convert an optimized score back into a legacy song.
pub fn loaded_score_to_legacy_song(score: &LoadedScore) -> (r: Song)
    requires
        score.score.timeline@.len() <= 9_000_000_000_000,
        score.score.tracks@.len() < i32::MAX,
    ensures
        song_made(r, *score),
{
    proof {
        reveal_strlit("gp.subtitle");
        reveal_strlit("gp.words");
        reveal_strlit("gp.writer");
        reveal_strlit("gp.instructions");
        reveal_strlit("gp.date");
        reveal_strlit("gp.transcriber");
        reveal_strlit("gp.comments");
        reveal_strlit("gp.version");
        reveal_strlit("gp.tempo_name");
        reveal_strlit("gp.triplet_feel");
        reveal_strlit("Moderate");
    }
    let s = &score.score;
    let md = &s.metadata;
    let empty: Vec<(String, String)> = Vec::new();
    let misc: &[(String, String)] = match &md.identification {
        Some(id) => id.miscellaneous.as_slice(),
        None => empty.as_slice(),
    };
    assert(misc_view(misc@) == score_misc(*score)) by {
        if md.identification is None {
            assert(misc_view(misc@) =~= Seq::<(Seq<char>, Seq<char>)>::empty());
        }
    }
    let tempo: i16 = if md.master_tempo > 32767 {
        32767
    } else if md.master_tempo < -32768 {
        -32768
    } else {
        md.master_tempo as i16
    };
    let version = match misc_get(misc, "gp.version") {
        Some(v) => match parse_version(v.as_str()) {
            Some(x) => x,
            None => (0, 0, 0),
        },
        None => (0, 0, 0),
    };
    let tempo_name = match misc_get(misc, "gp.tempo_name") {
        Some(v) => v,
        None => String::from_str("Moderate"),
    };
    let triplet_feel = match misc_get(misc, "gp.triplet_feel") {
        Some(v) => match parse_triplet(v.as_str()) {
            Some(f) => f,
            None => TripletFeel::Straight,
        },
        None => TripletFeel::Straight,
    };
    let hide_tempo = misc_bool(misc, "gp.hide_tempo", false);
    let lyrics = recover_lyrics(misc);
    let starts = compute_measure_starts(s.timeline.as_slice());
    let mut tracks: Vec<LTrack> = Vec::new();
    let mut t: usize = 0;
    while t < s.tracks.len()
        invariant
            s.timeline@.len() <= 9_000_000_000_000,
            s.tracks@.len() < i32::MAX,
            starts@ == measure_starts_upto(s.timeline@, s.timeline@.len() as int).0,
            t <= s.tracks@.len(),
            tracks@.len() == t,
            forall|k: int|
                0 <= k < t ==> legacy_track_made(
                    #[trigger] tracks@[k],
                    s.tracks@[k],
                    k,
                    s.timeline@.len() as int,
                    starts@,
                    misc_view(misc@),
                    instrument_at(s.instruments@, s.tracks@[k].instrument),
                ),
        decreases s.tracks@.len() - t,
    {
        tracks.push(build_legacy_track(&s.tracks[t], t, s.timeline.as_slice(), &starts, misc, &s.instruments));
        t += 1;
    }
    Song {
        name: md.title.clone(),
        subtitle: text_or_empty(misc_get(misc, "gp.subtitle")),
        artist: opt_or_empty(&md.artist),
        album: opt_or_empty(&md.album),
        words: text_or_empty(misc_get(misc, "gp.words")),
        author: opt_or_empty(&md.composer),
        date: text_or_empty(misc_get(misc, "gp.date")),
        copyright: opt_or_empty(&md.copyright),
        writer: text_or_empty(misc_get(misc, "gp.writer")),
        instructions: text_or_empty(misc_get(misc, "gp.instructions")),
        transcriber: text_or_empty(misc_get(misc, "gp.transcriber")),
        comments: text_or_empty(misc_get(misc, "gp.comments")),
        notice: recover_notice(misc),
        key: opt_key_to_legacy_key(&md.key_signature),
        version,
        tempo,
        tempo_name,
        hide_tempo,
        triplet_feel,
        lyrics,
        tracks,
        channels: build_channels(&s.instruments),
        measure_headers: build_measure_headers(s.timeline.as_slice(), &starts, misc),
    }
}


// ---------------------------------------------------------------------------
// Round trip
// ---------------------------------------------------------------------------

proof fn lemma_fv_cat(a: Seq<(Seq<char>, Seq<char>)>, b: Seq<(Seq<char>, Seq<char>)>, k: Seq<char>)
    ensures
        first_value(a + b, k) == if first_value(a, k) is Some {
            first_value(a, k)
        } else {
            first_value(b, k)
        },
    decreases a.len(),
{
    if a.len() == 0 {
        assert(a + b =~= b);
    } else {
        assert((a + b).drop_first() =~= a.drop_first() + b);
        lemma_fv_cat(a.drop_first(), b, k);
    }
}

proof fn lemma_fv_absent(m: Seq<(Seq<char>, Seq<char>)>, k: Seq<char>)
    requires
        forall|i: int| 0 <= i < m.len() ==> (#[trigger] m[i]).0 != k,
    ensures
        first_value(m, k) is None,
    decreases m.len(),
{
    if m.len() > 0 {
        assert forall|i: int| 0 <= i < m.drop_first().len() implies (#[trigger] m.drop_first()[i]).0 != k by {
            assert(m.drop_first()[i] == m[i + 1]);
        }
        lemma_fv_absent(m.drop_first(), k);
    }
}

proof fn lemma_fv_entry(key: Seq<char>, v: Seq<char>, k: Seq<char>)
    ensures
        first_value(text_entry(key, v), k) == if v.len() > 0 && key == k {
            Some(v)
        } else {
            None
        },
{
    reveal_with_fuel(first_value, 2);
    if v.len() > 0 {
        assert(text_entry(key, v).drop_first() =~= Seq::<(Seq<char>, Seq<char>)>::empty());
    }
}

/// Every key of the entries begins with `p`.
pub open spec fn keys_start_with(m: Seq<(Seq<char>, Seq<char>)>, p: Seq<char>) -> bool {
    forall|i: int| 0 <= i < m.len() ==> (#[trigger] m[i]).0.len() >= p.len() && m[i].0.subrange(0, p.len() as int) == p
}

proof fn lemma_notice_keys(notice: Seq<String>, n: int)
    ensures
        keys_start_with(notice_entries(notice, n), "gp.notice."@),
    decreases n,
{
    reveal_strlit("gp.notice.");
    if n > 0 {
        lemma_notice_keys(notice, n - 1);
        let k = "gp.notice."@ + crate::text::decimal((n - 1) as nat);
        assert(k.subrange(0, 10) =~= "gp.notice."@);
    }
}

proof fn lemma_direction_keys(hs: Seq<MeasureHeader>, n: int)
    ensures
        keys_start_with(direction_entries(hs, n), "gp.direction."@),
    decreases n,
{
    reveal_strlit("gp.direction.");
    if n > 0 {
        lemma_direction_keys(hs, n - 1);
        let k = "gp.direction."@ + crate::text::decimal((n - 1) as nat);
        assert(k.subrange(0, 13) =~= "gp.direction."@);
    }
}

proof fn lemma_track_keys(ts: Seq<LTrack>, n: int)
    ensures
        keys_start_with(track_entries(ts, n), "gp.track."@),
    decreases n,
{
    reveal_strlit("gp.track.");
    reveal_strlit(".");
    if n > 0 {
        lemma_track_keys(ts, n - 1);
        let p = "gp.track."@ + crate::text::decimal((n - 1) as nat) + "."@;
        let f = crate::convert::optimized::song::track_fields(ts[n - 1], n - 1);
        assert forall|i: int| 0 <= i < f.len() implies (#[trigger] f[i]).0.len() >= 9 && f[i].0.subrange(0, 9) == "gp.track."@ by {
            assert(f[i].0.subrange(0, 9) =~= "gp.track."@);
        }
        let a = track_entries(ts, n - 1);
        assert forall|i: int| 0 <= i < (a + f).len() implies (#[trigger] (a + f)[i]).0.len() >= 9 && (a
            + f)[i].0.subrange(0, 9) == "gp.track."@ by {
            if i < a.len() {
                assert((a + f)[i] == a[i]);
            } else {
                assert((a + f)[i] == f[i - a.len()]);
            }
        }
    }
}

/// A key that differs from `p` at a position before `p`'s end is not a key
/// of entries that all begin with `p`.
proof fn lemma_prefix_excludes(m: Seq<(Seq<char>, Seq<char>)>, p: Seq<char>, k: Seq<char>, at: int)
    requires
        keys_start_with(m, p),
        0 <= at < p.len(),
        at < k.len(),
        k[at] != p[at],
    ensures
        first_value(m, k) is None,
{
    assert forall|i: int| 0 <= i < m.len() implies (#[trigger] m[i]).0 != k by {
        assert(m[i].0.subrange(0, p.len() as int)[at] == m[i].0[at]);
    }
    lemma_fv_absent(m, k);
}

proof fn lemma_lyric_lines_keys(lines: Seq<(u8, u16, String)>, n: int)
    ensures
        keys_start_with(lyric_lines_entries(lines, n), "gp.lyrics."@),
    decreases n,
{
    reveal_strlit("gp.lyrics.");
    if n > 0 {
        lemma_lyric_lines_keys(lines, n - 1);
        let a = lyric_lines_entries(lines, n - 1);
        let f = lyric_line_entries(lines[n - 1]);
        let p = "gp.lyrics."@ + decimal(lines[n - 1].0 as nat);
        assert forall|i: int| 0 <= i < f.len() implies (#[trigger] f[i]).0.len() >= 10 && f[i].0.subrange(0, 10)
            == "gp.lyrics."@ by {
            assert(f[i].0.subrange(0, 10) =~= "gp.lyrics."@);
        }
        assert forall|i: int| 0 <= i < (a + f).len() implies (#[trigger] (a + f)[i]).0.len() >= 10 && (a
            + f)[i].0.subrange(0, 10) == "gp.lyrics."@ by {
            if i < a.len() {
                assert((a + f)[i] == a[i]);
            } else {
                assert((a + f)[i] == f[i - a.len()]);
            }
        }
    }
}

proof fn lemma_lyric_keys(ly: Lyrics)
    ensures
        keys_start_with(lyric_entries(ly), "gp.lyrics."@),
{
    reveal_strlit("gp.lyrics.");
    reveal_strlit("gp.lyrics.track_choice");
    lemma_lyric_lines_keys(ly.lines@, ly.lines@.len() as int);
    let h = seq![("gp.lyrics.track_choice"@, decimal(ly.track_choice as nat))];
    let rest = lyric_lines_entries(ly.lines@, ly.lines@.len() as int);
    assert(("gp.lyrics.track_choice"@).subrange(0, 10) =~= "gp.lyrics."@);
    assert forall|i: int| 0 <= i < (h + rest).len() implies (#[trigger] (h + rest)[i]).0.len() >= 10 && (h
        + rest)[i].0.subrange(0, 10) == "gp.lyrics."@ by {
        if i < 1 {
            assert((h + rest)[i] == h[0]);
        } else {
            assert((h + rest)[i] == rest[i - 1]);
        }
    }
}

/// Looking a key up among the song-wide fields.
proof fn lemma_song_fields_lookup(song: Song, k: Seq<char>)
    ensures
        first_value(song_fields(song), k) == if k == "gp.triplet_feel"@ {
            Some(decimal(triplet_code(song.triplet_feel)))
        } else if k == "gp.tempo_name"@ {
            Some(song.tempo_name@)
        } else if k == "gp.version"@ {
            Some(version_text(song.version))
        } else if k == "gp.hide_tempo"@ {
            Some(bool_text(song.hide_tempo))
        } else {
            None
        },
{
    reveal_strlit("gp.triplet_feel");
    reveal_strlit("gp.tempo_name");
    reveal_strlit("gp.version");
    reveal_strlit("gp.hide_tempo");
    let g = song_fields(song);
    assert(g.drop_first() =~= seq![g[1], g[2], g[3]]);
    assert(g.drop_first().drop_first() =~= seq![g[2], g[3]]);
    assert(g.drop_first().drop_first().drop_first() =~= seq![g[3]]);
    assert(g.drop_first().drop_first().drop_first().drop_first() =~= Seq::<(Seq<char>, Seq<char>)>::empty());
    assert(("gp.tempo_name"@)[3] != ("gp.hide_tempo"@)[3]);
    assert(("gp.tempo_name"@).len() != ("gp.triplet_feel"@).len());
    assert(("gp.version"@).len() != ("gp.triplet_feel"@).len());
    assert(("gp.version"@).len() != ("gp.tempo_name"@).len());
    assert(("gp.hide_tempo"@).len() != ("gp.triplet_feel"@).len());
    assert(("gp.hide_tempo"@).len() != ("gp.version"@).len());
    reveal_with_fuel(first_value, 5);
}

/// The song-wide fields and the lyrics' track choice are found where the
/// song put them.
proof fn lemma_song_field_carried(song: Song, k: Seq<char>)
    requires
        k == "gp.triplet_feel"@ || k == "gp.tempo_name"@ || k == "gp.hide_tempo"@ || k
            == "gp.lyrics.track_choice"@,
    ensures
        first_value(misc_of(song), k) == first_value(song_fields(song) + lyric_entries(song.lyrics), k),
        first_value(song_fields(song) + lyric_entries(song.lyrics), k) is Some,
{
    reveal_strlit("gp.subtitle");
    reveal_strlit("gp.words");
    reveal_strlit("gp.writer");
    reveal_strlit("gp.instructions");
    reveal_strlit("gp.date");
    reveal_strlit("gp.transcriber");
    reveal_strlit("gp.comments");
    reveal_strlit("gp.notice.");
    reveal_strlit("gp.triplet_feel");
    reveal_strlit("gp.tempo_name");
    reveal_strlit("gp.hide_tempo");
    reveal_strlit("gp.lyrics.track_choice");
    let t1 = text_entry("gp.subtitle"@, song.subtitle@);
    let t2 = text_entry("gp.words"@, song.words@);
    let t3 = text_entry("gp.writer"@, song.writer@);
    let t4 = text_entry("gp.instructions"@, song.instructions@);
    let t5 = text_entry("gp.date"@, song.date@);
    let t6 = text_entry("gp.transcriber"@, song.transcriber@);
    let t7 = text_entry("gp.comments"@, song.comments@);
    let n = notice_entries(song.notice@, song.notice@.len() as int);
    let g = song_fields(song);
    let ly = lyric_entries(song.lyrics);
    let d = direction_entries(song.measure_headers@, song.measure_headers@.len() as int);
    let tr = track_entries(song.tracks@, song.tracks@.len() as int);
    assert(("gp.transcriber"@)[5] != ("gp.triplet_feel"@)[5]);
    assert(("gp.transcriber"@)[4] != ("gp.tempo_name"@)[4]);
    assert(("gp.instructions"@)[3] != ("gp.triplet_feel"@)[3]);
    lemma_fv_entry("gp.subtitle"@, song.subtitle@, k);
    lemma_fv_entry("gp.words"@, song.words@, k);
    lemma_fv_entry("gp.writer"@, song.writer@, k);
    lemma_fv_entry("gp.instructions"@, song.instructions@, k);
    lemma_fv_entry("gp.date"@, song.date@, k);
    lemma_fv_entry("gp.transcriber"@, song.transcriber@, k);
    lemma_fv_entry("gp.comments"@, song.comments@, k);
    lemma_notice_keys(song.notice@, song.notice@.len() as int);
    lemma_prefix_excludes(n, "gp.notice."@, k, 3);
    lemma_song_fields_lookup(song, k);
    if k == "gp.lyrics.track_choice"@ {
        reveal_with_fuel(first_value, 2);
        assert(ly[0].0 == k);
    }
    lemma_fv_cat(g, ly, k);
    lemma_fv_cat(t1, t2, k);
    lemma_fv_cat(t1 + t2, t3, k);
    lemma_fv_cat(t1 + t2 + t3, t4, k);
    lemma_fv_cat(t1 + t2 + t3 + t4, t5, k);
    lemma_fv_cat(t1 + t2 + t3 + t4 + t5, t6, k);
    lemma_fv_cat(t1 + t2 + t3 + t4 + t5 + t6, t7, k);
    lemma_fv_cat(t1 + t2 + t3 + t4 + t5 + t6 + t7, n, k);
    lemma_fv_cat(t1 + t2 + t3 + t4 + t5 + t6 + t7 + n, g, k);
    lemma_fv_cat(t1 + t2 + t3 + t4 + t5 + t6 + t7 + n + g, ly, k);
    lemma_fv_cat(t1 + t2 + t3 + t4 + t5 + t6 + t7 + n + g + ly, d, k);
    lemma_fv_cat(t1 + t2 + t3 + t4 + t5 + t6 + t7 + n + g + ly + d, tr, k);
}

/// The tempo name, the hidden-tempo flag, the triplet feel and the
/// lyrics' track choice read back from the fields the song wrote.
proof fn lemma_song_fields_read_back(song: Song)
    ensures
        tempo_name_field(misc_of(song)) == song.tempo_name@,
        bool_field(misc_of(song), "gp.hide_tempo"@, false) == song.hide_tempo,
        triplet_field(misc_of(song)) == song.triplet_feel,
        number_field(misc_of(song), "gp.lyrics.track_choice"@, 255, 0) == song.lyrics.track_choice,
{
    reveal_strlit("gp.triplet_feel");
    reveal_strlit("gp.tempo_name");
    reveal_strlit("gp.hide_tempo");
    reveal_strlit("gp.lyrics.track_choice");
    reveal_strlit("true");
    reveal_strlit("false");
    let g = song_fields(song);
    let ly = lyric_entries(song.lyrics);
    lemma_song_field_carried(song, "gp.triplet_feel"@);
    lemma_song_field_carried(song, "gp.tempo_name"@);
    lemma_song_field_carried(song, "gp.hide_tempo"@);
    lemma_song_field_carried(song, "gp.lyrics.track_choice"@);
    lemma_song_fields_lookup(song, "gp.triplet_feel"@);
    lemma_song_fields_lookup(song, "gp.tempo_name"@);
    lemma_song_fields_lookup(song, "gp.hide_tempo"@);
    lemma_song_fields_lookup(song, "gp.lyrics.track_choice"@);
    lemma_fv_cat(g, ly, "gp.triplet_feel"@);
    lemma_fv_cat(g, ly, "gp.tempo_name"@);
    lemma_fv_cat(g, ly, "gp.hide_tempo"@);
    lemma_fv_cat(g, ly, "gp.lyrics.track_choice"@);
    assert(("true"@).len() != ("false"@).len());
    assert(("gp.tempo_name"@).len() != ("gp.triplet_feel"@).len());
    assert(("gp.hide_tempo"@).len() != ("gp.triplet_feel"@).len());
    assert(("gp.tempo_name"@)[3] != ("gp.hide_tempo"@)[3]);
    assert(("gp.hide_tempo"@).len() != ("gp.version"@).len()) by {
        reveal_strlit("gp.version");
    }
    assert(("gp.tempo_name"@).len() != ("gp.version"@).len()) by {
        reveal_strlit("gp.version");
    }
    reveal_strlit("gp.version");
    assert(("gp.lyrics.track_choice"@).len() == 22);
    reveal_with_fuel(first_value, 2);
    assert(first_value(g, "gp.lyrics.track_choice"@) is None);
    assert(first_value(ly, "gp.lyrics.track_choice"@) == Some(decimal(song.lyrics.track_choice as nat)));
    lemma_decimal_reads_back(song.lyrics.track_choice as nat);
    let c = triplet_code(song.triplet_feel);
    lemma_decimal_reads_back(c);
    let dc = decimal(c);
    assert(is_digit(dc[0]));
    assert(signed_digits(dc) == dc);
    assert(crate::text::unsigned_digits(dc) == dc);
}

/// The text field of the song that the key `k` names.
pub open spec fn text_field(song: Song, k: Seq<char>) -> Seq<char> {
    if k == "gp.subtitle"@ {
        song.subtitle@
    } else if k == "gp.words"@ {
        song.words@
    } else if k == "gp.writer"@ {
        song.writer@
    } else if k == "gp.instructions"@ {
        song.instructions@
    } else if k == "gp.date"@ {
        song.date@
    } else if k == "gp.transcriber"@ {
        song.transcriber@
    } else {
        song.comments@
    }
}

proof fn lemma_text_field_carried(song: Song, k: Seq<char>)
    requires
        k == "gp.subtitle"@ || k == "gp.words"@ || k == "gp.writer"@ || k == "gp.instructions"@ || k
            == "gp.date"@ || k == "gp.transcriber"@ || k == "gp.comments"@,
    ensures
        first_value(misc_of(song), k) == non_empty_text(text_field(song, k)),
{
    reveal_strlit("gp.subtitle");
    reveal_strlit("gp.words");
    reveal_strlit("gp.writer");
    reveal_strlit("gp.instructions");
    reveal_strlit("gp.date");
    reveal_strlit("gp.transcriber");
    reveal_strlit("gp.comments");
    reveal_strlit("gp.notice.");
    reveal_strlit("gp.version");
    reveal_strlit("gp.direction.");
    reveal_strlit("gp.track.");
    let t1 = text_entry("gp.subtitle"@, song.subtitle@);
    let t2 = text_entry("gp.words"@, song.words@);
    let t3 = text_entry("gp.writer"@, song.writer@);
    let t4 = text_entry("gp.instructions"@, song.instructions@);
    let t5 = text_entry("gp.date"@, song.date@);
    let t6 = text_entry("gp.transcriber"@, song.transcriber@);
    let t7 = text_entry("gp.comments"@, song.comments@);
    let n = notice_entries(song.notice@, song.notice@.len() as int);
    let g = song_fields(song);
    let ly = lyric_entries(song.lyrics);
    let d = direction_entries(song.measure_headers@, song.measure_headers@.len() as int);
    let tr = track_entries(song.tracks@, song.tracks@.len() as int);
    lemma_fv_entry("gp.subtitle"@, song.subtitle@, k);
    lemma_fv_entry("gp.words"@, song.words@, k);
    lemma_fv_entry("gp.writer"@, song.writer@, k);
    lemma_fv_entry("gp.instructions"@, song.instructions@, k);
    lemma_fv_entry("gp.date"@, song.date@, k);
    lemma_fv_entry("gp.transcriber"@, song.transcriber@, k);
    lemma_fv_entry("gp.comments"@, song.comments@, k);
    lemma_notice_keys(song.notice@, song.notice@.len() as int);
    lemma_direction_keys(song.measure_headers@, song.measure_headers@.len() as int);
    lemma_track_keys(song.tracks@, song.tracks@.len() as int);
    lemma_prefix_excludes(n, "gp.notice."@, k, 3);
    if k == "gp.date"@ {
        lemma_prefix_excludes(d, "gp.direction."@, k, 4);
    } else {
        lemma_prefix_excludes(d, "gp.direction."@, k, 3);
    }
    if k == "gp.transcriber"@ {
        lemma_prefix_excludes(tr, "gp.track."@, k, 6);
    } else {
        lemma_prefix_excludes(tr, "gp.track."@, k, 3);
    }
    reveal_strlit("gp.lyrics.");
    reveal_strlit("gp.triplet_feel");
    reveal_strlit("gp.tempo_name");
    reveal_strlit("gp.hide_tempo");
    lemma_song_fields_lookup(song, k);
    assert(("gp.instructions"@)[3] != ("gp.triplet_feel"@)[3]);
    assert(("gp.tempo_name"@).len() == 13 && ("gp.hide_tempo"@).len() == 13 && ("gp.version"@).len() == 10);
    assert(first_value(g, k) is None);
    lemma_lyric_keys(song.lyrics);
    lemma_prefix_excludes(ly, "gp.lyrics."@, k, 3);
    lemma_fv_cat(t1, t2, k);
    lemma_fv_cat(t1 + t2, t3, k);
    lemma_fv_cat(t1 + t2 + t3, t4, k);
    lemma_fv_cat(t1 + t2 + t3 + t4, t5, k);
    lemma_fv_cat(t1 + t2 + t3 + t4 + t5, t6, k);
    lemma_fv_cat(t1 + t2 + t3 + t4 + t5 + t6, t7, k);
    lemma_fv_cat(t1 + t2 + t3 + t4 + t5 + t6 + t7, n, k);
    lemma_fv_cat(t1 + t2 + t3 + t4 + t5 + t6 + t7 + n, g, k);
    lemma_fv_cat(t1 + t2 + t3 + t4 + t5 + t6 + t7 + n + g, ly, k);
    lemma_fv_cat(t1 + t2 + t3 + t4 + t5 + t6 + t7 + n + g + ly, d, k);
    lemma_fv_cat(t1 + t2 + t3 + t4 + t5 + t6 + t7 + n + g + ly + d, tr, k);
}

/// Converting a legacy song to the optimized score and back keeps its
/// title, credits and other texts, its notice lines and version, its tempo
/// name, hidden-tempo flag, triplet feel and lyrics track, the number of
/// measures, and the number and names of its tracks.
pub proof fn lemma_legacy_round_trip(song: Song, score: LoadedScore, back: Song)
    requires
        loaded_made(score, song),
        song_made(back, score),
        song.notice@.len() <= usize::MAX,
    ensures
        back.notice@.map_values(|x: String| x@) == song.notice@.map_values(|x: String| x@),
        back.version == song.version,
        back.tempo_name@ == song.tempo_name@,
        back.hide_tempo == song.hide_tempo,
        back.triplet_feel == song.triplet_feel,
        back.lyrics.track_choice == song.lyrics.track_choice,
        back.name@ == song.name@,
        back.artist@ == song.artist@,
        back.album@ == song.album@,
        back.author@ == song.author@,
        back.copyright@ == song.copyright@,
        back.subtitle@ == song.subtitle@,
        back.words@ == song.words@,
        back.writer@ == song.writer@,
        back.instructions@ == song.instructions@,
        back.date@ == song.date@,
        back.transcriber@ == song.transcriber@,
        back.comments@ == song.comments@,
        back.measure_headers@.len() == song.measure_headers@.len(),
        back.tracks@.len() == song.tracks@.len(),
        forall|t: int| 0 <= t < song.tracks@.len() ==> (#[trigger] back.tracks@[t]).name@ == song.tracks@[t].name@,
{
    reveal_strlit("gp.subtitle");
    reveal_strlit("gp.words");
    reveal_strlit("gp.writer");
    reveal_strlit("gp.instructions");
    reveal_strlit("gp.date");
    reveal_strlit("gp.transcriber");
    reveal_strlit("gp.comments");
    assert(score_misc(score) == misc_of(song));
    lemma_notice_and_version_round_trip(song);
    lemma_song_fields_read_back(song);
    lemma_text_field_carried(song, "gp.subtitle"@);
    lemma_text_field_carried(song, "gp.words"@);
    lemma_text_field_carried(song, "gp.writer"@);
    lemma_text_field_carried(song, "gp.instructions"@);
    lemma_text_field_carried(song, "gp.date"@);
    lemma_text_field_carried(song, "gp.transcriber"@);
    lemma_text_field_carried(song, "gp.comments"@);
    assert(("gp.words"@).len() == 8 && ("gp.subtitle"@).len() == 11 && ("gp.writer"@).len() == 9);
    assert(("gp.instructions"@).len() == 15 && ("gp.date"@).len() == 7 && ("gp.transcriber"@).len() == 14);
    assert(("gp.comments"@).len() == 11 && ("gp.comments"@)[3] != ("gp.subtitle"@)[3]);
    assert(text_field(song, "gp.words"@) == song.words@);
    assert(text_field(song, "gp.writer"@) == song.writer@);
    assert(text_field(song, "gp.instructions"@) == song.instructions@);
    assert(text_field(song, "gp.date"@) == song.date@);
    assert(text_field(song, "gp.transcriber"@) == song.transcriber@);
    assert(text_field(song, "gp.comments"@) == song.comments@);
    assert forall|t: int| 0 <= t < song.tracks@.len() implies (#[trigger] back.tracks@[t]).name@
        == song.tracks@[t].name@ by {
        assert(crate::convert::optimized::song::track_made(
            score.score.tracks@[t],
            song.tracks@[t],
            song.measure_headers@.len() as int,
        ));
    }
}


/// The slides that are not "no slide", in order.
pub open spec fn real_slides(ss: Seq<SlideType>) -> Seq<SlideType>
    decreases ss.len(),
{
    if ss.len() == 0 {
        Seq::empty()
    } else {
        real_slides(ss.drop_last()) + if ss.last() == SlideType::NoSlide {
            Seq::<SlideType>::empty()
        } else {
            seq![ss.last()]
        }
    }
}

proof fn lemma_slides_of_cat(a: Seq<Technique>, b: Seq<Technique>)
    ensures
        slides_of(a + b) == slides_of(a) + slides_of(b),
    decreases b.len(),
{
    if b.len() == 0 {
        assert(a + b =~= a);
        assert(slides_of(a) + slides_of(b) =~= slides_of(a));
    } else {
        lemma_slides_of_cat(a, b.drop_last());
        assert((a + b).drop_last() =~= a + b.drop_last());
        assert((a + b).last() == b.last());
        assert(slides_of(a + b) =~= slides_of(a) + slides_of(b));
    }
}

proof fn lemma_has_technique_cat(a: Seq<Technique>, b: Seq<Technique>, k: TechniqueKind)
    ensures
        has_technique(a + b, k) == (has_technique(a, k) || has_technique(b, k)),
{
    if has_technique(a, k) {
        let j = choose|j: int| 0 <= j < a.len() && #[trigger] a[j].kind == k;
        assert((a + b)[j].kind == k);
    }
    if has_technique(b, k) {
        let j = choose|j: int| 0 <= j < b.len() && #[trigger] b[j].kind == k;
        assert((a + b)[a.len() + j].kind == k);
    }
    if has_technique(a + b, k) {
        let j = choose|j: int| 0 <= j < (a + b).len() && #[trigger] (a + b)[j].kind == k;
        if j < a.len() {
            assert(a[j].kind == k);
        } else {
            assert(b[j - a.len()].kind == k);
        }
    }
}

/// The slide techniques are slides, and read back as the slides that are
/// not "no slide".
proof fn lemma_slide_techniques(ss: Seq<SlideType>)
    ensures
        forall|i: int|
            0 <= i < slide_techniques(ss).len() ==> technique_slide(#[trigger] slide_techniques(ss)[i].kind) is Some,
        slides_of(slide_techniques(ss)) == real_slides(ss),
    decreases ss.len(),
{
    if ss.len() > 0 {
        lemma_slide_techniques(ss.drop_last());
        let a = slide_techniques(ss.drop_last());
        let b = match slide_technique(ss.last()) {
            Some(k) => seq![plain_technique(k)],
            None => Seq::<Technique>::empty(),
        };
        lemma_slides_of_cat(a, b);
        assert forall|i: int| 0 <= i < (a + b).len() implies technique_slide(#[trigger] (a + b)[i].kind) is Some by {
            if i < a.len() {
                assert((a + b)[i] == a[i]);
            } else {
                assert((a + b)[i] == b[i - a.len()]);
            }
        }
        lemma_slide_inverse(ss.last());
        if b.len() == 1 {
            assert(b.drop_last() =~= Seq::<Technique>::empty());
            assert(slides_of(b.drop_last()) =~= Seq::<SlideType>::empty());
            assert(slides_of(b) =~= seq![ss.last()]);
        } else {
            assert(slides_of(b) =~= Seq::<SlideType>::empty());
        }
    }
}

proof fn lemma_slide_inverse(sl: SlideType)
    ensures
        sl == SlideType::NoSlide <==> slide_technique(sl) is None,
        slide_technique(sl) is Some ==> technique_slide(slide_technique(sl)->0) == Some(sl),
{
}

/// Techniques that are not slides carry no slide.
proof fn lemma_no_slides(ts: Seq<Technique>)
    requires
        forall|i: int| 0 <= i < ts.len() ==> technique_slide(#[trigger] ts[i].kind) is None,
    ensures
        slides_of(ts) == Seq::<SlideType>::empty(),
    decreases ts.len(),
{
    if ts.len() > 0 {
        lemma_no_slides(ts.drop_last());
        assert(technique_slide(ts[ts.len() - 1].kind) is None);
    }
}

proof fn lemma_articulations_read(e: NoteEffect)
    ensures
        articulations_of(e).contains(Articulation::Staccato) == e.staccato,
        articulations_of(e).contains(Articulation::Accent) == e.accentuated_note,
        articulations_of(e).contains(Articulation::Marcato) == e.heavy_accentuated_note,
{
    // Articulations.
    let arts = articulations_of(e);
    let a1 = if e.staccato { seq![Articulation::Staccato] } else { Seq::<Articulation>::empty() };
    let a2 = if e.accentuated_note { seq![Articulation::Accent] } else { Seq::<Articulation>::empty() };
    let a3 = if e.heavy_accentuated_note { seq![Articulation::Marcato] } else { Seq::<Articulation>::empty() };
    assert(arts == a1 + a2 + a3);
    assert forall|x: Articulation| arts.contains(x) == (a1.contains(x) || a2.contains(x) || a3.contains(x)) by {
        if arts.contains(x) {
            let j = choose|j: int| 0 <= j < arts.len() && arts[j] == x;
            if j < a1.len() {
                assert(a1[j] == x);
            } else if j < a1.len() + a2.len() {
                assert(a2[j - a1.len()] == x);
            } else {
                assert(a3[j - a1.len() - a2.len()] == x);
            }
        }
        if a1.contains(x) {
            assert(arts[0] == x);
        }
        if a2.contains(x) {
            assert(arts[a1.len() as int] == x);
        }
        if a3.contains(x) {
            assert(arts[(a1.len() + a2.len()) as int] == x);
        }
    }
    assert forall|x: Articulation| a1.contains(x) <==> (e.staccato && x == Articulation::Staccato) by {
        if e.staccato {
            assert(a1[0] == Articulation::Staccato);
        }
    }
    assert forall|x: Articulation| a2.contains(x) <==> (e.accentuated_note && x == Articulation::Accent) by {
        if e.accentuated_note {
            assert(a2[0] == Articulation::Accent);
        }
    }
    assert forall|x: Articulation| a3.contains(x) <==> (e.heavy_accentuated_note && x == Articulation::Marcato) by {
        if e.heavy_accentuated_note {
            assert(a3[0] == Articulation::Marcato);
        }
    }
}

#[verifier::rlimit(40)]
proof fn lemma_techniques_read(e: NoteEffect)
    ensures
        has_technique(techniques_of(e), TechniqueKind::HammerOn) == e.hammer,
        !has_technique(techniques_of(e), TechniqueKind::PullOff),
        has_technique(techniques_of(e), TechniqueKind::LetRing) == e.let_ring,
        has_technique(techniques_of(e), TechniqueKind::Vibrato) == e.vibrato,
        has_technique(techniques_of(e), TechniqueKind::HalfMuted) == e.palm_mute,
        slides_of(techniques_of(e)) == real_slides(e.slides@),
{
    // Techniques.
    let f1 = if e.hammer { seq![plain_technique(TechniqueKind::HammerOn)] } else { Seq::<Technique>::empty() };
    let f2 = if e.let_ring { seq![plain_technique(TechniqueKind::LetRing)] } else { Seq::<Technique>::empty() };
    let f3 = if e.vibrato { seq![plain_technique(TechniqueKind::Vibrato)] } else { Seq::<Technique>::empty() };
    let f4 = if e.palm_mute { seq![plain_technique(TechniqueKind::HalfMuted)] } else { Seq::<Technique>::empty() };
    let sl = slide_techniques(e.slides@);
    let bd = if e.bend is Some { seq![plain_technique(TechniqueKind::Bend)] } else { Seq::<Technique>::empty() };
    let hm = match e.harmonic {
        Some(h) => seq![
            Technique {
                kind: TechniqueKind::Harmonic,
                params: TechniqueParams::Harmonic { natural: h == HarmonicType::Natural },
            },
        ],
        None => Seq::<Technique>::empty(),
    };
    let ts = techniques_of(e);
    assert(ts == f1 + f2 + f3 + f4 + sl + bd + hm);
    lemma_slide_techniques(e.slides@);
    lemma_no_slides(f1);
    lemma_no_slides(f2);
    lemma_no_slides(f3);
    lemma_no_slides(f4);
    lemma_no_slides(bd);
    lemma_no_slides(hm);
    lemma_slides_of_cat(f1, f2);
    lemma_slides_of_cat(f1 + f2, f3);
    lemma_slides_of_cat(f1 + f2 + f3, f4);
    lemma_slides_of_cat(f1 + f2 + f3 + f4, sl);
    lemma_slides_of_cat(f1 + f2 + f3 + f4 + sl, bd);
    lemma_slides_of_cat(f1 + f2 + f3 + f4 + sl + bd, hm);
    assert(slides_of(ts) =~= real_slides(e.slides@));
    assert forall|k: TechniqueKind| technique_slide(k) is None implies has_technique(ts, k) == (has_technique(
        f1,
        k,
    ) || has_technique(f2, k) || has_technique(f3, k) || has_technique(f4, k) || has_technique(bd, k)
        || has_technique(hm, k)) by {
        lemma_has_technique_cat(f1, f2, k);
        lemma_has_technique_cat(f1 + f2, f3, k);
        lemma_has_technique_cat(f1 + f2 + f3, f4, k);
        lemma_has_technique_cat(f1 + f2 + f3 + f4, sl, k);
        lemma_has_technique_cat(f1 + f2 + f3 + f4 + sl, bd, k);
        lemma_has_technique_cat(f1 + f2 + f3 + f4 + sl + bd, hm, k);
        if has_technique(sl, k) {
            let j = choose|j: int| 0 <= j < sl.len() && #[trigger] sl[j].kind == k;
        }
    }
    assert(technique_slide(TechniqueKind::HammerOn) is None);
    assert(has_technique(ts, TechniqueKind::HammerOn) == e.hammer) by {
        if e.hammer {
            assert(f1[0].kind == TechniqueKind::HammerOn);
        }
    }
    assert(!has_technique(ts, TechniqueKind::PullOff));
    assert(has_technique(ts, TechniqueKind::LetRing) == e.let_ring) by {
        if e.let_ring {
            assert(f2[0].kind == TechniqueKind::LetRing);
        }
    }
    assert(has_technique(ts, TechniqueKind::Vibrato) == e.vibrato) by {
        if e.vibrato {
            assert(f3[0].kind == TechniqueKind::Vibrato);
        }
    }
    assert(has_technique(ts, TechniqueKind::HalfMuted) == e.palm_mute) by {
        if e.palm_mute {
            assert(f4[0].kind == TechniqueKind::HalfMuted);
        }
    }
}

/// A legacy note of any kind with a fret of at most 255 comes back from the
/// optimized model with its fret, string, kind, velocity and accidental
/// swap, its staccato, accent, heavy accent, hammer-on, let ring, vibrato,
/// palm mute and ghost flags, its slides (less any "no slide"), its bend
/// curve and its harmonic kind.
pub proof fn lemma_note_round_trip(n: LNote, strings: Seq<(i8, i8)>, velocity: i16, r: Note, back: LNote)
    requires
        note_made(r, n, strings),
        legacy_note_made(back, r, velocity),
        0 <= n.value <= 255,
    ensures
        back.value == n.value,
        back.string == n.string,
        back.kind == n.kind,
        back.velocity == n.velocity,
        back.swap_accidentals == n.swap_accidentals,
        back.effect.staccato == n.effect.staccato,
        back.effect.accentuated_note == n.effect.accentuated_note,
        back.effect.heavy_accentuated_note == n.effect.heavy_accentuated_note,
        back.effect.hammer == n.effect.hammer,
        back.effect.let_ring == n.effect.let_ring,
        back.effect.vibrato == n.effect.vibrato,
        back.effect.palm_mute == n.effect.palm_mute,
        back.effect.ghost_note == n.effect.ghost_note,
        back.effect.slides@ == real_slides(n.effect.slides@),
        back.effect.harmonic == n.effect.harmonic,
        back.effect.bend is Some == n.effect.bend is Some,
        n.effect.bend is Some ==> back.effect.bend->0.points@ == n.effect.bend->0.points@,
{
    let s = n.string;
    let v = n.value;
    assert((s as u8) as i8 == s) by (bit_vector);
    assert(0 <= v <= 255 ==> (v as u8) as i16 == v) by (bit_vector);
    let e = n.effect;
    lemma_articulations_read(e);
    lemma_techniques_read(e);
    // Bend and harmonic.
    match e.bend {
        Some(b) => {
            let pts = b.points@.map_values(|p: BendPoint| bend_point(p)).map_values(
                |p: GpBendPoint| legacy_bend_point(p),
            );
            assert(pts =~= b.points@);
        },
        None => {},
    }
}


/// A version written as text reads back as the same version.
proof fn lemma_version_reads_back(v: (u8, u8, u8))
    ensures
        version_named(version_text(v)) == Some(v),
{
    reveal_strlit(".");
    let da = decimal(v.0 as nat);
    let db = decimal(v.1 as nat);
    let dc = decimal(v.2 as nat);
    lemma_decimal_reads_back(v.0 as nat);
    lemma_decimal_reads_back(v.1 as nat);
    lemma_decimal_reads_back(v.2 as nat);
    let t = version_text(v);
    let i = da.len() as int;
    let j = i + 1 + db.len();
    assert(t =~= da + "."@ + db + "."@ + dc);
    assert(t.subrange(0, i) =~= da);
    assert(t.subrange(i + 1, j) =~= db);
    assert(t.subrange(j + 1, t.len() as int) =~= dc);
    assert forall|k: int| 0 <= k < t.len() && k != i && k != j implies #[trigger] t[k] != '.' by {
        if k < i {
            assert(t[k] == da[k]);
            assert(is_digit(da[k]));
        } else if k < j {
            assert(t[k] == db[k - i - 1]);
            assert(is_digit(db[k - i - 1]));
        } else {
            assert(t[k] == dc[k - j - 1]);
            assert(is_digit(dc[k - j - 1]));
        }
    }
    assert(t[i] == '.' && t[j] == '.');
    assert(version_parts(t, i, j) == Some(v));
    let (i2, j2) = choose|i2: int, j2: int|
        0 <= i2 < j2 < t.len() && t[i2] == '.' && t[j2] == '.' && version_parts(t, i2, j2) is Some;
    assert(i2 == i || i2 == j);
    assert(j2 == i || j2 == j);
}

proof fn lemma_notice_items_cat(a: Seq<(Seq<char>, Seq<char>)>, b: Seq<(Seq<char>, Seq<char>)>, n: int)
    requires
        0 <= n <= b.len(),
    ensures
        notice_items(a + b, a.len() + n) == notice_items(a, a.len() as int) + notice_items(b, n),
    decreases n,
{
    if n == 0 {
        assert forall|k: int| 0 <= k <= a.len() implies notice_items(a + b, k) == notice_items(a, k) by {
            lemma_notice_items_prefix(a, b, k);
        }
        assert(notice_items(b, 0) =~= Seq::<(nat, Seq<char>)>::empty());
        assert(notice_items(a, a.len() as int) + notice_items(b, 0) =~= notice_items(a, a.len() as int));
    } else {
        lemma_notice_items_cat(a, b, n - 1);
        assert((a + b)[a.len() + n - 1] == b[n - 1]);
        match notice_index(b[n - 1].0) {
            Some(x) => {
                assert(notice_items(a, a.len() as int) + notice_items(b, n) =~= (notice_items(a, a.len() as int)
                    + notice_items(b, n - 1)).push((x, b[n - 1].1)));
            },
            None => {},
        }
    }
}

proof fn lemma_notice_items_prefix(a: Seq<(Seq<char>, Seq<char>)>, b: Seq<(Seq<char>, Seq<char>)>, k: int)
    requires
        0 <= k <= a.len(),
    ensures
        notice_items(a + b, k) == notice_items(a, k),
    decreases k,
{
    if k > 0 {
        lemma_notice_items_prefix(a, b, k - 1);
        assert((a + b)[k - 1] == a[k - 1]);
    }
}

/// Entries none of whose keys is a notice field's carry no notice line.
proof fn lemma_no_notice_items(m: Seq<(Seq<char>, Seq<char>)>, n: int)
    requires
        0 <= n <= m.len(),
        forall|i: int| 0 <= i < m.len() ==> notice_index(#[trigger] m[i].0) is None,
    ensures
        notice_items(m, n) == Seq::<(nat, Seq<char>)>::empty(),
    decreases n,
{
    if n > 0 {
        lemma_no_notice_items(m, n - 1);
    }
}

/// Keys that begin with `p`, which differs from `gp.notice.` at `at`, are
/// not notice fields.
proof fn lemma_prefix_not_notice(m: Seq<(Seq<char>, Seq<char>)>, p: Seq<char>, at: int)
    requires
        keys_start_with(m, p),
        0 <= at < p.len(),
        at < 10,
        p[at] != ("gp.notice."@)[at],
    ensures
        forall|i: int| 0 <= i < m.len() ==> notice_index(#[trigger] m[i].0) is None,
{
    reveal_strlit("gp.notice.");
    assert forall|i: int| 0 <= i < m.len() implies notice_index(#[trigger] m[i].0) is None by {
        let k = m[i].0;
        assert(k.subrange(0, p.len() as int)[at] == k[at]);
        if k.len() >= 10 {
            assert(k.subrange(0, 10)[at] == k[at]);
        }
    }
}

proof fn lemma_notice_entry_items(notice: Seq<String>, n: int)
    requires
        0 <= n <= notice.len(),
        notice.len() <= usize::MAX,
    ensures
        notice_items(notice_entries(notice, notice.len() as int), n) == Seq::new(
            n as nat,
            |i: int| (i as nat, notice[i]@),
        ),
    decreases n,
{
    reveal_strlit("gp.notice.");
    lemma_notice_entries_at(notice, notice.len() as int);
    if n > 0 {
        lemma_notice_entry_items(notice, n - 1);
        let e = notice_entries(notice, notice.len() as int)[n - 1];
        lemma_decimal_reads_back((n - 1) as nat);
        assert(e.0.subrange(0, 10) =~= "gp.notice."@);
        assert(e.0.skip(10) =~= decimal((n - 1) as nat));
        assert(notice_index(e.0) == Some((n - 1) as nat));
        assert(Seq::new(n as nat, |i: int| (i as nat, notice[i]@)) =~= Seq::new(
            (n - 1) as nat,
            |i: int| (i as nat, notice[i]@),
        ).push(((n - 1) as nat, notice[n - 1]@)));
    } else {
        assert(Seq::new(0, |i: int| (i as nat, notice[i]@)) =~= Seq::<(nat, Seq<char>)>::empty());
    }
}

proof fn lemma_notice_entries_at(notice: Seq<String>, n: int)
    requires
        0 <= n <= notice.len(),
    ensures
        notice_entries(notice, n).len() == n,
        forall|i: int|
            0 <= i < n ==> #[trigger] notice_entries(notice, n)[i] == ("gp.notice."@ + decimal(i as nat), notice[i]@),
    decreases n,
{
    if n > 0 {
        lemma_notice_entries_at(notice, n - 1);
    }
}

proof fn lemma_sorted_items_of_increasing(xs: Seq<(nat, Seq<char>)>)
    requires
        forall|i: int, j: int| 0 <= i < j < xs.len() ==> xs[i].0 <= xs[j].0,
    ensures
        sorted_items(xs) == xs,
    decreases xs.len(),
{
    if xs.len() > 0 {
        lemma_sorted_items_of_increasing(xs.drop_last());
        let d = xs.drop_last();
        if d.len() > 0 {
            assert(!(xs.last().0 < d.last().0));
        }
        assert(d.push(xs.last()) =~= xs);
    }
}

/// The notice lines and the version of a song survive the trip to the
/// optimized score's miscellaneous fields and back.
pub proof fn lemma_notice_and_version_round_trip(song: Song)
    requires
        song.notice@.len() <= usize::MAX,
    ensures
        notice_of(misc_of(song)) == song.notice@.map_values(|x: String| x@),
        version_field(misc_of(song)) == song.version,
{
    reveal_strlit("gp.subtitle");
    reveal_strlit("gp.words");
    reveal_strlit("gp.writer");
    reveal_strlit("gp.instructions");
    reveal_strlit("gp.date");
    reveal_strlit("gp.transcriber");
    reveal_strlit("gp.comments");
    reveal_strlit("gp.notice.");
    reveal_strlit("gp.version");
    reveal_strlit("gp.direction.");
    reveal_strlit("gp.track.");
    let t = text_entry("gp.subtitle"@, song.subtitle@) + text_entry("gp.words"@, song.words@) + text_entry(
        "gp.writer"@,
        song.writer@,
    ) + text_entry("gp.instructions"@, song.instructions@) + text_entry("gp.date"@, song.date@)
        + text_entry("gp.transcriber"@, song.transcriber@) + text_entry("gp.comments"@, song.comments@);
    let n = notice_entries(song.notice@, song.notice@.len() as int);
    let g = song_fields(song);
    let ly = lyric_entries(song.lyrics);
    let d = direction_entries(song.measure_headers@, song.measure_headers@.len() as int);
    let tr = track_entries(song.tracks@, song.tracks@.len() as int);
    assert(misc_of(song) == t + n + g + ly + d + tr);
    // Notice lines.
    assert forall|i: int| 0 <= i < t.len() implies notice_index(#[trigger] t[i].0) is None by {
        let k = t[i].0;
        if k.len() >= 10 {
            assert(k.subrange(0, 10)[3] == k[3]);
            assert(k[3] != 'n');
        }
    }
    reveal_strlit("gp.triplet_feel");
    reveal_strlit("gp.tempo_name");
    reveal_strlit("gp.hide_tempo");
    assert forall|i: int| 0 <= i < g.len() implies notice_index(#[trigger] g[i].0) is None by {
        assert(g[i].0.subrange(0, 10)[3] == g[i].0[3]);
    }
    reveal_strlit("gp.lyrics.");
    lemma_lyric_keys(song.lyrics);
    lemma_prefix_not_notice(ly, "gp.lyrics."@, 3);
    lemma_direction_keys(song.measure_headers@, song.measure_headers@.len() as int);
    lemma_track_keys(song.tracks@, song.tracks@.len() as int);
    lemma_prefix_not_notice(d, "gp.direction."@, 3);
    lemma_prefix_not_notice(tr, "gp.track."@, 3);
    lemma_no_notice_items(t, t.len() as int);
    lemma_no_notice_items(g, g.len() as int);
    lemma_no_notice_items(ly, ly.len() as int);
    lemma_no_notice_items(d, d.len() as int);
    lemma_no_notice_items(tr, tr.len() as int);
    lemma_notice_entries_at(song.notice@, song.notice@.len() as int);
    lemma_notice_entry_items(song.notice@, song.notice@.len() as int);
    lemma_notice_items_cat(t, n, n.len() as int);
    lemma_notice_items_cat(t + n, g, g.len() as int);
    lemma_notice_items_cat(t + n + g, ly, ly.len() as int);
    lemma_notice_items_cat(t + n + g + ly, d, d.len() as int);
    lemma_notice_items_cat(t + n + g + ly + d, tr, tr.len() as int);
    let items = Seq::new(song.notice@.len(), |i: int| (i as nat, song.notice@[i]@));
    assert(notice_items(misc_of(song), misc_of(song).len() as int) =~= items);
    lemma_sorted_items_of_increasing(items);
    assert(items.map_values(|e: (nat, Seq<char>)| e.1) =~= song.notice@.map_values(|x: String| x@));
    // Version.
    let k = "gp.version"@;
    lemma_fv_entry("gp.subtitle"@, song.subtitle@, k);
    lemma_fv_entry("gp.words"@, song.words@, k);
    lemma_fv_entry("gp.writer"@, song.writer@, k);
    lemma_fv_entry("gp.instructions"@, song.instructions@, k);
    lemma_fv_entry("gp.date"@, song.date@, k);
    lemma_fv_entry("gp.transcriber"@, song.transcriber@, k);
    lemma_fv_entry("gp.comments"@, song.comments@, k);
    lemma_notice_keys(song.notice@, song.notice@.len() as int);
    lemma_prefix_excludes(n, "gp.notice."@, k, 3);
    let t1 = text_entry("gp.subtitle"@, song.subtitle@);
    let t2 = text_entry("gp.words"@, song.words@);
    let t3 = text_entry("gp.writer"@, song.writer@);
    let t4 = text_entry("gp.instructions"@, song.instructions@);
    let t5 = text_entry("gp.date"@, song.date@);
    let t6 = text_entry("gp.transcriber"@, song.transcriber@);
    let t7 = text_entry("gp.comments"@, song.comments@);
    lemma_fv_cat(t1, t2, k);
    lemma_fv_cat(t1 + t2, t3, k);
    lemma_fv_cat(t1 + t2 + t3, t4, k);
    lemma_fv_cat(t1 + t2 + t3 + t4, t5, k);
    lemma_fv_cat(t1 + t2 + t3 + t4 + t5, t6, k);
    lemma_fv_cat(t1 + t2 + t3 + t4 + t5 + t6, t7, k);
    lemma_fv_cat(t, n, k);
    lemma_song_fields_lookup(song, k);
    assert(("gp.version"@).len() == 10 && ("gp.tempo_name"@).len() == 13 && ("gp.triplet_feel"@).len() == 15);
    assert(first_value(g, k) == Some(version_text(song.version)));
    lemma_fv_cat(t + n, g, k);
    lemma_fv_cat(t + n + g, ly, k);
    lemma_fv_cat(t + n + g + ly, d, k);
    lemma_fv_cat(t + n + g + ly + d, tr, k);
    lemma_version_reads_back(song.version);
}


/// Two track field names with different track numbers differ.
proof fn lemma_track_keys_differ(a: nat, b: nat, s1: Seq<char>, s2: Seq<char>)
    requires
        a != b,
    ensures
        track_key(a as int, s1) != track_key(b as int, s2),
{
    reveal_strlit("gp.track.");
    reveal_strlit(".");
    lemma_decimal_reads_back(a);
    lemma_decimal_reads_back(b);
    let x = decimal(a);
    let y = decimal(b);
    let k1 = track_key(a as int, s1);
    let k2 = track_key(b as int, s2);
    if k1 == k2 {
        assert(k1 =~= "gp.track."@ + x + "."@ + s1);
        assert(k2 =~= "gp.track."@ + y + "."@ + s2);
        if x.len() < y.len() {
            assert(k1[9 + x.len() as int] == '.');
            assert(k2[9 + x.len() as int] == y[x.len() as int]);
            assert(is_digit(y[x.len() as int]));
        } else if y.len() < x.len() {
            assert(k2[9 + y.len() as int] == '.');
            assert(k1[9 + y.len() as int] == x[y.len() as int]);
            assert(is_digit(x[y.len() as int]));
        } else {
            assert(x =~= k1.subrange(9, 9 + x.len() as int));
            assert(y =~= k2.subrange(9, 9 + y.len() as int));
        }
    }
}

/// The suffixes of the per-track fields.
pub open spec fn track_suffix(q: int) -> Seq<char> {
    if q == 0 {
        "short_name"@
    } else if q == 1 {
        "channel_index"@
    } else if q == 2 {
        "visible"@
    } else if q == 3 {
        "solo"@
    } else if q == 4 {
        "mute"@
    } else if q == 5 {
        "twelve_stringed"@
    } else {
        "banjo"@
    }
}

proof fn lemma_track_fields_keys(tr: LTrack, i: int)
    requires
        0 <= i,
    ensures
        crate::convert::optimized::song::track_fields(tr, i).len() == 7,
        forall|q: int|
            0 <= q < 7 ==> #[trigger] crate::convert::optimized::song::track_fields(tr, i)[q].0 == track_key(
                i,
                track_suffix(q),
            ),
{
}

/// The value of the field `suffix` of track `t` is found among the track
/// entries.
proof fn lemma_track_field_found(ts: Seq<LTrack>, n: int, t: int, q: int)
    requires
        0 <= t < n <= ts.len(),
        0 <= q < 7,
    ensures
        first_value(track_entries(ts, n), track_key(t, track_suffix(q))) == Some(
            crate::convert::optimized::song::track_fields(ts[t], t)[q].1,
        ),
    decreases n,
{
    reveal_strlit("short_name");
    reveal_strlit("channel_index");
    reveal_strlit("visible");
    reveal_strlit("solo");
    reveal_strlit("mute");
    reveal_strlit("twelve_stringed");
    reveal_strlit("banjo");
    let k = track_key(t, track_suffix(q));
    let prev = track_entries(ts, n - 1);
    let f = crate::convert::optimized::song::track_fields(ts[n - 1], n - 1);
    lemma_fv_cat(prev, f, k);
    lemma_track_fields_keys(ts[n - 1], n - 1);
    if t < n - 1 {
        lemma_track_field_found(ts, n - 1, t, q);
    } else {
        assert forall|i: int| 0 <= i < prev.len() implies (#[trigger] prev[i]).0 != k by {
            lemma_track_entries_keys(ts, n - 1, i);
            let (t2, q2) = choose|t2: int, q2: int|
                0 <= t2 < n - 1 && 0 <= q2 < 7 && prev[i].0 == track_key(t2, track_suffix(q2));
            lemma_track_keys_differ(t2 as nat, t as nat, track_suffix(q2), track_suffix(q));
        }
        lemma_fv_absent(prev, k);
        // Within the track's own fields, the first with this suffix is at q.
        assert forall|q2: int| 0 <= q2 < q implies f[q2].0 != k by {
            lemma_suffix_keys_differ(t, q2, q);
        }
        lemma_fv_at(f, k, q);
    }
}

proof fn lemma_suffix_keys_differ(t: int, q1: int, q2: int)
    requires
        0 <= q1 < 7,
        0 <= q2 < 7,
        q1 != q2,
        0 <= t,
    ensures
        track_key(t, track_suffix(q1)) != track_key(t, track_suffix(q2)),
{
    reveal_strlit("short_name");
    reveal_strlit("channel_index");
    reveal_strlit("visible");
    reveal_strlit("solo");
    reveal_strlit("mute");
    reveal_strlit("twelve_stringed");
    reveal_strlit("banjo");
    let p = "gp.track."@ + decimal(t as nat) + "."@;
    let k1 = track_key(t, track_suffix(q1));
    let k2 = track_key(t, track_suffix(q2));
    assert(k1 =~= p + track_suffix(q1));
    assert(k2 =~= p + track_suffix(q2));
    if k1 == k2 {
        assert(track_suffix(q1) =~= k1.skip(p.len() as int));
        assert(track_suffix(q2) =~= k2.skip(p.len() as int));
        assert(track_suffix(q1)[0] == track_suffix(q2)[0]);
        assert(track_suffix(q1).len() == track_suffix(q2).len());
        assert(track_suffix(q1)[1] == track_suffix(q2)[1]);
    }
}

proof fn lemma_fv_at(m: Seq<(Seq<char>, Seq<char>)>, k: Seq<char>, q: int)
    requires
        0 <= q < m.len(),
        m[q].0 == k,
        forall|j: int| 0 <= j < q ==> m[j].0 != k,
    ensures
        first_value(m, k) == Some(m[q].1),
    decreases q,
{
    if q > 0 {
        assert forall|j: int| 0 <= j < q - 1 implies m.drop_first()[j].0 != k by {
            assert(m.drop_first()[j] == m[j + 1]);
        }
        lemma_fv_at(m.drop_first(), k, q - 1);
    }
}

proof fn lemma_track_entries_keys(ts: Seq<LTrack>, n: int, i: int)
    requires
        0 <= n <= ts.len(),
        0 <= i < track_entries(ts, n).len(),
    ensures
        exists|t2: int, q2: int|
            0 <= t2 < n && 0 <= q2 < 7 && track_entries(ts, n)[i].0 == track_key(t2, track_suffix(q2)),
    decreases n,
{
    if n > 0 {
        let prev = track_entries(ts, n - 1);
        let f = crate::convert::optimized::song::track_fields(ts[n - 1], n - 1);
        lemma_track_fields_keys(ts[n - 1], n - 1);
        if i < prev.len() {
            lemma_track_entries_keys(ts, n - 1, i);
            assert((prev + f)[i] == prev[i]);
        } else {
            assert((prev + f)[i] == f[i - prev.len()]);
            assert(track_entries(ts, n)[i].0 == track_key(n - 1, track_suffix(i - prev.len())));
        }
    }
}


proof fn lemma_track_field_carried(song: Song, t: int, q: int)
    requires
        0 <= t < song.tracks@.len(),
        0 <= q < 7,
    ensures
        first_value(misc_of(song), track_key(t, track_suffix(q))) == Some(
            crate::convert::optimized::song::track_fields(song.tracks@[t], t)[q].1,
        ),
{
    reveal_strlit("gp.subtitle");
    reveal_strlit("gp.words");
    reveal_strlit("gp.writer");
    reveal_strlit("gp.instructions");
    reveal_strlit("gp.date");
    reveal_strlit("gp.transcriber");
    reveal_strlit("gp.comments");
    reveal_strlit("gp.notice.");
    reveal_strlit("gp.version");
    reveal_strlit("gp.direction.");
    reveal_strlit("gp.track.");
    reveal_strlit(".");
    let k = track_key(t, track_suffix(q));
    assert(k[3] == 't' && k[6] == 'c' && k.len() > 6) by {
        assert(k =~= "gp.track."@ + (decimal(t as nat) + "."@ + track_suffix(q)));
    }
    let t1 = text_entry("gp.subtitle"@, song.subtitle@);
    let t2 = text_entry("gp.words"@, song.words@);
    let t3 = text_entry("gp.writer"@, song.writer@);
    let t4 = text_entry("gp.instructions"@, song.instructions@);
    let t5 = text_entry("gp.date"@, song.date@);
    let t6 = text_entry("gp.transcriber"@, song.transcriber@);
    let t7 = text_entry("gp.comments"@, song.comments@);
    let n = notice_entries(song.notice@, song.notice@.len() as int);
    let g = song_fields(song);
    let ly = lyric_entries(song.lyrics);
    let d = direction_entries(song.measure_headers@, song.measure_headers@.len() as int);
    let tr = track_entries(song.tracks@, song.tracks@.len() as int);
    assert(("gp.transcriber"@)[6] != k[6]);
    lemma_fv_entry("gp.subtitle"@, song.subtitle@, k);
    lemma_fv_entry("gp.words"@, song.words@, k);
    lemma_fv_entry("gp.writer"@, song.writer@, k);
    lemma_fv_entry("gp.instructions"@, song.instructions@, k);
    lemma_fv_entry("gp.date"@, song.date@, k);
    lemma_fv_entry("gp.transcriber"@, song.transcriber@, k);
    lemma_fv_entry("gp.comments"@, song.comments@, k);
    lemma_notice_keys(song.notice@, song.notice@.len() as int);
    lemma_direction_keys(song.measure_headers@, song.measure_headers@.len() as int);
    lemma_prefix_excludes(n, "gp.notice."@, k, 3);
    lemma_prefix_excludes(d, "gp.direction."@, k, 3);
    reveal_strlit("gp.lyrics.");
    reveal_strlit("gp.triplet_feel");
    reveal_strlit("gp.tempo_name");
    reveal_strlit("gp.hide_tempo");
    lemma_song_fields_lookup(song, k);
    lemma_lyric_keys(song.lyrics);
    lemma_prefix_excludes(ly, "gp.lyrics."@, k, 3);
    lemma_track_field_found(song.tracks@, song.tracks@.len() as int, t, q);
    lemma_fv_cat(t1, t2, k);
    lemma_fv_cat(t1 + t2, t3, k);
    lemma_fv_cat(t1 + t2 + t3, t4, k);
    lemma_fv_cat(t1 + t2 + t3 + t4, t5, k);
    lemma_fv_cat(t1 + t2 + t3 + t4 + t5, t6, k);
    lemma_fv_cat(t1 + t2 + t3 + t4 + t5 + t6, t7, k);
    lemma_fv_cat(t1 + t2 + t3 + t4 + t5 + t6 + t7, n, k);
    lemma_fv_cat(t1 + t2 + t3 + t4 + t5 + t6 + t7 + n, g, k);
    lemma_fv_cat(t1 + t2 + t3 + t4 + t5 + t6 + t7 + n + g, ly, k);
    lemma_fv_cat(t1 + t2 + t3 + t4 + t5 + t6 + t7 + n + g + ly, d, k);
    lemma_fv_cat(t1 + t2 + t3 + t4 + t5 + t6 + t7 + n + g + ly + d, tr, k);
}

/// The visibility, solo, mute, twelve-string and banjo settings of every
/// track survive the trip to the optimized score and back.
pub proof fn lemma_track_settings_round_trip(song: Song, score: LoadedScore, back: Song, t: int)
    requires
        loaded_made(score, song),
        song_made(back, score),
        0 <= t < song.tracks@.len(),
    ensures
        back.tracks@[t].visible == song.tracks@[t].visible,
        back.tracks@[t].solo == song.tracks@[t].solo,
        back.tracks@[t].mute == song.tracks@[t].mute,
        back.tracks@[t].twelve_stringed_guitar_track == song.tracks@[t].twelve_stringed_guitar_track,
        back.tracks@[t].banjo_track == song.tracks@[t].banjo_track,
{
    reveal_strlit("true");
    reveal_strlit("false");
    reveal_strlit("visible");
    reveal_strlit("solo");
    reveal_strlit("mute");
    reveal_strlit("twelve_stringed");
    reveal_strlit("banjo");
    assert(score_misc(score) == misc_of(song));
    assert(("true"@).len() != ("false"@).len());
    lemma_track_field_carried(song, t, 2);
    lemma_track_field_carried(song, t, 3);
    lemma_track_field_carried(song, t, 4);
    lemma_track_field_carried(song, t, 5);
    lemma_track_field_carried(song, t, 6);
    assert(legacy_track_made(
        back.tracks@[t],
        score.score.tracks@[t],
        t,
        score.score.timeline@.len() as int,
        measure_starts_upto(score.score.timeline@, score.score.timeline@.len() as int).0,
        misc_of(song),
        instrument_at(score.score.instruments@, score.score.tracks@[t].instrument),
    ));
}


/// The percussion flag, the MIDI channel and the open strings of each of
/// the first 256 tracks survive the trip to the optimized score and back;
/// the strings come back numbered from 1, so strings already numbered that
/// way come back unchanged.
pub proof fn lemma_track_instrument_round_trip(song: Song, score: LoadedScore, back: Song, t: int)
    requires
        loaded_made(score, song),
        song_made(back, score),
        0 <= t < song.tracks@.len(),
        t < 256,
    ensures
        back.tracks@[t].percussion_track == song.tracks@[t].percussion_track,
        back.tracks@[t].channel_index == crate::convert::optimized::song::track_channel(
            song.channels@,
            song.tracks@[t],
        ).channel as usize,
        back.tracks@[t].strings@ == numbered_strings(song.tracks@[t].strings@.map_values(|x: (i8, i8)| x.1)),
        (forall|k: int| 0 <= k < song.tracks@[t].strings@.len() ==> #[trigger] song.tracks@[t].strings@[k].0 == k + 1)
            ==> back.tracks@[t].strings@ == song.tracks@[t].strings@,
{
    let tr = song.tracks@[t];
    assert(score.score.tracks@[t].instrument == t as u8);
    assert((t as u8) as int == t);
    let ins = score.score.instruments@[t];
    assert(crate::convert::optimized::song::instrument_made(ins, song.channels@, tr));
    assert(instrument_at(score.score.instruments@, score.score.tracks@[t].instrument) == Some(ins));
    assert(legacy_track_made(
        back.tracks@[t],
        score.score.tracks@[t],
        t,
        score.score.timeline@.len() as int,
        measure_starts_upto(score.score.timeline@, score.score.timeline@.len() as int).0,
        score_misc(score),
        Some(ins),
    ));
    let midis = tr.strings@.map_values(|x: (i8, i8)| x.1);
    if ins.gp_strings@.len() == 0 {
        assert(numbered_strings(midis) =~= Seq::<(i8, i8)>::empty());
    }
    if forall|k: int| 0 <= k < tr.strings@.len() ==> #[trigger] tr.strings@[k].0 == k + 1 {
        assert forall|k: int| 0 <= k < tr.strings@.len() implies #[trigger] numbered_strings(midis)[k]
            == tr.strings@[k] by {
            assert(tr.strings@[k].0 == k + 1);
            assert(((k + 1) as i8) as int == k + 1);
        }
        assert(numbered_strings(midis) =~= tr.strings@);
    }
}


/// At each measure, the running tempo, time signature and key of a
/// timeline made from `hs` are the measure's own.
proof fn lemma_header_state_of_defs(hs: Seq<MeasureHeader>, song_tempo: i16, tl: Seq<MeasureDef>, n: int)
    requires
        tl.len() == hs.len(),
        forall|i: int| 0 <= i < tl.len() ==> #[trigger] tl[i] == def_of(hs, song_tempo, i),
        1 <= n <= hs.len(),
    ensures
        header_state(tl, n).0 == header_tempo(hs[n - 1], song_tempo),
        header_state(tl, n).1 == header_time(hs[n - 1]).numerator as i8,
        header_state(tl, n).2 == header_time(hs[n - 1]).denominator as u16,
        header_state(tl, n).4 == legacy_key(header_key(hs[n - 1])),
    decreases n,
{
    if n > 1 {
        lemma_header_state_of_defs(hs, song_tempo, tl, n - 1);
    }
    assert(tl[n - 1] == def_of(hs, song_tempo, n - 1));
}

/// Converting a legacy song to the optimized score and back keeps each
/// measure's tempo (a measure that sets none comes back with the tempo it
/// plays at), its time signature, and its key when it has at most seven
/// accidentals; the denominator survives when it fits in a byte.
pub proof fn lemma_headers_round_trip(song: Song, score: LoadedScore, back: Song, i: int)
    requires
        loaded_made(score, song),
        song_made(back, score),
        0 <= i < song.measure_headers@.len(),
        song.measure_headers@[i].time_signature.denominator.value <= 255,
        -7 <= song.measure_headers@[i].key_signature.key <= 7,
    ensures
        back.measure_headers@[i].tempo == header_tempo(song.measure_headers@[i], song.tempo),
        back.measure_headers@[i].time_signature.numerator == song.measure_headers@[i].time_signature.numerator,
        back.measure_headers@[i].time_signature.denominator.value
            == song.measure_headers@[i].time_signature.denominator.value,
        back.measure_headers@[i].key_signature == song.measure_headers@[i].key_signature,
{
    let hs = song.measure_headers@;
    let tl = score.score.timeline@;
    lemma_header_state_of_defs(hs, song.tempo, tl, i + 1);
    assert(header_made(back.measure_headers@[i], tl, score_misc(score), i));
    let h = hs[i];
    let num: i8 = h.time_signature.numerator;
    let den: u16 = h.time_signature.denominator.value;
    assert(((num as u8) as i8) == num) by (bit_vector);
    assert(den <= 255 ==> ((den as u8) as u16) == den) by (bit_vector);
    crate::convert::optimized::legacy::lemma_legacy_key_round_trip(h.key_signature);
}


/// The value a lyric line gives for the field named by `suffix`.
pub open spec fn line_value(l: (u8, u16, String), suffix: Seq<char>) -> Option<Seq<char>> {
    if suffix == ".start"@ {
        Some(decimal(l.1 as nat))
    } else if l.2@.len() > 0 {
        Some(l.2@)
    } else {
        None
    }
}

proof fn lemma_line_lookup(l: (u8, u16, String), k: int, suffix: Seq<char>)
    requires
        0 <= k < 10,
        0 <= l.0 < 10,
        suffix == ".start"@ || suffix == ".text"@,
    ensures
        first_value(lyric_line_entries(l), lyric_key(k, suffix)) == if l.0 == k {
            line_value(l, suffix)
        } else {
            None
        },
{
    reveal_strlit("gp.lyrics.");
    reveal_strlit(".start");
    reveal_strlit(".text");
    let key = lyric_key(k, suffix);
    let p = "gp.lyrics."@ + decimal(l.0 as nat);
    let ks = p + ".start"@;
    let kt = p + ".text"@;
    assert(decimal(l.0 as nat) == seq![crate::text::digit_char(l.0 as int)]);
    assert(decimal(k as nat) == seq![crate::text::digit_char(k)]);
    assert(key[10] == crate::text::digit_char(k));
    assert(ks[10] == crate::text::digit_char(l.0 as int));
    assert(kt[10] == crate::text::digit_char(l.0 as int));
    assert(ks[12] == 's' && kt[12] == 't');
    assert(key[12] == suffix[1]);
    let e = lyric_line_entries(l);
    reveal_with_fuel(first_value, 3);
    if l.2@.len() == 0 {
        assert(e == seq![(ks, decimal(l.1 as nat))]);
        assert(e.drop_first() =~= Seq::<(Seq<char>, Seq<char>)>::empty());
    } else {
        assert(e =~= seq![(ks, decimal(l.1 as nat)), (kt, l.2@)]);
        assert(e.drop_first() =~= seq![(kt, l.2@)]);
        assert(e.drop_first().drop_first() =~= Seq::<(Seq<char>, Seq<char>)>::empty());
    }
    if l.0 == k {
        if suffix == ".start"@ {
            assert(key =~= ks);
        } else {
            assert(key =~= kt);
            assert(key != ks);
        }
    } else {
        assert(key != ks);
        assert(key != kt);
    }
}

proof fn lemma_lines_lookup(lines: Seq<(u8, u16, String)>, n: int, k: int, suffix: Seq<char>)
    requires
        0 <= n <= lines.len(),
        lines.len() <= 10,
        0 <= k < 10,
        forall|j: int| 0 <= j < lines.len() ==> (#[trigger] lines[j]).0 == j,
        suffix == ".start"@ || suffix == ".text"@,
    ensures
        first_value(lyric_lines_entries(lines, n), lyric_key(k, suffix)) == if k < n {
            line_value(lines[k], suffix)
        } else {
            None
        },
    decreases n,
{
    if n > 0 {
        lemma_lines_lookup(lines, n - 1, k, suffix);
        assert(lines[n - 1].0 == n - 1);
        lemma_line_lookup(lines[n - 1], k, suffix);
        lemma_fv_cat(lyric_lines_entries(lines, n - 1), lyric_line_entries(lines[n - 1]), lyric_key(k, suffix));
    }
}

/// A lyric field is found among the lyrics' fields.
proof fn lemma_lyric_field_carried(song: Song, k: Seq<char>)
    requires
        k.len() > 10,
        k.subrange(0, 10) == "gp.lyrics."@,
    ensures
        first_value(misc_of(song), k) == first_value(lyric_entries(song.lyrics), k),
{
    reveal_strlit("gp.subtitle");
    reveal_strlit("gp.words");
    reveal_strlit("gp.writer");
    reveal_strlit("gp.instructions");
    reveal_strlit("gp.date");
    reveal_strlit("gp.transcriber");
    reveal_strlit("gp.comments");
    reveal_strlit("gp.notice.");
    reveal_strlit("gp.version");
    reveal_strlit("gp.direction.");
    reveal_strlit("gp.track.");
    reveal_strlit("gp.lyrics.");
    reveal_strlit("gp.triplet_feel");
    reveal_strlit("gp.tempo_name");
    reveal_strlit("gp.hide_tempo");
    assert(k[3] == 'l') by {
        assert(k.subrange(0, 10)[3] == k[3]);
    }
    let t1 = text_entry("gp.subtitle"@, song.subtitle@);
    let t2 = text_entry("gp.words"@, song.words@);
    let t3 = text_entry("gp.writer"@, song.writer@);
    let t4 = text_entry("gp.instructions"@, song.instructions@);
    let t5 = text_entry("gp.date"@, song.date@);
    let t6 = text_entry("gp.transcriber"@, song.transcriber@);
    let t7 = text_entry("gp.comments"@, song.comments@);
    let n = notice_entries(song.notice@, song.notice@.len() as int);
    let g = song_fields(song);
    let ly = lyric_entries(song.lyrics);
    let d = direction_entries(song.measure_headers@, song.measure_headers@.len() as int);
    let tr = track_entries(song.tracks@, song.tracks@.len() as int);
    lemma_fv_entry("gp.subtitle"@, song.subtitle@, k);
    lemma_fv_entry("gp.words"@, song.words@, k);
    lemma_fv_entry("gp.writer"@, song.writer@, k);
    lemma_fv_entry("gp.instructions"@, song.instructions@, k);
    lemma_fv_entry("gp.date"@, song.date@, k);
    lemma_fv_entry("gp.transcriber"@, song.transcriber@, k);
    lemma_fv_entry("gp.comments"@, song.comments@, k);
    lemma_notice_keys(song.notice@, song.notice@.len() as int);
    lemma_direction_keys(song.measure_headers@, song.measure_headers@.len() as int);
    lemma_track_keys(song.tracks@, song.tracks@.len() as int);
    lemma_prefix_excludes(n, "gp.notice."@, k, 3);
    lemma_prefix_excludes(d, "gp.direction."@, k, 3);
    lemma_prefix_excludes(tr, "gp.track."@, k, 3);
    lemma_song_fields_lookup(song, k);
    assert(("gp.triplet_feel"@)[3] != k[3] && ("gp.tempo_name"@)[3] != k[3]);
    assert(("gp.version"@)[3] != k[3] && ("gp.hide_tempo"@)[3] != k[3]);
    assert(first_value(g, k) is None);
    lemma_fv_cat(t1, t2, k);
    lemma_fv_cat(t1 + t2, t3, k);
    lemma_fv_cat(t1 + t2 + t3, t4, k);
    lemma_fv_cat(t1 + t2 + t3 + t4, t5, k);
    lemma_fv_cat(t1 + t2 + t3 + t4 + t5, t6, k);
    lemma_fv_cat(t1 + t2 + t3 + t4 + t5 + t6, t7, k);
    lemma_fv_cat(t1 + t2 + t3 + t4 + t5 + t6 + t7, n, k);
    lemma_fv_cat(t1 + t2 + t3 + t4 + t5 + t6 + t7 + n, g, k);
    lemma_fv_cat(t1 + t2 + t3 + t4 + t5 + t6 + t7 + n + g, ly, k);
    lemma_fv_cat(t1 + t2 + t3 + t4 + t5 + t6 + t7 + n + g + ly, d, k);
    lemma_fv_cat(t1 + t2 + t3 + t4 + t5 + t6 + t7 + n + g + ly + d, tr, k);
}

/// Five lyric lines numbered 0 to 4, as Guitar Pro songs hold them, come
/// back from the trip to the optimized score with their starting measures
/// and texts.
pub proof fn lemma_lyrics_round_trip(song: Song, score: LoadedScore, back: Song)
    requires
        loaded_made(score, song),
        song_made(back, score),
        song.lyrics.lines@.len() == 5,
        forall|j: int| 0 <= j < 5 ==> (#[trigger] song.lyrics.lines@[j]).0 == j,
    ensures
        back.lyrics.track_choice == song.lyrics.track_choice,
        back.lyrics.lines@.len() == 5,
        forall|j: int|
            0 <= j < 5 ==> (#[trigger] back.lyrics.lines@[j]).0 == song.lyrics.lines@[j].0 && back.lyrics.lines@[j].1
                == song.lyrics.lines@[j].1 && back.lyrics.lines@[j].2@ == song.lyrics.lines@[j].2@,
{
    reveal_strlit("gp.lyrics.");
    reveal_strlit("gp.lyrics.track_choice");
    reveal_strlit(".start");
    reveal_strlit(".text");
    assert(score_misc(score) == misc_of(song));
    lemma_song_fields_read_back(song);
    let lines = song.lyrics.lines@;
    let ly = lyric_entries(song.lyrics);
    let h = seq![("gp.lyrics.track_choice"@, decimal(song.lyrics.track_choice as nat))];
    let rest = lyric_lines_entries(lines, 5);
    assert(ly == h + rest);
    assert forall|j: int| 0 <= j < 5 implies (#[trigger] back.lyrics.lines@[j]).0 == lines[j].0
        && back.lyrics.lines@[j].1 == lines[j].1 && back.lyrics.lines@[j].2@ == lines[j].2@ by {
        assert(lyric_line_made(back.lyrics.lines@[j], misc_of(song), j));
        let ks = lyric_key(j, ".start"@);
        let kt = lyric_key(j, ".text"@);
        assert(ks.subrange(0, 10) =~= "gp.lyrics."@);
        assert(kt.subrange(0, 10) =~= "gp.lyrics."@);
        lemma_lyric_field_carried(song, ks);
        lemma_lyric_field_carried(song, kt);
        lemma_lines_lookup(lines, 5, j, ".start"@);
        lemma_lines_lookup(lines, 5, j, ".text"@);
        assert(decimal(j as nat) == seq![crate::text::digit_char(j)]);
        assert(ks[10] == crate::text::digit_char(j) && ("gp.lyrics.track_choice"@)[10] == 't');
        assert(kt[10] == crate::text::digit_char(j));
        reveal_with_fuel(first_value, 2);
        assert(first_value(h, ks) is None);
        assert(first_value(h, kt) is None);
        lemma_fv_cat(h, rest, ks);
        lemma_fv_cat(h, rest, kt);
        lemma_decimal_reads_back(lines[j].1 as nat);
        assert(".start"@ != ".text"@) by {
            assert((".start"@).len() != (".text"@).len());
        }
    }
}

} // verus!
