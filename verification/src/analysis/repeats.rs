//! Measure-repeat (simile mark) detection.
//!
//! Finds consecutive measures that are musically identical and maps them to
//! the standard notation shorthand:
//!
//! | Symbol | Meaning |
//! |--------|---------|
//! | `%`    | Repeat the previous measure  (`Single`) |
//! | `%%`   | Repeat the previous two measures (`Double`) |
//! | `%%%%` | Repeat the previous four measures (`Fourth`) |
//!
//! Two measures are musically identical when they carry no measure-repeat
//! sign and their voices agree one by one: same voice id and, beat by beat,
//! the same duration (value, dots, tuplet), the same rest status and the
//! same multiset of notes (tab position or written pitch, with tie roles).

use std::collections::BTreeMap;
use vstd::prelude::*;
use vstd::relations::sorted_by;
use vstd::relations::total_ordering;
use vstd::seq_lib::lemma_multiset_commutative;
use vstd::seq_lib::lemma_sorted_unique;

use crate::model::{
    Beat, MeasureData, MeasureDef, MeasureRepeat, MeasureRepeatKind, Note, NoteValue, PitchStep,
    TieType, Track, Voice,
};

verus! {

/// Which simile symbol applies to a measure.
#[derive(Debug, Clone, Copy, PartialEq, Eq, Structural)]
pub enum SimileMark {
    /// `%`: repeat the previous measure.
    Single,
    /// `%%`: repeat the previous two measures.
    Double,
    /// `%%%%`: repeat the previous four measures.
    Fourth,
}

// ---------------------------------------------------------------------------
// Musical identity of notes, beats, voices and measures
// ---------------------------------------------------------------------------

/// Rank of a note value in the identity key.
pub open spec fn note_value_code(v: NoteValue) -> int {
    match v {
        NoteValue::Whole => 0,
        NoteValue::Half => 1,
        NoteValue::Quarter => 2,
        NoteValue::Eighth => 3,
        NoteValue::Sixteenth => 4,
        NoteValue::ThirtySecond => 5,
        NoteValue::SixtyFourth => 6,
        NoteValue::HundredTwentyEighth => 7,
        NoteValue::Other(n) => 8 + (if n < 247 { n as int } else { 247 }),
    }
}

/// Rank of a pitch step in the identity key.
pub open spec fn pitch_step_code(s: PitchStep) -> int {
    match s {
        PitchStep::C => 0,
        PitchStep::D => 1,
        PitchStep::E => 2,
        PitchStep::F => 3,
        PitchStep::G => 4,
        PitchStep::A => 5,
        PitchStep::B => 6,
    }
}

/// Identity key of a note: tab notes by string and fret, pitched notes by
/// step, alteration and octave, anything else 0.
pub open spec fn note_key(n: Note) -> int {
    if n.string is Some && n.fret is Some {
        16777216 + n.string->0 * 65536 + n.fret->0
    } else if n.pitch is Some {
        let p = n.pitch->0;
        pitch_step_code(p.step) * 65536 + ((p.alter + 2) as u8) * 256 + p.octave
    } else {
        0
    }
}

/// Identity code of a note: its key together with its tie roles.
pub open spec fn note_code(n: Note) -> u64 {
    (note_key(n) * 4 + (if n.tie == Some(TieType::End) { 2int } else { 0int }) + (if n.tie
        == Some(TieType::Start) {
        1int
    } else {
        0int
    })) as u64
}

/// The identity codes of a beat's notes, in the beat's order.
pub open spec fn beat_codes(b: Beat) -> Seq<u64> {
    b.notes@.map_values(|n: Note| note_code(n))
}

/// A beat counts as a rest when it is marked so or holds no note.
pub open spec fn beat_is_rest(b: Beat) -> bool {
    b.gp_rest || b.notes@.len() == 0
}

/// Two beats are musically identical.
pub open spec fn same_beat(a: Beat, b: Beat) -> bool {
    &&& note_value_code(a.duration.base) == note_value_code(b.duration.base)
    &&& a.duration.dots == b.duration.dots
    &&& a.duration.tuplet == b.duration.tuplet
    &&& beat_is_rest(a) == beat_is_rest(b)
    &&& beat_codes(a).to_multiset() == beat_codes(b).to_multiset()
}

/// Two voices are musically identical.
pub open spec fn same_voice(a: Voice, b: Voice) -> bool {
    &&& a.voice_id == b.voice_id
    &&& a.beats@.len() == b.beats@.len()
    &&& forall|k: int|
        0 <= k < a.beats@.len() ==> #[trigger] same_beat(a.beats@[k], b.beats@[k])
}

/// Two measures are musically identical; a measure that already carries a
/// measure-repeat sign is identical to nothing.
pub open spec fn same_measure(a: MeasureData, b: MeasureData) -> bool {
    &&& a.repeat is None
    &&& b.repeat is None
    &&& a.voices@.len() == b.voices@.len()
    &&& forall|k: int|
        0 <= k < a.voices@.len() ==> #[trigger] same_voice(a.voices@[k], b.voices@[k])
}

// ---------------------------------------------------------------------------
// Time signatures
// ---------------------------------------------------------------------------

/// Whether the timeline opens a new time signature at measure `idx`: the
/// last definition of that measure decides; a measure with no definition
/// opens none.
pub open spec fn opens_time_signature(timeline: Seq<MeasureDef>, idx: u16) -> bool
    decreases timeline.len(),
{
    if timeline.len() == 0 {
        false
    } else if timeline.last().index == idx {
        timeline.last().time_signature is Some
    } else {
        opens_time_signature(timeline.drop_last(), idx)
    }
}

// ---------------------------------------------------------------------------
// The detection scan
// ---------------------------------------------------------------------------

/// Position `i` may not carry a mark: it opens a time signature and is not
/// the first measure.
pub open spec fn blocked(ms: Seq<MeasureData>, tl: Seq<MeasureDef>, i: int) -> bool {
    i > 0 && opens_time_signature(tl, ms[i].measure_index)
}

/// A template measure may serve a `Double` or `Fourth` mark: it is not
/// marked in this pass, or marked only `Single`.
pub open spec fn template_free(m: Option<SimileMark>) -> bool {
    m is None || m == Some(SimileMark::Single)
}

/// The four measures from `i` repeat the four before them, none of which is
/// marked other than `Single`, with no time signature opening inside the
/// block.
pub open spec fn fourth_fits(
    ms: Seq<MeasureData>,
    tl: Seq<MeasureDef>,
    marks: Seq<Option<SimileMark>>,
    i: int,
) -> bool {
    &&& 4 <= i
    &&& i + 4 <= ms.len()
    &&& forall|j: int| i - 4 <= j < i ==> template_free(#[trigger] marks[j])
    &&& forall|k: int| 0 <= k < 4 ==> #[trigger] same_measure(ms[i - 4 + k], ms[i + k])
    &&& forall|k: int|
        1 <= k < 4 ==> !#[trigger] opens_time_signature(tl, ms[i + k].measure_index)
}

/// The two measures from `i` repeat the two before them, neither of which
/// is marked other than `Single`, with no time signature opening at
/// `i + 1`.
pub open spec fn double_fits(
    ms: Seq<MeasureData>,
    tl: Seq<MeasureDef>,
    marks: Seq<Option<SimileMark>>,
    i: int,
) -> bool {
    &&& 2 <= i
    &&& i + 2 <= ms.len()
    &&& template_free(marks[i - 2])
    &&& template_free(marks[i - 1])
    &&& same_measure(ms[i - 2], ms[i])
    &&& same_measure(ms[i - 1], ms[i + 1])
    &&& !opens_time_signature(tl, ms[i + 1].measure_index)
}

/// Measure `i` repeats the one before it, which carries no mark or a
/// `Single` mark.
pub open spec fn single_fits(
    ms: Seq<MeasureData>,
    marks: Seq<Option<SimileMark>>,
    i: int,
) -> bool {
    &&& 1 <= i
    &&& (marks[i - 1] is None || marks[i - 1] == Some(SimileMark::Single))
    &&& same_measure(ms[i - 1], ms[i])
}

/// `marks` with positions `from .. from + len` set to `Some(m)`.
pub open spec fn mark_run(
    marks: Seq<Option<SimileMark>>,
    from: int,
    len: int,
    m: SimileMark,
) -> Seq<Option<SimileMark>> {
    Seq::new(
        marks.len(),
        |j: int|
            if from <= j < from + len {
                Some(m)
            } else {
                marks[j]
            },
    )
}

/// The greedy left-to-right scan from position `i`: at each position try
/// `Single`, then `Fourth`, then `Double`, and skip past what was marked.
pub open spec fn scan(
    ms: Seq<MeasureData>,
    tl: Seq<MeasureDef>,
    marks: Seq<Option<SimileMark>>,
    i: int,
) -> Seq<Option<SimileMark>>
    decreases ms.len() - i,
{
    if i < 0 || i >= ms.len() {
        marks
    } else if blocked(ms, tl, i) {
        scan(ms, tl, marks, i + 1)
    } else if single_fits(ms, marks, i) {
        scan(ms, tl, mark_run(marks, i, 1, SimileMark::Single), i + 1)
    } else if fourth_fits(ms, tl, marks, i) {
        scan(ms, tl, mark_run(marks, i, 4, SimileMark::Fourth), i + 4)
    } else if double_fits(ms, tl, marks, i) {
        scan(ms, tl, mark_run(marks, i, 2, SimileMark::Double), i + 2)
    } else {
        scan(ms, tl, marks, i + 1)
    }
}

/// The marks of every measure position, as the scan leaves them.
pub open spec fn simile_marks(ms: Seq<MeasureData>, tl: Seq<MeasureDef>) -> Seq<
    Option<SimileMark>,
> {
    scan(ms, tl, Seq::new(ms.len(), |j: int| None), 0)
}

/// The map from measure index to mark for the first `n` positions.
pub open spec fn marks_map(ms: Seq<MeasureData>, marks: Seq<Option<SimileMark>>, n: int) -> Map<
    u16,
    SimileMark,
>
    decreases n,
{
    if n <= 0 {
        Map::empty()
    } else {
        let prev = marks_map(ms, marks, n - 1);
        match marks[n - 1] {
            Some(m) => prev.insert(ms[n - 1].measure_index, m),
            None => prev,
        }
    }
}

/// What `detect_repeats` returns.
pub open spec fn repeats_of(ms: Seq<MeasureData>, tl: Seq<MeasureDef>) -> Map<u16, SimileMark> {
    marks_map(ms, simile_marks(ms, tl), ms.len() as int)
}

// ---------------------------------------------------------------------------
// Executable identity
// ---------------------------------------------------------------------------

pub(crate) fn note_value_to_u8(v: NoteValue) -> (r: u8)
    ensures
        r == note_value_code(v),
{
    match v {
        NoteValue::Whole => 0,
        NoteValue::Half => 1,
        NoteValue::Quarter => 2,
        NoteValue::Eighth => 3,
        NoteValue::Sixteenth => 4,
        NoteValue::ThirtySecond => 5,
        NoteValue::SixtyFourth => 6,
        NoteValue::HundredTwentyEighth => 7,
        NoteValue::Other(n) => {
            let capped: u16 = if n < 247 {
                n
            } else {
                247
            };
            8u8 + (capped as u8)
        },
    }
}

fn pitch_step_to_u8(s: PitchStep) -> (r: u8)
    ensures
        r == pitch_step_code(s),
{
    match s {
        PitchStep::C => 0,
        PitchStep::D => 1,
        PitchStep::E => 2,
        PitchStep::F => 3,
        PitchStep::G => 4,
        PitchStep::A => 5,
        PitchStep::B => 6,
    }
}

fn note_key_of(note: &Note) -> (r: u32)
    ensures
        r == note_key(*note),
{
    if note.string.is_some() && note.fret.is_some() {
        let s = note.string.unwrap();
        let f = note.fret.unwrap();
        16777216u32 + (s as u32) * 65536 + (f as u32)
    } else if note.pitch.is_some() {
        let p = note.pitch.unwrap();
        let alter_code: u8 = ((p.alter as i16) + 2) as u8;
        (pitch_step_to_u8(p.step) as u32) * 65536 + (alter_code as u32) * 256 + (p.octave as u32)
    } else {
        0
    }
}

fn note_code_of(note: &Note) -> (r: u64)
    ensures
        r == note_code(*note),
{
    let key = note_key_of(note) as u64;
    let end: u64 = match note.tie {
        Some(TieType::End) => 2,
        _ => 0,
    };
    let start: u64 = match note.tie {
        Some(TieType::Start) => 1,
        _ => 0,
    };
    key * 4 + end + start
}

/// Measure indices, the keys of the result map, order as integers do.
proof fn lemma_index_keys_ordered()
    ensures
        vstd::laws_cmp::obeys_cmp::<u16>(),
{
    broadcast use vstd::laws_cmp::group_laws_cmp;

}

/// The order in which note codes are sorted.
pub open spec fn code_le() -> spec_fn(u64, u64) -> bool {
    |x: u64, y: u64| x <= y
}

proof fn lemma_code_le_total()
    ensures
        total_ordering(code_le()),
{
}

proof fn lemma_insert_multiset(s: Seq<u64>, p: int, x: u64)
    requires
        0 <= p <= s.len(),
    ensures
        s.insert(p, x).to_multiset() =~= s.to_multiset().insert(x),
{
    broadcast use vstd::multiset::group_multiset_axioms;
    broadcast use vstd::seq_lib::group_to_multiset_ensures;

    let a = s.take(p);
    let b = s.skip(p);
    assert(s =~= a + b);
    assert(s.insert(p, x) =~= a.push(x) + b);
    lemma_multiset_commutative(a, b);
    lemma_multiset_commutative(a.push(x), b);
}

/// The codes of `notes`, in order.
fn codes_of(notes: &Vec<Note>) -> (r: Vec<u64>)
    ensures
        r@ == notes@.map_values(|n: Note| note_code(n)),
{
    let mut r: Vec<u64> = Vec::new();
    let mut i: usize = 0;
    while i < notes.len()
        invariant
            i <= notes@.len(),
            r@ == notes@.take(i as int).map_values(|n: Note| note_code(n)),
        decreases notes@.len() - i,
    {
        let c = note_code_of(&notes[i]);
        r.push(c);
        i += 1;
        assert(notes@.take(i as int) =~= notes@.take(i - 1).push(notes@[i - 1]));
    }
    assert(notes@.take(i as int) =~= notes@);
    r
}

/// `v` sorted ascending (insertion sort).
fn sorted_codes(v: &Vec<u64>) -> (r: Vec<u64>)
    ensures
        sorted_by(r@, code_le()),
        r@.to_multiset() == v@.to_multiset(),
{
    broadcast use vstd::seq_lib::group_to_multiset_ensures;

    let mut r: Vec<u64> = Vec::new();
    let mut i: usize = 0;
    while i < v.len()
        invariant
            i <= v@.len(),
            sorted_by(r@, code_le()),
            r@.to_multiset() == v@.take(i as int).to_multiset(),
        decreases v@.len() - i,
    {
        let x = v[i];
        let mut p: usize = 0;
        while p < r.len() && r[p] <= x
            invariant
                p <= r@.len(),
                forall|q: int| 0 <= q < p ==> r@[q] <= x,
            decreases r@.len() - p,
        {
            p += 1;
        }
        let ghost old_r = r@;
        proof {
            assert forall|q: int| p <= q < old_r.len() implies x < old_r[q] by {
                assert(code_le()(old_r[p as int], old_r[q]) || q == p);
            }
            lemma_insert_multiset(old_r, p as int, x);
        }
        r.insert(p, x);
        proof {
            assert forall|a: int, b: int| 0 <= a < b < r@.len() implies #[trigger] code_le()(
                r@[a],
                r@[b],
            ) by {
                if b < p {
                    assert(code_le()(old_r[a], old_r[b]));
                } else if a > p {
                    assert(code_le()(old_r[a - 1], old_r[b - 1]));
                } else if a == p {
                } else {
                    if b > p {
                        assert(old_r[a] <= x);
                    }
                }
            }
            assert(r@ == old_r.insert(p as int, x));
            assert(r@.to_multiset() =~= old_r.to_multiset().insert(x));
            assert(v@.take(i + 1) =~= v@.take(i as int).push(x));
            v@.take(i as int).to_multiset_ensures();
            assert(v@.take(i + 1).to_multiset() =~= v@.take(i as int).to_multiset().insert(x));
        }
        i += 1;
    }
    assert(v@.take(i as int) =~= v@);
    r
}

/// Whether two code vectors hold the same multiset of codes.
fn same_code_multiset(a: &Vec<u64>, b: &Vec<u64>) -> (r: bool)
    ensures
        r == (a@.to_multiset() == b@.to_multiset()),
{
    let sa = sorted_codes(a);
    let sb = sorted_codes(b);
    proof {
        lemma_code_le_total();
    }
    if sa.len() != sb.len() {
        proof {
            if a@.to_multiset() == b@.to_multiset() {
                lemma_sorted_unique(sa@, sb@, code_le());
            }
        }
        return false;
    }
    let mut k: usize = 0;
    while k < sa.len()
        invariant
            k <= sa@.len(),
            sa@.len() == sb@.len(),
            forall|q: int| 0 <= q < k ==> sa@[q] == sb@[q],
            sorted_by(sa@, code_le()),
            sorted_by(sb@, code_le()),
            sa@.to_multiset() == a@.to_multiset(),
            sb@.to_multiset() == b@.to_multiset(),
            total_ordering(code_le()),
        decreases sa@.len() - k,
    {
        if sa[k] != sb[k] {
            proof {
                if a@.to_multiset() == b@.to_multiset() {
                    lemma_sorted_unique(sa@, sb@, code_le());
                }
            }
            return false;
        }
        k += 1;
    }
    assert(sa@ =~= sb@);
    true
}

fn same_tuplet(a: &Beat, b: &Beat) -> (r: bool)
    ensures
        r == (a.duration.tuplet == b.duration.tuplet),
{
    match (a.duration.tuplet, b.duration.tuplet) {
        (None, None) => true,
        (Some(x), Some(y)) => x.actual == y.actual && x.normal == y.normal,
        _ => false,
    }
}

fn same_beat_exec(a: &Beat, b: &Beat) -> (r: bool)
    ensures
        r == same_beat(*a, *b),
{
    if note_value_to_u8(a.duration.base) != note_value_to_u8(b.duration.base) {
        return false;
    }
    if a.duration.dots != b.duration.dots || !same_tuplet(a, b) {
        return false;
    }
    let rest_a = a.gp_rest || a.notes.len() == 0;
    let rest_b = b.gp_rest || b.notes.len() == 0;
    if rest_a != rest_b {
        return false;
    }
    let ca = codes_of(&a.notes);
    let cb = codes_of(&b.notes);
    same_code_multiset(&ca, &cb)
}

fn same_voice_exec(a: &Voice, b: &Voice) -> (r: bool)
    ensures
        r == same_voice(*a, *b),
{
    if a.voice_id != b.voice_id || a.beats.len() != b.beats.len() {
        return false;
    }
    let mut k: usize = 0;
    while k < a.beats.len()
        invariant
            k <= a.beats@.len(),
            a.beats@.len() == b.beats@.len(),
            forall|q: int| 0 <= q < k ==> #[trigger] same_beat(a.beats@[q], b.beats@[q]),
        decreases a.beats@.len() - k,
    {
        if !same_beat_exec(&a.beats[k], &b.beats[k]) {
            return false;
        }
        k += 1;
    }
    true
}

/// Whether two measures are musically identical.
fn same_measure_exec(a: &MeasureData, b: &MeasureData) -> (r: bool)
    ensures
        r == same_measure(*a, *b),
{
    if a.repeat.is_some() || b.repeat.is_some() || a.voices.len() != b.voices.len() {
        return false;
    }
    let mut k: usize = 0;
    while k < a.voices.len()
        invariant
            k <= a.voices@.len(),
            a.voices@.len() == b.voices@.len(),
            forall|q: int| 0 <= q < k ==> #[trigger] same_voice(a.voices@[q], b.voices@[q]),
        decreases a.voices@.len() - k,
    {
        if !same_voice_exec(&a.voices[k], &b.voices[k]) {
            return false;
        }
        k += 1;
    }
    true
}

/// Whether the timeline opens a new time signature at measure `idx`.
fn time_signature_opens(timeline: &[MeasureDef], idx: u16) -> (r: bool)
    ensures
        r == opens_time_signature(timeline@, idx),
{
    let mut j: usize = timeline.len();
    assert(timeline@.take(j as int) =~= timeline@);
    while j > 0
        invariant
            j <= timeline@.len(),
            opens_time_signature(timeline@, idx) == opens_time_signature(
                timeline@.take(j as int),
                idx,
            ),
        decreases j,
    {
        assert(timeline@.take(j as int).drop_last() =~= timeline@.take(j - 1));
        if timeline[j - 1].index == idx {
            return timeline[j - 1].time_signature.is_some();
        }
        j -= 1;
    }
    false
}

// ---------------------------------------------------------------------------
// Public API
// ---------------------------------------------------------------------------

/// Whether a measure's mark lets it serve as a `Double` or `Fourth`
/// template.
fn free_template(m: Option<SimileMark>) -> (r: bool)
    ensures
        r == template_free(m),
{
    match m {
        None => true,
        Some(SimileMark::Single) => true,
        _ => false,
    }
}

/// Detect which measures can be replaced with simile marks.
///
/// Returns the map from measure index to mark for the measures that should
/// be annotated; all others keep their content.
///
/// Rules:
/// - Measures that already carry a measure-repeat sign are ignored: they
///   can neither serve as a template nor receive a new mark.
/// - A measure other than the first whose definition opens a new time
///   signature cannot carry a mark.
/// - For `Double` / `Fourth`, no template measure may already be marked in
///   this pass, except as `Single`.
/// - `Single` marks may chain: `A %` followed by the same content again
///   gets another `%` even though its template is already marked.
/// - At each measure a `Single` mark is tried first, then `Fourth`, then
///   `Double`: four equal measures give three `Single` marks, while
///   A A B A B gives a `Single` at measure 1 and a `Double` at 3 and 4.
pub fn detect_repeats(track: &Track, timeline: &[MeasureDef]) -> (r: BTreeMap<u16, SimileMark>)
    requires
        track.wf(),
    ensures
        r@ == repeats_of(track.measures@, timeline@),
{
    proof {
        lemma_index_keys_ordered();
    }
    let ghost ms = track.measures@;
    let ghost tl = timeline@;
    let n = track.measures.len();
    let mut opens: Vec<bool> = Vec::new();
    let mut marks: Vec<Option<SimileMark>> = Vec::new();
    let mut q: usize = 0;
    while q < n
        invariant
            q <= n,
            n == ms.len(),
            ms == track.measures@,
            tl == timeline@,
            opens@.len() == q,
            marks@.len() == q,
            forall|j: int|
                0 <= j < q ==> #[trigger] opens@[j] == opens_time_signature(
                    tl,
                    ms[j].measure_index,
                ),
            forall|j: int| 0 <= j < q ==> #[trigger] marks@[j] is None,
        decreases n - q,
    {
        let o = time_signature_opens(timeline, track.measures[q].measure_index);
        opens.push(o);
        marks.push(None);
        q += 1;
    }
    assert(marks@ =~= Seq::new(ms.len(), |j: int| None::<SimileMark>));
    let mut i: usize = 0;
    while i < n
        invariant
            i <= n,
            n == ms.len(),
            ms == track.measures@,
            tl == timeline@,
            opens@.len() == n,
            marks@.len() == n,
            forall|j: int|
                0 <= j < n ==> #[trigger] opens@[j] == opens_time_signature(
                    tl,
                    ms[j].measure_index,
                ),
            scan(ms, tl, marks@, i as int) == simile_marks(ms, tl),
        decreases n - i,
    {
        if i > 0 && opens[i] {
            i += 1;
            continue;
        }
        if i >= 1 {
            let prev = marks[i - 1];
            let template_ok = match prev {
                None => true,
                Some(SimileMark::Single) => true,
                _ => false,
            };
            if template_ok && same_measure_exec(&track.measures[i - 1], &track.measures[i]) {
                let ghost before = marks@;
                marks.set(i, Some(SimileMark::Single));
                assert(marks@ =~= mark_run(before, i as int, 1, SimileMark::Single));
                i += 1;
                continue;
            }
        }
        if i >= 4 && n - i >= 4 {
            let template_ok = free_template(marks[i - 4]) && free_template(marks[i - 3])
                && free_template(marks[i - 2]) && free_template(marks[i - 1]);
            let fp_ok = template_ok && same_measure_exec(
                &track.measures[i - 4],
                &track.measures[i],
            ) && same_measure_exec(&track.measures[i - 3], &track.measures[i + 1])
                && same_measure_exec(&track.measures[i - 2], &track.measures[i + 2])
                && same_measure_exec(&track.measures[i - 1], &track.measures[i + 3]);
            let inner_ok = !opens[i + 1] && !opens[i + 2] && !opens[i + 3];
            proof {
                let ii = i as int;
                if fp_ok && inner_ok {
                    assert forall|j: int| ii - 4 <= j < ii implies template_free(#[trigger] marks@[j]) by {
                        assert(j == ii - 4 || j == ii - 3 || j == ii - 2 || j == ii - 1);
                    }
                    assert forall|k: int| 0 <= k < 4 implies #[trigger] same_measure(
                        ms[ii - 4 + k],
                        ms[ii + k],
                    ) by {
                        assert(k == 0 || k == 1 || k == 2 || k == 3);
                    }
                    assert forall|k: int| 1 <= k < 4 implies !#[trigger] opens_time_signature(
                        tl,
                        ms[ii + k].measure_index,
                    ) by {
                        assert(k == 1 || k == 2 || k == 3);
                        assert(opens@[ii + k] == opens_time_signature(
                            tl,
                            ms[ii + k].measure_index,
                        ));
                    }
                    assert(fourth_fits(ms, tl, marks@, ii));
                } else {
                    if fourth_fits(ms, tl, marks@, ii) {
                        assert(template_free(marks@[ii - 4]) && template_free(marks@[ii - 3])
                            && template_free(marks@[ii - 2]) && template_free(marks@[ii - 1]));
                        assert(same_measure(ms[ii - 4 + 0], ms[ii + 0]));
                        assert(same_measure(ms[ii - 4 + 1], ms[ii + 1]));
                        assert(same_measure(ms[ii - 4 + 2], ms[ii + 2]));
                        assert(same_measure(ms[ii - 4 + 3], ms[ii + 3]));
                        assert(!opens_time_signature(tl, ms[ii + 1].measure_index));
                        assert(!opens_time_signature(tl, ms[ii + 2].measure_index));
                        assert(!opens_time_signature(tl, ms[ii + 3].measure_index));
                        assert(false);
                    }
                }
            }
            if fp_ok && inner_ok {
                let ghost before = marks@;
                marks.set(i, Some(SimileMark::Fourth));
                marks.set(i + 1, Some(SimileMark::Fourth));
                marks.set(i + 2, Some(SimileMark::Fourth));
                marks.set(i + 3, Some(SimileMark::Fourth));
                assert(marks@ =~= mark_run(before, i as int, 4, SimileMark::Fourth));
                i += 4;
                continue;
            }
        } else {
            assert(!fourth_fits(ms, tl, marks@, i as int));
        }
        if i >= 2 && n - i >= 2 {
            let fp_ok = free_template(marks[i - 2]) && free_template(marks[i - 1]) && same_measure_exec(
                &track.measures[i - 2],
                &track.measures[i],
            ) && same_measure_exec(&track.measures[i - 1], &track.measures[i + 1]);
            let inner_ok = !opens[i + 1];
            if fp_ok && inner_ok {
                let ghost before = marks@;
                marks.set(i, Some(SimileMark::Double));
                marks.set(i + 1, Some(SimileMark::Double));
                assert(marks@ =~= mark_run(before, i as int, 2, SimileMark::Double));
                i += 2;
                continue;
            }
        }
        i += 1;
    }
    let mut result: BTreeMap<u16, SimileMark> = BTreeMap::new();
    let mut j: usize = 0;
    while j < n
        invariant
            j <= n,
            n == ms.len(),
            ms == track.measures@,
            marks@.len() == n,
            marks@ == simile_marks(ms, tl),
            result@ == marks_map(ms, marks@, j as int),
        decreases n - j,
    {
        match marks[j] {
            Some(m) => {
                result.insert(track.measures[j].measure_index, m);
            },
            None => {},
        }
        j += 1;
    }
    result
}

/// `after` is `before` as `apply_repeats` leaves it: cleared and signed
/// where `repeats` names its index, unchanged elsewhere.
pub open spec fn applied(before: MeasureData, after: MeasureData, repeats: Map<u16, SimileMark>) -> bool {
    &&& after.measure_index == before.measure_index
    &&& after.gp_simile_mark == before.gp_simile_mark
    &&& if repeats.contains_key(before.measure_index) {
        &&& after.voices@.len() == 0
        &&& after.repeat == Some(MeasureRepeat { kind: repeat_kind(repeats[before.measure_index]) })
    } else {
        &&& after.voices@ == before.voices@
        &&& after.repeat == before.repeat
    }
}

/// The measure-repeat kind that a simile mark stands for.
pub open spec fn repeat_kind(m: SimileMark) -> MeasureRepeatKind {
    match m {
        SimileMark::Single => MeasureRepeatKind::Single,
        SimileMark::Double => MeasureRepeatKind::Double,
        SimileMark::Fourth => MeasureRepeatKind::Fourth,
    }
}

/// Apply detected simile marks to the track in place.
///
/// Each measure whose index `repeats` holds has its voices cleared and a
/// measure-repeat sign of the matching kind attached.  Measures absent from
/// the map are left unchanged.
pub fn apply_repeats(track: &mut Track, repeats: &BTreeMap<u16, SimileMark>)
    ensures
        final(track).name == old(track).name,
        final(track).measures@.len() == old(track).measures@.len(),
        forall|i: int|
            0 <= i < old(track).measures@.len() ==> applied(
                old(track).measures@[i],
                #[trigger] final(track).measures@[i],
                repeats@,
            ),
{
    proof {
        lemma_index_keys_ordered();
    }
    let ghost start = track.measures@;
    let n = track.measures.len();
    let mut i: usize = 0;
    while i < n
        invariant
            i <= n,
            n == start.len(),
            track.measures@.len() == n,
            track.name == old(track).name,
            start == old(track).measures@,
            forall|q: int|
                0 <= q < i ==> applied(start[q], #[trigger] track.measures@[q], repeats@),
            forall|q: int| i <= q < n ==> #[trigger] track.measures@[q] == start[q],
        decreases n - i,
    {
        let idx = track.measures[i].measure_index;
        match repeats.get(&idx) {
            Some(mark) => {
                let kind = match mark {
                    SimileMark::Single => MeasureRepeatKind::Single,
                    SimileMark::Double => MeasureRepeatKind::Double,
                    SimileMark::Fourth => MeasureRepeatKind::Fourth,
                };
                let md = &mut track.measures[i];
                md.voices = Vec::new();
                md.repeat = Some(MeasureRepeat { kind });
            },
            None => {},
        }
        i += 1;
    }
}

// ---------------------------------------------------------------------------
// Laws
// ---------------------------------------------------------------------------

/// Every mark refers back to identical content and stands on a measure that
/// may carry one.
pub open spec fn marks_sound(
    ms: Seq<MeasureData>,
    tl: Seq<MeasureDef>,
    marks: Seq<Option<SimileMark>>,
) -> bool {
    forall|j: int|
        0 <= j < marks.len() && #[trigger] marks[j] is Some ==> mark_sound(ms, tl, j, marks[j]->0)
}

/// Mark `m` at position `j` refers back to identical content, and `j` may
/// carry a mark.
pub open spec fn mark_sound(ms: Seq<MeasureData>, tl: Seq<MeasureDef>, j: int, m: SimileMark) -> bool {
    &&& 0 <= j < ms.len()
    &&& ms[j].repeat is None
    &&& !blocked(ms, tl, j)
    &&& match m {
        SimileMark::Single => 1 <= j && same_measure(ms[j - 1], ms[j]),
        SimileMark::Double => 2 <= j && same_measure(ms[j - 2], ms[j]),
        SimileMark::Fourth => 4 <= j && same_measure(ms[j - 4], ms[j]),
    }
}

proof fn lemma_scan_sound(
    ms: Seq<MeasureData>,
    tl: Seq<MeasureDef>,
    marks: Seq<Option<SimileMark>>,
    i: int,
)
    requires
        marks.len() == ms.len(),
        marks_sound(ms, tl, marks),
    ensures
        scan(ms, tl, marks, i).len() == ms.len(),
        marks_sound(ms, tl, scan(ms, tl, marks, i)),
    decreases ms.len() - i,
{
    if i < 0 || i >= ms.len() {
    } else if blocked(ms, tl, i) {
        lemma_scan_sound(ms, tl, marks, i + 1);
    } else if single_fits(ms, marks, i) {
        let next = mark_run(marks, i, 1, SimileMark::Single);
        assert forall|j: int| 0 <= j < next.len() && #[trigger] next[j] is Some implies mark_sound(
            ms,
            tl,
            j,
            next[j]->0,
        ) by {
            if j != i {
                assert(marks[j] is Some);
            }
        }
        lemma_scan_sound(ms, tl, next, i + 1);
    } else if fourth_fits(ms, tl, marks, i) {
        let next = mark_run(marks, i, 4, SimileMark::Fourth);
        assert forall|j: int| 0 <= j < next.len() && #[trigger] next[j] is Some implies mark_sound(
            ms,
            tl,
            j,
            next[j]->0,
        ) by {
            if i <= j < i + 4 {
                let k = j - i;
                assert(same_measure(ms[i - 4 + k], ms[i + k]));
                if k > 0 {
                    assert(!opens_time_signature(tl, ms[i + k].measure_index));
                }
            } else {
                assert(marks[j] is Some);
            }
        }
        lemma_scan_sound(ms, tl, next, i + 4);
    } else if double_fits(ms, tl, marks, i) {
        let next = mark_run(marks, i, 2, SimileMark::Double);
        assert forall|j: int| 0 <= j < next.len() && #[trigger] next[j] is Some implies mark_sound(
            ms,
            tl,
            j,
            next[j]->0,
        ) by {
            if !(i <= j < i + 2) {
                assert(marks[j] is Some);
            }
        }
        lemma_scan_sound(ms, tl, next, i + 2);
    } else {
        lemma_scan_sound(ms, tl, marks, i + 1);
    }
}

/// The result map holds exactly the indices of the marked positions, each
/// with its position's mark.
proof fn lemma_marks_map(ms: Seq<MeasureData>, marks: Seq<Option<SimileMark>>, n: int)
    requires
        crate::model::measures_wf(ms),
        0 <= n <= ms.len(),
        n <= marks.len(),
    ensures
        forall|i: int|
            0 <= i < ms.len() ==> (#[trigger] marks_map(ms, marks, n).contains_key(
                ms[i].measure_index,
            ) <==> (i < n && marks[i] is Some)),
        forall|i: int|
            0 <= i < n && marks[i] is Some ==> #[trigger] marks_map(ms, marks, n)[ms[i].measure_index]
                == marks[i]->0,
        forall|k: u16|
            #[trigger] marks_map(ms, marks, n).contains_key(k) ==> exists|i: int|
                0 <= i < n && ms[i].measure_index == k && marks[i] is Some,
    decreases n,
{
    if n > 0 {
        lemma_marks_map(ms, marks, n - 1);
        let prev = marks_map(ms, marks, n - 1);
        assert forall|i: int|
            0 <= i < ms.len() implies (#[trigger] marks_map(ms, marks, n).contains_key(
            ms[i].measure_index,
        ) <==> (i < n && marks[i] is Some)) by {
            if i != n - 1 {
                if i < n - 1 {
                    assert(ms[i].measure_index < ms[n - 1].measure_index);
                } else {
                    assert(ms[n - 1].measure_index < ms[i].measure_index);
                }
            }
        }
        assert forall|i: int| 0 <= i < n && marks[i] is Some implies #[trigger] marks_map(
            ms,
            marks,
            n,
        )[ms[i].measure_index] == marks[i]->0 by {
            if i < n - 1 {
                assert(ms[i].measure_index < ms[n - 1].measure_index);
            }
        }
        assert forall|k: u16| #[trigger] marks_map(ms, marks, n).contains_key(k) implies exists|
            i: int,
        | 0 <= i < n && ms[i].measure_index == k && marks[i] is Some by {
            if prev.contains_key(k) {
                let i = choose|i: int|
                    0 <= i < n - 1 && ms[i].measure_index == k && marks[i] is Some;
                assert(0 <= i < n && ms[i].measure_index == k && marks[i] is Some);
            } else {
                assert(ms[n - 1].measure_index == k && marks[n - 1] is Some);
            }
        }
    }
}

/// Where `detect_repeats` puts a simile mark, the content repeats: a
/// `Single` measure equals the measure before it, a `Double` measure the
/// one two before it, a `Fourth` measure the one four before it.  No mark
/// falls on a measure that already carries a repeat sign, nor on a measure
/// other than the first that opens a new time signature; and every key of
/// the result is the index of a measure of the track.
pub proof fn lemma_detected_marks_repeat_content(track: Track, timeline: Seq<MeasureDef>)
    requires
        track.wf(),
    ensures
        forall|i: int|
            0 <= i < track.measures@.len() && #[trigger] repeats_of(
                track.measures@,
                timeline,
            ).contains_key(track.measures@[i].measure_index) ==> mark_sound(
                track.measures@,
                timeline,
                i,
                repeats_of(track.measures@, timeline)[track.measures@[i].measure_index],
            ),
        forall|k: u16|
            #[trigger] repeats_of(track.measures@, timeline).contains_key(k) ==> exists|i: int|
                0 <= i < track.measures@.len() && track.measures@[i].measure_index == k,
{
    let ms = track.measures@;
    let start = Seq::new(ms.len(), |j: int| None::<SimileMark>);
    lemma_scan_sound(ms, timeline, start, 0);
    let marks = simile_marks(ms, timeline);
    lemma_marks_map(ms, marks, ms.len() as int);
    assert forall|i: int|
        0 <= i < ms.len() && #[trigger] repeats_of(ms, timeline).contains_key(
            ms[i].measure_index,
        ) implies mark_sound(ms, timeline, i, repeats_of(ms, timeline)[ms[i].measure_index]) by {
        assert(marks[i] is Some);
    }
}

/// A measure that already carries a measure-repeat sign never receives a
/// simile mark.
pub proof fn lemma_existing_repeat_never_marked(track: Track, timeline: Seq<MeasureDef>, i: int)
    requires
        track.wf(),
        0 <= i < track.measures@.len(),
        track.measures@[i].repeat is Some,
    ensures
        !repeats_of(track.measures@, timeline).contains_key(track.measures@[i].measure_index),
{
    lemma_detected_marks_repeat_content(track, timeline);
}

/// A mark at position `j` is justified: the measure is not blocked, and it
/// repeats the measure one (`Single`), two (`Double`) or four (`Fourth`)
/// positions before it, neither of which carries a measure-repeat sign.
pub open spec fn mark_justified(ms: Seq<MeasureData>, tl: Seq<MeasureDef>, m: SimileMark, j: int) -> bool {
    let back: int = match m {
        SimileMark::Single => 1,
        SimileMark::Double => 2,
        SimileMark::Fourth => 4,
    };
    &&& !blocked(ms, tl, j)
    &&& back <= j
    &&& same_measure(ms[j - back], ms[j])
}

/// Every mark of the first positions is justified.
pub open spec fn marks_justified(ms: Seq<MeasureData>, tl: Seq<MeasureDef>, marks: Seq<Option<SimileMark>>) -> bool {
    &&& marks.len() == ms.len()
    &&& forall|j: int|
        0 <= j < marks.len() ==> match #[trigger] marks[j] {
            Some(m) => mark_justified(ms, tl, m, j),
            None => true,
        }
}

proof fn lemma_scan_justified(ms: Seq<MeasureData>, tl: Seq<MeasureDef>, marks: Seq<Option<SimileMark>>, i: int)
    requires
        marks_justified(ms, tl, marks),
    ensures
        marks_justified(ms, tl, scan(ms, tl, marks, i)),
    decreases ms.len() - i,
{
    if i < 0 || i >= ms.len() {
    } else if blocked(ms, tl, i) {
        lemma_scan_justified(ms, tl, marks, i + 1);
    } else if single_fits(ms, marks, i) {
        let nm = mark_run(marks, i, 1, SimileMark::Single);
        assert forall|j: int| 0 <= j < nm.len() implies match #[trigger] nm[j] {
            Some(m) => mark_justified(ms, tl, m, j),
            None => true,
        } by {}
        lemma_scan_justified(ms, tl, nm, i + 1);
    } else if fourth_fits(ms, tl, marks, i) {
        let nm = mark_run(marks, i, 4, SimileMark::Fourth);
        assert forall|j: int| 0 <= j < nm.len() implies match #[trigger] nm[j] {
            Some(m) => mark_justified(ms, tl, m, j),
            None => true,
        } by {
            if i <= j < i + 4 {
                assert(same_measure(ms[i - 4 + (j - i)], ms[i + (j - i)]));
                if j > i {
                    assert(!opens_time_signature(tl, ms[i + (j - i)].measure_index));
                }
            }
        }
        lemma_scan_justified(ms, tl, nm, i + 4);
    } else if double_fits(ms, tl, marks, i) {
        let nm = mark_run(marks, i, 2, SimileMark::Double);
        assert forall|j: int| 0 <= j < nm.len() implies match #[trigger] nm[j] {
            Some(m) => mark_justified(ms, tl, m, j),
            None => true,
        } by {}
        lemma_scan_justified(ms, tl, nm, i + 2);
    } else {
        lemma_scan_justified(ms, tl, marks, i + 1);
    }
}

/// Every simile mark the scan places is justified: its measure does not
/// open a new time signature (unless it is the first), and has the same
/// content as the measure one (`Single`), two (`Double`) or four
/// (`Fourth`) positions before it; so measures that already carry a
/// measure-repeat sign are never marked nor serve as templates.
pub proof fn lemma_simile_marks_justified(ms: Seq<MeasureData>, tl: Seq<MeasureDef>, j: int)
    requires
        0 <= j < ms.len(),
    ensures
        simile_marks(ms, tl).len() == ms.len(),
        match simile_marks(ms, tl)[j] {
            Some(m) => mark_justified(ms, tl, m, j),
            None => true,
        },
{
    let start = Seq::new(ms.len(), |k: int| None::<SimileMark>);
    assert(marks_justified(ms, tl, start));
    lemma_scan_justified(ms, tl, start, 0);
}


/// Notes are told apart by what is written: two notes without tablature
/// but with a pitch get the same identity code exactly when their step,
/// alteration, octave and tie are the same (so C4 and C5 differ), and two
/// notes with string and fret get the same code exactly when their string,
/// fret and tie are the same.
pub proof fn lemma_identity_is_written_content(a: Note, b: Note)
    ensures
        (!(a.string is Some && a.fret is Some) && !(b.string is Some && b.fret is Some) && a.pitch is Some
            && b.pitch is Some) ==> (note_code(a) == note_code(b) <==> (a.pitch == b.pitch && a.tie == b.tie)),
        (a.string is Some && a.fret is Some && b.string is Some && b.fret is Some) ==> (note_code(a) == note_code(b)
            <==> (a.string == b.string && a.fret == b.fret && a.tie == b.tie)),
        (a.string is Some && a.fret is Some && !(b.string is Some && b.fret is Some) && b.pitch is Some) ==> note_code(a)
            != note_code(b),
{
    let ta: int = (if a.tie == Some(TieType::End) { 2int } else { 0int }) + (if a.tie == Some(TieType::Start) {
        1int
    } else {
        0int
    });
    let tb: int = (if b.tie == Some(TieType::End) { 2int } else { 0int }) + (if b.tie == Some(TieType::Start) {
        1int
    } else {
        0int
    });
    assert(0 <= ta < 4 && 0 <= tb < 4);
    assert(ta == tb <==> a.tie == b.tie) by {
        match a.tie {
            Some(TieType::Start) => {},
            Some(TieType::End) => {},
            None => {},
        }
        match b.tie {
            Some(TieType::Start) => {},
            Some(TieType::End) => {},
            None => {},
        }
    }
    let ka = note_key(a);
    let kb = note_key(b);
    if !(a.string is Some && a.fret is Some) && !(b.string is Some && b.fret is Some) && a.pitch is Some
        && b.pitch is Some {
        let pa = a.pitch->0;
        let pb = b.pitch->0;
        let ca = #[verifier::truncate] ((pa.alter + 2) as u8);
        let cb = #[verifier::truncate] ((pb.alter + 2) as u8);
        let x: i8 = pa.alter;
        let y: i8 = pb.alter;
        assert(((x + 2) as u8) == ((y + 2) as u8) ==> x == y) by (bit_vector);
        let sa = pitch_step_code(pa.step);
        let sb = pitch_step_code(pb.step);
        assert(sa == sb <==> pa.step == pb.step);
        assert(ka == sa * 65536 + ca * 256 + pa.octave);
        assert(kb == sb * 65536 + cb * 256 + pb.octave);
        assert(0 <= ka && 0 <= kb);
        assert(note_code(a) == ka * 4 + ta);
        assert(note_code(b) == kb * 4 + tb);
        if note_code(a) == note_code(b) {
            assert(ka == kb && ta == tb) by (nonlinear_arith)
                requires
                    ka * 4 + ta == kb * 4 + tb,
                    0 <= ta < 4,
                    0 <= tb < 4,
            ;
            assert(sa == sb && ca == cb && pa.octave == pb.octave) by (nonlinear_arith)
                requires
                    sa * 65536 + ca * 256 + pa.octave == sb * 65536 + cb * 256 + pb.octave,
                    0 <= ca < 256,
                    0 <= cb < 256,
                    0 <= pa.octave < 256,
                    0 <= pb.octave < 256,
            ;
            assert(pa == pb);
        }
    }
    if a.string is Some && a.fret is Some && b.string is Some && b.fret is Some {
        let sa = a.string->0;
        let sb = b.string->0;
        let fa = a.fret->0;
        let fb = b.fret->0;
        assert(ka == 16777216 + sa * 65536 + fa);
        assert(kb == 16777216 + sb * 65536 + fb);
        assert(note_code(a) == ka * 4 + ta);
        assert(note_code(b) == kb * 4 + tb);
        if note_code(a) == note_code(b) {
            assert(ka == kb && ta == tb) by (nonlinear_arith)
                requires
                    ka * 4 + ta == kb * 4 + tb,
                    0 <= ta < 4,
                    0 <= tb < 4,
            ;
            assert(sa == sb && fa == fb) by (nonlinear_arith)
                requires
                    sa * 65536 + fa == sb * 65536 + fb,
                    0 <= fa < 256,
                    0 <= fb < 256,
            ;
        }
    }
    if a.string is Some && a.fret is Some && !(b.string is Some && b.fret is Some) && b.pitch is Some {
        let pb = b.pitch->0;
        let cb = #[verifier::truncate] ((pb.alter + 2) as u8);
        assert(kb == pitch_step_code(pb.step) * 65536 + cb * 256 + pb.octave);
        assert(kb < 16777216);
        assert(ka >= 16777216);
        assert(note_code(a) == ka * 4 + ta);
        assert(note_code(b) == kb * 4 + tb);
    }
}

} // verus!
