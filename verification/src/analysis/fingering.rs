//! Left-hand finger assignment for guitar tablature.
//!
//! Per chord event (all fretted notes sounding at one tick of a measure):
//! open strings are skipped; the hand position is the lowest fret (at least
//! 1), unless the previous position still covers the whole chord within a
//! four-fret span; two or more notes at the position fret form a barre held
//! by the index finger; other notes get `fret - position + 1`, successive
//! notes on one fret taking successive fingers, capped at 4.  After the
//! forward pass, the last event of each measure moves to the opening
//! position of the next measure when it fits there.

use vstd::prelude::*;
use crate::counting::{
    count_below, lemma_count_below_at_most_one, lemma_count_below_bounds, lemma_count_below_two,
    lemma_count_below_zero,
};
use crate::model::{Beat, MeasureData, Voice};

verus! {

/// Structural role of a finger in a chord.
#[derive(Debug, Clone, Copy, PartialEq, Eq, Structural)]
pub enum FingerRole {
    /// Normal single-string placement.
    Single,
    /// Index finger barring the position fret (first barred note listed).
    BarreAnchor,
    /// Another string covered by the same barre.
    BarreMember,
}

/// A suggested finger placement for one fretted note.
#[derive(Debug, Clone, Copy, PartialEq, Eq, Structural)]
pub struct FingerAssignment {
    /// 1-based string number.
    pub string: i8,
    /// Fret number (at least 1; open strings are not included).
    pub fret: i16,
    /// 1 = index, 2 = middle, 3 = ring, 4 = pinky.
    pub finger: u8,
    pub role: FingerRole,
    /// First note of a chord played after a hand-position shift.
    pub position_shift: bool,
}

/// A fretted note reduced to the coordinates fingering needs.
#[derive(Debug, Clone, Copy, PartialEq, Eq, Structural)]
pub struct TabNote {
    pub string: u8,
    pub fret: u8,
}

/// A fretted note at a tick: `(tick, fret, string)`.
pub type TickNote = (u32, u8, u8);

pub open spec fn tick_note_lt(a: TickNote, b: TickNote) -> bool {
    a.0 < b.0 || (a.0 == b.0 && (a.1 < b.1 || (a.1 == b.1 && a.2 < b.2)))
}

// ---------------------------------------------------------------------------
// Chord events of a measure
// ---------------------------------------------------------------------------

/// Fretted (fret > 0), non-rest notes of one beat, as tick notes; nothing for
/// empty or rest beats.
pub open spec fn beat_tick_notes(b: Beat) -> Seq<TickNote>
    decreases b.notes@.len(),
{
    if b.gp_empty || b.gp_rest {
        seq![]
    } else {
        beat_notes_prefix(b, b.notes@.len() as int)
    }
}

pub open spec fn beat_notes_prefix(b: Beat, k: int) -> Seq<TickNote>
    decreases k,
{
    if k <= 0 || k > b.notes@.len() {
        seq![]
    } else {
        let prev = beat_notes_prefix(b, k - 1);
        let n = b.notes@[k - 1];
        if !n.gp_is_rest && n.string is Some && n.fret is Some && n.fret->0 > 0 {
            prev.push((b.tick_offset, n.fret->0, n.string->0))
        } else {
            prev
        }
    }
}

/// Tick notes of the first `k` beats of a voice.
pub open spec fn voice_notes_prefix(v: Voice, k: int) -> Seq<TickNote>
    decreases k,
{
    if k <= 0 || k > v.beats@.len() {
        seq![]
    } else {
        voice_notes_prefix(v, k - 1) + beat_tick_notes(v.beats@[k - 1])
    }
}

/// Tick notes of the first `k` voices of a measure, in voice, beat, note order.
pub open spec fn measure_notes_prefix(md: MeasureData, k: int) -> Seq<TickNote>
    decreases k,
{
    if k <= 0 || k > md.voices@.len() {
        seq![]
    } else {
        measure_notes_prefix(md, k - 1) + voice_notes_prefix(md.voices@[k - 1], md.voices@[k - 1].beats@.len() as int)
    }
}

/// Insert `x` into the strictly increasing `s`, unless already present.
pub open spec fn insert_sorted(s: Seq<TickNote>, x: TickNote) -> Seq<TickNote> {
    if s.contains(x) {
        s
    } else {
        let k = count_below(s.len() as int, |i: int| tick_note_lt(s[i], x));
        s.insert(k, x)
    }
}

/// The distinct tick notes of `raw`, in increasing (tick, fret, string) order.
pub open spec fn sorted_distinct(raw: Seq<TickNote>) -> Seq<TickNote>
    decreases raw.len(),
{
    if raw.len() == 0 {
        seq![]
    } else {
        insert_sorted(sorted_distinct(raw.drop_last()), raw.last())
    }
}

/// Split increasing tick notes into chords: maximal runs sharing a tick.
pub open spec fn group_by_tick(s: Seq<TickNote>) -> Seq<Seq<TabNote>>
    decreases s.len(),
{
    if s.len() == 0 {
        seq![]
    } else {
        let g = group_by_tick(s.drop_last());
        let n = TabNote { string: s.last().2, fret: s.last().1 };
        if s.len() >= 2 && s[s.len() - 2].0 == s.last().0 {
            g.update(g.len() - 1, g.last().push(n))
        } else {
            g.push(seq![n])
        }
    }
}

/// The chord events of a measure, ordered by tick; each chord ordered by
/// (fret, string).
pub open spec fn chord_events(md: MeasureData) -> Seq<Seq<TabNote>> {
    group_by_tick(sorted_distinct(measure_notes_prefix(md, md.voices@.len() as int)))
}

// ---------------------------------------------------------------------------
// Positions and assignments
// ---------------------------------------------------------------------------

/// Lowest fret of a chord.
pub open spec fn min_fret(notes: Seq<TabNote>) -> int
    decreases notes.len(),
{
    if notes.len() == 0 {
        255
    } else {
        let m = min_fret(notes.drop_last());
        if notes.last().fret < m {
            notes.last().fret as int
        } else {
            m
        }
    }
}

/// Natural hand position of a chord: its lowest fret, at least 1.
pub open spec fn natural_pos(notes: Seq<TabNote>) -> int {
    if notes.len() == 0 {
        1
    } else if min_fret(notes) < 1 {
        1
    } else {
        min_fret(notes)
    }
}

/// Every note of the chord lies in the span `[pos, pos + 3]`.
pub open spec fn fits_at(notes: Seq<TabNote>, pos: int) -> bool {
    forall|k: int| 0 <= k < notes.len() ==> pos <= #[trigger] notes[k].fret <= pos + 3
}

/// Number of notes at `fret` among the first `k` notes.
pub open spec fn same_fret_before(notes: Seq<TabNote>, k: int, fret: int) -> int {
    count_below(k, |j: int| notes[j].fret == fret)
}

/// The assignment of note `k` of a chord played at `pos`.
pub open spec fn assignment_of(notes: Seq<TabNote>, pos: int, shifted: bool, k: int) -> FingerAssignment {
    let n = notes[k];
    let barre = same_fret_before(notes, notes.len() as int, pos) >= 2;
    let (finger, role) = if n.fret == pos && barre {
        (1u8, if same_fret_before(notes, k, pos) > 0 {
            FingerRole::BarreMember
        } else {
            FingerRole::BarreAnchor
        })
    } else {
        let base = n.fret - pos + 1;
        let f = base + same_fret_before(notes, k, n.fret as int);
        ((if f < 4 { f } else { 4 }) as u8, FingerRole::Single)
    };
    FingerAssignment {
        string: n.string as i8,
        fret: n.fret as i16,
        finger,
        role,
        position_shift: k == 0 && shifted,
    }
}

pub open spec fn assignments_of(notes: Seq<TabNote>, pos: int, shifted: bool) -> Seq<FingerAssignment> {
    Seq::new(notes.len(), |k: int| assignment_of(notes, pos, shifted, k))
}

/// All chord events of the window: `(measure position, chord)`.
pub open spec fn window_events(ms: Seq<MeasureData>) -> Seq<(int, Seq<TabNote>)>
    decreases ms.len(),
{
    if ms.len() == 0 {
        seq![]
    } else {
        let m = ms.len() - 1;
        window_events(ms.drop_last()) + chord_events(ms.last()).map_values(|c: Seq<TabNote>| (m, c))
    }
}

/// Forward pass: position of event `k`.
pub open spec fn forward_pos(ev: Seq<(int, Seq<TabNote>)>, k: int) -> int
    decreases k,
{
    if k <= 0 {
        natural_pos(ev[0].1)
    } else {
        let p = forward_pos(ev, k - 1);
        if fits_at(ev[k].1, p) {
            p
        } else {
            natural_pos(ev[k].1)
        }
    }
}

/// Position of event `k` after the look-ahead pass.
pub open spec fn final_pos(ev: Seq<(int, Seq<TabNote>)>, k: int) -> int {
    if k + 1 < ev.len() && ev[k + 1].0 == ev[k].0 + 1 && forward_pos(ev, k) != forward_pos(ev, k + 1)
        && fits_at(ev[k].1, forward_pos(ev, k + 1)) {
        forward_pos(ev, k + 1)
    } else {
        forward_pos(ev, k)
    }
}

/// Assignments of event `k`.
pub open spec fn event_assignments(ev: Seq<(int, Seq<TabNote>)>, k: int) -> Seq<FingerAssignment> {
    assignments_of(ev[k].1, final_pos(ev, k), k > 0 && final_pos(ev, k - 1) != final_pos(ev, k))
}

/// Assignments of the events `0..k` that belong to measure `m`, in order.
pub open spec fn measure_assignments(ev: Seq<(int, Seq<TabNote>)>, m: int, k: int) -> Seq<FingerAssignment>
    decreases k,
{
    if k <= 0 {
        seq![]
    } else {
        measure_assignments(ev, m, k - 1) + if ev[k - 1].0 == m {
            event_assignments(ev, k - 1)
        } else {
            seq![]
        }
    }
}

// ---------------------------------------------------------------------------
// Implementation
// ---------------------------------------------------------------------------

fn tick_note_less(a: TickNote, b: TickNote) -> (r: bool)
    ensures
        r == tick_note_lt(a, b),
{
    a.0 < b.0 || (a.0 == b.0 && (a.1 < b.1 || (a.1 == b.1 && a.2 < b.2)))
}

/// Insert `x` into the strictly increasing vector `s` unless present.
fn insert_tick_note(s: &mut Vec<TickNote>, x: TickNote)
    ensures
        final(s)@ == insert_sorted(old(s)@, x),
{
    let ghost s0 = s@;
    let mut k: usize = 0;
    let mut cnt: usize = 0;
    while k < s.len()
        invariant
            k <= s@.len(),
            s@ == s0,
            cnt as int == count_below(k as int, |j: int| tick_note_lt(s0[j], x)),
            cnt <= k,
        decreases s@.len() - k,
    {
        if tick_note_less(s[k], x) {
            cnt += 1;
        }
        k += 1;
    }
    let mut present = false;
    let mut j: usize = 0;
    while j < s.len()
        invariant
            j <= s@.len(),
            s@ == s0,
            present == exists|q: int| 0 <= q < j && s0[q] == x,
        decreases s@.len() - j,
    {
        if s[j].0 == x.0 && s[j].1 == x.1 && s[j].2 == x.2 {
            present = true;
        }
        j += 1;
    }
    proof {
        if present {
            let q = choose|q: int| 0 <= q < s0.len() && s0[q] == x;
            assert(s0.contains(x));
        } else {
            assert(!s0.contains(x));
        }
    }
    if !present {
        s.insert(cnt, x);
    }
}

/// Tick notes of one beat, appended to `out`.
fn push_beat_notes(b: &Beat, out: &mut Vec<TickNote>)
    ensures
        final(out)@ == old(out)@ + beat_tick_notes(*b),
{
    if b.gp_empty || b.gp_rest {
        assert(old(out)@ + beat_tick_notes(*b) =~= old(out)@);
        return;
    }
    let ghost o = out@;
    let mut k: usize = 0;
    while k < b.notes.len()
        invariant
            k <= b.notes@.len(),
            !b.gp_empty && !b.gp_rest,
            out@ == o + beat_notes_prefix(*b, k as int),
        decreases b.notes@.len() - k,
    {
        let n = &b.notes[k];
        if !n.gp_is_rest && n.string.is_some() && n.fret.is_some() {
            let s = n.string.unwrap();
            let f = n.fret.unwrap();
            if f > 0 {
                out.push((b.tick_offset, f, s));
            }
        }
        proof {
            assert(o + beat_notes_prefix(*b, k + 1) =~= out@);
        }
        k += 1;
    }
}

/// Chord events of one measure (see [`chord_events`]).
pub fn collect_chord_events(measure: &MeasureData) -> (r: Vec<Vec<TabNote>>)
    ensures
        r@.len() == chord_events(*measure).len(),
        forall|k: int| 0 <= k < r@.len() ==> #[trigger] r@[k]@ == chord_events(*measure)[k],
{
    // Gather the raw tick notes in voice, beat, note order.
    let mut raw: Vec<TickNote> = Vec::new();
    let mut vi: usize = 0;
    while vi < measure.voices.len()
        invariant
            vi <= measure.voices@.len(),
            raw@ == measure_notes_prefix(*measure, vi as int),
        decreases measure.voices@.len() - vi,
    {
        let v = &measure.voices[vi];
        let ghost before = raw@;
        let mut bi: usize = 0;
        while bi < v.beats.len()
            invariant
                bi <= v.beats@.len(),
                *v == measure.voices@[vi as int],
                raw@ == before + voice_notes_prefix(*v, bi as int),
            decreases v.beats@.len() - bi,
        {
            push_beat_notes(&v.beats[bi], &mut raw);
            proof {
                assert(before + voice_notes_prefix(*v, bi + 1) =~= raw@);
            }
            bi += 1;
        }
        vi += 1;
    }
    // Sort and deduplicate.
    let mut sorted: Vec<TickNote> = Vec::new();
    let mut i: usize = 0;
    while i < raw.len()
        invariant
            i <= raw@.len(),
            sorted@ == sorted_distinct(raw@.take(i as int)),
        decreases raw@.len() - i,
    {
        assert(raw@.take(i + 1).drop_last() =~= raw@.take(i as int));
        insert_tick_note(&mut sorted, raw[i]);
        i += 1;
    }
    assert(raw@.take(raw@.len() as int) =~= raw@);
    // Group by tick.
    let mut groups: Vec<Vec<TabNote>> = Vec::new();
    let mut j: usize = 0;
    while j < sorted.len()
        invariant
            j <= sorted@.len(),
            groups@.len() == group_by_tick(sorted@.take(j as int)).len(),
            forall|k: int| 0 <= k < groups@.len() ==> #[trigger] groups@[k]@ == group_by_tick(sorted@.take(j as int))[k],
            j > 0 ==> groups@.len() > 0,
        decreases sorted@.len() - j,
    {
        let ghost prev = group_by_tick(sorted@.take(j as int));
        assert(sorted@.take(j + 1).drop_last() =~= sorted@.take(j as int));
        let (tick, fret, string) = sorted[j];
        let n = TabNote { string, fret };
        if j > 0 && sorted[j - 1].0 == tick {
            let last = groups.len() - 1;
            let mut g = groups.remove(last);
            g.push(n);
            groups.push(g);
            proof {
                let next = group_by_tick(sorted@.take(j + 1));
                assert(next == prev.update(prev.len() - 1, prev.last().push(n)));
                assert forall|k: int| 0 <= k < groups@.len() implies #[trigger] groups@[k]@ == next[k] by {}
            }
        } else {
            let mut g: Vec<TabNote> = Vec::new();
            g.push(n);
            groups.push(g);
            proof {
                let next = group_by_tick(sorted@.take(j + 1));
                assert(next == prev.push(seq![n]));
                assert(g@ =~= seq![n]);
                assert forall|k: int| 0 <= k < groups@.len() implies #[trigger] groups@[k]@ == next[k] by {}
            }
        }
        j += 1;
    }
    assert(sorted@.take(sorted@.len() as int) =~= sorted@);
    groups
}

/// A copy of a chord.
fn copy_notes(v: &Vec<TabNote>) -> (r: Vec<TabNote>)
    ensures
        r@ == v@,
{
    let mut r: Vec<TabNote> = Vec::new();
    let mut i: usize = 0;
    while i < v.len()
        invariant
            i <= v@.len(),
            r@ == v@.take(i as int),
        decreases v@.len() - i,
    {
        r.push(v[i]);
        assert(v@.take(i + 1) =~= v@.take(i as int).push(v@[i as int]));
        i += 1;
    }
    assert(v@.take(i as int) =~= v@);
    r
}

/// Natural hand position of a chord (see [`natural_pos`]).
pub fn natural_position(notes: &Vec<TabNote>) -> (r: i16)
    ensures
        r as int == natural_pos(notes@),
        1 <= r <= 255,
{
    if notes.len() == 0 {
        return 1;
    }
    let mut m: u8 = 255;
    let mut i: usize = 0;
    while i < notes.len()
        invariant
            i <= notes@.len(),
            m as int == min_fret(notes@.take(i as int)),
        decreases notes@.len() - i,
    {
        assert(notes@.take(i + 1).drop_last() =~= notes@.take(i as int));
        if notes[i].fret < m {
            m = notes[i].fret;
        }
        i += 1;
    }
    assert(notes@.take(notes@.len() as int) =~= notes@);
    if m < 1 {
        1
    } else {
        m as i16
    }
}

/// Whether the whole chord fits the four-fret span starting at `pos`.
pub fn can_play_at(notes: &Vec<TabNote>, pos: i16) -> (r: bool)
    ensures
        r == fits_at(notes@, pos as int),
{
    let mut i: usize = 0;
    while i < notes.len()
        invariant
            i <= notes@.len(),
            forall|k: int| 0 <= k < i ==> pos <= #[trigger] notes@[k].fret <= pos + 3,
        decreases notes@.len() - i,
    {
        let f = notes[i].fret as i16;
        if !(f >= pos && f <= pos + 3) {
            return false;
        }
        i += 1;
    }
    true
}

/// Every fret of the chord is at or above `pos`.
pub open spec fn at_or_above(notes: Seq<TabNote>, pos: int) -> bool {
    forall|k: int| 0 <= k < notes.len() ==> pos <= #[trigger] notes[k].fret
}

/// A natural position lies at or below every fret of a chord with frets >= 1.
proof fn lemma_natural_pos_below(notes: Seq<TabNote>)
    requires
        forall|k: int| 0 <= k < notes.len() ==> #[trigger] notes[k].fret >= 1,
    ensures
        at_or_above(notes, natural_pos(notes)),
        1 <= natural_pos(notes) <= 255,
    decreases notes.len(),
{
    if notes.len() > 0 {
        lemma_min_fret(notes);
    }
}

proof fn lemma_min_fret(notes: Seq<TabNote>)
    ensures
        forall|k: int| 0 <= k < notes.len() ==> min_fret(notes) <= #[trigger] notes[k].fret,
        0 <= min_fret(notes) <= 255,
        notes.len() > 0 ==> exists|k: int| 0 <= k < notes.len() && min_fret(notes) == #[trigger] notes[k].fret,
    decreases notes.len(),
{
    if notes.len() > 0 {
        lemma_min_fret(notes.drop_last());
        assert forall|k: int| 0 <= k < notes.len() implies min_fret(notes) <= #[trigger] notes[k].fret by {
            if k < notes.len() - 1 {
                assert(notes.drop_last()[k] == notes[k]);
            }
        }
        if notes.len() > 1 && !(notes.last().fret < min_fret(notes.drop_last())) {
            let k = choose|k: int| 0 <= k < notes.len() - 1 && min_fret(notes.drop_last()) == #[trigger] notes.drop_last()[k].fret;
            assert(notes[k] == notes.drop_last()[k]);
        } else {
            assert(min_fret(notes) == notes[notes.len() - 1].fret);
        }
    }
}

/// Assignments of one chord played at `position` (see [`assignments_of`]).
pub fn build_assignments(notes: &Vec<TabNote>, position: i16, shifted: bool) -> (r: Vec<FingerAssignment>)
    requires
        1 <= position,
        at_or_above(notes@, position as int),
    ensures
        r@ == assignments_of(notes@, position as int, shifted),
{
    let ghost ns = notes@;
    let ghost pos = position as int;
    // Notes at the position fret.
    let mut at_pos_count: usize = 0;
    let mut i: usize = 0;
    while i < notes.len()
        invariant
            i <= notes@.len(),
            notes@ == ns,
            pos == position as int,
            at_pos_count as int == same_fret_before(ns, i as int, pos),
            at_pos_count <= i,
        decreases notes@.len() - i,
    {
        assert(same_fret_before(ns, i + 1, pos) == same_fret_before(ns, i as int, pos) + if ns[i as int].fret == pos { 1int } else { 0int });
        if notes[i].fret as i16 == position {
            at_pos_count += 1;
        }
        i += 1;
    }
    let is_barre = at_pos_count >= 2;
    let mut out: Vec<FingerAssignment> = Vec::new();
    let mut k: usize = 0;
    while k < notes.len()
        invariant
            k <= notes@.len(),
            notes@ == ns,
            pos == position as int,
            1 <= position,
            at_or_above(ns, pos),
            is_barre == (same_fret_before(ns, ns.len() as int, pos) >= 2),
            out@ =~= assignments_of(ns, pos, shifted).take(k as int),
        decreases notes@.len() - k,
    {
        let note = notes[k];
        // Earlier notes on the same fret, and whether one sits on the barre.
        let mut same: usize = 0;
        let mut j: usize = 0;
        while j < k
            invariant
                j <= k < ns.len(),
                notes@ == ns,
                note == ns[k as int],
                same as int == same_fret_before(ns, j as int, note.fret as int),
                same <= j,
            decreases k - j,
        {
            assert(same_fret_before(ns, j + 1, note.fret as int) == same_fret_before(ns, j as int, note.fret as int) + if ns[j as int].fret == note.fret { 1int } else { 0int });
            if notes[j].fret == note.fret {
                same += 1;
            }
            j += 1;
        }
        let fret = note.fret as i16;
        let (finger, role) = if fret == position && is_barre {
            if same > 0 {
                (1u8, FingerRole::BarreMember)
            } else {
                (1u8, FingerRole::BarreAnchor)
            }
        } else {
            let base: usize = (fret - position + 1) as usize;
            let f = if same >= 4 { 4 } else { base + same };
            (if f < 4 { f as u8 } else { 4u8 }, FingerRole::Single)
        };
        let a = FingerAssignment {
            string: note.string as i8,
            fret,
            finger,
            role,
            position_shift: k == 0 && shifted,
        };
        proof {
            assert(at_or_above(ns, pos));
            assert(pos <= ns[k as int].fret);
            assert(a == assignment_of(ns, pos, shifted, k as int));
        }
        out.push(a);
        k += 1;
    }
    out
}

/// Suggest left-hand fingering for a window of measures.
///
/// Returns one vector per input measure, holding the assignments of that
/// measure's chord events in tick order.
pub fn suggest_fingering(measures: &[&MeasureData], _strings: &[(i8, i8)]) -> (r: Vec<Vec<FingerAssignment>>)
    ensures
        ({
            let ms = Seq::new(measures@.len(), |i: int| *measures@[i]);
            let ev = window_events(ms);
            &&& r@.len() == measures@.len()
            &&& forall|m: int| 0 <= m < r@.len() ==> #[trigger] r@[m]@ == measure_assignments(ev, m, ev.len() as int)
        }),
{
    let ghost ms = Seq::new(measures@.len(), |i: int| *measures@[i]);
    let mut results: Vec<Vec<FingerAssignment>> = Vec::new();
    let mut z: usize = 0;
    while z < measures.len()
        invariant
            z <= measures@.len(),
            results@.len() == z,
            forall|m: int| 0 <= m < z ==> #[trigger] results@[m]@ == Seq::<FingerAssignment>::empty(),
        decreases measures@.len() - z,
    {
        results.push(Vec::new());
        z += 1;
    }
    // Collect events with their measure position.
    let mut ev_measure: Vec<usize> = Vec::new();
    let mut ev_notes: Vec<Vec<TabNote>> = Vec::new();
    let mut mi: usize = 0;
    while mi < measures.len()
        invariant
            mi <= measures@.len(),
            ms == Seq::new(measures@.len(), |i: int| *measures@[i]),
            ev_measure@.len() == ev_notes@.len(),
            ev_notes@.len() == window_events(ms.take(mi as int)).len(),
            forall|k: int| 0 <= k < ev_notes@.len() ==> #[trigger] ev_measure@[k] as int == window_events(ms.take(mi as int))[k].0,
            forall|k: int| 0 <= k < ev_notes@.len() ==> #[trigger] ev_notes@[k]@ == window_events(ms.take(mi as int))[k].1,
            forall|k: int| 0 <= k < ev_notes@.len() ==> #[trigger] ev_measure@[k] < mi,
        decreases measures@.len() - mi,
    {
        let chords = collect_chord_events(measures[mi]);
        let ghost prev = window_events(ms.take(mi as int));
        proof {
            assert(ms.take(mi + 1).drop_last() =~= ms.take(mi as int));
            assert(ms.take(mi + 1).last() == *measures@[mi as int]);
        }
        let ghost next = window_events(ms.take(mi + 1));
        assert(next == prev + chord_events(*measures@[mi as int]).map_values(|c: Seq<TabNote>| (mi as int, c)));
        let mut c: usize = 0;
        while c < chords.len()
            invariant
                c <= chords@.len(),
                chords@.len() == chord_events(*measures@[mi as int]).len(),
                forall|k: int| 0 <= k < chords@.len() ==> #[trigger] chords@[k]@ == chord_events(*measures@[mi as int])[k],
                next == prev + chord_events(*measures@[mi as int]).map_values(|cc: Seq<TabNote>| (mi as int, cc)),
                ev_measure@.len() == ev_notes@.len(),
                ev_notes@.len() == prev.len() + c,
                forall|k: int| 0 <= k < ev_notes@.len() ==> #[trigger] ev_measure@[k] as int == next[k].0,
                forall|k: int| 0 <= k < ev_notes@.len() ==> #[trigger] ev_notes@[k]@ == next[k].1,
                forall|k: int| 0 <= k < ev_notes@.len() ==> #[trigger] ev_measure@[k] <= mi,
                mi < measures@.len(),
            decreases chords@.len() - c,
        {
            ev_measure.push(mi);
            ev_notes.push(copy_notes(&chords[c]));
            proof {
                assert forall|k: int| 0 <= k < ev_notes@.len() implies #[trigger] ev_measure@[k] as int == next[k].0 && ev_notes@[k]@ == next[k].1 by {
                    if k == ev_notes@.len() - 1 {
                        assert(next[k] == (mi as int, chord_events(*measures@[mi as int])[c as int]));
                    }
                }
            }
            c += 1;
        }
        mi += 1;
    }
    assert(ms.take(mi as int) =~= ms);
    let ghost ev = window_events(ms);
    assert(window_events(ms.take(mi as int)) == ev);
    let n_ev = ev_notes.len();
    if n_ev == 0 {
        proof {
            assert forall|m: int| 0 <= m < results@.len() implies #[trigger] results@[m]@ == measure_assignments(ev, m, ev.len() as int) by {}
        }
        return results;
    }
    proof {
        assert forall|k: int, q: int| 0 <= k < ev.len() && 0 <= q < ev[k].1.len() implies #[trigger] ev[k].1[q].fret >= 1 by {
            lemma_window_frets_positive(ms, k);
        }
    }
    // Forward pass.
    let mut positions: Vec<i16> = Vec::new();
    let mut e: usize = 0;
    while e < n_ev
        invariant
            e <= n_ev,
            n_ev == ev_notes@.len(),
            n_ev == ev.len(),
            forall|k: int| 0 <= k < n_ev ==> ev_notes@[k]@ == #[trigger] ev[k].1,
            forall|k: int, q: int| 0 <= k < ev.len() && 0 <= q < ev[k].1.len() ==> #[trigger] ev[k].1[q].fret >= 1,
            positions@.len() == e,
            forall|k: int| 0 <= k < e ==> #[trigger] positions@[k] as int == forward_pos(ev, k),
            forall|k: int| 0 <= k < e ==> 1 <= #[trigger] positions@[k] <= 255,
        decreases n_ev - e,
    {
        let natural = natural_position(&ev_notes[e]);
        let pos = if e > 0 && can_play_at(&ev_notes[e], positions[e - 1]) {
            positions[e - 1]
        } else {
            natural
        };
        positions.push(pos);
        e += 1;
    }
    // Look-ahead pass: event k is retargeted when it closes its measure and
    // the next event opens the following measure.
    let ghost fwd = positions@;
    let mut k: usize = 0;
    while k + 1 < n_ev
        invariant
            k < n_ev,
            n_ev == ev_notes@.len(),
            n_ev == ev.len(),
            n_ev == ev_measure@.len(),
            forall|q: int| 0 <= q < n_ev ==> ev_notes@[q]@ == #[trigger] ev[q].1,
            forall|q: int| 0 <= q < n_ev ==> #[trigger] ev_measure@[q] as int == ev[q].0,
            forall|q: int| 0 <= q < n_ev ==> #[trigger] ev_measure@[q] < measures@.len(),
            forall|q: int, w: int| 0 <= q < ev.len() && 0 <= w < ev[q].1.len() ==> #[trigger] ev[q].1[w].fret >= 1,
            fwd.len() == n_ev,
            forall|q: int| 0 <= q < n_ev ==> #[trigger] fwd[q] as int == forward_pos(ev, q),
            positions@.len() == n_ev,
            forall|q: int| 0 <= q < k ==> #[trigger] positions@[q] as int == final_pos(ev, q),
            forall|q: int| k <= q < n_ev ==> #[trigger] positions@[q] == fwd[q],
            forall|q: int| 0 <= q < n_ev ==> 1 <= #[trigger] positions@[q] <= 255,
        decreases n_ev - k,
    {
        if ev_measure[k + 1] > ev_measure[k] && ev_measure[k + 1] - ev_measure[k] == 1 {
            let next_pos = positions[k + 1];
            if positions[k] != next_pos && can_play_at(&ev_notes[k], next_pos) {
                positions.set(k, next_pos);
            }
        }
        k += 1;
    }
    proof {
        assert(positions@[k as int] as int == final_pos(ev, k as int));
    }
    // Build assignments.
    let mut i: usize = 0;
    while i < n_ev
        invariant
            i <= n_ev,
            n_ev == ev_notes@.len(),
            n_ev == ev.len(),
            n_ev == ev_measure@.len(),
            n_ev > 0,
            forall|q: int| 0 <= q < n_ev ==> ev_notes@[q]@ == #[trigger] ev[q].1,
            forall|q: int| 0 <= q < n_ev ==> #[trigger] ev_measure@[q] as int == ev[q].0,
            forall|q: int| 0 <= q < n_ev ==> #[trigger] ev_measure@[q] < measures@.len(),
            forall|q: int, w: int| 0 <= q < ev.len() && 0 <= w < ev[q].1.len() ==> #[trigger] ev[q].1[w].fret >= 1,
            positions@.len() == n_ev,
            forall|q: int| 0 <= q < n_ev ==> #[trigger] positions@[q] as int == final_pos(ev, q),
            results@.len() == measures@.len(),
            forall|m: int| 0 <= m < results@.len() ==> #[trigger] results@[m]@ == measure_assignments(ev, m, i as int),
        decreases n_ev - i,
    {
        let pos = positions[i];
        let shifted = i > 0 && positions[i - 1] != pos;
        proof {
            lemma_final_pos_below(ev, i as int);
        }
        let assignments = build_assignments(&ev_notes[i], pos, shifted);
        let m = ev_measure[i];
        let mut target = results.remove(m);
        let mut a: usize = 0;
        let ghost t0 = target@;
        while a < assignments.len()
            invariant
                a <= assignments@.len(),
                target@ == t0 + assignments@.take(a as int),
            decreases assignments@.len() - a,
        {
            target.push(assignments[a]);
            assert(t0 + assignments@.take(a + 1) =~= target@);
            a += 1;
        }
        assert(assignments@.take(assignments@.len() as int) =~= assignments@);
        results.insert(m, target);
        proof {
            assert forall|mm: int| 0 <= mm < results@.len() implies #[trigger] results@[mm]@ == measure_assignments(ev, mm, i + 1) by {
                if mm == m {
                } else {
                }
            }
        }
        i += 1;
    }
    results
}

/// Positions chosen by the forward and look-ahead passes sit at or below
/// every fret of their chord.
proof fn lemma_final_pos_below(ev: Seq<(int, Seq<TabNote>)>, k: int)
    requires
        0 <= k < ev.len(),
        forall|q: int, w: int| 0 <= q < ev.len() && 0 <= w < ev[q].1.len() ==> #[trigger] ev[q].1[w].fret >= 1,
    ensures
        at_or_above(ev[k].1, final_pos(ev, k)),
        1 <= final_pos(ev, k) <= 255,
{
    lemma_forward_pos_below(ev, k);
    if k + 1 < ev.len() {
        lemma_forward_pos_below(ev, k + 1);
    }
}

proof fn lemma_forward_pos_below(ev: Seq<(int, Seq<TabNote>)>, k: int)
    requires
        0 <= k < ev.len(),
        forall|q: int, w: int| 0 <= q < ev.len() && 0 <= w < ev[q].1.len() ==> #[trigger] ev[q].1[w].fret >= 1,
    ensures
        at_or_above(ev[k].1, forward_pos(ev, k)),
        1 <= forward_pos(ev, k) <= 255,
    decreases k,
{
    lemma_natural_pos_below(ev[k].1);
    if k > 0 {
        lemma_forward_pos_below(ev, k - 1);
    }
}

/// Every chord note of the window has a fret of at least 1.
proof fn lemma_window_frets_positive(ms: Seq<MeasureData>, k: int)
    requires
        0 <= k < window_events(ms).len(),
    ensures
        forall|q: int| 0 <= q < window_events(ms)[k].1.len() ==> #[trigger] window_events(ms)[k].1[q].fret >= 1,
    decreases ms.len(),
{
    let prev = window_events(ms.drop_last());
    if k < prev.len() {
        lemma_window_frets_positive(ms.drop_last(), k);
    } else {
        let md = ms.last();
        let c = k - prev.len();
        lemma_measure_notes_fretted(md, md.voices@.len() as int);
        let raw = measure_notes_prefix(md, md.voices@.len() as int);
        lemma_sorted_distinct_fretted(raw);
        lemma_groups_fretted(sorted_distinct(raw));
        assert(window_events(ms)[k].1 == chord_events(md)[c]);
    }
}

/// All tick notes carry a fret of at least 1.
pub open spec fn all_fretted(s: Seq<TickNote>) -> bool {
    forall|i: int| 0 <= i < s.len() ==> #[trigger] s[i].1 >= 1
}

proof fn lemma_beat_notes_fretted(b: Beat, k: int)
    ensures
        all_fretted(beat_notes_prefix(b, k)),
    decreases k,
{
    if k > 0 && k <= b.notes@.len() {
        lemma_beat_notes_fretted(b, k - 1);
    }
}

proof fn lemma_voice_notes_fretted(v: Voice, k: int)
    ensures
        all_fretted(voice_notes_prefix(v, k)),
    decreases k,
{
    if k > 0 && k <= v.beats@.len() {
        lemma_voice_notes_fretted(v, k - 1);
        let b = v.beats@[k - 1];
        if !(b.gp_empty || b.gp_rest) {
            lemma_beat_notes_fretted(b, b.notes@.len() as int);
        }
        let a = voice_notes_prefix(v, k - 1);
        let c = beat_tick_notes(b);
        assert forall|i: int| 0 <= i < (a + c).len() implies #[trigger] (a + c)[i].1 >= 1 by {
            if i < a.len() {
                assert((a + c)[i] == a[i]);
            } else {
                assert((a + c)[i] == c[i - a.len()]);
            }
        }
    }
}

proof fn lemma_measure_notes_fretted(md: MeasureData, k: int)
    ensures
        all_fretted(measure_notes_prefix(md, k)),
    decreases k,
{
    if k > 0 && k <= md.voices@.len() {
        lemma_measure_notes_fretted(md, k - 1);
        let v = md.voices@[k - 1];
        lemma_voice_notes_fretted(v, v.beats@.len() as int);
        let a = measure_notes_prefix(md, k - 1);
        let c = voice_notes_prefix(v, v.beats@.len() as int);
        assert forall|i: int| 0 <= i < (a + c).len() implies #[trigger] (a + c)[i].1 >= 1 by {
            if i < a.len() {
                assert((a + c)[i] == a[i]);
            } else {
                assert((a + c)[i] == c[i - a.len()]);
            }
        }
    }
}

proof fn lemma_sorted_distinct_fretted(raw: Seq<TickNote>)
    requires
        all_fretted(raw),
    ensures
        all_fretted(sorted_distinct(raw)),
    decreases raw.len(),
{
    if raw.len() > 0 {
        lemma_sorted_distinct_fretted(raw.drop_last());
        let s = sorted_distinct(raw.drop_last());
        let x = raw.last();
        if !s.contains(x) {
            let k = count_below(s.len() as int, |i: int| tick_note_lt(s[i], x));
            lemma_count_below_bounds(s.len() as int, |i: int| tick_note_lt(s[i], x));
            let t = s.insert(k, x);
            assert forall|i: int| 0 <= i < t.len() implies #[trigger] t[i].1 >= 1 by {
                if i < k {
                    assert(t[i] == s[i]);
                } else if i > k {
                    assert(t[i] == s[i - 1]);
                }
            }
        }
    }
}

proof fn lemma_groups_fretted(s: Seq<TickNote>)
    requires
        all_fretted(s),
    ensures
        forall|g: int, q: int|
            0 <= g < group_by_tick(s).len() && 0 <= q < group_by_tick(s)[g].len() ==> #[trigger] group_by_tick(s)[g][q].fret >= 1,
        s.len() > 0 ==> group_by_tick(s).len() > 0,
    decreases s.len(),
{
    if s.len() > 0 {
        assert(all_fretted(s.drop_last()));
        lemma_groups_fretted(s.drop_last());
        let g = group_by_tick(s.drop_last());
        let n = TabNote { string: s.last().2, fret: s.last().1 };
        assert(n.fret >= 1);
        if s.len() >= 2 && s[s.len() - 2].0 == s.last().0 {
            let h = g.update(g.len() - 1, g.last().push(n));
            assert forall|a: int, q: int| 0 <= a < h.len() && 0 <= q < h[a].len() implies #[trigger] h[a][q].fret >= 1 by {
                if a == g.len() - 1 {
                    if q < g.last().len() {
                        assert(h[a][q] == g[a][q]);
                    }
                } else {
                    assert(h[a] == g[a]);
                }
            }
        } else {
            let h = g.push(seq![n]);
            assert forall|a: int, q: int| 0 <= a < h.len() && 0 <= q < h[a].len() implies #[trigger] h[a][q].fret >= 1 by {
                if a < g.len() {
                    assert(h[a] == g[a]);
                }
            }
        }
    }
}

/// A note of event `j` is placed on its fret, at least 1, with a finger
/// from 1 to 4, the index finger when barred.
proof fn lemma_assignment_ranges(ev: Seq<(int, Seq<TabNote>)>, j: int, q: int)
    requires
        0 <= j < ev.len(),
        0 <= q < ev[j].1.len(),
        forall|a: int, w: int| 0 <= a < ev.len() && 0 <= w < ev[a].1.len() ==> #[trigger] ev[a].1[w].fret >= 1,
    ensures
        ({
            let a = event_assignments(ev, j)[q];
            &&& a.fret >= 1
            &&& 1 <= a.finger <= 4
            &&& a.role != FingerRole::Single ==> a.finger == 1
        }),
{
    lemma_final_pos_below(ev, j);
    let notes = ev[j].1;
    let pos = final_pos(ev, j);
    assert(pos <= notes[q].fret);
    assert(notes[q].fret >= 1);
    lemma_count_below_bounds(q, |x: int| notes[x].fret == notes[q].fret as int);
    lemma_count_below_bounds(notes.len() as int, |x: int| notes[x].fret == pos);
    lemma_count_below_bounds(q, |x: int| notes[x].fret == pos);
}

/// Every placement that [`suggest_fingering`] makes for measure `m` is on a
/// fret of at least 1 (open strings take no finger), uses a finger from 1
/// (index) to 4 (pinky), and a barred note always takes the index finger.
pub proof fn lemma_fingering_ranges(ms: Seq<MeasureData>, m: int, i: int)
    requires
        0 <= i < measure_assignments(window_events(ms), m, window_events(ms).len() as int).len(),
    ensures
        ({
            let a = measure_assignments(window_events(ms), m, window_events(ms).len() as int)[i];
            &&& a.fret >= 1
            &&& 1 <= a.finger <= 4
            &&& a.role != FingerRole::Single ==> a.finger == 1
        }),
{
    let ev = window_events(ms);
    assert forall|a: int, w: int| 0 <= a < ev.len() && 0 <= w < ev[a].1.len() implies #[trigger] ev[a].1[w].fret >= 1 by {
        lemma_window_frets_positive(ms, a);
    }
    lemma_measure_assignments_ranges(ev, m, ev.len() as int, i);
}

proof fn lemma_measure_assignments_ranges(ev: Seq<(int, Seq<TabNote>)>, m: int, k: int, i: int)
    requires
        0 <= k <= ev.len(),
        0 <= i < measure_assignments(ev, m, k).len(),
        forall|a: int, w: int| 0 <= a < ev.len() && 0 <= w < ev[a].1.len() ==> #[trigger] ev[a].1[w].fret >= 1,
    ensures
        ({
            let a = measure_assignments(ev, m, k)[i];
            &&& a.fret >= 1
            &&& 1 <= a.finger <= 4
            &&& a.role != FingerRole::Single ==> a.finger == 1
        }),
    decreases k,
{
    if k > 0 {
        let prev = measure_assignments(ev, m, k - 1);
        if i < prev.len() {
            lemma_measure_assignments_ranges(ev, m, k - 1, i);
        } else {
            assert(ev[k - 1].0 == m);
            lemma_assignment_ranges(ev, k - 1, i - prev.len());
        }
    }
}


/// When two notes of a chord (at positions `i < j`) lie on the position fret,
/// every note on that fret is barred with the index finger: the first one
/// as the barre's anchor, each later one as a member.
pub proof fn lemma_shared_position_fret_is_barred(notes: Seq<TabNote>, pos: int, shifted: bool, i: int, j: int)
    requires
        0 <= i < j < notes.len(),
        notes[i].fret == pos,
        notes[j].fret == pos,
    ensures
        forall|k: int|
            0 <= k < notes.len() && notes[k].fret == pos ==> {
                let a = #[trigger] assignments_of(notes, pos, shifted)[k];
                &&& a.finger == 1
                &&& a.role == if exists|q: int| 0 <= q < k && notes[q].fret == pos {
                    FingerRole::BarreMember
                } else {
                    FingerRole::BarreAnchor
                }
            },
{
    let p = |q: int| notes[q].fret == pos;
    lemma_count_below_two(notes.len() as int, p, i, j);
    assert(same_fret_before(notes, notes.len() as int, pos) >= 2);
    assert forall|k: int| 0 <= k < notes.len() && notes[k].fret == pos implies {
        let a = #[trigger] assignments_of(notes, pos, shifted)[k];
        &&& a.finger == 1
        &&& a.role == if exists|q: int| 0 <= q < k && notes[q].fret == pos {
            FingerRole::BarreMember
        } else {
            FingerRole::BarreAnchor
        }
    } by {
        lemma_count_below_zero(k, p);
        lemma_count_below_bounds(k, p);
        if exists|q: int| 0 <= q < k && notes[q].fret == pos {
            let q = choose|q: int| 0 <= q < k && notes[q].fret == pos;
            assert(p(q));
        }
    }
}

/// When at most one note of a chord lies on the position fret, no note is
/// barred: every assignment is a single-finger placement.
pub proof fn lemma_lone_position_fret_is_not_barred(notes: Seq<TabNote>, pos: int, shifted: bool)
    requires
        forall|i: int, j: int| 0 <= i < j < notes.len() ==> !(notes[i].fret == pos && notes[j].fret == pos),
    ensures
        forall|k: int| 0 <= k < notes.len() ==> (#[trigger] assignments_of(notes, pos, shifted)[k]).role
            == FingerRole::Single,
{
    let p = |q: int| notes[q].fret == pos;
    assert forall|i: int, j: int| 0 <= i < j < notes.len() implies !(#[trigger] p(i) && #[trigger] p(j)) by {
        assert(!(notes[i].fret == pos && notes[j].fret == pos));
    }
    lemma_count_below_at_most_one(notes.len() as int, p);
    assert(same_fret_before(notes, notes.len() as int, pos) <= 1);
}


/// A note played off the barre, with no earlier note of the chord on its
/// fret, is placed with a single finger counted from the position: index
/// on the position fret, then one finger per fret above it, at most the
/// pinky; it keeps its string and fret, and only the first note of a
/// chord reached by a shift of hand position is marked as shifted.
pub proof fn lemma_single_finger_follows_fret(notes: Seq<TabNote>, pos: int, shifted: bool, k: int)
    requires
        0 <= k < notes.len(),
        pos <= notes[k].fret,
        notes[k].fret != pos || forall|i: int, j: int|
            0 <= i < j < notes.len() ==> !(notes[i].fret == pos && notes[j].fret == pos),
        forall|q: int| 0 <= q < k ==> notes[q].fret != notes[k].fret,
    ensures
        assignments_of(notes, pos, shifted)[k].role == FingerRole::Single,
        assignments_of(notes, pos, shifted)[k].finger == if notes[k].fret - pos + 1 < 4 {
            notes[k].fret - pos + 1
        } else {
            4
        },
        assignments_of(notes, pos, shifted)[k].string == notes[k].string as i8,
        assignments_of(notes, pos, shifted)[k].fret == notes[k].fret as i16,
        assignments_of(notes, pos, shifted)[k].position_shift == (k == 0 && shifted),
{
    let f = notes[k].fret as int;
    let pf = |q: int| notes[q].fret == f;
    lemma_count_below_zero(k, pf);
    assert(same_fret_before(notes, k, f) == 0);
    if notes[k].fret == pos {
        let p = |q: int| notes[q].fret == pos;
        assert forall|i: int, j: int| 0 <= i < j < notes.len() implies !(#[trigger] p(i) && #[trigger] p(j)) by {
            assert(!(notes[i].fret == pos && notes[j].fret == pos));
        }
        lemma_count_below_at_most_one(notes.len() as int, p);
        assert(same_fret_before(notes, notes.len() as int, pos) <= 1);
    }
}

} // verus!
