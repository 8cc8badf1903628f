//! Structural form detection: the exact parts.
//!
//! The form of a track is found in two steps.  Segmentation marks section
//! boundaries at silence transitions, at the edges of simile-mark runs and
//! where the pitch-class content of adjacent sounding measures changes
//! (Jaccard similarity below 0.6), then recursively splits any section
//! longer than 16 measures at its midpoint, snapped to a multiple of 4.
//! Labelling compares sections with a weighted similarity score and names
//! them `A`, `B`, `A'`, …
//!
//! This module holds the segmentation and the exact measures it and the
//! labelling use: per-measure silence, pitch-class sets and rhythms, the
//! Jaccard counts, the edit distance of rhythm sequences and the labels.

use vstd::prelude::*;
use vstd::relations::sorted_by;

use crate::analysis::repeats::note_value_code;
use crate::counting::{count_below, lemma_count_below_is_set_len, set_below};
use crate::text::char_text;
use crate::model::{open_string_pitch, step_semitone, Beat, MeasureData, Note, NoteValue, Voice};

verus! {

// ---------------------------------------------------------------------------
// Edit distance
// ---------------------------------------------------------------------------

/// Levenshtein distance between the first `i` items of `a` and the first
/// `j` items of `b` (Wagner–Fischer recurrence).
pub open spec fn lev(a: Seq<u8>, b: Seq<u8>, i: nat, j: nat) -> nat
    decreases i, j,
{
    if i == 0 {
        j
    } else if j == 0 {
        i
    } else if a[i - 1] == b[j - 1] {
        lev(a, b, (i - 1) as nat, (j - 1) as nat)
    } else {
        let d = lev(a, b, (i - 1) as nat, (j - 1) as nat);
        let u = lev(a, b, (i - 1) as nat, j);
        let l = lev(a, b, i, (j - 1) as nat);
        1 + if d <= u && d <= l {
            d
        } else if u <= l {
            u
        } else {
            l
        }
    }
}

/// The edit distance of two sequences never exceeds the longer length.
pub proof fn lemma_lev_bound(a: Seq<u8>, b: Seq<u8>, i: nat, j: nat)
    ensures
        lev(a, b, i, j) <= if i >= j {
            i
        } else {
            j
        },
    decreases i, j,
{
    if i > 0 && j > 0 {
        lemma_lev_bound(a, b, (i - 1) as nat, (j - 1) as nat);
    }
}

/// A sequence is at edit distance 0 from itself.
pub proof fn lemma_lev_identical(a: Seq<u8>, i: nat)
    ensures
        lev(a, a, i, i) == 0,
    decreases i,
{
    if i > 0 {
        lemma_lev_identical(a, (i - 1) as nat);
    }
}

/// The edit distance is symmetric.
pub proof fn lemma_lev_symmetric(a: Seq<u8>, b: Seq<u8>, i: nat, j: nat)
    ensures
        lev(a, b, i, j) == lev(b, a, j, i),
    decreases i, j,
{
    if i > 0 && j > 0 {
        lemma_lev_symmetric(a, b, (i - 1) as nat, (j - 1) as nat);
        lemma_lev_symmetric(a, b, (i - 1) as nat, j);
        lemma_lev_symmetric(a, b, i, (j - 1) as nat);
    }
}

/// Levenshtein edit distance, computed with a rolling one-row table.
pub fn edit_distance(a: &[u8], b: &[u8]) -> (r: usize)
    ensures
        r == lev(a@, b@, a@.len(), b@.len()),
{
    let n = b.len();
    let mut dp: Vec<usize> = Vec::new();
    let mut t: usize = 0;
    while t < n
        invariant
            t <= n,
            n == b@.len(),
            dp@.len() == t,
            forall|k: int| 0 <= k < t ==> #[trigger] dp@[k] == lev(a@, b@, 0, k as nat),
        decreases n - t,
    {
        dp.push(t);
        t += 1;
    }
    dp.push(n);
    let mut i: usize = 0;
    while i < a.len()
        invariant
            i <= a@.len(),
            n == b@.len(),
            dp@.len() == n + 1,
            forall|k: int| 0 <= k <= n ==> #[trigger] dp@[k] == lev(a@, b@, i as nat, k as nat),
        decreases a@.len() - i,
    {
        let ai = a[i];
        let mut prev = dp[0];
        dp.set(0, i + 1);
        let mut t: usize = 0;
        while t < n
            invariant
                t <= n,
                i < a@.len(),
                i < usize::MAX,
                ai == a@[i as int],
                n == b@.len(),
                dp@.len() == n + 1,
                prev == lev(a@, b@, i as nat, t as nat),
                forall|k: int| 0 <= k <= t ==> #[trigger] dp@[k] == lev(a@, b@, (i + 1) as nat, k as nat),
                forall|k: int| t < k <= n ==> #[trigger] dp@[k] == lev(a@, b@, i as nat, k as nat),
            decreases n - t,
        {
            let j = t + 1;
            assert(i < usize::MAX);
            let old = dp[j];
            let left = dp[t];
            proof {
                lemma_lev_bound(a@, b@, i as nat, t as nat);
                assert(prev < usize::MAX);
            }
            let v = if ai == b[t] {
                prev
            } else {
                let m = if prev <= old && prev <= left {
                    prev
                } else if old <= left {
                    old
                } else {
                    left
                };
                assert(m <= prev);
                1 + m
            };
            dp.set(j, v);
            prev = old;
            t += 1;
        }
        i += 1;
    }
    dp[n]
}

// ---------------------------------------------------------------------------
// Labels
// ---------------------------------------------------------------------------

/// A label: base letter followed by `primes` apostrophes.
/// 0 primes gives `"A"`, 1 prime `"A'"`, 2 primes `"A''"`, and so on.
pub fn label_with_primes(base: char, primes: usize) -> (r: String)
    ensures
        r@ == seq![base] + Seq::new(primes as nat, |k: int| '\''),
{
    let mut s = char_text(base);
    let mut k: usize = 0;
    while k < primes
        invariant
            k <= primes,
            s@ == seq![base] + Seq::new(k as nat, |q: int| '\''),
        decreases primes - k,
    {
        proof {
            reveal_strlit("'");
        }
        s.append("'");
        k += 1;
        assert(s@ =~= seq![base] + Seq::new(k as nat, |q: int| '\''));
    }
    s
}

// ---------------------------------------------------------------------------
// Pitch-class sets
// ---------------------------------------------------------------------------

/// Distinct pitch classes present in either set, and in both.
pub open spec fn union_count(a: Seq<bool>, b: Seq<bool>, n: int) -> int
    decreases n,
{
    if n <= 0 {
        0
    } else {
        union_count(a, b, n - 1) + if a[n - 1] || b[n - 1] {
            1int
        } else {
            0int
        }
    }
}

/// Pitch classes present in both sets among the first `n`.
pub open spec fn inter_count(a: Seq<bool>, b: Seq<bool>, n: int) -> int
    decreases n,
{
    if n <= 0 {
        0
    } else {
        inter_count(a, b, n - 1) + if a[n - 1] && b[n - 1] {
            1int
        } else {
            0int
        }
    }
}

/// The Jaccard similarity of two pitch-class sets as `(intersection,
/// union)`; the similarity is their quotient, 1 when the union is empty.
pub fn jaccard_counts(a: &[bool; 12], b: &[bool; 12]) -> (r: (u32, u32))
    ensures
        r.0 == inter_count(a@, b@, 12),
        r.1 == union_count(a@, b@, 12),
        r.0 <= r.1 <= 12,
{
    let mut inter: u32 = 0;
    let mut union: u32 = 0;
    let mut i: usize = 0;
    while i < 12
        invariant
            i <= 12,
            inter == inter_count(a@, b@, i as int),
            union == union_count(a@, b@, i as int),
            inter <= union <= i,
        decreases 12 - i,
    {
        if a[i] || b[i] {
            union += 1;
        }
        if a[i] && b[i] {
            inter += 1;
        }
        i += 1;
    }
    (inter, union)
}

/// The content changes between two adjacent measures: their pitch-class
/// sets have a Jaccard similarity below 0.6 (an empty union counts as 1).
pub open spec fn content_changes(a: Seq<bool>, b: Seq<bool>) -> bool {
    union_count(a, b, 12) > 0 && 5 * inter_count(a, b, 12) < 3 * union_count(a, b, 12)
}

fn content_changes_exec(a: &[bool; 12], b: &[bool; 12]) -> (r: bool)
    ensures
        r == content_changes(a@, b@),
{
    let (inter, union) = jaccard_counts(a, b);
    union > 0 && 5 * inter < 3 * union
}

// ---------------------------------------------------------------------------
// Per-measure features
// ---------------------------------------------------------------------------

/// A beat that sounds nothing: a rest or a filler.
pub open spec fn beat_silent(b: Beat) -> bool {
    b.gp_rest || b.gp_empty
}

/// Every beat of every voice is a rest or filler.
pub open spec fn silent(md: MeasureData) -> bool {
    forall|v: int, k: int|
        0 <= v < md.voices@.len() && 0 <= k < md.voices@[v].beats@.len() ==> beat_silent(
            #[trigger] md.voices@[v].beats@[k],
        )
}

/// `true` when every beat in every voice is a rest or filler.
pub fn measure_is_silent(md: &MeasureData) -> (r: bool)
    ensures
        r == silent(*md),
{
    let mut v: usize = 0;
    while v < md.voices.len()
        invariant
            v <= md.voices@.len(),
            forall|w: int, k: int|
                0 <= w < v && 0 <= k < md.voices@[w].beats@.len() ==> beat_silent(
                    #[trigger] md.voices@[w].beats@[k],
                ),
        decreases md.voices@.len() - v,
    {
        let voice = &md.voices[v];
        let mut k: usize = 0;
        while k < voice.beats.len()
            invariant
                k <= voice.beats@.len(),
                v < md.voices@.len(),
                voice == md.voices@[v as int],
                forall|w: int, kk: int|
                    0 <= w < v && 0 <= kk < md.voices@[w].beats@.len() ==> beat_silent(
                        #[trigger] md.voices@[w].beats@[kk],
                    ),
                forall|q: int| 0 <= q < k ==> beat_silent(#[trigger] voice.beats@[q]),
            decreases voice.beats@.len() - k,
        {
            let b = &voice.beats[k];
            if !(b.gp_rest || b.gp_empty) {
                assert(!beat_silent(md.voices@[v as int].beats@[k as int]));
                return false;
            }
            k += 1;
        }
        v += 1;
    }
    true
}

/// Pitch class of a note for form analysis: from the tablature when string
/// and fret are set (none when the tuning lacks the string), else from the
/// written pitch.
pub open spec fn form_note_pc(n: Note, strings: Seq<(i8, i8)>) -> Option<int> {
    if n.string is Some && n.fret is Some {
        match open_string_pitch(strings, n.string->0 as i8) {
            Some(o) => Some((o + n.fret->0) % 12),
            None => None,
        }
    } else if n.pitch is Some {
        Some((step_semitone(n.pitch->0.step) + n.pitch->0.alter) % 12)
    } else {
        None
    }
}

fn form_note_to_pc(note: &Note, strings: &[(i8, i8)]) -> (r: Option<u8>)
    ensures
        match r {
            Some(p) => form_note_pc(*note, strings@) == Some(p as int) && p < 12,
            None => form_note_pc(*note, strings@) is None,
        },
{
    if note.string.is_some() && note.fret.is_some() {
        let s = note.string.unwrap();
        let f = note.fret.unwrap();
        match crate::model::find_open_string(strings, s as i8) {
            Some(open) => {
                let x: i32 = open as i32 + f as i32 + 132;
                Some((x % 12) as u8)
            },
            None => None,
        }
    } else {
        match note.pitch {
            Some(p) => {
                let x: i32 = crate::model::pitch_step_semitone(p.step) + p.alter as i32 + 132;
                Some((x % 12) as u8)
            },
            None => None,
        }
    }
}

/// Pitch classes of the sounding notes among `notes`, in order.
pub open spec fn notes_pcs(notes: Seq<Note>, strings: Seq<(i8, i8)>) -> Seq<int>
    decreases notes.len(),
{
    if notes.len() == 0 {
        Seq::empty()
    } else {
        let rest = notes_pcs(notes.drop_last(), strings);
        let n = notes.last();
        if !n.gp_is_rest && form_note_pc(n, strings) is Some {
            rest.push(form_note_pc(n, strings)->0)
        } else {
            rest
        }
    }
}

/// Pitch classes of the sounding beats among `beats`.
pub open spec fn beats_pcs(beats: Seq<Beat>, strings: Seq<(i8, i8)>) -> Seq<int>
    decreases beats.len(),
{
    if beats.len() == 0 {
        Seq::empty()
    } else {
        beats_pcs(beats.drop_last(), strings) + if beat_silent(beats.last()) {
            Seq::empty()
        } else {
            notes_pcs(beats.last().notes@, strings)
        }
    }
}

/// Pitch classes of the voices.
pub open spec fn voices_pcs(voices: Seq<Voice>, strings: Seq<(i8, i8)>) -> Seq<int>
    decreases voices.len(),
{
    if voices.len() == 0 {
        Seq::empty()
    } else {
        voices_pcs(voices.drop_last(), strings) + beats_pcs(voices.last().beats@, strings)
    }
}

/// Pitch class `p` sounds in the measure.
pub open spec fn pc_present(md: MeasureData, strings: Seq<(i8, i8)>, p: int) -> bool {
    voices_pcs(md.voices@, strings).contains(p)
}

/// Append the pitch classes of a sounding beat to `out`.
fn push_beat_pcs(beat: &Beat, strings: &[(i8, i8)], out: &mut Vec<u8>)
    requires
        forall|k: int| 0 <= k < old(out)@.len() ==> #[trigger] old(out)@[k] < 12,
    ensures
        final(out)@.map_values(|x: u8| x as int) == old(out)@.map_values(|x: u8| x as int) + if beat_silent(
            *beat,
        ) {
            Seq::empty()
        } else {
            notes_pcs(beat.notes@, strings@)
        },
        forall|k: int| 0 <= k < final(out)@.len() ==> #[trigger] final(out)@[k] < 12,
{
    let ghost start = out@.map_values(|x: u8| x as int);
    if beat.gp_rest || beat.gp_empty {
        assert(out@.map_values(|x: u8| x as int) =~= start + Seq::<int>::empty());
        return;
    }
    let mut q: usize = 0;
    while q < beat.notes.len()
        invariant
            q <= beat.notes@.len(),
            out@.map_values(|x: u8| x as int) == start + notes_pcs(beat.notes@.take(q as int), strings@),
            forall|k: int| 0 <= k < out@.len() ==> #[trigger] out@[k] < 12,
        decreases beat.notes@.len() - q,
    {
        assert(beat.notes@.take(q + 1).drop_last() =~= beat.notes@.take(q as int));
        let note = &beat.notes[q];
        let ghost before = out@.map_values(|x: u8| x as int);
        if !note.gp_is_rest {
            match form_note_to_pc(note, strings) {
                Some(p) => {
                    out.push(p);
                    assert(out@.map_values(|x: u8| x as int) =~= before.push(p as int));
                },
                None => {},
            }
        }
        q += 1;
        assert(out@.map_values(|x: u8| x as int) =~= start + notes_pcs(beat.notes@.take(q as int), strings@));
    }
    assert(beat.notes@.take(q as int) =~= beat.notes@);
}

/// Pitch-class presence set of one measure.
pub fn measure_pc_set(md: &MeasureData, strings: &[(i8, i8)]) -> (r: [bool; 12])
    ensures
        forall|p: int| 0 <= p < 12 ==> #[trigger] r@[p] == pc_present(*md, strings@, p),
{
    let mut out: Vec<u8> = Vec::new();
    let mut v: usize = 0;
    while v < md.voices.len()
        invariant
            v <= md.voices@.len(),
            out@.map_values(|x: u8| x as int) == voices_pcs(md.voices@.take(v as int), strings@),
            forall|k: int| 0 <= k < out@.len() ==> #[trigger] out@[k] < 12,
        decreases md.voices@.len() - v,
    {
        let voice = &md.voices[v];
        assert(md.voices@.take(v + 1).drop_last() =~= md.voices@.take(v as int));
        let ghost before = out@.map_values(|x: u8| x as int);
        let mut k: usize = 0;
        while k < voice.beats.len()
            invariant
                k <= voice.beats@.len(),
                v < md.voices@.len(),
                voice == md.voices@[v as int],
                out@.map_values(|x: u8| x as int) == before + beats_pcs(voice.beats@.take(k as int), strings@),
                forall|q: int| 0 <= q < out@.len() ==> #[trigger] out@[q] < 12,
            decreases voice.beats@.len() - k,
        {
            assert(voice.beats@.take(k + 1).drop_last() =~= voice.beats@.take(k as int));
            push_beat_pcs(&voice.beats[k], strings, &mut out);
            k += 1;
            assert(out@.map_values(|x: u8| x as int) =~= before + beats_pcs(voice.beats@.take(k as int), strings@));
        }
        assert(voice.beats@.take(k as int) =~= voice.beats@);
        v += 1;
        assert(out@.map_values(|x: u8| x as int) =~= voices_pcs(md.voices@.take(v as int), strings@));
    }
    assert(md.voices@.take(v as int) =~= md.voices@);
    let ghost all = out@.map_values(|x: u8| x as int);
    let mut pc = [false;12];
    let mut i: usize = 0;
    while i < out.len()
        invariant
            i <= out@.len(),
            all == out@.map_values(|x: u8| x as int),
            forall|k: int| 0 <= k < out@.len() ==> #[trigger] out@[k] < 12,
            forall|p: int| 0 <= p < 12 ==> #[trigger] pc@[p] == all.take(i as int).contains(p),
        decreases out@.len() - i,
    {
        let x = out[i];
        pc[x as usize] = true;
        proof {
            assert(all[i as int] == x as int);
            assert(all.take(i + 1) =~= all.take(i as int).push(x as int));
            assert forall|p: int| 0 <= p < 12 implies #[trigger] pc@[p] == all.take(i + 1).contains(p) by {
                if p == x as int {
                    assert(all.take(i + 1)[i as int] == p);
                } else {
                    if all.take(i + 1).contains(p) {
                        let w = choose|w: int| 0 <= w < all.take(i + 1).len() && #[trigger] all.take(i + 1)[w] == p;
                        assert(all.take(i as int)[w] == p);
                    }
                    if all.take(i as int).contains(p) {
                        let w = choose|w: int| 0 <= w < all.take(i as int).len() && #[trigger] all.take(i as int)[w] == p;
                        assert(all.take(i + 1)[w] == p);
                    }
                }
            }
        }
        i += 1;
    }
    assert(all.take(i as int) =~= all);
    pc
}

// ---------------------------------------------------------------------------
// Rhythm
// ---------------------------------------------------------------------------

/// Duration codes of the sounding beats among `beats`, in order.
pub open spec fn beats_rhythm(beats: Seq<Beat>) -> Seq<u8>
    decreases beats.len(),
{
    if beats.len() == 0 {
        Seq::empty()
    } else {
        beats_rhythm(beats.drop_last()) + if beat_silent(beats.last()) {
            Seq::empty()
        } else {
            seq![note_value_code(beats.last().duration.base) as u8]
        }
    }
}

/// Duration codes of the sounding beats of all voices, in voice order.
pub open spec fn voices_rhythm(voices: Seq<Voice>) -> Seq<u8>
    decreases voices.len(),
{
    if voices.len() == 0 {
        Seq::empty()
    } else {
        voices_rhythm(voices.drop_last()) + beats_rhythm(voices.last().beats@)
    }
}

/// Ascending order of duration codes.
pub open spec fn code_le() -> spec_fn(u8, u8) -> bool {
    |x: u8, y: u8| x <= y
}

proof fn lemma_insert_multiset(s: Seq<u8>, p: int, x: u8)
    requires
        0 <= p <= s.len(),
    ensures
        s.insert(p, x).to_multiset() =~= s.to_multiset().insert(x),
{
    broadcast use vstd::multiset::group_multiset_axioms;
    broadcast use vstd::seq_lib::group_to_multiset_ensures;

    let a = s.take(p);
    let b = s.skip(p);
    assert(s =~= a + b);
    assert(s.insert(p, x) =~= a.push(x) + b);
    vstd::seq_lib::lemma_multiset_commutative(a, b);
    vstd::seq_lib::lemma_multiset_commutative(a.push(x), b);
}

/// `v` sorted ascending (insertion sort).
pub(crate) fn sort_codes(v: &Vec<u8>) -> (r: Vec<u8>)
    ensures
        sorted_by(r@, code_le()),
        r@.to_multiset() == v@.to_multiset(),
{
    broadcast use vstd::seq_lib::group_to_multiset_ensures;

    let mut r: Vec<u8> = Vec::new();
    let mut i: usize = 0;
    while i < v.len()
        invariant
            i <= v@.len(),
            sorted_by(r@, code_le()),
            r@.to_multiset() == v@.take(i as int).to_multiset(),
        decreases v@.len() - i,
    {
        let x = v[i];
        let mut p: usize = 0;
        while p < r.len() && r[p] <= x
            invariant
                p <= r@.len(),
                forall|q: int| 0 <= q < p ==> r@[q] <= x,
            decreases r@.len() - p,
        {
            p += 1;
        }
        let ghost old_r = r@;
        proof {
            assert forall|q: int| p <= q < old_r.len() implies x < old_r[q] by {
                assert(code_le()(old_r[p as int], old_r[q]) || q == p);
            }
            lemma_insert_multiset(old_r, p as int, x);
        }
        r.insert(p, x);
        proof {
            assert forall|a: int, b: int| 0 <= a < b < r@.len() implies #[trigger] code_le()(
                r@[a],
                r@[b],
            ) by {
                if b < p {
                    assert(code_le()(old_r[a], old_r[b]));
                } else if a > p {
                    assert(code_le()(old_r[a - 1], old_r[b - 1]));
                } else if a == p {
                } else {
                    if b > p {
                        assert(old_r[a] <= x);
                    }
                }
            }
            assert(r@ == old_r.insert(p as int, x));
            assert(r@.to_multiset() =~= old_r.to_multiset().insert(x));
            assert(v@.take(i + 1) =~= v@.take(i as int).push(x));
            v@.take(i as int).to_multiset_ensures();
        }
        i += 1;
    }
    assert(v@.take(i as int) =~= v@);
    r
}

/// Sorted duration codes of one measure's sounding beats, all voices
/// combined.
pub fn measure_rhythm(md: &MeasureData) -> (r: Vec<u8>)
    ensures
        sorted_by(r@, code_le()),
        r@.to_multiset() == voices_rhythm(md.voices@).to_multiset(),
{
    let mut durs: Vec<u8> = Vec::new();
    let mut v: usize = 0;
    while v < md.voices.len()
        invariant
            v <= md.voices@.len(),
            durs@ == voices_rhythm(md.voices@.take(v as int)),
        decreases md.voices@.len() - v,
    {
        let voice = &md.voices[v];
        assert(md.voices@.take(v + 1).drop_last() =~= md.voices@.take(v as int));
        let ghost before = durs@;
        let mut k: usize = 0;
        while k < voice.beats.len()
            invariant
                k <= voice.beats@.len(),
                v < md.voices@.len(),
                voice == md.voices@[v as int],
                durs@ == before + beats_rhythm(voice.beats@.take(k as int)),
            decreases voice.beats@.len() - k,
        {
            assert(voice.beats@.take(k + 1).drop_last() =~= voice.beats@.take(k as int));
            let b = &voice.beats[k];
            if !(b.gp_rest || b.gp_empty) {
                let c = crate::analysis::repeats::note_value_to_u8(b.duration.base);
                durs.push(c);
            }
            k += 1;
            assert(durs@ =~= before + beats_rhythm(voice.beats@.take(k as int)));
        }
        assert(voice.beats@.take(k as int) =~= voice.beats@);
        v += 1;
        assert(durs@ =~= voices_rhythm(md.voices@.take(v as int)));
    }
    assert(md.voices@.take(v as int) =~= md.voices@);
    sort_codes(&durs)
}

// ---------------------------------------------------------------------------
// Segmentation
// ---------------------------------------------------------------------------

/// Maximum number of measures in one section before it is split.
pub const MAX_SECTION_LEN: usize = 16;

/// Where a section `start..end` longer than the maximum is split: its
/// midpoint (rounded up), snapped to the nearest multiple of 4 when that
/// stays strictly inside the section.
pub open spec fn split_point(start: int, end: int) -> int {
    let raw = start + (end - start + 1) / 2;
    let snapped = ((raw + 2) / 4) * 4;
    if start < snapped && snapped < end {
        snapped
    } else {
        raw
    }
}

/// Section starts after recursively halving `start..end` until no part
/// exceeds the maximum length.
pub open spec fn split_section(start: int, end: int) -> Seq<int>
    decreases end - start,
{
    if end - start > 16 {
        let mid = split_point(start, end);
        split_section(start, mid) + split_section(mid, end)
    } else {
        seq![start]
    }
}

/// Section starts after splitting every section of the boundary list `bs`
/// (the last section ending at `n`).
pub open spec fn expand(bs: Seq<int>, n: int) -> Seq<int>
    decreases bs.len(),
{
    if bs.len() == 0 {
        Seq::empty()
    } else {
        split_section(
            bs[0],
            if bs.len() > 1 {
                bs[1]
            } else {
                n
            },
        ) + expand(bs.drop_first(), n)
    }
}

/// Boundaries strictly increase and stay below `n`.
pub open spec fn increasing_below(bs: Seq<int>, n: int) -> bool {
    &&& forall|i: int, j: int| 0 <= i < j < bs.len() ==> bs[i] < bs[j]
    &&& forall|i: int| 0 <= i < bs.len() ==> 0 <= #[trigger] bs[i] < n
}

/// The integer view of a boundary vector.
pub open spec fn ints(v: Seq<usize>) -> Seq<int> {
    v.map_values(|x: usize| x as int)
}

/// Start of the section at position `i`, `n` past the end.
pub open spec fn section_start(bs: Seq<int>, i: int, n: int) -> int {
    if i < bs.len() {
        bs[i]
    } else {
        n
    }
}

/// End of the section at position `i`.
pub open spec fn section_end(bs: Seq<int>, i: int, n: int) -> int {
    if i + 1 < bs.len() {
        bs[i + 1]
    } else {
        n
    }
}

proof fn lemma_expand_skip(bs: Seq<int>, i: int, n: int)
    requires
        0 <= i < bs.len(),
    ensures
        expand(bs.skip(i), n) == split_section(bs[i], section_end(bs, i, n)) + expand(
            bs.skip(i + 1),
            n,
        ),
{
    assert(bs.skip(i).drop_first() =~= bs.skip(i + 1));
    assert(bs.skip(i)[0] == bs[i]);
    if i + 1 < bs.len() {
        assert(bs.skip(i)[1] == bs[i + 1]);
    }
}

proof fn lemma_split_step(bs: Seq<int>, i: int, n: int, mid: int)
    requires
        increasing_below(bs, n),
        0 <= i < bs.len(),
        section_end(bs, i, n) - bs[i] > 16,
        mid == split_point(bs[i], section_end(bs, i, n)),
    ensures
        increasing_below(bs.insert(i + 1, mid), n),
        bs[i] < mid < section_end(bs, i, n),
        bs.insert(i + 1, mid).take(i) + expand(bs.insert(i + 1, mid).skip(i), n) == bs.take(i)
            + expand(bs.skip(i), n),
{
    let nb = bs.insert(i + 1, mid);
    let end = section_end(bs, i, n);
    assert forall|a: int, b: int| 0 <= a < b < nb.len() implies nb[a] < nb[b] by {
        if b <= i {
        } else if a <= i && b == i + 1 {
            assert(bs[a] <= bs[i]);
        } else if a <= i {
            assert(bs[a] < bs[b - 1]);
        } else if a == i + 1 {
            if b - 1 > i + 1 {
                assert(bs[i + 1] < bs[b - 1]);
            }
        } else {
            assert(bs[a - 1] < bs[b - 1]);
        }
    }
    assert forall|a: int| 0 <= a < nb.len() implies 0 <= #[trigger] nb[a] < n by {
        if a < i + 1 {
            assert(nb[a] == bs[a]);
        } else if a > i + 1 {
            assert(nb[a] == bs[a - 1]);
        }
    }
    lemma_expand_skip(bs, i, n);
    lemma_expand_skip(nb, i, n);
    lemma_expand_skip(nb, i + 1, n);
    assert(nb.take(i) =~= bs.take(i));
    assert(nb.skip(i + 2) =~= bs.skip(i + 1));
    assert(section_end(nb, i, n) == mid);
    assert(section_end(nb, i + 1, n) == end);
    assert(split_section(bs[i], end) == split_section(bs[i], mid) + split_section(mid, end));
}

proof fn lemma_advance_step(bs: Seq<int>, i: int, n: int)
    requires
        0 <= i < bs.len(),
        section_end(bs, i, n) - bs[i] <= 16,
    ensures
        bs.take(i + 1) + expand(bs.skip(i + 1), n) == bs.take(i) + expand(bs.skip(i), n),
{
    lemma_expand_skip(bs, i, n);
    assert(bs.take(i + 1) =~= bs.take(i).push(bs[i]));
    assert(split_section(bs[i], section_end(bs, i, n)) =~= seq![bs[i]]);
    assert(bs.take(i + 1) + expand(bs.skip(i + 1), n) =~= bs.take(i) + (seq![bs[i]] + expand(
        bs.skip(i + 1),
        n,
    )));
}


/// A split section starts where the section did.
proof fn lemma_split_first(start: int, end: int)
    requires
        start < end,
    ensures
        split_section(start, end).len() >= 1,
        split_section(start, end)[0] == start,
    decreases end - start,
{
    if end - start > 16 {
        let mid = split_point(start, end);
        let raw = start + (end - start + 1) / 2;
        assert(start < raw < end);
        assert(start < mid < end);
        lemma_split_first(start, mid);
    }
}

/// Splitting keeps every section start of an increasing boundary list.
proof fn lemma_expand_keeps(bs: Seq<int>, n: int, j: int)
    requires
        increasing_below(bs, n),
        0 <= j < bs.len(),
    ensures
        expand(bs, n).contains(bs[j]),
    decreases bs.len(),
{
    let next = if bs.len() > 1 { bs[1] } else { n };
    assert(bs[0] < next);
    lemma_split_first(bs[0], next);
    let head = split_section(bs[0], next);
    let rest = expand(bs.drop_first(), n);
    assert(expand(bs, n) == head + rest);
    if j == 0 {
        assert((head + rest)[0] == bs[0]);
    } else {
        let d = bs.drop_first();
        assert forall|a: int, b: int| 0 <= a < b < d.len() implies d[a] < d[b] by {
            assert(bs[a + 1] < bs[b + 1]);
        }
        assert forall|a: int| 0 <= a < d.len() implies 0 <= #[trigger] d[a] < n by {
            assert(d[a] == bs[a + 1]);
        }
        lemma_expand_keeps(d, n, j - 1);
        let k = choose|k: int| 0 <= k < rest.len() && rest[k] == d[j - 1];
        assert((head + rest)[head.len() + k] == bs[j]);
    }
}

/// Every boundary measure below `n` is among the section starts.
proof fn lemma_boundary_listed(sil: Seq<bool>, sim: Seq<bool>, pcs: Seq<[bool; 12]>, n: int, i: int)
    requires
        0 <= i < n,
        is_boundary(sil, sim, pcs, i),
    ensures
        boundary_starts(sil, sim, pcs, n).contains(i),
    decreases n,
{
    if i == n - 1 {
        let prev = boundary_starts(sil, sim, pcs, n - 1);
        assert((prev + seq![i])[prev.len() as int] == i);
    } else {
        lemma_boundary_listed(sil, sim, pcs, n - 1, i);
        let prev = boundary_starts(sil, sim, pcs, n - 1);
        let k = choose|k: int| 0 <= k < prev.len() && prev[k] == i;
        let tail: Seq<int> = if is_boundary(sil, sim, pcs, n - 1) { seq![n - 1] } else { Seq::empty() };
        assert((prev + tail)[k] == i);
    }
}

/// Recursively split sections longer than the maximum at their midpoints.
pub fn split_long_sections(boundaries: &mut Vec<usize>, n: usize)
    requires
        increasing_below(ints(old(boundaries)@), n as int),
        n <= usize::MAX - 2,
    ensures
        ints(final(boundaries)@) == expand(ints(old(boundaries)@), n as int),
        increasing_below(ints(final(boundaries)@), n as int),
        forall|k: int|
            0 <= k < final(boundaries)@.len() ==> section_end(ints(final(boundaries)@), k, n as int)
                - #[trigger] final(boundaries)@[k] <= 16,
        old(boundaries)@.len() > 0 ==> final(boundaries)@.len() > 0 && final(boundaries)@[0] == old(
            boundaries,
        )@[0],
{
    let ghost target = expand(ints(boundaries@), n as int);
    let mut i: usize = 0;
    assert(ints(boundaries@).skip(0) =~= ints(boundaries@));
    assert(ints(boundaries@).take(0) + expand(ints(boundaries@).skip(0), n as int) =~= target);
    while i < boundaries.len()
        invariant
            i <= boundaries@.len(),
            n <= usize::MAX - 2,
            increasing_below(ints(boundaries@), n as int),
            ints(boundaries@).take(i as int) + expand(ints(boundaries@).skip(i as int), n as int)
                == target,
            forall|k: int|
                0 <= k < i ==> section_end(ints(boundaries@), k, n as int) - #[trigger] boundaries@[k]
                    <= 16,
            old(boundaries)@.len() > 0 ==> boundaries@.len() > 0 && boundaries@[0] == old(
                boundaries,
            )@[0],
        decreases n - section_start(ints(boundaries@), i as int, n as int), section_end(
            ints(boundaries@),
            i as int,
            n as int,
        ) - section_start(ints(boundaries@), i as int, n as int),
    {
        let ghost bs = ints(boundaries@);
        let start = boundaries[i];
        let end = if i + 1 < boundaries.len() {
            boundaries[i + 1]
        } else {
            n
        };
        assert(start as int == bs[i as int]);
        assert(end as int == section_end(bs, i as int, n as int));
        assert(start < end) by {
            if i + 1 < bs.len() {
                assert(bs[i as int] < bs[i + 1]);
            }
        }
        let len = end - start;
        if len > MAX_SECTION_LEN {
            let raw_mid = start + (len / 2 + len % 2);
            let snapped = ((raw_mid + 2) / 4) * 4;
            let mid = if snapped > start && snapped < end {
                snapped
            } else {
                raw_mid
            };
            assert(mid as int == split_point(start as int, end as int));
            proof {
                lemma_split_step(bs, i as int, n as int, mid as int);
            }
            let ghost pre = boundaries@;
            boundaries.insert(i + 1, mid);
            assert(ints(boundaries@) =~= bs.insert(i + 1, mid as int));
            assert forall|k: int| 0 <= k < i implies section_end(ints(boundaries@), k, n as int)
                - #[trigger] boundaries@[k] <= 16 by {
                assert(boundaries@[k] == pre[k]);
                assert(boundaries@[k + 1] == pre[k + 1]);
                assert(section_end(ints(pre), k, n as int) - pre[k] <= 16);
            }
        } else {
            proof {
                lemma_advance_step(bs, i as int, n as int);
            }
            assert(section_end(bs, i as int, n as int) - boundaries@[i as int] <= 16);
            i += 1;
        }
    }
    proof {
        assert(ints(boundaries@).skip(i as int) =~= Seq::<int>::empty());
        assert(ints(boundaries@).take(i as int) =~= ints(boundaries@));
    }
}

/// Measure `i` starts a section: the first measure, a change of silence or
/// of simile marking, or a content change between two sounding measures.
pub open spec fn is_boundary(sil: Seq<bool>, sim: Seq<bool>, pcs: Seq<[bool; 12]>, i: int) -> bool {
    i == 0 || sil[i] != sil[i - 1] || sim[i] != sim[i - 1] || (!sil[i] && !sil[i - 1]
        && content_changes(pcs[i - 1]@, pcs[i]@))
}

/// The section starts among measures `0..n`, ascending.
pub open spec fn boundary_starts(sil: Seq<bool>, sim: Seq<bool>, pcs: Seq<[bool; 12]>, n: int) -> Seq<
    int,
>
    decreases n,
{
    if n <= 0 {
        Seq::empty()
    } else {
        boundary_starts(sil, sim, pcs, n - 1) + if is_boundary(sil, sim, pcs, n - 1) {
            seq![n - 1]
        } else {
            Seq::empty()
        }
    }
}

proof fn lemma_boundary_starts_first(sil: Seq<bool>, sim: Seq<bool>, pcs: Seq<[bool; 12]>, n: int)
    requires
        n >= 1,
    ensures
        boundary_starts(sil, sim, pcs, n).len() >= 1,
        boundary_starts(sil, sim, pcs, n)[0] == 0,
    decreases n,
{
    if n > 1 {
        lemma_boundary_starts_first(sil, sim, pcs, n - 1);
        let prev = boundary_starts(sil, sim, pcs, n - 1);
        if is_boundary(sil, sim, pcs, n - 1) {
            assert((prev + seq![n - 1])[0] == prev[0]);
        } else {
            assert(prev + Seq::<int>::empty() =~= prev);
        }
    } else {
        assert(boundary_starts(sil, sim, pcs, 0) =~= Seq::<int>::empty());
        assert(is_boundary(sil, sim, pcs, 0));
    }
}

/// Return the sorted list of section starts (0-based measure positions):
/// the boundaries, with sections longer than the maximum split.
pub fn find_section_boundaries(
    n: usize,
    is_silent: &[bool],
    has_simile: &[bool],
    pc_sets: &[[bool; 12]],
) -> (r: Vec<usize>)
    requires
        1 <= n <= usize::MAX - 2,
        is_silent@.len() >= n,
        has_simile@.len() >= n,
        pc_sets@.len() >= n,
    ensures
        ints(r@) == expand(boundary_starts(is_silent@, has_simile@, pc_sets@, n as int), n as int),
        r@.len() >= 1,
        r@[0] == 0,
        increasing_below(ints(r@), n as int),
        forall|k: int| 0 <= k < r@.len() ==> section_end(ints(r@), k, n as int) - #[trigger] r@[k] <= 16,
        forall|i: int|
            0 < i < n && (is_silent@[i] != is_silent@[i - 1] || has_simile@[i] != has_simile@[i - 1])
                ==> #[trigger] ints(r@).contains(i),
{
    let mut boundaries: Vec<usize> = Vec::new();
    let mut i: usize = 0;
    while i < n
        invariant
            i <= n,
            is_silent@.len() >= n,
            has_simile@.len() >= n,
            pc_sets@.len() >= n,
            ints(boundaries@) == boundary_starts(is_silent@, has_simile@, pc_sets@, i as int),
            forall|a: int, b: int| 0 <= a < b < boundaries@.len() ==> boundaries@[a] < boundaries@[b],
            forall|a: int| 0 <= a < boundaries@.len() ==> #[trigger] boundaries@[a] < i,
        decreases n - i,
    {
        let b = if i == 0 {
            true
        } else {
            let edge = is_silent[i] != is_silent[i - 1] || has_simile[i] != has_simile[i - 1];
            let change = !is_silent[i] && !is_silent[i - 1] && content_changes_exec(
                &pc_sets[i - 1],
                &pc_sets[i],
            );
            edge || change
        };
        assert(b == is_boundary(is_silent@, has_simile@, pc_sets@, i as int));
        if b {
            boundaries.push(i);
        }
        i += 1;
        assert(ints(boundaries@) =~= boundary_starts(is_silent@, has_simile@, pc_sets@, i as int));
    }
    assert(increasing_below(ints(boundaries@), n as int));
    proof {
        lemma_boundary_starts_first(is_silent@, has_simile@, pc_sets@, n as int);
        assert(ints(boundaries@).len() == boundaries@.len());
        assert(ints(boundaries@)[0] == boundaries@[0]);
    }
    assert(boundaries@.len() >= 1);
    assert(boundaries@[0] == 0);
    let ghost starts = ints(boundaries@);
    split_long_sections(&mut boundaries, n);
    proof {
        assert forall|i: int|
            0 < i < n && (is_silent@[i] != is_silent@[i - 1] || has_simile@[i] != has_simile@[i - 1])
                implies #[trigger] ints(boundaries@).contains(i) by {
            assert(is_boundary(is_silent@, has_simile@, pc_sets@, i));
            lemma_boundary_listed(is_silent@, has_simile@, pc_sets@, n as int, i);
            let j = choose|j: int| 0 <= j < starts.len() && starts[j] == i;
            lemma_expand_keeps(starts, n as int, j);
        }
    }
    boundaries
}


proof fn lemma_boundary_starts_increasing(sil: Seq<bool>, sim: Seq<bool>, pcs: Seq<[bool; 12]>, n: int)
    requires
        n >= 0,
    ensures
        increasing_below(boundary_starts(sil, sim, pcs, n), n),
    decreases n,
{
    if n > 0 {
        lemma_boundary_starts_increasing(sil, sim, pcs, n - 1);
        let prev = boundary_starts(sil, sim, pcs, n - 1);
        let tail: Seq<int> = if is_boundary(sil, sim, pcs, n - 1) { seq![n - 1] } else { Seq::empty() };
        let all = prev + tail;
        assert forall|a: int, b: int| 0 <= a < b < all.len() implies all[a] < all[b] by {
            if b < prev.len() {
            } else {
                assert(all[b] == n - 1);
                assert(all[a] == prev[a]);
            }
        }
        assert forall|a: int| 0 <= a < all.len() implies 0 <= #[trigger] all[a] < n by {
            if a < prev.len() {
                assert(all[a] == prev[a]);
            }
        }
    }
}

/// Sections start at every change of silence and at every edge of a run of
/// simile-marked measures: each measure `i > 0` whose silence or simile flag
/// differs from measure `i - 1`'s is among the section starts, after the
/// long sections are split.
pub proof fn lemma_edges_start_sections(sil: Seq<bool>, sim: Seq<bool>, pcs: Seq<[bool; 12]>, n: int, i: int)
    requires
        0 < i < n,
        i < sil.len(),
        i < sim.len(),
        sil[i] != sil[i - 1] || sim[i] != sim[i - 1],
    ensures
        expand(boundary_starts(sil, sim, pcs, n), n).contains(i),
{
    lemma_boundary_listed(sil, sim, pcs, n, i);
    lemma_boundary_starts_increasing(sil, sim, pcs, n);
    let starts = boundary_starts(sil, sim, pcs, n);
    let j = choose|j: int| 0 <= j < starts.len() && starts[j] == i;
    lemma_expand_keeps(starts, n, j);
}


proof fn lemma_inter_union_counts(a: Seq<bool>, b: Seq<bool>, n: int)
    requires
        n >= 0,
    ensures
        inter_count(a, b, n) == count_below(n, |k: int| a[k] && b[k]),
        union_count(a, b, n) == count_below(n, |k: int| a[k] || b[k]),
    decreases n,
{
    if n > 0 {
        lemma_inter_union_counts(a, b, n - 1);
    }
}

/// Between two sounding measures whose pitch-class sets have a Jaccard
/// similarity below 0.6 (the pitch classes in both are fewer than three
/// fifths of those in either), a section starts, also after the long
/// sections are split.
pub proof fn lemma_content_change_starts_section(
    sil: Seq<bool>,
    sim: Seq<bool>,
    pcs: Seq<[bool; 12]>,
    n: int,
    i: int,
)
    requires
        0 < i < n,
        i < sil.len(),
        i < pcs.len(),
        !sil[i],
        !sil[i - 1],
        set_below(12, |k: int| pcs[i - 1]@[k] || pcs[i]@[k]).len() > 0,
        5 * set_below(12, |k: int| pcs[i - 1]@[k] && pcs[i]@[k]).len() < 3 * set_below(
            12,
            |k: int| pcs[i - 1]@[k] || pcs[i]@[k],
        ).len(),
    ensures
        expand(boundary_starts(sil, sim, pcs, n), n).contains(i),
{
    let a = pcs[i - 1]@;
    let b = pcs[i]@;
    lemma_inter_union_counts(a, b, 12);
    lemma_count_below_is_set_len(12, |k: int| a[k] && b[k]);
    lemma_count_below_is_set_len(12, |k: int| a[k] || b[k]);
    assert(content_changes(a, b));
    assert(is_boundary(sil, sim, pcs, i));
    lemma_boundary_listed(sil, sim, pcs, n, i);
    lemma_boundary_starts_increasing(sil, sim, pcs, n);
    let starts = boundary_starts(sil, sim, pcs, n);
    let j = choose|j: int| 0 <= j < starts.len() && starts[j] == i;
    lemma_expand_keeps(starts, n, j);
}

} // verus!
