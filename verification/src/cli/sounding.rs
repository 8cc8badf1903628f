//! The sounding notes of a legacy track as MIDI pitches: what the `form`
//! command compares sections by.

use vstd::prelude::*;

use crate::model::legacy::{Beat, Measure, Note, NoteType, Track, Voice};

verus! {

/// The MIDI pitch of a note: the drum note on a percussion track, else the
/// fret plus the tuning of its string (the fret alone when the string is
/// not one of the track's).
pub open spec fn note_midi(t: Track, n: Note) -> int {
    if t.percussion_track {
        n.value as int
    } else if 1 <= n.string <= t.strings@.len() {
        n.value + t.strings@[n.string - 1].1
    } else {
        n.value as int
    }
}

/// A note sounds: it is neither a rest nor tied to the previous note.
pub open spec fn sounds(n: Note) -> bool {
    n.kind != NoteType::Rest && n.kind != NoteType::Tie
}

/// Every note's pitch fits in `i16`.
pub open spec fn pitches_fit(t: Track) -> bool {
    forall|m: int, v: int, b: int, k: int|
        0 <= m < t.measures@.len() && 0 <= v < t.measures@[m].voices@.len() && 0 <= b
            < t.measures@[m].voices@[v].beats@.len() && 0 <= k
            < t.measures@[m].voices@[v].beats@[b].notes@.len() ==> i16::MIN <= #[trigger] note_midi(
            t,
            t.measures@[m].voices@[v].beats@[b].notes@[k],
        ) <= i16::MAX
}

/// Pitches of the sounding notes among `notes`, in order.
pub open spec fn notes_midis(t: Track, notes: Seq<Note>) -> Seq<int>
    decreases notes.len(),
{
    if notes.len() == 0 {
        Seq::empty()
    } else if sounds(notes.last()) {
        notes_midis(t, notes.drop_last()).push(note_midi(t, notes.last()))
    } else {
        notes_midis(t, notes.drop_last())
    }
}

/// Pitches of the sounding notes of `beats`.
pub open spec fn beats_midis(t: Track, beats: Seq<Beat>) -> Seq<int>
    decreases beats.len(),
{
    if beats.len() == 0 {
        Seq::empty()
    } else {
        beats_midis(t, beats.drop_last()) + notes_midis(t, beats.last().notes@)
    }
}

/// Pitches of the sounding notes of `voices`.
pub open spec fn voices_midis(t: Track, voices: Seq<Voice>) -> Seq<int>
    decreases voices.len(),
{
    if voices.len() == 0 {
        Seq::empty()
    } else {
        voices_midis(t, voices.drop_last()) + beats_midis(t, voices.last().beats@)
    }
}

/// Pitches of the sounding notes of the measures `start..k`.
pub open spec fn measures_midis(t: Track, start: int, k: int) -> Seq<int>
    decreases k - start,
{
    if k <= start {
        Seq::empty()
    } else {
        measures_midis(t, start, k - 1) + voices_midis(t, t.measures@[k - 1].voices@)
    }
}

/// Pitches of the sounding notes of the section `start..end` (cut at the
/// track's end).
pub open spec fn section_midis(t: Track, start: int, end: int) -> Seq<int> {
    let stop = if end < t.measures@.len() {
        end
    } else {
        t.measures@.len() as int
    };
    measures_midis(t, start, stop)
}

/// Pitches among the first `n` of `ms` that are nonnegative and of pitch
/// class `p`.
pub open spec fn class_count(ms: Seq<int>, p: int, n: int) -> int
    decreases n,
{
    if n <= 0 {
        0
    } else {
        class_count(ms, p, n - 1) + if ms[n - 1] >= 0 && ms[n - 1] % 12 == p {
            1int
        } else {
            0int
        }
    }
}

/// Nonnegative pitches among the first `n` of `ms`.
pub open spec fn nonneg_count(ms: Seq<int>, n: int) -> int
    decreases n,
{
    if n <= 0 {
        0
    } else {
        nonneg_count(ms, n - 1) + if ms[n - 1] >= 0 {
            1int
        } else {
            0int
        }
    }
}

/// The pitch of a sounding note.
pub(crate) fn note_pitch(track: &Track, n: &Note) -> (r: i16)
    requires
        i16::MIN <= note_midi(*track, *n) <= i16::MAX,
    ensures
        r == note_midi(*track, *n),
{
    if track.percussion_track {
        n.value
    } else {
        let s = n.string;
        if 1 <= s && (s as usize) <= track.strings.len() {
            n.value + track.strings[(s - 1) as usize].1 as i16
        } else {
            n.value
        }
    }
}

/// Pitches of the sounding notes of measures `start..end` of a track, in
/// order (measure, voice, beat, note).
pub fn section_pitches(track: &Track, start: usize, end: usize) -> (r: Vec<i16>)
    requires
        pitches_fit(*track),
    ensures
        r@.map_values(|x: i16| x as int) == section_midis(*track, start as int, end as int),
{
    let stop = if end < track.measures.len() {
        end
    } else {
        track.measures.len()
    };
    let mut out: Vec<i16> = Vec::new();
    let mut m: usize = start;
    if m > stop {
        assert(measures_midis(*track, start as int, stop as int) =~= Seq::<int>::empty());
        assert(out@.map_values(|x: i16| x as int) =~= Seq::<int>::empty());
        return out;
    }
    while m < stop
        invariant
            start <= m <= stop,
            stop <= track.measures@.len(),
            stop == if end < track.measures@.len() {
                end as int
            } else {
                track.measures@.len() as int
            },
            pitches_fit(*track),
            out@.map_values(|x: i16| x as int) == measures_midis(*track, start as int, m as int),
        decreases stop - m,
    {
        let measure = &track.measures[m];
        let ghost base = out@.map_values(|x: i16| x as int);
        let mut v: usize = 0;
        while v < measure.voices.len()
            invariant
                m < track.measures@.len(),
                *measure == track.measures@[m as int],
                pitches_fit(*track),
                v <= measure.voices@.len(),
                out@.map_values(|x: i16| x as int) == base + voices_midis(
                    *track,
                    measure.voices@.take(v as int),
                ),
            decreases measure.voices@.len() - v,
        {
            let voice = &measure.voices[v];
            assert(measure.voices@.take(v + 1).drop_last() =~= measure.voices@.take(v as int));
            let ghost vbase = out@.map_values(|x: i16| x as int);
            let mut b: usize = 0;
            while b < voice.beats.len()
                invariant
                    m < track.measures@.len(),
                    *measure == track.measures@[m as int],
                    v < measure.voices@.len(),
                    *voice == measure.voices@[v as int],
                    pitches_fit(*track),
                    b <= voice.beats@.len(),
                    out@.map_values(|x: i16| x as int) == vbase + beats_midis(
                        *track,
                        voice.beats@.take(b as int),
                    ),
                decreases voice.beats@.len() - b,
            {
                let beat = &voice.beats[b];
                assert(voice.beats@.take(b + 1).drop_last() =~= voice.beats@.take(b as int));
                let ghost bbase = out@.map_values(|x: i16| x as int);
                let mut k: usize = 0;
                while k < beat.notes.len()
                    invariant
                        m < track.measures@.len(),
                        *measure == track.measures@[m as int],
                        v < measure.voices@.len(),
                        *voice == measure.voices@[v as int],
                        b < voice.beats@.len(),
                        *beat == voice.beats@[b as int],
                        pitches_fit(*track),
                        k <= beat.notes@.len(),
                        out@.map_values(|x: i16| x as int) == bbase + notes_midis(
                            *track,
                            beat.notes@.take(k as int),
                        ),
                    decreases beat.notes@.len() - k,
                {
                    let n = &beat.notes[k];
                    assert(beat.notes@.take(k + 1).drop_last() =~= beat.notes@.take(k as int));
                    if n.kind != NoteType::Rest && n.kind != NoteType::Tie {
                        assert(i16::MIN <= note_midi(
                            *track,
                            track.measures@[m as int].voices@[v as int].beats@[b as int].notes@[k as int],
                        ) <= i16::MAX);
                        let p = note_pitch(track, n);
                        let ghost before = out@.map_values(|x: i16| x as int);
                        out.push(p);
                        assert(out@.map_values(|x: i16| x as int) =~= before.push(p as int));
                    }
                    k += 1;
                    assert(out@.map_values(|x: i16| x as int) =~= bbase + notes_midis(
                        *track,
                        beat.notes@.take(k as int),
                    ));
                }
                assert(beat.notes@.take(k as int) =~= beat.notes@);
                b += 1;
                assert(out@.map_values(|x: i16| x as int) =~= vbase + beats_midis(
                    *track,
                    voice.beats@.take(b as int),
                ));
            }
            assert(voice.beats@.take(b as int) =~= voice.beats@);
            v += 1;
            assert(out@.map_values(|x: i16| x as int) =~= base + voices_midis(
                *track,
                measure.voices@.take(v as int),
            ));
        }
        assert(measure.voices@.take(v as int) =~= measure.voices@);
        m += 1;
        assert(out@.map_values(|x: i16| x as int) =~= measures_midis(*track, start as int, m as int));
    }
    out
}

/// Pitch-class counts and the number of counted notes of a section: each
/// sounding note of nonnegative pitch counts once, in the class of its
/// pitch.
pub fn section_pitch_classes(track: &Track, start: usize, end: usize) -> (r: (Vec<u64>, u64))
    requires
        pitches_fit(*track),
    ensures
        r.0@.len() == 12,
        forall|p: int|
            0 <= p < 12 ==> #[trigger] r.0@[p] == class_count(
                section_midis(*track, start as int, end as int),
                p,
                section_midis(*track, start as int, end as int).len() as int,
            ),
        r.1 == nonneg_count(
            section_midis(*track, start as int, end as int),
            section_midis(*track, start as int, end as int).len() as int,
        ),
{
    let ps = section_pitches(track, start, end);
    let ghost ms = ps@.map_values(|x: i16| x as int);
    let mut pc: Vec<u64> = Vec::new();
    let mut q: usize = 0;
    while q < 12
        invariant
            q <= 12,
            pc@.len() == q,
            forall|p: int| 0 <= p < q ==> #[trigger] pc@[p] == 0,
        decreases 12 - q,
    {
        pc.push(0);
        q += 1;
    }
    let mut count: u64 = 0;
    let mut i: usize = 0;
    while i < ps.len()
        invariant
            ms == ps@.map_values(|x: i16| x as int),
            i <= ps@.len(),
            pc@.len() == 12,
            forall|p: int| 0 <= p < 12 ==> #[trigger] pc@[p] == class_count(ms, p, i as int),
            forall|p: int| 0 <= p < 12 ==> #[trigger] pc@[p] <= i,
            count == nonneg_count(ms, i as int),
            count <= i,
        decreases ps@.len() - i,
    {
        let x = ps[i];
        assert(ms[i as int] == x as int);
        if x >= 0 {
            let c = (x % 12) as usize;
            let cur = pc[c];
            pc.set(c, cur + 1);
            count = count + 1;
        }
        i += 1;
    }
    (pc, count)
}

} // verus!
