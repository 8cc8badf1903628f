//! Runs of simile marks (bars written as "repeat the previous bar(s)") in
//! the tracks of a song.

use vstd::prelude::*;

use crate::model::legacy::{Measure, Song, Track, Voice};
use crate::text::{contains_str, has_substring, lowercase, str_eq, to_lower};

verus! {

/// A run of simile-marked bars of a track.
#[derive(Debug)]
pub struct SimileRun {
    pub track_name: String,
    /// 0-based index of the run's first bar.
    pub run_start: usize,
    /// Bars in the run.
    pub run_len: usize,
    /// 0-based index of the first bar the run repeats.
    pub source_start: usize,
    /// `1-bar (Simple)`, `2-bar (Double)`, or `unknown (<mark>)`.
    pub kind: String,
}

/// The family of a simile mark: 1 for `Simple`, 2 for the two halves of a
/// double mark, 0 for any other mark.
pub open spec fn mark_family(m: Seq<char>) -> int {
    if m == "Simple"@ {
        1
    } else if m == "FirstOfDouble"@ || m == "SecondOfDouble"@ {
        2
    } else {
        0
    }
}

/// The marks of a track's bars.
pub open spec fn track_marks(t: Track) -> Seq<Option<Seq<char>>> {
    t.measures@.map_values(|m: Measure| match m.simile_mark {
        Some(s) => Some(s@),
        None => None,
    })
}

/// End of the run of marks of family `fam` that starts at or before `j`.
pub open spec fn run_end(marks: Seq<Option<Seq<char>>>, j: int, fam: int) -> int
    decreases marks.len() - j,
{
    if 0 <= j < marks.len() && marks[j] is Some && mark_family(marks[j]->0) == fam {
        run_end(marks, j + 1, fam)
    } else {
        j
    }
}

/// A run as `(start, length, source start, kind)`.
pub type RunSpec = (int, int, int, Seq<char>);

/// The runs of simile marks from bar `i` on: a run of `Simple` marks
/// repeats the bar before it; a run of double marks repeats the same
/// number of bars before it, rounded down to whole pairs; any other mark
/// is a run of its own that repeats the bar before.
pub open spec fn runs_from(marks: Seq<Option<Seq<char>>>, i: int) -> Seq<RunSpec>
    decreases marks.len() - i,
{
    if i < 0 || i >= marks.len() {
        Seq::empty()
    } else if marks[i] is None {
        runs_from(marks, i + 1)
    } else {
        let m = marks[i]->0;
        let fam = mark_family(m);
        if fam == 0 {
            seq![(i, 1, if i >= 1 { i - 1 } else { 0 }, "unknown ("@ + m + ")"@)] + runs_from(
                marks,
                i + 1,
            )
        } else {
            let e = run_end(marks, i, fam);
            let len = e - i;
            let back = len / fam * fam;
            let kind = if fam == 1 {
                "1-bar (Simple)"@
            } else {
                "2-bar (Double)"@
            };
            seq![(i, len, if i >= back { i - back } else { 0 }, kind)] + if e > i {
                proof {
                    lemma_run_end(marks, i, fam);
                }
                runs_from(marks, e)
            } else {
                Seq::empty()
            }
        }
    }
}

/// A run ends at or after where it starts, within the track.
pub proof fn lemma_run_end(marks: Seq<Option<Seq<char>>>, j: int, fam: int)
    requires
        0 <= j <= marks.len(),
    ensures
        j <= run_end(marks, j, fam) <= marks.len(),
    decreases marks.len() - j,
{
    if j < marks.len() && marks[j] is Some && mark_family(marks[j]->0) == fam {
        lemma_run_end(marks, j + 1, fam);
    }
}

/// The family of a mark.
fn family(m: &str) -> (r: usize)
    ensures
        r == mark_family(m@),
{
    if str_eq(m, "Simple") {
        1
    } else if str_eq(m, "FirstOfDouble") || str_eq(m, "SecondOfDouble") {
        2
    } else {
        0
    }
}

/// Bar `i` of the track carries a mark of family `fam`.
fn continues_run(track: &Track, i: usize, fam: usize) -> (r: bool)
    requires
        i < track.measures@.len(),
    ensures
        r == (track_marks(*track)[i as int] is Some && mark_family(track_marks(*track)[i as int]->0)
            == fam),
{
    match &track.measures[i].simile_mark {
        Some(m) => family(m.as_str()) == fam,
        None => false,
    }
}

/// A run as its specification tuple.
pub open spec fn run_view(r: SimileRun) -> RunSpec {
    (r.run_start as int, r.run_len as int, r.source_start as int, r.kind@)
}

/// The simile runs of one track.
pub fn track_simile_runs(track: &Track) -> (r: Vec<SimileRun>)
    ensures
        r@.map_values(|x: SimileRun| run_view(x)) == runs_from(track_marks(*track), 0),
        forall|k: int| 0 <= k < r@.len() ==> (#[trigger] r@[k]).track_name@ == track.name@,
{
    let ghost marks = track_marks(*track);
    let n = track.measures.len();
    let mut out: Vec<SimileRun> = Vec::new();
    let mut i: usize = 0;
    while i < n
        invariant
            n == marks.len(),
            marks == track_marks(*track),
            i <= n,
            out@.map_values(|x: SimileRun| run_view(x)) + runs_from(marks, i as int) == runs_from(
                marks,
                0,
            ),
            forall|k: int| 0 <= k < out@.len() ==> (#[trigger] out@[k]).track_name@ == track.name@,
        decreases n - i,
    {
        let ghost before = out@.map_values(|x: SimileRun| run_view(x));
        match &track.measures[i].simile_mark {
            None => {
                i += 1;
            },
            Some(mark) => {
                assert(marks[i as int] == Some(mark@));
                let fam = family(mark.as_str());
                if fam == 0 {
                    let mut kind = String::from_str("unknown (");
                    kind.append(mark.as_str());
                    kind.append(")");
                    let source = if i >= 1 {
                        i - 1
                    } else {
                        0
                    };
                    out.push(
                        SimileRun {
                            track_name: track.name.clone(),
                            run_start: i,
                            run_len: 1,
                            source_start: source,
                            kind,
                        },
                    );
                    proof {
                        let r = runs_from(marks, i as int);
                        assert(r == seq![(i as int, 1int, source as int, "unknown ("@ + mark@ + ")"@)]
                            + runs_from(marks, i + 1));
                        assert(out@.map_values(|x: SimileRun| run_view(x)) =~= before.push(
                            (i as int, 1int, source as int, "unknown ("@ + mark@ + ")"@),
                        ));
                        assert(out@.map_values(|x: SimileRun| run_view(x)) + runs_from(marks, i + 1)
                            =~= before + r);
                    }
                    i += 1;
                } else {
                    let start = i;
                    proof {
                        lemma_run_end(marks, i as int, fam as int);
                    }
                    while i < n && continues_run(track, i, fam)
                        invariant
                            n == marks.len(),
                            marks == track_marks(*track),
                            start <= i <= n,
                            run_end(marks, i as int, fam as int) == run_end(
                                marks,
                                start as int,
                                fam as int,
                            ),
                        decreases n - i,
                    {
                        assert(marks[i as int] is Some && mark_family(marks[i as int]->0) == fam);
                        i += 1;
                    }
                    let len = i - start;
                    let back = len / fam * fam;
                    let source = if start >= back {
                        start - back
                    } else {
                        0
                    };
                    let kind = if fam == 1 {
                        String::from_str("1-bar (Simple)")
                    } else {
                        String::from_str("2-bar (Double)")
                    };
                    out.push(
                        SimileRun {
                            track_name: track.name.clone(),
                            run_start: start,
                            run_len: len,
                            source_start: source,
                            kind,
                        },
                    );
                    proof {
                        let e = run_end(marks, start as int, fam as int);
                        assert(e == i);
                        assert(e > start);
                        let r = runs_from(marks, start as int);
                        let item = (start as int, len as int, source as int, if fam == 1 {
                            "1-bar (Simple)"@
                        } else {
                            "2-bar (Double)"@
                        });
                        assert(r == seq![item] + runs_from(marks, i as int));
                        assert(out@.map_values(|x: SimileRun| run_view(x)) =~= before.push(item));
                        assert(out@.map_values(|x: SimileRun| run_view(x)) + runs_from(marks, i as int)
                            =~= before + r);
                    }
                }
            },
        }
    }
    assert(runs_from(marks, n as int) =~= Seq::<RunSpec>::empty());
    assert(out@.map_values(|x: SimileRun| run_view(x)) + runs_from(marks, n as int) =~= out@.map_values(
        |x: SimileRun| run_view(x),
    ));
    out
}

/// A track passes the filter: no filter, or the lower-cased filter occurs
/// in the lower-cased track name.
pub open spec fn passes_filter(name: Seq<char>, filter: Option<Seq<char>>) -> bool {
    match filter {
        None => true,
        Some(f) => has_substring(lowercase(name), lowercase(f)),
    }
}

/// The simile runs of the tracks that pass the filter, track by track.
pub fn collect_simile_runs(song: &Song, track_filter: Option<&str>) -> (r: Vec<SimileRun>)
    ensures
        r@.map_values(|x: SimileRun| run_view(x)) == runs_of_tracks(
            song.tracks@,
            match track_filter {
                Some(f) => Some(f@),
                None => None,
            },
            song.tracks@.len() as int,
        ),
{
    let ghost filter = match track_filter {
        Some(f) => Some(f@),
        None => None,
    };
    let mut out: Vec<SimileRun> = Vec::new();
    let mut t: usize = 0;
    while t < song.tracks.len()
        invariant
            t <= song.tracks@.len(),
            filter == match track_filter {
                Some(f) => Some(f@),
                None => None::<Seq<char>>,
            },
            out@.map_values(|x: SimileRun| run_view(x)) == runs_of_tracks(
                song.tracks@,
                filter,
                t as int,
            ),
        decreases song.tracks@.len() - t,
    {
        let track = &song.tracks[t];
        let pass = match track_filter {
            None => true,
            Some(f) => {
                let lname = to_lower(track.name.as_str());
                let lf = to_lower(f);
                contains_str(lname.as_str(), lf.as_str())
            },
        };
        let ghost before = out@.map_values(|x: SimileRun| run_view(x));
        if pass {
            let mut runs = track_simile_runs(track);
            let ghost added = runs@.map_values(|x: SimileRun| run_view(x));
            out.append(&mut runs);
            assert(out@.map_values(|x: SimileRun| run_view(x)) =~= before + added);
        }
        t += 1;
    }
    out
}

/// The runs of the first `k` tracks that pass the filter.
pub open spec fn runs_of_tracks(tracks: Seq<Track>, filter: Option<Seq<char>>, k: int) -> Seq<
    RunSpec,
>
    decreases k,
{
    if k <= 0 {
        Seq::empty()
    } else {
        let prev = runs_of_tracks(tracks, filter, k - 1);
        if passes_filter(tracks[k - 1].name@, filter) {
            prev + runs_from(track_marks(tracks[k - 1]), 0)
        } else {
            prev
        }
    }
}

// ---------------------------------------------------------------------------
// Expanding simile marks
// ---------------------------------------------------------------------------

/// Which bars of a track carry a simile mark, of any kind.
pub open spec fn marked(t: Track) -> Seq<bool> {
    t.measures@.map_values(|m: Measure| m.simile_mark is Some)
}

/// First bar of the run of marked bars that reaches bar `k` from the left.
pub open spec fn mark_run_start(marks: Seq<bool>, k: int) -> int
    decreases k,
{
    if k <= 0 || !marks[k - 1] {
        k
    } else {
        mark_run_start(marks, k - 1)
    }
}

/// The bar after the run of marked bars that goes on from bar `k`.
pub open spec fn mark_run_end(marks: Seq<bool>, k: int) -> int
    decreases marks.len() - k,
{
    if k + 1 >= marks.len() || !marks[k + 1] {
        k + 1
    } else {
        mark_run_end(marks, k + 1)
    }
}

/// The bar whose content marked bar `k` takes when the marks are expanded:
/// a run of `len` marked bars starting at bar `s` repeats the `len` bars
/// before it (as many as there are, when fewer), cyclically.  `None` for an
/// unmarked bar, and for a marked bar with no bar before its run.
pub open spec fn simile_source(marks: Seq<bool>, k: int) -> Option<int> {
    if 0 <= k < marks.len() && marks[k] {
        let s = mark_run_start(marks, k);
        let len = mark_run_end(marks, k) - s;
        let from = if s >= len {
            s - len
        } else {
            0
        };
        let period = if s - from > 1 {
            s - from
        } else {
            1
        };
        let src = from + (k - s) % period;
        if src < s {
            Some(src)
        } else {
            None
        }
    } else {
        None
    }
}

/// Bar `k` of `new` is what expanding bar `k` of `old` gives: a bar with a
/// source takes a clone of the voices of the source bar (as it stands after
/// the expansion) and loses its mark, keeping its clef and header; any
/// other bar is unchanged.
pub open spec fn bar_expanded(old: Track, new: Track, k: int) -> bool {
    match simile_source(marked(old), k) {
        Some(src) => {
            &&& new.measures@[k].simile_mark is None
            &&& new.measures@[k].clef == old.measures@[k].clef
            &&& new.measures@[k].header_index == old.measures@[k].header_index
            &&& new.measures@[k].voices@.len() == new.measures@[src].voices@.len()
            &&& forall|v: int|
                0 <= v < new.measures@[k].voices@.len() ==> cloned::<Voice>(
                    new.measures@[src].voices@[v],
                    #[trigger] new.measures@[k].voices@[v],
                )
        },
        None => new.measures@[k] == old.measures@[k],
    }
}

/// `new` is `old` with its simile marks expanded.
pub open spec fn simile_expanded(old: Track, new: Track) -> bool {
    &&& new == (Track { measures: new.measures, ..old })
    &&& new.measures@.len() == old.measures@.len()
    &&& forall|k: int| 0 <= k < old.measures@.len() ==> #[trigger] bar_expanded(old, new, k)
}

proof fn lemma_mark_run_start(marks: Seq<bool>, s: int, k: int)
    requires
        0 <= s <= k < marks.len(),
        s == 0 || !marks[s - 1],
        forall|x: int| s <= x <= k ==> marks[x],
    ensures
        mark_run_start(marks, k) == s,
    decreases k - s,
{
    if k > s {
        lemma_mark_run_start(marks, s, k - 1);
    }
}

proof fn lemma_mark_run_end(marks: Seq<bool>, k: int, e: int)
    requires
        0 <= k < e <= marks.len(),
        e == marks.len() || !marks[e],
        forall|x: int| k <= x < e ==> marks[x],
    ensures
        mark_run_end(marks, k) == e,
    decreases e - k,
{
    if k + 1 < e {
        lemma_mark_run_end(marks, k + 1, e);
    }
}

proof fn lemma_mark_run_start_bounds(marks: Seq<bool>, k: int)
    requires
        0 <= k,
    ensures
        0 <= mark_run_start(marks, k) <= k,
    decreases k,
{
    if k > 0 && marks[k - 1] {
        lemma_mark_run_start_bounds(marks, k - 1);
    }
}

/// A bar's source lies before the run that holds the bar.
proof fn lemma_source_before(marks: Seq<bool>, k: int)
    requires
        simile_source(marks, k) is Some,
    ensures
        0 <= simile_source(marks, k)->0 < mark_run_start(marks, k) <= k,
{
    lemma_mark_run_start_bounds(marks, k);
}

/// Expand the simile marks of one track.
fn expand_track(track: &mut Track)
    ensures
        simile_expanded(*old(track), *final(track)),
{
    let ghost orig = *track;
    let ghost marks = marked(orig);
    let n = track.measures.len();
    let mut i: usize = 0;
    while i < n
        invariant
            n == orig.measures@.len(),
            marks == marked(orig),
            i <= n,
            i == 0 || i == n || !marks[i - 1] || !marks[i as int],
            *track == (Track { measures: track.measures, ..orig }),
            track.measures@.len() == n,
            forall|k: int| 0 <= k < i ==> #[trigger] bar_expanded(orig, *track, k),
            forall|k: int| i <= k < n ==> #[trigger] track.measures@[k] == orig.measures@[k],
        decreases n - i,
    {
        if track.measures[i].simile_mark.is_none() {
            assert(!marks[i as int]);
            assert(bar_expanded(orig, *track, i as int));
            i += 1;
            continue;
        }
        let run_start = i;
        while i < n && track.measures[i].simile_mark.is_some()
            invariant
                n == orig.measures@.len(),
                marks == marked(orig),
                run_start <= i <= n,
                run_start < n,
                forall|k: int| run_start <= k < n ==> #[trigger] track.measures@[k] == orig.measures@[k],
                track.measures@.len() == n,
                forall|x: int| run_start <= x < i ==> marks[x],
                marks[run_start as int],
            decreases n - i,
        {
            i += 1;
        }
        let run_len = i - run_start;
        let source_start = if run_start >= run_len { run_start - run_len } else { 0 };
        let gap = run_start - source_start;
        let period = if gap > 1 { gap } else { 1 };
        proof {
            assert(i == n || !marks[i as int]);
            assert(run_start == 0 || !marks[run_start - 1]);
            assert forall|k: int| run_start <= k < i implies mark_run_start(marks, k) == run_start
                && mark_run_end(marks, k) == i by {
                lemma_mark_run_start(marks, run_start as int, k);
                lemma_mark_run_end(marks, k, i as int);
            }
        }
        let ghost before = *track;
        let mut offset: usize = 0;
        while offset < run_len
            invariant
                n == orig.measures@.len(),
                marks == marked(orig),
                run_start < i <= n,
                run_len == i - run_start,
                source_start == (if run_start >= run_len { run_start - run_len } else { 0 }),
                period == (if run_start - source_start > 1 { run_start - source_start } else { 1 }),
                offset <= run_len,
                forall|k: int| run_start <= k < i ==> mark_run_start(marks, k) == run_start
                    && mark_run_end(marks, k) == i,
                forall|x: int| run_start <= x < i ==> marks[x],
                *track == (Track { measures: track.measures, ..orig }),
                track.measures@.len() == n,
                forall|k: int| 0 <= k < run_start ==> #[trigger] track.measures@[k] == before.measures@[k],
                forall|k: int| 0 <= k < run_start ==> #[trigger] bar_expanded(orig, before, k),
                forall|k: int| run_start <= k < run_start + offset ==> #[trigger] bar_expanded(orig, *track, k),
                forall|k: int| run_start + offset <= k < n ==> #[trigger] track.measures@[k] == orig.measures@[k],
            decreases run_len - offset,
        {
            let ghost prev = *track;
            let src_idx = source_start + offset % period;
            let k = run_start + offset;
            proof {
                assert(simile_source(marks, k as int) == if src_idx < run_start {
                    Some(src_idx as int)
                } else {
                    None::<int>
                });
            }
            if src_idx < run_start {
                let src_voices = track.measures[src_idx].voices.clone();
                let clef = track.measures[k].clef;
                let header_index = track.measures[k].header_index;
                track.measures.set(k, Measure { header_index, voices: src_voices, simile_mark: None, clef });
            }
            proof {
                assert forall|x: int| run_start <= x <= k implies #[trigger] bar_expanded(orig, *track, x) by {
                    if x < k {
                        assert(bar_expanded(orig, prev, x));
                        if simile_source(marks, x) is Some {
                            lemma_source_before(marks, x);
                        }
                    }
                }
            }
            offset += 1;
        }
        proof {
            assert forall|k: int| 0 <= k < run_start implies #[trigger] bar_expanded(orig, *track, k) by {
                assert(track.measures@[k] == before.measures@[k]);
                assert(bar_expanded(orig, before, k));
                if simile_source(marks, k) is Some {
                    lemma_source_before(marks, k);
                    let s = simile_source(marks, k)->0;
                    assert(track.measures@[s] == before.measures@[s]);
                }
            }
        }
    }
}

/// Replace every simile-marked bar of every track with a copy of the bar it
/// repeats (see [`simile_source`]); marked bars with nothing to repeat stay
/// as they are.
pub fn expand_simile_marks(song: &mut Song)
    ensures
        *final(song) == (Song { tracks: final(song).tracks, ..*old(song) }),
        final(song).tracks@.len() == old(song).tracks@.len(),
        forall|t: int| 0 <= t < old(song).tracks@.len() ==> simile_expanded(
            #[trigger] old(song).tracks@[t],
            final(song).tracks@[t],
        ),
{
    let ghost orig = *song;
    let nt = song.tracks.len();
    let mut t: usize = 0;
    while t < nt
        invariant
            nt == orig.tracks@.len(),
            t <= nt,
            *song == (Song { tracks: song.tracks, ..orig }),
            song.tracks@.len() == nt,
            forall|x: int| 0 <= x < t ==> simile_expanded(#[trigger] orig.tracks@[x], song.tracks@[x]),
            forall|x: int| t <= x < nt ==> #[trigger] song.tracks@[x] == orig.tracks@[x],
        decreases nt - t,
    {
        expand_track(&mut song.tracks[t]);
        t += 1;
    }
}

} // verus!
