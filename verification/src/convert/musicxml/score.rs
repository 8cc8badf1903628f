//! The whole `score-partwise` document of a legacy song.

use vstd::prelude::*;

use crate::convert::musicxml::measure::{build_measure, xml_measure_made};
use crate::convert::musicxml::metadata::{
    build_identification, build_part_list, channels_numbered, identification_made, part_list_made,
};
use crate::convert::musicxml::note::voices_convertible;
use crate::convert::optimized::song::{non_empty_text, opt_text};
use crate::model::legacy::{Song, Track};
use crate::model::musicxml::{Measure, Part, ScorePartwise, Work};
use crate::text::{decimal, prefixed_decimal};

verus! {

/// Every measure of the song converts: its voices' durations are
/// measurable and it names one of the song's headers; and every track's
/// channel number leaves room for the 1-based MIDI channel.
pub open spec fn song_convertible(song: Song) -> bool {
    &&& channels_numbered(song)
    &&& forall|t: int, m: int|
        0 <= t < song.tracks@.len() && 0 <= m < song.tracks@[t].measures@.len() ==> {
            &&& voices_convertible(#[trigger] song.tracks@[t].measures@[m])
            &&& song.tracks@[t].measures@[m].header_index < song.measure_headers@.len()
        }
}

/// `p` is the part of track `t`: id `P<t + 1>`, one measure per measure of
/// the track, each converted with the header it names.
pub open spec fn part_made(p: Part, song: Song, t: int) -> bool {
    let track = song.tracks@[t];
    &&& p.id@ == "P"@ + decimal((t + 1) as nat)
    &&& p.measures@.len() == track.measures@.len()
    &&& forall|m: int|
        0 <= m < track.measures@.len() ==> xml_measure_made(
            #[trigger] p.measures@[m],
            song,
            track,
            t,
            track.measures@[m],
            song.measure_headers@[track.measures@[m].header_index as int],
            m,
        )
}

fn build_part(song: &Song, t: usize) -> (r: Part)
    requires
        song_convertible(*song),
        t < song.tracks@.len(),
    ensures
        part_made(r, *song, t as int),
{
    proof {
        reveal_strlit("P");
    }
    let track: &Track = &song.tracks[t];
    let mut measures: Vec<Measure> = Vec::new();
    let mut m: usize = 0;
    while m < track.measures.len()
        invariant
            song_convertible(*song),
            t < song.tracks@.len(),
            *track == song.tracks@[t as int],
            m <= track.measures@.len(),
            measures@.len() == m,
            forall|k: int|
                0 <= k < m ==> xml_measure_made(
                    #[trigger] measures@[k],
                    *song,
                    *track,
                    t as int,
                    track.measures@[k],
                    song.measure_headers@[track.measures@[k].header_index as int],
                    k,
                ),
        decreases track.measures@.len() - m,
    {
        let measure = &track.measures[m];
        assert(voices_convertible(song.tracks@[t as int].measures@[m as int]));
        let header = &song.measure_headers[measure.header_index];
        measures.push(build_measure(song, track, t, measure, header, m));
        m += 1;
    }
    let n_tracks = song.tracks.len();
    let id = prefixed_decimal("P", (t + 1) as u64);
    Part { id, measures }
}

/// `r` is the MusicXML document of `song`: the title as the work's title
/// (none when empty), no movement title, the identification, the part list
/// and one part per track.
pub open spec fn score_made(r: ScorePartwise, song: Song) -> bool {
    &&& r.work is Some
    &&& opt_text(r.work->0.work_title) == non_empty_text(song.name@)
    &&& r.movement_title is None
    &&& r.identification is Some
    &&& identification_made(r.identification->0, song)
    &&& part_list_made(r.part_list, song)
    &&& r.parts@.len() == song.tracks@.len()
    &&& forall|t: int| 0 <= t < song.tracks@.len() ==> part_made(#[trigger] r.parts@[t], song, t)
}

/// Convert a legacy song into a MusicXML `score-partwise` document.
pub fn song_to_score_partwise(song: &Song) -> (r: ScorePartwise)
    requires
        song_convertible(*song),
    ensures
        score_made(r, *song),
{
    let identification = build_identification(song);
    let part_list = build_part_list(song);
    let mut parts: Vec<Part> = Vec::new();
    let mut t: usize = 0;
    while t < song.tracks.len()
        invariant
            song_convertible(*song),
            t <= song.tracks@.len(),
            parts@.len() == t,
            forall|k: int| 0 <= k < t ==> part_made(#[trigger] parts@[k], *song, k),
        decreases song.tracks@.len() - t,
    {
        parts.push(build_part(song, t));
        t += 1;
    }
    let work_title = if song.name.unicode_len() == 0 {
        None
    } else {
        Some(song.name.clone())
    };
    ScorePartwise {
        work: Some(Work { work_title }),
        movement_title: None,
        identification: Some(identification),
        part_list,
        parts,
    }
}

} // verus!
