//! The `duplicates` command: content hashes of scores, which files count
//! as scores, and the groups of similar files.

use vstd::prelude::*;

use crate::analysis::form::{code_le, sort_codes};
use crate::cli::convert::{extension_of, last_segment, name_extension, plain_path};
use crate::cli::sounding::{note_midi, notes_midis, pitches_fit, sounds};
use crate::model::legacy::{Beat, Measure, Note, Song, Track, Voice};
use vstd::relations::{sorted_by, total_ordering};
use crate::cli::linkage::{connected, flag_rows, single_linkage};
use crate::text::{has_substring, lowercase, str_eq, to_lower, trim, trimmed};

verus! {

/// FNV-1a 64-bit offset basis.
pub const FNV_OFFSET: u64 = 14695981039346656037;

/// FNV-1a 64-bit prime.
pub const FNV_PRIME: u64 = 1099511628211;

/// The FNV-1a 64-bit hash of `data`.
pub open spec fn fnv(data: Seq<u8>) -> u64
    decreases data.len(),
{
    if data.len() == 0 {
        FNV_OFFSET
    } else {
        (fnv(data.drop_last()) ^ (data.last() as u64)).wrapping_mul(FNV_PRIME)
    }
}

/// FNV-1a 64-bit hash.
pub fn fnv1a(data: &[u8]) -> (r: u64)
    ensures
        r == fnv(data@),
{
    let mut h: u64 = FNV_OFFSET;
    let mut i: usize = 0;
    while i < data.len()
        invariant
            i <= data@.len(),
            h == fnv(data@.take(i as int)),
        decreases data@.len() - i,
    {
        assert(data@.take(i + 1).drop_last() =~= data@.take(i as int));
        h = (h ^ data[i] as u64).wrapping_mul(FNV_PRIME);
        i += 1;
    }
    assert(data@.take(i as int) =~= data@);
    h
}

/// Extensions of Guitar Pro files, lower case.
pub open spec fn gp_extension(e: Seq<char>) -> bool {
    e == "gp3"@ || e == "gp4"@ || e == "gp5"@ || e == "gp"@ || e == "gpx"@
}

/// Whether a file extension, in any case, is that of a Guitar Pro file.
pub fn is_gp_extension(ext: &str) -> (r: bool)
    ensures
        r == gp_extension(lowercase(ext@)),
{
    let e = to_lower(ext);
    let e = e.as_str();
    str_eq(e, "gp3") || str_eq(e, "gp4") || str_eq(e, "gp5") || str_eq(e, "gp") || str_eq(e, "gpx")
}

/// Whether a path names a Guitar Pro file by its extension: it has one,
/// and it is a Guitar Pro extension in any case.  For a plain path that is
/// the extension of its last segment.
pub fn is_gp_file(path: &str) -> (r: bool)
    ensures
        r ==> exists|e: Seq<char>|
            #[trigger] gp_extension(lowercase(e)) && has_substring(path@, seq!['.'] + e),
        plain_path(path@) ==> (r == (name_extension(last_segment(path@)).len() > 0 && gp_extension(
            lowercase(name_extension(last_segment(path@))),
        ))),
{
    let ext = extension_of(path);
    if ext.as_str().unicode_len() == 0 {
        return false;
    }
    let r = is_gp_extension(ext.as_str());
    assert(r ==> gp_extension(lowercase(ext@)) && has_substring(path@, seq!['.'] + ext@));
    r
}

/// The members of item `x`'s cluster among the first `k` items, in order.
pub open spec fn members(c: Seq<usize>, x: int, k: int) -> Seq<usize>
    decreases k,
{
    if k <= 0 {
        Seq::empty()
    } else if c[k - 1] == c[x] {
        members(c, x, k - 1).push((k - 1) as usize)
    } else {
        members(c, x, k - 1)
    }
}

/// Item `x` is the first of its cluster.
pub open spec fn first_member(c: Seq<usize>, x: int) -> bool {
    forall|y: int| 0 <= y < x ==> c[y] != c[x]
}

/// The clusters of more than one item among those first met before `k`,
/// each as its members in order.
pub open spec fn groups_upto(c: Seq<usize>, k: int) -> Seq<Seq<usize>>
    decreases k,
{
    if k <= 0 {
        Seq::empty()
    } else {
        let g = groups_upto(c, k - 1);
        let x = k - 1;
        if first_member(c, x) && members(c, x, c.len() as int).len() >= 2 {
            g.push(members(c, x, c.len() as int))
        } else {
            g
        }
    }
}

/// `c` gives each item its cluster under the links of `m`.
pub open spec fn clusters_of(c: Seq<usize>, m: Seq<Seq<bool>>) -> bool {
    &&& c.len() == m.len()
    &&& forall|x: int, y: int|
        0 <= x < c.len() && 0 <= y < c.len() ==> (#[trigger] c[x] == #[trigger] c[y] <==> connected(
            m,
            x,
            y,
        ))
}

/// The groups of similar files: `linked[a][b]` (`a < b`) marks files `a`
/// and `b` as similar, and similarity is taken transitively.  Each group
/// of two or more files lists them in order; groups come in the order of
/// their first files.
pub fn duplicate_groups(linked: &Vec<Vec<bool>>) -> (r: Vec<Vec<usize>>)
    requires
        forall|i: int| 0 <= i < linked@.len() ==> (#[trigger] linked@[i])@.len() == linked@.len(),
    ensures
        exists|c: Seq<usize>|
            #[trigger] clusters_of(c, flag_rows(linked@)) && r@.map_values(|g: Vec<usize>| g@)
                == groups_upto(c, c.len() as int),
{
    let n = linked.len();
    let coarse = single_linkage(linked);
    let ghost cs = coarse@;
    assert(clusters_of(cs, flag_rows(linked@)));
    let mut out: Vec<Vec<usize>> = Vec::new();
    let mut x: usize = 0;
    while x < n
        invariant
            n == cs.len(),
            cs == coarse@,
            x <= n,
            out@.map_values(|g: Vec<usize>| g@) == groups_upto(cs, x as int),
        decreases n - x,
    {
        let cx = coarse[x];
        let mut first = true;
        let mut y: usize = 0;
        while y < x
            invariant
                x < n,
                n == cs.len(),
                cs == coarse@,
                cx == cs[x as int],
                y <= x,
                first <==> forall|q: int| 0 <= q < y ==> cs[q] != cs[x as int],
            decreases x - y,
        {
            if coarse[y] == cx {
                first = false;
            }
            y += 1;
        }
        if first {
            let mut g: Vec<usize> = Vec::new();
            let mut z: usize = 0;
            while z < n
                invariant
                    x < n,
                    n == cs.len(),
                    cs == coarse@,
                    cx == cs[x as int],
                    z <= n,
                    g@ == members(cs, x as int, z as int),
                decreases n - z,
            {
                if coarse[z] == cx {
                    g.push(z);
                }
                z += 1;
            }
            if g.len() >= 2 {
                let ghost before = out@.map_values(|h: Vec<usize>| h@);
                out.push(g);
                assert(out@.map_values(|h: Vec<usize>| h@) =~= before.push(members(cs, x as int, n as int)));
            }
        }
        x += 1;
        assert(out@.map_values(|h: Vec<usize>| h@) =~= groups_upto(cs, x as int));
    }
    out
}

// ---------------------------------------------------------------------------
// Content fingerprints
// ---------------------------------------------------------------------------

/// The pitches among `ms` that are MIDI notes (0 to 127), in order.
pub open spec fn midi_bytes(ms: Seq<int>) -> Seq<u8>
    decreases ms.len(),
{
    if ms.len() == 0 {
        Seq::empty()
    } else if 0 <= ms.last() < 128 {
        midi_bytes(ms.drop_last()).push(ms.last() as u8)
    } else {
        midi_bytes(ms.drop_last())
    }
}

/// The MIDI notes of a beat in ascending order (independent of the order
/// the chord is written in), then the beat mark 0xFE.
pub open spec fn beat_bytes(t: Track, b: Beat) -> Seq<u8> {
    midi_bytes(notes_midis(t, b.notes@)).sort_by(code_le()).push(0xFEu8)
}

/// The bytes of the beats of `beats`.
pub open spec fn beats_bytes(t: Track, beats: Seq<Beat>) -> Seq<u8>
    decreases beats.len(),
{
    if beats.len() == 0 {
        Seq::empty()
    } else {
        beats_bytes(t, beats.drop_last()) + beat_bytes(t, beats.last())
    }
}

/// The bytes of the beats of `voices`.
pub open spec fn voices_bytes(t: Track, voices: Seq<Voice>) -> Seq<u8>
    decreases voices.len(),
{
    if voices.len() == 0 {
        Seq::empty()
    } else {
        voices_bytes(t, voices.drop_last()) + beats_bytes(t, voices.last().beats@)
    }
}

/// The bytes of the measures of `ms`, each closed by the mark 0xFD.
pub open spec fn measures_bytes(t: Track, ms: Seq<Measure>) -> Seq<u8>
    decreases ms.len(),
{
    if ms.len() == 0 {
        Seq::empty()
    } else {
        measures_bytes(t, ms.drop_last()) + voices_bytes(t, ms.last().voices@).push(0xFDu8)
    }
}

/// The bytes of the tracks of `ts`, each closed by the mark 0xFC.
pub open spec fn tracks_bytes(ts: Seq<Track>) -> Seq<u8>
    decreases ts.len(),
{
    if ts.len() == 0 {
        Seq::empty()
    } else {
        let t = ts.last();
        tracks_bytes(ts.drop_last()) + measures_bytes(t, t.measures@).push(0xFCu8)
    }
}

/// The normalised note content of a song, the input of its content hash.
pub open spec fn song_bytes(song: Song) -> Seq<u8> {
    tracks_bytes(song.tracks@)
}

/// Occurrences of byte `p` among the first `n` of `s`.
pub open spec fn byte_count(s: Seq<u8>, p: int, n: int) -> int
    decreases n,
{
    if n <= 0 {
        0
    } else {
        byte_count(s, p, n - 1) + if s[n - 1] == p {
            1int
        } else {
            0int
        }
    }
}

/// What the `duplicates` command compares songs by.
#[derive(Debug)]
pub struct SongFingerprint {
    /// FNV-1a hash of the normalised note content.
    pub content_hash: u64,
    /// Notes per MIDI pitch, 0 to 127.
    pub note_hist: Vec<u64>,
    pub measure_count: usize,
    /// Title, trimmed and lower-cased.
    pub title_norm: String,
    /// Artist, trimmed and lower-cased.
    pub artist_norm: String,
}

/// Every track's pitches fit in `i16`.
pub open spec fn song_pitches_fit(song: Song) -> bool {
    forall|t: int| 0 <= t < song.tracks@.len() ==> pitches_fit(#[trigger] song.tracks@[t])
}

/// The sorted MIDI notes of a beat followed by the beat mark.
fn push_beat_bytes(track: &Track, beat: &Beat, out: &mut Vec<u8>)
    requires
        forall|k: int|
            0 <= k < beat.notes@.len() ==> i16::MIN <= #[trigger] note_midi(*track, beat.notes@[k])
                <= i16::MAX,
    ensures
        final(out)@ == old(out)@ + beat_bytes(*track, *beat),
{
    let mut keys: Vec<u8> = Vec::new();
    let mut k: usize = 0;
    while k < beat.notes.len()
        invariant
            k <= beat.notes@.len(),
            forall|q: int|
                0 <= q < beat.notes@.len() ==> i16::MIN <= #[trigger] note_midi(
                    *track,
                    beat.notes@[q],
                ) <= i16::MAX,
            keys@ == midi_bytes(notes_midis(*track, beat.notes@.take(k as int))),
        decreases beat.notes@.len() - k,
    {
        let n = &beat.notes[k];
        assert(beat.notes@.take(k + 1).drop_last() =~= beat.notes@.take(k as int));
        if n.kind != crate::model::legacy::NoteType::Rest && n.kind != crate::model::legacy::NoteType::Tie {
            assert(i16::MIN <= note_midi(*track, beat.notes@[k as int]) <= i16::MAX);
            let p = crate::cli::sounding::note_pitch(track, n);
            let ghost ms = notes_midis(*track, beat.notes@.take(k + 1));
            assert(ms == notes_midis(*track, beat.notes@.take(k as int)).push(p as int));
            assert(ms.drop_last() =~= notes_midis(*track, beat.notes@.take(k as int)));
            if 0 <= p && p < 128 {
                keys.push(p as u8);
            }
        }
        k += 1;
    }
    assert(beat.notes@.take(k as int) =~= beat.notes@);
    let sorted = sort_codes(&keys);
    proof {
        let target = keys@.sort_by(code_le());
        assert(total_ordering(code_le()));
        keys@.lemma_sort_by_ensures(code_le());
        vstd::seq_lib::lemma_sorted_unique(sorted@, target, code_le());
    }
    let ghost start = out@;
    let mut i: usize = 0;
    while i < sorted.len()
        invariant
            i <= sorted@.len(),
            out@ == start + sorted@.take(i as int),
        decreases sorted@.len() - i,
    {
        out.push(sorted[i]);
        i += 1;
        assert(out@ =~= start + sorted@.take(i as int));
    }
    out.push(0xFE);
    assert(sorted@.take(i as int) =~= sorted@);
    assert(out@ =~= start + beat_bytes(*track, *beat));
}

/// The normalised note content of a song: per beat its sorted MIDI notes
/// and 0xFE, 0xFD after each measure, 0xFC after each track.
pub fn song_content(song: &Song) -> (r: Vec<u8>)
    requires
        song_pitches_fit(*song),
    ensures
        r@ == song_bytes(*song),
{
    let mut out: Vec<u8> = Vec::new();
    let mut t: usize = 0;
    while t < song.tracks.len()
        invariant
            t <= song.tracks@.len(),
            song_pitches_fit(*song),
            out@ == tracks_bytes(song.tracks@.take(t as int)),
        decreases song.tracks@.len() - t,
    {
        let track = &song.tracks[t];
        assert(song.tracks@.take(t + 1).drop_last() =~= song.tracks@.take(t as int));
        assert(pitches_fit(song.tracks@[t as int]));
        let ghost tstart = out@;
        let mut m: usize = 0;
        while m < track.measures.len()
            invariant
                *track == song.tracks@[t as int],
                pitches_fit(*track),
                m <= track.measures@.len(),
                out@ == tstart + measures_bytes(*track, track.measures@.take(m as int)),
            decreases track.measures@.len() - m,
        {
            let measure = &track.measures[m];
            assert(track.measures@.take(m + 1).drop_last() =~= track.measures@.take(m as int));
            let ghost mstart = out@;
            let mut v: usize = 0;
            while v < measure.voices.len()
                invariant
                    *track == song.tracks@[t as int],
                    pitches_fit(*track),
                    m < track.measures@.len(),
                    *measure == track.measures@[m as int],
                    v <= measure.voices@.len(),
                    out@ == mstart + voices_bytes(*track, measure.voices@.take(v as int)),
                decreases measure.voices@.len() - v,
            {
                let voice = &measure.voices[v];
                assert(measure.voices@.take(v + 1).drop_last() =~= measure.voices@.take(v as int));
                let ghost vstart = out@;
                let mut b: usize = 0;
                while b < voice.beats.len()
                    invariant
                        *track == song.tracks@[t as int],
                        pitches_fit(*track),
                        m < track.measures@.len(),
                        *measure == track.measures@[m as int],
                        v < measure.voices@.len(),
                        *voice == measure.voices@[v as int],
                        b <= voice.beats@.len(),
                        out@ == vstart + beats_bytes(*track, voice.beats@.take(b as int)),
                    decreases voice.beats@.len() - b,
                {
                    assert(voice.beats@.take(b + 1).drop_last() =~= voice.beats@.take(b as int));
                    let beat = &voice.beats[b];
                    assert forall|k: int| 0 <= k < beat.notes@.len() implies i16::MIN
                        <= #[trigger] note_midi(*track, beat.notes@[k]) <= i16::MAX by {
                        assert(beat.notes@[k] == track.measures@[m as int].voices@[v as int].beats@[b as int].notes@[k]);
                    }
                    push_beat_bytes(track, beat, &mut out);
                    b += 1;
                    assert(out@ =~= vstart + beats_bytes(*track, voice.beats@.take(b as int)));
                }
                assert(voice.beats@.take(b as int) =~= voice.beats@);
                v += 1;
                assert(out@ =~= mstart + voices_bytes(*track, measure.voices@.take(v as int)));
            }
            assert(measure.voices@.take(v as int) =~= measure.voices@);
            out.push(0xFD);
            m += 1;
            assert(out@ =~= tstart + measures_bytes(*track, track.measures@.take(m as int)));
        }
        assert(track.measures@.take(m as int) =~= track.measures@);
        out.push(0xFC);
        t += 1;
        assert(out@ =~= tracks_bytes(song.tracks@.take(t as int)));
    }
    assert(song.tracks@.take(t as int) =~= song.tracks@);
    out
}

/// The fingerprint of a song: the hash of its note content, its notes per
/// MIDI pitch, its measure count, and its title and artist trimmed and
/// lower-cased.
pub fn fingerprint_song(song: &Song) -> (r: SongFingerprint)
    requires
        song_pitches_fit(*song),
    ensures
        r.content_hash == fnv(song_bytes(*song)),
        r.note_hist@.len() == 128,
        forall|p: int|
            0 <= p < 128 ==> #[trigger] r.note_hist@[p] == byte_count(
                song_bytes(*song),
                p,
                song_bytes(*song).len() as int,
            ),
        r.measure_count == song.measure_headers@.len(),
        r.title_norm@ == lowercase(trimmed(song.name@)),
        r.artist_norm@ == lowercase(trimmed(song.artist@)),
{
    let bytes = song_content(song);
    let content_hash = fnv1a(bytes.as_slice());
    let mut hist: Vec<u64> = Vec::new();
    let mut q: usize = 0;
    while q < 128
        invariant
            q <= 128,
            hist@.len() == q,
            forall|p: int| 0 <= p < q ==> #[trigger] hist@[p] == 0,
        decreases 128 - q,
    {
        hist.push(0);
        q += 1;
    }
    let mut i: usize = 0;
    while i < bytes.len()
        invariant
            i <= bytes@.len(),
            hist@.len() == 128,
            forall|p: int| 0 <= p < 128 ==> #[trigger] hist@[p] == byte_count(bytes@, p, i as int),
            forall|p: int| 0 <= p < 128 ==> #[trigger] hist@[p] <= i,
        decreases bytes@.len() - i,
    {
        let x = bytes[i];
        if x < 128 {
            let cur = hist[x as usize];
            hist.set(x as usize, cur + 1);
        }
        i += 1;
    }
    SongFingerprint {
        content_hash,
        note_hist: hist,
        measure_count: song.measure_headers.len(),
        title_norm: to_lower(trim(song.name.as_str())),
        artist_norm: to_lower(trim(song.artist.as_str())),
    }
}

/// Beats that sound the same MIDI notes, written in any order, give the
/// same content bytes: the content does not depend on how a chord is
/// written.
pub proof fn lemma_beat_bytes_order_free(t: Track, b1: Beat, b2: Beat)
    requires
        midi_bytes(notes_midis(t, b1.notes@)).to_multiset() == midi_bytes(
            notes_midis(t, b2.notes@),
        ).to_multiset(),
    ensures
        beat_bytes(t, b1) == beat_bytes(t, b2),
{
    let k1 = midi_bytes(notes_midis(t, b1.notes@));
    let k2 = midi_bytes(notes_midis(t, b2.notes@));
    assert(total_ordering(code_le()));
    k1.lemma_sort_by_ensures(code_le());
    k2.lemma_sort_by_ensures(code_le());
    vstd::seq_lib::lemma_sorted_unique(k1.sort_by(code_le()), k2.sort_by(code_le()), code_le());
}

} // verus!
