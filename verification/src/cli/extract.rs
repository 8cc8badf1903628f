//! The `extract` command: which tracks of a song to keep, and the song with
//! only those tracks.

use vstd::prelude::*;

use crate::model::legacy::{Song, Track};
use crate::text::{
    contains_str, has_substring, lowercase, parse_usize, split_at_char, split_pieces, split_ranges,
    to_lower, trim, trimmed, unsigned_value,
};

verus! {

/// Arguments of the `extract` command.
#[derive(Debug)]
pub struct ExtractArgs {
    /// Input score file.
    pub input: String,
    /// Output file (format from its extension, or `to`).
    pub output: String,
    /// Track names to select: comma-separated, case-insensitive substrings.
    pub tracks: Option<String>,
    /// Track indices to select: comma-separated, 0-based.
    pub track_index: Option<String>,
    /// Keep every track except the selected ones.
    pub invert: bool,
    /// Output format name.
    pub to: Option<String>,
    /// Input format name.
    pub from: Option<String>,
}

/// Why no track selection could be made.
#[derive(Debug, Clone, PartialEq, Eq)]
pub enum SelectError {
    /// Neither names nor indices were given.
    NoSelector,
    /// A piece of the index list (given, trimmed) is not a number.
    InvalidIndex(String),
    /// An index is not that of a track.
    IndexOutOfRange { index: usize, total: usize },
    /// The selection keeps no track.
    NothingSelected,
}

/// A name filter selects a track name: some comma-separated piece of the
/// filter, trimmed and lower-cased, occurs in the lower-cased name.
pub open spec fn name_selects(filter: Seq<char>, name: Seq<char>) -> bool {
    exists|k: int|
        0 <= k < split_pieces(filter, ',').len() && has_substring(
            lowercase(name),
            lowercase(trimmed(#[trigger] split_pieces(filter, ',')[k])),
        )
}

/// A piece of an index list reads as an index.
pub open spec fn piece_parses(p: Seq<char>) -> bool {
    unsigned_value(trimmed(p)) is Some && unsigned_value(trimmed(p))->0 <= usize::MAX
}

/// The index a piece reads as.
pub open spec fn piece_index(p: Seq<char>) -> int {
    unsigned_value(trimmed(p))->0 as int
}

/// A piece of an index list that is rejected: not a number, or not the
/// index of one of `total` tracks.
pub open spec fn piece_rejected(p: Seq<char>, total: int) -> bool {
    !piece_parses(p) || piece_index(p) >= total
}

/// Position of the first rejected piece, or -1.
pub open spec fn first_rejected(pieces: Seq<Seq<char>>, total: int) -> int
    decreases pieces.len(),
{
    if pieces.len() == 0 {
        -1
    } else {
        let k = first_rejected(pieces.drop_last(), total);
        if k >= 0 {
            k
        } else if piece_rejected(pieces.last(), total) {
            pieces.len() - 1
        } else {
            -1
        }
    }
}

/// An index list selects track `i`.
pub open spec fn index_selects(pieces: Seq<Seq<char>>, i: int) -> bool {
    exists|k: int|
        0 <= k < pieces.len() && piece_parses(#[trigger] pieces[k]) && piece_index(pieces[k]) == i
}

/// The names of the tracks of a song.
pub open spec fn track_names(song: Song) -> Seq<Seq<char>> {
    song.tracks@.map_values(|t: Track| t.name@)
}

/// Track `i` is selected by the arguments.
pub open spec fn selected(args: ExtractArgs, names: Seq<Seq<char>>, i: int) -> bool {
    ||| args.tracks is Some && name_selects(args.tracks->0@, names[i])
    ||| args.track_index is Some && index_selects(split_pieces(args.track_index->0@, ','), i)
}

/// Track `i` is kept: selected, or not selected under `invert`.
pub open spec fn kept(args: ExtractArgs, names: Seq<Seq<char>>, i: int) -> bool {
    selected(args, names, i) != args.invert
}

proof fn lemma_first_rejected(pieces: Seq<Seq<char>>, total: int)
    ensures
        -1 <= first_rejected(pieces, total) < pieces.len(),
        first_rejected(pieces, total) >= 0 ==> piece_rejected(
            pieces[first_rejected(pieces, total)],
            total,
        ),
        first_rejected(pieces, total) >= 0 ==> forall|k: int|
            0 <= k < first_rejected(pieces, total) ==> !piece_rejected(#[trigger] pieces[k], total),
        first_rejected(pieces, total) < 0 ==> forall|k: int|
            0 <= k < pieces.len() ==> !piece_rejected(#[trigger] pieces[k], total),
    decreases pieces.len(),
{
    if pieces.len() > 0 {
        let init = pieces.drop_last();
        lemma_first_rejected(init, total);
        let f = first_rejected(pieces, total);
        if f >= 0 {
            assert forall|k: int| 0 <= k < f implies !piece_rejected(#[trigger] pieces[k], total) by {
                assert(init[k] == pieces[k]);
            }
        } else {
            assert forall|k: int| 0 <= k < pieces.len() implies !piece_rejected(
                #[trigger] pieces[k],
                total,
            ) by {
                if k < init.len() {
                    assert(init[k] == pieces[k]);
                }
            }
        }
    }
}

/// Which tracks of `song` the arguments keep, one flag per track.
pub fn select_tracks(args: &ExtractArgs, song: &Song) -> (r: Result<Vec<bool>, SelectError>)
    ensures
        args.tracks is None && args.track_index is None ==> r == Err::<Vec<bool>, SelectError>(
            SelectError::NoSelector,
        ),
        args.track_index is Some ==> {
            let pieces = split_pieces(args.track_index->0@, ',');
            let k = first_rejected(pieces, song.tracks@.len() as int);
            k >= 0 ==> if piece_parses(pieces[k]) {
                r == Err::<Vec<bool>, SelectError>(
                    SelectError::IndexOutOfRange {
                        index: piece_index(pieces[k]) as usize,
                        total: song.tracks@.len() as usize,
                    },
                )
            } else {
                r matches Err(SelectError::InvalidIndex(s)) && s@ == trimmed(pieces[k])
            }
        },
        (args.tracks is Some || args.track_index is Some) && (args.track_index is Some
            ==> first_rejected(split_pieces(args.track_index->0@, ','), song.tracks@.len() as int)
            < 0) ==> {
            let names = track_names(*song);
            if exists|i: int| 0 <= i < names.len() && #[trigger] kept(*args, names, i) {
                r matches Ok(keep) && keep@.len() == names.len() && forall|i: int|
                    0 <= i < names.len() ==> #[trigger] keep@[i] == kept(*args, names, i)
            } else {
                r == Err::<Vec<bool>, SelectError>(SelectError::NothingSelected)
            }
        },
{
    if args.tracks.is_none() && args.track_index.is_none() {
        return Err(SelectError::NoSelector);
    }
    let ghost names = track_names(*song);
    let total = song.tracks.len();
    let mut by_name: Vec<bool> = Vec::new();
    let mut i: usize = 0;
    while i < total
        invariant
            total == song.tracks@.len(),
            names == track_names(*song),
            i <= total,
            by_name@.len() == i,
            forall|j: int|
                0 <= j < i ==> #[trigger] by_name@[j] == (args.tracks is Some && name_selects(
                    args.tracks->0@,
                    names[j],
                )),
        decreases total - i,
    {
        let hit = match &args.tracks {
            Some(filter) => track_matches(filter.as_str(), song.tracks[i].name.as_str()),
            None => false,
        };
        by_name.push(hit);
        i += 1;
    }
    let mut by_index: Vec<bool> = Vec::new();
    let mut j: usize = 0;
    while j < total
        invariant
            j <= total,
            by_index@.len() == j,
            forall|q: int| 0 <= q < j ==> !#[trigger] by_index@[q],
        decreases total - j,
    {
        by_index.push(false);
        j += 1;
    }
    match &args.track_index {
        Some(list) => {
            let ghost pieces = split_pieces(list@, ',');
            let ranges = split_at_char(list.as_str(), ',');
            proof {
                lemma_first_rejected(pieces, total as int);
            }
            let mut k: usize = 0;
            while k < ranges.len()
                invariant
                    args.track_index is Some,
                    list@ == args.track_index->0@,
                    pieces == split_pieces(list@, ','),
                    ranges@.len() == split_ranges(list@, ',').len(),
                    forall|q: int|
                        0 <= q < ranges@.len() ==> (#[trigger] ranges@[q]).0 as int == split_ranges(
                            list@,
                            ',',
                        )[q].0 && ranges@[q].1 as int == split_ranges(list@, ',')[q].1
                            && ranges@[q].0 <= ranges@[q].1 <= list@.len(),
                    total == song.tracks@.len(),
                    k <= ranges@.len(),
                    by_index@.len() == total,
                    forall|q: int| 0 <= q < k ==> !piece_rejected(#[trigger] pieces[q], total as int),
                    forall|x: int|
                        0 <= x < total ==> (#[trigger] by_index@[x] <==> exists|q: int|
                            0 <= q < k && piece_parses(#[trigger] pieces[q]) && piece_index(
                                pieces[q],
                            ) == x),
                    -1 <= first_rejected(pieces, total as int) < pieces.len(),
                    first_rejected(pieces, total as int) >= 0 ==> piece_rejected(
                        pieces[first_rejected(pieces, total as int)],
                        total as int,
                    ),
                    first_rejected(pieces, total as int) >= 0 ==> forall|q: int|
                        0 <= q < first_rejected(pieces, total as int) ==> !piece_rejected(
                            #[trigger] pieces[q],
                            total as int,
                        ),
                    first_rejected(pieces, total as int) < 0 ==> forall|q: int|
                        0 <= q < pieces.len() ==> !piece_rejected(#[trigger] pieces[q], total as int),
                decreases ranges@.len() - k,
            {
                let (a, b) = ranges[k];
                let piece = list.as_str().substring_char(a, b);
                assert(piece@ == pieces[k as int]);
                let part = trim(piece);
                match parse_usize(part) {
                    None => {
                        assert(first_rejected(pieces, total as int) == k);
                        return Err(SelectError::InvalidIndex(part.to_owned()));
                    },
                    Some(v) => {
                        if v >= total {
                            assert(first_rejected(pieces, total as int) == k);
                            return Err(SelectError::IndexOutOfRange { index: v, total });
                        }
                        by_index.set(v, true);
                        proof {
                            assert forall|x: int| 0 <= x < total implies (#[trigger] by_index@[x]
                                <==> exists|q: int|
                                0 <= q < k + 1 && piece_parses(#[trigger] pieces[q]) && piece_index(
                                    pieces[q],
                                ) == x) by {
                                if x == v {
                                    assert(piece_parses(pieces[k as int]) && piece_index(
                                        pieces[k as int],
                                    ) == x);
                                }
                            }
                        }
                    },
                }
                k += 1;
            }
            assert(first_rejected(pieces, total as int) < 0);
        },
        None => {},
    }
    let mut keep: Vec<bool> = Vec::new();
    let mut any = false;
    let mut i: usize = 0;
    while i < total
        invariant
            total == song.tracks@.len(),
            names == track_names(*song),
            i <= total,
            by_name@.len() == total,
            by_index@.len() == total,
            keep@.len() == i,
            forall|j: int|
                0 <= j < total ==> #[trigger] by_name@[j] == (args.tracks is Some && name_selects(
                    args.tracks->0@,
                    names[j],
                )),
            args.track_index is Some ==> forall|x: int|
                0 <= x < total ==> (#[trigger] by_index@[x] <==> index_selects(
                    split_pieces(args.track_index->0@, ','),
                    x,
                )),
            args.track_index is None ==> forall|x: int| 0 <= x < total ==> !#[trigger] by_index@[x],
            forall|j: int| 0 <= j < i ==> #[trigger] keep@[j] == kept(*args, names, j),
            any <==> exists|j: int| 0 <= j < i && #[trigger] kept(*args, names, j),
        decreases total - i,
    {
        let k = (by_name[i] || by_index[i]) != args.invert;
        assert(k == kept(*args, names, i as int));
        keep.push(k);
        if k {
            any = true;
        }
        i += 1;
    }
    if !any {
        return Err(SelectError::NothingSelected);
    }
    Ok(keep)
}

/// Whether a name filter selects the track named `name`.
fn track_matches(filter: &str, name: &str) -> (r: bool)
    ensures
        r == name_selects(filter@, name@),
{
    let lname = to_lower(name);
    let ranges = split_at_char(filter, ',');
    let ghost pieces = split_pieces(filter@, ',');
    let mut k: usize = 0;
    while k < ranges.len()
        invariant
            pieces == split_pieces(filter@, ','),
            lname@ == lowercase(name@),
            ranges@.len() == split_ranges(filter@, ',').len(),
            forall|q: int|
                0 <= q < ranges@.len() ==> (#[trigger] ranges@[q]).0 as int == split_ranges(
                    filter@,
                    ',',
                )[q].0 && ranges@[q].1 as int == split_ranges(filter@, ',')[q].1 && ranges@[q].0
                    <= ranges@[q].1 <= filter@.len(),
            k <= ranges@.len(),
            forall|q: int|
                0 <= q < k ==> !has_substring(
                    lowercase(name@),
                    lowercase(trimmed(#[trigger] pieces[q])),
                ),
        decreases ranges@.len() - k,
    {
        let (a, b) = ranges[k];
        let piece = filter.substring_char(a, b);
        assert(piece@ == pieces[k as int]);
        let needle = to_lower(trim(piece));
        if contains_str(lname.as_str(), needle.as_str()) {
            return true;
        }
        k += 1;
    }
    false
}

/// Renumbering of a kept track: its 1-based position among the kept ones.
pub open spec fn renumbered(t: Track, number: int) -> Track {
    Track { number: number as i32, ..t }
}

/// Positions of the set flags among the first `n`, in order.
pub open spec fn kept_positions(keep: Seq<bool>, n: int) -> Seq<int>
    decreases n,
{
    if n <= 0 {
        Seq::empty()
    } else if keep[n - 1] {
        kept_positions(keep, n - 1).push(n - 1)
    } else {
        kept_positions(keep, n - 1)
    }
}

/// Keep only the flagged tracks of `song`, renumbered from 1 in order.
pub fn extract_tracks(song: &mut Song, keep: &Vec<bool>)
    requires
        keep@.len() == old(song).tracks@.len(),
    ensures
        final(song).tracks@.len() == kept_positions(keep@, keep@.len() as int).len(),
        forall|k: int|
            0 <= k < final(song).tracks@.len() ==> #[trigger] final(song).tracks@[k] == renumbered(
                old(song).tracks@[kept_positions(keep@, keep@.len() as int)[k]],
                k + 1,
            ),
        final(song).name == old(song).name,
        final(song).artist == old(song).artist,
        final(song).channels == old(song).channels,
{
    let mut rest: Vec<Track> = Vec::new();
    std::mem::swap(&mut rest, &mut song.tracks);
    let ghost orig = rest@;
    let n = rest.len();
    let mut out: Vec<Track> = Vec::new();
    let mut i: usize = 0;
    while i < n
        invariant
            n == orig.len(),
            keep@.len() == n,
            i <= n,
            rest@ == orig.subrange(i as int, n as int),
            kept_positions(keep@, i as int).len() <= i,
            out@.len() == kept_positions(keep@, i as int).len(),
            forall|k: int|
                0 <= k < out@.len() ==> #[trigger] out@[k] == renumbered(
                    orig[kept_positions(keep@, i as int)[k]],
                    k + 1,
                ),
            forall|k: int|
                0 <= k < kept_positions(keep@, i as int).len() ==> 0 <= #[trigger] kept_positions(
                    keep@,
                    i as int,
                )[k] < i,
        decreases n - i,
    {
        let mut t = rest.remove(0);
        assert(t == orig[i as int]);
        if keep[i] {
            let number = out.len() + 1;
            t.number = number as i32;
            out.push(t);
            proof {
                let kp = kept_positions(keep@, i + 1);
                assert(kp == kept_positions(keep@, i as int).push(i as int));
                assert forall|k: int| 0 <= k < out@.len() implies #[trigger] out@[k] == renumbered(
                    orig[kp[k]],
                    k + 1,
                ) by {
                    if k < out@.len() - 1 {
                        assert(kp[k] == kept_positions(keep@, i as int)[k]);
                    }
                }
            }
        }
        assert(rest@ =~= orig.subrange(i + 1, n as int));
        i += 1;
    }
    song.tracks = out;
}

} // verus!
