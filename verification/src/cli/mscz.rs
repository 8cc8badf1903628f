//! The `mscz` command: where archive entries may be extracted to, and
//! where a thumbnail is written.

use vstd::prelude::*;

use crate::text::{split_at_char, split_pieces, split_ranges};

verus! {

/// Arguments of the `mscz` command.
#[derive(Debug)]
pub struct MsczArgs {
    pub action: MsczAction,
}

/// What the `mscz` command does with an archive.
#[derive(Debug)]
pub enum MsczAction {
    /// List the archive's entries with their sizes.
    List { input: String, json: bool },
    /// Extract every entry into a directory.
    Extract { input: String, out: String },
    /// Write the embedded PNG thumbnail to a file.
    Thumbnail { input: String, out: Option<String> },
}

/// Why an archive entry may not be extracted.
#[derive(Debug, Clone, Copy, PartialEq, Eq, Structural)]
pub enum EntryPathError {
    /// The entry's path is absolute.
    Absolute,
    /// The entry's path climbs with `..`.
    ParentDir,
}

/// The segments a relative path names, under Unix path rules: its
/// `/`-separated pieces without the empty ones and `.`.
pub open spec fn normal_segments(pieces: Seq<Seq<char>>) -> Seq<Seq<char>>
    decreases pieces.len(),
{
    if pieces.len() == 0 {
        Seq::empty()
    } else {
        let init = normal_segments(pieces.drop_last());
        let p = pieces.last();
        if p.len() == 0 || p == "."@ {
            init
        } else {
            init.push(p)
        }
    }
}

/// Some `/`-separated piece of `rel` is `..`.
pub open spec fn climbs(rel: Seq<char>) -> bool {
    exists|k: int|
        0 <= k < split_pieces(rel, '/').len() && #[trigger] split_pieces(rel, '/')[k] == ".."@
}

/// The directory segments under which an archive entry named `relative`
/// is written, below the extraction root.  An absolute path, or one that
/// climbs with `..`, is refused: an entry may not escape the root.
pub fn entry_segments(relative: &str) -> (r: Result<Vec<String>, EntryPathError>)
    ensures
        relative@.len() > 0 && relative@[0] == '/' ==> r == Err::<Vec<String>, EntryPathError>(
            EntryPathError::Absolute,
        ),
        !(relative@.len() > 0 && relative@[0] == '/') && climbs(relative@) ==> r == Err::<
            Vec<String>,
            EntryPathError,
        >(EntryPathError::ParentDir),
        !(relative@.len() > 0 && relative@[0] == '/') && !climbs(relative@) ==> (r matches Ok(segs)
            && segs@.map_values(|t: String| t@) == normal_segments(split_pieces(relative@, '/'))),
{
    let n = relative.unicode_len();
    if n > 0 && relative.get_char(0) == '/' {
        return Err(EntryPathError::Absolute);
    }
    let ranges = split_at_char(relative, '/');
    let ghost pieces = split_pieces(relative@, '/');
    let mut out: Vec<String> = Vec::new();
    let mut k: usize = 0;
    while k < ranges.len()
        invariant
            !(relative@.len() > 0 && relative@[0] == '/'),
            pieces == split_pieces(relative@, '/'),
            ranges@.len() == split_ranges(relative@, '/').len(),
            forall|q: int|
                0 <= q < ranges@.len() ==> (#[trigger] ranges@[q]).0 as int == split_ranges(
                    relative@,
                    '/',
                )[q].0 && ranges@[q].1 as int == split_ranges(relative@, '/')[q].1
                    && ranges@[q].0 <= ranges@[q].1 <= relative@.len(),
            k <= ranges@.len(),
            forall|q: int| 0 <= q < k ==> #[trigger] pieces[q] != ".."@,
            out@.map_values(|t: String| t@) == normal_segments(pieces.take(k as int)),
        decreases ranges@.len() - k,
    {
        proof {
            reveal_strlit(".");
            reveal_strlit("..");
        }
        let (a, b) = ranges[k];
        let piece = relative.substring_char(a, b);
        assert(piece@ == pieces[k as int]);
        assert(pieces.take(k + 1).drop_last() =~= pieces.take(k as int));
        let len = b - a;
        if len == 2 && piece.get_char(0) == '.' && piece.get_char(1) == '.' {
            assert(piece@ =~= ".."@);
            return Err(EntryPathError::ParentDir);
        }
        assert(piece@ != ".."@);
        let dot = len == 1 && piece.get_char(0) == '.';
        assert(dot == (piece@ == "."@)) by {
            if piece@ == "."@ {
                assert(piece@[0] == '.');
            }
            if dot {
                assert(piece@ =~= "."@);
            }
        }
        if len > 0 && !dot {
            out.push(piece.to_owned());
        }
        k += 1;
        assert(out@.map_values(|t: String| t@) =~= normal_segments(pieces.take(k as int)));
    }
    assert(pieces.take(k as int) =~= pieces);
    Ok(out)
}

/// Where the thumbnail of `input` is written: `out` when given, else the
/// input path followed by `.thumbnail.png`.
pub fn thumbnail_path(input: &str, out: Option<&str>) -> (r: String)
    ensures
        out is Some ==> r@ == out->0@,
        out is None ==> r@ == input@ + ".thumbnail.png"@,
{
    match out {
        Some(o) => o.to_owned(),
        None => {
            let mut s = String::from_str(input);
            s.append(".thumbnail.png");
            s
        },
    }
}

} // verus!
