//! The `form` command: the sections of a song, cut at its markers, at its
//! repeat signs or by a fixed window, and their names.

use vstd::prelude::*;

use crate::cli::linkage::{connected, flag_rows, single_linkage};
use crate::model::legacy::MeasureHeader;
use crate::text::{char_text, trim, trimmed};

verus! {

/// A section of a song: measures `start..end` (0-based, end exclusive) and
/// the cleaned title of the marker at its first measure, if any.
#[derive(Debug)]
pub struct Section {
    pub start: usize,
    pub end: usize,
    pub name: Option<String>,
}

// ---------------------------------------------------------------------------
// Section breaks
// ---------------------------------------------------------------------------

/// A measure after the first carries a marker.
pub open spec fn has_late_marker(h: Seq<MeasureHeader>) -> bool {
    exists|i: int| 1 <= i < h.len() && (#[trigger] h[i]).marker is Some
}

/// Some measure opens or closes a repeat.
pub open spec fn has_repeat_signs(h: Seq<MeasureHeader>) -> bool {
    exists|i: int| 0 <= i < h.len() && ((#[trigger] h[i]).repeat_open || h[i].repeat_close >= 0)
}

/// A section starts (or the song ends) at position `i`: the ends of the
/// song, every marker, and, in a song without markers after its first
/// measure but with repeats, every repeat opening and the measure after
/// every repeat close.
pub open spec fn is_break(h: Seq<MeasureHeader>, i: int) -> bool {
    ||| i == 0
    ||| i == h.len()
    ||| 1 <= i < h.len() && (h[i].marker is Some || (!has_late_marker(h) && has_repeat_signs(h) && (
    h[i].repeat_open || h[i - 1].repeat_close >= 0)))
}

/// The break positions below `k`, in increasing order.
pub open spec fn breaks_upto(h: Seq<MeasureHeader>, k: int) -> Seq<int>
    decreases k,
{
    if k <= 0 {
        Seq::empty()
    } else {
        let b = breaks_upto(h, k - 1);
        if is_break(h, k - 1) {
            b.push(k - 1)
        } else {
            b
        }
    }
}

/// The breaks that markers and repeat signs give.
pub open spec fn natural_breaks(h: Seq<MeasureHeader>) -> Seq<int> {
    breaks_upto(h, h.len() + 1int)
}

/// The window of the fixed-window fallback when none is given: a quarter
/// of the song, between 4 and 16 measures.
pub open spec fn auto_window(n: int) -> int {
    if n / 4 < 4 {
        4
    } else if n / 4 > 16 {
        16
    } else {
        n / 4
    }
}

/// Breaks every `w` measures, and at the end.
pub open spec fn window_breaks(n: int, w: int) -> Seq<int> {
    let base = Seq::new((n / w + 1) as nat, |k: int| k * w);
    if n % w == 0 {
        base
    } else {
        base.push(n)
    }
}

/// `0`, then each break that ends a stretch of at least `m` measures,
/// among the first `k` breaks.
pub open spec fn long_enough_upto(b: Seq<int>, m: int, k: int) -> Seq<int>
    decreases k,
{
    if k <= 1 {
        seq![0]
    } else {
        let o = long_enough_upto(b, m, k - 1);
        if b[k - 1] - b[k - 2] >= m {
            o.push(b[k - 1])
        } else {
            o
        }
    }
}

/// The first `k` elements of `s` without repeats of the same element in a
/// row.
pub open spec fn dedup_upto(s: Seq<int>, k: int) -> Seq<int>
    decreases k,
{
    if k <= 0 {
        Seq::empty()
    } else {
        let d = dedup_upto(s, k - 1);
        if d.len() > 0 && d.last() == s[k - 1] {
            d
        } else {
            d.push(s[k - 1])
        }
    }
}

/// Breaks with every stretch shorter than `min_len` (at least 1) merged
/// into the next one; the end of the song stays a break.
pub open spec fn merged_breaks(b: Seq<int>, min_len: int, total: int) -> Seq<int> {
    if b.len() <= 2 {
        b
    } else {
        let m = if min_len < 1 {
            1
        } else {
            min_len
        };
        let o = long_enough_upto(b, m, b.len() as int);
        let o2 = if o.last() != total {
            o.push(total)
        } else {
            o
        };
        let d = dedup_upto(o2, o2.len() as int);
        if d.len() <= 1 {
            seq![0, total]
        } else {
            d
        }
    }
}

/// The breaks of a song's sections.
pub open spec fn segment_breaks(h: Seq<MeasureHeader>, min_len: int, window: int) -> Seq<int> {
    let n = h.len() as int;
    let nb = natural_breaks(h);
    let b = if nb.len() <= 2 {
        window_breaks(
            n,
            if window > 0 {
                window
            } else {
                auto_window(n)
            },
        )
    } else {
        nb
    };
    merged_breaks(b, min_len, n)
}

/// A sequence of breaks cuts `0..n` into nonempty stretches: it rises
/// strictly from 0 to `n`.
pub open spec fn tiles(b: Seq<int>, n: int) -> bool {
    &&& b.len() >= 2
    &&& b[0] == 0
    &&& b.last() == n
    &&& forall|i: int, j: int| 0 <= i < j < b.len() ==> #[trigger] b[i] < #[trigger] b[j]
}

/// Machine integers read as integers.
pub open spec fn ints(s: Seq<usize>) -> Seq<int> {
    s.map_values(|x: usize| x as int)
}

// ---------------------------------------------------------------------------
// Section names
// ---------------------------------------------------------------------------

/// A control character (Unicode general category Cc).
pub open spec fn is_control(c: char) -> bool {
    c <= '\u{1f}' || ('\u{7f}' <= c && c <= '\u{9f}')
}

/// `s` without its control characters.
pub open spec fn drop_controls(s: Seq<char>) -> Seq<char>
    decreases s.len(),
{
    if s.len() == 0 {
        s
    } else if is_control(s.last()) {
        drop_controls(s.drop_last())
    } else {
        drop_controls(s.drop_last()).push(s.last())
    }
}

/// A marker title as shown: control characters (such as a length prefix)
/// removed, then surrounding whitespace.
pub open spec fn cleaned(s: Seq<char>) -> Seq<char> {
    trimmed(drop_controls(s))
}

proof fn lemma_drop_controls_run(s: Seq<char>, a: int, j: int)
    requires
        0 <= a <= j <= s.len(),
        forall|k: int| a <= k < j ==> !is_control(#[trigger] s[k]),
    ensures
        drop_controls(s.take(j)) == drop_controls(s.take(a)) + s.subrange(a, j),
    decreases j - a,
{
    if j > a {
        lemma_drop_controls_run(s, a, j - 1);
        assert(s.take(j).drop_last() =~= s.take(j - 1));
        assert(s.subrange(a, j) =~= s.subrange(a, j - 1).push(s[j - 1]));
    } else {
        assert(s.subrange(a, j) =~= Seq::<char>::empty());
        assert(drop_controls(s.take(a)) + s.subrange(a, j) =~= drop_controls(s.take(a)));
    }
}

/// Remove control characters, then surrounding whitespace.
pub fn clean_str(s: &str) -> (r: String)
    ensures
        r@ == cleaned(s@),
{
    let n = s.unicode_len();
    let mut kept = String::new();
    let mut run: usize = 0;
    let mut i: usize = 0;
    while i < n
        invariant
            n == s@.len(),
            run <= i <= n,
            kept@ == drop_controls(s@.take(run as int)),
            forall|k: int| run <= k < i ==> !is_control(#[trigger] s@[k]),
        decreases n - i,
    {
        let c = s.get_char(i);
        if c <= '\u{1f}' || ('\u{7f}' <= c && c <= '\u{9f}') {
            proof {
                lemma_drop_controls_run(s@, run as int, i as int);
                assert(s@.take(i + 1).drop_last() =~= s@.take(i as int));
            }
            kept.append(s.substring_char(run, i));
            run = i + 1;
        }
        i += 1;
    }
    proof {
        lemma_drop_controls_run(s@, run as int, n as int);
        assert(s@.take(n as int) =~= s@);
    }
    kept.append(s.substring_char(run, n));
    trim(kept.as_str()).to_owned()
}

// ---------------------------------------------------------------------------
// Executable segmentation
// ---------------------------------------------------------------------------

/// Merge every stretch shorter than `min_len` into the next one.
pub fn merge_short(breaks: &[usize], min_len: usize, total: usize) -> (r: Vec<usize>)
    requires
        forall|i: int, j: int| 0 <= i <= j < breaks@.len() ==> breaks@[i] <= breaks@[j],
    ensures
        ints(r@) == merged_breaks(ints(breaks@), min_len as int, total as int),
{
    let ghost b = ints(breaks@);
    if breaks.len() <= 2 {
        let mut v: Vec<usize> = Vec::new();
        let mut k: usize = 0;
        while k < breaks.len()
            invariant
                k <= breaks@.len(),
                v@ == breaks@.take(k as int),
            decreases breaks@.len() - k,
        {
            v.push(breaks[k]);
            k += 1;
            assert(v@ =~= breaks@.take(k as int));
        }
        assert(breaks@.take(k as int) =~= breaks@);
        assert(ints(v@) =~= b);
        return v;
    }
    let m: usize = if min_len < 1 {
        1
    } else {
        min_len
    };
    let mut out: Vec<usize> = Vec::new();
    out.push(0);
    let mut k: usize = 1;
    while k < breaks.len()
        invariant
            b == ints(breaks@),
            1 <= k <= breaks@.len(),
            forall|i: int, j: int| 0 <= i <= j < breaks@.len() ==> breaks@[i] <= breaks@[j],
            ints(out@) == long_enough_upto(b, m as int, k as int),
            out@.len() >= 1,
        decreases breaks@.len() - k,
    {
        if breaks[k] - breaks[k - 1] >= m {
            out.push(breaks[k]);
        }
        k += 1;
        assert(ints(out@) =~= long_enough_upto(b, m as int, k as int));
    }
    let ghost o = ints(out@);
    if out[out.len() - 1] != total {
        out.push(total);
    }
    assert(ints(out@) =~= (if o.last() != total {
        o.push(total as int)
    } else {
        o
    }));
    let ghost o2 = ints(out@);
    let mut d: Vec<usize> = Vec::new();
    let mut j: usize = 0;
    while j < out.len()
        invariant
            o2 == ints(out@),
            j <= out@.len(),
            ints(d@) == dedup_upto(o2, j as int),
        decreases out@.len() - j,
    {
        let x = out[j];
        if d.len() == 0 || d[d.len() - 1] != x {
            d.push(x);
        }
        j += 1;
        assert(ints(d@) =~= dedup_upto(o2, j as int));
    }
    if d.len() <= 1 {
        let v = vec![0, total];
        assert(ints(v@) =~= seq![0, total as int]);
        return v;
    }
    d
}

/// Cut the stretches between consecutive breaks into named sections.
pub fn build_sections(breaks: &[usize], headers: &[MeasureHeader]) -> (r: Vec<Section>)
    requires
        forall|k: int| 0 <= k < breaks@.len() - 1 ==> #[trigger] breaks@[k] < headers@.len(),
    ensures
        r@.len() == if breaks@.len() == 0 {
            0
        } else {
            breaks@.len() - 1
        },
        forall|k: int|
            0 <= k < r@.len() ==> (#[trigger] r@[k]).start == breaks@[k] && r@[k].end == breaks@[k
                + 1] && (r@[k].name is Some <==> headers@[breaks@[k] as int].marker is Some) && (
            r@[k].name is Some ==> r@[k].name->0@ == cleaned(
                headers@[breaks@[k] as int].marker->0.title@,
            )),
{
    let mut out: Vec<Section> = Vec::new();
    if breaks.len() < 2 {
        return out;
    }
    let mut k: usize = 0;
    while k < breaks.len() - 1
        invariant
            breaks@.len() >= 2,
            k + 1 <= breaks@.len(),
            out@.len() == k,
            forall|q: int| 0 <= q < breaks@.len() - 1 ==> #[trigger] breaks@[q] < headers@.len(),
            forall|q: int|
                0 <= q < k ==> (#[trigger] out@[q]).start == breaks@[q] && out@[q].end == breaks@[q
                    + 1] && (out@[q].name is Some <==> headers@[breaks@[q] as int].marker is Some)
                    && (out@[q].name is Some ==> out@[q].name->0@ == cleaned(
                    headers@[breaks@[q] as int].marker->0.title@,
                )),
        decreases breaks@.len() - k,
    {
        let start = breaks[k];
        let end = breaks[k + 1];
        let name = match &headers[start].marker {
            Some(mk) => Some(clean_str(mk.title.as_str())),
            None => None,
        };
        out.push(Section { start, end, name });
        k += 1;
    }
    out
}

// ---------------------------------------------------------------------------
// Every segmentation tiles the song
// ---------------------------------------------------------------------------

proof fn lemma_breaks_upto(h: Seq<MeasureHeader>, k: int)
    requires
        0 <= k,
    ensures
        forall|i: int, j: int|
            0 <= i < j < breaks_upto(h, k).len() ==> #[trigger] breaks_upto(h, k)[i]
                < #[trigger] breaks_upto(h, k)[j],
        forall|i: int|
            0 <= i < breaks_upto(h, k).len() ==> 0 <= #[trigger] breaks_upto(h, k)[i] < k,
        k >= 1 ==> breaks_upto(h, k).len() >= 1 && breaks_upto(h, k)[0] == 0,
    decreases k,
{
    if k > 0 {
        lemma_breaks_upto(h, k - 1);
        if k == 1 {
            assert(breaks_upto(h, 0) =~= Seq::<int>::empty());
        }
    }
}

proof fn lemma_natural_breaks_tile(h: Seq<MeasureHeader>)
    requires
        h.len() >= 1,
    ensures
        tiles(natural_breaks(h), h.len() as int),
{
    let n = h.len() as int;
    lemma_breaks_upto(h, n);
    lemma_breaks_upto(h, n + 1);
    assert(natural_breaks(h) == breaks_upto(h, n).push(n));
}

proof fn lemma_window_breaks_tile(n: int, w: int)
    requires
        n >= 1,
        w >= 1,
    ensures
        tiles(window_breaks(n, w), n),
{
    let q = n / w;
    let base = Seq::new((q + 1) as nat, |k: int| k * w);
    assert(q * w <= n) by (nonlinear_arith)
        requires
            q == n / w,
            w >= 1,
            n >= 1,
    ;
    assert(n % w == 0 <==> q * w == n) by (nonlinear_arith)
        requires
            q == n / w,
            w >= 1,
    ;
    assert(n % w == 0 ==> q >= 1) by (nonlinear_arith)
        requires
            q == n / w,
            w >= 1,
            n >= 1,
    ;
    assert forall|i: int, j: int| 0 <= i < j < base.len() implies #[trigger] base[i] < #[trigger] base[j] by {
        assert(i * w < j * w) by (nonlinear_arith)
            requires
                i < j,
                w >= 1,
        ;
    }
    if n % w == 0 {
        assert(base.last() == q * w);
    } else {
        let full = base.push(n);
        assert(q * w < n);
        assert forall|i: int, j: int| 0 <= i < j < full.len() implies #[trigger] full[i] < #[trigger] full[j] by {
            if j < base.len() {
                assert(full[i] == base[i] && full[j] == base[j]);
            } else {
                assert(full[i] == base[i]);
                assert(i * w <= q * w) by (nonlinear_arith)
                    requires
                        i <= q,
                        w >= 1,
                ;
            }
        }
    }
}

proof fn lemma_long_enough(b: Seq<int>, m: int, k: int)
    requires
        1 <= k <= b.len(),
        b[0] == 0,
        forall|i: int, j: int| 0 <= i < j < b.len() ==> #[trigger] b[i] < #[trigger] b[j],
    ensures
        long_enough_upto(b, m, k).len() >= 1,
        long_enough_upto(b, m, k)[0] == 0,
        long_enough_upto(b, m, k).last() <= b[k - 1],
        forall|i: int, j: int|
            0 <= i < j < long_enough_upto(b, m, k).len() ==> #[trigger] long_enough_upto(b, m, k)[i]
                < #[trigger] long_enough_upto(b, m, k)[j],
    decreases k,
{
    if k > 1 {
        lemma_long_enough(b, m, k - 1);
        let o = long_enough_upto(b, m, k - 1);
        if b[k - 1] - b[k - 2] >= m {
            let o2 = o.push(b[k - 1]);
            assert forall|i: int, j: int| 0 <= i < j < o2.len() implies #[trigger] o2[i] < #[trigger] o2[j] by {
                if j < o.len() {
                    assert(o2[i] == o[i] && o2[j] == o[j]);
                } else {
                    assert(o2[i] == o[i]);
                    assert(o[i] <= o.last()) by {
                        if i < o.len() - 1 {
                            assert(o[i] < o[o.len() - 1]);
                        }
                    }
                }
            }
        }
    } else {
        assert(long_enough_upto(b, m, 1) =~= seq![0int]);
    }
}

proof fn lemma_dedup_increasing(s: Seq<int>, k: int)
    requires
        0 <= k <= s.len(),
        forall|i: int, j: int| 0 <= i < j < s.len() ==> #[trigger] s[i] < #[trigger] s[j],
    ensures
        dedup_upto(s, k) == s.take(k),
    decreases k,
{
    if k > 0 {
        lemma_dedup_increasing(s, k - 1);
        assert(s.take(k) =~= s.take(k - 1).push(s[k - 1]));
        if k > 1 {
            assert(s[k - 2] < s[k - 1]);
        }
    } else {
        assert(s.take(0) =~= Seq::<int>::empty());
    }
}

/// Merging short stretches keeps a tiling a tiling.
proof fn lemma_merged_tile(b: Seq<int>, min_len: int, total: int)
    requires
        tiles(b, total),
    ensures
        tiles(merged_breaks(b, min_len, total), total),
{
    if b.len() > 2 {
        let m = if min_len < 1 {
            1
        } else {
            min_len
        };
        lemma_long_enough(b, m, b.len() as int);
        let o = long_enough_upto(b, m, b.len() as int);
        let o2 = if o.last() != total {
            o.push(total)
        } else {
            o
        };
        assert(b[0] < b[b.len() - 1]);
        if o.last() != total {
            assert forall|i: int, j: int| 0 <= i < j < o2.len() implies #[trigger] o2[i] < #[trigger] o2[j] by {
                if j < o.len() {
                    assert(o2[i] == o[i] && o2[j] == o[j]);
                } else {
                    assert(o2[i] == o[i]);
                    if i < o.len() - 1 {
                        assert(o[i] < o[o.len() - 1]);
                    }
                }
            }
        }
        lemma_dedup_increasing(o2, o2.len() as int);
        assert(o2.take(o2.len() as int) =~= o2);
        if o2.len() <= 1 {
            assert(seq![0int, total][0] < seq![0int, total][1]);
        }
    }
}

/// The breaks of every segmentation tile the song.
proof fn lemma_segment_breaks_tile(h: Seq<MeasureHeader>, min_len: int, window: int)
    requires
        h.len() >= 1,
    ensures
        tiles(segment_breaks(h, min_len, window), h.len() as int),
{
    let n = h.len() as int;
    if natural_breaks(h).len() <= 2 {
        let w = if window > 0 {
            window
        } else {
            auto_window(n)
        };
        lemma_window_breaks_tile(n, w);
        lemma_merged_tile(window_breaks(n, w), min_len, n);
    } else {
        lemma_natural_breaks_tile(h);
        lemma_merged_tile(natural_breaks(h), min_len, n);
    }
}

// ---------------------------------------------------------------------------
// Segmentation
// ---------------------------------------------------------------------------

fn late_marker(headers: &[MeasureHeader]) -> (r: bool)
    ensures
        r == has_late_marker(headers@),
{
    let mut i: usize = 1;
    while i < headers.len()
        invariant
            1 <= i,
            forall|k: int| 1 <= k < i && k < headers@.len() ==> (#[trigger] headers@[k]).marker is None,
        decreases headers@.len() - i,
    {
        if headers[i].marker.is_some() {
            return true;
        }
        i += 1;
    }
    false
}

fn repeat_signs(headers: &[MeasureHeader]) -> (r: bool)
    ensures
        r == has_repeat_signs(headers@),
{
    let mut i: usize = 0;
    while i < headers.len()
        invariant
            i <= headers@.len(),
            forall|k: int|
                0 <= k < i ==> !(#[trigger] headers@[k]).repeat_open && headers@[k].repeat_close < 0,
        decreases headers@.len() - i,
    {
        if headers[i].repeat_open || headers[i].repeat_close >= 0 {
            return true;
        }
        i += 1;
    }
    false
}

/// Breaks every `w` measures, and at the end.
fn fixed_window(n: usize, w: usize) -> (r: Vec<usize>)
    requires
        n >= 1,
        w >= 1,
    ensures
        ints(r@) == window_breaks(n as int, w as int),
{
    let q = n / w;
    let mut out: Vec<usize> = Vec::new();
    let mut k: usize = 0;
    loop
        invariant_except_break
            k <= q,
            ints(out@) == Seq::new(k as nat, |j: int| j * w),
        invariant
            n >= 1,
            w >= 1,
            q == n / w,
        ensures
            ints(out@) == Seq::new((q + 1) as nat, |j: int| j * w),
        decreases q - k,
    {
        assert(k * w <= n) by (nonlinear_arith)
            requires
                k <= q,
                q == n / w,
                w >= 1,
        ;
        let ghost before = out@;
        assert(ints(before).len() == k);
        assert(before.len() == k);
        out.push(k * w);
        assert(out@ == before.push((k * w) as usize));
        assert forall|j: int| 0 <= j < k + 1 implies #[trigger] ints(out@)[j] == j * w by {
            if j < k {
                assert(out@[j] == before[j]);
                assert(ints(before)[j] == j * w);
            }
        }
        assert(ints(out@) =~= Seq::new((k + 1) as nat, |j: int| j * w));
        if k == q {
            break;
        }
        k += 1;
    }
    assert(q * w <= n) by (nonlinear_arith)
        requires
            q == n / w,
            w >= 1,
    ;
    assert(n % w == 0 <==> q * w == n) by (nonlinear_arith)
        requires
            q == n / w,
            w >= 1,
    ;
    let ghost base = ints(out@);
    if q * w != n {
        out.push(n);
        assert(ints(out@) =~= base.push(n as int));
    }
    out
}

/// Cut a song into sections: at its markers; failing those, at its repeat
/// signs; failing those, every `window` measures (a quarter of the song,
/// 4 to 16 measures, when `window` is 0); then merge every section shorter
/// than `min_len` into the next.  The sections tile the song: they follow
/// each other without gap from measure 0 to its end, none empty.
pub fn segment(headers: &[MeasureHeader], min_len: usize, window: usize) -> (r: Vec<Section>)
    ensures
        headers@.len() == 0 ==> r@.len() == 0,
        headers@.len() > 0 ==> {
            let b = segment_breaks(headers@, min_len as int, window as int);
            &&& r@.len() == b.len() - 1
            &&& forall|k: int|
                0 <= k < r@.len() ==> (#[trigger] r@[k]).start == b[k] && r@[k].end == b[k + 1] && (
                r@[k].name is Some <==> headers@[b[k]].marker is Some) && (r@[k].name is Some
                ==> r@[k].name->0@ == cleaned(headers@[b[k]].marker->0.title@))
        },
        headers@.len() > 0 ==> r@.len() >= 1 && r@[0].start == 0 && r@.last().end == headers@.len(),
        forall|k: int| 0 <= k < r@.len() - 1 ==> #[trigger] r@[k].end == r@[k + 1].start,
        forall|k: int| 0 <= k < r@.len() ==> #[trigger] r@[k].start < r@[k].end,
{
    let n = headers.len();
    if n == 0 {
        return Vec::new();
    }
    let ghost h = headers@;
    let has_markers = late_marker(headers);
    let has_repeats = repeat_signs(headers);
    let mut natural: Vec<usize> = Vec::new();
    let mut i: usize = 0;
    while i < n
        invariant
            n == h.len(),
            h == headers@,
            i <= n,
            has_markers == has_late_marker(h),
            has_repeats == has_repeat_signs(h),
            ints(natural@) == breaks_upto(h, i as int),
        decreases n - i,
    {
        let brk = i == 0 || headers[i].marker.is_some() || (!has_markers && has_repeats && (
        headers[i].repeat_open || headers[i - 1].repeat_close >= 0));
        if brk {
            natural.push(i);
        }
        i += 1;
        assert(ints(natural@) =~= breaks_upto(h, i as int));
    }
    natural.push(n);
    assert(ints(natural@) =~= natural_breaks(h));
    let breaks = if natural.len() <= 2 {
        let w = if window > 0 {
            window
        } else if n / 4 < 4 {
            4
        } else if n / 4 > 16 {
            16
        } else {
            n / 4
        };
        fixed_window(n, w)
    } else {
        natural
    };
    proof {
        lemma_segment_breaks_tile(h, min_len as int, window as int);
        if natural_breaks(h).len() <= 2 {
            let w = if window > 0 { window as int } else { auto_window(n as int) };
            lemma_window_breaks_tile(n as int, w);
        } else {
            lemma_natural_breaks_tile(h);
        }
        assert forall|a: int, c: int| 0 <= a <= c < breaks@.len() implies breaks@[a] <= breaks@[c] by {
            if a < c {
                assert(ints(breaks@)[a] < ints(breaks@)[c]);
            }
        }
    }
    let merged = merge_short(breaks.as_slice(), min_len, n);
    let ghost b = segment_breaks(h, min_len as int, window as int);
    assert(ints(merged@) == b);
    proof {
        assert forall|k: int| 0 <= k < merged@.len() - 1 implies #[trigger] merged@[k] < headers@.len() by {
            assert(b[k] < b[b.len() - 1]);
            assert(ints(merged@)[k] == b[k]);
        }
    }
    let r = build_sections(merged.as_slice(), headers);
    proof {
        assert forall|k: int| 0 <= k < r@.len() implies #[trigger] r@[k].start < r@[k].end by {
            assert(b[k] < b[k + 1]);
            assert(ints(merged@)[k] == b[k] && ints(merged@)[k + 1] == b[k + 1]);
        }
        assert(ints(merged@)[0] == b[0]);
        assert(ints(merged@)[b.len() - 1] == b[b.len() - 1]);
        assert forall|k: int| 0 <= k < r@.len() implies (#[trigger] r@[k]).start == b[k] && r@[k].end
            == b[k + 1] by {
            assert(ints(merged@)[k] == b[k] && ints(merged@)[k + 1] == b[k + 1]);
        }
    }
    r
}

// ---------------------------------------------------------------------------
// Labels
// ---------------------------------------------------------------------------

/// A labelled section: the section and its form label, such as `A`, `B`,
/// `A'` or `A''`.
#[derive(Debug)]
pub struct LabeledSection {
    pub start: usize,
    pub end: usize,
    pub name: Option<String>,
    pub label: String,
}

impl LabeledSection {
    /// The 1-based bar range of the section, both ends included.
    pub fn bar_range(&self) -> (r: (usize, usize))
        requires
            self.start < usize::MAX,
        ensures
            r.0 == self.start + 1,
            r.1 == self.end,
    {
        (self.start + 1, self.end)
    }
}

/// The letter `A` shifted by `k` (taken modulo 256 as a byte).
pub open spec fn letter(k: int) -> char {
    (65 + k % 256) as char
}

/// The label of the `idx`-th cluster: `A` to `Z`, then `AA`, `AB`, ...
pub open spec fn cluster_label_text(idx: int) -> Seq<char> {
    if idx < 26 {
        seq![letter(idx)]
    } else {
        seq![letter(idx / 26 - 1), letter(idx % 26)]
    }
}

/// The `idx`-th cluster label can be spelled: its letters stay within
/// a byte.
pub open spec fn label_spellable(idx: int) -> bool {
    idx < 26 || (idx / 26 - 1) % 256 <= 190
}

/// The label of the `idx`-th cluster: `A` to `Z`, then `AA`, `AB`, ...
pub fn cluster_label(idx: usize) -> (r: String)
    requires
        label_spellable(idx as int),
    ensures
        r@ == cluster_label_text(idx as int),
{
    if idx < 26 {
        let c = (65u8 + idx as u8) as char;
        char_text(c)
    } else {
        let q: usize = idx / 26 - 1;
        let hi = #[verifier::truncate] (q as u8);
        assert(hi == q % 256) by (bit_vector)
            requires
                hi == #[verifier::truncate] (q as u8),
        ;
        let lo = (idx % 26) as u8;
        let mut s = char_text((65u8 + hi) as char);
        let t = char_text((65u8 + lo) as char);
        s.append(t.as_str());
        assert(s@ =~= cluster_label_text(idx as int));
        s
    }
}

/// Clusters met among the first `k` sections.
pub open spec fn clusters_before(coarse: Seq<usize>, k: int) -> Seq<usize>
    decreases k,
{
    if k <= 0 {
        Seq::empty()
    } else {
        let c = clusters_before(coarse, k - 1);
        if c.contains(coarse[k - 1]) {
            c
        } else {
            c.push(coarse[k - 1])
        }
    }
}

/// The letter index of section `i`'s cluster: clusters are lettered in
/// the order in which they are first met.
pub open spec fn letter_index(coarse: Seq<usize>, i: int) -> int {
    clusters_before(coarse, coarse.len() as int).index_of(coarse[i])
}

/// The exemplars of cluster `root` among the first `k` sections: a section
/// is one when no earlier exemplar of its cluster is close to it.
pub open spec fn exemplars(coarse: Seq<usize>, close: Seq<Seq<bool>>, root: usize, k: int) -> Seq<
    int,
>
    decreases k,
{
    if k <= 0 {
        Seq::empty()
    } else {
        let ex = exemplars(coarse, close, root, k - 1);
        if coarse[k - 1] == root && !exists|t: int|
            0 <= t < ex.len() && close[#[trigger] ex[t]][k - 1] {
            ex.push(k - 1)
        } else {
            ex
        }
    }
}

/// Position among `ex`, from `t` on, of the first exemplar close to
/// section `i`; the length of `ex` when there is none.
pub open spec fn first_close(ex: Seq<int>, close: Seq<Seq<bool>>, i: int, t: int) -> int
    decreases ex.len() - t,
{
    if t >= ex.len() || t < 0 {
        ex.len() as int
    } else if close[ex[t]][i] {
        t
    } else {
        first_close(ex, close, i, t + 1)
    }
}

/// The variant group of section `i` within its cluster: 0 for the sections
/// close to the cluster's first exemplar, 1 for the next exemplar's, ...
pub open spec fn variant_group(coarse: Seq<usize>, close: Seq<Seq<bool>>, i: int) -> int {
    first_close(exemplars(coarse, close, coarse[i], i), close, i, 0)
}

/// The label of section `i`: its cluster's letters, then one prime per
/// variant group, three at most.
pub open spec fn section_label(coarse: Seq<usize>, close: Seq<Seq<bool>>, i: int) -> Seq<char> {
    let vg = variant_group(coarse, close, i);
    let primes = if vg < 3 {
        vg
    } else {
        3
    };
    cluster_label_text(letter_index(coarse, i)) + Seq::new(primes as nat, |k: int| '\'')
}

/// A matrix of flags, read row by row.
pub open spec fn matrix(m: Seq<Vec<bool>>) -> Seq<Seq<bool>> {
    m.map_values(|row: Vec<bool>| row@)
}

/// Section `j` is an exemplar of its cluster.
pub open spec fn is_exemplar(coarse: Seq<usize>, close: Seq<Seq<bool>>, j: int) -> bool {
    exemplars(coarse, close, coarse[j], j + 1).len() == exemplars(coarse, close, coarse[j], j).len() + 1
}

proof fn lemma_clusters_before(coarse: Seq<usize>, k: int)
    requires
        0 <= k <= coarse.len(),
    ensures
        clusters_before(coarse, k).no_duplicates(),
        forall|i: int| 0 <= i < k ==> clusters_before(coarse, k).contains(#[trigger] coarse[i]),
        forall|x: usize| clusters_before(coarse, k).contains(x) ==> exists|i: int|
            0 <= i < k && coarse[i] == x,
    decreases k,
{
    if k > 0 {
        lemma_clusters_before(coarse, k - 1);
        let c = clusters_before(coarse, k - 1);
        if !c.contains(coarse[k - 1]) {
            let c2 = c.push(coarse[k - 1]);
            assert forall|i: int| 0 <= i < k implies c2.contains(#[trigger] coarse[i]) by {
                if i < k - 1 {
                    let t = choose|t: int| 0 <= t < c.len() && c[t] == coarse[i];
                    assert(c2[t] == coarse[i]);
                } else {
                    assert(c2[c.len() as int] == coarse[i]);
                }
            }
            assert forall|x: usize| c2.contains(x) implies exists|i: int| 0 <= i < k && coarse[i] == x by {
                let t = choose|t: int| 0 <= t < c2.len() && c2[t] == x;
                if t < c.len() {
                    assert(c[t] == x);
                    assert(c.contains(x));
                    let i = choose|i: int| 0 <= i < k - 1 && coarse[i] == x;
                    assert(0 <= i < k && coarse[i] == x);
                } else {
                    assert(coarse[k - 1] == x);
                }
            }
        }
    }
}

proof fn lemma_first_close(ex: Seq<int>, close: Seq<Seq<bool>>, i: int, t: int, s: int)
    requires
        0 <= s <= t <= ex.len(),
        forall|q: int| s <= q < t ==> !close[#[trigger] ex[q]][i],
        t < ex.len() ==> close[ex[t]][i],
    ensures
        first_close(ex, close, i, s) == t,
    decreases t - s,
{
    if s < t {
        lemma_first_close(ex, close, i, t, s + 1);
    }
}

/// Label every section: clusters are lettered in the order first met, and
/// within a cluster each section joins the first exemplar it is close to,
/// or becomes a new exemplar; the `k`-th exemplar's sections carry `k`
/// primes (three at most).
pub fn label_sections(sections: &[Section], coarse: &[usize], close: &Vec<Vec<bool>>) -> (r: Vec<
    LabeledSection,
>)
    requires
        coarse@.len() == sections@.len(),
        close@.len() == sections@.len(),
        forall|i: int| 0 <= i < close@.len() ==> (#[trigger] close@[i])@.len() == sections@.len(),
        forall|i: int|
            0 <= i < coarse@.len() ==> label_spellable(#[trigger] letter_index(coarse@, i)),
    ensures
        r@.len() == sections@.len(),
        forall|i: int|
            0 <= i < r@.len() ==> (#[trigger] r@[i]).start == sections@[i].start && r@[i].end
                == sections@[i].end && (r@[i].name is Some <==> sections@[i].name is Some) && (
            r@[i].name is Some ==> r@[i].name->0@ == sections@[i].name->0@) && r@[i].label@
                == section_label(coarse@, matrix(close@), i),
{
    let n = sections.len();
    let ghost cs = coarse@;
    let ghost cm = matrix(close@);
    // Clusters in the order first met.
    let mut clusters: Vec<usize> = Vec::new();
    let mut i: usize = 0;
    while i < n
        invariant
            n == cs.len(),
            cs == coarse@,
            i <= n,
            clusters@ == clusters_before(cs, i as int),
        decreases n - i,
    {
        let x = coarse[i];
        let mut seen = false;
        let mut k: usize = 0;
        while k < clusters.len()
            invariant
                k <= clusters@.len(),
                seen <==> exists|q: int| 0 <= q < k && clusters@[q] == x,
            decreases clusters@.len() - k,
        {
            if clusters[k] == x {
                seen = true;
            }
            k += 1;
        }
        if !seen {
            clusters.push(x);
        }
        i += 1;
    }
    proof {
        lemma_clusters_before(cs, n as int);
    }
    let mut is_ex: Vec<bool> = Vec::new();
    let mut out: Vec<LabeledSection> = Vec::new();
    let mut i: usize = 0;
    while i < n
        invariant
            n == cs.len(),
            n == sections@.len(),
            cs == coarse@,
            cm == matrix(close@),
            close@.len() == n,
            forall|a: int| 0 <= a < close@.len() ==> (#[trigger] close@[a])@.len() == n,
            forall|a: int| 0 <= a < n ==> label_spellable(#[trigger] letter_index(cs, a)),
            clusters@ == clusters_before(cs, n as int),
            clusters@.no_duplicates(),
            forall|a: int| 0 <= a < n ==> clusters@.contains(#[trigger] cs[a]),
            i <= n,
            is_ex@.len() == i,
            forall|j: int| 0 <= j < i ==> #[trigger] is_ex@[j] == is_exemplar(cs, cm, j),
            out@.len() == i,
            forall|j: int|
                0 <= j < i ==> (#[trigger] out@[j]).start == sections@[j].start && out@[j].end
                    == sections@[j].end && (out@[j].name is Some <==> sections@[j].name is Some)
                    && (out@[j].name is Some ==> out@[j].name->0@ == sections@[j].name->0@)
                    && out@[j].label@ == section_label(cs, cm, j),
        decreases n - i,
    {
        let root = coarse[i];
        // Letter index of the cluster.
        let mut l: usize = 0;
        while l < clusters.len() && clusters[l] != root
            invariant
                l <= clusters@.len(),
                forall|q: int| 0 <= q < l ==> clusters@[q] != root,
            decreases clusters@.len() - l,
        {
            l += 1;
        }
        proof {
            assert(clusters@.contains(cs[i as int]));
            if l == clusters@.len() {
                let t = choose|t: int| 0 <= t < clusters@.len() && clusters@[t] == root;
                assert(false);
            }
            let w = clusters@.index_of(root);
            assert(clusters@[w] == root);
            assert(w == l);
            assert(letter_index(cs, i as int) == l);
            assert(label_spellable(letter_index(cs, i as int)));
        }
        // Variant group: the first exemplar of the cluster close to section i.
        let ghost mut ex: Seq<int> = Seq::empty();
        let mut count: usize = 0;
        let mut found: Option<usize> = None;
        let mut j: usize = 0;
        while j < i
            invariant
                i < n,
                n == cs.len(),
                cs == coarse@,
                cm == matrix(close@),
                close@.len() == n,
                forall|a: int| 0 <= a < close@.len() ==> (#[trigger] close@[a])@.len() == n,
                root == cs[i as int],
                j <= i,
                is_ex@.len() == i,
                forall|q: int| 0 <= q < i ==> #[trigger] is_ex@[q] == is_exemplar(cs, cm, q),
                ex == exemplars(cs, cm, root, j as int),
                count == ex.len(),
                count <= j,
                forall|q: int| 0 <= q < ex.len() ==> 0 <= #[trigger] ex[q] < j,
                found is None ==> forall|q: int| 0 <= q < count ==> !cm[#[trigger] ex[q]][i as int],
                found is Some ==> found->0 < count && cm[ex[found->0 as int]][i as int] && forall|q: int|
                    0 <= q < found->0 ==> !cm[#[trigger] ex[q]][i as int],
            decreases i - j,
        {
            proof {
                assert(cm[j as int] == close@[j as int]@);
            }
            if coarse[j] == root && is_ex[j] {
                proof {
                    assert(is_exemplar(cs, cm, j as int));
                    ex = ex.push(j as int);
                }
                if found.is_none() && close[j][i] {
                    found = Some(count);
                }
                count += 1;
            } else {
                proof {
                    if coarse[j as int] == root {
                        assert(!is_exemplar(cs, cm, j as int));
                    }
                }
            }
            j += 1;
        }
        let vg = match found {
            Some(t) => t,
            None => count,
        };
        proof {
            lemma_first_close(ex, cm, i as int, vg as int, 0);
            assert(variant_group(cs, cm, i as int) == vg);
        }
        is_ex.push(found.is_none());
        proof {
            assert(is_ex@[i as int] == is_exemplar(cs, cm, i as int)) by {
                if found is Some {
                    assert(exists|t: int| 0 <= t < ex.len() && cm[#[trigger] ex[t]][i as int]);
                }
            }
        }
        let mut label = cluster_label(l);
        let primes: usize = if vg < 3 {
            vg
        } else {
            3
        };
        let mut p: usize = 0;
        while p < primes
            invariant
                p <= primes,
                label@ == cluster_label_text(l as int) + Seq::new(p as nat, |k: int| '\''),
            decreases primes - p,
        {
            proof {
                reveal_strlit("'");
            }
            label.append("'");
            p += 1;
            assert(label@ =~= cluster_label_text(l as int) + Seq::new(p as nat, |k: int| '\''));
        }
        let name = match &sections[i].name {
            Some(t) => Some(t.clone()),
            None => None,
        };
        out.push(LabeledSection { start: sections[i].start, end: sections[i].end, name, label });
        i += 1;
    }
    out
}

/// `c` gives each of `n` items its cluster under the links of `m`: two
/// items share a cluster exactly when they are connected.
pub open spec fn clustering(c: Seq<usize>, m: Seq<Seq<bool>>) -> bool {
    &&& c.len() == m.len()
    &&& forall|x: int, y: int|
        0 <= x < c.len() && 0 <= y < c.len() ==> (#[trigger] c[x] == #[trigger] c[y] <==> connected(
            m,
            x,
            y,
        ))
}

/// Most clusters whose labels can be spelled (`A` to `Z`, then two letters
/// up to `GZ`).
pub open spec fn max_clusters() -> int {
    4992
}

/// Label sections from their pairwise links: `linked[a][b]` (`a < b`)
/// puts sections `a` and `b` in one cluster, and `close[e][i]` makes
/// section `i` a repeat of exemplar `e`.  `None` when there are more
/// clusters than labels can be spelled for.
pub fn assign_labels(sections: &[Section], linked: &Vec<Vec<bool>>, close: &Vec<Vec<bool>>) -> (r:
    Option<Vec<LabeledSection>>)
    requires
        linked@.len() == sections@.len(),
        close@.len() == sections@.len(),
        forall|i: int| 0 <= i < linked@.len() ==> (#[trigger] linked@[i])@.len() == sections@.len(),
        forall|i: int| 0 <= i < close@.len() ==> (#[trigger] close@[i])@.len() == sections@.len(),
    ensures
        r is None ==> exists|c: Seq<usize>|
            clustering(c, flag_rows(linked@)) && #[trigger] clusters_before(c, c.len() as int).len()
                > max_clusters(),
        r matches Some(ls) ==> exists|c: Seq<usize>|
            #[trigger] clustering(c, flag_rows(linked@)) && ls@.len() == sections@.len() && forall|
                i: int,
            |
                0 <= i < ls@.len() ==> (#[trigger] ls@[i]).start == sections@[i].start && ls@[i].end
                    == sections@[i].end && (ls@[i].name is Some <==> sections@[i].name is Some) && (
                ls@[i].name is Some ==> ls@[i].name->0@ == sections@[i].name->0@) && ls@[i].label@
                    == section_label(c, matrix(close@), i),
{
    let n = sections.len();
    let coarse = single_linkage(linked);
    let ghost cs = coarse@;
    assert(clustering(cs, flag_rows(linked@)));
    let mut clusters: Vec<usize> = Vec::new();
    let mut i: usize = 0;
    while i < n
        invariant
            n == cs.len(),
            cs == coarse@,
            i <= n,
            clusters@ == clusters_before(cs, i as int),
        decreases n - i,
    {
        let x = coarse[i];
        let mut seen = false;
        let mut k: usize = 0;
        while k < clusters.len()
            invariant
                k <= clusters@.len(),
                seen <==> exists|q: int| 0 <= q < k && clusters@[q] == x,
            decreases clusters@.len() - k,
        {
            if clusters[k] == x {
                seen = true;
            }
            k += 1;
        }
        if !seen {
            clusters.push(x);
        }
        i += 1;
    }
    if clusters.len() > 4992 {
        return None;
    }
    proof {
        lemma_clusters_before(cs, n as int);
        assert forall|a: int| 0 <= a < n implies label_spellable(#[trigger] letter_index(cs, a)) by {
            let cl = clusters_before(cs, n as int);
            assert(cl.contains(cs[a]));
            let w = cl.index_of(cs[a]);
            assert(0 <= w < cl.len());
            assert(w < 4992);
            assert((w / 26 - 1) % 256 <= 190 || w < 26) by (nonlinear_arith)
                requires
                    0 <= w < 4992,
            ;
        }
    }
    let ls = label_sections(sections, coarse.as_slice(), close);
    Some(ls)
}

} // verus!
