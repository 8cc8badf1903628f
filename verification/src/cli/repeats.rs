//! Repeat analysis of the `repeats` command: navigation events, repeat
//! blocks, the sounding bar sequence and its compact rendering.

use vstd::prelude::*;

use crate::model::legacy::{DirectionSign, MeasureHeader};
use crate::text::{decimal, push_decimal, str_eq};

verus! {

/// Arguments of the `repeats` command.
#[derive(Debug)]
pub struct RepeatsArgs {
    /// Input score file.
    pub input: String,
    /// Print JSON instead of text.
    pub json: bool,
    /// Restrict the simile analysis to tracks whose name contains this.
    pub track: Option<String>,
    /// Write a copy with simile marks expanded.
    pub expand: bool,
    /// Output path of the expanded copy.
    pub output: Option<String>,
    /// Output format name.
    pub to: Option<String>,
    /// Input format name.
    pub from: Option<String>,
}

/// A navigation event of a measure.
#[derive(Debug)]
pub struct NavEvent {
    /// 1-based bar number.
    pub bar: u16,
    pub repeat_open: bool,
    /// No close, or the total number of plays (at least 1).
    pub repeat_close: Option<u32>,
    /// 1-based volta numbers decoded from the bitmask.
    pub volta: Vec<u8>,
    pub direction: Option<String>,
    pub marker: Option<String>,
}

/// A repeat block.
#[derive(Debug)]
pub struct RepeatBlock {
    /// 0-based index of the measure that opens the repeat.
    pub open_idx: usize,
    /// 0-based index of the measure that closes it.
    pub close_idx: usize,
    /// Total plays (`repeat_close + 1`).
    pub total_plays: u32,
    /// Volta measures within the block: (0-based index, volta numbers).
    pub voltas: Vec<(usize, Vec<u8>)>,
}

/// A bar as it sounds.
#[derive(Debug, Clone, Copy, PartialEq, Eq, Structural)]
pub struct PlayedBar {
    /// 1-based bar number.
    pub bar_number: u16,
    /// 1-based pass within the innermost active repeat block.
    pub pass: u32,
}

// ---------------------------------------------------------------------------
// Voltas and directions
// ---------------------------------------------------------------------------

/// Bit `k` of a volta mask is set.
pub open spec fn volta_bit(bits: u8, k: u8) -> bool {
    bits & (1u8 << k) != 0
}

/// Volta numbers (1-based) of the bits among `0..n`, ascending.
pub open spec fn volta_numbers(bits: u8, n: int) -> Seq<u8>
    decreases n,
{
    if n <= 0 {
        Seq::empty()
    } else if volta_bit(bits, (n - 1) as u8) {
        volta_numbers(bits, n - 1).push(n as u8)
    } else {
        volta_numbers(bits, n - 1)
    }
}

/// The 1-based volta numbers of a bitmask, ascending.
pub fn decode_volta_mask(bits: u8) -> (r: Vec<u8>)
    ensures
        r@ == volta_numbers(bits, 8),
{
    let mut out: Vec<u8> = Vec::new();
    let mut i: u8 = 0;
    while i < 8
        invariant
            i <= 8,
            out@ == volta_numbers(bits, i as int),
        decreases 8 - i,
    {
        if bits & (1u8 << i) != 0 {
            out.push(i + 1);
        }
        i += 1;
    }
    out
}

/// Text of a navigation sign.
pub open spec fn direction_text(d: DirectionSign) -> Seq<char> {
    match d {
        DirectionSign::Coda => "Coda"@,
        DirectionSign::DoubleCoda => "Double Coda"@,
        DirectionSign::Segno => "Segno"@,
        DirectionSign::SegnoSegno => "Segno Segno"@,
        DirectionSign::Fine => "Fine"@,
        DirectionSign::DaCapo => "Da Capo"@,
        DirectionSign::DaCapoAlCoda => "D.C. al Coda"@,
        DirectionSign::DaCapoAlDoubleCoda => "D.C. al Double Coda"@,
        DirectionSign::DaCapoAlFine => "D.C. al Fine"@,
        DirectionSign::DaSegno => "D.S."@,
        DirectionSign::DaSegnoAlCoda => "D.S. al Coda"@,
        DirectionSign::DaSegnoAlDoubleCoda => "D.S. al Double Coda"@,
        DirectionSign::DaSegnoAlFine => "D.S. al Fine"@,
        DirectionSign::DaSegnoSegno => "D.S.S."@,
        DirectionSign::DaSegnoSegnoAlCoda => "D.S.S. al Coda"@,
        DirectionSign::DaSegnoSegnoAlDoubleCoda => "D.S.S. al Double Coda"@,
        DirectionSign::DaSegnoSegnoAlFine => "D.S.S. al Fine"@,
        DirectionSign::DaCoda => "Da Coda"@,
        DirectionSign::DaDoubleCoda => "Da Double Coda"@,
    }
}

/// Text of a navigation sign.
pub fn direction_label(d: &DirectionSign) -> (r: String)
    ensures
        r@ == direction_text(*d),
{
    let s = match d {
        DirectionSign::Coda => "Coda",
        DirectionSign::DoubleCoda => "Double Coda",
        DirectionSign::Segno => "Segno",
        DirectionSign::SegnoSegno => "Segno Segno",
        DirectionSign::Fine => "Fine",
        DirectionSign::DaCapo => "Da Capo",
        DirectionSign::DaCapoAlCoda => "D.C. al Coda",
        DirectionSign::DaCapoAlDoubleCoda => "D.C. al Double Coda",
        DirectionSign::DaCapoAlFine => "D.C. al Fine",
        DirectionSign::DaSegno => "D.S.",
        DirectionSign::DaSegnoAlCoda => "D.S. al Coda",
        DirectionSign::DaSegnoAlDoubleCoda => "D.S. al Double Coda",
        DirectionSign::DaSegnoAlFine => "D.S. al Fine",
        DirectionSign::DaSegnoSegno => "D.S.S.",
        DirectionSign::DaSegnoSegnoAlCoda => "D.S.S. al Coda",
        DirectionSign::DaSegnoSegnoAlDoubleCoda => "D.S.S. al Double Coda",
        DirectionSign::DaSegnoSegnoAlFine => "D.S.S. al Fine",
        DirectionSign::DaCoda => "Da Coda",
        DirectionSign::DaDoubleCoda => "Da Double Coda",
    };
    String::from_str(s)
}

// ---------------------------------------------------------------------------
// Navigation events
// ---------------------------------------------------------------------------

/// A measure carries navigation: a repeat sign, a volta, a direction or a
/// marker.
pub open spec fn has_navigation(h: MeasureHeader) -> bool {
    h.repeat_open || h.repeat_close >= 0 || h.repeat_alternative != 0 || h.direction is Some
        || h.marker is Some
}

/// `e` is the navigation event of header `h`.
pub open spec fn nav_event_of(e: NavEvent, h: MeasureHeader) -> bool {
    &&& e.bar == h.number
    &&& e.repeat_open == h.repeat_open
    &&& e.repeat_close == if h.repeat_close >= 0 {
        Some((h.repeat_close + 1) as u32)
    } else {
        None
    }
    &&& e.volta@ == volta_numbers(h.repeat_alternative, 8)
    &&& (e.direction is Some <==> h.direction is Some)
    &&& (h.direction is Some ==> e.direction->0@ == direction_text(h.direction->0))
    &&& (e.marker is Some <==> h.marker is Some)
    &&& (h.marker is Some ==> e.marker->0@ == h.marker->0.title@)
}

/// Every repeat close can count its plays: `repeat_close + 1` fits.
pub open spec fn closes_countable(hs: Seq<MeasureHeader>) -> bool {
    forall|k: int| 0 <= k < hs.len() ==> #[trigger] hs[k].repeat_close < 127
}

/// Positions of the headers among the first `n` that carry navigation.
pub open spec fn nav_positions(hs: Seq<MeasureHeader>, n: int) -> Seq<int>
    decreases n,
{
    if n <= 0 {
        Seq::empty()
    } else if has_navigation(hs[n - 1]) {
        nav_positions(hs, n - 1).push(n - 1)
    } else {
        nav_positions(hs, n - 1)
    }
}

/// The navigation events of the measures that carry navigation, in order.
pub fn collect_nav_events(headers: &[MeasureHeader]) -> (r: Vec<NavEvent>)
    requires
        closes_countable(headers@),
    ensures
        r@.len() == nav_positions(headers@, headers@.len() as int).len(),
        forall|k: int|
            0 <= k < r@.len() ==> nav_event_of(
                #[trigger] r@[k],
                headers@[nav_positions(headers@, headers@.len() as int)[k]],
            ),
{
    let mut out: Vec<NavEvent> = Vec::new();
    let mut i: usize = 0;
    while i < headers.len()
        invariant
            i <= headers@.len(),
            closes_countable(headers@),
            out@.len() == nav_positions(headers@, i as int).len(),
            forall|k: int|
                0 <= k < out@.len() ==> nav_event_of(
                    #[trigger] out@[k],
                    headers@[nav_positions(headers@, i as int)[k]],
                ),
        decreases headers@.len() - i,
    {
        let mh = &headers[i];
        if mh.repeat_open || mh.repeat_close >= 0 || mh.repeat_alternative != 0
            || mh.direction.is_some() || mh.marker.is_some() {
            let ev = NavEvent {
                bar: mh.number,
                repeat_open: mh.repeat_open,
                repeat_close: if mh.repeat_close >= 0 {
                    Some((mh.repeat_close + 1) as u32)
                } else {
                    None
                },
                volta: decode_volta_mask(mh.repeat_alternative),
                direction: match &mh.direction {
                    Some(d) => Some(direction_label(d)),
                    None => None,
                },
                marker: match &mh.marker {
                    Some(m) => Some(m.title.clone()),
                    None => None,
                },
            };
            out.push(ev);
        }
        i += 1;
    }
    out
}

// ---------------------------------------------------------------------------
// Repeat blocks
// ---------------------------------------------------------------------------

/// The open-repeat stack and the blocks `(open, close, plays)` found after
/// the first `n` headers: an open pushes its position, a close pops the
/// latest open (position 0 when none is pending) and closes a block.
pub open spec fn blocks_upto(hs: Seq<MeasureHeader>, n: int) -> (Seq<int>, Seq<(int, int, int)>)
    decreases n,
{
    if n <= 0 {
        (Seq::empty(), Seq::empty())
    } else {
        let (st, bl) = blocks_upto(hs, n - 1);
        let i = n - 1;
        let st1 = if hs[i].repeat_open {
            st.push(i)
        } else {
            st
        };
        if hs[i].repeat_close >= 0 {
            let open = if st1.len() > 0 {
                st1.last()
            } else {
                0
            };
            let st2 = if st1.len() > 0 {
                st1.drop_last()
            } else {
                st1
            };
            (st2, bl.push((open, i, hs[i].repeat_close + 1)))
        } else {
            (st1, bl)
        }
    }
}

/// Positions `from..to` (exclusive) of measures carrying a volta.
pub open spec fn volta_positions(hs: Seq<MeasureHeader>, from: int, to: int) -> Seq<int>
    decreases to - from,
{
    if to <= from {
        Seq::empty()
    } else if hs[to - 1].repeat_alternative != 0 {
        volta_positions(hs, from, to - 1).push(to - 1)
    } else {
        volta_positions(hs, from, to - 1)
    }
}

/// `b` is the block `(open, close, plays)` of the headers, with its voltas.
pub open spec fn block_ok(b: RepeatBlock, hs: Seq<MeasureHeader>, spec_b: (int, int, int)) -> bool {
    let vp = volta_positions(hs, spec_b.0, spec_b.1 + 1);
    &&& b.open_idx == spec_b.0
    &&& b.close_idx == spec_b.1
    &&& b.total_plays == spec_b.2
    &&& b.voltas@.len() == vp.len()
    &&& forall|k: int|
        0 <= k < vp.len() ==> (#[trigger] b.voltas@[k]).0 == vp[k] && b.voltas@[k].1@
            == volta_numbers(hs[vp[k]].repeat_alternative, 8)
}

proof fn lemma_stack_below(hs: Seq<MeasureHeader>, n: int)
    requires
        0 <= n,
    ensures
        forall|k: int|
            0 <= k < blocks_upto(hs, n).0.len() ==> 0 <= #[trigger] blocks_upto(hs, n).0[k] < n,
    decreases n,
{
    if n > 0 {
        lemma_stack_below(hs, n - 1);
        let (st, bl) = blocks_upto(hs, n - 1);
        let i = n - 1;
        let st1 = if hs[i].repeat_open {
            st.push(i)
        } else {
            st
        };
        assert forall|k: int| 0 <= k < st1.len() implies 0 <= #[trigger] st1[k] < n by {
            if k < st.len() {
                assert(st1[k] == st[k]);
            }
        }
        if hs[i].repeat_close >= 0 && st1.len() > 0 {
            let st2 = st1.drop_last();
            assert forall|k: int| 0 <= k < st2.len() implies 0 <= #[trigger] st2[k] < n by {
                assert(st2[k] == st1[k]);
            }
        }
    }
}

fn voltas_between(headers: &[MeasureHeader], from: usize, to: usize) -> (r: Vec<(usize, Vec<u8>)>)
    requires
        from <= to < headers@.len(),
    ensures
        r@.len() == volta_positions(headers@, from as int, to + 1).len(),
        forall|k: int|
            0 <= k < r@.len() ==> (#[trigger] r@[k]).0 == volta_positions(
                headers@,
                from as int,
                to + 1,
            )[k] && r@[k].1@ == volta_numbers(
                headers@[volta_positions(headers@, from as int, to + 1)[k]].repeat_alternative,
                8,
            ),
{
    let mut out: Vec<(usize, Vec<u8>)> = Vec::new();
    let mut j: usize = from;
    while j <= to
        invariant
            from <= j <= to + 1,
            to < headers@.len(),
            out@.len() == volta_positions(headers@, from as int, j as int).len(),
            forall|k: int|
                0 <= k < out@.len() ==> (#[trigger] out@[k]).0 == volta_positions(
                    headers@,
                    from as int,
                    j as int,
                )[k] && out@[k].1@ == volta_numbers(
                    headers@[volta_positions(headers@, from as int, j as int)[k]].repeat_alternative,
                    8,
                ),
        decreases to + 1 - j,
    {
        if headers[j].repeat_alternative != 0 {
            let v = decode_volta_mask(headers[j].repeat_alternative);
            out.push((j, v));
        }
        j += 1;
    }
    out
}

/// The repeat blocks of a song, in the order their closes appear.
pub fn find_repeat_blocks(headers: &[MeasureHeader]) -> (r: Vec<RepeatBlock>)
    requires
        closes_countable(headers@),
    ensures
        r@.len() == blocks_upto(headers@, headers@.len() as int).1.len(),
        forall|k: int|
            0 <= k < r@.len() ==> block_ok(
                #[trigger] r@[k],
                headers@,
                blocks_upto(headers@, headers@.len() as int).1[k],
            ),
{
    let mut blocks: Vec<RepeatBlock> = Vec::new();
    let mut open_stack: Vec<usize> = Vec::new();
    let mut i: usize = 0;
    while i < headers.len()
        invariant
            i <= headers@.len(),
            closes_countable(headers@),
            open_stack@.map_values(|x: usize| x as int) == blocks_upto(headers@, i as int).0,
            blocks@.len() == blocks_upto(headers@, i as int).1.len(),
            forall|k: int|
                0 <= k < blocks@.len() ==> block_ok(
                    #[trigger] blocks@[k],
                    headers@,
                    blocks_upto(headers@, i as int).1[k],
                ),
        decreases headers@.len() - i,
    {
        proof {
            lemma_stack_below(headers@, i as int);
        }
        let mh = &headers[i];
        let ghost st0 = blocks_upto(headers@, i as int).0;
        if mh.repeat_open {
            open_stack.push(i);
        }
        assert(open_stack@.map_values(|x: usize| x as int) =~= if mh.repeat_open {
            st0.push(i as int)
        } else {
            st0
        });
        if mh.repeat_close >= 0 {
            proof {
                let st1 = open_stack@.map_values(|x: usize| x as int);
                assert forall|k: int| 0 <= k < open_stack@.len() implies #[trigger] open_stack@[k] <= i by {
                    assert(st1[k] == open_stack@[k] as int);
                    if k < st0.len() {
                        assert(st1[k] == st0[k]);
                    }
                }
            }
            let open_idx = match open_stack.pop() {
                Some(o) => o,
                None => 0,
            };
            let total_plays = (mh.repeat_close + 1) as u32;
            let voltas = voltas_between(headers, open_idx, i);
            blocks.push(RepeatBlock { open_idx, close_idx: i, total_plays, voltas });
        }
        i += 1;
        assert(open_stack@.map_values(|x: usize| x as int) =~= blocks_upto(headers@, i as int).0);
    }
    blocks
}

// ---------------------------------------------------------------------------
// The sounding bar sequence
// ---------------------------------------------------------------------------

/// Upper bound on the number of bars played.
pub const SAFETY: usize = 10000;

/// Some entry of the repeat stack starts at position `i`.
pub open spec fn has_start(stack: Seq<(int, int, int)>, i: int) -> bool {
    exists|k: int| 0 <= k < stack.len() && #[trigger] stack[k].0 == i
}

/// Playing from position `i` with the repeat stack `stack` (entries
/// `(start, pass, total passes)`) after `played`: the bars played until the
/// end of the headers or the safety bound; `None` where a volta mask would
/// be read past its eighth bit or a close of 127 repeats counted, which the
/// player cannot do.
///
/// At each measure: an open pushes a new entry (unless one starts here
/// already); a close with an empty stack repeats from the first bar; inside
/// a repeat, a volta measure that excludes the current pass is skipped
/// (ending the repeat when it carries the exhausted close); otherwise the
/// bar plays, and a close jumps back for the next pass or ends the repeat.
pub open spec fn expand_from(
    hs: Seq<MeasureHeader>,
    i: int,
    stack: Seq<(int, int, int)>,
    played: Seq<PlayedBar>,
) -> Option<Seq<PlayedBar>>
    decreases 10000 - played.len(), hs.len() - i,
{
    if !(0 <= i < hs.len()) || played.len() >= 10000 {
        Some(played)
    } else {
        let mh = hs[i];
        let st1 = if mh.repeat_open && !has_start(stack, i) {
            stack.push((i, 1, 1))
        } else {
            stack
        };
        let st2 = if mh.repeat_close >= 0 && st1.len() == 0 {
            st1.push((0, 1, 1))
        } else {
            st1
        };
        let pass = if st2.len() > 0 {
            st2.last().1
        } else {
            1
        };
        if st2.len() > 0 && mh.repeat_alternative != 0 && !(1 <= pass <= 8) {
            None
        } else if st2.len() > 0 && mh.repeat_alternative != 0 && (mh.repeat_alternative >> ((pass
            - 1) as u32)) & 1 == 0 {
            let st3 = if mh.repeat_close >= 0 && st2.last().1 >= st2.last().2 {
                st2.drop_last()
            } else {
                st2
            };
            expand_from(hs, i + 1, st3, played)
        } else {
            let played1 = played.push(PlayedBar { bar_number: mh.number, pass: pass as u32 });
            if mh.repeat_close >= 0 {
                if mh.repeat_close == 127 {
                    None
                } else {
                    let total = mh.repeat_close + 1;
                    let top = st2.last();
                    if top.1 < total {
                        expand_from(
                            hs,
                            top.0,
                            st2.drop_last().push((top.0, top.1 + 1, total)),
                            played1,
                        )
                    } else {
                        expand_from(hs, i + 1, st2.drop_last(), played1)
                    }
                }
            } else {
                expand_from(hs, i + 1, st2, played1)
            }
        }
    }
}

/// The stack's entries start at measures of the song, with passes from 1
/// to 128.
pub open spec fn stack_ok(stack: Seq<(int, int, int)>, n: int) -> bool {
    forall|k: int|
        0 <= k < stack.len() ==> 0 <= #[trigger] stack[k].0 < n && 1 <= stack[k].1 <= 128 && 1
            <= stack[k].2 <= 128
}

/// The integer view of the executable stack.
pub open spec fn stack_view(v: Seq<(usize, u32, u32)>) -> Seq<(int, int, int)> {
    v.map_values(|e: (usize, u32, u32)| (e.0 as int, e.1 as int, e.2 as int))
}

fn starts_at(stack: &Vec<(usize, u32, u32)>, i: usize) -> (r: bool)
    ensures
        r == has_start(stack_view(stack@), i as int),
{
    let mut k: usize = 0;
    while k < stack.len()
        invariant
            k <= stack@.len(),
            forall|q: int| 0 <= q < k ==> stack@[q].0 != i,
        decreases stack@.len() - k,
    {
        if stack[k].0 == i {
            assert(stack_view(stack@)[k as int].0 == i as int);
            return true;
        }
        k += 1;
    }
    assert forall|q: int| 0 <= q < stack_view(stack@).len() implies #[trigger] stack_view(
        stack@,
    )[q].0 != i as int by {
        assert(stack_view(stack@)[q].0 == stack@[q].0 as int);
    }
    false
}

/// Expand `|: :|` repeats (with volta endings) into the sequence of bars as
/// they sound, stopping after [`SAFETY`] bars.
pub fn expand_simple_repeats(headers: &[MeasureHeader]) -> (r: Vec<PlayedBar>)
    requires
        expand_from(headers@, 0, Seq::empty(), Seq::empty()) is Some,
    ensures
        r@ == expand_from(headers@, 0, Seq::empty(), Seq::empty())->0,
{
    match try_expand_simple_repeats(headers) {
        Some(v) => v,
        None => {
            assert(false);
            Vec::new()
        },
    }
}

/// Expand `|: :|` repeats as [`expand_simple_repeats`] does, or `None`
/// where the expansion would read a volta mask past its eighth bit or
/// count the passes of a close of 127 repeats.
pub fn try_expand_simple_repeats(headers: &[MeasureHeader]) -> (r: Option<Vec<PlayedBar>>)
    ensures
        r is Some <==> expand_from(headers@, 0, Seq::empty(), Seq::empty()) is Some,
        r matches Some(v) ==> v@ == expand_from(headers@, 0, Seq::empty(), Seq::empty())->0,
{
    let ghost target = expand_from(headers@, 0, Seq::empty(), Seq::empty());
    let mut stack: Vec<(usize, u32, u32)> = Vec::new();
    let mut result: Vec<PlayedBar> = Vec::new();
    let mut i: usize = 0;
    assert(stack_view(stack@) =~= Seq::<(int, int, int)>::empty());
    while i < headers.len() && result.len() < SAFETY
        invariant
            i <= headers@.len(),
            result@.len() <= 10000,
            stack_ok(stack_view(stack@), headers@.len() as int),
            target == expand_from(headers@, 0, Seq::empty(), Seq::empty()),
            expand_from(headers@, i as int, stack_view(stack@), result@) == target,
        decreases 10000 - result@.len(), headers@.len() - i,
    {
        let mh = &headers[i];
        let ghost sv0 = stack_view(stack@);
        if mh.repeat_open && !starts_at(&stack, i) {
            stack.push((i, 1, 1));
        }
        if mh.repeat_close >= 0 && stack.len() == 0 {
            stack.push((0, 1, 1));
        }
        let ghost sv2 = stack_view(stack@);
        proof {
            let st1 = if mh.repeat_open && !has_start(sv0, i as int) {
                sv0.push((i as int, 1, 1))
            } else {
                sv0
            };
            let st2 = if mh.repeat_close >= 0 && st1.len() == 0 {
                st1.push((0, 1, 1))
            } else {
                st1
            };
            assert(sv2 =~= st2);
            assert(stack_ok(sv2, headers@.len() as int)) by {
                assert forall|k: int| 0 <= k < sv2.len() implies 0 <= #[trigger] sv2[k].0
                    < headers@.len() && 1 <= sv2[k].1 <= 128 && 1 <= sv2[k].2 <= 128 by {
                    if k < sv0.len() {
                        assert(sv2[k] == sv0[k]);
                    }
                }
            }
        }
        let pass: u32 = if stack.len() > 0 {
            stack[stack.len() - 1].1
        } else {
            1
        };
        assert(stack.len() > 0 ==> pass as int == sv2.last().1);
        if stack.len() > 0 && mh.repeat_alternative != 0 && pass > 8 {
            assert(expand_from(headers@, i as int, sv0, result@) is None);
            return None;
        }
        if stack.len() > 0 && mh.repeat_alternative != 0 {
            if (mh.repeat_alternative >> (pass - 1)) & 1 == 0 {
                if mh.repeat_close >= 0 {
                    let top = stack[stack.len() - 1];
                    if top.1 >= top.2 {
                        stack.pop();
                    }
                }
                proof {
                    let sv3 = stack_view(stack@);
                    if mh.repeat_close >= 0 && sv2.last().1 >= sv2.last().2 {
                        assert(sv3 =~= sv2.drop_last());
                    } else {
                        assert(sv3 =~= sv2);
                    }
                    assert(stack_ok(sv3, headers@.len() as int)) by {
                        assert forall|k: int| 0 <= k < sv3.len() implies 0 <= #[trigger] sv3[k].0
                            < headers@.len() && 1 <= sv3[k].1 <= 128 && 1 <= sv3[k].2 <= 128 by {
                            assert(sv3[k] == sv2[k]);
                        }
                    }
                }
                i += 1;
                continue;
            }
        }
        if mh.repeat_close == 127 {
            assert(expand_from(headers@, i as int, sv0, result@) is None);
            return None;
        }
        result.push(PlayedBar { bar_number: mh.number, pass });
        if mh.repeat_close >= 0 {
            let total: u32 = (mh.repeat_close + 1) as u32;
            let top = stack.pop().unwrap();
            if top.1 < total {
                let go_to = top.0;
                stack.push((top.0, top.1 + 1, total));
                proof {
                    let sv4 = stack_view(stack@);
                    assert(sv4 =~= sv2.drop_last().push((top.0 as int, top.1 + 1, total as int)));
                    assert(stack_ok(sv4, headers@.len() as int)) by {
                        assert forall|k: int| 0 <= k < sv4.len() implies 0 <= #[trigger] sv4[k].0
                            < headers@.len() && 1 <= sv4[k].1 <= 128 && 1 <= sv4[k].2 <= 128 by {
                            if k < sv4.len() - 1 {
                                assert(sv4[k] == sv2[k]);
                            }
                        }
                    }
                }
                i = go_to;
                continue;
            }
            proof {
                let sv4 = stack_view(stack@);
                assert(sv4 =~= sv2.drop_last());
                assert(stack_ok(sv4, headers@.len() as int)) by {
                    assert forall|k: int| 0 <= k < sv4.len() implies 0 <= #[trigger] sv4[k].0
                        < headers@.len() && 1 <= sv4[k].1 <= 128 && 1 <= sv4[k].2 <= 128 by {
                        assert(sv4[k] == sv2[k]);
                    }
                }
            }
        }
        i += 1;
    }
    Some(result)
}

// ---------------------------------------------------------------------------
// Compact rendering
// ---------------------------------------------------------------------------

/// The last position of the run that starts at `k`: it extends while the
/// next bar has the same pass and the next bar number.
pub open spec fn run_end(seq: Seq<PlayedBar>, k: int) -> int
    decreases seq.len() - k,
{
    if 0 <= k && k + 1 < seq.len() && seq[k + 1].pass == seq[k].pass && seq[k + 1].bar_number
        == seq[k].bar_number + 1 {
        run_end(seq, k + 1)
    } else {
        k
    }
}

/// Some bar plays in a pass after the first.
pub open spec fn any_repeat_pass(seq: Seq<PlayedBar>) -> bool {
    exists|k: int| 0 <= k < seq.len() && #[trigger] seq[k].pass > 1
}

/// The text of the run `first..=last` in pass `pass`.
pub open spec fn run_text(first: u16, last: u16, pass: u32, show_pass: bool) -> Seq<char> {
    let pass_text = if show_pass {
        " (pass "@ + decimal(pass as nat) + ")"@
    } else {
        Seq::empty()
    };
    if first == last {
        "bar "@ + decimal(first as nat) + pass_text
    } else {
        "bars "@ + decimal(first as nat) + "\u{2013}"@ + decimal(last as nat) + pass_text
    }
}

/// The lines for the runs starting at position `start`.
pub open spec fn run_lines(seq: Seq<PlayedBar>, start: int, show_pass: bool) -> Seq<Seq<char>>
    decreases seq.len() - start,
{
    if start < 0 || start >= seq.len() {
        Seq::empty()
    } else {
        let end = run_end(seq, start);
        if end < start || end >= seq.len() {
            Seq::empty()
        } else {
            seq![run_text(seq[start].bar_number, seq[end].bar_number, seq[start].pass, show_pass)]
                + run_lines(seq, end + 1, show_pass)
        }
    }
}

/// The rendering of a play sequence: "(empty)", or one line per run.
pub open spec fn compact_lines(seq: Seq<PlayedBar>) -> Seq<Seq<char>> {
    if seq.len() == 0 {
        seq!["(empty)"@]
    } else {
        run_lines(seq, 0, any_repeat_pass(seq))
    }
}

/// Bar numbers of a run continue without wrapping past the last bar number.
pub open spec fn numbers_continue(seq: Seq<PlayedBar>) -> bool {
    forall|k: int|
        0 <= k < seq.len() - 1 && #[trigger] seq[k + 1].pass == seq[k].pass ==> seq[k].bar_number
            < u16::MAX
}

fn push_text(s: &mut String, t: &str)
    ensures
        final(s)@ == old(s)@ + t@,
{
    s.append(t);
}

/// Compact the play sequence into human-readable ranges, one per run of
/// consecutive bars in one pass; passes are shown when some bar repeats.
pub fn compact_play_sequence(seq: &[PlayedBar]) -> (r: Vec<String>)
    requires
        numbers_continue(seq@),
    ensures
        r@.len() == compact_lines(seq@).len(),
        forall|k: int| 0 <= k < r@.len() ==> (#[trigger] r@[k])@ == compact_lines(seq@)[k],
{
    if seq.len() == 0 {
        let mut v: Vec<String> = Vec::new();
        v.push(String::from_str("(empty)"));
        return v;
    }
    let mut show_pass = false;
    let mut q: usize = 0;
    while q < seq.len()
        invariant
            q <= seq@.len(),
            show_pass == exists|k: int| 0 <= k < q && #[trigger] seq@[k].pass > 1,
        decreases seq@.len() - q,
    {
        if seq[q].pass > 1 {
            show_pass = true;
        }
        q += 1;
    }
    let n = seq.len();
    let mut lines: Vec<String> = Vec::new();
    let mut run_start: usize = 0;
    while run_start < n
        invariant
            n == seq@.len(),
            run_start <= seq@.len(),
            seq@.len() > 0,
            numbers_continue(seq@),
            show_pass == any_repeat_pass(seq@),
            forall|k: int| 0 <= k < lines@.len() ==> (#[trigger] lines@[k])@ == compact_lines(
                seq@,
            )[k],
            lines@.len() + run_lines(seq@, run_start as int, show_pass).len() == compact_lines(
                seq@,
            ).len(),
            forall|k: int|
                0 <= k < run_lines(seq@, run_start as int, show_pass).len() ==> #[trigger] run_lines(
                    seq@,
                    run_start as int,
                    show_pass,
                )[k] == compact_lines(seq@)[lines@.len() + k],
        decreases seq@.len() - run_start,
    {
        let pass = seq[run_start].pass;
        let mut run_end_pos: usize = run_start;
        while run_end_pos + 1 < n && seq[run_end_pos + 1].pass == pass
            && seq[run_end_pos + 1].bar_number == seq[run_end_pos].bar_number + 1
            invariant
                n == seq@.len(),
                run_start <= run_end_pos < n,
                numbers_continue(seq@),
                pass == seq@[run_start as int].pass,
                pass == seq@[run_end_pos as int].pass,
                run_end(seq@, run_start as int) == run_end(seq@, run_end_pos as int),
            decreases seq@.len() - run_end_pos,
        {
            run_end_pos += 1;
        }
        assert(run_end(seq@, run_end_pos as int) == run_end_pos);
        let first_bar = seq[run_start].bar_number;
        let last_bar = seq[run_end_pos].bar_number;
        let mut line = if first_bar == last_bar {
            let mut l = String::from_str("bar ");
            push_decimal(&mut l, first_bar as u64);
            l
        } else {
            let mut l = String::from_str("bars ");
            push_decimal(&mut l, first_bar as u64);
            push_text(&mut l, "\u{2013}");
            push_decimal(&mut l, last_bar as u64);
            l
        };
        if show_pass {
            push_text(&mut line, " (pass ");
            push_decimal(&mut line, pass as u64);
            push_text(&mut line, ")");
        }
        proof {
            assert(line@ =~= run_text(first_bar, last_bar, pass, show_pass));
            let rl = run_lines(seq@, run_start as int, show_pass);
            assert(rl =~= seq![line@] + run_lines(seq@, run_end_pos + 1, show_pass));
            assert(rl[0] == compact_lines(seq@)[lines@.len() + 0int]);
        }
        lines.push(line);
        proof {
            let rest = run_lines(seq@, run_end_pos + 1, show_pass);
            let rl = run_lines(seq@, run_start as int, show_pass);
            assert forall|k: int| 0 <= k < rest.len() implies #[trigger] rest[k] == compact_lines(
                seq@,
            )[lines@.len() + k] by {
                assert(rl[k + 1] == rest[k]);
            }
        }
        run_start = run_end_pos + 1;
    }
    lines
}

// ---------------------------------------------------------------------------
// Laws
// ---------------------------------------------------------------------------

/// Every played bar carries the number of a measure of the song.
pub open spec fn bars_of_song(hs: Seq<MeasureHeader>, played: Seq<PlayedBar>) -> bool {
    forall|k: int|
        0 <= k < played.len() ==> exists|j: int|
            0 <= j < hs.len() && #[trigger] hs[j].number == (#[trigger] played[k]).bar_number
}

proof fn lemma_expand_bounded(
    hs: Seq<MeasureHeader>,
    i: int,
    stack: Seq<(int, int, int)>,
    played: Seq<PlayedBar>,
)
    requires
        played.len() <= 10000,
        bars_of_song(hs, played),
    ensures
        expand_from(hs, i, stack, played) is Some ==> expand_from(hs, i, stack, played)->0.len()
            <= 10000 && bars_of_song(hs, expand_from(hs, i, stack, played)->0),
    decreases 10000 - played.len(), hs.len() - i,
{
    if !(0 <= i < hs.len()) || played.len() >= 10000 {
    } else {
        let mh = hs[i];
        let st1 = if mh.repeat_open && !has_start(stack, i) {
            stack.push((i, 1, 1))
        } else {
            stack
        };
        let st2 = if mh.repeat_close >= 0 && st1.len() == 0 {
            st1.push((0, 1, 1))
        } else {
            st1
        };
        let pass = if st2.len() > 0 {
            st2.last().1
        } else {
            1
        };
        if st2.len() > 0 && mh.repeat_alternative != 0 && !(1 <= pass <= 8) {
        } else if st2.len() > 0 && mh.repeat_alternative != 0 && (mh.repeat_alternative >> ((pass
            - 1) as u32)) & 1 == 0 {
            let st3 = if mh.repeat_close >= 0 && st2.last().1 >= st2.last().2 {
                st2.drop_last()
            } else {
                st2
            };
            lemma_expand_bounded(hs, i + 1, st3, played);
        } else {
            let played1 = played.push(PlayedBar { bar_number: mh.number, pass: pass as u32 });
            assert(bars_of_song(hs, played1)) by {
                assert forall|k: int| 0 <= k < played1.len() implies exists|j: int|
                    0 <= j < hs.len() && #[trigger] hs[j].number == (#[trigger] played1[k]).bar_number by {
                    if k < played.len() {
                        assert(played1[k] == played[k]);
                    } else {
                        assert(hs[i].number == played1[k].bar_number);
                    }
                }
            }
            if mh.repeat_close >= 0 {
                if mh.repeat_close != 127 {
                    let total = mh.repeat_close + 1;
                    let top = st2.last();
                    if top.1 < total {
                        lemma_expand_bounded(
                            hs,
                            top.0,
                            st2.drop_last().push((top.0, top.1 + 1, total)),
                            played1,
                        );
                    } else {
                        lemma_expand_bounded(hs, i + 1, st2.drop_last(), played1);
                    }
                }
            } else {
                lemma_expand_bounded(hs, i + 1, st2, played1);
            }
        }
    }
}

/// The sounding sequence never exceeds the safety bound of 10000 bars, and
/// every bar in it is a bar of the song.
pub proof fn lemma_sounding_sequence_bounded(hs: Seq<MeasureHeader>)
    ensures
        expand_from(hs, 0, Seq::empty(), Seq::empty()) is Some ==> expand_from(
            hs,
            0,
            Seq::empty(),
            Seq::empty(),
        )->0.len() <= 10000 && bars_of_song(hs, expand_from(hs, 0, Seq::empty(), Seq::empty())->0),
{
    lemma_expand_bounded(hs, 0, Seq::empty(), Seq::empty());
}

/// The measure carries no repeat sign and no volta.
pub open spec fn plain(h: MeasureHeader) -> bool {
    !h.repeat_open && h.repeat_close < 0 && h.repeat_alternative == 0
}

/// Bars `i..i + m` played once each, in order.
pub open spec fn straight_bars(hs: Seq<MeasureHeader>, i: int, m: int) -> Seq<PlayedBar> {
    Seq::new(m as nat, |k: int| PlayedBar { bar_number: hs[i + k].number, pass: 1 })
}

proof fn lemma_plain_from(hs: Seq<MeasureHeader>, i: int, played: Seq<PlayedBar>)
    requires
        0 <= i <= hs.len(),
        played.len() <= 10000,
        forall|k: int| 0 <= k < hs.len() ==> #[trigger] plain(hs[k]),
    ensures
        expand_from(hs, i, Seq::empty(), played) == Some(
            played + straight_bars(
                hs,
                i,
                if hs.len() - i <= 10000 - played.len() {
                    hs.len() - i
                } else {
                    10000 - played.len()
                },
            ),
        ),
    decreases hs.len() - i,
{
    if i < hs.len() && played.len() < 10000 {
        assert(plain(hs[i]));
        let played1 = played.push(PlayedBar { bar_number: hs[i].number, pass: 1 });
        lemma_plain_from(hs, i + 1, played1);
        let m = if hs.len() - i <= 10000 - played.len() {
            hs.len() - i
        } else {
            10000 - played.len()
        };
        assert(played1 + straight_bars(hs, i + 1, m - 1) =~= played + straight_bars(hs, i, m));
    } else {
        assert(played + straight_bars(hs, i, 0) =~= played);
    }
}

/// A song without repeat signs or voltas sounds each bar once, in order,
/// up to the safety bound.
pub proof fn lemma_plain_song_plays_straight(hs: Seq<MeasureHeader>)
    requires
        forall|k: int| 0 <= k < hs.len() ==> #[trigger] plain(hs[k]),
    ensures
        expand_from(hs, 0, Seq::empty(), Seq::empty()) == Some(
            straight_bars(
                hs,
                0,
                if hs.len() <= 10000 {
                    hs.len() as int
                } else {
                    10000
                },
            ),
        ),
{
    lemma_plain_from(hs, 0, Seq::empty());
    let m = if hs.len() <= 10000 {
        hs.len() as int
    } else {
        10000
    };
    assert(Seq::<PlayedBar>::empty() + straight_bars(hs, 0, m) =~= straight_bars(hs, 0, m));
}

/// A direction is a jump: its text begins with `D.` or `Da`.
pub open spec fn is_jump_text(d: Seq<char>) -> bool {
    (d.len() >= 2 && d.subrange(0, 2) == "D."@) || (d.len() >= 2 && d.subrange(0, 2) == "Da"@)
}

/// The event's direction is a jump.
pub open spec fn event_is_jump(e: NavEvent) -> bool {
    match e.direction {
        Some(d) => is_jump_text(d@),
        None => false,
    }
}

/// Some navigation event is a jump (D.C., D.S., Da Coda and the like),
/// which the sounding count of simple repeats leaves out.
pub fn has_jumps(nav: &[NavEvent]) -> (r: bool)
    ensures
        r == exists|k: int| 0 <= k < nav@.len() && event_is_jump(#[trigger] nav@[k]),
{
    let mut i: usize = 0;
    while i < nav.len()
        invariant
            i <= nav@.len(),
            forall|k: int| 0 <= k < i ==> !event_is_jump(#[trigger] nav@[k]),
        decreases nav@.len() - i,
    {
        if let Some(d) = &nav[i].direction {
            let t = d.as_str();
            if t.unicode_len() >= 2 {
                let head = t.substring_char(0, 2);
                if str_eq(head, "D.") || str_eq(head, "Da") {
                    return true;
                }
            }
        }
        i += 1;
    }
    false
}


/// Every bar of the song once, on pass `p`.
pub open spec fn pass_bars(hs: Seq<MeasureHeader>, p: int) -> Seq<PlayedBar> {
    Seq::new(hs.len(), |k: int| PlayedBar { bar_number: hs[k].number, pass: p as u32 })
}

/// Bars `i..` of the song on pass `p`.
pub open spec fn pass_tail(hs: Seq<MeasureHeader>, i: int, p: int) -> Seq<PlayedBar> {
    Seq::new((hs.len() - i) as nat, |k: int| PlayedBar { bar_number: hs[i + k].number, pass: p as u32 })
}

/// Passes `p` to `total` of the whole song, in order.
pub open spec fn passes(hs: Seq<MeasureHeader>, p: int, total: int) -> Seq<PlayedBar>
    decreases total + 1 - p,
{
    if p > total {
        Seq::empty()
    } else {
        pass_bars(hs, p) + passes(hs, p + 1, total)
    }
}

/// The song is one repeated block: it opens at its first bar, closes at
/// its last with `c` repeats, and has no other repeat sign and no volta.
pub open spec fn one_block(hs: Seq<MeasureHeader>, c: int) -> bool {
    &&& hs.len() > 0
    &&& 0 <= c < 127
    &&& hs[0].repeat_open
    &&& hs[hs.len() - 1].repeat_close == c
    &&& forall|k: int| 0 <= k < hs.len() ==> (#[trigger] hs[k]).repeat_alternative == 0
    &&& forall|k: int| 0 < k < hs.len() ==> (#[trigger] hs[k]).repeat_open == false
    &&& forall|k: int| 0 <= k < hs.len() - 1 ==> (#[trigger] hs[k]).repeat_close < 0
}

proof fn lemma_one_pass(hs: Seq<MeasureHeader>, c: int, i: int, p: int, tt: int, played: Seq<PlayedBar>)
    requires
        one_block(hs, c),
        0 <= i < hs.len(),
        1 <= p <= c + 1,
        played.len() + (hs.len() - i) <= 10000,
    ensures
        expand_from(hs, i, seq![(0int, p, tt)], played) == if p < c + 1 {
            expand_from(hs, 0, seq![(0int, p + 1, c + 1)], played + pass_tail(hs, i, p))
        } else {
            expand_from(hs, hs.len() as int, Seq::empty(), played + pass_tail(hs, i, p))
        },
    decreases hs.len() - i,
{
    let st = seq![(0int, p, tt)];
    let mh = hs[i];
    assert(st[0].0 == 0);
    if i == 0 {
        assert(has_start(st, 0));
    }
    assert(st.last() == (0int, p, tt));
    let played1 = played.push(PlayedBar { bar_number: mh.number, pass: p as u32 });
    if i == hs.len() - 1 {
        assert(st.drop_last() =~= Seq::<(int, int, int)>::empty());
        assert(st.drop_last().push((0int, p + 1, c + 1)) =~= seq![(0int, p + 1, c + 1)]);
        assert(played1 =~= played + pass_tail(hs, i, p));
    } else {
        assert(mh.repeat_close < 0);
        lemma_one_pass(hs, c, i + 1, p, tt, played1);
        assert(played1 + pass_tail(hs, i + 1, p) =~= played + pass_tail(hs, i, p));
    }
}

proof fn lemma_later_passes(hs: Seq<MeasureHeader>, c: int, p: int, played: Seq<PlayedBar>)
    requires
        one_block(hs, c),
        2 <= p <= c + 1,
        played.len() + (c + 2 - p) * hs.len() <= 10000,
    ensures
        expand_from(hs, 0, seq![(0int, p, c + 1)], played) == Some(played + passes(hs, p, c + 1)),
    decreases c + 1 - p,
{
    let n = hs.len() as int;
    assert((c + 2 - p) * n >= n) by (nonlinear_arith)
        requires
            c + 2 - p >= 1,
            n >= 0,
    ;
    lemma_one_pass(hs, c, 0, p, c + 1, played);
    assert(pass_tail(hs, 0, p) =~= pass_bars(hs, p));
    let next = played + pass_bars(hs, p);
    if p < c + 1 {
        assert(next.len() + (c + 2 - (p + 1)) * n <= 10000) by (nonlinear_arith)
            requires
                next.len() == played.len() + n,
                played.len() + (c + 2 - p) * n <= 10000,
        ;
        lemma_later_passes(hs, c, p + 1, next);
        assert(next + passes(hs, p + 1, c + 1) =~= played + passes(hs, p, c + 1));
    } else {
        assert(passes(hs, p + 1, c + 1) =~= Seq::<PlayedBar>::empty());
        assert(next =~= played + passes(hs, p, c + 1));
    }
}

/// A song that is one block between a repeat open and a close with `c`
/// repeats, with no volta, plays the block `c + 1` times, passes 1 to
/// `c + 1`, when that fits under the safety bound.
pub proof fn lemma_block_played_k_times(hs: Seq<MeasureHeader>, c: int)
    requires
        one_block(hs, c),
        (c + 1) * hs.len() <= 10000,
    ensures
        expand_from(hs, 0, Seq::empty(), Seq::empty()) == Some(passes(hs, 1, c + 1)),
{
    let n = hs.len() as int;
    let empty = Seq::<PlayedBar>::empty();
    assert((c + 1) * n >= n) by (nonlinear_arith)
        requires
            c + 1 >= 1,
            n >= 0,
    ;
    // The open at the first bar pushes the entry the first pass runs with.
    assert(!has_start(Seq::<(int, int, int)>::empty(), 0));
    assert(Seq::<(int, int, int)>::empty().push((0int, 1int, 1int)) =~= seq![(0int, 1int, 1int)]);
    assert(has_start(seq![(0int, 1int, 1int)], 0)) by {
        assert(seq![(0int, 1int, 1int)][0].0 == 0);
    }
    assert(expand_from(hs, 0, Seq::empty(), empty) == expand_from(hs, 0, seq![(0int, 1int, 1int)], empty));
    lemma_one_pass(hs, c, 0, 1, 1, empty);
    assert(pass_tail(hs, 0, 1) =~= pass_bars(hs, 1));
    let first = empty + pass_bars(hs, 1);
    if 1 < c + 1 {
        assert(first.len() + (c + 2 - 2) * n <= 10000) by (nonlinear_arith)
            requires
                first.len() == n,
                (c + 1) * n <= 10000,
        ;
        lemma_later_passes(hs, c, 2, first);
        assert(first + passes(hs, 2, c + 1) =~= passes(hs, 1, c + 1));
    } else {
        assert(passes(hs, 2, c + 1) =~= Seq::<PlayedBar>::empty());
        assert(first =~= passes(hs, 1, c + 1));
    }
}

} // verus!
