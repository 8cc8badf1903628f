//! Text helpers: comparison, trimming, splitting, searching, and decimal
//! rendering and parsing.

use vstd::prelude::*;

verus! {

/// The lower-case form of a text, as Rust's `str::to_lowercase` computes
/// it (full Unicode case mapping).
pub uninterp spec fn lowercase(s: Seq<char>) -> Seq<char>;

/// Lower-case a text with `str::to_lowercase`; the result is named
/// `lowercase` of the argument, the Unicode mapping itself is not stated.
#[verifier::external_body]
pub(crate) fn to_lower(s: &str) -> (r: String)
    ensures
        r@ == lowercase(s@),
{
    s.to_lowercase()
}

/// The text of a single character, as `char::to_string` makes it.
#[verifier::external_body]
pub(crate) fn char_text(c: char) -> (r: String)
    ensures
        r@ == seq![c],
{
    c.to_string()
}

/// Whether two strings hold the same characters.
pub fn str_eq(a: &str, b: &str) -> (r: bool)
    ensures
        r == (a@ == b@),
{
    let la = a.unicode_len();
    let lb = b.unicode_len();
    if la != lb {
        return false;
    }
    let mut i: usize = 0;
    while i < la
        invariant
            la == a@.len(),
            lb == b@.len(),
            la == lb,
            i <= la,
            forall|k: int| 0 <= k < i ==> a@[k] == b@[k],
        decreases la - i,
    {
        if a.get_char(i) != b.get_char(i) {
            return false;
        }
        i += 1;
    }
    assert(a@ =~= b@);
    true
}

/// The character of a decimal digit.
pub open spec fn digit_char(d: int) -> char {
    if d == 0 { '0' }
    else if d == 1 { '1' }
    else if d == 2 { '2' }
    else if d == 3 { '3' }
    else if d == 4 { '4' }
    else if d == 5 { '5' }
    else if d == 6 { '6' }
    else if d == 7 { '7' }
    else if d == 8 { '8' }
    else { '9' }
}

/// Decimal rendering of `n`, without leading zeros ("0" for zero).
pub open spec fn decimal(n: nat) -> Seq<char>
    decreases n,
{
    if n < 10 {
        seq![digit_char(n as int)]
    } else {
        decimal(n / 10).push(digit_char((n % 10) as int))
    }
}

fn digit_str(d: u64) -> (r: &'static str)
    requires
        d < 10,
    ensures
        r@ == seq![digit_char(d as int)],
{
    proof {
        reveal_strlit("0");
        reveal_strlit("1");
        reveal_strlit("2");
        reveal_strlit("3");
        reveal_strlit("4");
        reveal_strlit("5");
        reveal_strlit("6");
        reveal_strlit("7");
        reveal_strlit("8");
        reveal_strlit("9");
    }
    if d == 0 { "0" }
    else if d == 1 { "1" }
    else if d == 2 { "2" }
    else if d == 3 { "3" }
    else if d == 4 { "4" }
    else if d == 5 { "5" }
    else if d == 6 { "6" }
    else if d == 7 { "7" }
    else if d == 8 { "8" }
    else { "9" }
}

/// Append the decimal rendering of `n` to `s`.
pub fn push_decimal(s: &mut String, n: u64)
    ensures
        final(s)@ == old(s)@ + decimal(n as nat),
    decreases n,
{
    if n >= 10 {
        push_decimal(s, n / 10);
        s.append(digit_str(n % 10));
        assert(decimal(n as nat) == decimal((n / 10) as nat).push(digit_char((n % 10) as int)));
        assert(s@ =~= old(s)@ + decimal(n as nat));
    } else {
        s.append(digit_str(n));
        assert(s@ =~= old(s)@ + decimal(n as nat));
    }
}

/// Decimal rendering of a signed integer, with a leading `-` when negative.
pub open spec fn signed_decimal(n: int) -> Seq<char> {
    if n < 0 {
        seq!['-'] + decimal((-n) as nat)
    } else {
        decimal(n as nat)
    }
}

/// Append the decimal rendering of the signed `n` to `s`.
pub fn push_signed_decimal(s: &mut String, n: i64)
    ensures
        final(s)@ == old(s)@ + signed_decimal(n as int),
{
    proof {
        reveal_strlit("-");
    }
    if n < 0 {
        s.append("-");
        let m: u64 = if n == i64::MIN {
            9223372036854775808u64
        } else {
            (-n) as u64
        };
        push_decimal(s, m);
        assert(s@ =~= old(s)@ + signed_decimal(n as int));
    } else {
        push_decimal(s, n as u64);
    }
}

/// `prefix` followed by the decimal rendering of `n`.
pub fn prefixed_decimal(prefix: &str, n: u64) -> (r: String)
    ensures
        r@ == prefix@ + decimal(n as nat),
{
    let mut s = String::from_str(prefix);
    push_decimal(&mut s, n);
    s
}

// ---------------------------------------------------------------------------
// Whitespace trimming
// ---------------------------------------------------------------------------

/// Unicode `White_Space`, as `char::is_whitespace` tests it.
pub open spec fn is_ws(c: char) -> bool {
    ||| '\u{9}' <= c <= '\u{d}'
    ||| c == ' '
    ||| c == '\u{85}'
    ||| c == '\u{a0}'
    ||| c == '\u{1680}'
    ||| '\u{2000}' <= c <= '\u{200a}'
    ||| c == '\u{2028}'
    ||| c == '\u{2029}'
    ||| c == '\u{202f}'
    ||| c == '\u{205f}'
    ||| c == '\u{3000}'
}

/// Whether `c` is whitespace.
pub fn char_is_ws(c: char) -> (r: bool)
    ensures
        r == is_ws(c),
{
    ('\u{9}' <= c && c <= '\u{d}') || c == ' ' || c == '\u{85}' || c == '\u{a0}' || c == '\u{1680}'
        || ('\u{2000}' <= c && c <= '\u{200a}') || c == '\u{2028}' || c == '\u{2029}' || c
        == '\u{202f}' || c == '\u{205f}' || c == '\u{3000}'
}

/// Index of the first non-whitespace character at or after `i` (the length
/// when there is none).
pub open spec fn first_non_ws(s: Seq<char>, i: int) -> int
    decreases s.len() - i,
{
    if i >= s.len() {
        s.len() as int
    } else if !is_ws(s[i]) {
        i
    } else {
        first_non_ws(s, i + 1)
    }
}

/// End of the text before index `j` once trailing whitespace is dropped.
pub open spec fn end_non_ws(s: Seq<char>, j: int) -> int
    decreases j,
{
    if j <= 0 {
        0
    } else if !is_ws(s[j - 1]) {
        j
    } else {
        end_non_ws(s, j - 1)
    }
}

/// `s` without leading and trailing whitespace, as `str::trim` gives it.
pub open spec fn trimmed(s: Seq<char>) -> Seq<char> {
    let a = first_non_ws(s, 0);
    let b = end_non_ws(s, s.len() as int);
    if a < b {
        s.subrange(a, b)
    } else {
        Seq::empty()
    }
}

/// The bounds `(a, b)` of `s@.subrange(a, b) == trimmed(s@)`.
pub fn trim_bounds(s: &str) -> (r: (usize, usize))
    ensures
        r.0 <= r.1 <= s@.len(),
        s@.subrange(r.0 as int, r.1 as int) == trimmed(s@),
{
    let n = s.unicode_len();
    let mut a: usize = 0;
    while a < n && char_is_ws(s.get_char(a))
        invariant
            n == s@.len(),
            a <= n,
            first_non_ws(s@, a as int) == first_non_ws(s@, 0),
        decreases n - a,
    {
        a += 1;
    }
    let mut b: usize = n;
    while b > 0 && char_is_ws(s.get_char(b - 1))
        invariant
            n == s@.len(),
            b <= n,
            end_non_ws(s@, b as int) == end_non_ws(s@, n as int),
        decreases b,
    {
        b -= 1;
    }
    if a < b {
        (a, b)
    } else {
        assert(s@.subrange(a as int, a as int) =~= trimmed(s@));
        (a, a)
    }
}

/// `s` without leading and trailing whitespace.
pub fn trim(s: &str) -> (r: &str)
    ensures
        r@ == trimmed(s@),
{
    let (a, b) = trim_bounds(s);
    s.substring_char(a, b)
}

// ---------------------------------------------------------------------------
// Splitting
// ---------------------------------------------------------------------------

/// The pieces of the first `n` characters of `s` cut at `sep`, as ranges:
/// the finished pieces, and the start of the piece under way.
pub open spec fn split_state(s: Seq<char>, sep: char, n: int) -> (Seq<(int, int)>, int)
    decreases n,
{
    if n <= 0 {
        (Seq::empty(), 0)
    } else {
        let (done, start) = split_state(s, sep, n - 1);
        if s[n - 1] == sep {
            (done.push((start, n - 1)), n)
        } else {
            (done, start)
        }
    }
}

/// The pieces of `s` cut at every `sep`, as `str::split` yields them (an
/// empty text gives one empty piece), as ranges of character indices.
pub open spec fn split_ranges(s: Seq<char>, sep: char) -> Seq<(int, int)> {
    let (done, start) = split_state(s, sep, s.len() as int);
    done.push((start, s.len() as int))
}

/// The pieces of `s` cut at every `sep`.
pub open spec fn split_pieces(s: Seq<char>, sep: char) -> Seq<Seq<char>> {
    split_ranges(s, sep).map_values(|r: (int, int)| s.subrange(r.0, r.1))
}

proof fn lemma_split_state_bounds(s: Seq<char>, sep: char, n: int)
    requires
        0 <= n <= s.len(),
    ensures
        0 <= split_state(s, sep, n).1 <= n,
        forall|k: int|
            0 <= k < split_state(s, sep, n).0.len() ==> {
                let r = #[trigger] split_state(s, sep, n).0[k];
                0 <= r.0 <= r.1 < split_state(s, sep, n).1
            },
    decreases n,
{
    if n > 0 {
        lemma_split_state_bounds(s, sep, n - 1);
    }
}

/// The pieces of `s` cut at `sep`, as character ranges.
pub fn split_at_char(s: &str, sep: char) -> (r: Vec<(usize, usize)>)
    ensures
        r@.len() == split_ranges(s@, sep).len(),
        forall|k: int|
            0 <= k < r@.len() ==> (#[trigger] r@[k]).0 as int == split_ranges(s@, sep)[k].0
                && r@[k].1 as int == split_ranges(s@, sep)[k].1 && r@[k].0 <= r@[k].1 <= s@.len(),
{
    let n = s.unicode_len();
    let mut out: Vec<(usize, usize)> = Vec::new();
    let mut start: usize = 0;
    let mut i: usize = 0;
    while i < n
        invariant
            n == s@.len(),
            i <= n,
            start <= i,
            start as int == split_state(s@, sep, i as int).1,
            out@.len() == split_state(s@, sep, i as int).0.len(),
            forall|k: int|
                0 <= k < out@.len() ==> (#[trigger] out@[k]).0 as int == split_state(
                    s@,
                    sep,
                    i as int,
                ).0[k].0 && out@[k].1 as int == split_state(s@, sep, i as int).0[k].1 && out@[k].0
                    <= out@[k].1 <= n,
        decreases n - i,
    {
        if s.get_char(i) == sep {
            out.push((start, i));
            start = i + 1;
        }
        i += 1;
    }
    out.push((start, n));
    out
}

// ---------------------------------------------------------------------------
// Searching
// ---------------------------------------------------------------------------

/// `needle` occurs in `hay` at index `i`.
pub open spec fn occurs_at(hay: Seq<char>, needle: Seq<char>, i: int) -> bool {
    0 <= i && i + needle.len() <= hay.len() && hay.subrange(i, i + needle.len()) == needle
}

/// `needle` occurs somewhere in `hay`.
pub open spec fn has_substring(hay: Seq<char>, needle: Seq<char>) -> bool {
    exists|i: int| occurs_at(hay, needle, i)
}

/// The first index at or after `i` at which `needle` occurs in `hay`, or
/// -1.
pub open spec fn first_occurrence(hay: Seq<char>, needle: Seq<char>, i: int) -> int
    decreases hay.len() + 1 - i,
{
    if i < 0 || i + needle.len() > hay.len() {
        -1
    } else if occurs_at(hay, needle, i) {
        i
    } else {
        first_occurrence(hay, needle, i + 1)
    }
}

/// Whether `needle` occurs in `hay` at index `i`.
fn matches_at(hay: &str, needle: &str, i: usize) -> (r: bool)
    requires
        i + needle@.len() <= hay@.len(),
    ensures
        r == occurs_at(hay@, needle@, i as int),
{
    let n = hay.unicode_len();
    let m = needle.unicode_len();
    let mut k: usize = 0;
    while k < m
        invariant
            n == hay@.len(),
            m == needle@.len(),
            i + m <= hay@.len(),
            k <= m,
            forall|q: int| 0 <= q < k ==> hay@[i + q] == needle@[q],
        decreases m - k,
    {
        if hay.get_char(i + k) != needle.get_char(k) {
            assert(hay@.subrange(i as int, i + m)[k as int] != needle@[k as int]);
            return false;
        }
        k += 1;
    }
    assert(hay@.subrange(i as int, i + m) =~= needle@);
    true
}

/// The first index at which `needle` occurs in `hay`, if any.
pub fn find_substring(hay: &str, needle: &str) -> (r: Option<usize>)
    ensures
        r is Some ==> occurs_at(hay@, needle@, r->0 as int) && forall|k: int|
            0 <= k < r->0 ==> !occurs_at(hay@, needle@, k),
        r is None ==> !has_substring(hay@, needle@),
        r is Some <==> first_occurrence(hay@, needle@, 0) >= 0,
        r is Some ==> r->0 == first_occurrence(hay@, needle@, 0),
{
    let n = hay.unicode_len();
    let m = needle.unicode_len();
    if m > n {
        assert forall|k: int| !occurs_at(hay@, needle@, k) by {}
        return None;
    }
    if m == 0 {
        assert(hay@.subrange(0, 0) =~= needle@);
        return Some(0);
    }
    let mut i: usize = 0;
    while i <= n - m
        invariant
            n == hay@.len(),
            m == needle@.len(),
            0 < m <= n,
            i <= n - m + 1,
            forall|k: int| 0 <= k < i ==> !occurs_at(hay@, needle@, k),
            first_occurrence(hay@, needle@, i as int) == first_occurrence(hay@, needle@, 0),
        decreases n - m + 1 - i,
    {
        if matches_at(hay, needle, i) {
            return Some(i);
        }
        i += 1;
    }
    None
}

/// Whether `needle` occurs in `hay`, as `str::contains` tests it.
pub fn contains_str(hay: &str, needle: &str) -> (r: bool)
    ensures
        r == has_substring(hay@, needle@),
{
    find_substring(hay, needle).is_some()
}

// ---------------------------------------------------------------------------
// Decimal parsing
// ---------------------------------------------------------------------------

/// Whether `c` is an ASCII digit.
pub open spec fn is_digit(c: char) -> bool {
    '0' <= c <= '9'
}

/// The value of a run of ASCII digits.
pub open spec fn digits_value(t: Seq<char>) -> nat
    decreases t.len(),
{
    if t.len() == 0 {
        0
    } else {
        digits_value(t.drop_last()) * 10 + ((t.last() as u32 - '0' as u32) as nat)
    }
}

/// The digits of an unsigned decimal: the text without a leading `+`.
pub open spec fn unsigned_digits(s: Seq<char>) -> Seq<char> {
    if s.len() > 0 && s[0] == '+' {
        s.drop_first()
    } else {
        s
    }
}

/// Every character of `t` is an ASCII digit.
pub open spec fn all_digits(t: Seq<char>) -> bool {
    forall|k: int| 0 <= k < t.len() ==> is_digit(#[trigger] t[k])
}

/// The unsigned value `s` spells, as `usize::from_str` reads it: an
/// optional `+`, then one or more ASCII digits; `None` for anything else.
pub open spec fn unsigned_value(s: Seq<char>) -> Option<nat> {
    let t = unsigned_digits(s);
    if t.len() > 0 && all_digits(t) {
        Some(digits_value(t))
    } else {
        None
    }
}

/// Parse an unsigned decimal: `None` unless `s` is well formed and its
/// value fits in `usize`.
pub fn parse_usize(s: &str) -> (r: Option<usize>)
    ensures
        r is Some <==> (unsigned_value(s@) is Some && unsigned_value(s@)->0 <= usize::MAX),
        r is Some ==> r->0 as nat == unsigned_value(s@)->0,
{
    let n = s.unicode_len();
    let mut i: usize = 0;
    if n > 0 && s.get_char(0) == '+' {
        i = 1;
    }
    let ghost t = unsigned_digits(s@);
    assert(t =~= s@.subrange(i as int, n as int));
    if i == n {
        assert(t.len() == 0);
        return None;
    }
    let start = i;
    let mut v: usize = 0;
    let mut overflow = false;
    while i < n
        invariant
            n == s@.len(),
            start <= i <= n,
            t == unsigned_digits(s@),
            t =~= s@.subrange(start as int, n as int),
            forall|k: int| start <= k < i ==> is_digit(#[trigger] s@[k]),
            !overflow ==> v as nat == digits_value(s@.subrange(start as int, i as int)),
            overflow ==> digits_value(s@.subrange(start as int, i as int)) > usize::MAX,
        decreases n - i,
    {
        let c = s.get_char(i);
        if !('0' <= c && c <= '9') {
            assert(t[i - start] == s@[i as int]);
            assert(!is_digit(t[i - start]));
            assert(!all_digits(t));
            return None;
        }
        let d = (c as u32 - '0' as u32) as usize;
        let ghost prefix = s@.subrange(start as int, i + 1);
        assert(prefix.drop_last() =~= s@.subrange(start as int, i as int));
        if !overflow {
            if v > (usize::MAX - d) / 10 {
                overflow = true;
            } else {
                v = v * 10 + d;
            }
        } else {
            assert(digits_value(prefix) >= digits_value(prefix.drop_last())) by (nonlinear_arith)
                requires
                    digits_value(prefix) == digits_value(prefix.drop_last()) * 10 + d,
            ;
        }
        i += 1;
    }
    assert(s@.subrange(start as int, n as int) =~= t);
    if overflow {
        None
    } else {
        Some(v)
    }
}

/// A decimal rendering reads back as its number: it is a non-empty run of
/// ASCII digits with no leading `+`.
pub proof fn lemma_decimal_reads_back(n: nat)
    ensures
        decimal(n).len() >= 1,
        all_digits(decimal(n)),
        decimal(n)[0] != '+',
        unsigned_value(decimal(n)) == Some(n),
    decreases n,
{
    let d = decimal(n);
    if n < 10 {
        assert(d.drop_last() =~= Seq::<char>::empty());
        assert(digits_value(d) == digits_value(d.drop_last()) * 10 + ((d.last() as u32 - '0' as u32) as nat));
    } else {
        lemma_decimal_reads_back(n / 10);
        let p = decimal(n / 10);
        assert(d.drop_last() =~= p);
        assert(d[0] == p[0]);
        assert forall|k: int| 0 <= k < d.len() implies is_digit(#[trigger] d[k]) by {
            if k < p.len() {
                assert(d[k] == p[k]);
            }
        }
    }
    assert(unsigned_digits(d) == d);
}

} // verus!
