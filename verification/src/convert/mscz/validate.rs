//! Loss report of a MuseScore conversion.
//!
//! The report tallies features that the converter recognizes but does not
//! (yet) preserve.  It is deliberately shallow, a name and a count, so that
//! tests can assert that a specific element was surfaced without pinning
//! line numbers.
//!
//! The entries are held in ascending name order (names compared character
//! by character, by code point), each name once.

use vstd::prelude::*;

verus! {

/// Summary of features the converter observed but did not represent.
#[derive(Debug, Clone, PartialEq, Eq)]
pub struct LossReport {
    /// `(name, count)` in strictly ascending name order.
    counts: Vec<(String, u32)>,
}

impl Default for LossReport {
    /// An empty report.
    fn default() -> (r: Self)
        ensures
            r.wf(),
            r@ == Seq::<(Seq<char>, u32)>::empty(),
    {
        LossReport::new()
    }
}

/// `a` sorts strictly before `b`: lexicographic by code point, a proper
/// prefix first.
pub open spec fn name_lt(a: Seq<char>, b: Seq<char>) -> bool
    decreases a.len(),
{
    if a.len() == 0 {
        b.len() > 0
    } else if b.len() == 0 {
        false
    } else if a[0] != b[0] {
        (a[0] as int) < (b[0] as int)
    } else {
        name_lt(a.drop_first(), b.drop_first())
    }
}

/// Entries are in strictly ascending name order.
pub open spec fn entries_sorted(e: Seq<(Seq<char>, u32)>) -> bool {
    forall|i: int, j: int| 0 <= i < j < e.len() ==> name_lt(#[trigger] e[i].0, #[trigger] e[j].0)
}

/// Count recorded for `name` in the entries, 0 when absent.
pub open spec fn count_of(e: Seq<(Seq<char>, u32)>, name: Seq<char>) -> u32
    decreases e.len(),
{
    if e.len() == 0 {
        0
    } else if e.last().0 == name {
        e.last().1
    } else {
        count_of(e.drop_last(), name)
    }
}

/// Sum of all recorded counts.
pub open spec fn total_of(e: Seq<(Seq<char>, u32)>) -> int
    decreases e.len(),
{
    if e.len() == 0 {
        0
    } else {
        total_of(e.drop_last()) + e.last().1
    }
}

/// Every recorded count is at least one.
pub open spec fn counts_positive(e: Seq<(Seq<char>, u32)>) -> bool {
    forall|i: int| 0 <= i < e.len() ==> (#[trigger] e[i]).1 >= 1
}

/// The set of recorded names.
pub open spec fn name_set(e: Seq<(Seq<char>, u32)>) -> Set<Seq<char>> {
    Set::new(|n: Seq<char>| has_name(e, n))
}

/// Whether `name` is recorded.
pub open spec fn has_name(e: Seq<(Seq<char>, u32)>, name: Seq<char>) -> bool {
    exists|i: int| 0 <= i < e.len() && #[trigger] e[i].0 == name
}

proof fn lemma_name_lt_irreflexive(a: Seq<char>)
    ensures
        !name_lt(a, a),
    decreases a.len(),
{
    if a.len() > 0 {
        lemma_name_lt_irreflexive(a.drop_first());
    }
}

proof fn lemma_name_lt_asymmetric(a: Seq<char>, b: Seq<char>)
    requires
        name_lt(a, b),
    ensures
        !name_lt(b, a),
    decreases a.len(),
{
    if a.len() > 0 && b.len() > 0 && a[0] == b[0] {
        lemma_name_lt_asymmetric(a.drop_first(), b.drop_first());
    }
}

proof fn lemma_name_lt_transitive(a: Seq<char>, b: Seq<char>, c: Seq<char>)
    requires
        name_lt(a, b),
        name_lt(b, c),
    ensures
        name_lt(a, c),
    decreases a.len(),
{
    if a.len() > 0 && b.len() > 0 && c.len() > 0 && a[0] == b[0] && b[0] == c[0] {
        lemma_name_lt_transitive(a.drop_first(), b.drop_first(), c.drop_first());
    }
}

proof fn lemma_name_lt_total(a: Seq<char>, b: Seq<char>)
    ensures
        a == b || name_lt(a, b) || name_lt(b, a),
    decreases a.len(),
{
    if a.len() > 0 && b.len() > 0 && a[0] == b[0] {
        lemma_name_lt_total(a.drop_first(), b.drop_first());
        if a.drop_first() == b.drop_first() {
            assert(a =~= seq![a[0]] + a.drop_first());
            assert(b =~= seq![b[0]] + b.drop_first());
        }
    } else if a.len() == 0 && b.len() == 0 {
        assert(a =~= b);
    } else if a.len() > 0 && b.len() > 0 {
        assert(a[0] != b[0]);
    }
}

/// Where `b` stands relative to `a`.
enum NamePlace {
    Before,
    Same,
    After,
}

/// Compare two names by code point, character by character.
fn compare_names(a: &str, b: &str) -> (r: NamePlace)
    ensures
        r is Before <==> name_lt(a@, b@),
        r is Same <==> a@ == b@,
        r is After <==> name_lt(b@, a@),
{
    let la = a.unicode_len();
    let lb = b.unicode_len();
    let mut i: usize = 0;
    while i < la && i < lb
        invariant
            la == a@.len(),
            lb == b@.len(),
            i <= la,
            i <= lb,
            a@.subrange(0, i as int) == b@.subrange(0, i as int),
        decreases la - i,
    {
        let ca = a.get_char(i);
        let cb = b.get_char(i);
        if ca != cb {
            proof {
                lemma_name_lt_at(a@, b@, i as int);
                lemma_name_lt_at(b@, a@, i as int);
                if a@ == b@ {
                    assert(a@[i as int] == b@[i as int]);
                }
            }
            if (ca as u32) < (cb as u32) {
                return NamePlace::Before;
            } else {
                return NamePlace::After;
            }
        }
        assert(a@.subrange(0, i + 1) =~= a@.subrange(0, i as int).push(ca));
        assert(b@.subrange(0, i + 1) =~= b@.subrange(0, i as int).push(cb));
        i += 1;
    }
    proof {
        lemma_name_lt_at(a@, b@, i as int);
        lemma_name_lt_at(b@, a@, i as int);
        if la == lb {
            assert(a@ =~= a@.subrange(0, i as int));
            assert(b@ =~= b@.subrange(0, i as int));
        }
    }
    if la == lb {
        NamePlace::Same
    } else if la < lb {
        NamePlace::Before
    } else {
        NamePlace::After
    }
}

/// After a common prefix of length `i`, the comparison is decided by what
/// follows it.
proof fn lemma_name_lt_at(a: Seq<char>, b: Seq<char>, i: int)
    requires
        0 <= i <= a.len(),
        i <= b.len(),
        a.subrange(0, i) == b.subrange(0, i),
    ensures
        name_lt(a, b) == name_lt(a.skip(i), b.skip(i)),
    decreases i,
{
    if i > 0 {
        assert(a[0] == a.subrange(0, i)[0]);
        assert(b[0] == b.subrange(0, i)[0]);
        assert(a.drop_first().subrange(0, i - 1) =~= a.subrange(0, i).drop_first());
        assert(b.drop_first().subrange(0, i - 1) =~= b.subrange(0, i).drop_first());
        lemma_name_lt_at(a.drop_first(), b.drop_first(), i - 1);
        assert(a.drop_first().skip(i - 1) =~= a.skip(i));
        assert(b.drop_first().skip(i - 1) =~= b.skip(i));
    } else {
        assert(a.skip(0) =~= a);
        assert(b.skip(0) =~= b);
    }
}

impl View for LossReport {
    type V = Seq<(Seq<char>, u32)>;

    /// The entries, as `(name, count)` in ascending name order.
    closed spec fn view(&self) -> Seq<(Seq<char>, u32)> {
        self.counts@.map_values(|e: (String, u32)| (e.0@, e.1))
    }
}

impl LossReport {
    /// The report's invariant: names strictly ascending, each recorded at
    /// least once.
    pub open spec fn wf(&self) -> bool {
        entries_sorted(self@) && counts_positive(self@)
    }

    /// An empty report.
    pub fn new() -> (r: Self)
        ensures
            r.wf(),
            r@ == Seq::<(Seq<char>, u32)>::empty(),
    {
        let r = LossReport { counts: Vec::new() };
        assert(r@ =~= Seq::<(Seq<char>, u32)>::empty());
        r
    }

    /// Record one occurrence of a missing feature.
    ///
    /// A new name is inserted at its place in name order with count 1; a
    /// recorded name's count grows by one, saturating at `u32::MAX`.
    pub fn note(&mut self, name: &str)
        requires
            old(self).wf(),
        ensures
            final(self).wf(),
            has_name(final(self)@, name@),
            forall|other: Seq<char>|
                other != name@ ==> (has_name(final(self)@, other) == has_name(old(self)@, other)),
            forall|other: Seq<char>|
                other != name@ ==> count_of(final(self)@, other) == count_of(old(self)@, other),
            count_of(final(self)@, name@) == if has_name(old(self)@, name@) {
                if count_of(old(self)@, name@) == u32::MAX {
                    u32::MAX
                } else {
                    (count_of(old(self)@, name@) + 1) as u32
                }
            } else {
                1u32
            },
            final(self)@.len() == old(self)@.len() + if has_name(old(self)@, name@) {
                0int
            } else {
                1int
            },
            total_of(final(self)@) == total_of(old(self)@) + if has_name(old(self)@, name@)
                && count_of(old(self)@, name@) == u32::MAX {
                0int
            } else {
                1int
            },
            note_step(old(self)@, final(self)@, name@),
    {
        let ghost before = self@;
        let n = self.counts.len();
        let mut p: usize = 0;
        let mut past: bool = false;
        while p < n && !past
            invariant
                n == self.counts@.len(),
                p <= n,
                self@ == before,
                before == old(self)@,
                entries_sorted(before),
                counts_positive(before),
                forall|q: int| 0 <= q < p ==> name_lt(#[trigger] before[q].0, name@),
                past ==> p < n && name_lt(name@, before[p as int].0),
            decreases (n - p) * 2 + if past {
                0int
            } else {
                1int
            },
        {
            match compare_names(self.counts[p].0.as_str(), name) {
                NamePlace::Before => {
                    p += 1;
                },
                NamePlace::Same => {
                    let c = self.counts[p].1;
                    let nc = if c == u32::MAX {
                        c
                    } else {
                        c + 1
                    };
                    let s = self.counts[p].0.clone();
                    proof {
                        assert(before[p as int].0 == name@);
                        assert(has_name(before, name@));
                        lemma_unique_index(before, p as int);
                        lemma_sorted_distinct(before);
                        lemma_count_of_index(before, name@);
                    }
                    self.counts.set(p, (s, nc));
                    proof {
                        assert(self@ =~= before.update(p as int, (before[p as int].0, nc)));
                        lemma_update_count(before, p as int, nc);
                        lemma_total_update(before, p as int, (before[p as int].0, nc));
                        assert(count_of(before, name@) == before[p as int].1);
                        assert(before[p as int].1 >= 1);
                        assert(counts_positive(self@));
                        assert(has_name(self@, name@));
                        assert forall|other: Seq<char>| other != name@ implies (has_name(
                            self@,
                            other,
                        ) == has_name(before, other) && count_of(self@, other) == count_of(
                            before,
                            other,
                        )) by {
                            assert(has_name(before.update(p as int, (before[p as int].0, nc)), other)
                                == has_name(before, other));
                        }
                    }
                    return;
                },
                NamePlace::After => {
                    past = true;
                },
            }
        }
        // `name` is absent; it belongs at position `p`.
        proof {
            assert forall|q: int| p <= q < n implies name_lt(name@, #[trigger] before[q].0) by {
                assert(past);
                if q > p {
                    lemma_name_lt_transitive(name@, before[p as int].0, before[q].0);
                }
            }
            assert(!has_name(before, name@)) by {
                if has_name(before, name@) {
                    let q = choose|q: int| 0 <= q < before.len() && #[trigger] before[q].0 == name@;
                    lemma_name_lt_irreflexive(name@);
                }
            }
        }
        let owned = name.to_owned();
        self.counts.insert(p, (owned, 1));
        proof {
            assert(self@ =~= before.insert(p as int, (name@, 1u32)));
            lemma_insert_entry(before, p as int, name@);
            lemma_total_insert(before, p as int, (name@, 1u32));
            assert forall|i: int| 0 <= i < self@.len() implies (#[trigger] self@[i]).1 >= 1 by {
                if i > p {
                    assert(self@[i] == before[i - 1]);
                }
            }
        }
    }

    /// Number of distinct feature names recorded.
    pub fn distinct(&self) -> (r: usize)
        ensures
            r == self@.len(),
    {
        self.counts.len()
    }

    /// Total occurrences across all feature names.
    pub fn total(&self) -> (r: u32)
        requires
            total_of(self@) <= u32::MAX,
        ensures
            r == total_of(self@),
    {
        let mut sum: u32 = 0;
        let mut i: usize = 0;
        while i < self.counts.len()
            invariant
                i <= self@.len(),
                total_of(self@) <= u32::MAX,
                sum == total_of(self@.take(i as int)),
            decreases self@.len() - i,
        {
            proof {
                assert(self@.take(i + 1).drop_last() =~= self@.take(i as int));
                lemma_total_prefix(self@, i + 1);
            }
            sum = sum + self.counts[i].1;
            i += 1;
        }
        assert(self@.take(i as int) =~= self@);
        sum
    }

    /// The recorded `(name, count)` pairs, sorted by name.
    pub fn iter(&self) -> (r: Vec<(&str, u32)>)
        ensures
            r@.len() == self@.len(),
            forall|i: int|
                0 <= i < r@.len() ==> (#[trigger] r@[i]).0@ == self@[i].0 && r@[i].1 == self@[i].1,
    {
        let mut out: Vec<(&str, u32)> = Vec::new();
        let mut i: usize = 0;
        while i < self.counts.len()
            invariant
                i <= self@.len(),
                out@.len() == i,
                forall|q: int|
                    0 <= q < i ==> (#[trigger] out@[q]).0@ == self@[q].0 && out@[q].1 == self@[q].1,
            decreases self@.len() - i,
        {
            out.push((self.counts[i].0.as_str(), self.counts[i].1));
            i += 1;
        }
        out
    }

    /// The count recorded for `name`, or 0.
    pub fn get(&self, name: &str) -> (r: u32)
        requires
            self.wf(),
        ensures
            r == count_of(self@, name@),
    {
        let mut i: usize = self.counts.len();
        assert(self@.take(i as int) =~= self@);
        while i > 0
            invariant
                i <= self@.len(),
                count_of(self@, name@) == count_of(self@.take(i as int), name@),
            decreases i,
        {
            assert(self@.take(i as int).drop_last() =~= self@.take(i - 1));
            match compare_names(self.counts[i - 1].0.as_str(), name) {
                NamePlace::Same => {
                    return self.counts[i - 1].1;
                },
                _ => {},
            }
            i -= 1;
        }
        0
    }

    /// `true` when no features are recorded.
    pub fn is_empty(&self) -> (r: bool)
        ensures
            r == (self@.len() == 0),
    {
        self.counts.len() == 0
    }
}

/// `after` is `before` with one more occurrence of `name` recorded: the
/// name present, every other name's presence and count unchanged, and the
/// name's count one more (saturating), 1 when it was absent.
pub open spec fn note_step(
    before: Seq<(Seq<char>, u32)>,
    after: Seq<(Seq<char>, u32)>,
    name: Seq<char>,
) -> bool {
    &&& has_name(after, name)
    &&& forall|other: Seq<char>| other != name ==> (has_name(after, other) == has_name(before, other))
    &&& forall|other: Seq<char>| other != name ==> count_of(after, other) == count_of(before, other)
    &&& count_of(after, name) == if has_name(before, name) {
        if count_of(before, name) == u32::MAX {
            u32::MAX
        } else {
            (count_of(before, name) + 1) as u32
        }
    } else {
        1u32
    }
}

/// How often `name` occurs in `names`.
pub open spec fn occurrences(names: Seq<Seq<char>>, name: Seq<char>) -> nat
    decreases names.len(),
{
    if names.len() == 0 {
        0
    } else {
        occurrences(names.drop_last(), name) + if names.last() == name {
            1nat
        } else {
            0nat
        }
    }
}

/// The entries count every name of `names` as often as it occurs there,
/// and no other name.
pub open spec fn records(e: Seq<(Seq<char>, u32)>, names: Seq<Seq<char>>) -> bool {
    forall|n: Seq<char>| #[trigger] count_of(e, n) == occurrences(names, n)
}

/// `names` without any occurrence of `x`.
pub open spec fn without(names: Seq<Seq<char>>, x: Seq<char>) -> Seq<Seq<char>>
    decreases names.len(),
{
    if names.len() == 0 {
        Seq::empty()
    } else if names.last() == x {
        without(names.drop_last(), x)
    } else {
        without(names.drop_last(), x).push(names.last())
    }
}

proof fn lemma_without(names: Seq<Seq<char>>, x: Seq<char>, n: Seq<char>)
    ensures
        occurrences(without(names, x), n) == if n == x {
            0
        } else {
            occurrences(names, n)
        },
        without(names, x).len() + occurrences(names, x) == names.len(),
    decreases names.len(),
{
    if names.len() > 0 {
        lemma_without(names.drop_last(), x, n);
        if names.last() != x {
            assert(without(names, x).drop_last() =~= without(names.drop_last(), x));
        }
    }
}

proof fn lemma_occurrences_contains(names: Seq<Seq<char>>, n: Seq<char>)
    ensures
        occurrences(names, n) >= 1 <==> names.contains(n),
    decreases names.len(),
{
    if names.len() > 0 {
        lemma_occurrences_contains(names.drop_last(), n);
        if names.drop_last().contains(n) {
            let i = choose|i: int| 0 <= i < names.drop_last().len() && names.drop_last()[i] == n;
            assert(names[i] == n);
        }
        if names.contains(n) && names.last() != n {
            let i = choose|i: int| 0 <= i < names.len() && names[i] == n;
            assert(names.drop_last()[i] == n);
        }
        if names.last() == n {
            assert(names[names.len() - 1] == n);
        }
    }
}

proof fn lemma_total_of_records(e: Seq<(Seq<char>, u32)>, names: Seq<Seq<char>>)
    requires
        forall|i: int, j: int| 0 <= i < j < e.len() ==> #[trigger] e[i].0 != #[trigger] e[j].0,
        records(e, names),
    ensures
        total_of(e) == names.len(),
    decreases e.len(),
{
    if e.len() == 0 {
        if names.len() > 0 {
            assert(count_of(e, names.last()) == occurrences(names, names.last()));
        }
    } else {
        let l = e.last();
        let d = e.drop_last();
        let rest = without(names, l.0);
        assert forall|i: int, j: int| 0 <= i < j < d.len() implies #[trigger] d[i].0 != #[trigger] d[j].0 by {
            assert(d[i] == e[i] && d[j] == e[j]);
        }
        assert(!has_name(d, l.0)) by {
            if has_name(d, l.0) {
                let q = choose|q: int| 0 <= q < d.len() && #[trigger] d[q].0 == l.0;
                assert(e[q].0 == e[e.len() - 1].0);
            }
        }
        lemma_count_of_index(d, l.0);
        assert forall|n: Seq<char>| #[trigger] count_of(d, n) == occurrences(rest, n) by {
            lemma_without(names, l.0, n);
            assert(count_of(e, n) == occurrences(names, n));
        }
        lemma_total_of_records(d, rest);
        lemma_without(names, l.0, l.0);
        assert(count_of(e, l.0) == occurrences(names, l.0));
    }
}

/// Noting a name in a report that counts a list of names gives a report
/// that counts the list with that name appended, while the list is shorter
/// than `u32::MAX` (no count saturates).
pub proof fn lemma_note_extends_record(
    r: LossReport,
    after: LossReport,
    names: Seq<Seq<char>>,
    name: Seq<char>,
)
    requires
        r.wf(),
        records(r@, names),
        names.len() < u32::MAX,
        note_step(r@, after@, name),
    ensures
        records(after@, names.push(name)),
{
    lemma_count_zero_iff_absent(r, name);
    assert(names.push(name).drop_last() =~= names);
    assert(occurrences(names, name) <= names.len()) by {
        lemma_without(names, name, name);
    }
    assert forall|n: Seq<char>| #[trigger] count_of(after@, n) == occurrences(names.push(name), n) by {
        assert(count_of(r@, n) == occurrences(names, n));
    }
}

/// A well-formed report that counts a list of names holds one entry per
/// distinct name of the list, and its total is the list's length: noting
/// Slur, Dynamic, Slur, Dynamic, Dynamic, Tuplet gives three entries and a
/// total of six.
pub proof fn lemma_report_of_names(r: LossReport, names: Seq<Seq<char>>)
    requires
        r.wf(),
        records(r@, names),
    ensures
        r@.len() == names.to_set().len(),
        total_of(r@) == names.len(),
{
    lemma_distinct_is_name_count(r);
    assert(name_set(r@) =~= names.to_set()) by {
        assert forall|n: Seq<char>| name_set(r@).contains(n) == names.to_set().contains(n) by {
            lemma_count_zero_iff_absent(r, n);
            lemma_occurrences_contains(names, n);
            assert(count_of(r@, n) == occurrences(names, n));
        }
    }
    lemma_sorted_distinct(r@);
    lemma_total_of_records(r@, names);
}

/// A new report counts the empty list.
pub proof fn lemma_new_records_nothing(r: LossReport)
    requires
        r@ == Seq::<(Seq<char>, u32)>::empty(),
    ensures
        records(r@, Seq::<Seq<char>>::empty()),
{
    assert forall|n: Seq<char>| #[trigger] count_of(r@, n) == occurrences(Seq::<Seq<char>>::empty(), n) by {}
}

proof fn lemma_total_update(e: Seq<(Seq<char>, u32)>, p: int, x: (Seq<char>, u32))
    requires
        0 <= p < e.len(),
    ensures
        total_of(e.update(p, x)) == total_of(e) - e[p].1 + x.1,
    decreases e.len(),
{
    let u = e.update(p, x);
    if p == e.len() - 1 {
        assert(u.drop_last() =~= e.drop_last());
    } else {
        assert(u.drop_last() =~= e.drop_last().update(p, x));
        lemma_total_update(e.drop_last(), p, x);
    }
}

proof fn lemma_total_insert(e: Seq<(Seq<char>, u32)>, p: int, x: (Seq<char>, u32))
    requires
        0 <= p <= e.len(),
    ensures
        total_of(e.insert(p, x)) == total_of(e) + x.1,
    decreases e.len(),
{
    let u = e.insert(p, x);
    if p == e.len() {
        assert(u.drop_last() =~= e);
    } else {
        assert(u.drop_last() =~= e.drop_last().insert(p, x));
        lemma_total_insert(e.drop_last(), p, x);
    }
}

/// In a well-formed report, a name is recorded exactly when its count is
/// not zero.
pub proof fn lemma_count_zero_iff_absent(r: LossReport, name: Seq<char>)
    requires
        r.wf(),
    ensures
        has_name(r@, name) <==> count_of(r@, name) >= 1,
        !has_name(r@, name) <==> count_of(r@, name) == 0,
{
    lemma_sorted_distinct(r@);
    lemma_count_of_index(r@, name);
}

/// In a well-formed report, the number of entries is the number of distinct
/// names recorded.
pub proof fn lemma_distinct_is_name_count(r: LossReport)
    requires
        r.wf(),
    ensures
        name_set(r@).finite(),
        r@.len() == name_set(r@).len(),
{
    lemma_sorted_distinct(r@);
    lemma_name_set_len(r@);
}

proof fn lemma_name_set_len(e: Seq<(Seq<char>, u32)>)
    requires
        forall|i: int, j: int| 0 <= i < j < e.len() ==> #[trigger] e[i].0 != #[trigger] e[j].0,
    ensures
        name_set(e).finite(),
        e.len() == name_set(e).len(),
    decreases e.len(),
{
    if e.len() == 0 {
        assert(name_set(e) =~= Set::<Seq<char>>::empty());
    } else {
        let d = e.drop_last();
        assert forall|i: int, j: int| 0 <= i < j < d.len() implies #[trigger] d[i].0 != #[trigger] d[j].0 by {
            assert(d[i] == e[i] && d[j] == e[j]);
        }
        lemma_name_set_len(d);
        assert(name_set(e) =~= name_set(d).insert(e.last().0)) by {
            assert forall|n: Seq<char>| name_set(e).contains(n) implies name_set(d).insert(e.last().0).contains(n) by {
                let q = choose|q: int| 0 <= q < e.len() && #[trigger] e[q].0 == n;
                if q < e.len() - 1 {
                    assert(d[q].0 == n);
                }
            }
            assert forall|n: Seq<char>| name_set(d).insert(e.last().0).contains(n) implies name_set(e).contains(n) by {
                if n == e.last().0 {
                    assert(e[e.len() - 1].0 == n);
                } else {
                    let q = choose|q: int| 0 <= q < d.len() && #[trigger] d[q].0 == n;
                    assert(e[q].0 == n);
                }
            }
        }
        assert(!name_set(d).contains(e.last().0)) by {
            if name_set(d).contains(e.last().0) {
                let q = choose|q: int| 0 <= q < d.len() && #[trigger] d[q].0 == e.last().0;
                assert(e[q].0 == e[e.len() - 1].0);
            }
        }
    }
}

proof fn lemma_total_prefix(e: Seq<(Seq<char>, u32)>, n: int)
    requires
        0 <= n <= e.len(),
    ensures
        total_of(e.take(n)) <= total_of(e),
    decreases e.len(),
{
    if n < e.len() {
        assert(e.drop_last().take(n) =~= e.take(n));
        lemma_total_prefix(e.drop_last(), n);
    } else {
        assert(e.take(n) =~= e);
    }
}

/// In sorted entries, position `p` is the only one with its name.
proof fn lemma_unique_index(e: Seq<(Seq<char>, u32)>, p: int)
    requires
        entries_sorted(e),
        0 <= p < e.len(),
    ensures
        forall|q: int| 0 <= q < e.len() && q != p ==> #[trigger] e[q].0 != e[p].0,
{
    assert forall|q: int| 0 <= q < e.len() && q != p implies #[trigger] e[q].0 != e[p].0 by {
        if q < p {
            assert(name_lt(e[q].0, e[p].0));
        } else {
            assert(name_lt(e[p].0, e[q].0));
        }
        lemma_name_lt_irreflexive(e[p].0);
    }
}

proof fn lemma_count_of_index(e: Seq<(Seq<char>, u32)>, name: Seq<char>)
    requires
        forall|i: int, j: int| 0 <= i < j < e.len() ==> #[trigger] e[i].0 != #[trigger] e[j].0,
    ensures
        has_name(e, name) ==> exists|q: int|
            0 <= q < e.len() && #[trigger] e[q].0 == name && count_of(e, name) == e[q].1,
        !has_name(e, name) ==> count_of(e, name) == 0,
    decreases e.len(),
{
    if e.len() > 0 {
        let d = e.drop_last();
        lemma_count_of_index(d, name);
        if e.last().0 != name {
            if has_name(e, name) {
                let q = choose|q: int| 0 <= q < e.len() && #[trigger] e[q].0 == name;
                assert(d[q].0 == name);
                assert(has_name(d, name));
                let w = choose|w: int| 0 <= w < d.len() && #[trigger] d[w].0 == name && count_of(d, name) == d[w].1;
                assert(e[w].0 == name);
            } else {
                assert(!has_name(d, name)) by {
                    if has_name(d, name) {
                        let w = choose|w: int| 0 <= w < d.len() && #[trigger] d[w].0 == name;
                        assert(e[w].0 == name);
                    }
                }
            }
        } else {
            assert(e[e.len() - 1].0 == name);
        }
    }
}

proof fn lemma_sorted_distinct(e: Seq<(Seq<char>, u32)>)
    requires
        entries_sorted(e),
    ensures
        forall|i: int, j: int| 0 <= i < j < e.len() ==> #[trigger] e[i].0 != #[trigger] e[j].0,
{
    assert forall|i: int, j: int| 0 <= i < j < e.len() implies #[trigger] e[i].0 != #[trigger] e[j].0 by {
        assert(name_lt(e[i].0, e[j].0));
        lemma_name_lt_irreflexive(e[i].0);
    }
}

/// Updating the count at `p` changes that name's count only.
proof fn lemma_update_count(e: Seq<(Seq<char>, u32)>, p: int, c: u32)
    requires
        entries_sorted(e),
        0 <= p < e.len(),
    ensures
        entries_sorted(e.update(p, (e[p].0, c))),
        forall|other: Seq<char>| has_name(e.update(p, (e[p].0, c)), other) == has_name(e, other),
        forall|other: Seq<char>|
            other != e[p].0 ==> count_of(e.update(p, (e[p].0, c)), other) == count_of(e, other),
        count_of(e.update(p, (e[p].0, c)), e[p].0) == c,
{
    let u = e.update(p, (e[p].0, c));
    assert forall|i: int, j: int| 0 <= i < j < u.len() implies name_lt(
        #[trigger] u[i].0,
        #[trigger] u[j].0,
    ) by {
        assert(u[i].0 == e[i].0 && u[j].0 == e[j].0);
    }
    assert forall|other: Seq<char>| has_name(u, other) == has_name(e, other) by {
        if has_name(u, other) {
            let q = choose|q: int| 0 <= q < u.len() && #[trigger] u[q].0 == other;
            assert(e[q].0 == other);
        }
        if has_name(e, other) {
            let q = choose|q: int| 0 <= q < e.len() && #[trigger] e[q].0 == other;
            assert(u[q].0 == other);
        }
    }
    lemma_sorted_distinct(e);
    lemma_sorted_distinct(u);
    assert forall|other: Seq<char>| other != e[p].0 implies count_of(u, other) == count_of(
        e,
        other,
    ) by {
        lemma_count_of_index(u, other);
        lemma_count_of_index(e, other);
        if has_name(e, other) {
            let q1 = choose|q: int| 0 <= q < u.len() && #[trigger] u[q].0 == other && count_of(u, other) == u[q].1;
            let q2 = choose|q: int| 0 <= q < e.len() && #[trigger] e[q].0 == other && count_of(e, other) == e[q].1;
            assert(q1 != p);
            if q1 != q2 {
                assert(e[q1].0 == other);
            }
        }
    }
    lemma_count_of_index(u, e[p].0);
    assert(u[p].0 == e[p].0);
}

/// Inserting a new name at its place keeps the order and records count 1.
proof fn lemma_insert_entry(e: Seq<(Seq<char>, u32)>, p: int, name: Seq<char>)
    requires
        entries_sorted(e),
        0 <= p <= e.len(),
        forall|q: int| 0 <= q < p ==> name_lt(#[trigger] e[q].0, name),
        forall|q: int| p <= q < e.len() ==> name_lt(name, #[trigger] e[q].0),
        !has_name(e, name),
    ensures
        entries_sorted(e.insert(p, (name, 1u32))),
        has_name(e.insert(p, (name, 1u32)), name),
        forall|other: Seq<char>|
            other != name ==> has_name(e.insert(p, (name, 1u32)), other) == has_name(e, other),
        forall|other: Seq<char>|
            other != name ==> count_of(e.insert(p, (name, 1u32)), other) == count_of(e, other),
        count_of(e.insert(p, (name, 1u32)), name) == 1,
{
    let u = e.insert(p, (name, 1u32));
    assert forall|i: int, j: int| 0 <= i < j < u.len() implies name_lt(
        #[trigger] u[i].0,
        #[trigger] u[j].0,
    ) by {
        if j < p {
            assert(name_lt(e[i].0, e[j].0));
        } else if j == p {
            assert(name_lt(e[i].0, name));
        } else if i < p {
            assert(name_lt(e[i].0, e[j - 1].0));
        } else if i == p {
            assert(name_lt(name, e[j - 1].0));
        } else {
            assert(name_lt(e[i - 1].0, e[j - 1].0));
        }
    }
    assert(u[p].0 == name);
    assert forall|other: Seq<char>| other != name implies has_name(u, other) == has_name(
        e,
        other,
    ) by {
        if has_name(u, other) {
            let q = choose|q: int| 0 <= q < u.len() && #[trigger] u[q].0 == other;
            if q < p {
                assert(e[q].0 == other);
            } else {
                assert(e[q - 1].0 == other);
            }
        }
        if has_name(e, other) {
            let q = choose|q: int| 0 <= q < e.len() && #[trigger] e[q].0 == other;
            if q < p {
                assert(u[q].0 == other);
            } else {
                assert(u[q + 1].0 == other);
            }
        }
    }
    lemma_sorted_distinct(e);
    lemma_sorted_distinct(u);
    assert forall|other: Seq<char>| other != name implies count_of(u, other) == count_of(
        e,
        other,
    ) by {
        lemma_count_of_index(u, other);
        lemma_count_of_index(e, other);
        if has_name(e, other) {
            let q1 = choose|q: int| 0 <= q < u.len() && #[trigger] u[q].0 == other && count_of(u, other) == u[q].1;
            let q2 = choose|q: int| 0 <= q < e.len() && #[trigger] e[q].0 == other && count_of(e, other) == e[q].1;
            if q2 < p {
                assert(u[q2].0 == other);
            } else {
                assert(u[q2 + 1].0 == other);
            }
        }
    }
    lemma_count_of_index(u, name);
}

} // verus!
