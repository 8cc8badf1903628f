//! Single-linkage clustering: items linked pairwise fall in one cluster
//! with everything they are linked to, directly or through other items.

use vstd::prelude::*;

verus! {

/// Items `a` and `b` are linked by a pair `(a, b)`, `a < b`, that comes
/// before `(pi, pj)` in row order.
pub open spec fn link_before(m: Seq<Seq<bool>>, pi: int, pj: int, a: int, b: int) -> bool {
    &&& 0 <= a < b < m.len()
    &&& m[a][b]
    &&& (a < pi || (a == pi && b < pj))
}

/// `a` and `b` are linked, either way round, by a pair before `(pi, pj)`.
pub open spec fn edge(m: Seq<Seq<bool>>, pi: int, pj: int, a: int, b: int) -> bool {
    link_before(m, pi, pj, a, b) || link_before(m, pi, pj, b, a)
}

/// The consecutive pairs of a path.
pub open spec fn steps(p: Seq<int>) -> Seq<(int, int)> {
    Seq::new((p.len() - 1) as nat, |t: int| (p[t], p[t + 1]))
}

/// `p` is a walk over the pairs before `(pi, pj)`: each item is linked to
/// the next.
pub open spec fn is_walk(m: Seq<Seq<bool>>, pi: int, pj: int, p: Seq<int>) -> bool {
    &&& p.len() >= 1
    &&& forall|t: int|
        0 <= t < p.len() - 1 ==> edge(m, pi, pj, (#[trigger] steps(p)[t]).0, steps(p)[t].1)
}

/// `x` reaches `y` over the pairs before `(pi, pj)`.
pub open spec fn reaches(m: Seq<Seq<bool>>, pi: int, pj: int, x: int, y: int) -> bool {
    exists|p: Seq<int>| #[trigger] is_walk(m, pi, pj, p) && p[0] == x && p.last() == y
}

/// `x` and `y` are connected through linked pairs of `m`.
pub open spec fn connected(m: Seq<Seq<bool>>, x: int, y: int) -> bool {
    reaches(m, m.len() as int, 0, x, y)
}

/// A matrix of flags, read row by row.
pub open spec fn flag_rows(m: Seq<Vec<bool>>) -> Seq<Seq<bool>> {
    m.map_values(|row: Vec<bool>| row@)
}

proof fn lemma_reaches_self(m: Seq<Seq<bool>>, pi: int, pj: int, x: int)
    ensures
        reaches(m, pi, pj, x, x),
{
    let p = seq![x];
    assert(is_walk(m, pi, pj, p));
}

proof fn lemma_reaches_mono(m: Seq<Seq<bool>>, pi: int, pj: int, qi: int, qj: int, x: int, y: int)
    requires
        reaches(m, pi, pj, x, y),
        pi < qi || (pi == qi && pj <= qj),
    ensures
        reaches(m, qi, qj, x, y),
{
    let p = choose|p: Seq<int>| #[trigger] is_walk(m, pi, pj, p) && p[0] == x && p.last() == y;
    assert forall|t: int| 0 <= t < p.len() - 1 implies edge(
        m,
        qi,
        qj,
        (#[trigger] steps(p)[t]).0,
        steps(p)[t].1,
    ) by {
        assert(edge(m, pi, pj, steps(p)[t].0, steps(p)[t].1));
    }
    assert(is_walk(m, qi, qj, p));
}

proof fn lemma_reaches_concat(m: Seq<Seq<bool>>, pi: int, pj: int, x: int, y: int, z: int)
    requires
        reaches(m, pi, pj, x, y),
        reaches(m, pi, pj, y, z),
    ensures
        reaches(m, pi, pj, x, z),
{
    let p = choose|p: Seq<int>| #[trigger] is_walk(m, pi, pj, p) && p[0] == x && p.last() == y;
    let q = choose|q: Seq<int>| #[trigger] is_walk(m, pi, pj, q) && q[0] == y && q.last() == z;
    let w = p + q.drop_first();
    assert forall|t: int| 0 <= t < w.len() - 1 implies edge(
        m,
        pi,
        pj,
        (#[trigger] steps(w)[t]).0,
        steps(w)[t].1,
    ) by {
        if t < p.len() - 1 {
            assert(steps(w)[t] == steps(p)[t]);
        } else {
            let u = t - (p.len() - 1);
            assert(steps(w)[t] == steps(q)[u]);
        }
    }
    assert(is_walk(m, pi, pj, w));
    if q.len() == 1 {
        assert(w.last() == p.last());
    } else {
        assert(w.last() == q.last());
    }
}

proof fn lemma_reaches_sym(m: Seq<Seq<bool>>, pi: int, pj: int, x: int, y: int)
    requires
        reaches(m, pi, pj, x, y),
    ensures
        reaches(m, pi, pj, y, x),
{
    let p = choose|p: Seq<int>| #[trigger] is_walk(m, pi, pj, p) && p[0] == x && p.last() == y;
    let r = p.reverse();
    assert forall|t: int| 0 <= t < r.len() - 1 implies edge(
        m,
        pi,
        pj,
        (#[trigger] steps(r)[t]).0,
        steps(r)[t].1,
    ) by {
        let u = p.len() - 2 - t;
        assert(steps(p)[u] == (p[u], p[u + 1]));
        assert(edge(m, pi, pj, steps(p)[u].0, steps(p)[u].1));
    }
    assert(is_walk(m, pi, pj, r));
}

proof fn lemma_reaches_edge(m: Seq<Seq<bool>>, pi: int, pj: int, a: int, b: int)
    requires
        edge(m, pi, pj, a, b),
    ensures
        reaches(m, pi, pj, a, b),
{
    let p = seq![a, b];
    assert(steps(p)[0] == (a, b));
    assert(is_walk(m, pi, pj, p));
}

/// Where every linked pair has its ends in one cluster, a walk stays in
/// one cluster.
proof fn lemma_walk_same(m: Seq<Seq<bool>>, pi: int, pj: int, c: Seq<usize>, p: Seq<int>, t: int)
    requires
        is_walk(m, pi, pj, p),
        0 <= t < p.len(),
        c.len() == m.len(),
        0 <= p[0] < c.len(),
        forall|a: int, b: int| #[trigger] link_before(m, pi, pj, a, b) ==> c[a] == c[b],
    ensures
        0 <= p[t] < c.len(),
        c[p[0]] == c[p[t]],
    decreases t,
{
    if t > 0 {
        lemma_walk_same(m, pi, pj, c, p, t - 1);
        assert(steps(p)[t - 1] == (p[t - 1], p[t]));
        assert(edge(m, pi, pj, p[t - 1], p[t]));
        if link_before(m, pi, pj, p[t - 1], p[t]) {
        } else {
            assert(link_before(m, pi, pj, p[t], p[t - 1]));
        }
    }
}

/// The cluster of every item: `linked[a][b]` for `a < b` links items `a`
/// and `b` (the rest of the matrix is not read).  Two items share a
/// cluster exactly when they are connected through linked pairs.
pub fn single_linkage(linked: &Vec<Vec<bool>>) -> (r: Vec<usize>)
    requires
        forall|i: int| 0 <= i < linked@.len() ==> (#[trigger] linked@[i])@.len() == linked@.len(),
    ensures
        r@.len() == linked@.len(),
        forall|x: int| 0 <= x < r@.len() ==> #[trigger] r@[x] < r@.len(),
        forall|x: int, y: int|
            0 <= x < r@.len() && 0 <= y < r@.len() ==> (#[trigger] r@[x] == #[trigger] r@[y]
                <==> connected(flag_rows(linked@), x, y)),
{
    let n = linked.len();
    let ghost m = flag_rows(linked@);
    let mut comp: Vec<usize> = Vec::new();
    let mut x: usize = 0;
    while x < n
        invariant
            x <= n,
            comp@.len() == x,
            forall|q: int| 0 <= q < x ==> #[trigger] comp@[q] == q,
        decreases n - x,
    {
        comp.push(x);
        x += 1;
    }
    proof {
        assert forall|a: int, b: int| #[trigger] link_before(m, 0, 0, a, b) implies comp@[a]
            == comp@[b] by {}
        assert forall|p: int, q: int|
            0 <= p < n && 0 <= q < n && #[trigger] comp@[p] == #[trigger] comp@[q] implies reaches(
            m,
            0,
            0,
            p,
            q,
        ) by {
            lemma_reaches_self(m, 0, 0, p);
        }
    }
    let mut i: usize = 0;
    while i < n
        invariant
            n == linked@.len(),
            m == flag_rows(linked@),
            forall|a: int| 0 <= a < n ==> (#[trigger] linked@[a])@.len() == n,
            i <= n,
            comp@.len() == n,
            forall|q: int| 0 <= q < n ==> #[trigger] comp@[q] < n,
            forall|a: int, b: int| #[trigger] link_before(m, i as int, 0, a, b) ==> comp@[a] == comp@[b],
            forall|p: int, q: int|
                0 <= p < n && 0 <= q < n && #[trigger] comp@[p] == #[trigger] comp@[q] ==> reaches(
                    m,
                    i as int,
                    0,
                    p,
                    q,
                ),
        decreases n - i,
    {
        let mut j: usize = i + 1;
        proof {
            assert forall|a: int, b: int| #[trigger] link_before(m, i as int, j as int, a, b) implies comp@[a]
                == comp@[b] by {
                assert(link_before(m, i as int, 0, a, b));
            }
            assert forall|p: int, q: int|
                0 <= p < n && 0 <= q < n && #[trigger] comp@[p] == #[trigger] comp@[q] implies reaches(
                m,
                i as int,
                j as int,
                p,
                q,
            ) by {
                lemma_reaches_mono(m, i as int, 0, i as int, j as int, p, q);
            }
        }
        while j < n
            invariant
                n == linked@.len(),
                m == flag_rows(linked@),
                forall|a: int| 0 <= a < n ==> (#[trigger] linked@[a])@.len() == n,
                i < n,
                i < j <= n,
                comp@.len() == n,
                forall|q: int| 0 <= q < n ==> #[trigger] comp@[q] < n,
                forall|a: int, b: int|
                    #[trigger] link_before(m, i as int, j as int, a, b) ==> comp@[a] == comp@[b],
                forall|p: int, q: int|
                    0 <= p < n && 0 <= q < n && #[trigger] comp@[p] == #[trigger] comp@[q] ==> reaches(
                        m,
                        i as int,
                        j as int,
                        p,
                        q,
                    ),
            decreases n - j,
        {
            let ghost before = comp@;
            assert(m[i as int][j as int] == linked@[i as int]@[j as int]);
            if linked[i][j] && comp[i] != comp[j] {
                let from = comp[j];
                let to = comp[i];
                let mut x: usize = 0;
                while x < n
                    invariant
                        n == before.len(),
                        comp@.len() == n,
                        x <= n,
                        to < n,
                        forall|q: int|
                            0 <= q < n ==> #[trigger] comp@[q] == if q < x && before[q] == from {
                                to
                            } else {
                                before[q]
                            },
                    decreases n - x,
                {
                    if comp[x] == from {
                        comp.set(x, to);
                    }
                    x += 1;
                }
                proof {
                    lemma_merge_step(m, i as int, j as int, before, comp@, from, to);
                }
            } else {
                proof {
                    assert forall|a: int, b: int|
                        #[trigger] link_before(m, i as int, j + 1, a, b) implies comp@[a] == comp@[b] by {
                        if !(a == i && b == j) {
                            assert(link_before(m, i as int, j as int, a, b));
                        }
                    }
                    assert forall|p: int, q: int|
                        0 <= p < n && 0 <= q < n && #[trigger] comp@[p] == #[trigger] comp@[q] implies reaches(
                        m,
                        i as int,
                        j + 1,
                        p,
                        q,
                    ) by {
                        lemma_reaches_mono(m, i as int, j as int, i as int, j + 1, p, q);
                    }
                }
            }
            j += 1;
        }
        proof {
            assert forall|a: int, b: int| #[trigger] link_before(m, i + 1, 0, a, b) implies comp@[a]
                == comp@[b] by {
                assert(link_before(m, i as int, j as int, a, b));
            }
            assert forall|p: int, q: int|
                0 <= p < n && 0 <= q < n && #[trigger] comp@[p] == #[trigger] comp@[q] implies reaches(
                m,
                i + 1,
                0,
                p,
                q,
            ) by {
                lemma_reaches_mono(m, i as int, j as int, i + 1, 0, p, q);
            }
        }
        i += 1;
    }
    proof {
        assert forall|p: int, q: int|
            0 <= p < n && 0 <= q < n && connected(m, p, q) implies #[trigger] comp@[p]
            == #[trigger] comp@[q] by {
            let w = choose|w: Seq<int>| #[trigger] is_walk(m, n as int, 0, w) && w[0] == p && w.last() == q;
            lemma_walk_same(m, n as int, 0, comp@, w, w.len() - 1);
        }
    }
    comp
}

/// Relabelling the cluster `from` as `to` after linking `(i, j)` keeps the
/// clusters exactly the connected groups.
proof fn lemma_merge_step(
    m: Seq<Seq<bool>>,
    i: int,
    j: int,
    before: Seq<usize>,
    after: Seq<usize>,
    from: usize,
    to: usize,
)
    requires
        0 <= i < j < m.len(),
        m[i][j],
        before.len() == m.len(),
        after.len() == m.len(),
        from == before[j],
        to == before[i],
        from != to,
        forall|q: int|
            0 <= q < m.len() ==> #[trigger] after[q] == if before[q] == from {
                to
            } else {
                before[q]
            },
        forall|a: int, b: int| #[trigger] link_before(m, i, j, a, b) ==> before[a] == before[b],
        forall|p: int, q: int|
            0 <= p < m.len() && 0 <= q < m.len() && #[trigger] before[p] == #[trigger] before[q]
                ==> reaches(m, i, j, p, q),
    ensures
        forall|a: int, b: int| #[trigger] link_before(m, i, j + 1, a, b) ==> after[a] == after[b],
        forall|p: int, q: int|
            0 <= p < m.len() && 0 <= q < m.len() && #[trigger] after[p] == #[trigger] after[q]
                ==> reaches(m, i, j + 1, p, q),
{
    assert forall|a: int, b: int| #[trigger] link_before(m, i, j + 1, a, b) implies after[a]
        == after[b] by {
        if !(a == i && b == j) {
            assert(link_before(m, i, j, a, b));
        }
    }
    assert(link_before(m, i, j + 1, i, j));
    lemma_reaches_edge(m, i, j + 1, i, j);
    lemma_reaches_sym(m, i, j + 1, i, j);
    assert forall|p: int, q: int|
        0 <= p < m.len() && 0 <= q < m.len() && #[trigger] after[p] == #[trigger] after[q] implies reaches(
        m,
        i,
        j + 1,
        p,
        q,
    ) by {
        let pf = before[p] == from;
        let qf = before[q] == from;
        if pf == qf {
            assert(before[p] == before[q]);
            lemma_reaches_mono(m, i, j, i, j + 1, p, q);
        } else if pf {
            assert(before[p] == before[j]);
            assert(before[i] == before[q]);
            lemma_reaches_mono(m, i, j, i, j + 1, p, j);
            lemma_reaches_mono(m, i, j, i, j + 1, i, q);
            lemma_reaches_concat(m, i, j + 1, p, j, i);
            lemma_reaches_concat(m, i, j + 1, p, i, q);
        } else {
            assert(before[p] == before[i]);
            assert(before[j] == before[q]);
            lemma_reaches_mono(m, i, j, i, j + 1, p, i);
            lemma_reaches_mono(m, i, j, i, j + 1, j, q);
            lemma_reaches_concat(m, i, j + 1, p, i, j);
            lemma_reaches_concat(m, i, j + 1, p, j, q);
        }
    }
}

} // verus!
