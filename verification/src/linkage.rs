//! Single-link clustering: points belong together where a chain of short steps joins them.

use vstd::prelude::*;

verus! {

/// A table of distances: `d[i][j]` for points `i` and `j`. Distances are compared as whole numbers;
/// the bit pattern of a floating-point number that is not negative serves.
pub open spec fn is_square(d: Seq<Vec<u64>>, n: int) -> bool {
    d.len() == n && forall|i: int| 0 <= i < n ==> (#[trigger] d[i])@.len() == n
}

/// Whether two of the points are at most `t` apart; the table is read above its diagonal.
pub open spec fn linked(d: Seq<Vec<u64>>, t: u64, points: Seq<usize>, a: usize, b: usize) -> bool {
    &&& points.contains(a)
    &&& points.contains(b)
    &&& (a < b && d[a as int]@[b as int] <= t) || (b < a && d[b as int]@[a as int] <= t)
}

/// Whether `p` leads from `a` to `b` in steps between linked points.
pub open spec fn is_chain(
    d: Seq<Vec<u64>>,
    t: u64,
    points: Seq<usize>,
    p: Seq<usize>,
    a: usize,
    b: usize,
) -> bool {
    &&& p.len() > 0
    &&& p[0] == a
    &&& p.last() == b
    &&& points.contains(a)
    &&& forall|i: int| 0 <= i < p.len() - 1 ==> #[trigger] linked(d, t, points, p[i], p[i + 1])
}

/// Whether a chain leads from one point to another.
pub open spec fn connected(
    d: Seq<Vec<u64>>,
    t: u64,
    points: Seq<usize>,
    a: usize,
    b: usize,
) -> bool {
    exists|p: Seq<usize>| is_chain(d, t, points, p, a, b)
}

/// Whether the points stand in ascending order, each once.
pub open spec fn ascending(s: Seq<usize>) -> bool {
    forall|i: int, j: int| 0 <= i < j < s.len() ==> s[i] < s[j]
}

/// Where a point stands in a list of clusters.
pub open spec fn holds(clusters: Seq<Vec<usize>>, c: int, p: usize) -> bool {
    0 <= c < clusters.len() && clusters[c]@.contains(p)
}

/// Whether the clusters are the connected parts of the points: every point is in one, two points
/// are in the same one exactly where a chain joins them, and everything is in ascending order.
pub open spec fn are_components(
    clusters: Seq<Vec<usize>>,
    d: Seq<Vec<u64>>,
    t: u64,
    points: Seq<usize>,
) -> bool {
    &&& forall|c: int| 0 <= c < clusters.len() ==> (#[trigger] clusters[c])@.len() > 0
    &&& forall|c: int| 0 <= c < clusters.len() ==> ascending((#[trigger] clusters[c])@)
    &&& forall|c: int, e: int|
        0 <= c < e < clusters.len() ==> (#[trigger] clusters[c])@[0] < (#[trigger] clusters[e])@[0]
    &&& forall|p: usize| points.contains(p) <==> exists|c: int| #[trigger] holds(clusters, c, p)
    &&& forall|c: int, e: int, p: usize, q: usize|
        #[trigger] holds(clusters, c, p) && #[trigger] holds(clusters, e, q) ==> (c == e
            <==> connected(d, t, points, p, q))
}

proof fn lemma_chain_extends(
    d: Seq<Vec<u64>>,
    t: u64,
    points: Seq<usize>,
    a: usize,
    b: usize,
    c: usize,
)
    requires
        connected(d, t, points, a, b),
        linked(d, t, points, b, c),
    ensures
        connected(d, t, points, a, c),
{
    let p = choose|p: Seq<usize>| is_chain(d, t, points, p, a, b);
    let q = p.push(c);
    assert forall|i: int| 0 <= i < q.len() - 1 implies #[trigger] linked(
        d,
        t,
        points,
        q[i],
        q[i + 1],
    ) by {
        if i < p.len() - 1 {
            assert(linked(d, t, points, p[i], p[i + 1]));
        }
    }
    assert(is_chain(d, t, points, q, a, c));
}

proof fn lemma_connected_transitive(
    d: Seq<Vec<u64>>,
    t: u64,
    points: Seq<usize>,
    a: usize,
    b: usize,
    p: Seq<usize>,
    c: usize,
)
    requires
        connected(d, t, points, a, b),
        is_chain(d, t, points, p, b, c),
    ensures
        connected(d, t, points, a, c),
    decreases p.len(),
{
    if p.len() > 1 {
        let front = p.drop_last();
        let m = p[p.len() - 2];
        assert forall|i: int| 0 <= i < front.len() - 1 implies #[trigger] linked(
            d,
            t,
            points,
            front[i],
            front[i + 1],
        ) by {
            assert(linked(d, t, points, p[i], p[i + 1]));
        }
        assert(is_chain(d, t, points, front, b, m));
        lemma_connected_transitive(d, t, points, a, b, front, m);
        assert(linked(d, t, points, p[p.len() - 2], p[p.len() - 2 + 1]));
        lemma_chain_extends(d, t, points, a, m, c);
    }
}

proof fn lemma_connected_symmetric(
    d: Seq<Vec<u64>>,
    t: u64,
    points: Seq<usize>,
    a: usize,
    b: usize,
)
    requires
        connected(d, t, points, a, b),
    ensures
        connected(d, t, points, b, a),
{
    let p = choose|p: Seq<usize>| is_chain(d, t, points, p, a, b);
    let q = p.reverse();
    assert(points.contains(b)) by {
        if p.len() > 1 {
            assert(linked(d, t, points, p[p.len() - 2], p[p.len() - 2 + 1]));
        }
    }
    assert forall|i: int| 0 <= i < q.len() - 1 implies #[trigger] linked(
        d,
        t,
        points,
        q[i],
        q[i + 1],
    ) by {
        let j = p.len() - 2 - i;
        assert(linked(d, t, points, p[j], p[j + 1]));
    }
    assert(is_chain(d, t, points, q, b, a));
}

proof fn lemma_connected_self(d: Seq<Vec<u64>>, t: u64, points: Seq<usize>, a: usize)
    requires
        points.contains(a),
    ensures
        connected(d, t, points, a, a),
{
    assert(is_chain(d, t, points, seq![a], a, a));
}

/// Two points with labels that are shared along every link have the same label if a chain joins
/// them.
proof fn lemma_chain_keeps_label(
    d: Seq<Vec<u64>>,
    t: u64,
    points: Seq<usize>,
    label: Seq<usize>,
    p: Seq<usize>,
    a: usize,
    b: usize,
)
    requires
        forall|x: usize, y: usize|
            #[trigger] linked(d, t, points, x, y) ==> label[x as int] == label[y as int],
        is_chain(d, t, points, p, a, b),
    ensures
        label[a as int] == label[b as int],
    decreases p.len(),
{
    if p.len() > 1 {
        let front = p.drop_last();
        let m = p[p.len() - 2];
        assert forall|i: int| 0 <= i < front.len() - 1 implies #[trigger] linked(
            d,
            t,
            points,
            front[i],
            front[i + 1],
        ) by {
            assert(linked(d, t, points, p[i], p[i + 1]));
        }
        assert(is_chain(d, t, points, front, a, m));
        lemma_chain_keeps_label(d, t, points, label, front, a, m);
        assert(linked(d, t, points, p[p.len() - 2], p[p.len() - 2 + 1]));
    }
}

/// Whether labels are shared only by points that a chain joins.
spec fn labels_sound(d: Seq<Vec<u64>>, t: u64, points: Seq<usize>, label: Seq<usize>) -> bool {
    forall|x: usize, y: usize|
        #![trigger label[x as int], label[y as int]]
        points.contains(x) && points.contains(y) && label[x as int] == label[y as int]
            ==> connected(d, t, points, x, y)
}

/// Gives every point with the label of `a` the label of `b`.
fn merge(label: &mut Vec<usize>, a: usize, b: usize)
    requires
        a < old(label)@.len(),
        b < old(label)@.len(),
    ensures
        final(label)@.len() == old(label)@.len(),
        forall|x: int|
            0 <= x < old(label)@.len() ==> #[trigger] final(label)@[x] == (if old(label)@[x]
                == old(label)@[a as int] {
                old(label)@[b as int]
            } else {
                old(label)@[x]
            }),
{
    let from = label[a];
    let to = label[b];
    let ghost start = label@;
    let mut i: usize = 0;
    while i < label.len()
        invariant
            i <= label@.len() == start.len(),
            forall|x: int|
                0 <= x < i ==> #[trigger] label@[x] == (if start[x] == from {
                    to
                } else {
                    start[x]
                }),
            forall|x: int| i <= x < start.len() ==> #[trigger] label@[x] == start[x],
        decreases start.len() - i,
    {
        if label[i] == from {
            label.set(i, to);
        }
        i = i + 1;
    }
}

proof fn lemma_merge_sound(
    d: Seq<Vec<u64>>,
    t: u64,
    points: Seq<usize>,
    before: Seq<usize>,
    after: Seq<usize>,
    a: usize,
    b: usize,
)
    requires
        labels_sound(d, t, points, before),
        linked(d, t, points, a, b),
        forall|x: usize| #[trigger] points.contains(x) ==> (x as int) < before.len(),
        after.len() == before.len(),
        forall|x: int|
            0 <= x < before.len() ==> #[trigger] after[x] == (if before[x] == before[a as int] {
                before[b as int]
            } else {
                before[x]
            }),
    ensures
        labels_sound(d, t, points, after),
{
    assert forall|x: usize, y: usize|
        #![trigger after[x as int], after[y as int]]
        points.contains(x) && points.contains(y) && after[x as int]
            == after[y as int] implies connected(d, t, points, x, y) by {
        lemma_connected_self(d, t, points, x);
        let bx = before[x as int];
        let by = before[y as int];
        let la = before[a as int];
        let lb = before[b as int];
        if bx == by {
            assert(connected(d, t, points, x, y));
        } else if bx == la && by == lb {
            assert(connected(d, t, points, x, a));
            lemma_chain_extends(d, t, points, x, a, b);
            assert(connected(d, t, points, b, y));
            let p = choose|p: Seq<usize>| is_chain(d, t, points, p, b, y);
            lemma_connected_transitive(d, t, points, x, b, p, y);
        } else {
            assert(by == la && bx == lb);
            assert(connected(d, t, points, y, a));
            lemma_chain_extends(d, t, points, y, a, b);
            assert(connected(d, t, points, b, x));
            let p = choose|p: Seq<usize>| is_chain(d, t, points, p, b, x);
            lemma_connected_transitive(d, t, points, y, b, p, x);
            lemma_connected_symmetric(d, t, points, y, x);
        }
    }
}

/// Labels the points so that two have the same label exactly where a chain joins them.
fn label_points(d: &Vec<Vec<u64>>, t: u64, points: &Vec<usize>) -> (label: Vec<usize>)
    requires
        is_square(d@, d@.len() as int),
        ascending(points@),
        forall|i: int| 0 <= i < points@.len() ==> (#[trigger] points@[i] as int) < d@.len(),
    ensures
        label@.len() == d@.len(),
        labels_sound(d@, t, points@, label@),
        forall|x: usize, y: usize|
            #[trigger] linked(d@, t, points@, x, y) ==> label@[x as int] == label@[y as int],
{
    let mut label: Vec<usize> = Vec::new();
    let mut k: usize = 0;
    while k < d.len()
        invariant
            k <= d@.len(),
            label@.len() == k,
            forall|x: int| 0 <= x < k ==> #[trigger] label@[x] == x,
        decreases d@.len() - k,
    {
        label.push(k);
        k = k + 1;
    }
    proof {
        assert forall|x: usize, y: usize|
            #![trigger label@[x as int], label@[y as int]]
            points@.contains(x) && points@.contains(y) && label@[x as int]
                == label@[y as int] implies connected(d@, t, points@, x, y) by {
            lemma_connected_self(d@, t, points@, x);
        }
    }
    let mut i: usize = 0;
    while i < points.len()
        invariant
            is_square(d@, d@.len() as int),
            ascending(points@),
            forall|i: int| 0 <= i < points@.len() ==> (#[trigger] points@[i] as int) < d@.len(),
            i <= points@.len(),
            label@.len() == d@.len(),
            labels_sound(d@, t, points@, label@),
            forall|a: int, b: int|
                0 <= a < b < points@.len() && a < i && #[trigger] linked(
                    d@,
                    t,
                    points@,
                    points@[a],
                    points@[b],
                ) ==> label@[points@[a] as int] == label@[points@[b] as int],
        decreases points@.len() - i,
    {
        let mut j: usize = i + 1;
        while j < points.len()
            invariant
                is_square(d@, d@.len() as int),
                ascending(points@),
                forall|i: int| 0 <= i < points@.len() ==> (#[trigger] points@[i] as int) < d@.len(),
                i < j <= points@.len(),
                label@.len() == d@.len(),
                labels_sound(d@, t, points@, label@),
                forall|a: int, b: int|
                    0 <= a < b < points@.len() && (a < i || (a == i && b < j)) && #[trigger] linked(
                        d@,
                        t,
                        points@,
                        points@[a],
                        points@[b],
                    ) ==> label@[points@[a] as int] == label@[points@[b] as int],
            decreases points@.len() - j,
        {
            let p = points[i];
            let q = points[j];
            if d[p][q] <= t {
                let ghost before = label@;
                assert(points@.contains(p));
                assert(points@.contains(q));
                assert(linked(d@, t, points@, p, q));
                merge(&mut label, p, q);
                proof {
                    lemma_merge_sound(d@, t, points@, before, label@, p, q);
                }
            } else {
                assert(!linked(d@, t, points@, points@[i as int], points@[j as int]));
            }
            j = j + 1;
        }
        i = i + 1;
    }
    proof {
        assert forall|x: usize, y: usize| #[trigger]
            linked(d@, t, points@, x, y) implies label@[x as int] == label@[y as int] by {
            let a = choose|a: int| 0 <= a < points@.len() && points@[a] == x;
            let b = choose|b: int| 0 <= b < points@.len() && points@[b] == y;
            if a < b {
                assert(linked(d@, t, points@, points@[a], points@[b]));
            } else {
                assert(linked(d@, t, points@, points@[b], points@[a]));
            }
        }
    }
    label
}

/// The cluster whose first point has a label.
fn find_cluster(clusters: &Vec<Vec<usize>>, label: &Vec<usize>, wanted: usize) -> (r: Option<usize>)
    requires
        forall|c: int| 0 <= c < clusters@.len() ==> (#[trigger] clusters@[c])@.len() > 0,
        forall|c: int|
            0 <= c < clusters@.len() ==> ((#[trigger] clusters@[c])@[0] as int) < label@.len(),
    ensures
        match r {
            Some(c) => c < clusters@.len() && label@[clusters@[c as int]@[0] as int] == wanted,
            None => forall|c: int|
                0 <= c < clusters@.len() ==> label@[(#[trigger] clusters@[c])@[0] as int] != wanted,
        },
{
    let mut c: usize = 0;
    while c < clusters.len()
        invariant
            c <= clusters@.len(),
            forall|c: int| 0 <= c < clusters@.len() ==> (#[trigger] clusters@[c])@.len() > 0,
            forall|c: int|
                0 <= c < clusters@.len() ==> ((#[trigger] clusters@[c])@[0] as int) < label@.len(),
            forall|e: int|
                0 <= e < c ==> label@[(#[trigger] clusters@[e])@[0] as int] != wanted,
        decreases clusters@.len() - c,
    {
        if label[clusters[c][0]] == wanted {
            return Some(c);
        }
        c = c + 1;
    }
    None
}

/// Whether no cluster is empty and everything is in ascending order.
spec fn in_order(clusters: Seq<Vec<usize>>) -> bool {
    &&& forall|c: int| 0 <= c < clusters.len() ==> (#[trigger] clusters[c])@.len() > 0
    &&& forall|c: int| 0 <= c < clusters.len() ==> ascending((#[trigger] clusters[c])@)
    &&& forall|c: int, e: int|
        0 <= c < e < clusters.len() ==> (#[trigger] clusters[c])@[0] < (#[trigger] clusters[e])@[0]
}

/// Whether the clusters hold exactly these points.
spec fn hold_exactly(clusters: Seq<Vec<usize>>, seen: Seq<usize>) -> bool {
    forall|p: usize| seen.contains(p) <==> exists|c: int| #[trigger] holds(clusters, c, p)
}

/// Whether the points of a cluster have the label of its first, and no other cluster has that.
spec fn labelled(clusters: Seq<Vec<usize>>, label: Seq<usize>) -> bool {
    &&& forall|c: int, p: usize|
        #[trigger] holds(clusters, c, p) ==> label[p as int] == label[clusters[c]@[0] as int]
    &&& forall|c: int, e: int|
        0 <= c < e < clusters.len() ==> label[(#[trigger] clusters[c])@[0] as int]
            != label[(#[trigger] clusters[e])@[0] as int]
}

/// Whether the clusters gather the given points by label.
spec fn gathered(clusters: Seq<Vec<usize>>, label: Seq<usize>, seen: Seq<usize>) -> bool {
    in_order(clusters) && hold_exactly(clusters, seen) && labelled(clusters, label)
}

/// The connected parts of the points, each in ascending order and sorted by their first points.
pub fn clusters_among(d: &Vec<Vec<u64>>, t: u64, points: &Vec<usize>) -> (r: Vec<Vec<usize>>)
    requires
        is_square(d@, d@.len() as int),
        ascending(points@),
        forall|i: int| 0 <= i < points@.len() ==> (#[trigger] points@[i] as int) < d@.len(),
    ensures
        are_components(r@, d@, t, points@),
{
    let label = label_points(d, t, points);
    let mut clusters: Vec<Vec<usize>> = Vec::new();
    let mut i: usize = 0;
    while i < points.len()
        invariant
            ascending(points@),
            forall|i: int| 0 <= i < points@.len() ==> (#[trigger] points@[i] as int) < d@.len(),
            label@.len() == d@.len(),
            i <= points@.len(),
            gathered(clusters@, label@, points@.take(i as int)),
        decreases points@.len() - i,
    {
        let p = points[i];
        let ghost before = clusters@;
        let ghost was = points@.take(i as int);
        let ghost now = points@.take(i + 1);
        proof {
            assert(now =~= was.push(p));
            assert forall|c: int, x: usize| #[trigger] holds(before, c, x) implies x < p by {
                assert(was.contains(x));
                let m = choose|m: int| 0 <= m < was.len() && was[m] == x;
                assert(points@[m] == x);
            }
            assert forall|c: int| 0 <= c < before.len() implies ((#[trigger] before[c])@[0] as int)
                < label@.len() by {
                assert(before[c]@.contains(before[c]@[0]));
                assert(holds(before, c, before[c]@[0]));
            }
        }
        match find_cluster(&clusters, &label, label[p]) {
            Some(c) => {
                let mut cluster: Vec<usize> = clusters[c].clone();
                assert(cluster@ =~= before[c as int]@);
                cluster.push(p);
                clusters.set(c, cluster);
                proof {
                    assert(clusters@ =~= before.update(c as int, cluster));
                    assert(cluster@ =~= before[c as int]@.push(p));
                    lemma_gathered_into(before, clusters@, label@, was, p, c as int);
                }
            },
            None => {
                let mut cluster: Vec<usize> = Vec::new();
                cluster.push(p);
                clusters.push(cluster);
                proof {
                    assert(cluster@ =~= seq![p]);
                    lemma_gathered_apart(before, clusters@, label@, was, p, cluster);
                }
            },
        }
        i = i + 1;
    }
    proof {
        assert(points@.take(points@.len() as int) =~= points@);
        lemma_gathered_are_components(clusters@, d@, t, points@, label@);
    }
    clusters
}

proof fn lemma_gathered_into(
    before: Seq<Vec<usize>>,
    after: Seq<Vec<usize>>,
    label: Seq<usize>,
    was: Seq<usize>,
    p: usize,
    c: int,
)
    requires
        gathered(before, label, was),
        0 <= c < before.len(),
        after == before.update(c, after[c]),
        after[c]@ == before[c]@.push(p),
        label[before[c]@[0] as int] == label[p as int],
        forall|e: int, x: usize| #[trigger] holds(before, e, x) ==> x < p,
    ensures
        gathered(after, label, was.push(p)),
{
    let now = was.push(p);
    assert(forall|e: int| 0 <= e < after.len() && e != c ==> #[trigger] after[e] == before[e]);
    assert(after.len() == before.len());
    assert(forall|e: int| 0 <= e < after.len() ==> (#[trigger] after[e])@[0] == before[e]@[0]);
    assert(in_order(after)) by {
        let s = after[c]@;
        assert forall|i: int, j: int| 0 <= i < j < s.len() implies s[i] < s[j] by {
            assert(s[i] == before[c]@[i]);
            if j < before[c]@.len() {
                assert(s[j] == before[c]@[j]);
            } else {
                assert(before[c]@.contains(s[i]));
                assert(holds(before, c, s[i]));
            }
        }
    }
    assert forall|e: int, x: usize| #[trigger] holds(after, e, x) == (holds(before, e, x) || (e == c
        && x == p)) by {
        if e == c {
            let k = before[c]@.len() as int;
            assert(after[c]@[k] == p);
            if before[c]@.contains(x) {
                let m = choose|m: int| 0 <= m < before[c]@.len() && before[c]@[m] == x;
                assert(after[c]@[m] == x);
            }
            if after[c]@.contains(x) && x != p {
                let m = choose|m: int| 0 <= m < after[c]@.len() && after[c]@[m] == x;
                assert(before[c]@[m] == x);
            }
        }
    }
    lemma_held_with(before, after, was, p, c);
}

/// What the clusters hold once one of them holds a point more.
proof fn lemma_held_with(
    before: Seq<Vec<usize>>,
    after: Seq<Vec<usize>>,
    was: Seq<usize>,
    p: usize,
    c: int,
)
    requires
        hold_exactly(before, was),
        forall|e: int, x: usize|
            #[trigger] holds(after, e, x) == (holds(before, e, x) || (e == c && x == p)),
    ensures
        hold_exactly(after, was.push(p)),
{
    let now = was.push(p);
    assert forall|x: usize| now.contains(x) <==> exists|e: int| #[trigger] holds(after, e, x) by {
        if now.contains(x) {
            if x == p {
                assert(holds(after, c, p));
            } else {
                let m = choose|m: int| 0 <= m < now.len() && now[m] == x;
                assert(was[m] == x);
                assert(was.contains(x));
                let e = choose|e: int| #[trigger] holds(before, e, x);
                assert(holds(after, e, x));
            }
        }
        if exists|e: int| #[trigger] holds(after, e, x) {
            let e = choose|e: int| #[trigger] holds(after, e, x);
            if holds(before, e, x) {
                assert(was.contains(x));
                let m = choose|m: int| 0 <= m < was.len() && was[m] == x;
                assert(now[m] == x);
            } else {
                assert(now[was.len() as int] == p);
            }
        }
    }
}

proof fn lemma_gathered_apart(
    before: Seq<Vec<usize>>,
    after: Seq<Vec<usize>>,
    label: Seq<usize>,
    was: Seq<usize>,
    p: usize,
    cluster: Vec<usize>,
)
    requires
        gathered(before, label, was),
        after == before.push(cluster),
        cluster@ == seq![p],
        forall|e: int|
            0 <= e < before.len() ==> label[(#[trigger] before[e])@[0] as int] != label[p as int],
        forall|e: int, x: usize| #[trigger] holds(before, e, x) ==> x < p,
    ensures
        gathered(after, label, was.push(p)),
{
    let c = before.len() as int;
    assert(after[c]@ =~= seq![p]);
    assert(forall|e: int| 0 <= e < before.len() ==> #[trigger] after[e] == before[e]);
    assert forall|e: int| 0 <= e < before.len() implies (#[trigger] before[e])@[0] < p by {
        assert(before[e]@.contains(before[e]@[0]));
        assert(holds(before, e, before[e]@[0]));
    }
    assert forall|e: int, x: usize| #[trigger] holds(after, e, x) == (holds(before, e, x) || (e == c
        && x == p)) by {
        if e == c {
            assert(after[c]@[0] == p);
            if after[c]@.contains(x) {
                let m = choose|m: int| 0 <= m < after[c]@.len() && after[c]@[m] == x;
                assert(m == 0);
            }
        }
    }
    assert(in_order(after)) by {
        assert forall|a: int, b: int| 0 <= a < b < after.len() implies (#[trigger] after[a])@[0] < (
        #[trigger] after[b])@[0] by {
            assert(after[a] == before[a]);
            if b < c {
                assert(after[b] == before[b]);
            }
        }
    }
    assert(labelled(after, label)) by {
        assert forall|a: int, b: int| 0 <= a < b < after.len() implies label[(
        #[trigger] after[a])@[0] as int] != label[(#[trigger] after[b])@[0] as int] by {
            assert(after[a] == before[a]);
            if b < c {
                assert(after[b] == before[b]);
            }
        }
        assert forall|e: int, x: usize| #[trigger] holds(after, e, x) implies label[x as int]
            == label[after[e]@[0] as int] by {
            if e < c {
                assert(after[e] == before[e]);
                assert(holds(before, e, x));
            }
        }
    }
    lemma_held_with(before, after, was, p, c);
}

proof fn lemma_gathered_are_components(
    clusters: Seq<Vec<usize>>,
    d: Seq<Vec<u64>>,
    t: u64,
    points: Seq<usize>,
    label: Seq<usize>,
)
    requires
        gathered(clusters, label, points),
        labels_sound(d, t, points, label),
        forall|x: usize, y: usize|
            #[trigger] linked(d, t, points, x, y) ==> label[x as int] == label[y as int],
    ensures
        are_components(clusters, d, t, points),
{
    assert forall|c: int, e: int, p: usize, q: usize| #[trigger]
        holds(clusters, c, p) && #[trigger] holds(clusters, e, q) implies (c == e <==> connected(
        d,
        t,
        points,
        p,
        q,
    )) by {
        assert(points.contains(p));
        assert(points.contains(q));
        assert(label[p as int] == label[clusters[c]@[0] as int]);
        assert(label[q as int] == label[clusters[e]@[0] as int]);
        if connected(d, t, points, p, q) {
            let chain = choose|chain: Seq<usize>| is_chain(d, t, points, chain, p, q);
            lemma_chain_keeps_label(d, t, points, label, chain, p, q);
            if c < e {
                assert(label[clusters[c]@[0] as int] != label[clusters[e]@[0] as int]);
            }
            if e < c {
                assert(label[clusters[e]@[0] as int] != label[clusters[c]@[0] as int]);
            }
        }
    }
}

/// The connected parts of all the points of a table.
pub fn single_link_clusters(d: &Vec<Vec<u64>>, t: u64) -> (r: Vec<Vec<usize>>)
    requires
        is_square(d@, d@.len() as int),
    ensures
        are_components(r@, d@, t, all_points(d@.len())),
{
    let mut points: Vec<usize> = Vec::new();
    let mut i: usize = 0;
    while i < d.len()
        invariant
            i <= d@.len(),
            points@.len() == i,
            forall|j: int| 0 <= j < i ==> #[trigger] points@[j] == j,
        decreases d@.len() - i,
    {
        points.push(i);
        i = i + 1;
    }
    assert(points@ =~= all_points(d@.len()));
    clusters_among(d, t, &points)
}

/// The points from 0 up to `n`.
pub open spec fn all_points(n: nat) -> Seq<usize> {
    Seq::new(n, |i: int| i as usize)
}

} // verus!
