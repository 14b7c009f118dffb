//! Thinning a line: points that lie close to the line without them are left out.
//!
//! How far a point lies from the line between two others is told by a function that is handed in; it
//! gives bit patterns of non-negative floating-point numbers, which are ordered as the numbers are.

use vstd::prelude::*;

verus! {

/// How far the point `i` lies from the line from `a` to `b`.
pub open spec fn measured<D: Fn(usize, usize, usize) -> u64>(dist: D, a: int, b: int, i: int) -> u64 {
    choose|x: u64| #[trigger] call_ensures(dist, (a as usize, b as usize, i as usize), x)
}

/// Whether a distance can be asked for all points between two others, and has one answer each.
pub open spec fn is_distance<D: Fn(usize, usize, usize) -> u64>(dist: D, n: int) -> bool {
    &&& forall|a: usize, b: usize, i: usize|
        a < i < b < n ==> #[trigger] call_requires(dist, (a, b, i))
    &&& forall|a: usize, b: usize, i: usize, x: u64, y: u64| #[trigger]
        call_ensures(dist, (a, b, i), x) && #[trigger] call_ensures(dist, (a, b, i), y) ==> x == y
}

/// The first of the farthest points between `a` and `k` from the line from `a` to `b`; `a` where
/// there is no point between.
pub open spec fn farthest_before<D: Fn(usize, usize, usize) -> u64>(
    dist: D,
    a: int,
    b: int,
    k: int,
) -> int
    decreases k,
{
    if k <= a + 1 || k <= 0 {
        a
    } else {
        let p = farthest_before(dist, a, b, k - 1);
        if p == a || measured(dist, a, b, k - 1) > measured(dist, a, b, p) {
            k - 1
        } else {
            p
        }
    }
}

/// The point between two others at which the line between them has to bend: the farthest, where it
/// is farther than the tolerance.
pub open spec fn bend<D: Fn(usize, usize, usize) -> u64>(dist: D, tol: u64, a: int, b: int) -> Option<
    int,
> {
    let p = farthest_before(dist, a, b, b);
    if a < p < b && measured(dist, a, b, p) > tol {
        Some(p)
    } else {
        None
    }
}

/// Whether a point between two others is kept: the one at which the line bends, and what is kept
/// before and behind it.
pub open spec fn keeps<D: Fn(usize, usize, usize) -> u64>(
    dist: D,
    tol: u64,
    a: int,
    b: int,
    i: int,
) -> bool
    decreases b - a,
{
    match bend(dist, tol, a, b) {
        None => false,
        Some(p) => i == p || keeps(dist, tol, a, p, i) || keeps(dist, tol, p, b, i),
    }
}

/// Whether a line of `n` points keeps a point: an end, or one between that is needed.
pub open spec fn is_kept<D: Fn(usize, usize, usize) -> u64>(dist: D, tol: u64, n: int, i: int) -> bool {
    i == 0 || i == n - 1 || keeps(dist, tol, 0, n - 1, i)
}

proof fn lemma_farthest<D: Fn(usize, usize, usize) -> u64>(dist: D, a: int, b: int, k: int)
    requires
        0 <= a,
    ensures
        ({
            let p = farthest_before(dist, a, b, k);
            &&& k <= a + 1 ==> p == a
            &&& k > a + 1 ==> a < p < k
            &&& forall|i: int|
                a < i < k ==> #[trigger] measured(dist, a, b, i) <= measured(dist, a, b, p)
            &&& forall|i: int|
                a < i < p ==> #[trigger] measured(dist, a, b, i) < measured(dist, a, b, p)
        }),
    decreases k,
{
    if k > a + 1 {
        lemma_farthest(dist, a, b, k - 1);
    }
}

/// The point between two others at which the line between them has to bend.
fn find_bend<D: Fn(usize, usize, usize) -> u64>(n: usize, tol: u64, dist: &D, a: usize, b: usize) -> (r:
    Option<usize>)
    requires
        is_distance(*dist, n as int),
        a < b < n,
    ensures
        match r {
            Some(p) => bend(*dist, tol, a as int, b as int) == Some(p as int),
            None => bend(*dist, tol, a as int, b as int) is None,
        },
{
    let mut p: usize = a;
    let mut best: u64 = 0;
    let mut k: usize = a + 1;
    while k < b
        invariant
            is_distance(*dist, n as int),
            a < k <= b < n,
            a <= p < k,
            p == farthest_before(*dist, a as int, b as int, k as int),
            p > a ==> best == measured(*dist, a as int, b as int, p as int),
        decreases b - k,
    {
        let x = dist(a, b, k);
        proof {
            assert(call_ensures(*dist, (a, b, k), x));
            assert(measured(*dist, a as int, b as int, k as int) == x);
        }
        if p == a || x > best {
            p = k;
            best = x;
        }
        k = k + 1;
    }
    if p > a && best > tol {
        Some(p)
    } else {
        None
    }
}

/// How much is left to look at.
spec fn left(s: Seq<(usize, usize)>) -> nat
    decreases s.len(),
{
    if s.len() == 0 {
        0
    } else {
        left(s.drop_last()) + (if s.last().1 > s.last().0 {
            (2 * (s.last().1 - s.last().0) - 1) as nat
        } else {
            1
        })
    }
}

/// Whether a stretch that is still to be looked at keeps a point.
spec fn will_keep<D: Fn(usize, usize, usize) -> u64>(
    dist: D,
    tol: u64,
    s: Seq<(usize, usize)>,
    i: int,
) -> bool
    decreases s.len(),
{
    s.len() > 0 && (keeps(dist, tol, s.last().0 as int, s.last().1 as int, i) || will_keep(
        dist,
        tol,
        s.drop_last(),
        i,
    ))
}

/// Which of `n` points a line keeps when it is thinned to a tolerance; `dist` tells how far a point
/// lies from the line between two others, these first.
pub fn dp_simplify<D: Fn(usize, usize, usize) -> u64>(n: usize, tol: u64, dist: D) -> (keep: Vec<
    bool,
>)
    requires
        is_distance(dist, n as int),
    ensures
        keep@.len() == n,
        forall|i: int| 0 <= i < n ==> #[trigger] keep@[i] == is_kept(dist, tol, n as int, i),
{
    let mut keep: Vec<bool> = Vec::new();
    let mut i: usize = 0;
    while i < n
        invariant
            i <= n,
            keep@.len() == i,
            forall|k: int| 0 <= k < i ==> #[trigger] keep@[k] == (k == 0 || k == n - 1),
        decreases n - i,
    {
        keep.push(i == 0 || i == n - 1);
        i = i + 1;
    }
    if n == 0 {
        return keep;
    }
    let mut stack: Vec<(usize, usize)> = Vec::new();
    stack.push((0, n - 1));
    proof {
        assert(stack@.drop_last() =~= Seq::<(usize, usize)>::empty());
        assert forall|k: int| 0 <= k < n implies #[trigger] is_kept(dist, tol, n as int, k) == (
        keep@[k] || will_keep(dist, tol, stack@, k)) by {
            assert(!will_keep(dist, tol, stack@.drop_last(), k));
        }
    }
    while stack.len() > 0
        invariant
            is_distance(dist, n as int),
            keep@.len() == n,
            forall|k: int| 0 <= k < stack@.len() ==> (#[trigger] stack@[k]).1 < n,
            forall|k: int|
                0 <= k < n ==> #[trigger] is_kept(dist, tol, n as int, k) == (keep@[k] || will_keep(
                    dist,
                    tol,
                    stack@,
                    k,
                )),
        decreases left(stack@),
    {
        let ghost before = stack@;
        let ghost kept = keep@;
        let seg = stack[stack.len() - 1];
        stack.pop();
        let a = seg.0;
        let b = seg.1;
        let ghost rest = stack@;
        proof {
            assert(before.last() == (a, b));
            assert(rest =~= before.drop_last());
            assert(left(before) > left(rest));
        }
        if b > a && b - a > 1 {
            match find_bend(n, tol, &dist, a, b) {
                Some(p) => {
                    keep.set(p, true);
                    stack.push((a, p));
                    stack.push((p, b));
                    proof {
                        let one = rest.push((a, p));
                        assert(stack@ =~= one.push((p, b)));
                        assert(stack@.drop_last() =~= one);
                        assert(one.drop_last() =~= rest);
                        assert(stack@.last() == (p, b) && one.last() == (a, p));
                        assert(left(one) == left(rest) + 2 * (p - a) - 1);
                        assert(left(stack@) == left(one) + 2 * (b - p) - 1);
                        assert forall|k: int| 0 <= k < n implies #[trigger] is_kept(
                            dist,
                            tol,
                            n as int,
                            k,
                        ) == (keep@[k] || will_keep(dist, tol, stack@, k)) by {
                            assert(will_keep(dist, tol, one, k) == (keeps(
                                dist,
                                tol,
                                a as int,
                                p as int,
                                k,
                            ) || will_keep(dist, tol, rest, k)));
                        }
                    }
                },
                None => {},
            }
        } else {
            proof {
                assert(bend(dist, tol, a as int, b as int) is None);
            }
        }
    }
    keep
}

/// The ends of a line are kept.
pub proof fn law_ends_are_kept<D: Fn(usize, usize, usize) -> u64>(dist: D, tol: u64, n: int)
    requires
        n > 0,
    ensures
        is_kept(dist, tol, n, 0),
        is_kept(dist, tol, n, n - 1),
{
}

/// A line along which no point lies farther off than the tolerance keeps only its ends.
pub proof fn law_smooth_lines_keep_their_ends<D: Fn(usize, usize, usize) -> u64>(
    dist: D,
    tol: u64,
    n: int,
    i: int,
)
    requires
        forall|a: int, b: int, j: int|
            0 <= a < j < b < n ==> #[trigger] measured(dist, a, b, j) <= tol,
        0 < i < n - 1,
    ensures
        !is_kept(dist, tol, n, i),
{
}

proof fn lemma_left_out<D: Fn(usize, usize, usize) -> u64>(dist: D, tol: u64, a: int, b: int, i: int) -> (r:
    (int, int))
    requires
        0 <= a < i < b,
        !keeps(dist, tol, a, b, i),
    ensures
        a <= r.0 < i < r.1 <= b,
        r.0 == a || keeps(dist, tol, a, b, r.0),
        r.1 == b || keeps(dist, tol, a, b, r.1),
        measured(dist, r.0, r.1, i) <= tol,
    decreases b - a,
{
    lemma_farthest(dist, a, b, b);
    match bend(dist, tol, a, b) {
        None => (a, b),
        Some(p) => if i < p {
            lemma_left_out(dist, tol, a, p, i)
        } else {
            lemma_left_out(dist, tol, p, b, i)
        },
    }
}

/// Every point that is left out lies within the tolerance of a line between two points that are
/// kept, one before and one behind it.
pub proof fn law_left_out_points_are_near<D: Fn(usize, usize, usize) -> u64>(
    dist: D,
    tol: u64,
    n: int,
    i: int,
)
    requires
        0 <= i < n,
        !is_kept(dist, tol, n, i),
    ensures
        exists|a: int, b: int|
            0 <= a < i < b < n && is_kept(dist, tol, n, a) && is_kept(dist, tol, n, b)
                && #[trigger] measured(dist, a, b, i) <= tol,
{
    let (a, b) = lemma_left_out(dist, tol, 0, n - 1, i);
    assert(measured(dist, a, b, i) <= tol);
}

/// Between two points that are kept, a line bends exactly where some point lies farther off than is
/// allowed, and then at the first of the farthest.
pub proof fn law_lines_bend_at_the_farthest<D: Fn(usize, usize, usize) -> u64>(
    dist: D,
    tol: u64,
    a: int,
    b: int,
)
    requires
        0 <= a < b,
    ensures
        bend(dist, tol, a, b) is Some <==> exists|j: int|
            a < j < b && #[trigger] measured(dist, a, b, j) > tol,
        bend(dist, tol, a, b) matches Some(p) ==> {
            &&& a < p < b
            &&& measured(dist, a, b, p) > tol
            &&& forall|j: int|
                a < j < b ==> #[trigger] measured(dist, a, b, j) <= measured(dist, a, b, p)
            &&& forall|j: int|
                a < j < p ==> #[trigger] measured(dist, a, b, j) < measured(dist, a, b, p)
        },
{
    lemma_farthest(dist, a, b, b);
}

proof fn lemma_kept_lie_between<D: Fn(usize, usize, usize) -> u64>(
    dist: D,
    tol: u64,
    a: int,
    b: int,
    i: int,
)
    requires
        keeps(dist, tol, a, b, i),
    ensures
        a < i < b,
    decreases b - a,
{
    match bend(dist, tol, a, b) {
        Some(p) => {
            if i != p {
                if keeps(dist, tol, a, p, i) {
                    lemma_kept_lie_between(dist, tol, a, p, i);
                } else {
                    lemma_kept_lie_between(dist, tol, p, b, i);
                }
            }
        },
        None => {},
    }
}

/// Where a line bends, the point is kept and the two parts are treated as lines of their own; a line
/// that does not bend keeps nothing between its ends.
pub proof fn law_parts_are_lines_of_their_own<D: Fn(usize, usize, usize) -> u64>(
    dist: D,
    tol: u64,
    a: int,
    b: int,
    i: int,
)
    ensures
        bend(dist, tol, a, b) is None ==> !keeps(dist, tol, a, b, i),
        bend(dist, tol, a, b) matches Some(p) ==> {
            &&& keeps(dist, tol, a, b, p)
            &&& i < p ==> keeps(dist, tol, a, b, i) == keeps(dist, tol, a, p, i)
            &&& i > p ==> keeps(dist, tol, a, b, i) == keeps(dist, tol, p, b, i)
        },
        keeps(dist, tol, a, b, i) ==> a < i < b,
{
    match bend(dist, tol, a, b) {
        Some(p) => {
            if keeps(dist, tol, a, p, i) {
                lemma_kept_lie_between(dist, tol, a, p, i);
            }
            if keeps(dist, tol, p, b, i) {
                lemma_kept_lie_between(dist, tol, p, b, i);
            }
        },
        None => {},
    }
}

} // verus!
