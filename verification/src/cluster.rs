//! Grouping points of interest into regions: dense points form clusters, points near an anchor join
//! it and bring what is left of their cluster along, other clusters are regions of their own, and
//! scattered points are attached to the regions around them.

use vstd::prelude::*;

use crate::linkage;
use crate::order;
use crate::text;

verus! {

/// The bit pattern of 30.0, the distance in kilometres within which an anchor takes points in.
pub const ANCHOR_R: u64 = 0x403E_0000_0000_0000;

/// The bit pattern of 150.0, the distance in kilometres beyond which a point is far from a region.
pub const FAR_KM: u64 = 0x4062_C000_0000_0000;

/// The bit pattern of infinity: the distance to the nearest other point where there is none.
pub const NOWHERE: u64 = 0x7FF0_0000_0000_0000;

/// A point of interest; its coordinates are bit patterns of floating-point numbers, with one
/// pattern for zero.
pub struct Poi {
    pub name: String,
    pub lon: u64,
    pub lat: u64,
}

/// Whether two points are the same: name and place.
pub open spec fn twins(a: Poi, b: Poi) -> bool {
    a.name@ == b.name@ && a.lon == b.lon && a.lat == b.lat
}

/// The distance from a point to the nearest of the first `k` points that is not the same.
pub open spec fn nearest_among(pois: Seq<Poi>, d: Seq<Vec<u64>>, i: int, k: int) -> u64
    decreases k,
{
    if k <= 0 {
        NOWHERE
    } else {
        let before = nearest_among(pois, d, i, k - 1);
        if !twins(pois[i], pois[k - 1]) && d[i]@[k - 1] < before {
            d[i]@[k - 1]
        } else {
            before
        }
    }
}

/// The distance from a point to the nearest other.
pub open spec fn nearest(pois: Seq<Poi>, d: Seq<Vec<u64>>, i: int) -> u64 {
    nearest_among(pois, d, i, pois.len() as int)
}

fn are_twins(a: &Poi, b: &Poi) -> (r: bool)
    ensures
        r == twins(*a, *b),
{
    a.lon == b.lon && a.lat == b.lat && text::same(a.name.as_str(), b.name.as_str())
}

/// The distance from each point to the nearest other.
pub fn nearest_neighbor_dists(pois: &Vec<Poi>, d: &Vec<Vec<u64>>) -> (r: Vec<u64>)
    requires
        linkage::is_square(d@, pois@.len() as int),
    ensures
        r@.len() == pois@.len(),
        forall|i: int| 0 <= i < r@.len() ==> #[trigger] r@[i] == nearest(pois@, d@, i),
{
    let mut r: Vec<u64> = Vec::new();
    let mut i: usize = 0;
    while i < pois.len()
        invariant
            linkage::is_square(d@, pois@.len() as int),
            i <= pois@.len(),
            r@.len() == i,
            forall|j: int| 0 <= j < i ==> #[trigger] r@[j] == nearest(pois@, d@, j),
        decreases pois@.len() - i,
    {
        let mut best: u64 = NOWHERE;
        let mut k: usize = 0;
        while k < pois.len()
            invariant
                linkage::is_square(d@, pois@.len() as int),
                i < pois@.len(),
                k <= pois@.len(),
                best == nearest_among(pois@, d@, i as int, k as int),
            decreases pois@.len() - k,
        {
            if !are_twins(&pois[i], &pois[k]) && d[i][k] < best {
                best = d[i][k];
            }
            k = k + 1;
        }
        r.push(best);
        i = i + 1;
    }
    r
}

/// The middle one of the distances, or the middle two, in ascending order.
pub fn median_pair(dists: &Vec<u64>) -> (r: (u64, u64))
    requires
        dists@.len() >= 1,
    ensures
        r.0 == dists@[order::ordered(as_keys(dists@))[(dists@.len() - 1) / 2] as int],
        r.1 == dists@[order::ordered(as_keys(dists@))[dists@.len() as int / 2] as int],
{
    let mut keys: Vec<u128> = Vec::new();
    let mut i: usize = 0;
    while i < dists.len()
        invariant
            i <= dists@.len(),
            keys@ =~= as_keys(dists@).take(i as int),
        decreases dists@.len() - i,
    {
        keys.push(dists[i] as u128);
        i = i + 1;
    }
    assert(keys@ =~= as_keys(dists@));
    let o = order::stable_order(&keys);
    let n = dists.len();
    let low = o[(n - 1) / 2];
    let high = o[n / 2];
    assert(order::is_stable_order(as_keys(dists@), o@));
    (dists[low], dists[high])
}

pub open spec fn as_keys(s: Seq<u64>) -> Seq<u128> {
    s.map_values(|x: u64| x as u128)
}

// ---- Regions ----

/// The nearest of the first `k` anchors that takes a point in.
pub open spec fn taken_by(anchors: Seq<Vec<u64>>, p: int, k: int) -> Option<int>
    decreases k,
{
    if k <= 0 {
        None
    } else {
        match taken_by(anchors, p, k - 1) {
            Some(b) => if anchors[k - 1]@[p] <= ANCHOR_R && anchors[k - 1]@[p] < anchors[b]@[p] {
                Some(k - 1)
            } else {
                Some(b)
            },
            None => if anchors[k - 1]@[p] <= ANCHOR_R {
                Some(k - 1)
            } else {
                None
            },
        }
    }
}

/// The anchor that a point joins: the nearest within reach.
pub open spec fn anchor_of(anchors: Seq<Vec<u64>>, p: int) -> Option<int> {
    taken_by(anchors, p, anchors.len() as int)
}

/// A point joins the nearest anchor, one within reach; a point that joins none is out of the reach
/// of all.
pub proof fn law_anchor_is_the_nearest(anchors: Seq<Vec<u64>>, p: int, k: int)
    requires
        0 <= k,
    ensures
        match taken_by(anchors, p, k) {
            Some(a) => 0 <= a < k && anchors[a]@[p] <= ANCHOR_R && forall|b: int|
                0 <= b < k ==> anchors[a]@[p] <= (#[trigger] anchors[b])@[p],
            None => forall|b: int| 0 <= b < k ==> (#[trigger] anchors[b])@[p] > ANCHOR_R,
        },
    decreases k,
{
    if k > 0 {
        law_anchor_is_the_nearest(anchors, p, k - 1);
    }
}

/// The first `n` points that join an anchor.
pub open spec fn anchor_members(anchors: Seq<Vec<u64>>, a: int, n: int) -> Seq<usize>
    decreases n,
{
    if n <= 0 {
        Seq::empty()
    } else if anchor_of(anchors, n - 1) == Some(a) {
        anchor_members(anchors, a, n - 1).push((n - 1) as usize)
    } else {
        anchor_members(anchors, a, n - 1)
    }
}

/// The points of a cluster that join no anchor.
pub open spec fn free_members(anchors: Seq<Vec<u64>>, cluster: Seq<usize>) -> Seq<usize>
    decreases cluster.len(),
{
    if cluster.len() == 0 {
        Seq::empty()
    } else {
        let before = free_members(anchors, cluster.drop_last());
        if anchor_of(anchors, cluster.last() as int) is None {
            before.push(cluster.last())
        } else {
            before
        }
    }
}

/// How far a point is from the anchor that it joins.
pub open spec fn anchor_distance(anchors: Seq<Vec<u64>>, p: int) -> u64 {
    match anchor_of(anchors, p) {
        Some(a) => anchors[a]@[p],
        None => 0,
    }
}

/// The point of a cluster that is nearest to an anchor, of those that join one.
pub open spec fn entry_point(anchors: Seq<Vec<u64>>, cluster: Seq<usize>) -> Option<usize>
    decreases cluster.len(),
{
    if cluster.len() == 0 {
        None
    } else {
        let before = entry_point(anchors, cluster.drop_last());
        let p = cluster.last();
        if anchor_of(anchors, p as int) is None {
            before
        } else {
            match before {
                Some(q) => if anchor_distance(anchors, p as int) < anchor_distance(
                    anchors,
                    q as int,
                ) {
                    Some(p)
                } else {
                    Some(q)
                },
                None => Some(p),
            }
        }
    }
}

/// The anchor that a cluster joins: the one that is nearest to any of its points, within reach.
pub open spec fn cluster_anchor(anchors: Seq<Vec<u64>>, cluster: Seq<usize>) -> Option<int> {
    match entry_point(anchors, cluster) {
        Some(p) => anchor_of(anchors, p as int),
        None => None,
    }
}

/// The points that come to an anchor with the clusters that join it: those that join none alone.
pub open spec fn joined_members(anchors: Seq<Vec<u64>>, clusters: Seq<Vec<usize>>, a: int) -> Seq<
    usize,
>
    decreases clusters.len(),
{
    if clusters.len() == 0 {
        Seq::empty()
    } else {
        let before = joined_members(anchors, clusters.drop_last(), a);
        if cluster_anchor(anchors, clusters.last()@) == Some(a) {
            before + free_members(anchors, clusters.last()@)
        } else {
            before
        }
    }
}

/// A region: the anchor that it belongs to, if any, and its points.
pub struct RegionPlan {
    pub anchor: Option<usize>,
    pub members: Vec<usize>,
}

pub struct RegionModel {
    pub anchor: Option<usize>,
    pub members: Seq<usize>,
}

impl View for RegionPlan {
    type V = RegionModel;

    open spec fn view(&self) -> RegionModel {
        RegionModel { anchor: self.anchor, members: self.members@ }
    }
}

pub open spec fn region_models(regions: Seq<RegionPlan>) -> Seq<RegionModel> {
    regions.map_values(|r: RegionPlan| r@)
}

/// The regions of the first `k` anchors: the points that join an anchor, and what comes to it with
/// the clusters that join it.
pub open spec fn anchor_regions(
    anchors: Seq<Vec<u64>>,
    clusters: Seq<Vec<usize>>,
    n: int,
    k: int,
) -> Seq<RegionModel> {
    Seq::new(
        k as nat,
        |a: int|
            RegionModel {
                anchor: Some(a as usize),
                members: anchor_members(anchors, a, n) + joined_members(anchors, clusters, a),
            },
    )
}

/// The regions of the clusters that join no anchor.
pub open spec fn own_regions(anchors: Seq<Vec<u64>>, clusters: Seq<Vec<usize>>) -> Seq<RegionModel>
    decreases clusters.len(),
{
    if clusters.len() == 0 {
        Seq::empty()
    } else {
        let before = own_regions(anchors, clusters.drop_last());
        if cluster_anchor(anchors, clusters.last()@) is Some {
            before
        } else {
            before.push(RegionModel { anchor: None, members: clusters.last()@ })
        }
    }
}

/// The points whose nearest other is at most `t` away, of the first `n`.
pub open spec fn dense_points(near: Seq<u64>, t: u64, n: int) -> Seq<usize>
    decreases n,
{
    if n <= 0 {
        Seq::empty()
    } else if near[n - 1] <= t {
        dense_points(near, t, n - 1).push((n - 1) as usize)
    } else {
        dense_points(near, t, n - 1)
    }
}

/// The points of the first `n` that are neither dense nor join an anchor.
pub open spec fn scattered_points(
    near: Seq<u64>,
    t: u64,
    anchors: Seq<Vec<u64>>,
    n: int,
) -> Seq<usize>
    decreases n,
{
    if n <= 0 {
        Seq::empty()
    } else if near[n - 1] > t && anchor_of(anchors, n - 1) is None {
        scattered_points(near, t, anchors, n - 1).push((n - 1) as usize)
    } else {
        scattered_points(near, t, anchors, n - 1)
    }
}

proof fn lemma_dense(near: Seq<u64>, t: u64, n: int)
    requires
        0 <= n <= near.len(),
        near.len() <= usize::MAX,
    ensures
        linkage::ascending(dense_points(near, t, n)),
        forall|p: usize|
            #[trigger] dense_points(near, t, n).contains(p) <==> (p < n && near[p as int] <= t),
    decreases n,
{
    if n > 0 {
        lemma_dense(near, t, n - 1);
        let before = dense_points(near, t, n - 1);
        let now = dense_points(near, t, n);
        if near[n - 1] <= t {
            assert(now == before.push((n - 1) as usize));
            assert forall|i: int, j: int| 0 <= i < j < now.len() implies now[i] < now[j] by {
                if j == before.len() {
                    assert(before.contains(before[i]));
                } else {
                    assert(before[i] < before[j]);
                }
            }
            assert forall|p: usize| #[trigger] now.contains(p) <==> (p < n && near[p as int]
                <= t) by {
                if now.contains(p) {
                    let m = choose|m: int| 0 <= m < now.len() && now[m] == p;
                    if m < before.len() {
                        assert(before[m] == p);
                        assert(before.contains(p));
                    }
                }
                if p < n && near[p as int] <= t {
                    if p < n - 1 {
                        assert(before.contains(p));
                        let m = choose|m: int| 0 <= m < before.len() && before[m] == p;
                        assert(now[m] == p);
                    } else {
                        assert(now[before.len() as int] == p);
                    }
                }
            }
        } else {
            assert forall|p: usize| #[trigger] now.contains(p) <==> (p < n && near[p as int]
                <= t) by {
                assert(before.contains(p) <==> (p < n - 1 && near[p as int] <= t));
            }
        }
    }
}

/// The dense points.
fn find_dense(near: &Vec<u64>, t: u64) -> (r: Vec<usize>)
    ensures
        r@ == dense_points(near@, t, near@.len() as int),
{
    let mut r: Vec<usize> = Vec::new();
    let mut i: usize = 0;
    while i < near.len()
        invariant
            i <= near@.len(),
            r@ == dense_points(near@, t, i as int),
        decreases near@.len() - i,
    {
        if near[i] <= t {
            r.push(i);
        }
        i = i + 1;
    }
    r
}

fn find_anchor(anchors: &Vec<Vec<u64>>, p: usize) -> (r: Option<usize>)
    requires
        forall|a: int| 0 <= a < anchors@.len() ==> p < (#[trigger] anchors@[a])@.len(),
    ensures
        match r {
            Some(a) => anchor_of(anchors@, p as int) == Some(a as int) && a < anchors@.len(),
            None => anchor_of(anchors@, p as int) is None,
        },
{
    let mut best: Option<usize> = None;
    let mut k: usize = 0;
    while k < anchors.len()
        invariant
            forall|a: int| 0 <= a < anchors@.len() ==> p < (#[trigger] anchors@[a])@.len(),
            k <= anchors@.len(),
            match best {
                Some(a) => taken_by(anchors@, p as int, k as int) == Some(a as int) && a < k,
                None => taken_by(anchors@, p as int, k as int) is None,
            },
        decreases anchors@.len() - k,
    {
        let here = anchors[k][p];
        match best {
            Some(b) => {
                if here <= ANCHOR_R && here < anchors[b][p] {
                    best = Some(k);
                }
            },
            None => {
                if here <= ANCHOR_R {
                    best = Some(k);
                }
            },
        }
        k = k + 1;
    }
    best
}

fn members_of_anchor(anchors: &Vec<Vec<u64>>, a: usize, n: usize) -> (r: Vec<usize>)
    requires
        forall|b: int| 0 <= b < anchors@.len() ==> n <= (#[trigger] anchors@[b])@.len(),
    ensures
        r@ == anchor_members(anchors@, a as int, n as int),
{
    let mut r: Vec<usize> = Vec::new();
    let mut p: usize = 0;
    while p < n
        invariant
            forall|b: int| 0 <= b < anchors@.len() ==> n <= (#[trigger] anchors@[b])@.len(),
            p <= n,
            r@ == anchor_members(anchors@, a as int, p as int),
        decreases n - p,
    {
        match find_anchor(anchors, p) {
            Some(b) => {
                if b == a {
                    r.push(p);
                }
            },
            None => {},
        }
        p = p + 1;
    }
    r
}

fn free_of(anchors: &Vec<Vec<u64>>, cluster: &Vec<usize>, n: usize) -> (r: Vec<usize>)
    requires
        forall|b: int| 0 <= b < anchors@.len() ==> n <= (#[trigger] anchors@[b])@.len(),
        forall|i: int| 0 <= i < cluster@.len() ==> #[trigger] cluster@[i] < n,
    ensures
        r@ == free_members(anchors@, cluster@),
{
    let mut r: Vec<usize> = Vec::new();
    let mut i: usize = 0;
    while i < cluster.len()
        invariant
            forall|b: int| 0 <= b < anchors@.len() ==> n <= (#[trigger] anchors@[b])@.len(),
            forall|i: int| 0 <= i < cluster@.len() ==> #[trigger] cluster@[i] < n,
            i <= cluster@.len(),
            r@ == free_members(anchors@, cluster@.take(i as int)),
        decreases cluster@.len() - i,
    {
        let p = cluster[i];
        proof {
            assert(cluster@.take(i + 1).drop_last() == cluster@.take(i as int));
            assert(cluster@.take(i + 1).last() == p);
        }
        if find_anchor(anchors, p).is_none() {
            r.push(p);
        }
        i = i + 1;
    }
    assert(cluster@.take(cluster@.len() as int) == cluster@);
    r
}

/// The anchor that a cluster joins.
fn find_cluster_anchor(anchors: &Vec<Vec<u64>>, cluster: &Vec<usize>, n: usize) -> (r: Option<usize>)
    requires
        forall|b: int| 0 <= b < anchors@.len() ==> n <= (#[trigger] anchors@[b])@.len(),
        forall|i: int| 0 <= i < cluster@.len() ==> #[trigger] cluster@[i] < n,
    ensures
        match r {
            Some(a) => cluster_anchor(anchors@, cluster@) == Some(a as int) && a < anchors@.len(),
            None => cluster_anchor(anchors@, cluster@) is None,
        },
{
    let mut best: Option<(usize, usize)> = None;
    let mut i: usize = 0;
    while i < cluster.len()
        invariant
            forall|b: int| 0 <= b < anchors@.len() ==> n <= (#[trigger] anchors@[b])@.len(),
            forall|i: int| 0 <= i < cluster@.len() ==> #[trigger] cluster@[i] < n,
            i <= cluster@.len(),
            match best {
                Some((q, a)) => {
                    &&& entry_point(anchors@, cluster@.take(i as int)) == Some(q)
                    &&& anchor_of(anchors@, q as int) == Some(a as int)
                    &&& a < anchors@.len()
                    &&& q < n
                },
                None => entry_point(anchors@, cluster@.take(i as int)) is None,
            },
        decreases cluster@.len() - i,
    {
        let p = cluster[i];
        proof {
            assert(cluster@.take(i + 1).drop_last() == cluster@.take(i as int));
            assert(cluster@.take(i + 1).last() == p);
        }
        match find_anchor(anchors, p) {
            Some(a) => {
                match best {
                    Some((q, b)) => {
                        if anchors[a][p] < anchors[b][q] {
                            best = Some((p, a));
                        }
                    },
                    None => {
                        best = Some((p, a));
                    },
                }
            },
            None => {},
        }
        i = i + 1;
    }
    assert(cluster@.take(cluster@.len() as int) == cluster@);
    match best {
        Some((_, a)) => Some(a),
        None => None,
    }
}

/// Whether all points of clusters are among the first `n`.
spec fn are_points(clusters: Seq<Vec<usize>>, n: int) -> bool {
    forall|c: int, i: int|
        0 <= c < clusters.len() && 0 <= i < clusters[c]@.len() ==> #[trigger] clusters[c]@[i] < n
}

/// Whether anchors are those that clusters join.
spec fn are_joins(joins: Seq<Option<usize>>, anchors: Seq<Vec<u64>>, clusters: Seq<Vec<usize>>) -> bool {
    forall|c: int|
        0 <= c < joins.len() ==> match #[trigger] joins[c] {
            Some(a) => cluster_anchor(anchors, clusters[c]@) == Some(a as int),
            None => cluster_anchor(anchors, clusters[c]@) is None,
        }
}

/// The anchors that clusters join.
fn find_joins(anchors: &Vec<Vec<u64>>, clusters: &Vec<Vec<usize>>, n: usize) -> (joins: Vec<
    Option<usize>,
>)
    requires
        forall|b: int| 0 <= b < anchors@.len() ==> n <= (#[trigger] anchors@[b])@.len(),
        are_points(clusters@, n as int),
    ensures
        joins@.len() == clusters@.len(),
        are_joins(joins@, anchors@, clusters@),
{
    let mut joins: Vec<Option<usize>> = Vec::new();
    let mut c: usize = 0;
    while c < clusters.len()
        invariant
            forall|b: int| 0 <= b < anchors@.len() ==> n <= (#[trigger] anchors@[b])@.len(),
            are_points(clusters@, n as int),
            c <= clusters@.len(),
            joins@.len() == c,
            are_joins(joins@, anchors@, clusters@),
        decreases clusters@.len() - c,
    {
        let cluster = &clusters[c];
        assert forall|i: int| 0 <= i < cluster@.len() implies #[trigger] cluster@[i] < n by {
            assert(clusters@[c as int]@[i] < n);
        }
        joins.push(find_cluster_anchor(anchors, cluster, n));
        c = c + 1;
    }
    joins
}

/// The points that come to an anchor with clusters.
fn joined_to(
    anchors: &Vec<Vec<u64>>,
    clusters: &Vec<Vec<usize>>,
    joins: &Vec<Option<usize>>,
    a: usize,
    n: usize,
) -> (r: Vec<usize>)
    requires
        forall|b: int| 0 <= b < anchors@.len() ==> n <= (#[trigger] anchors@[b])@.len(),
        are_points(clusters@, n as int),
        joins@.len() == clusters@.len(),
        are_joins(joins@, anchors@, clusters@),
    ensures
        r@ == joined_members(anchors@, clusters@, a as int),
{
    let mut r: Vec<usize> = Vec::new();
    let mut c: usize = 0;
    while c < clusters.len()
        invariant
            forall|b: int| 0 <= b < anchors@.len() ==> n <= (#[trigger] anchors@[b])@.len(),
            are_points(clusters@, n as int),
            joins@.len() == clusters@.len(),
            are_joins(joins@, anchors@, clusters@),
            c <= clusters@.len(),
            r@ == joined_members(anchors@, clusters@.take(c as int), a as int),
        decreases clusters@.len() - c,
    {
        let cluster = &clusters[c];
        proof {
            assert(clusters@.take(c + 1).drop_last() == clusters@.take(c as int));
            assert(clusters@.take(c + 1).last() == *cluster);
        }
        let join = joins[c];
        assert(joins@[c as int] == join);
        match join {
            Some(b) => {
                if b == a {
                    assert forall|i: int| 0 <= i < cluster@.len() implies #[trigger] cluster@[i]
                        < n by {
                        assert(clusters@[c as int]@[i] < n);
                    }
                    let mut free = free_of(anchors, cluster, n);
                    r.append(&mut free);
                }
            },
            None => {},
        }
        c = c + 1;
    }
    assert(clusters@.take(clusters@.len() as int) == clusters@);
    r
}

fn copy_points(points: &Vec<usize>) -> (r: Vec<usize>)
    ensures
        r@ == points@,
{
    let mut r: Vec<usize> = Vec::new();
    let mut i: usize = 0;
    while i < points.len()
        invariant
            i <= points@.len(),
            r@ == points@.take(i as int),
        decreases points@.len() - i,
    {
        r.push(points[i]);
        assert(r@ =~= points@.take(i + 1));
        i = i + 1;
    }
    assert(points@.take(points@.len() as int) =~= points@);
    r
}

/// Where the points have gone.
pub struct Placement {
    pub regions: Vec<RegionPlan>,
    /// The points that are in no region.
    pub scattered: Vec<usize>,
    /// The clusters of the dense points, from which the regions without anchor are made.
    pub clusters: Vec<Vec<usize>>,
}

/// Whether a placement is the one that the distances call for.
pub open spec fn is_placement(
    out: Placement,
    pois: Seq<Poi>,
    d: Seq<Vec<u64>>,
    anchors: Seq<Vec<u64>>,
    t: u64,
) -> bool {
    let n = pois.len() as int;
    let near = Seq::new(pois.len(), |i: int| nearest(pois, d, i));
    &&& linkage::are_components(out.clusters@, d, t, dense_points(near, t, n))
    &&& region_models(out.regions@) == anchor_regions(
        anchors,
        out.clusters@,
        n,
        anchors.len() as int,
    ) + own_regions(anchors, out.clusters@)
    &&& out.scattered@ == scattered_points(near, t, anchors, n)
}

/// Places the points: those near an anchor with the nearest anchor, the other dense ones with the
/// clusters that they form at distance `t`, which join an anchor that is near to any of their points
/// and are regions of their own otherwise; the rest stay scattered.
pub fn run_cluster(
    pois: &Vec<Poi>,
    d: &Vec<Vec<u64>>,
    anchors: &Vec<Vec<u64>>,
    t: u64,
) -> (out: Placement)
    requires
        linkage::is_square(d@, pois@.len() as int),
        forall|a: int| 0 <= a < anchors@.len() ==> (#[trigger] anchors@[a])@.len() == pois@.len(),
    ensures
        is_placement(out, pois@, d@, anchors@, t),
        is_describable(out.regions@, out.scattered@, pois@, anchors@.len()),
{
    let n = pois.len();
    let near = nearest_neighbor_dists(pois, d);
    let ghost near_s = Seq::new(pois@.len(), |i: int| nearest(pois@, d@, i));
    assert(near@ =~= near_s);
    let dense = find_dense(&near, t);
    proof {
        lemma_dense(near@, t, n as int);
        assert forall|i: int| 0 <= i < dense@.len() implies (#[trigger] dense@[i] as int)
            < d@.len() by {
            assert(dense@.contains(dense@[i]));
        }
    }
    let clusters = linkage::clusters_among(d, t, &dense);
    proof {
        assert forall|c: int, i: int|
            0 <= c < clusters@.len() && 0 <= i < clusters@[c]@.len() implies #[trigger] clusters@[c]@[i]
            < n by {
            let p = clusters@[c]@[i];
            assert(clusters@[c]@.contains(p));
            assert(linkage::holds(clusters@, c, p));
            assert(dense@.contains(p));
        }
    }
    let joins = find_joins(anchors, &clusters, n);
    let mut regions: Vec<RegionPlan> = Vec::new();
    let mut a: usize = 0;
    assert(region_models(regions@) =~= anchor_regions(anchors@, clusters@, n as int, 0));
    while a < anchors.len()
        invariant
            n == pois@.len(),
            forall|b: int| 0 <= b < anchors@.len() ==> (#[trigger] anchors@[b])@.len()
                == pois@.len(),
            are_points(clusters@, n as int),
            joins@.len() == clusters@.len(),
            are_joins(joins@, anchors@, clusters@),
            a <= anchors@.len(),
            region_models(regions@) == anchor_regions(anchors@, clusters@, n as int, a as int),
        decreases anchors@.len() - a,
    {
        let mut members = members_of_anchor(anchors, a, n);
        let mut joined = joined_to(anchors, &clusters, &joins, a, n);
        members.append(&mut joined);
        let region = RegionPlan { anchor: Some(a), members };
        let ghost before = region_models(regions@);
        regions.push(region);
        proof {
            assert(region_models(regions@) =~= before.push(region@));
            assert(region_models(regions@) =~= anchor_regions(
                anchors@,
                clusters@,
                n as int,
                a + 1,
            ));
        }
        a = a + 1;
    }
    let ghost of_anchors = region_models(regions@);
    let mut c: usize = 0;
    assert(region_models(regions@) =~= of_anchors + own_regions(anchors@, clusters@.take(0)));
    while c < clusters.len()
        invariant
            joins@.len() == clusters@.len(),
            are_joins(joins@, anchors@, clusters@),
            c <= clusters@.len(),
            region_models(regions@) == of_anchors + own_regions(
                anchors@,
                clusters@.take(c as int),
            ),
        decreases clusters@.len() - c,
    {
        let cluster = &clusters[c];
        proof {
            assert(clusters@.take(c + 1).drop_last() == clusters@.take(c as int));
            assert(clusters@.take(c + 1).last() == *cluster);
            assert(joins@[c as int] is None == (cluster_anchor(anchors@, cluster@) is None));
        }
        if joins[c].is_none() {
            let region = RegionPlan { anchor: None, members: copy_points(cluster) };
            let ghost before = region_models(regions@);
            regions.push(region);
            proof {
                assert(region_models(regions@) =~= before.push(region@));
                assert(region_models(regions@) =~= of_anchors + own_regions(
                    anchors@,
                    clusters@.take(c + 1),
                ));
            }
        }
        c = c + 1;
    }
    assert(clusters@.take(clusters@.len() as int) == clusters@);
    let mut scattered: Vec<usize> = Vec::new();
    let mut p: usize = 0;
    while p < n
        invariant
            n == pois@.len(),
            near@.len() == n,
            forall|b: int| 0 <= b < anchors@.len() ==> (#[trigger] anchors@[b])@.len()
                == pois@.len(),
            p <= n,
            scattered@ == scattered_points(near@, t, anchors@, p as int),
        decreases n - p,
    {
        let free = find_anchor(anchors, p).is_none();
        if free && !(near[p] <= t) {
            scattered.push(p);
        }
        p = p + 1;
    }
    let out = Placement { regions, scattered, clusters };
    proof {
        assert(anchors@.len() == anchors.len());
        law_placement_is_describable(out, pois@, d@, anchors@, t);
    }
    out
}

// ---- Every point has one place ----

proof fn lemma_push_contains(before: Seq<usize>, x: usize)
    ensures
        forall|p: usize|
            #[trigger] before.push(x).contains(p) <==> (before.contains(p) || p == x),
{
    let now = before.push(x);
    assert forall|p: usize| #[trigger] now.contains(p) <==> (before.contains(p) || p == x) by {
        if before.contains(p) {
            let m = choose|m: int| 0 <= m < before.len() && before[m] == p;
            assert(now[m] == p);
        }
        if p == x {
            assert(now[before.len() as int] == x);
        }
        if now.contains(p) && p != x {
            let m = choose|m: int| 0 <= m < now.len() && now[m] == p;
            assert(before[m] == p);
        }
    }
}

proof fn lemma_push_ascending(before: Seq<usize>, x: usize)
    requires
        linkage::ascending(before),
        forall|p: usize| #[trigger] before.contains(p) ==> p < x,
    ensures
        linkage::ascending(before.push(x)),
{
    let now = before.push(x);
    assert forall|i: int, j: int| 0 <= i < j < now.len() implies now[i] < now[j] by {
        assert(before.contains(before[i]));
        if j < before.len() {
            assert(before[i] < before[j]);
        }
    }
}

proof fn lemma_anchor_members(anchors: Seq<Vec<u64>>, a: int, n: int)
    requires
        0 <= n <= usize::MAX,
    ensures
        linkage::ascending(anchor_members(anchors, a, n)),
        forall|p: usize|
            #[trigger] anchor_members(anchors, a, n).contains(p) <==> (p < n && anchor_of(
                anchors,
                p as int,
            ) == Some(a)),
    decreases n,
{
    if n > 0 {
        lemma_anchor_members(anchors, a, n - 1);
        let before = anchor_members(anchors, a, n - 1);
        lemma_push_contains(before, (n - 1) as usize);
        lemma_push_ascending(before, (n - 1) as usize);
        assert forall|p: usize| #[trigger] anchor_members(anchors, a, n).contains(p) <==> (p < n
            && anchor_of(anchors, p as int) == Some(a)) by {
            assert(before.contains(p) <==> (p < n - 1 && anchor_of(anchors, p as int) == Some(a)));
        }
    }
}

proof fn lemma_free_members(anchors: Seq<Vec<u64>>, cluster: Seq<usize>)
    requires
        linkage::ascending(cluster),
    ensures
        linkage::ascending(free_members(anchors, cluster)),
        forall|p: usize|
            #[trigger] free_members(anchors, cluster).contains(p) <==> (cluster.contains(p)
                && anchor_of(anchors, p as int) is None),
    decreases cluster.len(),
{
    if cluster.len() > 0 {
        let front = cluster.drop_last();
        let x = cluster.last();
        lemma_free_members(anchors, front);
        let before = free_members(anchors, front);
        lemma_push_contains(before, x);
        lemma_push_contains(front, x);
        assert(front.push(x) =~= cluster);
        assert forall|p: usize| #[trigger] before.contains(p) implies p < x by {
            assert(front.contains(p));
            let m = choose|m: int| 0 <= m < front.len() && front[m] == p;
            assert(cluster[m] < cluster[cluster.len() - 1]);
        }
        lemma_push_ascending(before, x);
        assert forall|p: usize| #[trigger] free_members(anchors, cluster).contains(p) <==> (
        cluster.contains(p) && anchor_of(anchors, p as int) is None) by {
            assert(before.contains(p) <==> (front.contains(p) && anchor_of(
                anchors,
                p as int,
            ) is None));
            assert(cluster.contains(p) <==> (front.contains(p) || p == x));
        }
    }
}

/// Where a point stands in a list of regions.
pub open spec fn in_region(regions: Seq<RegionModel>, r: int, p: usize) -> bool {
    0 <= r < regions.len() && regions[r].members.contains(p)
}

proof fn lemma_entry_point(anchors: Seq<Vec<u64>>, cluster: Seq<usize>)
    ensures
        match entry_point(anchors, cluster) {
            Some(m) => {
                &&& cluster.contains(m)
                &&& anchor_of(anchors, m as int) is Some
                &&& forall|p: usize| #[trigger]
                    cluster.contains(p) && anchor_of(anchors, p as int) is Some ==> anchor_distance(
                        anchors,
                        m as int,
                    ) <= anchor_distance(anchors, p as int)
            },
            None => forall|p: usize| #[trigger]
                cluster.contains(p) ==> anchor_of(anchors, p as int) is None,
        },
    decreases cluster.len(),
{
    if cluster.len() > 0 {
        let front = cluster.drop_last();
        lemma_entry_point(anchors, front);
        lemma_push_contains(front, cluster.last());
        assert(front.push(cluster.last()) =~= cluster);
    }
}

proof fn lemma_joins_are_anchors(anchors: Seq<Vec<u64>>, cluster: Seq<usize>)
    ensures
        cluster_anchor(anchors, cluster) matches Some(a) ==> 0 <= a < anchors.len(),
        cluster_anchor(anchors, cluster) is None ==> forall|p: usize| #[trigger]
            cluster.contains(p) ==> anchor_of(anchors, p as int) is None,
{
    lemma_entry_point(anchors, cluster);
    match entry_point(anchors, cluster) {
        Some(m) => {
            law_anchor_is_the_nearest(anchors, m as int, anchors.len() as int);
        },
        None => {},
    }
}

/// Whether the clusters before `k` bring a point to an anchor.
spec fn comes_with(
    anchors: Seq<Vec<u64>>,
    clusters: Seq<Vec<usize>>,
    k: int,
    a: int,
    c: int,
    p: usize,
) -> bool {
    &&& c < k
    &&& linkage::holds(clusters, c, p)
    &&& anchor_of(anchors, p as int) is None
    &&& cluster_anchor(anchors, clusters[c]@) == Some(a)
}

/// Whether clusters are ascending and have no point in common.
spec fn are_apart(clusters: Seq<Vec<usize>>) -> bool {
    &&& forall|c: int| 0 <= c < clusters.len() ==> linkage::ascending((#[trigger] clusters[c])@)
    &&& forall|c: int, e: int, p: usize|
        #[trigger] linkage::holds(clusters, c, p) && #[trigger] linkage::holds(clusters, e, p) ==> c
            == e
}

proof fn lemma_join_contains(a: Seq<usize>, b: Seq<usize>)
    ensures
        forall|p: usize| #[trigger] (a + b).contains(p) <==> (a.contains(p) || b.contains(p)),
        a.no_duplicates() && b.no_duplicates() && (forall|p: usize| #[trigger]
            a.contains(p) ==> !b.contains(p)) ==> (a + b).no_duplicates(),
{
    let s = a + b;
    assert forall|p: usize| #[trigger] s.contains(p) <==> (a.contains(p) || b.contains(p)) by {
        if a.contains(p) {
            let m = choose|m: int| 0 <= m < a.len() && a[m] == p;
            assert(s[m] == p);
        }
        if b.contains(p) {
            let m = choose|m: int| 0 <= m < b.len() && b[m] == p;
            assert(s[a.len() + m] == p);
        }
        if s.contains(p) {
            let m = choose|m: int| 0 <= m < s.len() && s[m] == p;
            if m < a.len() {
                assert(a[m] == p);
            } else {
                assert(b[m - a.len()] == p);
            }
        }
    }
    if a.no_duplicates() && b.no_duplicates() && (forall|p: usize| #[trigger]
        a.contains(p) ==> !b.contains(p)) {
        assert forall|i: int, j: int| 0 <= i < s.len() && 0 <= j < s.len() && i != j implies s[i]
            != s[j] by {
            if i < a.len() {
                assert(a.contains(a[i]));
            } else {
                assert(b.contains(b[i - a.len()]));
            }
            if j < a.len() {
                assert(a.contains(a[j]));
            } else {
                assert(b.contains(b[j - a.len()]));
            }
        }
    }
}

proof fn lemma_joined_members(anchors: Seq<Vec<u64>>, clusters: Seq<Vec<usize>>, k: int, a: int)
    requires
        0 <= k <= clusters.len(),
        are_apart(clusters),
    ensures
        joined_members(anchors, clusters.take(k), a).no_duplicates(),
        forall|p: usize| #[trigger]
            joined_members(anchors, clusters.take(k), a).contains(p) <==> exists|c: int| #[trigger]
                comes_with(anchors, clusters, k, a, c, p),
    decreases k,
{
    let now = joined_members(anchors, clusters.take(k), a);
    if k == 0 {
        assert forall|p: usize| #[trigger] now.contains(p) <==> exists|c: int| #[trigger]
            comes_with(anchors, clusters, k, a, c, p) by {
            assert(!now.contains(p));
        }
    } else {
        lemma_joined_members(anchors, clusters, k - 1, a);
        let before = joined_members(anchors, clusters.take(k - 1), a);
        assert(clusters.take(k).drop_last() =~= clusters.take(k - 1));
        assert(clusters.take(k).last() == clusters[k - 1]);
        let cluster = clusters[k - 1]@;
        let free = free_members(anchors, cluster);
        lemma_free_members(anchors, cluster);
        assert(free.no_duplicates());
        lemma_join_contains(before, free);
        assert forall|p: usize| #[trigger] before.contains(p) implies !free.contains(p) by {
            let c = choose|c: int| #[trigger] comes_with(anchors, clusters, k - 1, a, c, p);
            if free.contains(p) {
                assert(linkage::holds(clusters, c, p));
                assert(linkage::holds(clusters, k - 1, p));
            }
        }
        assert forall|p: usize| #[trigger] now.contains(p) <==> exists|c: int| #[trigger]
            comes_with(anchors, clusters, k, a, c, p) by {
            if before.contains(p) {
                let c = choose|c: int| #[trigger] comes_with(anchors, clusters, k - 1, a, c, p);
                assert(comes_with(anchors, clusters, k, a, c, p));
            }
            if cluster_anchor(anchors, cluster) == Some(a) && free.contains(p) {
                assert(comes_with(anchors, clusters, k, a, k - 1, p));
            }
            if exists|c: int| #[trigger] comes_with(anchors, clusters, k, a, c, p) {
                let c = choose|c: int| #[trigger] comes_with(anchors, clusters, k, a, c, p);
                if c < k - 1 {
                    assert(comes_with(anchors, clusters, k - 1, a, c, p));
                } else {
                    assert(free.contains(p));
                }
            }
        }
    }
}

proof fn lemma_own_regions(anchors: Seq<Vec<u64>>, clusters: Seq<Vec<usize>>, k: int)
    requires
        0 <= k <= clusters.len(),
        are_apart(clusters),
    ensures
        ({
            let own = own_regions(anchors, clusters.take(k));
            &&& forall|r: int|
                0 <= r < own.len() ==> linkage::ascending((#[trigger] own[r]).members)
            &&& forall|r: int, p: usize| #[trigger]
                in_region(own, r, p) ==> exists|c: int|
                    c < k && #[trigger] linkage::holds(clusters, c, p) && cluster_anchor(
                        anchors,
                        clusters[c]@,
                    ) is None
            &&& forall|c: int|
                0 <= c < k && cluster_anchor(anchors, (#[trigger] clusters[c])@) is None ==> exists|
                    r: int,
                |
                    0 <= r < own.len() && (#[trigger] own[r]).members == clusters[c]@
            &&& forall|r: int, s: int, p: usize| #[trigger]
                in_region(own, r, p) && #[trigger] in_region(own, s, p) ==> r == s
        }),
    decreases k,
{
    let own = own_regions(anchors, clusters.take(k));
    if k > 0 {
        lemma_own_regions(anchors, clusters, k - 1);
        let before = own_regions(anchors, clusters.take(k - 1));
        assert(clusters.take(k).drop_last() =~= clusters.take(k - 1));
        assert(clusters.take(k).last() == clusters[k - 1]);
        let cluster = clusters[k - 1]@;
        let m = before.len() as int;
        let is_own = cluster_anchor(anchors, cluster) is None;
        assert forall|r: int, p: usize| #[trigger] in_region(own, r, p) == (in_region(before, r, p) || (
        is_own && r == m && cluster.contains(p))) by {
            if 0 <= r < m {
                assert(own[r] == before[r]);
            }
        }
        assert forall|r: int, p: usize| #[trigger] in_region(own, r, p) implies exists|c: int|
            c < k && #[trigger] linkage::holds(clusters, c, p) && cluster_anchor(
                anchors,
                clusters[c]@,
            ) is None by {
            if in_region(before, r, p) {
                let c = choose|c: int|
                    c < k - 1 && #[trigger] linkage::holds(clusters, c, p) && cluster_anchor(
                        anchors,
                        clusters[c]@,
                    ) is None;
                assert(c < k && linkage::holds(clusters, c, p));
            } else {
                assert(linkage::holds(clusters, k - 1, p));
            }
        }
        assert forall|c: int|
            0 <= c < k && cluster_anchor(anchors, (#[trigger] clusters[c])@) is None implies exists|
            r: int,
        |
            0 <= r < own.len() && (#[trigger] own[r]).members == clusters[c]@ by {
            if c < k - 1 {
                let r = choose|r: int|
                    0 <= r < before.len() && (#[trigger] before[r]).members == clusters[c]@;
                assert(own[r] == before[r]);
            } else {
                assert(own[m].members == clusters[c]@);
            }
        }
        assert forall|r: int, s: int, p: usize| #[trigger]
            in_region(own, r, p) && #[trigger] in_region(own, s, p) implies r == s by {
            if in_region(before, r, p) != in_region(before, s, p) {
                let b = if in_region(before, r, p) {
                    r
                } else {
                    s
                };
                assert(in_region(before, b, p));
                let c = choose|c: int|
                    c < k - 1 && #[trigger] linkage::holds(clusters, c, p) && cluster_anchor(
                        anchors,
                        clusters[c]@,
                    ) is None;
                assert(linkage::holds(clusters, c, p));
                assert(linkage::holds(clusters, k - 1, p));
            }
        }
        assert forall|r: int| 0 <= r < own.len() implies linkage::ascending(
            (#[trigger] own[r]).members,
        ) by {
            if r < m {
                assert(own[r] == before[r]);
            }
        }
    }
}

proof fn lemma_scattered(near: Seq<u64>, t: u64, anchors: Seq<Vec<u64>>, n: int)
    requires
        0 <= n <= usize::MAX,
    ensures
        forall|p: usize|
            #[trigger] scattered_points(near, t, anchors, n).contains(p) <==> (p < n
                && near[p as int] > t && anchor_of(anchors, p as int) is None),
    decreases n,
{
    if n > 0 {
        lemma_scattered(near, t, anchors, n - 1);
        let before = scattered_points(near, t, anchors, n - 1);
        lemma_push_contains(before, (n - 1) as usize);
        assert forall|p: usize| #[trigger] scattered_points(near, t, anchors, n).contains(p) <==> (p
            < n && near[p as int] > t && anchor_of(anchors, p as int) is None) by {
            assert(before.contains(p) <==> (p < n - 1 && near[p as int] > t && anchor_of(
                anchors,
                p as int,
            ) is None));
        }
    }
}

/// What the region of an anchor holds.
proof fn lemma_anchor_region(
    anchors: Seq<Vec<u64>>,
    clusters: Seq<Vec<usize>>,
    n: int,
    a: int,
)
    requires
        0 <= n <= usize::MAX,
        are_apart(clusters),
    ensures
        ({
            let members = anchor_members(anchors, a, n) + joined_members(anchors, clusters, a);
            &&& members.no_duplicates()
            &&& forall|p: usize| #[trigger]
                members.contains(p) <==> ((p < n && anchor_of(anchors, p as int) == Some(a)) || exists|
                    c: int,
                | #[trigger] comes_with(anchors, clusters, clusters.len() as int, a, c, p))
        }),
{
    let alone = anchor_members(anchors, a, n);
    let joined = joined_members(anchors, clusters, a);
    assert(clusters.take(clusters.len() as int) =~= clusters);
    lemma_anchor_members(anchors, a, n);
    lemma_joined_members(anchors, clusters, clusters.len() as int, a);
    assert(alone.no_duplicates());
    lemma_join_contains(alone, joined);
    assert forall|p: usize| #[trigger] alone.contains(p) implies !joined.contains(p) by {
        if joined.contains(p) {
            let c = choose|c: int| #[trigger]
                comes_with(anchors, clusters, clusters.len() as int, a, c, p);
            assert(comes_with(anchors, clusters, clusters.len() as int, a, c, p));
        }
    }
}

/// Which region a point is in: that of the anchor that it joins, that of the anchor that its cluster
/// joins, or that of its cluster.
proof fn lemma_home(
    anchors: Seq<Vec<u64>>,
    clusters: Seq<Vec<usize>>,
    n: int,
    r: int,
    p: usize,
)
    requires
        0 <= n <= usize::MAX,
        are_apart(clusters),
    ensures
        ({
            let k = anchors.len() as int;
            let regions = anchor_regions(anchors, clusters, n, k) + own_regions(anchors, clusters);
            in_region(regions, r, p) ==> if r < k {
                anchor_of(anchors, p as int) == Some(r) || (anchor_of(anchors, p as int) is None
                    && exists|c: int| #[trigger]
                    linkage::holds(clusters, c, p) && cluster_anchor(anchors, clusters[c]@) == Some(r))
            } else {
                anchor_of(anchors, p as int) is None && in_region(
                    own_regions(anchors, clusters),
                    r - k,
                    p,
                ) && exists|c: int| #[trigger]
                    linkage::holds(clusters, c, p) && cluster_anchor(anchors, clusters[c]@) is None
            }
        }),
{
    let k = anchors.len() as int;
    let last = clusters.len() as int;
    let of_anchors = anchor_regions(anchors, clusters, n, k);
    let own = own_regions(anchors, clusters);
    let regions = of_anchors + own;
    if in_region(regions, r, p) {
        if r < k {
            assert(regions[r] == of_anchors[r]);
            lemma_anchor_region(anchors, clusters, n, r);
            if anchor_of(anchors, p as int) != Some(r) {
                let c = choose|c: int| #[trigger] comes_with(anchors, clusters, last, r, c, p);
                assert(linkage::holds(clusters, c, p));
            }
        } else {
            assert(regions[r] == own[r - k]);
            assert(in_region(own, r - k, p));
            assert(clusters.take(last) =~= clusters);
            lemma_own_regions(anchors, clusters, last);
            let c = choose|c: int|
                c < last && #[trigger] linkage::holds(clusters, c, p) && cluster_anchor(
                    anchors,
                    clusters[c]@,
                ) is None;
            assert(linkage::holds(clusters, c, p));
            lemma_joins_are_anchors(anchors, clusters[c]@);
        }
    }
}

/// Every point has one place: it is in exactly one region, once, or it is scattered.
pub proof fn law_every_point_has_one_place(
    out: Placement,
    pois: Seq<Poi>,
    d: Seq<Vec<u64>>,
    anchors: Seq<Vec<u64>>,
    t: u64,
)
    requires
        is_placement(out, pois, d, anchors, t),
        pois.len() <= usize::MAX,
        anchors.len() <= usize::MAX,
    ensures
        forall|p: usize|
            p < pois.len() ==> (#[trigger] out.scattered@.contains(p) <==> !exists|r: int|
                in_region(region_models(out.regions@), r, p)),
        forall|r: int, s: int, p: usize|
            #[trigger] in_region(region_models(out.regions@), r, p) && #[trigger] in_region(
                region_models(out.regions@),
                s,
                p,
            ) ==> r == s,
        forall|r: int|
            0 <= r < out.regions@.len() ==> (#[trigger] region_models(
                out.regions@,
            )[r]).members.no_duplicates(),
{
    let n = pois.len() as int;
    let k = anchors.len() as int;
    let near = Seq::new(pois.len(), |i: int| nearest(pois, d, i));
    let dense = dense_points(near, t, n);
    let clusters = out.clusters@;
    let last = clusters.len() as int;
    let regions = region_models(out.regions@);
    let of_anchors = anchor_regions(anchors, clusters, n, k);
    let own = own_regions(anchors, clusters);
    lemma_dense(near, t, n);
    lemma_scattered(near, t, anchors, n);
    assert(clusters.take(last) =~= clusters);
    assert(are_apart(clusters));
    lemma_own_regions(anchors, clusters, last);
    assert(regions == of_anchors + own);
    assert forall|a: int, p: usize| 0 <= a < k implies (#[trigger] in_region(of_anchors, a, p) == ((p
        < n && anchor_of(anchors, p as int) == Some(a)) || exists|c: int| #[trigger]
        comes_with(anchors, clusters, last, a, c, p))) by {
        lemma_anchor_region(anchors, clusters, n, a);
        assert(of_anchors[a].members == anchor_members(anchors, a, n) + joined_members(
            anchors,
            clusters,
            a,
        ));
    }
    assert forall|r: int, p: usize| #[trigger] in_region(regions, r, p) == (if r < k {
        in_region(of_anchors, r, p)
    } else {
        in_region(own, r - k, p)
    }) by {
        if 0 <= r < k {
            assert(regions[r] == of_anchors[r]);
        } else if k <= r < regions.len() {
            assert(regions[r] == own[r - k]);
        }
    }
    assert forall|p: usize| p < n implies (#[trigger] out.scattered@.contains(p) <==> !exists|r:
        int| in_region(regions, r, p)) by {
        law_anchor_is_the_nearest(anchors, p as int, k);
        match anchor_of(anchors, p as int) {
            Some(a) => {
                assert(in_region(of_anchors, a, p));
                assert(in_region(regions, a, p));
            },
            None => {
                if near[p as int] <= t {
                    assert(dense.contains(p));
                    let c = choose|c: int| #[trigger] linkage::holds(clusters, c, p);
                    assert(linkage::holds(clusters, c, p));
                    lemma_joins_are_anchors(anchors, clusters[c]@);
                    match cluster_anchor(anchors, clusters[c]@) {
                        Some(a) => {
                            assert(comes_with(anchors, clusters, last, a, c, p));
                            assert(in_region(of_anchors, a, p));
                            assert(in_region(regions, a, p));
                        },
                        None => {
                            let r = choose|r: int|
                                0 <= r < own.len() && (#[trigger] own[r]).members == clusters[c]@;
                            assert(in_region(own, r, p));
                            assert(in_region(regions, r + k, p));
                        },
                    }
                } else {
                    assert forall|r: int| !in_region(regions, r, p) by {
                        if in_region(regions, r, p) {
                            if r >= k {
                                assert(in_region(own, r - k, p));
                                let c = choose|c: int|
                                    c < last && #[trigger] linkage::holds(clusters, c, p)
                                        && cluster_anchor(anchors, clusters[c]@) is None;
                                assert(linkage::holds(clusters, c, p));
                                assert(dense.contains(p));
                            } else {
                                assert(in_region(of_anchors, r, p));
                                let c = choose|c: int| #[trigger]
                                    comes_with(anchors, clusters, last, r, c, p);
                                assert(linkage::holds(clusters, c, p));
                                assert(dense.contains(p));
                            }
                        }
                    }
                }
            },
        }
    }
    assert forall|r: int, s: int, p: usize| #[trigger]
        in_region(regions, r, p) && #[trigger] in_region(regions, s, p) implies r == s by {
        lemma_home(anchors, clusters, n, r, p);
        lemma_home(anchors, clusters, n, s, p);
        if r >= k && s >= k {
            assert(in_region(own, r - k, p));
            assert(in_region(own, s - k, p));
        }
    }
    assert forall|r: int| 0 <= r < out.regions@.len() implies (
    #[trigger] regions[r]).members.no_duplicates() by {
        if r < k {
            lemma_anchor_region(anchors, clusters, n, r);
            assert(regions[r] == of_anchors[r]);
        } else {
            assert(regions[r] == own[r - k]);
        }
    }
}

/// Whether a point of a cluster is within reach of an anchor, and no anchor is nearer to any point of
/// the cluster.
pub open spec fn is_nearest_pair(
    anchors: Seq<Vec<u64>>,
    cluster: Seq<usize>,
    a: int,
    m: usize,
) -> bool {
    &&& cluster.contains(m)
    &&& anchors[a]@[m as int] <= ANCHOR_R
    &&& forall|b: int, p: usize|
        0 <= b < anchors.len() && cluster.contains(p) ==> anchors[a]@[m as int]
            <= #[trigger] anchors[b]@[p as int]
}

/// A cluster with a point within reach of an anchor joins whole: each of its points is in the region
/// of an anchor, and those that are out of reach of every anchor are in the region of the anchor that
/// is nearest to any point of the cluster. Any other cluster is a region of its own.
pub proof fn law_clusters_join_the_nearest_anchor(
    out: Placement,
    pois: Seq<Poi>,
    d: Seq<Vec<u64>>,
    anchors: Seq<Vec<u64>>,
    t: u64,
    c: int,
)
    requires
        is_placement(out, pois, d, anchors, t),
        pois.len() <= usize::MAX,
        anchors.len() <= usize::MAX,
        0 <= c < out.clusters@.len(),
    ensures
        match cluster_anchor(anchors, out.clusters@[c]@) {
            Some(a) => {
                &&& 0 <= a < anchors.len()
                &&& exists|m: usize| #[trigger] is_nearest_pair(anchors, out.clusters@[c]@, a, m)
                &&& forall|p: usize| #[trigger]
                    out.clusters@[c]@.contains(p) ==> match anchor_of(anchors, p as int) {
                        Some(b) => 0 <= b < anchors.len() && in_region(
                            region_models(out.regions@),
                            b,
                            p,
                        ),
                        None => in_region(region_models(out.regions@), a, p),
                    }
            },
            None => {
                &&& forall|b: int, p: usize|
                    0 <= b < anchors.len() && out.clusters@[c]@.contains(p) ==> (
                    #[trigger] anchors[b]@[p as int]) > ANCHOR_R
                &&& exists|r: int|
                    anchors.len() <= r < out.regions@.len() && (#[trigger] region_models(
                        out.regions@,
                    )[r]).members == out.clusters@[c]@
            },
        },
{
    let n = pois.len() as int;
    let k = anchors.len() as int;
    let near = Seq::new(pois.len(), |i: int| nearest(pois, d, i));
    let clusters = out.clusters@;
    let last = clusters.len() as int;
    let cluster = clusters[c]@;
    let regions = region_models(out.regions@);
    let of_anchors = anchor_regions(anchors, clusters, n, k);
    let own = own_regions(anchors, clusters);
    lemma_dense(near, t, n);
    assert(are_apart(clusters));
    assert(regions == of_anchors + own);
    lemma_entry_point(anchors, cluster);
    lemma_joins_are_anchors(anchors, cluster);
    match cluster_anchor(anchors, cluster) {
        Some(a) => {
            let m = entry_point(anchors, cluster)->0;
            law_anchor_is_the_nearest(anchors, m as int, k);
            assert forall|b: int, p: usize|
                0 <= b < anchors.len() && cluster.contains(p) implies anchors[a]@[m as int]
                <= #[trigger] anchors[b]@[p as int] by {
                law_anchor_is_the_nearest(anchors, p as int, k);
            }
            assert(is_nearest_pair(anchors, cluster, a, m));
            assert forall|p: usize| #[trigger] cluster.contains(p) implies match anchor_of(
                anchors,
                p as int,
            ) {
                Some(b) => 0 <= b < anchors.len() && in_region(regions, b, p),
                None => in_region(regions, a, p),
            } by {
                law_anchor_is_the_nearest(anchors, p as int, k);
                assert(linkage::holds(clusters, c, p));
                let r = match anchor_of(anchors, p as int) {
                    Some(b) => b,
                    None => a,
                };
                lemma_anchor_region(anchors, clusters, n, r);
                assert(regions[r] == of_anchors[r]);
                if anchor_of(anchors, p as int) is None {
                    assert(comes_with(anchors, clusters, last, a, c, p));
                }
            }
        },
        None => {
            assert forall|b: int, p: usize| 0 <= b < anchors.len() && cluster.contains(p) implies (
            #[trigger] anchors[b]@[p as int]) > ANCHOR_R by {
                law_anchor_is_the_nearest(anchors, p as int, k);
            }
            assert(clusters.take(last) =~= clusters);
            lemma_own_regions(anchors, clusters, last);
            let r = choose|r: int| 0 <= r < own.len() && (#[trigger] own[r]).members == cluster;
            let s = r + k;
            assert(regions[s] == own[r]);
            assert(regions.len() == out.regions@.len());
        },
    }
}

// ---- Scattered points ----

/// A distance: as a number to compare, the largest distance that still counts as about as near,
/// and in whole kilometres as text.
pub struct Distance {
    pub key: u64,
    pub reach: u64,
    pub text: String,
}

pub open spec fn distance_keys(ds: Seq<Distance>) -> Seq<u128> {
    ds.map_values(|x: Distance| x.key as u128)
}

/// How many places at the front of an order lie within a reach.
pub open spec fn within_reach(ds: Seq<Distance>, o: Seq<usize>, reach: u64, from: int) -> int
    decreases o.len() - from,
{
    if from < 0 || from >= o.len() || ds[o[from] as int].key > reach {
        from
    } else {
        within_reach(ds, o, reach, from + 1)
    }
}

/// What becomes of a scattered point.
pub enum Attachment {
    /// It is attached to these regions, nearest first.
    Near(Vec<usize>),
    /// It is far from the nearest region.
    Far(usize),
    /// There is no region.
    Alone,
}

pub enum AttachmentModel {
    Near(Seq<usize>),
    Far(usize),
    Alone,
}

impl View for Attachment {
    type V = AttachmentModel;

    open spec fn view(&self) -> AttachmentModel {
        match *self {
            Attachment::Near(v) => AttachmentModel::Near(v@),
            Attachment::Far(r) => AttachmentModel::Far(r),
            Attachment::Alone => AttachmentModel::Alone,
        }
    }
}

/// What becomes of a point at the given distances from the regions: it is attached to the nearest
/// and to all that are about as near, nearest first, unless even the nearest is far.
pub open spec fn attachment(ds: Seq<Distance>) -> AttachmentModel {
    let o = order::ordered(distance_keys(ds));
    if ds.len() == 0 {
        AttachmentModel::Alone
    } else {
        let first = ds[o[0] as int];
        if first.key > FAR_KM {
            AttachmentModel::Far(o[0])
        } else {
            AttachmentModel::Near(o.take(within_reach(ds, o, first.reach, 0)))
        }
    }
}

proof fn lemma_within_reach(ds: Seq<Distance>, o: Seq<usize>, reach: u64, from: int)
    requires
        0 <= from <= o.len(),
    ensures
        from <= within_reach(ds, o, reach, from) <= o.len(),
        forall|i: int|
            from <= i < within_reach(ds, o, reach, from) ==> ds[#[trigger] o[i] as int].key
                <= reach,
    decreases o.len() - from,
{
    if from < o.len() && ds[o[from] as int].key <= reach {
        lemma_within_reach(ds, o, reach, from + 1);
    }
}

/// What becomes of a scattered point, by its distances from the regions.
pub fn attach(ds: &Vec<Distance>) -> (r: Attachment)
    ensures
        r@ == attachment(ds@),
        r@ is Near ==> forall|k: int|
            0 <= k < r@->Near_0.len() ==> (#[trigger] r@->Near_0[k]) < ds@.len(),
        r@ is Far ==> r@->Far_0 < ds@.len(),
{
    let mut keys: Vec<u128> = Vec::new();
    let mut i: usize = 0;
    while i < ds.len()
        invariant
            i <= ds@.len(),
            keys@ =~= distance_keys(ds@).take(i as int),
        decreases ds@.len() - i,
    {
        keys.push(ds[i].key as u128);
        i = i + 1;
    }
    assert(keys@ =~= distance_keys(ds@));
    let o = order::stable_order(&keys);
    assert(order::is_stable_order(distance_keys(ds@), o@));
    if ds.len() == 0 {
        return Attachment::Alone;
    }
    let first = o[0];
    if ds[first].key > FAR_KM {
        return Attachment::Far(first);
    }
    let reach = ds[first].reach;
    let mut near: Vec<usize> = Vec::new();
    let mut k: usize = 0;
    assert(near@ =~= o@.take(0));
    while k < o.len() && ds[o[k]].key <= reach
        invariant
            order::is_stable_order(distance_keys(ds@), o@),
            o@.len() == ds@.len(),
            k <= o@.len(),
            near@ == o@.take(k as int),
            within_reach(ds@, o@, reach, 0) == within_reach(ds@, o@, reach, k as int),
        decreases o@.len() - k,
    {
        near.push(o[k]);
        k = k + 1;
        assert(o@.take(k as int) =~= o@.take(k - 1).push(o@[k - 1]));
    }
    Attachment::Near(near)
}

/// A point that is attached is attached to its nearest region first, and to every region that is
/// about as near, and to no other.
pub proof fn law_attached_to_the_nearest(ds: Seq<Distance>)
    requires
        0 < ds.len() <= usize::MAX,
        forall|i: int| 0 <= i < ds.len() ==> (#[trigger] ds[i]).key <= ds[i].reach,
        attachment(ds) is Near,
    ensures
        ({
            let near = attachment(ds)->Near_0;
            &&& near.len() >= 1
            &&& forall|i: int| 0 <= i < ds.len() ==> ds[near[0] as int].key <= (#[trigger] ds[i]).key
            &&& forall|r: usize|
                r < ds.len() ==> (#[trigger] near.contains(r) <==> ds[r as int].key
                    <= ds[near[0] as int].reach)
        }),
{
    let keys = distance_keys(ds);
    let o = order::ordered(keys);
    order::lemma_ordered(keys);
    let reach = ds[o[0] as int].reach;
    let k = within_reach(ds, o, reach, 0);
    let near = o.take(k);
    lemma_within_reach(ds, o, reach, 0);
    assert(ds[o[0] as int].key <= reach);
    assert(k >= 1) by {
        lemma_within_reach(ds, o, reach, 1);
    }
    assert(near[0] == o[0]);
    assert forall|i: int| 0 <= i < ds.len() implies ds[near[0] as int].key <= (
    #[trigger] ds[i]).key by {
        order::lemma_stable_order_is_total(keys, o, i);
        let m = choose|m: int| 0 <= m < o.len() && #[trigger] o[m] == i;
        if m > 0 {
            assert(order::precedes(keys, o[0] as int, o[m] as int));
        }
    }
    assert forall|r: usize| r < ds.len() implies (#[trigger] near.contains(r) <==> ds[r as int].key
        <= reach) by {
        order::lemma_stable_order_is_total(keys, o, r as int);
        let m = choose|m: int| 0 <= m < o.len() && #[trigger] o[m] == r;
        if m < k {
            assert(near[m] == r);
            assert(ds[o[m] as int].key <= reach);
        } else {
            lemma_reach_ends(ds, o, reach, 0);
            assert(ds[o[k] as int].key > reach);
            if m > k {
                assert(order::precedes(keys, o[k] as int, o[m] as int));
            }
            if near.contains(r) {
                let j = choose|j: int| 0 <= j < near.len() && near[j] == r;
                assert(o[j] == r);
                assert(order::precedes(keys, o[j] as int, o[m] as int));
            }
        }
    }
}

/// A point is far exactly where every region is more than 150 kilometres away, and then it names the
/// first of those at the least distance; it is attached exactly where some region is within that
/// distance, to regions that come in the order of their distances, the nearest first.
pub proof fn law_far_means_far_from_all(ds: Seq<Distance>)
    requires
        ds.len() <= usize::MAX,
    ensures
        attachment(ds) is Alone <==> ds.len() == 0,
        attachment(ds) is Far <==> ds.len() > 0 && forall|i: int|
            0 <= i < ds.len() ==> (#[trigger] ds[i]).key > 0x4062_C000_0000_0000u64,
        attachment(ds) is Near <==> exists|i: int|
            0 <= i < ds.len() && (#[trigger] ds[i]).key <= 0x4062_C000_0000_0000u64,
        attachment(ds) matches AttachmentModel::Far(r) ==> {
            &&& r < ds.len()
            &&& forall|i: int| 0 <= i < ds.len() ==> ds[r as int].key <= (#[trigger] ds[i]).key
            &&& forall|i: int| 0 <= i < r ==> ds[r as int].key < (#[trigger] ds[i]).key
        },
        attachment(ds) matches AttachmentModel::Near(near) ==> forall|i: int, j: int|
            0 <= i < j < near.len() ==> {
                let a = #[trigger] near[i];
                let b = #[trigger] near[j];
                ds[a as int].key < ds[b as int].key || (ds[a as int].key == ds[b as int].key && a < b)
            },
{
    let keys = distance_keys(ds);
    let o = order::ordered(keys);
    order::lemma_ordered(keys);
    if ds.len() > 0 {
        assert forall|i: int| 0 <= i < ds.len() implies {
            let d = #[trigger] ds[i];
            ds[o[0] as int].key < d.key || (ds[o[0] as int].key == d.key && o[0] <= i)
        } by {
            order::lemma_stable_order_is_total(keys, o, i);
            let m = choose|m: int| 0 <= m < o.len() && #[trigger] o[m] == i;
            if m > 0 {
                assert(order::precedes(keys, o[0] as int, o[m] as int));
            }
        }
        assert(ds[o[0] as int].key == ds[o[0] as int].key);
        match attachment(ds) {
            AttachmentModel::Near(near) => {
                lemma_within_reach(ds, o, ds[o[0] as int].reach, 0);
                assert forall|i: int, j: int| 0 <= i < j < near.len() implies {
                    let a = #[trigger] near[i];
                    let b = #[trigger] near[j];
                    ds[a as int].key < ds[b as int].key || (ds[a as int].key == ds[b as int].key && a
                        < b)
                } by {
                    assert(near[i] == o[i] && near[j] == o[j]);
                    assert(order::precedes(keys, o[i] as int, o[j] as int));
                }
            },
            _ => {},
        }
    }
}

proof fn lemma_reach_ends(ds: Seq<Distance>, o: Seq<usize>, reach: u64, from: int)
    requires
        0 <= from <= o.len(),
    ensures
        within_reach(ds, o, reach, from) < o.len() ==> ds[o[within_reach(
            ds,
            o,
            reach,
            from,
        )] as int].key > reach,
    decreases o.len() - from,
{
    if from < o.len() && ds[o[from] as int].key <= reach {
        lemma_reach_ends(ds, o, reach, from + 1);
    }
}

// ---- The report ----

/// A region in words.
pub struct Region {
    pub name: String,
    /// Longitude and latitude of its centre, with four decimals.
    pub center: (String, String),
    pub members: Vec<String>,
    pub from_anchor: bool,
}

/// A scattered point with the regions that it is attached to, and how far they are.
pub struct AttachRow {
    pub name: String,
    pub candidates: Vec<(String, String)>,
}

/// A point that is far from every region, with the nearest where there is one.
pub struct FarPoint {
    pub name: String,
    pub nearest: Option<(String, String)>,
}

/// The outcome of a clustering in words; `t` is the threshold with one decimal.
pub struct ClusterOut {
    pub t: String,
    pub regions: Vec<Region>,
    pub attached: Vec<AttachRow>,
    pub far: Vec<FarPoint>,
}

/// The name of a region: its anchor's, or its first point's.
pub open spec fn region_name(
    plan: RegionModel,
    pois: Seq<Poi>,
    anchor_names: Seq<Seq<char>>,
) -> Seq<char> {
    match plan.anchor {
        Some(a) => anchor_names[a as int],
        None => pois[plan.members[0] as int].name@ + "一带"@,
    }
}

pub fn name_of_region(plan: &RegionPlan, pois: &Vec<Poi>, anchor_names: &Vec<String>) -> (r: String)
    requires
        match plan.anchor {
            Some(a) => a < anchor_names@.len(),
            None => plan.members@.len() > 0 && plan.members@[0] < pois@.len(),
        },
    ensures
        r@ == region_name(plan@, pois@, text::views(anchor_names@)),
{
    match plan.anchor {
        Some(a) => text::copy_text(anchor_names[a].as_str()),
        None => {
            let mut s = text::copy_text(pois[plan.members[0]].name.as_str());
            s.append("一带");
            s
        },
    }
}

/// What the regions are numbered and described as.
pub open spec fn region_text(n: nat, r: Region) -> Seq<char> {
    text::dec(n) + ". "@ + r.name@ + "（"@ + (if r.from_anchor {
        "anchor"@
    } else {
        "聚类簇"@
    }) + "）中心("@ + r.center.0@ + ","@ + r.center.1@ + ")\n   区内点："@ + (if r.members@.len() == 0 {
        "（无，anchor 即市区中心）"@
    } else {
        text::joined(text::views(r.members@), "、"@)
    }) + "\n"@
}

pub open spec fn region_texts(regions: Seq<Region>) -> Seq<char>
    decreases regions.len(),
{
    if regions.len() == 0 {
        Seq::empty()
    } else {
        region_texts(regions.drop_last()) + region_text(regions.len(), regions.last())
    }
}

/// A candidate with its distance; the first is marked.
pub open spec fn candidate_text(i: int, c: (String, String)) -> Seq<char> {
    c.0@ + " "@ + c.1@ + "km"@ + (if i == 0 {
        "●"@
    } else {
        Seq::empty()
    })
}

pub open spec fn row_text(r: AttachRow) -> Seq<char> {
    "- "@ + r.name@ + " → "@ + text::joined(
        Seq::new(r.candidates@.len(), |i: int| candidate_text(i, r.candidates@[i])),
        "、"@,
    ) + "\n"@
}

pub open spec fn row_texts(rows: Seq<AttachRow>) -> Seq<char>
    decreases rows.len(),
{
    if rows.len() == 0 {
        Seq::empty()
    } else {
        row_texts(rows.drop_last()) + row_text(rows.last())
    }
}

pub open spec fn far_text(p: FarPoint) -> Seq<char> {
    match p.nearest {
        Some(n) => "- "@ + p.name@ + "（最近区 "@ + n.0@ + "，"@ + n.1@ + "km）\n"@,
        None => "- "@ + p.name@ + "（附近无任何区，完全孤立点位）\n"@,
    }
}

pub open spec fn far_texts(points: Seq<FarPoint>) -> Seq<char>
    decreases points.len(),
{
    if points.len() == 0 {
        Seq::empty()
    } else {
        far_texts(points.drop_last()) + far_text(points.last())
    }
}

pub open spec fn none_if_empty(n: nat) -> Seq<char> {
    if n == 0 {
        "（无）\n"@
    } else {
        Seq::empty()
    }
}

/// One outcome in words.
pub open spec fn version_text(out: ClusterOut, title: Seq<char>) -> Seq<char> {
    title + "（阈值 T="@ + out.t@ + "km）：\n\n"@ + "## 交通便利区候选（part 核心）\n"@
        + region_texts(out.regions@) + "\n## 散点挂靠（到各候选区距离，最近者标 ●）\n"@
        + none_if_empty(out.attached@.len()) + row_texts(out.attached@)
        + "\n## 远散点（距所有区 >150km，候选独立枢纽/独立景区）\n"@ + none_if_empty(
        out.far@.len(),
    ) + far_texts(out.far@)
}

fn text_of_region(n: usize, r: &Region) -> (s: String)
    ensures
        s@ == region_text(n as nat, *r),
{
    let mut s = text::number(n as u64);
    s.append(". ");
    s.append(r.name.as_str());
    s.append("（");
    if r.from_anchor {
        s.append("anchor");
    } else {
        s.append("聚类簇");
    }
    s.append("）中心(");
    s.append(r.center.0.as_str());
    s.append(",");
    s.append(r.center.1.as_str());
    s.append(")\n   区内点：");
    if r.members.len() == 0 {
        s.append("（无，anchor 即市区中心）");
    } else {
        s.append(text::join(&r.members, "、").as_str());
    }
    s.append("\n");
    s
}

fn text_of_row(r: &AttachRow) -> (s: String)
    ensures
        s@ == row_text(*r),
{
    let ghost all = Seq::new(r.candidates@.len(), |i: int| candidate_text(i, r.candidates@[i]));
    let mut parts: Vec<String> = Vec::new();
    let mut i: usize = 0;
    while i < r.candidates.len()
        invariant
            i <= r.candidates@.len(),
            all == Seq::new(r.candidates@.len(), |i: int| candidate_text(i, r.candidates@[i])),
            text::views(parts@) =~= all.take(i as int),
        decreases r.candidates@.len() - i,
    {
        let mut t = text::copy_text(r.candidates[i].0.as_str());
        t.append(" ");
        t.append(r.candidates[i].1.as_str());
        t.append("km");
        if i == 0 {
            t.append("●");
        }
        proof {
            assert(t@ =~= candidate_text(i as int, r.candidates@[i as int]));
            text::lemma_views_push(parts@, t);
            assert(all.take(i + 1) =~= all.take(i as int).push(all[i as int]));
        }
        parts.push(t);
        i = i + 1;
    }
    assert(all.take(all.len() as int) =~= all);
    let mut s = text::copy_text("- ");
    s.append(r.name.as_str());
    s.append(" → ");
    s.append(text::join(&parts, "、").as_str());
    s.append("\n");
    s
}

fn text_of_far(p: &FarPoint) -> (s: String)
    ensures
        s@ == far_text(*p),
{
    let mut s = text::copy_text("- ");
    s.append(p.name.as_str());
    match &p.nearest {
        Some(n) => {
            s.append("（最近区 ");
            s.append(n.0.as_str());
            s.append("，");
            s.append(n.1.as_str());
            s.append("km）\n");
        },
        None => {
            s.append("（附近无任何区，完全孤立点位）\n");
        },
    }
    s
}

/// One outcome in words.
pub fn render_version(out: &ClusterOut, title: &str) -> (r: String)
    ensures
        r@ == version_text(*out, title@),
{
    let mut s = text::copy_text(title);
    s.append("（阈值 T=");
    s.append(out.t.as_str());
    s.append("km）：\n\n");
    s.append("## 交通便利区候选（part 核心）\n");
    let mut regions = String::new();
    let mut i: usize = 0;
    assert(regions@ =~= region_texts(out.regions@.take(0)));
    while i < out.regions.len()
        invariant
            i <= out.regions@.len(),
            regions@ == region_texts(out.regions@.take(i as int)),
        decreases out.regions@.len() - i,
    {
        regions.append(text_of_region(i + 1, &out.regions[i]).as_str());
        proof {
            let now = out.regions@.take(i + 1);
            assert(now.drop_last() == out.regions@.take(i as int));
            assert(now.last() == out.regions@[i as int]);
        }
        i = i + 1;
    }
    assert(out.regions@.take(out.regions@.len() as int) == out.regions@);
    s.append(regions.as_str());
    s.append("\n## 散点挂靠（到各候选区距离，最近者标 ●）\n");
    let ghost before = s@;
    if out.attached.len() == 0 {
        s.append("（无）\n");
    }
    assert(s@ =~= before + none_if_empty(out.attached@.len()));
    let mut rows = String::new();
    let mut j: usize = 0;
    assert(rows@ =~= row_texts(out.attached@.take(0)));
    while j < out.attached.len()
        invariant
            j <= out.attached@.len(),
            rows@ == row_texts(out.attached@.take(j as int)),
        decreases out.attached@.len() - j,
    {
        rows.append(text_of_row(&out.attached[j]).as_str());
        proof {
            let now = out.attached@.take(j + 1);
            assert(now.drop_last() == out.attached@.take(j as int));
            assert(now.last() == out.attached@[j as int]);
        }
        j = j + 1;
    }
    assert(out.attached@.take(out.attached@.len() as int) == out.attached@);
    s.append(rows.as_str());
    s.append("\n## 远散点（距所有区 >150km，候选独立枢纽/独立景区）\n");
    let ghost so_far = s@;
    if out.far.len() == 0 {
        s.append("（无）\n");
    }
    assert(s@ =~= so_far + none_if_empty(out.far@.len()));
    let mut points = String::new();
    let mut k: usize = 0;
    assert(points@ =~= far_texts(out.far@.take(0)));
    while k < out.far.len()
        invariant
            k <= out.far@.len(),
            points@ == far_texts(out.far@.take(k as int)),
        decreases out.far@.len() - k,
    {
        points.append(text_of_far(&out.far[k]).as_str());
        proof {
            let now = out.far@.take(k + 1);
            assert(now.drop_last() == out.far@.take(k as int));
            assert(now.last() == out.far@[k as int]);
        }
        k = k + 1;
    }
    assert(out.far@.take(out.far@.len() as int) == out.far@);
    s.append(points.as_str());
    s
}

// ---- From a placement to words ----

/// What a region comes to in words.
pub open spec fn describes_region(
    r: Region,
    plan: RegionModel,
    center: (Seq<char>, Seq<char>),
    pois: Seq<Poi>,
    anchor_names: Seq<Seq<char>>,
) -> bool {
    &&& r.name@ == region_name(plan, pois, anchor_names)
    &&& (r.center.0@, r.center.1@) == center
    &&& text::views(r.members@) == plan.members.map_values(|p: usize| pois[p as int].name@)
    &&& r.from_anchor == plan.anchor is Some
}

/// The regions that a point is attached to, with their distances.
pub open spec fn candidates_of(
    near: Seq<usize>,
    names: Seq<Seq<char>>,
    ds: Seq<Distance>,
) -> Seq<(Seq<char>, Seq<char>)> {
    near.map_values(|r: usize| (names[r as int], ds[r as int].text@))
}

pub open spec fn pair_views(v: Seq<(String, String)>) -> Seq<(Seq<char>, Seq<char>)> {
    v.map_values(|c: (String, String)| (c.0@, c.1@))
}

pub struct AttachRowModel {
    pub name: Seq<char>,
    pub candidates: Seq<(Seq<char>, Seq<char>)>,
}

impl View for AttachRow {
    type V = AttachRowModel;

    open spec fn view(&self) -> AttachRowModel {
        AttachRowModel { name: self.name@, candidates: pair_views(self.candidates@) }
    }
}

pub struct FarPointModel {
    pub name: Seq<char>,
    pub nearest: Option<(Seq<char>, Seq<char>)>,
}

impl View for FarPoint {
    type V = FarPointModel;

    open spec fn view(&self) -> FarPointModel {
        FarPointModel {
            name: self.name@,
            nearest: match self.nearest {
                Some(n) => Some((n.0@, n.1@)),
                None => None,
            },
        }
    }
}

pub open spec fn row_models(rows: Seq<AttachRow>) -> Seq<AttachRowModel> {
    rows.map_values(|r: AttachRow| r@)
}

pub open spec fn far_models(points: Seq<FarPoint>) -> Seq<FarPointModel> {
    points.map_values(|p: FarPoint| p@)
}

/// The rows of the first `k` scattered points that are attached.
pub open spec fn attached_rows(
    scattered: Seq<usize>,
    ds: Seq<Vec<Distance>>,
    pois: Seq<Poi>,
    names: Seq<Seq<char>>,
    k: int,
) -> Seq<AttachRowModel>
    decreases k,
{
    if k <= 0 {
        Seq::empty()
    } else {
        let before = attached_rows(scattered, ds, pois, names, k - 1);
        match attachment(ds[k - 1]@) {
            AttachmentModel::Near(near) => before.push(
                AttachRowModel {
                    name: pois[scattered[k - 1] as int].name@,
                    candidates: candidates_of(near, names, ds[k - 1]@),
                },
            ),
            _ => before,
        }
    }
}

/// The far ones of the first `k` scattered points.
pub open spec fn far_points(
    scattered: Seq<usize>,
    ds: Seq<Vec<Distance>>,
    pois: Seq<Poi>,
    names: Seq<Seq<char>>,
    k: int,
) -> Seq<FarPointModel>
    decreases k,
{
    if k <= 0 {
        Seq::empty()
    } else {
        let before = far_points(scattered, ds, pois, names, k - 1);
        let name = pois[scattered[k - 1] as int].name@;
        match attachment(ds[k - 1]@) {
            AttachmentModel::Near(_) => before,
            AttachmentModel::Far(r) => before.push(
                FarPointModel {
                    name,
                    nearest: Some((names[r as int], ds[k - 1]@[r as int].text@)),
                },
            ),
            AttachmentModel::Alone => before.push(FarPointModel { name, nearest: None }),
        }
    }
}

/// Whether a placement fits the points and anchors that it is to be described with.
pub open spec fn is_describable(
    regions: Seq<RegionPlan>,
    scattered: Seq<usize>,
    pois: Seq<Poi>,
    anchors: nat,
) -> bool {
    &&& forall|r: int|
        0 <= r < regions.len() ==> match (#[trigger] regions[r]).anchor {
            Some(a) => a < anchors,
            None => regions[r].members@.len() > 0,
        }
    &&& forall|r: int, i: int|
        0 <= r < regions.len() && 0 <= i < regions[r].members@.len() ==> (
        #[trigger] regions[r].members@[i]) < pois.len()
    &&& forall|i: int| 0 <= i < scattered.len() ==> (#[trigger] scattered[i]) < pois.len()
}

fn names_of_members(members: &Vec<usize>, pois: &Vec<Poi>) -> (r: Vec<String>)
    requires
        forall|i: int| 0 <= i < members@.len() ==> (#[trigger] members@[i]) < pois@.len(),
    ensures
        text::views(r@) == members@.map_values(|p: usize| pois@[p as int].name@),
{
    let ghost all = members@.map_values(|p: usize| pois@[p as int].name@);
    let mut r: Vec<String> = Vec::new();
    let mut i: usize = 0;
    while i < members.len()
        invariant
            forall|i: int| 0 <= i < members@.len() ==> (#[trigger] members@[i]) < pois@.len(),
            i <= members@.len(),
            all == members@.map_values(|p: usize| pois@[p as int].name@),
            text::views(r@) =~= all.take(i as int),
        decreases members@.len() - i,
    {
        let name = text::copy_text(pois[members[i]].name.as_str());
        proof {
            text::lemma_views_push(r@, name);
            assert(all.take(i + 1) =~= all.take(i as int).push(all[i as int]));
        }
        r.push(name);
        i = i + 1;
    }
    assert(all.take(all.len() as int) =~= all);
    r
}

fn candidate_pairs(near: &Vec<usize>, regions: &Vec<Region>, ds: &Vec<Distance>) -> (r: Vec<
    (String, String),
>)
    requires
        regions@.len() == ds@.len(),
        forall|i: int| 0 <= i < near@.len() ==> (#[trigger] near@[i]) < ds@.len(),
    ensures
        pair_views(r@) == candidates_of(
            near@,
            regions@.map_values(|x: Region| x.name@),
            ds@,
        ),
{
    let ghost names = regions@.map_values(|x: Region| x.name@);
    let ghost all = candidates_of(near@, names, ds@);
    let mut r: Vec<(String, String)> = Vec::new();
    let mut i: usize = 0;
    while i < near.len()
        invariant
            regions@.len() == ds@.len(),
            forall|i: int| 0 <= i < near@.len() ==> (#[trigger] near@[i]) < ds@.len(),
            names == regions@.map_values(|x: Region| x.name@),
            all == candidates_of(near@, names, ds@),
            i <= near@.len(),
            pair_views(r@) =~= all.take(i as int),
        decreases near@.len() - i,
    {
        let at = near[i];
        let pair = (
            text::copy_text(regions[at].name.as_str()),
            text::copy_text(ds[at].text.as_str()),
        );
        let ghost before = r@;
        r.push(pair);
        proof {
            assert(pair_views(r@) =~= pair_views(before).push((pair.0@, pair.1@)));
            assert(all.take(i + 1) =~= all.take(i as int).push(all[i as int]));
        }
        i = i + 1;
    }
    assert(all.take(all.len() as int) =~= all);
    r
}

/// A placement in words. `centers` holds the regions' centres, `ds` the distances of each scattered
/// point from the regions.
pub fn describe(
    regions: &Vec<RegionPlan>,
    scattered: &Vec<usize>,
    pois: &Vec<Poi>,
    anchor_names: &Vec<String>,
    t: String,
    centers: &Vec<(String, String)>,
    ds: &Vec<Vec<Distance>>,
) -> (out: ClusterOut)
    requires
        is_describable(regions@, scattered@, pois@, anchor_names@.len()),
        centers@.len() == regions@.len(),
        ds@.len() == scattered@.len(),
        forall|i: int| 0 <= i < ds@.len() ==> (#[trigger] ds@[i])@.len() == regions@.len(),
    ensures
        out.t@ == t@,
        out.regions@.len() == regions@.len(),
        forall|r: int|
            0 <= r < regions@.len() ==> describes_region(
                #[trigger] out.regions@[r],
                regions@[r]@,
                (centers@[r].0@, centers@[r].1@),
                pois@,
                text::views(anchor_names@),
            ),
        row_models(out.attached@) == attached_rows(
            scattered@,
            ds@,
            pois@,
            out.regions@.map_values(|x: Region| x.name@),
            scattered@.len() as int,
        ),
        far_models(out.far@) == far_points(
            scattered@,
            ds@,
            pois@,
            out.regions@.map_values(|x: Region| x.name@),
            scattered@.len() as int,
        ),
{
    let mut named: Vec<Region> = Vec::new();
    let mut i: usize = 0;
    while i < regions.len()
        invariant
            is_describable(regions@, scattered@, pois@, anchor_names@.len()),
            centers@.len() == regions@.len(),
            i <= regions@.len(),
            named@.len() == i,
            forall|r: int|
                0 <= r < i ==> describes_region(
                    #[trigger] named@[r],
                    regions@[r]@,
                    (centers@[r].0@, centers@[r].1@),
                    pois@,
                    text::views(anchor_names@),
                ),
        decreases regions@.len() - i,
    {
        let plan = &regions[i];
        assert(regions@[i as int] == *plan);
        assert(plan.members@.len() > 0 ==> regions@[i as int].members@[0] < pois@.len());
        assert forall|k: int| 0 <= k < plan.members@.len() implies (#[trigger] plan.members@[k])
            < pois@.len() by {
            assert(regions@[i as int].members@[k] < pois@.len());
        }
        let region = Region {
            name: name_of_region(plan, pois, anchor_names),
            center: (
                text::copy_text(centers[i].0.as_str()),
                text::copy_text(centers[i].1.as_str()),
            ),
            members: names_of_members(&plan.members, pois),
            from_anchor: plan.anchor.is_some(),
        };
        named.push(region);
        i = i + 1;
    }
    let ghost names = named@.map_values(|x: Region| x.name@);
    let mut attached: Vec<AttachRow> = Vec::new();
    let mut far: Vec<FarPoint> = Vec::new();
    let mut k: usize = 0;
    assert(row_models(attached@) =~= attached_rows(scattered@, ds@, pois@, names, 0));
    assert(far_models(far@) =~= far_points(scattered@, ds@, pois@, names, 0));
    while k < scattered.len()
        invariant
            is_describable(regions@, scattered@, pois@, anchor_names@.len()),
            named@.len() == regions@.len(),
            names == named@.map_values(|x: Region| x.name@),
            ds@.len() == scattered@.len(),
            forall|i: int| 0 <= i < ds@.len() ==> (#[trigger] ds@[i])@.len() == regions@.len(),
            k <= scattered@.len(),
            row_models(attached@) == attached_rows(scattered@, ds@, pois@, names, k as int),
            far_models(far@) == far_points(scattered@, ds@, pois@, names, k as int),
        decreases scattered@.len() - k,
    {
        let row_ds = &ds[k];
        assert(ds@[k as int]@.len() == regions@.len());
        let name = text::copy_text(pois[scattered[k]].name.as_str());
        let place = attach(row_ds);
        let ghost model = place@;
        match place {
            Attachment::Near(near) => {
                assert forall|i: int| 0 <= i < near@.len() implies (#[trigger] near@[i])
                    < row_ds@.len() by {
                    assert(model->Near_0[i] == near@[i]);
                }
                let row = AttachRow { name, candidates: candidate_pairs(&near, &named, row_ds) };
                let ghost before = attached@;
                attached.push(row);
                assert(row_models(attached@) =~= row_models(before).push(row@));
            },
            Attachment::Far(r) => {
                let point = FarPoint {
                    name,
                    nearest: Some(
                        (
                            text::copy_text(named[r].name.as_str()),
                            text::copy_text(row_ds[r].text.as_str()),
                        ),
                    ),
                };
                let ghost before = far@;
                far.push(point);
                assert(far_models(far@) =~= far_models(before).push(point@));
            },
            Attachment::Alone => {
                let point = FarPoint { name, nearest: None };
                let ghost before = far@;
                far.push(point);
                assert(far_models(far@) =~= far_models(before).push(point@));
            },
        }
        k = k + 1;
    }
    ClusterOut { t, regions: named, attached, far }
}

proof fn lemma_own_regions_hold_points(anchors: Seq<Vec<u64>>, clusters: Seq<Vec<usize>>)
    requires
        forall|c: int| 0 <= c < clusters.len() ==> (#[trigger] clusters[c])@.len() > 0,
    ensures
        forall|r: int|
            0 <= r < own_regions(anchors, clusters).len() ==> (#[trigger] own_regions(
                anchors,
                clusters,
            )[r]).anchor is None && own_regions(anchors, clusters)[r].members.len() > 0,
    decreases clusters.len(),
{
    if clusters.len() > 0 {
        lemma_own_regions_hold_points(anchors, clusters.drop_last());
        let before = own_regions(anchors, clusters.drop_last());
        let now = own_regions(anchors, clusters);
        assert forall|r: int| 0 <= r < now.len() implies (#[trigger] now[r]).anchor is None
            && now[r].members.len() > 0 by {
            if r < before.len() {
                assert(now[r] == before[r]);
            }
        }
    }
}

/// What `run_cluster` gives can be described.
pub proof fn law_placement_is_describable(
    out: Placement,
    pois: Seq<Poi>,
    d: Seq<Vec<u64>>,
    anchors: Seq<Vec<u64>>,
    t: u64,
)
    requires
        is_placement(out, pois, d, anchors, t),
        pois.len() <= usize::MAX,
        anchors.len() <= usize::MAX,
    ensures
        is_describable(out.regions@, out.scattered@, pois, anchors.len()),
{
    let n = pois.len() as int;
    let k = anchors.len() as int;
    let near = Seq::new(pois.len(), |i: int| nearest(pois, d, i));
    let dense = dense_points(near, t, n);
    let clusters = out.clusters@;
    let regions = region_models(out.regions@);
    let own = own_regions(anchors, clusters);
    lemma_dense(near, t, n);
    lemma_scattered(near, t, anchors, n);
    lemma_own_regions_hold_points(anchors, clusters);
    assert(clusters.take(clusters.len() as int) =~= clusters);
    lemma_own_regions(anchors, clusters, clusters.len() as int);
    let of_anchors = anchor_regions(anchors, clusters, n, k);
    assert(regions == of_anchors + own);
    assert(of_anchors.len() == k);
    assert(regions.len() == out.regions@.len());
    assert forall|r: int| 0 <= r < out.regions@.len() implies match (
    #[trigger] out.regions@[r]).anchor {
        Some(a) => a < anchors.len(),
        None => out.regions@[r].members@.len() > 0,
    } by {
        assert(regions[r] == out.regions@[r]@);
        if r >= k {
            assert(regions[r] == own[r - k]);
        } else {
            assert(regions[r] == of_anchors[r]);
        }
    }
    assert forall|r: int, i: int|
        0 <= r < out.regions@.len() && 0 <= i < out.regions@[r].members@.len() implies (
    #[trigger] out.regions@[r].members@[i]) < pois.len() by {
        let p = out.regions@[r].members@[i];
        assert(regions[r] == out.regions@[r]@);
        assert(regions[r].members.contains(p));
        if r >= k {
            assert(regions[r] == own[r - k]);
            assert(in_region(own, r - k, p));
            lemma_home(anchors, clusters, n, r, p);
            assert(dense.contains(p));
        } else {
            assert(regions[r] == of_anchors[r]);
            lemma_anchor_region(anchors, clusters, n, r);
            if anchor_of(anchors, p as int) != Some(r) {
                lemma_home(anchors, clusters, n, r, p);
                assert(dense.contains(p));
            }
        }
    }
    assert forall|i: int| 0 <= i < out.scattered@.len() implies (#[trigger] out.scattered@[i])
        < pois.len() by {
        assert(out.scattered@.contains(out.scattered@[i]));
    }
}

// ---- A call ----

/// The tool that groups points of interest.
pub struct ClusterPois;

/// The first name that has occurred before.
pub open spec fn repeated_name(names: Seq<Seq<char>>, n: int) -> Option<Seq<char>>
    decreases n,
{
    if n <= 0 {
        None
    } else {
        match repeated_name(names, n - 1) {
            Some(s) => Some(s),
            None => if names.take(n - 1).contains(names[n - 1]) {
                Some(names[n - 1])
            } else {
                None
            },
        }
    }
}

pub fn find_repeated(names: &Vec<String>) -> (r: Option<String>)
    ensures
        match r {
            Some(s) => repeated_name(text::views(names@), names@.len() as int) == Some(s@),
            None => repeated_name(text::views(names@), names@.len() as int) is None,
        },
{
    let ghost all = text::views(names@);
    let mut i: usize = 0;
    while i < names.len()
        invariant
            i <= names@.len(),
            all == text::views(names@),
            repeated_name(all, i as int) is None,
        decreases names@.len() - i,
    {
        let mut j: usize = 0;
        while j < i
            invariant
                j <= i < names@.len(),
                all == text::views(names@),
                repeated_name(all, i as int) is None,
                forall|m: int| 0 <= m < j ==> #[trigger] all[m] != all[i as int],
            decreases i - j,
        {
            assert(all[j as int] == names@[j as int]@ && all[i as int] == names@[i as int]@);
            if text::same(names[j].as_str(), names[i].as_str()) {
                proof {
                    assert(all.take(i as int)[j as int] == all[i as int]);
                    lemma_repeated_stays(all, i + 1);
                }
                return Some(text::copy_text(names[i].as_str()));
            }
            j = j + 1;
        }
        assert(!all.take(i as int).contains(all[i as int]));
        i = i + 1;
    }
    None
}

proof fn lemma_repeated_stays(names: Seq<Seq<char>>, n: int)
    requires
        0 <= n <= names.len(),
        repeated_name(names, n) is Some,
    ensures
        repeated_name(names, names.len() as int) == repeated_name(names, n),
    decreases names.len() - n,
{
    if n < names.len() {
        lemma_repeated_stays(names, n + 1);
    }
}

/// The answer to a call that no clustering is made for; `place` is the first point's place, with
/// four decimals.
pub open spec fn early_answer(
    pois: Seq<Seq<char>>,
    anchors: Seq<Seq<char>>,
    place: (Seq<char>, Seq<char>),
) -> Option<Seq<char>> {
    if pois.len() == 0 {
        Some("聚类失败：pois 为空"@)
    } else {
        match repeated_name(anchors, anchors.len() as int) {
            Some(name) => Some("聚类失败：anchors 名称「"@ + name + "」重复"@),
            None => if pois.len() == 1 {
                Some(
                    "仅 1 个点「"@ + pois[0] + "」("@ + place.0 + ","@ + place.1
                        + ")，无法聚类；该点按孤立点位处理，请结合攻略判断归属。"@,
                )
            } else {
                None
            },
        }
    }
}

impl ClusterPois {
    /// The answer to a call that no clustering is made for: without points, with one, or with
    /// anchors of the same name.
    pub fn early(pois: &Vec<Poi>, anchor_names: &Vec<String>, place: &(String, String)) -> (r:
        Option<String>)
        ensures
            crate::llm::opt_text(r) == early_answer(
                pois@.map_values(|p: Poi| p.name@),
                text::views(anchor_names@),
                (place.0@, place.1@),
            ),
    {
        if pois.len() == 0 {
            return Some(text::copy_text("聚类失败：pois 为空"));
        }
        match find_repeated(anchor_names) {
            Some(name) => {
                let mut s = text::copy_text("聚类失败：anchors 名称「");
                s.append(name.as_str());
                s.append("」重复");
                return Some(s);
            },
            None => {},
        }
        if pois.len() == 1 {
            let mut s = text::copy_text("仅 1 个点「");
            s.append(pois[0].name.as_str());
            s.append("」(");
            s.append(place.0.as_str());
            s.append(",");
            s.append(place.1.as_str());
            s.append(")，无法聚类；该点按孤立点位处理，请结合攻略判断归属。");
            return Some(s);
        }
        None
    }

    /// Whether a second, tighter clustering is due: fewer regions came out than are expected.
    pub fn needs_second(regions: usize, min_regions: Option<usize>) -> (b: bool)
        ensures
            b == (min_regions matches Some(m) && regions < m),
    {
        match min_regions {
            Some(m) => regions < m,
            None => false,
        }
    }

    /// The answer to a call: the outcome, and where a second one was due, that too.
    pub fn report(first: &ClusterOut, second: &Option<ClusterOut>, min_regions: usize) -> (r: String)
        ensures
            r@ == cluster_report(*first, *second, min_regions),
    {
        let mut s = render_version(first, "聚类结果");
        match second {
            Some(out) => {
                s.append("\n⚠ 预期至少 ");
                s.append(text::number(min_regions as u64).as_str());
                s.append(" 个交通便利区，第一版仅聚出 ");
                s.append(text::number(first.regions.len() as u64).as_str());
                s.append(" 个；已用更紧阈值 T'=");
                s.append(out.t.as_str());
                s.append("km 重聚一次，两版结果供对照裁决：\n");
                s.append(render_version(out, "第二版（更紧阈值）").as_str());
            },
            None => {},
        }
        s.append(
            "\n提示：以上为几何结果。请结合 route_check 打车时长抽查与攻略口径（地铁/「市区」）确认后输出 part 划分表；多归属点按攻略归一个 part，展示时提一嘴「介于X与Y之间」即可。\n",
        );
        s
    }
}

pub open spec fn cluster_report(
    first: ClusterOut,
    second: Option<ClusterOut>,
    min_regions: usize,
) -> Seq<char> {
    let head = version_text(first, "聚类结果"@);
    let body = match second {
        Some(out) => head + "\n⚠ 预期至少 "@ + text::dec(min_regions as nat)
            + " 个交通便利区，第一版仅聚出 "@ + text::dec(first.regions@.len())
            + " 个；已用更紧阈值 T'="@ + out.t@ + "km 重聚一次，两版结果供对照裁决：\n"@
            + version_text(out, "第二版（更紧阈值）"@),
        None => head,
    };
    body
        + "\n提示：以上为几何结果。请结合 route_check 打车时长抽查与攻略口径（地铁/「市区」）确认后输出 part 划分表；多归属点按攻略归一个 part，展示时提一嘴「介于X与Y之间」即可。\n"@
}

// ---- What a clustering tells ----

proof fn lemma_nearest_among(pois: Seq<Poi>, d: Seq<Vec<u64>>, i: int, k: int)
    ensures
        forall|j: int|
            0 <= j < k && !twins(pois[i], #[trigger] pois[j]) ==> nearest_among(pois, d, i, k)
                <= d[i]@[j],
        nearest_among(pois, d, i, k) <= 0x7FF0_0000_0000_0000u64,
        nearest_among(pois, d, i, k) == 0x7FF0_0000_0000_0000u64 || exists|j: int|
            0 <= j < k && !twins(pois[i], #[trigger] pois[j]) && d[i]@[j] == nearest_among(
                pois,
                d,
                i,
                k,
            ),
    decreases k,
{
    if k > 0 {
        lemma_nearest_among(pois, d, i, k - 1);
        if !twins(pois[i], pois[k - 1]) && nearest_among(pois, d, i, k) == d[i]@[k - 1] {
            assert(!twins(pois[i], pois[k - 1]));
        } else if nearest_among(pois, d, i, k) != 0x7FF0_0000_0000_0000u64 {
            let j = choose|j: int|
                0 <= j < k - 1 && !twins(pois[i], #[trigger] pois[j]) && d[i]@[j] == nearest_among(
                    pois,
                    d,
                    i,
                    k - 1,
                );
            assert(!twins(pois[i], pois[j]));
        }
    }
}

/// How near a point's nearest other is: no point of another name or place is nearer, and one is just
/// as near, unless there is none.
pub proof fn law_nearest_is_the_nearest_other(pois: Seq<Poi>, d: Seq<Vec<u64>>, i: int)
    ensures
        forall|j: int|
            0 <= j < pois.len() && ((#[trigger] pois[j]).name@ != pois[i].name@ || pois[j].lon
                != pois[i].lon || pois[j].lat != pois[i].lat) ==> nearest(pois, d, i) <= d[i]@[j],
        nearest(pois, d, i) == 0x7FF0_0000_0000_0000u64 || exists|j: int|
            0 <= j < pois.len() && ((#[trigger] pois[j]).name@ != pois[i].name@ || pois[j].lon
                != pois[i].lon || pois[j].lat != pois[i].lat) && d[i]@[j] == nearest(pois, d, i),
{
    lemma_nearest_among(pois, d, i, pois.len() as int);
    if nearest(pois, d, i) != 0x7FF0_0000_0000_0000u64 {
        let j = choose|j: int|
            0 <= j < pois.len() && !twins(pois[i], #[trigger] pois[j]) && d[i]@[j] == nearest(
                pois,
                d,
                i,
            );
        assert(pois[j].name@ != pois[i].name@ || pois[j].lon != pois[i].lon || pois[j].lat
            != pois[i].lat);
    }
}

/// A point is clustered exactly where its nearest other lies within the threshold; it stays scattered
/// exactly where that is not so and every anchor is more than thirty kilometres away. Points within
/// that distance of an anchor belong to the nearest.
pub proof fn law_points_are_dense_scattered_or_anchored(
    near: Seq<u64>,
    t: u64,
    anchors: Seq<Vec<u64>>,
    n: int,
    p: usize,
)
    requires
        0 <= n <= near.len() <= usize::MAX,
        p < n,
    ensures
        dense_points(near, t, n).contains(p) <==> near[p as int] <= t,
        scattered_points(near, t, anchors, n).contains(p) <==> near[p as int] > t && forall|a: int|
            0 <= a < anchors.len() ==> (#[trigger] anchors[a])@[p as int] > 0x403E_0000_0000_0000u64,
        match anchor_of(anchors, p as int) {
            Some(a) => 0 <= a < anchors.len() && anchors[a]@[p as int] <= 0x403E_0000_0000_0000u64
                && forall|b: int|
                0 <= b < anchors.len() ==> anchors[a]@[p as int] <= (#[trigger] anchors[b])@[p as int],
            None => forall|a: int|
                0 <= a < anchors.len() ==> (#[trigger] anchors[a])@[p as int]
                    > 0x403E_0000_0000_0000u64,
        },
{
    lemma_dense(near, t, n);
    lemma_scattered(near, t, anchors, n);
    law_anchor_is_the_nearest(anchors, p as int, anchors.len() as int);
}

/// A region is named after its anchor, or else after its first point as what lies around that.
pub proof fn law_regions_are_named(plan: RegionModel, pois: Seq<Poi>, anchor_names: Seq<Seq<char>>)
    ensures
        plan.anchor matches Some(a) ==> region_name(plan, pois, anchor_names)
            == anchor_names[a as int],
        plan.anchor is None ==> region_name(plan, pois, anchor_names)
            == pois[plan.members[0] as int].name@ + "一带"@,
{
}

/// Each scattered point has one line, in its turn: among the attached where some region is within a
/// hundred and fifty kilometres, with the regions and distances that it is attached to, and otherwise
/// among the far ones, with the nearest region, where there is one.
pub proof fn law_scattered_points_are_told(
    scattered: Seq<usize>,
    ds: Seq<Vec<Distance>>,
    pois: Seq<Poi>,
    names: Seq<Seq<char>>,
    k: int,
)
    requires
        0 < k,
        ds[k - 1]@.len() <= usize::MAX,
    ensures
        ({
            let rows = attached_rows(scattered, ds, pois, names, k);
            let rows_before = attached_rows(scattered, ds, pois, names, k - 1);
            let far = far_points(scattered, ds, pois, names, k);
            let far_before = far_points(scattered, ds, pois, names, k - 1);
            let name = pois[scattered[k - 1] as int].name@;
            let d = ds[k - 1]@;
            if exists|i: int| 0 <= i < d.len() && (#[trigger] d[i]).key <= 0x4062_C000_0000_0000u64 {
                &&& far == far_before
                &&& rows.len() == rows_before.len() + 1
                &&& rows.drop_last() == rows_before
                &&& rows.last().name == name
                &&& attachment(d) is Near
                &&& rows.last().candidates.len() == attachment(d)->Near_0.len()
                &&& forall|i: int|
                    0 <= i < rows.last().candidates.len() ==> {
                        let r = attachment(d)->Near_0[i];
                        #[trigger] rows.last().candidates[i] == (names[r as int], d[r as int].text@)
                    }
            } else {
                &&& rows == rows_before
                &&& far.len() == far_before.len() + 1
                &&& far.drop_last() == far_before
                &&& far.last().name == name
                &&& d.len() == 0 ==> far.last().nearest is None
                &&& d.len() > 0 ==> exists|r: int|
                    0 <= r < d.len() && (forall|i: int|
                        0 <= i < d.len() ==> d[r].key <= (#[trigger] d[i]).key)
                        && far.last().nearest == Some((names[r], (#[trigger] d[r]).text@))
            }
        }),
{
    let d = ds[k - 1]@;
    law_far_means_far_from_all(d);
    let rows = attached_rows(scattered, ds, pois, names, k);
    let rows_before = attached_rows(scattered, ds, pois, names, k - 1);
    let far = far_points(scattered, ds, pois, names, k);
    let far_before = far_points(scattered, ds, pois, names, k - 1);
    match attachment(d) {
        AttachmentModel::Near(near) => {
            assert(rows.drop_last() =~= rows_before);
        },
        AttachmentModel::Far(r) => {
            assert(far.drop_last() =~= far_before);
            assert(far.last().nearest == Some((names[r as int], d[r as int].text@)));
        },
        AttachmentModel::Alone => {
            assert(far.drop_last() =~= far_before);
        },
    }
}

/// The report of a version: under its title and threshold the regions by number, then the attached
/// points, then the far ones, each section with its heading, and marked where it has nothing.
pub proof fn law_versions_have_their_sections(out: ClusterOut, title: Seq<char>)
    ensures
        version_text(out, title) == title + "（阈值 T="@ + out.t@ + "km）：\n\n"@
            + "## 交通便利区候选（part 核心）\n"@ + region_texts(out.regions@)
            + "\n## 散点挂靠（到各候选区距离，最近者标 ●）\n"@ + (if out.attached@.len() == 0 {
            "（无）\n"@
        } else {
            Seq::empty()
        }) + row_texts(out.attached@)
            + "\n## 远散点（距所有区 >150km，候选独立枢纽/独立景区）\n"@ + (if out.far@.len() == 0 {
            "（无）\n"@
        } else {
            Seq::empty()
        }) + far_texts(out.far@),
{
}

/// Each region, attached point and far point has its line: a region its number, name, kind, centre and
/// points; an attached point the regions with their distances, the first of them marked; a far point
/// the nearest region with its distance, or that there is none.
pub proof fn law_lines_tell_regions_and_points(
    regions: Seq<Region>,
    r: Region,
    rows: Seq<AttachRow>,
    row: AttachRow,
    points: Seq<FarPoint>,
    p: FarPoint,
)
    ensures
        region_texts(regions.push(r)) == region_texts(regions) + (text::dec(
            (regions.len() + 1) as nat,
        ) + ". "@ + r.name@ + "（"@ + (if r.from_anchor {
            "anchor"@
        } else {
            "聚类簇"@
        }) + "）中心("@ + r.center.0@ + ","@ + r.center.1@ + ")\n   区内点："@ + (if r.members@.len()
            == 0 {
            "（无，anchor 即市区中心）"@
        } else {
            text::joined(text::views(r.members@), "、"@)
        }) + "\n"@),
        row_texts(rows.push(row)) == row_texts(rows) + ("- "@ + row.name@ + " → "@ + text::joined(
            Seq::new(
                row.candidates@.len(),
                |i: int|
                    row.candidates@[i].0@ + " "@ + row.candidates@[i].1@ + "km"@ + (if i == 0 {
                        "●"@
                    } else {
                        Seq::empty()
                    }),
            ),
            "、"@,
        ) + "\n"@),
        far_texts(points.push(p)) == far_texts(points) + (match p.nearest {
            Some(n) => "- "@ + p.name@ + "（最近区 "@ + n.0@ + "，"@ + n.1@ + "km）\n"@,
            None => "- "@ + p.name@ + "（附近无任何区，完全孤立点位）\n"@,
        }),
{
    assert(regions.push(r).drop_last() =~= regions);
    assert(rows.push(row).drop_last() =~= rows);
    assert(points.push(p).drop_last() =~= points);
    assert(Seq::new(row.candidates@.len(), |i: int| candidate_text(i, row.candidates@[i]))
        =~= Seq::new(
        row.candidates@.len(),
        |i: int|
            row.candidates@[i].0@ + " "@ + row.candidates@[i].1@ + "km"@ + (if i == 0 {
                "●"@
            } else {
                Seq::empty()
            }),
    ));
}

proof fn lemma_no_repetition(names: Seq<Seq<char>>, n: int)
    requires
        0 <= n <= names.len(),
    ensures
        match repeated_name(names, n) {
            Some(s) => exists|i: int, j: int|
                0 <= i < j < n && #[trigger] names[i] == s && #[trigger] names[j] == s,
            None => forall|i: int, j: int|
                0 <= i < j < n ==> #[trigger] names[i] != #[trigger] names[j],
        },
    decreases n,
{
    if n > 0 {
        lemma_no_repetition(names, n - 1);
        let front = names.take(n - 1);
        let last = names[n - 1];
        if front.contains(last) {
            let i = choose|i: int| 0 <= i < front.len() && front[i] == last;
            assert(names[i] == last);
        } else {
            assert forall|i: int| 0 <= i < n - 1 implies #[trigger] names[i] != last by {
                assert(front[i] == names[i]);
            }
        }
    }
}

/// A call is clustered exactly where it has two points or more and no two anchors of one name;
/// otherwise it is told what is wrong, or where the only point lies.
pub proof fn law_calls_are_checked(
    pois: Seq<Seq<char>>,
    anchors: Seq<Seq<char>>,
    place: (Seq<char>, Seq<char>),
)
    ensures
        ({
            let distinct = forall|i: int, j: int|
                0 <= i < j < anchors.len() ==> #[trigger] anchors[i] != #[trigger] anchors[j];
            let answer = early_answer(pois, anchors, place);
            &&& answer is None <==> pois.len() >= 2 && distinct
            &&& pois.len() == 0 ==> answer == Some("聚类失败：pois 为空"@)
            &&& pois.len() > 0 && !distinct ==> exists|i: int, j: int|
                0 <= i < j < anchors.len() && #[trigger] anchors[i] == #[trigger] anchors[j]
                    && answer == Some("聚类失败：anchors 名称「"@ + anchors[i] + "」重复"@)
            &&& pois.len() == 1 && distinct ==> answer == Some(
                "仅 1 个点「"@ + pois[0] + "」("@ + place.0 + ","@ + place.1
                    + ")，无法聚类；该点按孤立点位处理，请结合攻略判断归属。"@,
            )
        }),
{
    lemma_no_repetition(anchors, anchors.len() as int);
    match repeated_name(anchors, anchors.len() as int) {
        Some(s) => {
            let (i, j) = choose|i: int, j: int|
                0 <= i < j < anchors.len() && #[trigger] anchors[i] == s && #[trigger] anchors[j] == s;
            assert(anchors[i] == anchors[j]);
        },
        None => {},
    }
}

/// A report with too few regions has a second version, with a note that tells how many were wanted and
/// how many there are; without one it is the first version alone.
pub proof fn law_reports_have_both_versions(
    first: ClusterOut,
    second: ClusterOut,
    min_regions: usize,
)
    ensures
        ({
            let hint = "\n提示：以上为几何结果。请结合 route_check 打车时长抽查与攻略口径（地铁/「市区」）确认后输出 part 划分表；多归属点按攻略归一个 part，展示时提一嘴「介于X与Y之间」即可。\n"@;
            &&& cluster_report(first, None, min_regions) == version_text(first, "聚类结果"@) + hint
            &&& cluster_report(first, Some(second), min_regions) == version_text(
                first,
                "聚类结果"@,
            ) + "\n⚠ 预期至少 "@ + text::dec(min_regions as nat) + " 个交通便利区，第一版仅聚出 "@
                + text::dec(first.regions@.len()) + " 个；已用更紧阈值 T'="@ + second.t@
                + "km 重聚一次，两版结果供对照裁决：\n"@ + version_text(second, "第二版（更紧阈值）"@)
                + hint
        }),
{
}

/// What is told of a region is its name, its centre, the names of its points in order, and whether it
/// was given.
pub proof fn law_regions_are_described(
    r: Region,
    plan: RegionModel,
    center: (Seq<char>, Seq<char>),
    pois: Seq<Poi>,
    anchor_names: Seq<Seq<char>>,
    i: int,
)
    requires
        describes_region(r, plan, center, pois, anchor_names),
    ensures
        plan.anchor matches Some(a) ==> r.name@ == anchor_names[a as int] && r.from_anchor,
        plan.anchor is None ==> r.name@ == pois[plan.members[0] as int].name@ + "一带"@
            && !r.from_anchor,
        r.center.0@ == center.0,
        r.center.1@ == center.1,
        r.members@.len() == plan.members.len(),
        0 <= i < plan.members.len() ==> r.members@[i]@ == pois[plan.members[i] as int].name@,
{
    let names = plan.members.map_values(|p: usize| pois[p as int].name@);
    assert(text::views(r.members@).len() == names.len());
    if 0 <= i < plan.members.len() {
        assert(text::views(r.members@)[i] == names[i]);
    }
}

proof fn lemma_first_taken(anchors: Seq<Vec<u64>>, p: int, k: int)
    requires
        0 <= k <= anchors.len(),
    ensures
        taken_by(anchors, p, k) matches Some(a) ==> 0 <= a < k && forall|b: int|
            0 <= b < a ==> (#[trigger] anchors[b])@[p] > anchors[a]@[p],
        taken_by(anchors, p, k) is None ==> forall|b: int|
            0 <= b < k ==> (#[trigger] anchors[b])@[p] > 0x403E_0000_0000_0000u64,
        taken_by(anchors, p, k) matches Some(a) ==> anchors[a]@[p] <= 0x403E_0000_0000_0000u64
            && forall|b: int|
            0 <= b < k ==> anchors[a]@[p] <= (#[trigger] anchors[b])@[p],
    decreases k,
{
    if k > 0 {
        lemma_first_taken(anchors, p, k - 1);
    }
}

/// Of given regions that are equally near to a point, the first takes it.
pub proof fn law_the_first_of_equals_takes_a_point(anchors: Seq<Vec<u64>>, p: int, b: int)
    requires
        0 <= b < anchors.len(),
    ensures
        anchor_of(anchors, p) matches Some(a) ==> (b < a ==> anchors[b]@[p] > anchors[a]@[p]),
{
    lemma_first_taken(anchors, p, anchors.len() as int);
}

/// Of the points of a group that lie at given regions, the nearest joins the group to its region, and
/// of equally near ones the first.
pub proof fn law_the_first_of_the_nearest_joins(
    anchors: Seq<Vec<u64>>,
    cluster: Seq<usize>,
) -> (k: int)
    ensures
        match entry_point(anchors, cluster) {
            Some(m) => {
                &&& 0 <= k < cluster.len() && cluster[k] == m
                &&& anchor_of(anchors, m as int) matches Some(a) && forall|j: int, b: int|
                    0 <= j < cluster.len() && anchor_of(anchors, cluster[j] as int) == Some(b) ==> {
                        let here = anchors[a]@[m as int];
                        let there = #[trigger] anchors[b]@[#[trigger] cluster[j] as int];
                        here <= there && (j < k ==> here < there)
                    }
            },
            None => forall|j: int|
                0 <= j < cluster.len() ==> anchor_of(anchors, #[trigger] cluster[j] as int) is None,
        },
    decreases cluster.len(),
{
    if cluster.len() == 0 {
        0
    } else {
        let front = cluster.drop_last();
        let before = law_the_first_of_the_nearest_joins(anchors, front);
        let n = cluster.len() - 1;
        assert forall|j: int| 0 <= j < n implies front[j] == cluster[j] by {}
        if entry_point(anchors, cluster) == entry_point(anchors, front) && entry_point(
            anchors,
            front,
        ) is Some {
            before
        } else {
            n
        }
    }
}

} // verus!
