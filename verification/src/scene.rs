//! The drawing of an overview map: what is on it, under which words, and in which order it is drawn.

use vstd::prelude::*;

use crate::cluster::Poi;
use crate::legend;
use crate::legend::{Figure, LegendItem, Mark, Shape};
use crate::order;
use crate::overview;
use crate::overview::{Packed, PointKind, PointNode, RouteSeg};
use crate::text;

verus! {

/// The colour of the ground.
pub const GROUND: u32 = 0xF8FAFCFF;

/// The colour of the grid.
pub const GRID: u32 = 0xBAC2CEFF;

/// The colour of the degrees at the grid.
pub const DEGREES: u32 = 0x64748BFF;

/// The colour of the thin lines to far points.
pub const SPOKE: u32 = 0x64748BFF;

/// The colour round marks and words.
pub const HALO: u32 = 0xFFFFFFFF;

/// The gaps of a broken line.
pub const DASH_GAP: u32 = 0xEBEFF5FF;

/// The width of the picture.
pub const WIDTH: i32 = 1200;

/// The height of the picture.
pub const HEIGHT: i32 = 800;

/// The colours of the ways, which take turns.
pub open spec fn way_color(i: int) -> u32 {
    let k = i % 8;
    if k == 0 {
        0xDC2626FF
    } else if k == 1 {
        0x2563EBFF
    } else if k == 2 {
        0x16A34AFF
    } else if k == 3 {
        0xF97316FF
    } else if k == 4 {
        0x9333EAFF
    } else if k == 5 {
        0x0D9488FF
    } else if k == 6 {
        0xB45309FF
    } else {
        0xEC4899FF
    }
}

pub fn palette(i: usize) -> (r: u32)
    ensures
        r == way_color(i as int),
{
    let k: usize = i % 8;
    if k == 0 {
        0xDC2626FF
    } else if k == 1 {
        0x2563EBFF
    } else if k == 2 {
        0x16A34AFF
    } else if k == 3 {
        0xF97316FF
    } else if k == 4 {
        0x9333EAFF
    } else if k == 5 {
        0x0D9488FF
    } else if k == 6 {
        0xB45309FF
    } else {
        0xEC4899FF
    }
}

// ---- Near and far ----

/// 20.0 km as a bit pattern: a point that is not farther from a region lies in it.
pub const NEAR: u64 = 0x4034_0000_0000_0000;

/// The distances from each point to each region, as bit patterns.
pub open spec fn is_table(d: Seq<Vec<u64>>, points: int, hubs: int) -> bool {
    d.len() == points && forall|p: int| 0 <= p < points ==> (#[trigger] d[p])@.len() == hubs
}

/// Whether a point lies in no region.
pub open spec fn is_remote(row: Seq<u64>) -> bool {
    forall|h: int| 0 <= h < row.len() ==> (#[trigger] row[h]) > NEAR
}

fn lies_outside(row: &Vec<u64>) -> (b: bool)
    ensures
        b == is_remote(row@),
{
    let mut h: usize = 0;
    while h < row.len()
        invariant
            h <= row@.len(),
            forall|k: int| 0 <= k < h ==> (#[trigger] row@[k]) > NEAR,
        decreases row@.len() - h,
    {
        if row[h] <= NEAR {
            return false;
        }
        h = h + 1;
    }
    true
}

/// The distance of the farthest of the first `n` points that lie in a region; 0 where none does.
pub open spec fn inner_reach(d: Seq<Vec<u64>>, h: int, n: int) -> u64
    decreases n,
{
    if n <= 0 {
        0
    } else {
        let before = inner_reach(d, h, n - 1);
        let x = d[n - 1]@[h];
        if x <= NEAR && x > before {
            x
        } else {
            before
        }
    }
}

/// How far the points of a region lie from it.
pub fn hub_reach(d: &Vec<Vec<u64>>, h: usize) -> (r: u64)
    requires
        forall|p: int| 0 <= p < d@.len() ==> h < (#[trigger] d@[p])@.len(),
    ensures
        r == inner_reach(d@, h as int, d@.len() as int),
{
    let mut r: u64 = 0;
    let mut p: usize = 0;
    while p < d.len()
        invariant
            p <= d@.len(),
            forall|p: int| 0 <= p < d@.len() ==> h < (#[trigger] d@[p])@.len(),
            r == inner_reach(d@, h as int, p as int),
        decreases d@.len() - p,
    {
        assert(h < d@[p as int]@.len());
        let x: u64 = d[p][h];
        if x <= NEAR && x > r {
            r = x;
        }
        p = p + 1;
    }
    r
}

/// A region's reach is that of its farthest point; the points that lie in no region do not count.
pub proof fn law_reach_is_the_farthest_inside(d: Seq<Vec<u64>>, h: int, n: int)
    requires
        0 <= n <= d.len(),
    ensures
        inner_reach(d, h, n) <= NEAR,
        forall|p: int| 0 <= p < n && (#[trigger] d[p])@[h] <= NEAR ==> d[p]@[h] <= inner_reach(d, h, n),
        inner_reach(d, h, n) == 0 || exists|p: int|
            0 <= p < n && (#[trigger] d[p])@[h] == inner_reach(d, h, n),
    decreases n,
{
    if n > 0 {
        law_reach_is_the_farthest_inside(d, h, n - 1);
        let r = inner_reach(d, h, n);
        let before = inner_reach(d, h, n - 1);
        if r != before {
            assert(d[n - 1]@[h] == r);
        } else if r != 0 {
            let p = choose|p: int| 0 <= p < n - 1 && (#[trigger] d[p])@[h] == before;
            assert(d[p]@[h] == r);
        }
    }
}

/// The place of a name in a list.
pub open spec fn place_of(names: Seq<Seq<char>>, name: Seq<char>, from: int) -> Option<int>
    decreases names.len() - from,
{
    if from < 0 || from >= names.len() {
        None
    } else if names[from] == name {
        Some(from)
    } else {
        place_of(names, name, from + 1)
    }
}

fn find_place(names: &Vec<String>, name: &str) -> (r: Option<usize>)
    ensures
        match r {
            Some(i) => place_of(text::views(names@), name@, 0) == Some(i as int) && i < names@.len(),
            None => place_of(text::views(names@), name@, 0) is None,
        },
{
    let ghost all = text::views(names@);
    let mut i: usize = 0;
    while i < names.len()
        invariant
            i <= names@.len(),
            all == text::views(names@),
            place_of(all, name@, 0) == place_of(all, name@, i as int),
        decreases names@.len() - i,
    {
        assert(all[i as int] == names@[i as int]@);
        if text::same(names[i].as_str(), name) {
            return Some(i);
        }
        i = i + 1;
    }
    None
}

/// The regions that names stand for.
pub open spec fn named_targets(hubs: Seq<Seq<char>>, names: Seq<Seq<char>>) -> Seq<usize>
    decreases names.len(),
{
    if names.len() == 0 {
        Seq::empty()
    } else {
        let before = named_targets(hubs, names.drop_last());
        match place_of(hubs, names.last(), 0) {
            Some(i) => before.push(i as usize),
            None => before,
        }
    }
}

pub open spec fn keys_of(row: Seq<u64>) -> Seq<u128> {
    row.map_values(|x: u64| x as u128)
}

/// The regions of an order whose distance is within a limit.
pub open spec fn within(row: Seq<u64>, o: Seq<usize>, limit: u64) -> Seq<usize>
    decreases o.len(),
{
    if o.len() == 0 {
        Seq::empty()
    } else {
        let before = within(row, o.drop_last(), limit);
        if row[o.last() as int] <= limit {
            before.push(o.last())
        } else {
            before
        }
    }
}

/// The regions that a far point belongs to: those that it names, or else those within a limit, the
/// nearest first.
pub open spec fn targets(
    named: Option<Seq<Seq<char>>>,
    hubs: Seq<Seq<char>>,
    row: Seq<u64>,
    limit: u64,
) -> Seq<usize> {
    let near = within(row, order::ordered(keys_of(row)), limit);
    match named {
        Some(names) => if names.len() > 0 {
            named_targets(hubs, names)
        } else {
            near
        },
        None => near,
    }
}

/// The regions that a far point belongs to; `row` holds its distances from them, and `limit` is
/// twice the least of these.
pub fn remote_targets(
    named: &Option<Vec<String>>,
    hubs: &Vec<String>,
    row: &Vec<u64>,
    limit: u64,
) -> (r: Vec<usize>)
    ensures
        r@ == targets(overview::opt_views(*named), text::views(hubs@), row@, limit),
{
    match named {
        Some(names) => {
            if names.len() > 0 {
                let ghost all = text::views(names@);
                let mut out: Vec<usize> = Vec::new();
                let mut i: usize = 0;
                while i < names.len()
                    invariant
                        i <= names@.len(),
                        all == text::views(names@),
                        out@ == named_targets(text::views(hubs@), all.take(i as int)),
                    decreases names@.len() - i,
                {
                    proof {
                        assert(all.take(i + 1).drop_last() =~= all.take(i as int));
                        assert(all.take(i + 1).last() == names@[i as int]@);
                    }
                    match find_place(hubs, names[i].as_str()) {
                        Some(h) => out.push(h),
                        None => {},
                    }
                    i = i + 1;
                }
                assert(all.take(all.len() as int) =~= all);
                return out;
            }
        },
        None => {},
    }
    let mut keys: Vec<u128> = Vec::new();
    let mut i: usize = 0;
    while i < row.len()
        invariant
            i <= row@.len(),
            keys@ == keys_of(row@).take(i as int),
        decreases row@.len() - i,
    {
        keys.push(row[i] as u128);
        assert(keys@ =~= keys_of(row@).take(i + 1));
        i = i + 1;
    }
    assert(keys@ =~= keys_of(row@));
    let o = order::stable_order(&keys);
    let mut out: Vec<usize> = Vec::new();
    let mut k: usize = 0;
    while k < o.len()
        invariant
            k <= o@.len(),
            keys@.len() == row@.len(),
            order::is_stable_order(keys@, o@),
            out@ == within(row@, o@.take(k as int), limit),
        decreases o@.len() - k,
    {
        assert(o@.take(k + 1).drop_last() =~= o@.take(k as int));
        assert(o@[k as int] < row@.len());
        if row[o[k]] <= limit {
            out.push(o[k]);
        }
        k = k + 1;
    }
    assert(o@.take(o@.len() as int) =~= o@);
    out
}

/// A far point that names no region belongs to all those within the limit, and to no others.
pub proof fn law_far_points_go_to_the_near_regions(row: Seq<u64>, limit: u64, h: usize)
    requires
        row.len() <= usize::MAX,
        h < row.len(),
    ensures
        targets(None, Seq::empty(), row, limit).contains(h) <==> row[h as int] <= limit,
{
    let keys = keys_of(row);
    let o = order::ordered(keys);
    order::lemma_ordered(keys);
    order::lemma_stable_order_is_total(keys, o, h as int);
    lemma_within(row, o, limit, h);
}

proof fn lemma_within(row: Seq<u64>, o: Seq<usize>, limit: u64, h: usize)
    ensures
        within(row, o, limit).contains(h) <==> o.contains(h) && row[h as int] <= limit,
    decreases o.len(),
{
    if o.len() > 0 {
        let front = o.drop_last();
        lemma_within(row, front, limit, h);
        let before = within(row, front, limit);
        let all = within(row, o, limit);
        if o.last() == h {
            assert(o[o.len() - 1] == h);
            if row[h as int] <= limit {
                assert(all[all.len() - 1] == h);
            }
        }
        if before.contains(h) {
            let i = choose|i: int| 0 <= i < before.len() && before[i] == h;
            assert(all[i] == h);
        }
        if front.contains(h) {
            let i = choose|i: int| 0 <= i < front.len() && front[i] == h;
            assert(o[i] == h);
        }
        if all.contains(h) && !before.contains(h) {
            let i = choose|i: int| 0 <= i < all.len() && all[i] == h;
            assert(i == before.len());
            assert(o[o.len() - 1] == h);
        }
        if o.contains(h) && o.last() != h {
            let i = choose|i: int| 0 <= i < o.len() && o[i] == h;
            assert(front[i] == h);
        }
    }
}

// ---- Ways ----

/// The ends of a way, in the order of their names.
pub open spec fn pair_of(r: overview::RouteModel) -> (Seq<char>, Seq<char>) {
    if text::not_after(r.from, r.to) {
        (r.from, r.to)
    } else {
        (r.to, r.from)
    }
}

/// How many of the first `n` ways join the same places as a pair; with `told`, of those whose means
/// of transport is told.
pub open spec fn ways_between(
    routes: Seq<overview::RouteModel>,
    pair: (Seq<char>, Seq<char>),
    told: bool,
    n: int,
) -> nat
    decreases n,
{
    if n <= 0 {
        0
    } else {
        let r = routes[n - 1];
        ways_between(routes, pair, told, n - 1) + (if pair_of(r) == pair && (told ==> r.transport
            is Some) {
            1nat
        } else {
            0
        })
    }
}

/// The place of a name among the entries of a map: the last that bears it.
pub open spec fn last_place(names: Seq<Seq<char>>, name: Seq<char>) -> Option<int>
    decreases names.len(),
{
    if names.len() == 0 {
        None
    } else if names.last() == name {
        Some(names.len() - 1)
    } else {
        last_place(names.drop_last(), name)
    }
}

/// A way as it is drawn: the entries at its ends, how far it is moved aside, how far its words are
/// moved along it, and its colour.
#[derive(Clone, Copy, PartialEq, Eq, Structural, Debug)]
pub struct Lane {
    pub a: Option<usize>,
    pub b: Option<usize>,
    pub offset: i128,
    pub words_offset: i128,
    pub color: u32,
}

pub open spec fn entry_at(names: Seq<Seq<char>>, name: Seq<char>) -> Option<usize> {
    match last_place(names, name) {
        Some(i) => Some(i as usize),
        None => None,
    }
}

/// How far the `k`-th of several ways between two places is moved: they stand side by side, one step
/// apart, with the straight line in their middle.
pub open spec fn moved(k: int, total: int, half_step: int) -> int {
    (2 * k - (total - 1)) * half_step
}

/// The way `i` as it is drawn.
pub open spec fn lane_of(names: Seq<Seq<char>>, routes: Seq<overview::RouteModel>, i: int) -> Lane {
    let pair = pair_of(routes[i]);
    let total = ways_between(routes, pair, false, routes.len() as int) as int;
    Lane {
        a: entry_at(names, pair.0),
        b: entry_at(names, pair.1),
        offset: moved(ways_between(routes, pair, false, i) as int, total, 10) as i128,
        words_offset: moved(ways_between(routes, pair, true, i) as int, total, 20) as i128,
        color: way_color(i),
    }
}

fn find_last(names: &Vec<String>, name: &str) -> (r: Option<usize>)
    ensures
        r == entry_at(text::views(names@), name@),
{
    let ghost all = text::views(names@);
    let mut i: usize = names.len();
    assert(all.take(all.len() as int) =~= all);
    while i > 0
        invariant
            i <= names@.len(),
            all == text::views(names@),
            last_place(all, name@) == last_place(all.take(i as int), name@),
        decreases i,
    {
        i = i - 1;
        proof {
            assert(all.take(i + 1).drop_last() =~= all.take(i as int));
            assert(all.take(i + 1).last() == names@[i as int]@);
        }
        if text::same(names[i].as_str(), name) {
            return Some(i);
        }
    }
    None
}

fn same_ends(r: &RouteSeg, s: &RouteSeg) -> (b: bool)
    ensures
        b == (pair_of(r@) == pair_of(s@)),
{
    let (ra, rb) = if text::stands_not_after(r.from.as_str(), r.to.as_str()) {
        (&r.from, &r.to)
    } else {
        (&r.to, &r.from)
    };
    let (sa, sb) = if text::stands_not_after(s.from.as_str(), s.to.as_str()) {
        (&s.from, &s.to)
    } else {
        (&s.to, &s.from)
    };
    text::same(ra.as_str(), sa.as_str()) && text::same(rb.as_str(), sb.as_str())
}

/// How many of the first `n` ways join the same places as one of them.
fn count_ways(routes: &Vec<RouteSeg>, of: usize, told: bool, n: usize) -> (r: usize)
    requires
        of < routes@.len(),
        n <= routes@.len(),
    ensures
        r == ways_between(
            overview::route_models(routes@),
            pair_of(routes@[of as int]@),
            told,
            n as int,
        ),
        r <= n,
{
    let ghost all = overview::route_models(routes@);
    let mut r: usize = 0;
    let mut i: usize = 0;
    while i < n
        invariant
            i <= n <= routes@.len(),
            of < routes@.len(),
            all == overview::route_models(routes@),
            r == ways_between(all, pair_of(routes@[of as int]@), told, i as int),
            r <= i,
        decreases n - i,
    {
        assert(all[i as int] == routes@[i as int]@);
        let is_told = match &routes[i].transport {
            Some(_) => true,
            None => false,
        };
        if same_ends(&routes[i], &routes[of]) && (!told || is_told) {
            r = r + 1;
        }
        i = i + 1;
    }
    r
}

/// The ways as they are drawn.
pub fn lanes(names: &Vec<String>, routes: &Vec<RouteSeg>) -> (r: Vec<Lane>)
    ensures
        r@ == Seq::new(
            routes@.len(),
            |i: int| lane_of(text::views(names@), overview::route_models(routes@), i),
        ),
{
    let ghost all = overview::route_models(routes@);
    let mut out: Vec<Lane> = Vec::new();
    let mut i: usize = 0;
    while i < routes.len()
        invariant
            i <= routes@.len(),
            all == overview::route_models(routes@),
            out@.len() == i,
            forall|k: int| 0 <= k < i ==> #[trigger] out@[k] == lane_of(text::views(names@), all, k),
        decreases routes@.len() - i,
    {
        let r = &routes[i];
        assert(all[i as int] == r@);
        let total: i128 = count_ways(routes, i, false, routes.len()) as i128;
        let k: i128 = count_ways(routes, i, false, i) as i128;
        let t: i128 = count_ways(routes, i, true, i) as i128;
        let forward = text::stands_not_after(r.from.as_str(), r.to.as_str());
        let a = find_last(
            names,
            if forward {
                r.from.as_str()
            } else {
                r.to.as_str()
            },
        );
        let b = find_last(
            names,
            if forward {
                r.to.as_str()
            } else {
                r.from.as_str()
            },
        );
        let lane = Lane {
            a,
            b,
            offset: (2 * k - (total - 1)) * 10,
            words_offset: (2 * t - (total - 1)) * 20,
            color: palette(i),
        };
        out.push(lane);
        i = i + 1;
    }
    assert(out@ =~= Seq::new(routes@.len(), |i: int| lane_of(text::views(names@), all, i)));
    out
}

proof fn lemma_ways_grow(
    routes: Seq<overview::RouteModel>,
    pair: (Seq<char>, Seq<char>),
    told: bool,
    m: int,
    n: int,
)
    requires
        0 <= m <= n <= routes.len(),
    ensures
        ways_between(routes, pair, told, m) <= ways_between(routes, pair, told, n) <= n,
        ways_between(routes, pair, true, n) <= ways_between(routes, pair, false, n),
    decreases n,
{
    if n > 0 {
        if m < n {
            lemma_ways_grow(routes, pair, told, m, n - 1);
        } else {
            lemma_ways_grow(routes, pair, told, n - 1, n - 1);
        }
    }
}

/// Two ways between the same places do not lie on each other.
pub proof fn law_ways_lie_apart(
    names: Seq<Seq<char>>,
    routes: Seq<overview::RouteModel>,
    i: int,
    j: int,
)
    requires
        0 <= i < j < routes.len() <= usize::MAX,
        pair_of(routes[i]) == pair_of(routes[j]),
    ensures
        lane_of(names, routes, i).offset + 20 <= lane_of(names, routes, j).offset,
{
    let pair = pair_of(routes[i]);
    lemma_ways_grow(routes, pair, false, i + 1, j);
    lemma_ways_grow(routes, pair, false, 0, i);
    lemma_ways_grow(routes, pair, false, j, routes.len() as int);
}

/// The only way between two places is drawn straight between them.
pub proof fn law_single_way_is_straight(
    names: Seq<Seq<char>>,
    routes: Seq<overview::RouteModel>,
    i: int,
)
    requires
        0 <= i < routes.len() <= usize::MAX,
        forall|j: int| 0 <= j < routes.len() && j != i ==> pair_of(#[trigger] routes[j]) != pair_of(
            routes[i],
        ),
    ensures
        lane_of(names, routes, i).offset == 0,
        lane_of(names, routes, i).words_offset == 0,
{
    let pair = pair_of(routes[i]);
    lemma_no_ways(routes, pair, false, i);
    lemma_no_ways(routes, pair, true, i);
    lemma_one_way(routes, i, routes.len() as int);
}

proof fn lemma_no_ways(
    routes: Seq<overview::RouteModel>,
    pair: (Seq<char>, Seq<char>),
    told: bool,
    n: int,
)
    requires
        0 <= n <= routes.len(),
        forall|j: int| 0 <= j < n ==> pair_of(#[trigger] routes[j]) != pair,
    ensures
        ways_between(routes, pair, told, n) == 0,
    decreases n,
{
    if n > 0 {
        lemma_no_ways(routes, pair, told, n - 1);
    }
}

proof fn lemma_one_way(routes: Seq<overview::RouteModel>, i: int, n: int)
    requires
        0 <= i < n <= routes.len(),
        forall|j: int| 0 <= j < routes.len() && j != i ==> pair_of(#[trigger] routes[j]) != pair_of(
            routes[i],
        ),
    ensures
        ways_between(routes, pair_of(routes[i]), false, n) == 1,
    decreases n,
{
    if n - 1 == i {
        lemma_no_ways(routes, pair_of(routes[i]), false, i);
    } else {
        lemma_one_way(routes, i, n - 1);
    }
}

// ---- The legend ----

/// Whether a kind of point is on the map.
pub open spec fn has_kind(points: Seq<overview::PointModel>, k: PointKind) -> bool {
    exists|i: int| 0 <= i < points.len() && overview::kind_of((#[trigger] points[i]).point_type) == k
}

/// Whether there is a point in no region, and a region.
pub open spec fn has_remote(d: Seq<Vec<u64>>, hubs: int) -> bool {
    hubs > 0 && exists|p: int| 0 <= p < d.len() && is_remote((#[trigger] d[p])@)
}

pub open spec fn item(mark: Mark, text: Seq<char>) -> legend::ItemModel {
    legend::ItemModel { mark, text }
}

pub open spec fn item_if(b: bool, mark: Mark, text: Seq<char>) -> Seq<legend::ItemModel> {
    if b {
        seq![item(mark, text)]
    } else {
        Seq::empty()
    }
}

/// The items on what the marks of the map mean; there are only those that are on it.
pub open spec fn mark_items(
    title: Seq<char>,
    hubs: int,
    points: Seq<overview::PointModel>,
    remote: bool,
) -> Seq<legend::ItemModel> {
    seq![
        item(Mark::Plain, title),
        item(
            Mark::Marker,
            if hubs == 0 {
                "城市/候选地"@
            } else {
                "交通便利区（圈=大致范围）"@
            },
        ),
    ] + item_if(has_kind(points, PointKind::Scenic), Mark::Dot, "景点"@) + item_if(
        has_kind(points, PointKind::Station),
        Mark::Square,
        "火车站"@,
    ) + item_if(has_kind(points, PointKind::Airport), Mark::Cross, "机场"@) + item_if(
        remote,
        Mark::Thin(SPOKE),
        "辐射关系"@,
    )
}

/// The items on the groups that one label stands for.
pub open spec fn packed_items(packed: Seq<overview::PackedModel>) -> Seq<legend::ItemModel> {
    packed.map_values(
        |p: overview::PackedModel|
            item(Mark::Plain, p.summary + "："@ + text::joined(p.names, "、"@)),
    )
}

pub open spec fn transport_text(r: overview::RouteModel) -> Seq<char> {
    match r.transport {
        Some(t) => t,
        None => ""@,
    }
}

/// The items on the ways.
pub open spec fn way_items(routes: Seq<overview::RouteModel>) -> Seq<legend::ItemModel> {
    Seq::new(
        routes.len(),
        |i: int|
            item(
                Mark::Swatch(way_color(i)),
                routes[i].from + " → "@ + routes[i].to + " "@ + transport_text(routes[i]),
            ),
    )
}

/// The items of the legend.
pub open spec fn scene_items(
    title: Seq<char>,
    hubs: int,
    points: Seq<overview::PointModel>,
    remote: bool,
    packed: Seq<overview::PackedModel>,
    routes: Seq<overview::RouteModel>,
) -> Seq<legend::ItemModel> {
    mark_items(title, hubs, points, remote) + packed_items(packed) + way_items(routes)
}

fn shows_kind(points: &Vec<PointNode>, k: PointKind) -> (b: bool)
    ensures
        b == has_kind(overview::point_models(points@), k),
{
    let ghost all = overview::point_models(points@);
    let mut i: usize = 0;
    while i < points.len()
        invariant
            i <= points@.len(),
            all == overview::point_models(points@),
            forall|j: int| 0 <= j < i ==> overview::kind_of((#[trigger] all[j]).point_type) != k,
        decreases points@.len() - i,
    {
        assert(all[i as int] == points@[i as int]@);
        if overview::kind_of_point(&points[i]) == k {
            return true;
        }
        i = i + 1;
    }
    false
}

fn shows_remote(d: &Vec<Vec<u64>>, hubs: usize) -> (b: bool)
    ensures
        b == has_remote(d@, hubs as int),
{
    if hubs == 0 {
        return false;
    }
    let mut p: usize = 0;
    while p < d.len()
        invariant
            p <= d@.len(),
            hubs > 0,
            forall|q: int| 0 <= q < p ==> !is_remote((#[trigger] d@[q])@),
        decreases d@.len() - p,
    {
        if lies_outside(&d[p]) {
            return true;
        }
        p = p + 1;
    }
    false
}

fn add_if(items: &mut Vec<LegendItem>, b: bool, mark: Mark, text: &str)
    ensures
        legend::item_models(final(items)@) == legend::item_models(old(items)@) + item_if(
            b,
            mark,
            text@,
        ),
{
    let ghost before = legend::item_models(items@);
    if b {
        legend::add_item(items, mark, text);
    }
    assert(legend::item_models(items@) =~= before + item_if(b, mark, text@));
}

/// The items of the legend.
fn build_items(
    title: &str,
    hubs: usize,
    points: &Vec<PointNode>,
    remote: bool,
    packed: &Vec<Packed>,
    routes: &Vec<RouteSeg>,
) -> (r: Vec<LegendItem>)
    ensures
        legend::item_models(r@) == scene_items(
            title@,
            hubs as int,
            overview::point_models(points@),
            remote,
            overview::packed_models(packed@),
            overview::route_models(routes@),
        ),
{
    let ghost pm = overview::point_models(points@);
    let ghost km = overview::packed_models(packed@);
    let ghost rm = overview::route_models(routes@);
    let mut items: Vec<LegendItem> = Vec::new();
    legend::add_item(&mut items, Mark::Plain, title);
    if hubs == 0 {
        legend::add_item(&mut items, Mark::Marker, "城市/候选地");
    } else {
        legend::add_item(&mut items, Mark::Marker, "交通便利区（圈=大致范围）");
    }
    assert(legend::item_models(items@) =~= seq![
        item(Mark::Plain, title@),
        item(
            Mark::Marker,
            if hubs == 0 {
                "城市/候选地"@
            } else {
                "交通便利区（圈=大致范围）"@
            },
        ),
    ]);
    add_if(&mut items, shows_kind(points, PointKind::Scenic), Mark::Dot, "景点");
    add_if(&mut items, shows_kind(points, PointKind::Station), Mark::Square, "火车站");
    add_if(&mut items, shows_kind(points, PointKind::Airport), Mark::Cross, "机场");
    add_if(&mut items, remote, Mark::Thin(SPOKE), "辐射关系");
    let ghost head = mark_items(title@, hubs as int, pm, remote);
    assert(legend::item_models(items@) == head);
    let ghost pi = packed_items(km);
    let mut i: usize = 0;
    assert(legend::item_models(items@) =~= head + pi.take(0));
    while i < packed.len()
        invariant
            i <= packed@.len(),
            km == overview::packed_models(packed@),
            pi == packed_items(km),
            legend::item_models(items@) == head + pi.take(i as int),
        decreases packed@.len() - i,
    {
        let mut s = text::copy_text(packed[i].summary.as_str());
        s.append("：");
        s.append(text::join(&packed[i].names, "、").as_str());
        assert(km[i as int] == packed@[i as int]@);
        assert(pi[i as int] == item(Mark::Plain, s@));
        legend::add_item(&mut items, Mark::Plain, s.as_str());
        assert(legend::item_models(items@) =~= head + pi.take(i + 1));
        i = i + 1;
    }
    assert(pi.take(pi.len() as int) =~= pi);
    let ghost middle = head + pi;
    let ghost wi = way_items(rm);
    let mut k: usize = 0;
    assert(legend::item_models(items@) =~= middle + wi.take(0));
    while k < routes.len()
        invariant
            k <= routes@.len(),
            rm == overview::route_models(routes@),
            wi == way_items(rm),
            legend::item_models(items@) == middle + wi.take(k as int),
        decreases routes@.len() - k,
    {
        let r = &routes[k];
        let mut s = text::copy_text(r.from.as_str());
        s.append(" → ");
        s.append(r.to.as_str());
        s.append(" ");
        match &r.transport {
            Some(t) => s.append(t.as_str()),
            None => s.append(""),
        }
        assert(rm[k as int] == r@);
        assert(wi[k as int] == item(Mark::Swatch(way_color(k as int)), s@));
        legend::add_item(&mut items, Mark::Swatch(palette(k)), s.as_str());
        assert(legend::item_models(items@) =~= middle + wi.take(k + 1));
        k = k + 1;
    }
    assert(wi.take(wi.len() as int) =~= wi);
    items
}

// ---- The order of drawing ----

/// A step of the drawing. Numbers stand for regions, points, ways, entries and groups.
#[derive(Clone, Copy, PartialEq, Eq, Structural, Debug)]
pub enum Op {
    /// The lines of the grid.
    Grid,
    /// The circle round a region.
    Circle(usize),
    /// The thin line from a far point to a region.
    Spoke(usize, usize),
    /// A way.
    Way(usize),
    /// The mark of a region.
    HubMark(usize),
    /// The mark of a point.
    PointMark(usize, PointKind),
    /// The label of an entry.
    Label(usize),
    /// The label that stands for a group.
    GroupLabel(usize),
    /// The words by a way.
    WayWords(usize),
    /// The degrees at the grid.
    Degrees,
    /// The arrow to the north.
    Compass,
    /// The legend.
    Legend,
}

/// The thin lines from the first `n` points to the regions that they belong to.
pub open spec fn spokes(
    hubs: Seq<Seq<char>>,
    points: Seq<overview::PointModel>,
    d: Seq<Vec<u64>>,
    limits: Seq<u64>,
    n: int,
) -> Seq<Op>
    decreases n,
{
    if n <= 0 {
        Seq::empty()
    } else {
        let before = spokes(hubs, points, d, limits, n - 1);
        if is_remote(d[n - 1]@) {
            before + targets(points[n - 1].hubs, hubs, d[n - 1]@, limits[n - 1]).map_values(
                |h: usize| Op::Spoke((n - 1) as usize, h),
            )
        } else {
            before
        }
    }
}

/// The words by the first `n` ways: those whose means of transport is told.
pub open spec fn way_words(routes: Seq<overview::RouteModel>, n: int) -> Seq<Op>
    decreases n,
{
    if n <= 0 {
        Seq::empty()
    } else {
        let before = way_words(routes, n - 1);
        if routes[n - 1].transport is Some {
            before.push(Op::WayWords((n - 1) as usize))
        } else {
            before
        }
    }
}

pub open spec fn circle_ops(n: nat) -> Seq<Op> {
    Seq::new(n, |i: int| Op::Circle(i as usize))
}

pub open spec fn way_ops(n: nat) -> Seq<Op> {
    Seq::new(n, |i: int| Op::Way(i as usize))
}

pub open spec fn hub_marks(n: nat) -> Seq<Op> {
    Seq::new(n, |i: int| Op::HubMark(i as usize))
}

pub open spec fn point_marks(points: Seq<overview::PointModel>) -> Seq<Op> {
    Seq::new(
        points.len(),
        |i: int| Op::PointMark(i as usize, overview::kind_of(points[i].point_type)),
    )
}

pub open spec fn label_ops(singles: Seq<usize>) -> Seq<Op> {
    singles.map_values(|e: usize| Op::Label(e))
}

pub open spec fn group_label_ops(n: nat) -> Seq<Op> {
    Seq::new(n, |i: int| Op::GroupLabel(i as usize))
}

/// What is drawn without words, from the ground up: the grid, circles, lines to far points, ways,
/// marks.
pub open spec fn plain_ops(
    hubs: Seq<Seq<char>>,
    points: Seq<overview::PointModel>,
    d: Seq<Vec<u64>>,
    limits: Seq<u64>,
    routes: nat,
) -> Seq<Op> {
    seq![Op::Grid] + circle_ops(hubs.len()) + spokes(hubs, points, d, limits, points.len() as int)
        + way_ops(routes) + hub_marks(hubs.len()) + point_marks(points)
}

/// What is drawn over it in words: labels, the words by the ways, degrees, arrow and legend.
pub open spec fn word_ops(singles: Seq<usize>, packed: nat, routes: Seq<overview::RouteModel>) -> Seq<
    Op,
> {
    label_ops(singles) + group_label_ops(packed) + way_words(routes, routes.len() as int) + seq![
        Op::Degrees,
        Op::Compass,
        Op::Legend,
    ]
}

/// The layer that a step belongs to.
pub open spec fn layer(op: Op) -> int {
    match op {
        Op::Grid => 0,
        Op::Circle(_) => 1,
        Op::Spoke(_, _) => 2,
        Op::Way(_) => 3,
        Op::HubMark(_) => 4,
        Op::PointMark(_, _) => 5,
        Op::Label(_) => 6,
        Op::GroupLabel(_) => 7,
        Op::WayWords(_) => 8,
        Op::Degrees => 9,
        Op::Compass => 10,
        Op::Legend => 11,
    }
}

/// Whether the steps go from layer to layer, within some of them.
spec fn is_layered(ops: Seq<Op>, lo: int, hi: int) -> bool {
    &&& forall|i: int| 0 <= i < ops.len() ==> lo <= layer(#[trigger] ops[i]) <= hi
    &&& forall|i: int, j: int|
        0 <= i < j < ops.len() ==> layer(#[trigger] ops[i]) <= layer(#[trigger] ops[j])
}

proof fn lemma_layers_join(a: Seq<Op>, b: Seq<Op>, lo: int, m: int, k: int, hi: int)
    requires
        is_layered(a, lo, m),
        is_layered(b, k, hi),
        lo <= m <= k <= hi,
    ensures
        is_layered(a + b, lo, hi),
{
    let s = a + b;
    assert forall|i: int| 0 <= i < s.len() implies lo <= layer(#[trigger] s[i]) <= hi by {
        if i < a.len() {
            assert(s[i] == a[i]);
        } else {
            assert(s[i] == b[i - a.len()]);
        }
    }
    assert forall|i: int, j: int| 0 <= i < j < s.len() implies layer(#[trigger] s[i]) <= layer(
        #[trigger] s[j],
    ) by {
        if j < a.len() {
            assert(s[i] == a[i] && s[j] == a[j]);
        } else if i < a.len() {
            assert(s[i] == a[i] && s[j] == b[j - a.len()]);
        } else {
            assert(s[i] == b[i - a.len()] && s[j] == b[j - a.len()]);
        }
    }
}

proof fn lemma_spokes_layer(
    hubs: Seq<Seq<char>>,
    points: Seq<overview::PointModel>,
    d: Seq<Vec<u64>>,
    limits: Seq<u64>,
    n: int,
)
    ensures
        is_layered(spokes(hubs, points, d, limits, n), 2, 2),
    decreases n,
{
    if n > 0 {
        lemma_spokes_layer(hubs, points, d, limits, n - 1);
    }
}

proof fn lemma_way_words_layer(routes: Seq<overview::RouteModel>, n: int)
    ensures
        is_layered(way_words(routes, n), 8, 8),
    decreases n,
{
    if n > 0 {
        lemma_way_words_layer(routes, n - 1);
    }
}

/// Circles lie under the lines to far points, these under the ways, these under the marks, and all
/// of it under the words.
pub proof fn law_layers(
    hubs: Seq<Seq<char>>,
    points: Seq<overview::PointModel>,
    d: Seq<Vec<u64>>,
    limits: Seq<u64>,
    routes: Seq<overview::RouteModel>,
    singles: Seq<usize>,
    packed: nat,
    i: int,
    j: int,
)
    requires
        ({
            let ops = plain_ops(hubs, points, d, limits, routes.len()) + word_ops(
                singles,
                packed,
                routes,
            );
            0 <= i < j < ops.len()
        }),
    ensures
        ({
            let ops = plain_ops(hubs, points, d, limits, routes.len()) + word_ops(
                singles,
                packed,
                routes,
            );
            layer(ops[i]) <= layer(ops[j])
        }),
{
    let sp = spokes(hubs, points, d, limits, points.len() as int);
    lemma_spokes_layer(hubs, points, d, limits, points.len() as int);
    let a0 = seq![Op::Grid];
    let a1 = a0 + circle_ops(hubs.len());
    lemma_layers_join(a0, circle_ops(hubs.len()), 0, 0, 1, 1);
    let a2 = a1 + sp;
    lemma_layers_join(a1, sp, 0, 1, 2, 2);
    let a3 = a2 + way_ops(routes.len());
    lemma_layers_join(a2, way_ops(routes.len()), 0, 2, 3, 3);
    let a4 = a3 + hub_marks(hubs.len());
    lemma_layers_join(a3, hub_marks(hubs.len()), 0, 3, 4, 4);
    let a5 = a4 + point_marks(points);
    lemma_layers_join(a4, point_marks(points), 0, 4, 5, 5);
    let ww = way_words(routes, routes.len() as int);
    lemma_way_words_layer(routes, routes.len() as int);
    let b1 = label_ops(singles) + group_label_ops(packed);
    lemma_layers_join(label_ops(singles), group_label_ops(packed), 6, 6, 7, 7);
    let b2 = b1 + ww;
    lemma_layers_join(b1, ww, 6, 7, 8, 8);
    let tail = seq![Op::Degrees, Op::Compass, Op::Legend];
    lemma_layers_join(b2, tail, 6, 8, 9, 11);
    lemma_layers_join(a5, b2 + tail, 0, 5, 6, 11);
}

fn add_plain_ops(
    ops: &mut Vec<Op>,
    hubs: &Vec<String>,
    points: &Vec<PointNode>,
    d: &Vec<Vec<u64>>,
    limits: &Vec<u64>,
    routes: usize,
)
    requires
        old(ops)@.len() == 0,
        is_table(d@, points@.len() as int, hubs@.len() as int),
        limits@.len() == points@.len(),
    ensures
        final(ops)@ == plain_ops(
            text::views(hubs@),
            overview::point_models(points@),
            d@,
            limits@,
            routes as nat,
        ),
{
    let ghost names = text::views(hubs@);
    let ghost pm = overview::point_models(points@);
    ops.push(Op::Grid);
    let ghost g0 = seq![Op::Grid];
    let n: usize = hubs.len();
    let mut i: usize = 0;
    assert(ops@ =~= g0 + circle_ops(n as nat).take(0));
    while i < n
        invariant
            i <= n,
            ops@ == g0 + circle_ops(n as nat).take(i as int),
        decreases n - i,
    {
        ops.push(Op::Circle(i));
        assert(ops@ =~= g0 + circle_ops(n as nat).take(i + 1));
        i = i + 1;
    }
    let ghost g1 = g0 + circle_ops(n as nat);
    assert(ops@ =~= g1);
    let mut p: usize = 0;
    assert(ops@ =~= g1 + spokes(names, pm, d@, limits@, 0));
    while p < points.len()
        invariant
            p <= points@.len(),
            names == text::views(hubs@),
            pm == overview::point_models(points@),
            is_table(d@, points@.len() as int, hubs@.len() as int),
            limits@.len() == points@.len(),
            ops@ == g1 + spokes(names, pm, d@, limits@, p as int),
        decreases points@.len() - p,
    {
        assert(pm[p as int] == points@[p as int]@);
        if lies_outside(&d[p]) {
            let t = remote_targets(&points[p].hubs, hubs, &d[p], limits[p]);
            let ghost before = ops@;
            let ghost lines = t@.map_values(|h: usize| Op::Spoke(p, h));
            let mut k: usize = 0;
            assert(ops@ =~= before + lines.take(0));
            while k < t.len()
                invariant
                    k <= t@.len(),
                    lines == t@.map_values(|h: usize| Op::Spoke(p, h)),
                    ops@ == before + lines.take(k as int),
                decreases t@.len() - k,
            {
                ops.push(Op::Spoke(p, t[k]));
                assert(ops@ =~= before + lines.take(k + 1));
                k = k + 1;
            }
            assert(lines.take(lines.len() as int) =~= lines);
            assert(ops@ =~= g1 + spokes(names, pm, d@, limits@, p + 1));
        }
        p = p + 1;
    }
    let ghost g2 = g1 + spokes(names, pm, d@, limits@, pm.len() as int);
    let mut r: usize = 0;
    assert(ops@ =~= g2 + way_ops(routes as nat).take(0));
    while r < routes
        invariant
            r <= routes,
            ops@ == g2 + way_ops(routes as nat).take(r as int),
        decreases routes - r,
    {
        ops.push(Op::Way(r));
        assert(ops@ =~= g2 + way_ops(routes as nat).take(r + 1));
        r = r + 1;
    }
    let ghost g3 = g2 + way_ops(routes as nat);
    assert(ops@ =~= g3);
    let mut h: usize = 0;
    assert(ops@ =~= g3 + hub_marks(n as nat).take(0));
    while h < n
        invariant
            h <= n,
            ops@ == g3 + hub_marks(n as nat).take(h as int),
        decreases n - h,
    {
        ops.push(Op::HubMark(h));
        assert(ops@ =~= g3 + hub_marks(n as nat).take(h + 1));
        h = h + 1;
    }
    let ghost g4 = g3 + hub_marks(n as nat);
    assert(ops@ =~= g4);
    let ghost marks = point_marks(pm);
    let mut q: usize = 0;
    assert(ops@ =~= g4 + marks.take(0));
    while q < points.len()
        invariant
            q <= points@.len(),
            pm == overview::point_models(points@),
            marks == point_marks(pm),
            ops@ == g4 + marks.take(q as int),
        decreases points@.len() - q,
    {
        assert(pm[q as int] == points@[q as int]@);
        ops.push(Op::PointMark(q, overview::kind_of_point(&points[q])));
        assert(ops@ =~= g4 + marks.take(q + 1));
        q = q + 1;
    }
    assert(marks.take(marks.len() as int) =~= marks);
}

fn add_word_ops(ops: &mut Vec<Op>, singles: &Vec<usize>, packed: usize, routes: &Vec<RouteSeg>)
    ensures
        final(ops)@ == old(ops)@ + word_ops(
            singles@,
            packed as nat,
            overview::route_models(routes@),
        ),
{
    let ghost g0 = ops@;
    let ghost rm = overview::route_models(routes@);
    let ghost labels = label_ops(singles@);
    let mut i: usize = 0;
    assert(ops@ =~= g0 + labels.take(0));
    while i < singles.len()
        invariant
            i <= singles@.len(),
            labels == label_ops(singles@),
            ops@ == g0 + labels.take(i as int),
        decreases singles@.len() - i,
    {
        ops.push(Op::Label(singles[i]));
        assert(ops@ =~= g0 + labels.take(i + 1));
        i = i + 1;
    }
    assert(labels.take(labels.len() as int) =~= labels);
    let ghost g1 = g0 + labels;
    let mut k: usize = 0;
    assert(ops@ =~= g1 + group_label_ops(packed as nat).take(0));
    while k < packed
        invariant
            k <= packed,
            ops@ == g1 + group_label_ops(packed as nat).take(k as int),
        decreases packed - k,
    {
        ops.push(Op::GroupLabel(k));
        assert(ops@ =~= g1 + group_label_ops(packed as nat).take(k + 1));
        k = k + 1;
    }
    let ghost g2 = g1 + group_label_ops(packed as nat);
    assert(ops@ =~= g2);
    let mut r: usize = 0;
    assert(ops@ =~= g2 + way_words(rm, 0));
    while r < routes.len()
        invariant
            r <= routes@.len(),
            rm == overview::route_models(routes@),
            ops@ == g2 + way_words(rm, r as int),
        decreases routes@.len() - r,
    {
        assert(rm[r as int] == routes@[r as int]@);
        match &routes[r].transport {
            Some(_) => {
                ops.push(Op::WayWords(r));
                assert(ops@ =~= g2 + way_words(rm, r + 1));
            },
            None => {},
        }
        r = r + 1;
    }
    ops.push(Op::Degrees);
    ops.push(Op::Compass);
    ops.push(Op::Legend);
    assert(ops@ =~= g0 + word_ops(singles@, packed as nat, rm));
}

/// An overview map to be drawn.
pub struct Scene {
    pub items: Vec<LegendItem>,
    pub packed: Vec<Packed>,
    pub lanes: Vec<Lane>,
    pub ops: Vec<Op>,
    /// The height that the legend takes at the foot.
    pub band: i128,
}

/// What has a label: the regions, then the points.
pub open spec fn entries_of(hubs: Seq<Seq<char>>, points: Seq<overview::PointModel>) -> Seq<
    (bool, Seq<char>),
> {
    hubs.map_values(|n: Seq<char>| (true, n)) + points.map_values(
        |p: overview::PointModel| (false, p.name),
    )
}

/// Whether a map is to be drawn as the order for it says: `groups` are the groups of touching
/// labels, `d` the distances of points from regions, `limits` how far a far point's regions lie.
/// Without a font there are no words on it.
pub open spec fn is_scene(
    s: Scene,
    title: Seq<char>,
    hubs: Seq<Seq<char>>,
    points: Seq<overview::PointModel>,
    routes: Seq<overview::RouteModel>,
    d: Seq<Vec<u64>>,
    limits: Seq<u64>,
    groups: Seq<Seq<usize>>,
    allow_pack: bool,
    font: Option<Seq<u8>>,
) -> bool {
    let names = overview::all_names(hubs, points);
    let plain = plain_ops(hubs, points, d, limits, routes.len());
    let remote = has_remote(d, hubs.len() as int);
    &&& s.lanes@ == Seq::new(routes.len(), |i: int| lane_of(names, routes, i))
    &&& legend::item_models(s.items@) == scene_items(
        title,
        hubs.len() as int,
        points,
        remote,
        overview::packed_models(s.packed@),
        routes,
    )
    &&& match font {
        Some(f) => {
            &&& overview::packed_models(s.packed@) == overview::packed_labels(
                entries_of(hubs, points),
                groups,
                allow_pack,
            )
            &&& s.ops@ == plain + word_ops(
                overview::single_labels(groups, allow_pack),
                s.packed@.len(),
                routes,
            )
            &&& s.band == legend::box_height(f, legend::item_models(s.items@), WIDTH as int)
                + legend::MARGIN
        },
        None => {
            &&& s.packed@.len() == 0
            &&& s.ops@ == plain
            &&& s.band == 0
        },
    }
}

pub open spec fn bytes_of(font: Option<Vec<u8>>) -> Option<Seq<u8>> {
    match font {
        Some(f) => Some(f@),
        None => None,
    }
}

fn entries_list(hubs: &Vec<Poi>, points: &Vec<PointNode>) -> (r: Vec<(bool, String)>)
    ensures
        overview::entry_models(r@) == entries_of(
            overview::hub_names(hubs@),
            overview::point_models(points@),
        ),
        r@.len() == hubs@.len() + points@.len(),
{
    let ghost all = entries_of(overview::hub_names(hubs@), overview::point_models(points@));
    let mut out: Vec<(bool, String)> = Vec::new();
    let mut i: usize = 0;
    assert(overview::entry_models(out@) =~= all.take(0));
    while i < hubs.len()
        invariant
            i <= hubs@.len(),
            all == entries_of(overview::hub_names(hubs@), overview::point_models(points@)),
            overview::entry_models(out@) == all.take(i as int),
            out@.len() == i,
        decreases hubs@.len() - i,
    {
        let ghost before = out@;
        let e = (true, text::copy_text(hubs[i].name.as_str()));
        out.push(e);
        assert(overview::entry_models(out@) =~= overview::entry_models(before).push((true, e.1@)));
        assert(overview::entry_models(out@) =~= all.take(i + 1));
        i = i + 1;
    }
    let mut p: usize = 0;
    while p < points.len()
        invariant
            p <= points@.len(),
            all == entries_of(overview::hub_names(hubs@), overview::point_models(points@)),
            overview::entry_models(out@) == all.take((hubs@.len() + p) as int),
            out@.len() == hubs@.len() + p,
        decreases points@.len() - p,
    {
        let ghost before = out@;
        let e = (false, text::copy_text(points[p].name.as_str()));
        out.push(e);
        assert(overview::entry_models(out@) =~= overview::entry_models(before).push((false, e.1@)));
        assert(overview::entry_models(out@) =~= all.take((hubs@.len() + p + 1) as int));
        p = p + 1;
    }
    assert(all.take(all.len() as int) =~= all);
    out
}

/// An overview map to be drawn: `groups` are the groups of touching labels, `d` the distances of
/// the points from the regions, `limits` how far the regions of each far point lie.
pub fn render_scene(
    title: &str,
    hubs: &Vec<Poi>,
    points: &Vec<PointNode>,
    routes: &Vec<RouteSeg>,
    d: &Vec<Vec<u64>>,
    limits: &Vec<u64>,
    groups: &Vec<Vec<usize>>,
    allow_pack: bool,
    font: &Option<Vec<u8>>,
) -> (r: Scene)
    requires
        is_table(d@, points@.len() as int, hubs@.len() as int),
        limits@.len() == points@.len(),
        font is Some ==> overview::are_groups(
            legend::row_views(groups@),
            (hubs@.len() + points@.len()) as int,
        ),
    ensures
        is_scene(
            r,
            title@,
            overview::hub_names(hubs@),
            overview::point_models(points@),
            overview::route_models(routes@),
            d@,
            limits@,
            legend::row_views(groups@),
            allow_pack,
            bytes_of(*font),
        ),
{
    let mut hub_list: Vec<String> = Vec::new();
    overview::add_hub_names(hubs, &mut hub_list);
    assert(text::views(hub_list@) =~= overview::hub_names(hubs@));
    assert(hub_list@.len() == text::views(hub_list@).len());
    let names = overview::names_of(hubs, points);
    let lanes = lanes(&names, routes);
    let mut ops: Vec<Op> = Vec::new();
    add_plain_ops(&mut ops, &hub_list, points, d, limits, routes.len());
    let remote = shows_remote(d, hubs.len());
    match font {
        Some(f) => {
            let entries = entries_list(hubs, points);
            let (singles, packed) = overview::label_plan(&entries, groups, allow_pack);
            let items = build_items(title, hubs.len(), points, remote, &packed, routes);
            add_word_ops(&mut ops, &singles, packed.len(), routes);
            let band = legend::flow_legend_band(&items, f, WIDTH);
            Scene { items, packed, lanes, ops, band }
        },
        None => {
            let packed: Vec<Packed> = Vec::new();
            let items = build_items(title, hubs.len(), points, remote, &packed, routes);
            Scene { items, packed, lanes, ops, band: 0 }
        },
    }
}

// ---- Labels ----

/// Whether a label of a width stands left of its place: right of it, it would leave the picture.
pub open spec fn turns_left(x: int, width: int, img_w: int) -> bool {
    x + 14 + width > img_w - 4
}

/// Whether a label stands left of its place.
pub fn label_stands_left(x: i32, width: u32, img_w: i32) -> (b: bool)
    ensures
        b == turns_left(x as int, width as int, img_w as int),
{
    x as i64 + 14 + width as i64 > img_w as i64 - 4
}

// ---- Strokes ----

/// The pixels of a broken line that are coloured, and those of a stretch with its gap.
pub const DASH_ON: u32 = 14;

pub const DASH_CYCLE: u32 = 22;

/// The radius of the circles that a line of a width is made of.
pub open spec fn brush(width: u8) -> int {
    if width <= 2 {
        1
    } else {
        (width + 1) / 2
    }
}

/// The colour of the circle at a step of a line.
pub open spec fn dash_color(step: u32, color: u32, dash: bool) -> u32 {
    if dash && step % DASH_CYCLE >= DASH_ON {
        DASH_GAP
    } else {
        color
    }
}

/// The radius of the circles that a line is made of.
pub fn stroke_radius(width: u8) -> (r: u8)
    ensures
        r == brush(width),
{
    if width <= 2 {
        1
    } else {
        width / 2 + width % 2
    }
}

/// The colour at a step of a line.
pub fn stroke_color(step: u32, color: u32, dash: bool) -> (c: u32)
    ensures
        c == dash_color(step, color, dash),
{
    if dash && step % DASH_CYCLE >= DASH_ON {
        DASH_GAP
    } else {
        color
    }
}

/// The mark of a region, round the place where it lies.
pub open spec fn hub_figures() -> Seq<Figure> {
    seq![
        Figure::Disc { x: 0, y: 0, r: 12, color: HALO },
        Figure::Ring { x: 0, y: 0, r: 10, color: legend::RING },
        Figure::Disc { x: 0, y: 0, r: 3, color: legend::RING },
    ]
}

pub open spec fn stroke(x0: int, y0: int, x1: int, y1: int, color: u32, width: u8) -> Figure {
    Figure::Line {
        x0: x0 as i128,
        y0: y0 as i128,
        x1: x1 as i128,
        y1: y1 as i128,
        color,
        width,
        dash: false,
    }
}

/// The mark of a point, round the place where it lies.
pub open spec fn point_figures(kind: PointKind) -> Seq<Figure> {
    match kind {
        PointKind::Station => seq![
            Figure::Block { x: -8i128, y: -8i128, w: 16, h: 16, color: HALO },
            Figure::Block { x: -5i128, y: -5i128, w: 10, h: 10, color: legend::RING },
        ],
        PointKind::Airport => seq![
            stroke(-7, -7, 7, 7, HALO, 8),
            stroke(-7, 7, 7, -7, HALO, 8),
            stroke(-7, -7, 7, 7, legend::RING, 4),
            stroke(-7, 7, 7, -7, legend::RING, 4),
        ],
        PointKind::Scenic => seq![
            Figure::Disc { x: 0, y: 0, r: 7, color: HALO },
            Figure::Disc { x: 0, y: 0, r: 4, color: legend::RING },
        ],
        PointKind::City => seq![
            Figure::Disc { x: 0, y: 0, r: 11, color: HALO },
            Figure::Ring { x: 0, y: 0, r: 9, color: legend::RING },
            Figure::Disc { x: 0, y: 0, r: 2, color: legend::RING },
        ],
    }
}

/// The mark of a region, round the place where it lies.
pub fn hub_marker() -> (r: Vec<Figure>)
    ensures
        r@ == hub_figures(),
{
    let mut v: Vec<Figure> = Vec::new();
    v.push(Figure::Disc { x: 0, y: 0, r: 12, color: HALO });
    v.push(Figure::Ring { x: 0, y: 0, r: 10, color: legend::RING });
    v.push(Figure::Disc { x: 0, y: 0, r: 3, color: legend::RING });
    assert(v@ =~= hub_figures());
    v
}

fn line(x0: i128, y0: i128, x1: i128, y1: i128, color: u32, width: u8) -> (f: Figure)
    ensures
        f == stroke(x0 as int, y0 as int, x1 as int, y1 as int, color, width),
{
    Figure::Line { x0, y0, x1, y1, color, width, dash: false }
}

/// The mark of a point, round the place where it lies.
pub fn point_marker(kind: PointKind) -> (r: Vec<Figure>)
    ensures
        r@ == point_figures(kind),
{
    let mut v: Vec<Figure> = Vec::new();
    match kind {
        PointKind::Station => {
            v.push(Figure::Block { x: -8, y: -8, w: 16, h: 16, color: HALO });
            v.push(Figure::Block { x: -5, y: -5, w: 10, h: 10, color: legend::RING });
        },
        PointKind::Airport => {
            v.push(line(-7, -7, 7, 7, HALO, 8));
            v.push(line(-7, 7, 7, -7, HALO, 8));
            v.push(line(-7, -7, 7, 7, legend::RING, 4));
            v.push(line(-7, 7, 7, -7, legend::RING, 4));
        },
        PointKind::Scenic => {
            v.push(Figure::Disc { x: 0, y: 0, r: 7, color: HALO });
            v.push(Figure::Disc { x: 0, y: 0, r: 4, color: legend::RING });
        },
        PointKind::City => {
            v.push(Figure::Disc { x: 0, y: 0, r: 11, color: HALO });
            v.push(Figure::Ring { x: 0, y: 0, r: 9, color: legend::RING });
            v.push(Figure::Disc { x: 0, y: 0, r: 2, color: legend::RING });
        },
    }
    assert(v@ =~= point_figures(kind));
    v
}

/// The arrow to the north in the upper right corner.
pub open spec fn compass_shapes() -> Seq<legend::ShapeModel> {
    let x = WIDTH - 45;
    seq![
        legend::ShapeModel::Draw(stroke(x, 30, x, 74, legend::RING, 4)),
        legend::ShapeModel::Draw(stroke(x, 30, x - 8, 44, legend::RING, 4)),
        legend::ShapeModel::Draw(stroke(x, 30, x + 8, 44, legend::RING, 4)),
        legend::ShapeModel::Words { x: x - 7, y: 8, px: 22, color: legend::RING, text: "N"@ },
    ]
}

/// The arrow to the north in the upper right corner.
pub fn compass() -> (r: Vec<Shape>)
    ensures
        legend::shape_models(r@) == compass_shapes(),
{
    let x: i128 = WIDTH as i128 - 45;
    let mut v: Vec<Shape> = Vec::new();
    legend::add_figure(&mut v, line(x, 30, x, 74, legend::RING, 4));
    legend::add_figure(&mut v, line(x, 30, x - 8, 44, legend::RING, 4));
    legend::add_figure(&mut v, line(x, 30, x + 8, 44, legend::RING, 4));
    legend::add_words(&mut v, x - 7, 8, 22, legend::RING, "N");
    assert(legend::shape_models(v@) =~= compass_shapes());
    v
}

// ---- What a scene shows ----

/// The colours of the ways come round in turn, so that a way never has that of one of the seven before
/// it.
pub proof fn law_way_colours_come_round(i: int, j: int)
    requires
        0 <= i,
        0 <= j,
    ensures
        way_color(i) == seq![
            0xDC2626FFu32,
            0x2563EBFF,
            0x16A34AFF,
            0xF97316FF,
            0x9333EAFF,
            0x0D9488FF,
            0xB45309FF,
            0xEC4899FF,
        ][i % 8],
        way_color(i) == way_color(j) <==> i % 8 == j % 8,
{
}

/// A point is far exactly where every region is more than twenty kilometres away; the circle of a
/// region reaches to the farthest point that is not farther than that.
pub proof fn law_far_points_are_far_from_all(d: Seq<Vec<u64>>, row: Seq<u64>, h: int, n: int)
    requires
        0 <= n <= d.len(),
    ensures
        is_remote(row) <==> forall|k: int|
            0 <= k < row.len() ==> (#[trigger] row[k]) > 0x4034_0000_0000_0000u64,
        inner_reach(d, h, n) <= 0x4034_0000_0000_0000u64,
        forall|p: int|
            0 <= p < n && (#[trigger] d[p])@[h] <= 0x4034_0000_0000_0000u64 ==> d[p]@[h]
                <= inner_reach(d, h, n),
        inner_reach(d, h, n) == 0 || exists|p: int|
            0 <= p < n && (#[trigger] d[p])@[h] == inner_reach(d, h, n),
{
    law_reach_is_the_farthest_inside(d, h, n);
}

proof fn lemma_place_found(names: Seq<Seq<char>>, name: Seq<char>, from: int)
    requires
        0 <= from,
    ensures
        match place_of(names, name, from) {
            Some(i) => from <= i < names.len() && names[i] == name && forall|j: int|
                from <= j < i ==> #[trigger] names[j] != name,
            None => forall|j: int| from <= j < names.len() ==> #[trigger] names[j] != name,
        },
    decreases names.len() - from,
{
    if from < names.len() && names[from] != name {
        lemma_place_found(names, name, from + 1);
    }
}

/// A point that names regions is joined to those and to no other, in the order in which it names
/// them.
pub proof fn law_named_regions_are_joined(
    hubs: Seq<Seq<char>>,
    names: Seq<Seq<char>>,
    name: Seq<char>,
    row: Seq<u64>,
    limit: u64,
)
    requires
        hubs.len() <= usize::MAX,
    ensures
        names.len() > 0 ==> targets(Some(names), hubs, row, limit) == named_targets(hubs, names),
        named_targets(hubs, Seq::empty()).len() == 0,
        hubs.contains(name) ==> {
            let before = named_targets(hubs, names);
            let after = named_targets(hubs, names.push(name));
            &&& after.len() == before.len() + 1
            &&& after.drop_last() == before
            &&& after.last() < hubs.len()
            &&& hubs[after.last() as int] == name
        },
        !hubs.contains(name) ==> named_targets(hubs, names.push(name)) == named_targets(hubs, names),
        targets(Some(Seq::empty()), hubs, row, limit) == targets(None, hubs, row, limit),
{
    lemma_place_found(hubs, name, 0);
    assert(names.push(name).drop_last() =~= names);
    let before = named_targets(hubs, names);
    let after = named_targets(hubs, names.push(name));
    if hubs.contains(name) {
        let i = choose|i: int| 0 <= i < hubs.len() && hubs[i] == name;
        assert(hubs[i] == name);
        assert(after.drop_last() =~= before);
    } else {
        match place_of(hubs, name, 0) {
            Some(i) => {
                assert(hubs.contains(hubs[i]));
            },
            None => {},
        }
    }
}

/// A far point that names no region is joined to those within its limit, the nearest first.
pub proof fn law_near_regions_are_joined_in_order(row: Seq<u64>, limit: u64, o: Seq<usize>)
    requires
        order::is_stable_order(keys_of(row), o),
    ensures
        ({
            let near = within(row, o, limit);
            &&& forall|i: int| 0 <= i < near.len() ==> row[(#[trigger] near[i]) as int] <= limit
            &&& forall|i: int, j: int|
                0 <= i < j < near.len() ==> {
                    let a = #[trigger] near[i];
                    let b = #[trigger] near[j];
                    row[a as int] < row[b as int] || (row[a as int] == row[b as int] && a < b)
                }
        }),
{
    lemma_within_order(row, limit, o, o.len() as int);
    assert(o.take(o.len() as int) =~= o);
}

proof fn lemma_within_order(row: Seq<u64>, limit: u64, o: Seq<usize>, n: int)
    requires
        order::is_stable_order(keys_of(row), o),
        0 <= n <= o.len(),
    ensures
        ({
            let near = within(row, o.take(n), limit);
            &&& forall|i: int|
                0 <= i < near.len() ==> row[(#[trigger] near[i]) as int] <= limit && exists|m: int|
                    0 <= m < n && #[trigger] o[m] == near[i]
            &&& forall|i: int, j: int|
                0 <= i < j < near.len() ==> {
                    let a = #[trigger] near[i];
                    let b = #[trigger] near[j];
                    row[a as int] < row[b as int] || (row[a as int] == row[b as int] && a < b)
                }
        }),
    decreases n,
{
    if n > 0 {
        lemma_within_order(row, limit, o, n - 1);
        let keys = keys_of(row);
        assert(o.take(n).drop_last() =~= o.take(n - 1));
        assert(o.take(n).last() == o[n - 1]);
        let before = within(row, o.take(n - 1), limit);
        let near = within(row, o.take(n), limit);
        assert forall|i: int| 0 <= i < near.len() implies row[(#[trigger] near[i]) as int] <= limit
            && exists|m: int| 0 <= m < n && #[trigger] o[m] == near[i] by {
            if i < before.len() {
                assert(near[i] == before[i]);
                let m = choose|m: int| 0 <= m < n - 1 && #[trigger] o[m] == before[i];
                assert(o[m] == near[i]);
            } else {
                assert(o[n - 1] == near[i]);
            }
        }
        assert forall|i: int, j: int| 0 <= i < j < near.len() implies {
            let a = #[trigger] near[i];
            let b = #[trigger] near[j];
            row[a as int] < row[b as int] || (row[a as int] == row[b as int] && a < b)
        } by {
            assert(near[i] == before[i]);
            if j < before.len() {
                assert(near[j] == before[j]);
            } else {
                let m = choose|m: int| 0 <= m < n - 1 && #[trigger] o[m] == before[i];
                assert(near[j] == o[n - 1]);
                assert(order::precedes(keys, o[m] as int, o[n - 1] as int));
                assert(o[m] < row.len() && o[n - 1] < row.len());
                assert(keys[o[m] as int] == row[o[m] as int]);
                assert(keys[o[n - 1] as int] == row[o[n - 1] as int]);
            }
        }
    }
}

proof fn lemma_last_place(names: Seq<Seq<char>>, name: Seq<char>)
    ensures
        match last_place(names, name) {
            Some(i) => 0 <= i < names.len() && names[i] == name,
            None => !names.contains(name),
        },
    decreases names.len(),
{
    if names.len() > 0 && names.last() != name {
        lemma_last_place(names.drop_last(), name);
        if names.contains(name) {
            let i = choose|i: int| 0 <= i < names.len() && names[i] == name;
            assert(names.drop_last()[i] == name);
        }
    }
}

/// A way is drawn between its two ends, whichever way round it is named, in the colour of its turn.
pub proof fn law_ways_join_their_ends(
    names: Seq<Seq<char>>,
    routes: Seq<overview::RouteModel>,
    i: int,
)
    requires
        0 <= i < routes.len(),
        names.len() <= usize::MAX,
        names.contains(routes[i].from),
        names.contains(routes[i].to),
    ensures
        ({
            let lane = lane_of(names, routes, i);
            let r = routes[i];
            &&& lane.a is Some && lane.b is Some
            &&& lane.a->Some_0 < names.len() && lane.b->Some_0 < names.len()
            &&& {
                let a = names[lane.a->Some_0 as int];
                let b = names[lane.b->Some_0 as int];
                (a == r.from && b == r.to) || (a == r.to && b == r.from)
            }
            &&& lane.color == way_color(i)
        }),
{
    let pair = pair_of(routes[i]);
    lemma_last_place(names, pair.0);
    lemma_last_place(names, pair.1);
}

/// Ways between the same two places lie side by side, evenly to both sides of the straight line: the
/// first as far to one side as the last to the other.
pub proof fn law_ways_lie_evenly(k: int, total: int)
    requires
        0 <= k < total,
    ensures
        moved(k, total, 10) == -moved(total - 1 - k, total, 10),
        k + 1 < total ==> moved(k + 1, total, 10) == moved(k, total, 10) + 20,
        moved(k, total, 20) == 2 * moved(k, total, 10),
        total == 1 ==> moved(k, total, 10) == 0,
{
    assert(moved(k, total, 10) == 20 * k - 10 * (total - 1));
    assert(moved(total - 1 - k, total, 10) == 20 * (total - 1 - k) - 10 * (total - 1));
    assert(moved(k, total, 20) == 40 * k - 20 * (total - 1));
}

/// The legend of a scene begins with its title and the sign for regions, or for places where there are
/// none; then come the signs for sights, stations, airports and far points, exactly where there are
/// such; then each group of labels with its names, and each way with its ends, its means and its
/// colour.
pub proof fn law_legends_explain_the_scene(
    title: Seq<char>,
    hubs: int,
    points: Seq<overview::PointModel>,
    remote: bool,
    packed: Seq<overview::PackedModel>,
    routes: Seq<overview::RouteModel>,
)
    ensures
        ({
            let marks = mark_items(title, hubs, points, remote);
            let all = scene_items(title, hubs, points, remote, packed, routes);
            let has = |m: Mark, s: Seq<char>| marks.contains(legend::ItemModel { mark: m, text: s });
            &&& all.len() == marks.len() + packed.len() + routes.len()
            &&& all.take(marks.len() as int) == marks
            &&& marks[0] == (legend::ItemModel { mark: Mark::Plain, text: title })
            &&& hubs == 0 ==> marks[1] == (legend::ItemModel {
                mark: Mark::Marker,
                text: "城市/候选地"@,
            })
            &&& hubs != 0 ==> marks[1] == (legend::ItemModel {
                mark: Mark::Marker,
                text: "交通便利区（圈=大致范围）"@,
            })
            &&& (exists|i: int|
                0 <= i < points.len() && overview::kind_of((#[trigger] points[i]).point_type)
                    == PointKind::Scenic) <==> has(Mark::Dot, "景点"@)
            &&& (exists|i: int|
                0 <= i < points.len() && overview::kind_of((#[trigger] points[i]).point_type)
                    == PointKind::Station) <==> has(Mark::Square, "火车站"@)
            &&& (exists|i: int|
                0 <= i < points.len() && overview::kind_of((#[trigger] points[i]).point_type)
                    == PointKind::Airport) <==> has(Mark::Cross, "机场"@)
            &&& remote <==> has(Mark::Thin(0x64748BFF), "辐射关系"@)
            &&& forall|i: int|
                0 <= i < packed.len() ==> #[trigger] all[marks.len() + i] == (legend::ItemModel {
                    mark: Mark::Plain,
                    text: packed[i].summary + "："@ + text::joined(packed[i].names, "、"@),
                })
            &&& forall|i: int|
                0 <= i < routes.len() ==> #[trigger] all[marks.len() + packed.len() + i] == (
                legend::ItemModel {
                    mark: Mark::Swatch(way_color(i)),
                    text: routes[i].from + " → "@ + routes[i].to + " "@ + (
                    match routes[i].transport {
                        Some(t) => t,
                        None => ""@,
                    }),
                })
        }),
{
    let marks = mark_items(title, hubs, points, remote);
    let all = scene_items(title, hubs, points, remote, packed, routes);
    assert(all.take(marks.len() as int) =~= marks);
    let scenic = has_kind(points, PointKind::Scenic);
    let station = has_kind(points, PointKind::Station);
    let airport = has_kind(points, PointKind::Airport);
    let a = item_if(scenic, Mark::Dot, "景点"@);
    let b = item_if(station, Mark::Square, "火车站"@);
    let c = item_if(airport, Mark::Cross, "机场"@);
    let e = item_if(remote, Mark::Thin(SPOKE), "辐射关系"@);
    if scenic {
        assert(marks[2] == a[0]);
    }
    if station {
        assert(marks[2int + a.len()] == b[0]);
    }
    if airport {
        assert(marks[2int + a.len() + b.len()] == c[0]);
    }
    if remote {
        assert(marks[2int + a.len() + b.len() + c.len()] == e[0]);
    }
    assert forall|k: int| 0 <= k < marks.len() implies match (#[trigger] marks[k]).mark {
        Mark::Dot => scenic,
        Mark::Square => station,
        Mark::Cross => airport,
        Mark::Thin(_) => remote,
        _ => true,
    } by {
        if 2 <= k < 2 + a.len() {
            assert(marks[k] == a[k - 2]);
        } else if 2 + a.len() <= k < 2 + a.len() + b.len() {
            assert(marks[k] == b[k - 2 - a.len()]);
        } else if 2 + a.len() + b.len() <= k < 2 + a.len() + b.len() + c.len() {
            assert(marks[k] == c[k - 2 - a.len() - b.len()]);
        } else if 2 + a.len() + b.len() + c.len() <= k {
            assert(marks[k] == e[k - 2 - a.len() - b.len() - c.len()]);
        }
    }
}

proof fn lemma_spokes(
    hubs: Seq<Seq<char>>,
    points: Seq<overview::PointModel>,
    d: Seq<Vec<u64>>,
    limits: Seq<u64>,
    n: int,
    p: usize,
    h: usize,
)
    requires
        0 <= n <= points.len() <= usize::MAX,
    ensures
        spokes(hubs, points, d, limits, n).contains(Op::Spoke(p, h)) <==> p < n && is_remote(
            d[p as int]@,
        ) && targets(points[p as int].hubs, hubs, d[p as int]@, limits[p as int]).contains(h),
    decreases n,
{
    if n > 0 {
        lemma_spokes(hubs, points, d, limits, n - 1, p, h);
        let before = spokes(hubs, points, d, limits, n - 1);
        let now = spokes(hubs, points, d, limits, n);
        let t = targets(points[n - 1].hubs, hubs, d[n - 1]@, limits[n - 1]);
        let more = t.map_values(|h: usize| Op::Spoke((n - 1) as usize, h));
        let op = Op::Spoke(p, h);
        if before.contains(op) {
            let k = choose|k: int| 0 <= k < before.len() && before[k] == op;
            assert(now[k] == op);
        }
        if is_remote(d[n - 1]@) {
            assert(now == before + more);
            if p == n - 1 && t.contains(h) {
                let k = choose|k: int| 0 <= k < t.len() && t[k] == h;
                assert(more[k] == op);
                assert(now[before.len() + k] == op);
            }
            if now.contains(op) {
                let k = choose|k: int| 0 <= k < now.len() && now[k] == op;
                if k < before.len() {
                    assert(before[k] == op);
                } else {
                    assert(more[k - before.len()] == op);
                    assert(t[k - before.len()] == h);
                }
            }
        }
    }
}

/// A thin line goes from a point to a region exactly where the point is far and joined to the region.
pub proof fn law_far_points_have_lines(
    hubs: Seq<Seq<char>>,
    points: Seq<overview::PointModel>,
    d: Seq<Vec<u64>>,
    limits: Seq<u64>,
    p: usize,
    h: usize,
)
    requires
        points.len() <= usize::MAX,
    ensures
        spokes(hubs, points, d, limits, points.len() as int).contains(Op::Spoke(p, h)) <==> p
            < points.len() && (forall|k: int|
            0 <= k < d[p as int]@.len() ==> #[trigger] d[p as int]@[k] > 0x4034_0000_0000_0000u64)
            && targets(points[p as int].hubs, hubs, d[p as int]@, limits[p as int]).contains(h),
{
    lemma_spokes(hubs, points, d, limits, points.len() as int, p, h);
    let row = d[p as int]@;
    assert(is_remote(row) <==> forall|k: int|
        0 <= k < row.len() ==> #[trigger] row[k] > 0x4034_0000_0000_0000u64);
}

/// Every region has its circle and its mark, every way its line, and every point the mark of its kind;
/// a way has words exactly where its means of transport is told.
pub proof fn law_everything_is_drawn(
    hubs: nat,
    points: Seq<overview::PointModel>,
    routes: Seq<overview::RouteModel>,
    i: int,
)
    requires
        0 <= i,
        hubs <= usize::MAX,
        points.len() <= usize::MAX,
        routes.len() <= usize::MAX,
    ensures
        circle_ops(hubs).len() == hubs,
        hub_marks(hubs).len() == hubs,
        i < hubs ==> circle_ops(hubs)[i] == Op::Circle(i as usize) && hub_marks(hubs)[i]
            == Op::HubMark(i as usize),
        way_ops(routes.len()).len() == routes.len(),
        i < routes.len() ==> way_ops(routes.len())[i] == Op::Way(i as usize),
        point_marks(points).len() == points.len(),
        i < points.len() ==> point_marks(points)[i] == Op::PointMark(
            i as usize,
            overview::kind_of(points[i].point_type),
        ),
        way_words(routes, 0).len() == 0,
        i < routes.len() ==> way_words(routes, i + 1) == (if routes[i].transport is Some {
            way_words(routes, i).push(Op::WayWords(i as usize))
        } else {
            way_words(routes, i)
        }),
{
}

/// The marks: a region and a city are rings with a point in them, a station is a block, an airport a
/// cross of two lines, a sight a round point. Each lies on a white ground that is larger than itself.
pub proof fn law_marks_tell_the_kind()
    ensures
        hub_figures().len() == 3 && hub_figures()[1] is Ring && hub_figures()[2] is Disc,
        point_figures(PointKind::City).len() == 3 && point_figures(PointKind::City)[1] is Ring
            && point_figures(PointKind::City)[2] is Disc,
        point_figures(PointKind::Station).len() == 2 && point_figures(PointKind::Station)[1] is Block,
        point_figures(PointKind::Scenic).len() == 2 && point_figures(PointKind::Scenic)[1] is Disc,
        point_figures(PointKind::Airport).len() == 4 && point_figures(PointKind::Airport)[2] is Line
            && point_figures(PointKind::Airport)[3] is Line,
        point_figures(PointKind::Scenic)[0] matches Figure::Disc { r: ground, color, .. } && color
            == 0xFFFFFFFF && (point_figures(PointKind::Scenic)[1] matches Figure::Disc { r, .. } && r
            < ground),
        point_figures(PointKind::Station)[0] matches Figure::Block { w: ground, color, .. } && color
            == 0xFFFFFFFF && (point_figures(PointKind::Station)[1] matches Figure::Block { w, .. }
            && w < ground),
        point_figures(PointKind::City)[0] matches Figure::Disc { r: ground, color, .. } && color
            == 0xFFFFFFFF && (point_figures(PointKind::City)[1] matches Figure::Ring { r, .. } && r
            < ground),
        point_figures(PointKind::Airport)[0] matches Figure::Line { width: ground, color, .. }
            && color == 0xFFFFFFFF && (point_figures(PointKind::Airport)[2] matches Figure::Line {
            width,
            ..
        } && width < ground),
        hub_figures()[0] matches Figure::Disc { r: ground, color, .. } && color == 0xFFFFFFFF && (
        hub_figures()[1] matches Figure::Ring { r, .. } && r < ground),
{
}

/// A label stands right of its place, unless it would come nearer than four pixels to the edge there.
/// A broken line is of its colour for fourteen steps and pale for the eight after.
pub proof fn law_labels_and_dashes(x: int, width: int, img_w: int, step: u32, color: u32)
    ensures
        turns_left(x, width, img_w) <==> x + 14 + width > img_w - 4,
        step % 22 < 14 ==> dash_color(step, color, true) == color,
        step % 22 >= 14 ==> dash_color(step, color, true) == 0xEBEFF5FF,
        dash_color(step, color, false) == color,
{
}

/// The marks of regions and of points are drawn in these sizes, about their place: a white ground, and
/// the dark sign on it.
pub proof fn law_marks_have_their_sizes()
    ensures
        hub_figures() == seq![
            Figure::Disc { x: 0, y: 0, r: 12, color: 0xFFFFFFFF },
            Figure::Ring { x: 0, y: 0, r: 10, color: 0x1E293BFF },
            Figure::Disc { x: 0, y: 0, r: 3, color: 0x1E293BFF },
        ],
        point_figures(PointKind::City) == seq![
            Figure::Disc { x: 0, y: 0, r: 11, color: 0xFFFFFFFF },
            Figure::Ring { x: 0, y: 0, r: 9, color: 0x1E293BFF },
            Figure::Disc { x: 0, y: 0, r: 2, color: 0x1E293BFF },
        ],
        point_figures(PointKind::Scenic) == seq![
            Figure::Disc { x: 0, y: 0, r: 7, color: 0xFFFFFFFF },
            Figure::Disc { x: 0, y: 0, r: 4, color: 0x1E293BFF },
        ],
        point_figures(PointKind::Station) == seq![
            Figure::Block { x: -8i128, y: -8i128, w: 16, h: 16, color: 0xFFFFFFFF },
            Figure::Block { x: -5i128, y: -5i128, w: 10, h: 10, color: 0x1E293BFF },
        ],
        point_figures(PointKind::Airport).len() == 4,
        forall|i: int|
            0 <= i < 4 ==> (#[trigger] point_figures(
                PointKind::Airport,
            )[i] matches Figure::Line { x0, y0, x1, y1, color, width, dash } && x0 == -7 && x1 == 7
                && y0 == -y1 && (y1 == 7 || y1 == -7) && (i % 2 == 0 ==> y1 == 7) && (i % 2 == 1
                ==> y1 == -7) && !dash && color == (if i < 2 {
                0xFFFFFFFFu32
            } else {
                0x1E293BFFu32
            }) && width == (if i < 2 {
                8u8
            } else {
                4u8
            })),
{
}

/// A brush is half as wide as its line, rounded up, and one pixel at least.
pub proof fn law_brushes_are_half_as_wide(width: u8)
    ensures
        width <= 2 ==> brush(width) == 1,
        width > 2 ==> width <= 2 * brush(width) <= width + 1,
{
}

/// The compass points upward in the upper right corner: a stroke, its two barbs at the upper end, and
/// an `N` above.
pub proof fn law_the_compass_points_up()
    ensures
        ({
            let c = compass_shapes();
            let line = |x1: i128, y1: i128|
                legend::ShapeModel::Draw(
                    Figure::Line {
                        x0: 1155,
                        y0: 30,
                        x1,
                        y1,
                        color: 0x1E293BFF,
                        width: 4,
                        dash: false,
                    },
                );
            &&& c.len() == 4
            &&& c[0] == line(1155, 74)
            &&& c[1] == line(1147, 44)
            &&& c[2] == line(1163, 44)
            &&& c[3] == (legend::ShapeModel::Words {
                x: 1148,
                y: 8,
                px: 22,
                color: 0x1E293BFF,
                text: "N"@,
            })
        }),
{
}

/// A scene has a lane for every way, and draws words only where there is a font; then the legend stands
/// below, with 12 pixels to spare, in a picture of 1200.
pub proof fn law_scenes_have_room_for_their_legend(
    s: Scene,
    title: Seq<char>,
    hubs: Seq<Seq<char>>,
    points: Seq<overview::PointModel>,
    routes: Seq<overview::RouteModel>,
    d: Seq<Vec<u64>>,
    limits: Seq<u64>,
    groups: Seq<Seq<usize>>,
    allow_pack: bool,
    font: Option<Seq<u8>>,
    i: int,
)
    requires
        is_scene(s, title, hubs, points, routes, d, limits, groups, allow_pack, font),
    ensures
        s.lanes@.len() == routes.len(),
        0 <= i < routes.len() ==> s.lanes@[i] == lane_of(overview::all_names(hubs, points), routes, i),
        font is None ==> s.band == 0 && s.packed@.len() == 0 && s.ops@ == plain_ops(
            hubs,
            points,
            d,
            limits,
            routes.len(),
        ),
        font matches Some(f) ==> {
            &&& s.band == legend::box_height(f, legend::item_models(s.items@), 1200) + 12
            &&& overview::packed_models(s.packed@) == overview::packed_labels(
                entries_of(hubs, points),
                groups,
                allow_pack,
            )
            &&& s.ops@ == plain_ops(hubs, points, d, limits, routes.len()) + word_ops(
                overview::single_labels(groups, allow_pack),
                s.packed@.len(),
                routes,
            )
        },
        legend::item_models(s.items@) == scene_items(
            title,
            hubs.len() as int,
            points,
            has_remote(d, hubs.len() as int),
            overview::packed_models(s.packed@),
            routes,
        ),
{
}

/// There are far points where there are regions and some point lies farther than 20 km from every one
/// of them, and none where every point lies within it of some region.
pub proof fn law_far_points_are_noticed(d: Seq<Vec<u64>>, hubs: int, p: int)
    ensures
        hubs <= 0 ==> !has_remote(d, hubs),
        hubs > 0 && 0 <= p < d.len() && (forall|h: int|
            0 <= h < d[p]@.len() ==> (#[trigger] d[p]@[h]) > 0x4034_0000_0000_0000) ==> has_remote(d, hubs),
        (forall|q: int|
            0 <= q < d.len() ==> exists|h: int|
                0 <= h < (#[trigger] d[q])@.len() && (#[trigger] d[q]@[h]) <= 0x4034_0000_0000_0000) ==> !has_remote(
            d,
            hubs,
        ),
{
    if 0 <= p < d.len() && (forall|h: int| 0 <= h < d[p]@.len() ==> (#[trigger] d[p]@[h]) > 0x4034_0000_0000_0000) {
        assert(is_remote(d[p]@));
    }
    if forall|q: int|
        0 <= q < d.len() ==> exists|h: int|
            0 <= h < (#[trigger] d[q])@.len() && (#[trigger] d[q]@[h]) <= 0x4034_0000_0000_0000 {
        assert forall|q: int| 0 <= q < d.len() implies !is_remote((#[trigger] d[q])@) by {
            let h = choose|h: int| 0 <= h < d[q]@.len() && (#[trigger] d[q]@[h]) <= 0x4034_0000_0000_0000;
            assert(d[q]@[h] <= 0x4034_0000_0000_0000);
        }
    }
}

} // verus!
