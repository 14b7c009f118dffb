//! The overview map: regions, points and the ways between them on a plain ground. What is drawn,
//! under which words and in which order, is decided here; where a point lies in the picture is not.

use vstd::prelude::*;

use crate::cluster;
use crate::cluster::Poi;
use crate::legend;
use crate::linkage;
use crate::llm;
use crate::session;
use crate::text;

verus! {

/// A way between two places.
pub struct RouteSeg {
    pub from: String,
    pub to: String,
    pub transport: Option<String>,
}

#[verifier::ext_equal]
pub struct RouteModel {
    pub from: Seq<char>,
    pub to: Seq<char>,
    pub transport: Option<Seq<char>>,
}

impl View for RouteSeg {
    type V = RouteModel;

    open spec fn view(&self) -> RouteModel {
        RouteModel {
            from: self.from@,
            to: self.to@,
            transport: llm::opt_text(self.transport),
        }
    }
}

pub open spec fn route_models(routes: Seq<RouteSeg>) -> Seq<RouteModel> {
    routes.map_values(|r: RouteSeg| r@)
}

/// A point of the map. Longitude and latitude are bit patterns of floating-point numbers.
pub struct PointNode {
    pub name: String,
    pub lon: u64,
    pub lat: u64,
    pub point_type: Option<String>,
    /// The regions that the point is said to belong to.
    pub hubs: Option<Vec<String>>,
}

#[verifier::ext_equal]
pub struct PointModel {
    pub name: Seq<char>,
    pub lon: u64,
    pub lat: u64,
    pub point_type: Option<Seq<char>>,
    pub hubs: Option<Seq<Seq<char>>>,
}

pub open spec fn opt_views(v: Option<Vec<String>>) -> Option<Seq<Seq<char>>> {
    match v {
        Some(l) => Some(text::views(l@)),
        None => None,
    }
}

impl View for PointNode {
    type V = PointModel;

    open spec fn view(&self) -> PointModel {
        PointModel {
            name: self.name@,
            lon: self.lon,
            lat: self.lat,
            point_type: llm::opt_text(self.point_type),
            hubs: opt_views(self.hubs),
        }
    }
}

pub open spec fn point_models(points: Seq<PointNode>) -> Seq<PointModel> {
    points.map_values(|p: PointNode| p@)
}

/// The names of regions.
pub open spec fn hub_names(hubs: Seq<Poi>) -> Seq<Seq<char>> {
    hubs.map_values(|h: Poi| h.name@)
}

/// The names of points.
pub open spec fn point_names(points: Seq<PointModel>) -> Seq<Seq<char>> {
    points.map_values(|p: PointModel| p.name)
}

// ---- Kinds of points ----

/// What a point is; its mark on the map goes by it.
#[derive(Clone, Copy, PartialEq, Eq, Structural, Debug)]
pub enum PointKind {
    Station,
    Airport,
    Scenic,
    City,
}

pub open spec fn kind_of(s: Option<Seq<char>>) -> PointKind {
    match s {
        Some(t) => if t == "station"@ || t == "火车站"@ || t == "车站"@ || t == "高铁站"@ {
            PointKind::Station
        } else if t == "airport"@ || t == "机场"@ {
            PointKind::Airport
        } else if t == "city"@ || t == "城市"@ || t == "出发地"@ || t == "目的地"@ {
            PointKind::City
        } else {
            PointKind::Scenic
        },
        None => PointKind::Scenic,
    }
}

pub open spec fn str_view(s: Option<&str>) -> Option<Seq<char>> {
    match s {
        Some(t) => Some(t@),
        None => None,
    }
}

/// The kind that a word names; what names none is a sight.
pub fn parse_point_type(s: Option<&str>) -> (r: PointKind)
    ensures
        r == kind_of(str_view(s)),
{
    match s {
        Some(t) => if text::same(t, "station") || text::same(t, "火车站") || text::same(t, "车站")
            || text::same(t, "高铁站") {
            PointKind::Station
        } else if text::same(t, "airport") || text::same(t, "机场") {
            PointKind::Airport
        } else if text::same(t, "city") || text::same(t, "城市") || text::same(t, "出发地")
            || text::same(t, "目的地") {
            PointKind::City
        } else {
            PointKind::Scenic
        },
        None => PointKind::Scenic,
    }
}

/// The kind of a point.
pub fn kind_of_point(p: &PointNode) -> (r: PointKind)
    ensures
        r == kind_of(p@.point_type),
{
    match &p.point_type {
        Some(t) => parse_point_type(Some(t.as_str())),
        None => parse_point_type(None),
    }
}

// ---- Checks ----

/// Adds the names of regions to a list.
pub fn add_hub_names(hubs: &Vec<Poi>, out: &mut Vec<String>)
    ensures
        text::views(final(out)@) == text::views(old(out)@) + hub_names(hubs@),
{
    let ghost before = text::views(out@);
    let ghost all = hub_names(hubs@);
    let mut i: usize = 0;
    assert(text::views(out@) =~= before + all.take(0));
    while i < hubs.len()
        invariant
            i <= hubs@.len(),
            all == hub_names(hubs@),
            text::views(out@) == before + all.take(i as int),
        decreases hubs@.len() - i,
    {
        let s = text::copy_text(hubs[i].name.as_str());
        proof {
            text::lemma_views_push(out@, s);
        }
        out.push(s);
        assert(text::views(out@) =~= before + all.take(i + 1));
        i = i + 1;
    }
    assert(all.take(all.len() as int) =~= all);
}

/// Adds the names of points to a list.
fn add_point_names(points: &Vec<PointNode>, out: &mut Vec<String>)
    ensures
        text::views(final(out)@) == text::views(old(out)@) + point_names(point_models(points@)),
{
    let ghost before = text::views(out@);
    let ghost all = point_names(point_models(points@));
    let mut i: usize = 0;
    assert(text::views(out@) =~= before + all.take(0));
    while i < points.len()
        invariant
            i <= points@.len(),
            all == point_names(point_models(points@)),
            text::views(out@) == before + all.take(i as int),
        decreases points@.len() - i,
    {
        let s = text::copy_text(points[i].name.as_str());
        proof {
            text::lemma_views_push(out@, s);
        }
        out.push(s);
        assert(text::views(out@) =~= before + all.take(i + 1));
        i = i + 1;
    }
    assert(all.take(all.len() as int) =~= all);
}

/// All names of a map: those of the regions, then those of the points.
pub open spec fn all_names(hubs: Seq<Seq<char>>, points: Seq<PointModel>) -> Seq<Seq<char>> {
    hubs + point_names(points)
}

/// All names of a map: those of the regions, then those of the points.
pub fn names_of(hubs: &Vec<Poi>, points: &Vec<PointNode>) -> (r: Vec<String>)
    ensures
        text::views(r@) == all_names(hub_names(hubs@), point_models(points@)),
{
    let mut out: Vec<String> = Vec::new();
    add_hub_names(hubs, &mut out);
    add_point_names(points, &mut out);
    assert(text::views(out@) =~= all_names(hub_names(hubs@), point_models(points@)));
    out
}

/// Whether a name is in a list.
pub fn is_listed(names: &Vec<String>, name: &str) -> (b: bool)
    ensures
        b == text::views(names@).contains(name@),
{
    let ghost all = text::views(names@);
    let mut i: usize = 0;
    while i < names.len()
        invariant
            i <= names@.len(),
            all == text::views(names@),
            forall|k: int| 0 <= k < i ==> #[trigger] all[k] != name@,
        decreases names@.len() - i,
    {
        assert(all[i as int] == names@[i as int]@);
        if text::same(names[i].as_str(), name) {
            return true;
        }
        i = i + 1;
    }
    false
}

/// The first of the first `n` ways that begins or ends at an unknown place: which, at its end or at
/// its beginning, and the name there.
pub open spec fn lost_route(names: Seq<Seq<char>>, routes: Seq<RouteModel>, n: int) -> Option<
    (int, bool, Seq<char>),
>
    decreases n,
{
    if n <= 0 {
        None
    } else {
        match lost_route(names, routes, n - 1) {
            Some(f) => Some(f),
            None => if !names.contains(routes[n - 1].from) {
                Some((n - 1, false, routes[n - 1].from))
            } else if !names.contains(routes[n - 1].to) {
                Some((n - 1, true, routes[n - 1].to))
            } else {
                None
            },
        }
    }
}

/// What is told of such a way.
pub open spec fn lost_route_text(head: Seq<char>, fault: (int, bool, Seq<char>), tail: Seq<char>) -> Seq<
    char,
> {
    head + "：routes["@ + text::dec(fault.0 as nat) + (if fault.1 {
        "].to「"@
    } else {
        "].from「"@
    }) + fault.2 + tail
}

proof fn lemma_lost_route_stays(names: Seq<Seq<char>>, routes: Seq<RouteModel>, n: int)
    requires
        0 <= n <= routes.len(),
        lost_route(names, routes, n) is Some,
    ensures
        lost_route(names, routes, routes.len() as int) == lost_route(names, routes, n),
    decreases routes.len() - n,
{
    if n < routes.len() {
        lemma_lost_route_stays(names, routes, n + 1);
    }
}

/// The first way that begins or ends at an unknown place, as it is told.
pub fn find_lost_route(names: &Vec<String>, routes: &Vec<RouteSeg>, head: &str, tail: &str) -> (r:
    Option<String>)
    ensures
        match lost_route(text::views(names@), route_models(routes@), routes@.len() as int) {
            Some(f) => r is Some && r->0@ == lost_route_text(head@, f, tail@),
            None => r is None,
        },
{
    let ghost known = text::views(names@);
    let ghost all = route_models(routes@);
    let mut i: usize = 0;
    while i < routes.len()
        invariant
            i <= routes@.len(),
            known == text::views(names@),
            all == route_models(routes@),
            lost_route(known, all, i as int) is None,
        decreases routes@.len() - i,
    {
        let r = &routes[i];
        assert(all[i as int] == r@);
        let from_ok = is_listed(names, r.from.as_str());
        let to_ok = is_listed(names, r.to.as_str());
        if !from_ok || !to_ok {
            let mut s = text::copy_text(head);
            s.append("：routes[");
            s.append(text::number(i as u64).as_str());
            if from_ok {
                s.append("].to「");
                s.append(r.to.as_str());
            } else {
                s.append("].from「");
                s.append(r.from.as_str());
            }
            s.append(tail);
            proof {
                lemma_lost_route_stays(known, all, i + 1);
            }
            return Some(s);
        }
        i = i + 1;
    }
    None
}

/// The first of the first `n` names that is no region's.
pub open spec fn unknown_name(hubs: Seq<Seq<char>>, names: Seq<Seq<char>>, n: int) -> Option<
    Seq<char>,
>
    decreases n,
{
    if n <= 0 {
        None
    } else {
        match unknown_name(hubs, names, n - 1) {
            Some(s) => Some(s),
            None => if hubs.contains(names[n - 1]) {
                None
            } else {
                Some(names[n - 1])
            },
        }
    }
}

/// The first of the first `n` points that is said to belong to an unknown region: its name and the
/// region's.
pub open spec fn stray_point(hubs: Seq<Seq<char>>, points: Seq<PointModel>, n: int) -> Option<
    (Seq<char>, Seq<char>),
>
    decreases n,
{
    if n <= 0 {
        None
    } else {
        match stray_point(hubs, points, n - 1) {
            Some(f) => Some(f),
            None => match points[n - 1].hubs {
                Some(names) => match unknown_name(hubs, names, names.len() as int) {
                    Some(s) => Some((points[n - 1].name, s)),
                    None => None,
                },
                None => None,
            },
        }
    }
}

proof fn lemma_unknown_name_stays(hubs: Seq<Seq<char>>, names: Seq<Seq<char>>, n: int)
    requires
        0 <= n <= names.len(),
        unknown_name(hubs, names, n) is Some,
    ensures
        unknown_name(hubs, names, names.len() as int) == unknown_name(hubs, names, n),
    decreases names.len() - n,
{
    if n < names.len() {
        lemma_unknown_name_stays(hubs, names, n + 1);
    }
}

proof fn lemma_stray_point_stays(hubs: Seq<Seq<char>>, points: Seq<PointModel>, n: int)
    requires
        0 <= n <= points.len(),
        stray_point(hubs, points, n) is Some,
    ensures
        stray_point(hubs, points, points.len() as int) == stray_point(hubs, points, n),
    decreases points.len() - n,
{
    if n < points.len() {
        lemma_stray_point_stays(hubs, points, n + 1);
    }
}

fn find_unknown(hubs: &Vec<String>, names: &Vec<String>) -> (r: Option<usize>)
    ensures
        match r {
            Some(i) => i < names@.len() && unknown_name(
                text::views(hubs@),
                text::views(names@),
                names@.len() as int,
            ) == Some(names@[i as int]@),
            None => unknown_name(text::views(hubs@), text::views(names@), names@.len() as int)
                is None,
        },
{
    let ghost known = text::views(hubs@);
    let ghost all = text::views(names@);
    let mut i: usize = 0;
    while i < names.len()
        invariant
            i <= names@.len(),
            known == text::views(hubs@),
            all == text::views(names@),
            unknown_name(known, all, i as int) is None,
        decreases names@.len() - i,
    {
        assert(all[i as int] == names@[i as int]@);
        if !is_listed(hubs, names[i].as_str()) {
            proof {
                lemma_unknown_name_stays(known, all, i + 1);
            }
            return Some(i);
        }
        i = i + 1;
    }
    None
}

/// The first point that is said to belong to an unknown region, as it is told.
fn find_stray(hubs: &Vec<Poi>, points: &Vec<PointNode>) -> (r: Option<String>)
    ensures
        match stray_point(hub_names(hubs@), point_models(points@), points@.len() as int) {
            Some(f) => r is Some && r->0@ == "地图生成失败：point「"@ + f.0 + "」的 hubs 引用了不存在的区「"@
                + f.1 + "」"@,
            None => r is None,
        },
{
    let ghost pm = point_models(points@);
    let mut hub_list: Vec<String> = Vec::new();
    add_hub_names(hubs, &mut hub_list);
    assert(text::views(hub_list@) =~= hub_names(hubs@));
    let mut i: usize = 0;
    while i < points.len()
        invariant
            i <= points@.len(),
            pm == point_models(points@),
            text::views(hub_list@) == hub_names(hubs@),
            stray_point(hub_names(hubs@), pm, i as int) is None,
        decreases points@.len() - i,
    {
        let p = &points[i];
        assert(pm[i as int] == p@);
        match &p.hubs {
            Some(hs) => match find_unknown(&hub_list, hs) {
                Some(k) => {
                    let mut s = text::copy_text("地图生成失败：point「");
                    s.append(p.name.as_str());
                    s.append("」的 hubs 引用了不存在的区「");
                    s.append(hs[k].as_str());
                    s.append("」");
                    proof {
                        lemma_stray_point_stays(hub_names(hubs@), pm, i + 1);
                    }
                    return Some(s);
                },
                None => {},
            },
            None => {},
        }
        i = i + 1;
    }
    None
}

/// What is wrong with an order for an overview map.
pub open spec fn overview_fault(
    hubs: Seq<Seq<char>>,
    points: Seq<PointModel>,
    routes: Seq<RouteModel>,
) -> Option<Seq<char>> {
    let names = all_names(hubs, points);
    if hubs.len() == 0 && points.len() == 0 {
        Some("地图生成失败：hubs 与 points 均为空（位置关系图需至少列出 points）"@)
    } else {
        match cluster::repeated_name(names, names.len() as int) {
            Some(n) => Some("地图生成失败：名称「"@ + n + "」重复"@),
            None => match lost_route(names, routes, routes.len() as int) {
                Some(f) => Some(lost_route_text("地图生成失败"@, f, "」不在 hubs/points 中"@)),
                None => match stray_point(hubs, points, points.len() as int) {
                    Some(f) => Some(
                        "地图生成失败：point「"@ + f.0 + "」的 hubs 引用了不存在的区「"@ + f.1 + "」"@,
                    ),
                    None => None,
                },
            },
        }
    }
}

/// The tool that draws overview maps.
pub struct GenerateMap {
    pub font_path: String,
    pub session_id: String,
    /// The number of the last map.
    pub counter: u32,
}

impl GenerateMap {
    /// What is wrong with an order for a map, where something is.
    pub fn check(hubs: &Vec<Poi>, points: &Vec<PointNode>, routes: &Vec<RouteSeg>) -> (r: Option<
        String,
    >)
        ensures
            match overview_fault(
                hub_names(hubs@),
                point_models(points@),
                route_models(routes@),
            ) {
                Some(s) => r is Some && r->0@ == s,
                None => r is None,
            },
    {
        if hubs.len() == 0 && points.len() == 0 {
            return Some(
                text::copy_text(
                    "地图生成失败：hubs 与 points 均为空（位置关系图需至少列出 points）",
                ),
            );
        }
        let names = names_of(hubs, points);
        match cluster::find_repeated(&names) {
            Some(n) => {
                let mut s = text::copy_text("地图生成失败：名称「");
                s.append(n.as_str());
                s.append("」重复");
                return Some(s);
            },
            None => {},
        }
        match find_lost_route(&names, routes, "地图生成失败", "」不在 hubs/points 中") {
            Some(s) => return Some(s),
            None => {},
        }
        find_stray(hubs, points)
    }
}

// ---- Files ----

/// The number of a map whose file has a name: the prefix, `_`, the number and `.png`.
pub open spec fn picture_number(name: Seq<char>, prefix: Seq<char>) -> Option<nat> {
    match text::after_prefix(name, prefix) {
        Some(a) => match text::after_prefix(a, "_"@) {
            Some(b) => match text::before_suffix(b, ".png"@) {
                Some(stem) => text::parsed_unsigned(stem, u32::MAX as nat),
                None => None,
            },
            None => None,
        },
        None => None,
    }
}

/// The greatest number of a map among file names; 0 where there is none.
pub open spec fn greatest_number(names: Seq<Seq<char>>, prefix: Seq<char>) -> nat
    decreases names.len(),
{
    if names.len() == 0 {
        0
    } else {
        let before = greatest_number(names.drop_last(), prefix);
        match picture_number(names.last(), prefix) {
            Some(n) => if n > before {
                n
            } else {
                before
            },
            None => before,
        }
    }
}

fn number_in(name: &str, prefix: &str) -> (r: Option<u64>)
    ensures
        match r {
            Some(n) => picture_number(name@, prefix@) == Some(n as nat) && n <= u32::MAX,
            None => picture_number(name@, prefix@) is None,
        },
{
    match text::strip_prefix(name, prefix) {
        Some(a) => match text::strip_prefix(a.as_str(), "_") {
            Some(b) => match text::strip_suffix(b.as_str(), ".png") {
                Some(stem) => text::parse_unsigned(stem.as_str(), u32::MAX as u64),
                None => None,
            },
            None => None,
        },
        None => None,
    }
}

/// The greatest number of a map among the names in the directory of maps.
pub fn scan_max_index(names: &Vec<String>, prefix: &str) -> (max: u32)
    ensures
        max == greatest_number(text::views(names@), prefix@),
{
    let ghost all = text::views(names@);
    let mut max: u32 = 0;
    let mut i: usize = 0;
    while i < names.len()
        invariant
            i <= names@.len(),
            all == text::views(names@),
            max == greatest_number(all.take(i as int), prefix@),
        decreases names@.len() - i,
    {
        proof {
            assert(all.take(i + 1).drop_last() =~= all.take(i as int));
            assert(all.take(i + 1).last() == names@[i as int]@);
        }
        match number_in(names[i].as_str(), prefix) {
            Some(n) => {
                if n as u32 > max {
                    max = n as u32;
                }
            },
            None => {},
        }
        i = i + 1;
    }
    assert(all.take(all.len() as int) =~= all);
    max
}

/// The number behind the greatest belongs to no map that is there: no map is overwritten.
pub proof fn law_next_map_is_new(names: Seq<Seq<char>>, prefix: Seq<char>, i: int)
    requires
        0 <= i < names.len(),
    ensures
        picture_number(names[i], prefix) != Some(greatest_number(names, prefix) + 1),
        match picture_number(names[i], prefix) {
            Some(n) => n <= greatest_number(names, prefix),
            None => true,
        },
    decreases names.len(),
{
    if i < names.len() - 1 {
        law_next_map_is_new(names.drop_last(), prefix, i);
    }
}

/// The path of a map of a session: its kind, its number and, where it enlarges a part of another,
/// which part.
pub open spec fn picture_path(
    session_id: Seq<char>,
    kind: Seq<char>,
    n: nat,
    part: Option<nat>,
) -> Seq<char> {
    let stem = "maps/"@ + session::file_stem(session_id) + "/"@ + kind + "_"@ + text::dec(n);
    match part {
        Some(k) => stem + "_c"@ + text::dec(k) + ".png"@,
        None => stem + ".png"@,
    }
}

/// The maps of a session lie in the directory that is removed with it.
pub proof fn law_maps_go_with_their_session(
    session_id: Seq<char>,
    kind: Seq<char>,
    n: nat,
    part: Option<nat>,
)
    ensures
        text::has_prefix(
            picture_path(session_id, kind, n, part),
            "maps/"@ + session::file_stem(session_id) + "/"@,
        ),
{
    let dir = "maps/"@ + session::file_stem(session_id) + "/"@;
    let p = picture_path(session_id, kind, n, part);
    assert(p.take(dir.len() as int) =~= dir);
}

/// The path of a map of a session.
pub fn map_path(session_id: &str, kind: &str, n: u32, part: Option<u64>) -> (r: String)
    ensures
        r@ == picture_path(
            session_id@,
            kind@,
            n as nat,
            match part {
                Some(k) => Some(k as nat),
                None => None,
            },
        ),
{
    let mut s = text::copy_text("maps/");
    s.append(session::sanitize(session_id).as_str());
    s.append("/");
    s.append(kind);
    s.append("_");
    s.append(text::number(n as u64).as_str());
    match part {
        Some(k) => {
            s.append("_c");
            s.append(text::number(k).as_str());
            s.append(".png");
        },
        None => s.append(".png"),
    }
    s
}

impl GenerateMap {
    /// The tool of a session; `names` are those in its directory of maps, and maps are numbered on
    /// from there.
    pub fn new(font_path: String, session_id: String, names: &Vec<String>) -> (r: GenerateMap)
        ensures
            r.font_path@ == font_path@,
            r.session_id@ == session_id@,
            r.counter == greatest_number(text::views(names@), "overview"@),
    {
        GenerateMap { font_path, session_id, counter: scan_max_index(names, "overview") }
    }

    /// The number of the next map.
    pub fn next_number(&mut self) -> (n: u32)
        requires
            old(self).counter < u32::MAX,
        ensures
            n == old(self).counter + 1,
            final(self).counter == n,
            final(self).font_path == old(self).font_path,
            final(self).session_id == old(self).session_id,
    {
        self.counter = self.counter + 1;
        self.counter
    }
}

// ---- Answers ----

/// How many parts of a map are enlarged at most.
pub const MAX_SUB_MAPS: usize = 3;

/// What is told of a map.
pub open spec fn headline(path: Seq<char>, hubs: nat, points: nat, routes: nat) -> Seq<char> {
    if hubs == 0 {
        "已生成位置关系图："@ + path + "（"@ + text::dec(points) + " 个点位，仅展示大致位置关系）"@
    } else {
        "已生成总览图："@ + path + "（"@ + text::dec(hubs) + " 个交通便利区、"@ + text::dec(points)
            + " 个标注点、"@ + text::dec(routes) + " 条大交通）"@
    }
}

/// What is told of a map and of its enlarged parts, which are given by path and by what they show.
pub open spec fn overview_report(head: Seq<char>, parts: Seq<(Seq<char>, Seq<char>)>) -> Seq<char>
    decreases parts.len(),
{
    if parts.len() == 0 {
        head
    } else {
        overview_report(head, parts.drop_last()) + "\n放大图："@ + parts.last().0 + "（"@
            + parts.last().1 + "）"@
    }
}

/// What is told of a map and of its enlarged parts.
pub fn report(path: &str, hubs: usize, points: usize, routes: usize, parts: &Vec<(String, String)>) -> (r:
    String)
    ensures
        r@ == overview_report(
            headline(path@, hubs as nat, points as nat, routes as nat),
            cluster::pair_views(parts@),
        ),
{
    let mut s = String::new();
    if hubs == 0 {
        s = text::copy_text("已生成位置关系图：");
        s.append(path);
        s.append("（");
        s.append(text::number(points as u64).as_str());
        s.append(" 个点位，仅展示大致位置关系）");
    } else {
        s = text::copy_text("已生成总览图：");
        s.append(path);
        s.append("（");
        s.append(text::number(hubs as u64).as_str());
        s.append(" 个交通便利区、");
        s.append(text::number(points as u64).as_str());
        s.append(" 个标注点、");
        s.append(text::number(routes as u64).as_str());
        s.append(" 条大交通）");
    }
    let ghost head = s@;
    let ghost all = cluster::pair_views(parts@);
    let mut i: usize = 0;
    while i < parts.len()
        invariant
            i <= parts@.len(),
            all == cluster::pair_views(parts@),
            s@ == overview_report(head, all.take(i as int)),
        decreases parts@.len() - i,
    {
        proof {
            assert(all.take(i + 1).drop_last() =~= all.take(i as int));
            assert(all.take(i + 1).last() == (parts@[i as int].0@, parts@[i as int].1@));
        }
        s.append("\n放大图：");
        s.append(parts[i].0.as_str());
        s.append("（");
        s.append(parts[i].1.as_str());
        s.append("）");
        i = i + 1;
    }
    assert(all.take(all.len() as int) =~= all);
    s
}

// ---- Labels ----

/// Puts labels that touch into one group; `d` is 0 where two labels touch and more where they do
/// not.
pub fn group_overlaps(d: &Vec<Vec<u64>>) -> (r: Vec<Vec<usize>>)
    requires
        linkage::is_square(d@, d@.len() as int),
    ensures
        linkage::are_components(r@, d@, 0, linkage::all_points(d@.len())),
{
    linkage::single_link_clusters(d, 0)
}

/// What has a label: whether it is a region, and its name.
pub open spec fn entry_models(entries: Seq<(bool, String)>) -> Seq<(bool, Seq<char>)> {
    entries.map_values(|e: (bool, String)| (e.0, e.1@))
}

/// The regions of a group.
pub open spec fn hubs_in(entries: Seq<(bool, Seq<char>)>, group: Seq<usize>) -> Seq<usize>
    decreases group.len(),
{
    if group.len() == 0 {
        Seq::empty()
    } else {
        let before = hubs_in(entries, group.drop_last());
        if entries[group.last() as int].0 {
            before.push(group.last())
        } else {
            before
        }
    }
}

/// The names in a group, without one entry.
pub open spec fn names_without(
    entries: Seq<(bool, Seq<char>)>,
    group: Seq<usize>,
    left_out: Option<usize>,
) -> Seq<Seq<char>>
    decreases group.len(),
{
    if group.len() == 0 {
        Seq::empty()
    } else {
        let before = names_without(entries, group.drop_last(), left_out);
        if left_out == Some(group.last()) {
            before
        } else {
            before.push(entries[group.last() as int].1)
        }
    }
}

/// What stands for a group of labels, and the names that it stands for: one region stands for what
/// is round it, the first point for the points by it, the first region for several.
pub open spec fn group_summary(entries: Seq<(bool, Seq<char>)>, group: Seq<usize>) -> (
    Seq<char>,
    Seq<Seq<char>>,
) {
    let hubs = hubs_in(entries, group);
    if hubs.len() == 1 {
        let names = names_without(entries, group, Some(hubs[0]));
        (entries[hubs[0] as int].1 + "（"@ + text::dec(names.len()) + " 处）"@, names)
    } else if hubs.len() == 0 {
        let names = names_without(entries, group, None);
        (entries[group[0] as int].1 + "一带（"@ + text::dec(names.len()) + " 处）"@, names)
    } else {
        (
            entries[hubs[0] as int].1 + "等（"@ + text::dec(group.len()) + " 处）"@,
            names_without(entries, group, Some(hubs[0])),
        )
    }
}

pub open spec fn in_range(group: Seq<usize>, n: int) -> bool {
    forall|i: int| 0 <= i < group.len() ==> (#[trigger] group[i]) < n
}

proof fn lemma_hubs_in(entries: Seq<(bool, Seq<char>)>, group: Seq<usize>)
    requires
        in_range(group, entries.len() as int),
    ensures
        in_range(hubs_in(entries, group), entries.len() as int),
    decreases group.len(),
{
    if group.len() > 0 {
        lemma_hubs_in(entries, group.drop_last());
        assert(group[group.len() - 1] < entries.len());
    }
}

fn regions_in(entries: &Vec<(bool, String)>, group: &Vec<usize>) -> (r: Vec<usize>)
    requires
        in_range(group@, entries@.len() as int),
    ensures
        r@ == hubs_in(entry_models(entries@), group@),
{
    let ghost all = entry_models(entries@);
    let mut out: Vec<usize> = Vec::new();
    let mut i: usize = 0;
    while i < group.len()
        invariant
            i <= group@.len(),
            in_range(group@, entries@.len() as int),
            all == entry_models(entries@),
            out@ == hubs_in(all, group@.take(i as int)),
        decreases group@.len() - i,
    {
        let e: usize = group[i];
        proof {
            assert(group@[i as int] < entries@.len());
            assert(group@.take(i + 1).drop_last() =~= group@.take(i as int));
            assert(all[e as int] == (entries@[e as int].0, entries@[e as int].1@));
        }
        if entries[e].0 {
            out.push(e);
        }
        i = i + 1;
    }
    assert(group@.take(group@.len() as int) =~= group@);
    out
}

fn other_names(entries: &Vec<(bool, String)>, group: &Vec<usize>, left_out: Option<usize>) -> (r: Vec<
    String,
>)
    requires
        in_range(group@, entries@.len() as int),
    ensures
        text::views(r@) == names_without(entry_models(entries@), group@, left_out),
{
    let ghost all = entry_models(entries@);
    let mut out: Vec<String> = Vec::new();
    let mut i: usize = 0;
    assert(text::views(out@) =~= Seq::<Seq<char>>::empty());
    while i < group.len()
        invariant
            i <= group@.len(),
            in_range(group@, entries@.len() as int),
            all == entry_models(entries@),
            text::views(out@) == names_without(all, group@.take(i as int), left_out),
        decreases group@.len() - i,
    {
        let e: usize = group[i];
        proof {
            assert(group@[i as int] < entries@.len());
            assert(group@.take(i + 1).drop_last() =~= group@.take(i as int));
            assert(all[e as int] == (entries@[e as int].0, entries@[e as int].1@));
        }
        let leave = match left_out {
            Some(x) => x == e,
            None => false,
        };
        if !leave {
            let s = text::copy_text(entries[e].1.as_str());
            proof {
                text::lemma_views_push(out@, s);
            }
            out.push(s);
        }
        i = i + 1;
    }
    assert(group@.take(group@.len() as int) =~= group@);
    out
}

/// What stands for a group of labels, the names that it stands for, and the entry where it stands.
pub fn pack_summary(entries: &Vec<(bool, String)>, group: &Vec<usize>) -> (r: (
    String,
    Vec<String>,
    usize,
))
    requires
        group@.len() > 0,
        in_range(group@, entries@.len() as int),
    ensures
        r.0@ == group_summary(entry_models(entries@), group@).0,
        text::views(r.1@) == group_summary(entry_models(entries@), group@).1,
        r.2 == group@[0],
{
    let ghost all = entry_models(entries@);
    let hubs = regions_in(entries, group);
    let anchor: usize = group[0];
    proof {
        lemma_hubs_in(all, group@);
        assert(group@[0] < entries@.len());
        assert(all[anchor as int].1 == entries@[anchor as int].1@);
    }
    if hubs.len() == 0 {
        let names = other_names(entries, group, None);
        assert(names@.len() == text::views(names@).len());
        let mut s = text::copy_text(entries[anchor].1.as_str());
        s.append("一带（");
        s.append(text::number(names.len() as u64).as_str());
        s.append(" 处）");
        (s, names, anchor)
    } else {
        let h: usize = hubs[0];
        assert(hubs@[0] < entries@.len());
        assert(all[h as int].1 == entries@[h as int].1@);
        let names = other_names(entries, group, Some(h));
        assert(names@.len() == text::views(names@).len());
        let mut s = text::copy_text(entries[h].1.as_str());
        if hubs.len() == 1 {
            s.append("（");
            s.append(text::number(names.len() as u64).as_str());
        } else {
            s.append("等（");
            s.append(text::number(group.len() as u64).as_str());
        }
        s.append(" 处）");
        (s, names, anchor)
    }
}

/// Nothing is lost in a group: what stands for it and the names that it stands for are all of them.
pub proof fn law_group_keeps_its_names(entries: Seq<(bool, Seq<char>)>, group: Seq<usize>, i: int)
    requires
        0 <= i < group.len(),
        in_range(group, entries.len() as int),
    ensures
        ({
            let (summary, names) = group_summary(entries, group);
            names.contains(entries[group[i] as int].1) || text::has_prefix(
                summary,
                entries[group[i] as int].1,
            )
        }),
{
    let hubs = hubs_in(entries, group);
    let (summary, names) = group_summary(entries, group);
    if hubs.len() == 0 {
        lemma_names_without(entries, group, None, i);
    } else if group[i] != hubs[0] {
        lemma_names_without(entries, group, Some(hubs[0]), i);
    } else {
        let name = entries[hubs[0] as int].1;
        assert(summary.take(name.len() as int) =~= name);
        assert(text::has_prefix(summary, name));
    }
}

proof fn lemma_names_without(
    entries: Seq<(bool, Seq<char>)>,
    group: Seq<usize>,
    left_out: Option<usize>,
    i: int,
)
    requires
        0 <= i < group.len(),
        left_out != Some(group[i]),
    ensures
        names_without(entries, group, left_out).contains(entries[group[i] as int].1),
    decreases group.len(),
{
    let all = names_without(entries, group, left_out);
    let before = names_without(entries, group.drop_last(), left_out);
    let name = entries[group[i] as int].1;
    if i == group.len() - 1 {
        assert(all[all.len() - 1] == name);
    } else {
        lemma_names_without(entries, group.drop_last(), left_out, i);
        let k = choose|k: int| 0 <= k < before.len() && before[k] == name;
        assert(all[k] == name);
    }
}

// ---- Which labels stand alone ----

/// A group of labels that one label stands for.
pub struct Packed {
    pub summary: String,
    pub names: Vec<String>,
    /// The entry where the label stands.
    pub anchor: usize,
    pub members: Vec<usize>,
}

#[verifier::ext_equal]
pub struct PackedModel {
    pub summary: Seq<char>,
    pub names: Seq<Seq<char>>,
    pub anchor: usize,
    pub members: Seq<usize>,
}

impl View for Packed {
    type V = PackedModel;

    open spec fn view(&self) -> PackedModel {
        PackedModel {
            summary: self.summary@,
            names: text::views(self.names@),
            anchor: self.anchor,
            members: self.members@,
        }
    }
}

pub open spec fn packed_models(packed: Seq<Packed>) -> Seq<PackedModel> {
    packed.map_values(|p: Packed| p@)
}

/// Whether every group holds entries, and entries only.
pub open spec fn are_groups(groups: Seq<Seq<usize>>, n: int) -> bool {
    forall|g: int| 0 <= g < groups.len() ==> (#[trigger] groups[g]).len() > 0 && in_range(groups[g], n)
}

/// The groups that touching labels make are groups of entries.
pub proof fn law_overlaps_are_groups(groups: Seq<Vec<usize>>, d: Seq<Vec<u64>>)
    requires
        linkage::are_components(groups, d, 0, linkage::all_points(d.len())),
        d.len() <= usize::MAX,
    ensures
        are_groups(legend::row_views(groups), d.len() as int),
{
    let views = legend::row_views(groups);
    let points = linkage::all_points(d.len());
    assert forall|g: int| 0 <= g < views.len() implies (#[trigger] views[g]).len() > 0 && in_range(
        views[g],
        d.len() as int,
    ) by {
        assert(views[g] == groups[g]@);
        assert forall|i: int| 0 <= i < views[g].len() implies (#[trigger] views[g][i])
            < d.len() by {
            assert(linkage::holds(groups, g, groups[g]@[i]));
            assert(points.contains(groups[g]@[i]));
            let k = choose|k: int| 0 <= k < points.len() && points[k] == groups[g]@[i];
            assert(points[k] == k as usize);
        }
    }
}

/// The entries that have a label of their own: those alone in their group, and all of them where no
/// label may stand for several.
pub open spec fn single_labels(groups: Seq<Seq<usize>>, allow_pack: bool) -> Seq<usize>
    decreases groups.len(),
{
    if groups.len() == 0 {
        Seq::empty()
    } else {
        let before = single_labels(groups.drop_last(), allow_pack);
        if groups.last().len() == 1 || !allow_pack {
            before + groups.last()
        } else {
            before
        }
    }
}

/// The groups that one label stands for.
pub open spec fn packed_labels(
    entries: Seq<(bool, Seq<char>)>,
    groups: Seq<Seq<usize>>,
    allow_pack: bool,
) -> Seq<PackedModel>
    decreases groups.len(),
{
    if groups.len() == 0 {
        Seq::empty()
    } else {
        let before = packed_labels(entries, groups.drop_last(), allow_pack);
        let g = groups.last();
        if g.len() == 1 || !allow_pack {
            before
        } else {
            let (summary, names) = group_summary(entries, g);
            before.push(PackedModel { summary, names, anchor: g[0], members: g })
        }
    }
}

fn copy_indices(v: &Vec<usize>) -> (r: Vec<usize>)
    ensures
        r@ == v@,
{
    let mut out: Vec<usize> = Vec::new();
    let mut i: usize = 0;
    while i < v.len()
        invariant
            i <= v@.len(),
            out@ == v@.take(i as int),
        decreases v@.len() - i,
    {
        out.push(v[i]);
        assert(out@ =~= v@.take(i + 1));
        i = i + 1;
    }
    assert(v@.take(v@.len() as int) =~= v@);
    out
}

/// Which entries have a label of their own, and for which groups one label stands.
pub fn label_plan(entries: &Vec<(bool, String)>, groups: &Vec<Vec<usize>>, allow_pack: bool) -> (r: (
    Vec<usize>,
    Vec<Packed>,
))
    requires
        are_groups(legend::row_views(groups@), entries@.len() as int),
    ensures
        r.0@ == single_labels(legend::row_views(groups@), allow_pack),
        packed_models(r.1@) == packed_labels(
            entry_models(entries@),
            legend::row_views(groups@),
            allow_pack,
        ),
{
    let ghost all = legend::row_views(groups@);
    let ghost em = entry_models(entries@);
    let mut singles: Vec<usize> = Vec::new();
    let mut packed: Vec<Packed> = Vec::new();
    let mut g: usize = 0;
    assert(packed_models(packed@) =~= Seq::<PackedModel>::empty());
    while g < groups.len()
        invariant
            g <= groups@.len(),
            all == legend::row_views(groups@),
            em == entry_models(entries@),
            are_groups(all, entries@.len() as int),
            singles@ == single_labels(all.take(g as int), allow_pack),
            packed_models(packed@) == packed_labels(em, all.take(g as int), allow_pack),
        decreases groups@.len() - g,
    {
        let group = &groups[g];
        proof {
            assert(all[g as int] == group@);
            assert(all.take(g + 1).drop_last() =~= all.take(g as int));
            assert(all.take(g + 1).last() == group@);
        }
        if group.len() == 1 || !allow_pack {
            let ghost before = singles@;
            let mut i: usize = 0;
            assert(singles@ =~= before + group@.take(0));
            while i < group.len()
                invariant
                    i <= group@.len(),
                    singles@ == before + group@.take(i as int),
                decreases group@.len() - i,
            {
                singles.push(group[i]);
                assert(singles@ =~= before + group@.take(i + 1));
                i = i + 1;
            }
            assert(group@.take(group@.len() as int) =~= group@);
        } else {
            let (summary, names, anchor) = pack_summary(entries, group);
            let p = Packed { summary, names, anchor, members: copy_indices(group) };
            let ghost before = packed@;
            packed.push(p);
            assert(packed_models(packed@) =~= packed_models(before).push(p@));
        }
        g = g + 1;
    }
    assert(all.take(all.len() as int) =~= all);
    (singles, packed)
}

/// Whether an entry's label can be read: it has one of its own, or is in a group that one stands
/// for.
pub open spec fn is_labelled(
    singles: Seq<usize>,
    packed: Seq<PackedModel>,
    entry: usize,
) -> bool {
    singles.contains(entry) || exists|k: int|
        0 <= k < packed.len() && (#[trigger] packed[k]).members.contains(entry)
}

/// Every entry of every group is labelled.
pub proof fn law_every_entry_is_labelled(
    entries: Seq<(bool, Seq<char>)>,
    groups: Seq<Seq<usize>>,
    allow_pack: bool,
    g: int,
    entry: usize,
)
    requires
        0 <= g < groups.len(),
        groups[g].contains(entry),
    ensures
        is_labelled(
            single_labels(groups, allow_pack),
            packed_labels(entries, groups, allow_pack),
            entry,
        ),
    decreases groups.len(),
{
    let singles = single_labels(groups, allow_pack);
    let packed = packed_labels(entries, groups, allow_pack);
    let front = groups.drop_last();
    if g < front.len() {
        law_every_entry_is_labelled(entries, front, allow_pack, g, entry);
        let before = single_labels(front, allow_pack);
        let packed_before = packed_labels(entries, front, allow_pack);
        if before.contains(entry) {
            let i = choose|i: int| 0 <= i < before.len() && before[i] == entry;
            assert(singles[i] == entry);
        } else {
            let k = choose|k: int|
                0 <= k < packed_before.len() && (#[trigger] packed_before[k]).members.contains(
                    entry,
                );
            assert(packed[k] == packed_before[k]);
        }
    } else {
        let group = groups.last();
        if group.len() == 1 || !allow_pack {
            let before = single_labels(front, allow_pack);
            let i = choose|i: int| 0 <= i < group.len() && group[i] == entry;
            assert(singles[before.len() + i] == entry);
        } else {
            assert(packed[packed.len() - 1].members == group);
        }
    }
}

/// An entry of the map as a point: a region is drawn as a city.
pub open spec fn entry_point(hubs: Seq<Poi>, points: Seq<PointModel>, i: usize) -> PointModel {
    if i < hubs.len() {
        PointModel {
            name: hubs[i as int].name@,
            lon: hubs[i as int].lon,
            lat: hubs[i as int].lat,
            point_type: Some("city"@),
            hubs: None,
        }
    } else {
        points[i - hubs.len()]
    }
}

pub open spec fn entry_points(hubs: Seq<Poi>, points: Seq<PointModel>, members: Seq<usize>) -> Seq<
    PointModel,
> {
    members.map_values(|i: usize| entry_point(hubs, points, i))
}

fn copy_texts(v: &Vec<String>) -> (r: Vec<String>)
    ensures
        text::views(r@) == text::views(v@),
{
    let ghost all = text::views(v@);
    let mut out: Vec<String> = Vec::new();
    let mut i: usize = 0;
    assert(text::views(out@) =~= all.take(0));
    while i < v.len()
        invariant
            i <= v@.len(),
            all == text::views(v@),
            text::views(out@) == all.take(i as int),
        decreases v@.len() - i,
    {
        let s = text::copy_text(v[i].as_str());
        proof {
            text::lemma_views_push(out@, s);
        }
        out.push(s);
        assert(text::views(out@) =~= all.take(i + 1));
        i = i + 1;
    }
    assert(all.take(all.len() as int) =~= all);
    out
}

fn copy_point(p: &PointNode) -> (r: PointNode)
    ensures
        r@ == p@,
{
    let hubs = match &p.hubs {
        Some(l) => Some(copy_texts(l)),
        None => None,
    };
    PointNode {
        name: text::copy_text(p.name.as_str()),
        lon: p.lon,
        lat: p.lat,
        point_type: llm::copy_opt(&p.point_type),
        hubs,
    }
}

/// The points of the map that enlarges a group.
pub fn focus_points(hubs: &Vec<Poi>, points: &Vec<PointNode>, members: &Vec<usize>) -> (r: Vec<
    PointNode,
>)
    requires
        in_range(members@, (hubs@.len() + points@.len()) as int),
    ensures
        point_models(r@) == entry_points(hubs@, point_models(points@), members@),
{
    let ghost pm = point_models(points@);
    let ghost all = entry_points(hubs@, pm, members@);
    let mut out: Vec<PointNode> = Vec::new();
    let mut k: usize = 0;
    assert(point_models(out@) =~= all.take(0));
    while k < members.len()
        invariant
            k <= members@.len(),
            in_range(members@, (hubs@.len() + points@.len()) as int),
            pm == point_models(points@),
            all == entry_points(hubs@, pm, members@),
            point_models(out@) == all.take(k as int),
        decreases members@.len() - k,
    {
        let i: usize = members[k];
        assert(members@[k as int] < hubs@.len() + points@.len());
        let p = if i < hubs.len() {
            PointNode {
                name: text::copy_text(hubs[i].name.as_str()),
                lon: hubs[i].lon,
                lat: hubs[i].lat,
                point_type: Some(text::copy_text("city")),
                hubs: None,
            }
        } else {
            copy_point(&points[i - hubs.len()])
        };
        assert(p@ == all[k as int]);
        let ghost before = out@;
        out.push(p);
        assert(point_models(out@) =~= point_models(before).push(p@));
        assert(point_models(out@) =~= all.take(k + 1));
        k = k + 1;
    }
    assert(all.take(all.len() as int) =~= all);
    out
}

// ---- What an order comes to ----

/// A point is a station, an airport or a city where it is called one, in English or Chinese, and a
/// sight otherwise.
pub proof fn law_points_are_what_they_are_called(s: Option<Seq<char>>)
    ensures
        ({
            let station = s == Some("station"@) || s == Some("火车站"@) || s == Some("车站"@) || s
                == Some("高铁站"@);
            let airport = s == Some("airport"@) || s == Some("机场"@);
            let city = s == Some("city"@) || s == Some("城市"@) || s == Some("出发地"@) || s == Some(
                "目的地"@,
            );
            &&& station ==> kind_of(s) == PointKind::Station
            &&& airport ==> kind_of(s) == PointKind::Airport
            &&& city ==> kind_of(s) == PointKind::City
            &&& !station && !airport && !city ==> kind_of(s) == PointKind::Scenic
        }),
{
    reveal_strlit("station");
    reveal_strlit("火车站");
    reveal_strlit("车站");
    reveal_strlit("高铁站");
    reveal_strlit("airport");
    reveal_strlit("机场");
    reveal_strlit("city");
    reveal_strlit("城市");
    reveal_strlit("出发地");
    reveal_strlit("目的地");
    assert("station"@.len() == 7 && "station"@[0] == 's');
    assert("火车站"@.len() == 3 && "火车站"@[0] == '火');
    assert("车站"@.len() == 2 && "车站"@[0] == '车');
    assert("高铁站"@.len() == 3 && "高铁站"@[0] == '高');
    assert("airport"@.len() == 7 && "airport"@[0] == 'a');
    assert("机场"@.len() == 2 && "机场"@[0] == '机');
    assert("city"@.len() == 4 && "city"@[0] == 'c');
    assert("城市"@.len() == 2 && "城市"@[0] == '城');
    assert("出发地"@.len() == 3 && "出发地"@[0] == '出');
    assert("目的地"@.len() == 3 && "目的地"@[0] == '目');
}

proof fn lemma_first_lost(names: Seq<Seq<char>>, routes: Seq<RouteModel>, n: int)
    requires
        0 <= n <= routes.len(),
    ensures
        lost_route(names, routes, n) is None <==> forall|i: int|
            0 <= i < n ==> names.contains((#[trigger] routes[i]).from) && names.contains(
                routes[i].to,
            ),
    decreases n,
{
    if n > 0 {
        lemma_first_lost(names, routes, n - 1);
    }
}

proof fn lemma_unknown_name(hubs: Seq<Seq<char>>, names: Seq<Seq<char>>, n: int)
    requires
        0 <= n <= names.len(),
    ensures
        unknown_name(hubs, names, n) is None <==> forall|i: int|
            0 <= i < n ==> hubs.contains(#[trigger] names[i]),
    decreases n,
{
    if n > 0 {
        lemma_unknown_name(hubs, names, n - 1);
    }
}

proof fn lemma_stray_point(hubs: Seq<Seq<char>>, points: Seq<PointModel>, n: int)
    requires
        0 <= n <= points.len(),
    ensures
        stray_point(hubs, points, n) is None <==> forall|i: int|
            0 <= i < n ==> match (#[trigger] points[i]).hubs {
                Some(names) => forall|k: int|
                    0 <= k < names.len() ==> hubs.contains(#[trigger] names[k]),
                None => true,
            },
    decreases n,
{
    if n > 0 {
        lemma_stray_point(hubs, points, n - 1);
        match points[n - 1].hubs {
            Some(names) => lemma_unknown_name(hubs, names, names.len() as int),
            None => {},
        }
    }
}

proof fn lemma_repeated(names: Seq<Seq<char>>, n: int)
    requires
        0 <= n <= names.len(),
    ensures
        cluster::repeated_name(names, n) is None <==> forall|i: int, j: int|
            0 <= i < j < n ==> #[trigger] names[i] != #[trigger] names[j],
    decreases n,
{
    if n > 0 {
        lemma_repeated(names, n - 1);
        if names.take(n - 1).contains(names[n - 1]) {
            let front = names.take(n - 1);
            let last = names[n - 1];
            let i = choose|i: int| 0 <= i < front.len() && front[i] == last;
            assert(names[i] == names[n - 1]);
        } else {
            assert forall|i: int| 0 <= i < n - 1 implies #[trigger] names[i] != names[n - 1] by {
                assert(names.take(n - 1)[i] == names[i]);
            }
        }
    }
}

/// An order is drawn exactly where it has a region or a point, no name twice, only ways between places
/// that it names, and only points of regions that it names.
pub proof fn law_orders_are_checked(
    hubs: Seq<Seq<char>>,
    points: Seq<PointModel>,
    routes: Seq<RouteModel>,
)
    ensures
        ({
            let names = hubs + Seq::new(points.len(), |i: int| points[i].name);
            overview_fault(hubs, points, routes) is None <==> {
                &&& names.len() > 0
                &&& forall|i: int, j: int|
                    0 <= i < j < names.len() ==> #[trigger] names[i] != #[trigger] names[j]
                &&& forall|i: int|
                    0 <= i < routes.len() ==> names.contains((#[trigger] routes[i]).from)
                        && names.contains(routes[i].to)
                &&& forall|i: int|
                    0 <= i < points.len() ==> match (#[trigger] points[i]).hubs {
                        Some(named) => forall|k: int|
                            0 <= k < named.len() ==> hubs.contains(#[trigger] named[k]),
                        None => true,
                    }
            }
        }),
{
    let names = hubs + Seq::new(points.len(), |i: int| points[i].name);
    assert(all_names(hubs, points) =~= names);
    lemma_repeated(names, names.len() as int);
    lemma_first_lost(names, routes, routes.len() as int);
    lemma_stray_point(hubs, points, points.len() as int);
}

/// A picture is kept under the session's maps, by its kind and number; the enlarged part of one by the
/// number of the part too.
pub proof fn law_pictures_have_their_paths(
    session_id: Seq<char>,
    kind: Seq<char>,
    n: nat,
    part: Option<nat>,
)
    ensures
        picture_path(session_id, kind, n, part) == "maps/"@ + session::file_stem(session_id) + "/"@
            + kind + "_"@ + text::dec(n) + (match part {
            Some(k) => "_c"@ + text::dec(k) + ".png"@,
            None => ".png"@,
        }),
{
    let stem = "maps/"@ + session::file_stem(session_id) + "/"@ + kind + "_"@ + text::dec(n);
    match part {
        Some(k) => {
            assert(stem + "_c"@ + text::dec(k) + ".png"@ =~= stem + ("_c"@ + text::dec(k)
                + ".png"@));
        },
        None => {},
    }
}

/// A picture's number is what stands between its kind with an underscore and the ending, where that is
/// a number.
pub proof fn law_pictures_are_numbered(prefix: Seq<char>, stem: Seq<char>)
    ensures
        picture_number(prefix + "_"@ + stem + ".png"@, prefix) == text::parsed_unsigned(
            stem,
            u32::MAX as nat,
        ),
{
    let name = prefix + "_"@ + stem + ".png"@;
    let a = name.skip(prefix.len() as int);
    assert(name.take(prefix.len() as int) =~= prefix);
    assert(a.take("_"@.len() as int) =~= "_"@);
    let b = a.skip("_"@.len() as int);
    assert(b =~= stem + ".png"@);
    assert(b.skip(b.len() - ".png"@.len()) =~= ".png"@);
    assert(b.take(b.len() - ".png"@.len()) =~= stem);
}

/// The report of a map with regions tells how many regions, points and ways it has; without regions it
/// is a map of places. Each enlarged part has its own line.
pub proof fn law_reports_tell_the_map(
    path: Seq<char>,
    hubs: nat,
    points: nat,
    routes: nat,
    head: Seq<char>,
    parts: Seq<(Seq<char>, Seq<char>)>,
    part: (Seq<char>, Seq<char>),
)
    ensures
        hubs > 0 ==> headline(path, hubs, points, routes) == "已生成总览图："@ + path + "（"@
            + text::dec(hubs) + " 个交通便利区、"@ + text::dec(points) + " 个标注点、"@ + text::dec(
            routes,
        ) + " 条大交通）"@,
        hubs == 0 ==> headline(path, hubs, points, routes) == "已生成位置关系图："@ + path + "（"@
            + text::dec(points) + " 个点位，仅展示大致位置关系）"@,
        overview_report(head, Seq::empty()) == head,
        overview_report(head, parts.push(part)) == overview_report(head, parts) + "\n放大图："@
            + part.0 + "（"@ + part.1 + "）"@,
{
    assert(parts.push(part).drop_last() =~= parts);
}

/// Whether a name in a group is that of a region.
pub open spec fn is_hub_in(entries: Seq<(bool, Seq<char>)>, group: Seq<usize>, i: int) -> bool {
    0 <= i < group.len() && entries[group[i] as int].0
}

proof fn lemma_first_hub(entries: Seq<(bool, Seq<char>)>, group: Seq<usize>)
    ensures
        hubs_in(entries, group).len() == 0 <==> forall|i: int|
            0 <= i < group.len() ==> !#[trigger] is_hub_in(entries, group, i),
        hubs_in(entries, group).len() > 0 ==> exists|i: int| #[trigger]
            is_hub_in(entries, group, i) && hubs_in(entries, group)[0] == group[i] && forall|j: int|
                0 <= j < i ==> !#[trigger] is_hub_in(entries, group, j),
    decreases group.len(),
{
    if group.len() > 0 {
        let front = group.drop_last();
        lemma_first_hub(entries, front);
        let n = group.len() - 1;
        assert forall|i: int| 0 <= i < n implies is_hub_in(entries, group, i) == #[trigger] is_hub_in(
            entries,
            front,
            i,
        ) by {}
        if hubs_in(entries, front).len() > 0 {
            let i = choose|i: int| #[trigger]
                is_hub_in(entries, front, i) && hubs_in(entries, front)[0] == front[i] && forall|
                    j: int,
                |
                    0 <= j < i ==> !#[trigger] is_hub_in(entries, front, j);
            assert(is_hub_in(entries, group, i));
            assert forall|j: int| 0 <= j < i implies !#[trigger] is_hub_in(entries, group, j) by {
                assert(!is_hub_in(entries, front, j));
            }
        } else {
            assert forall|j: int| 0 <= j < n implies !#[trigger] is_hub_in(entries, group, j) by {
                assert(!is_hub_in(entries, front, j));
            }
            if entries[group.last() as int].0 {
                assert(is_hub_in(entries, group, n));
            }
        }
    }
}

/// A group of labels is named after its first region, where it has one, and otherwise after its first
/// point as what lies around that; with several regions it is marked that there are others.
pub proof fn law_groups_are_named(entries: Seq<(bool, Seq<char>)>, group: Seq<usize>)
    requires
        group.len() > 0,
    ensures
        ({
            let hubs = hubs_in(entries, group).len();
            let summary = group_summary(entries, group).0;
            let names = group_summary(entries, group).1;
            &&& hubs == 0 ==> summary == entries[group[0] as int].1 + "一带（"@ + text::dec(
                names.len(),
            ) + " 处）"@
            &&& hubs == 1 ==> exists|i: int| #[trigger]
                is_hub_in(entries, group, i) && summary == entries[group[i] as int].1 + "（"@
                    + text::dec(names.len()) + " 处）"@
            &&& hubs > 1 ==> exists|i: int| #[trigger]
                is_hub_in(entries, group, i) && (forall|j: int|
                    0 <= j < i ==> !#[trigger] is_hub_in(entries, group, j)) && summary
                    == entries[group[i] as int].1 + "等（"@ + text::dec(group.len()) + " 处）"@
        }),
{
    lemma_first_hub(entries, group);
}

/// A label stands alone exactly where its group has no other, or labels are not to be put together;
/// every other group has one label for all, at the place of its first.
pub proof fn law_labels_are_put_together(
    entries: Seq<(bool, Seq<char>)>,
    groups: Seq<Seq<usize>>,
    group: Seq<usize>,
    allow_pack: bool,
)
    ensures
        single_labels(Seq::empty(), allow_pack).len() == 0,
        packed_labels(entries, Seq::empty(), allow_pack).len() == 0,
        group.len() == 1 || !allow_pack ==> single_labels(groups.push(group), allow_pack)
            == single_labels(groups, allow_pack) + group && packed_labels(
            entries,
            groups.push(group),
            allow_pack,
        ) == packed_labels(entries, groups, allow_pack),
        group.len() != 1 && allow_pack ==> {
            let before = packed_labels(entries, groups, allow_pack);
            let after = packed_labels(entries, groups.push(group), allow_pack);
            &&& single_labels(groups.push(group), allow_pack) == single_labels(groups, allow_pack)
            &&& after.len() == before.len() + 1
            &&& after.drop_last() == before
            &&& after.last().anchor == group[0]
            &&& after.last().members == group
            &&& after.last().summary == group_summary(entries, group).0
            &&& after.last().names == group_summary(entries, group).1
        },
{
    assert(groups.push(group).drop_last() =~= groups);
    if group.len() != 1 && allow_pack {
        let before = packed_labels(entries, groups, allow_pack);
        let after = packed_labels(entries, groups.push(group), allow_pack);
        assert(after.drop_last() =~= before);
    }
}

/// An entry of a group is drawn on its enlarged map at its own place under its own name: a region as a
/// city, a point as it is.
pub proof fn law_entries_keep_their_places(hubs: Seq<Poi>, points: Seq<PointModel>, i: usize)
    requires
        i < hubs.len() + points.len(),
    ensures
        ({
            let p = entry_point(hubs, points, i);
            &&& i < hubs.len() ==> p.name == hubs[i as int].name@ && p.lon == hubs[i as int].lon
                && p.lat == hubs[i as int].lat && p.point_type == Some("city"@) && p.hubs is None
            &&& i >= hubs.len() ==> p == points[i - hubs.len()]
        }),
{
}

} // verus!
