//! The ways that the map service finds: which service is asked, and what its replies come to.

use vstd::prelude::*;

use crate::amap;
use crate::llm;
use crate::text;

verus! {

/// Which of the map service's planners finds a way.
#[derive(Clone, Copy, PartialEq, Eq, Structural, Debug)]
pub enum Planner {
    Transit,
    Walking,
    Driving,
}

pub open spec fn planner_of(mode: Option<Seq<char>>) -> Planner {
    match mode {
        Some(m) => if m == "地铁"@ || m == "公交"@ {
            Planner::Transit
        } else if m == "步行"@ || m == "骑行"@ || m == "自行车"@ || m == "步行骑行"@ {
            Planner::Walking
        } else {
            Planner::Driving
        },
        None => Planner::Driving,
    }
}

/// The planner for a means of transport.
pub fn planner(mode: &Option<String>) -> (r: Planner)
    ensures
        r == planner_of(llm::opt_text(*mode)),
{
    match mode {
        Some(s) => {
            let m = s.as_str();
            if text::same(m, "地铁") || text::same(m, "公交") {
                Planner::Transit
            } else if text::same(m, "步行") || text::same(m, "骑行") || text::same(m, "自行车")
                || text::same(m, "步行骑行") {
                Planner::Walking
            } else {
                Planner::Driving
            }
        },
        None => Planner::Driving,
    }
}

pub open spec fn planner_address(p: Planner) -> Seq<char> {
    match p {
        Planner::Transit => "https://restapi.amap.com/v3/direction/transit/integrated"@,
        Planner::Walking => "https://restapi.amap.com/v3/direction/walking"@,
        Planner::Driving => "https://restapi.amap.com/v3/direction/driving"@,
    }
}

/// Where a planner is asked.
pub fn planner_url(p: Planner) -> (r: &'static str)
    ensures
        r@ == planner_address(p),
{
    match p {
        Planner::Transit => "https://restapi.amap.com/v3/direction/transit/integrated",
        Planner::Walking => "https://restapi.amap.com/v3/direction/walking",
        Planner::Driving => "https://restapi.amap.com/v3/direction/driving",
    }
}

/// A way by metro or bus is asked of the planner for public transport, a way on foot or by bicycle of
/// that for walking, and every other way, named or not, of that for driving.
pub proof fn law_ways_are_asked_of_their_planner(mode: Option<Seq<char>>)
    ensures
        ({
            let address = planner_address(planner_of(mode));
            let public = mode == Some("地铁"@) || mode == Some("公交"@);
            let slow = mode == Some("步行"@) || mode == Some("骑行"@) || mode == Some("自行车"@)
                || mode == Some("步行骑行"@);
            &&& public ==> address == "https://restapi.amap.com/v3/direction/transit/integrated"@
                && planner_of(mode) == Planner::Transit
            &&& slow ==> address == "https://restapi.amap.com/v3/direction/walking"@ && planner_of(
                mode,
            ) == Planner::Walking
            &&& !public && !slow ==> address == "https://restapi.amap.com/v3/direction/driving"@
                && planner_of(mode) == Planner::Driving
        }),
{
    reveal_strlit("地铁");
    reveal_strlit("公交");
    reveal_strlit("步行");
    reveal_strlit("骑行");
    reveal_strlit("自行车");
    reveal_strlit("步行骑行");
    assert("地铁"@[0] == '地' && "公交"@[0] == '公' && "步行"@[0] == '步' && "骑行"@[0] == '骑'
        && "自行车"@[0] == '自' && "步行骑行"@[0] == '步');
}

pub open spec fn planner_pairs(
    p: Planner,
    key: Seq<char>,
    origin: Seq<char>,
    destination: Seq<char>,
    city: Seq<char>,
) -> Seq<(Seq<char>, Seq<char>)> {
    let ends = seq![("key"@, key), ("origin"@, origin), ("destination"@, destination)];
    let ask = seq![("extensions"@, "all"@), ("output"@, "JSON"@)];
    match p {
        Planner::Transit => ends.push(("city"@, city)) + ask,
        _ => ends + ask,
    }
}

/// What a planner is asked.
pub fn planner_params(p: Planner, key: &str, origin: &str, destination: &str, city: &str) -> (r: Vec<
    (String, String),
>)
    ensures
        amap::param_views(r@) == planner_pairs(p, key@, origin@, destination@, city@),
{
    let mut r: Vec<(String, String)> = Vec::new();
    amap::add_param(&mut r, "key", key);
    amap::add_param(&mut r, "origin", origin);
    amap::add_param(&mut r, "destination", destination);
    match p {
        Planner::Transit => amap::add_param(&mut r, "city", city),
        _ => {},
    }
    amap::add_param(&mut r, "extensions", "all");
    amap::add_param(&mut r, "output", "JSON");
    assert(amap::param_views(r@) =~= planner_pairs(p, key@, origin@, destination@, city@));
    r
}

// ---- Coordinates ----

/// The pieces that are not empty.
pub open spec fn filled(parts: Seq<Seq<char>>) -> Seq<Seq<char>>
    decreases parts.len(),
{
    if parts.len() == 0 {
        Seq::empty()
    } else if parts.last().len() > 0 {
        filled(parts.drop_last()).push(parts.last())
    } else {
        filled(parts.drop_last())
    }
}

/// The coordinates of a line.
pub open spec fn coords_of(line: Seq<char>) -> Seq<Seq<char>> {
    filled(text::split_at_char(line, ';'))
}

/// The coordinates of lines, one behind the other.
pub open spec fn all_coords(lines: Seq<Seq<char>>) -> Seq<Seq<char>>
    decreases lines.len(),
{
    if lines.len() == 0 {
        Seq::empty()
    } else {
        all_coords(lines.drop_last()) + coords_of(lines.last())
    }
}

/// Adds the coordinates of a line to a list.
fn add_coords(line: &str, out: &mut Vec<String>)
    ensures
        text::views(final(out)@) == text::views(old(out)@) + coords_of(line@),
{
    let parts = text::split(line, ';');
    let ghost before = text::views(out@);
    let ghost all = text::views(parts@);
    let mut i: usize = 0;
    assert(text::views(out@) =~= before + filled(all.take(0)));
    while i < parts.len()
        invariant
            i <= parts@.len(),
            all == text::views(parts@),
            text::views(out@) == before + filled(all.take(i as int)),
        decreases parts@.len() - i,
    {
        proof {
            assert(all.take(i + 1).drop_last() =~= all.take(i as int));
            assert(all.take(i + 1).last() == parts@[i as int]@);
        }
        if text::char_count(parts[i].as_str()) > 0 {
            let s = text::copy_text(parts[i].as_str());
            proof {
                text::lemma_views_push(out@, s);
            }
            out.push(s);
            assert(text::views(out@) =~= before + filled(all.take(i + 1)));
        }
        i = i + 1;
    }
    assert(all.take(all.len() as int) =~= all);
}

/// Adds the coordinates of lines to a list.
fn add_all_coords(lines: &Vec<String>, out: &mut Vec<String>)
    ensures
        text::views(final(out)@) == text::views(old(out)@) + all_coords(text::views(lines@)),
{
    let ghost before = text::views(out@);
    let ghost all = text::views(lines@);
    let mut i: usize = 0;
    assert(text::views(out@) =~= before + all_coords(all.take(0)));
    while i < lines.len()
        invariant
            i <= lines@.len(),
            all == text::views(lines@),
            text::views(out@) == before + all_coords(all.take(i as int)),
        decreases lines@.len() - i,
    {
        proof {
            assert(all.take(i + 1).drop_last() =~= all.take(i as int));
            assert(all.take(i + 1).last() == lines@[i as int]@);
        }
        add_coords(lines[i].as_str(), out);
        assert(text::views(out@) =~= before + all_coords(all.take(i + 1)));
        i = i + 1;
    }
    assert(all.take(all.len() as int) =~= all);
}

// ---- Replies ----

/// What follows a reply: a line and, where the planner tells it, the means of transport.
pub enum WayStep {
    /// The service is busy: the question is asked once more, after a pause.
    Again { wait_ms: u64 },
    Found { line: String, mode: Option<String> },
    Fail(String),
}

#[verifier::ext_equal]
pub enum WayStepModel {
    Again { wait_ms: u64 },
    Found { line: Seq<char>, mode: Option<Seq<char>> },
    Fail(Seq<char>),
}

impl View for WayStep {
    type V = WayStepModel;

    open spec fn view(&self) -> WayStepModel {
        match *self {
            WayStep::Again { wait_ms } => WayStepModel::Again { wait_ms },
            WayStep::Found { line, mode } => WayStepModel::Found {
                line: line@,
                mode: llm::opt_text(mode),
            },
            WayStep::Fail(s) => WayStepModel::Fail(s@),
        }
    }
}

/// What follows a reply that is not good.
pub open spec fn refused(attempt: u32, head: Seq<char>, status: Seq<char>, info: Seq<char>) -> WayStepModel {
    if text::contains(info, "QPS"@) && attempt == 0 {
        WayStepModel::Again { wait_ms: 1200 }
    } else {
        WayStepModel::Fail(head + "返回错误: status="@ + status + " info="@ + info)
    }
}

fn refuse(attempt: u32, head: &str, status: &str, info: &str) -> (r: WayStep)
    ensures
        r@ == refused(attempt, head@, status@, info@),
{
    if text::has_text(info, "QPS") && attempt == 0 {
        WayStep::Again { wait_ms: 1200 }
    } else {
        let mut s = text::copy_text(head);
        s.append("返回错误: status=");
        s.append(status);
        s.append(" info=");
        s.append(info);
        WayStep::Fail(s)
    }
}

/// A reply about a way on foot or by car: of each way the lines of its steps.
pub struct PathReply {
    pub status: String,
    pub info: String,
    pub route: Option<Vec<Vec<String>>>,
}

/// What follows the reply to the first (0) or second (1) question.
pub open spec fn path_step(attempt: u32, reply: PathReply) -> WayStepModel {
    if reply.status@ == "1"@ {
        match reply.route {
            Some(paths) => if paths@.len() == 0 {
                WayStepModel::Fail("路径响应无 paths"@)
            } else {
                WayStepModel::Found {
                    line: text::joined(all_coords(text::views(paths@[0]@)), ";"@),
                    mode: None,
                }
            },
            None => WayStepModel::Fail("路径响应缺 route"@),
        }
    } else {
        refused(attempt, "高德路径"@, reply.status@, reply.info@)
    }
}

pub fn after_path_reply(attempt: u32, reply: &PathReply) -> (r: WayStep)
    ensures
        r@ == path_step(attempt, *reply),
{
    if !text::same(reply.status.as_str(), "1") {
        return refuse(attempt, "高德路径", reply.status.as_str(), reply.info.as_str());
    }
    match &reply.route {
        Some(paths) => {
            if paths.len() == 0 {
                return WayStep::Fail(text::copy_text("路径响应无 paths"));
            }
            let mut coords: Vec<String> = Vec::new();
            add_all_coords(&paths[0], &mut coords);
            assert(text::views(coords@) =~= all_coords(text::views(paths@[0]@)));
            WayStep::Found { line: text::join(&coords, ";"), mode: None }
        },
        None => WayStep::Fail(text::copy_text("路径响应缺 route")),
    }
}

/// A line of public transport.
pub struct BusLine {
    pub name: Option<String>,
    pub line_type: Option<String>,
    pub polyline: String,
}

/// A part of a journey: on foot (the lines of its steps), by public transport, by taxi.
pub struct TransitSegment {
    pub walking: Option<Vec<String>>,
    pub bus: Option<Vec<BusLine>>,
    pub taxi: Option<String>,
}

/// A journey.
pub struct TransitPlan {
    pub segments: Vec<TransitSegment>,
}

/// A reply about journeys.
pub struct TransitReply {
    pub status: String,
    pub info: String,
    pub route: Option<Vec<TransitPlan>>,
}

pub open spec fn text_or_empty(s: Option<String>) -> Seq<char> {
    match s {
        Some(t) => t@,
        None => ""@,
    }
}

/// Whether a line counts as public transport: it has a course, and its kind and name say so, or say
/// nothing.
pub open spec fn is_public(l: BusLine) -> bool {
    let words = text_or_empty(l.line_type) + " "@ + text_or_empty(l.name);
    l.polyline@.len() > 0 && (text::contains(words, "地铁"@) || text::contains(words, "公交"@)
        || text::contains(words, "轨道"@) || text::contains(words, "铁路"@) || text::contains(
        words,
        "号线"@,
    ) || text::trimmed(words).len() == 0)
}

/// Whether a part of a journey goes by public transport.
pub open spec fn goes_public(s: TransitSegment) -> bool {
    s.bus is Some && exists|i: int| 0 <= i < s.bus->0@.len() && is_public(#[trigger] s.bus->0@[i])
}

/// Whether a part of a journey goes by taxi.
pub open spec fn goes_by_taxi(s: TransitSegment) -> bool {
    s.taxi is Some && s.taxi->0@.len() > 0
}

/// The means of transport of a journey: public transport where a part goes by it, or else a taxi
/// where a part goes by it, or else one's feet.
pub open spec fn journey_mode(segments: Seq<TransitSegment>) -> Seq<char> {
    if exists|i: int| 0 <= i < segments.len() && goes_public(#[trigger] segments[i]) {
        "公共交通"@
    } else if exists|i: int| 0 <= i < segments.len() && goes_by_taxi(#[trigger] segments[i]) {
        "打车"@
    } else {
        "步行骑行"@
    }
}

fn or_empty(s: &Option<String>) -> (r: String)
    ensures
        r@ == text_or_empty(*s),
{
    match s {
        Some(t) => text::copy_text(t.as_str()),
        None => text::copy_text(""),
    }
}

fn line_is_public(l: &BusLine) -> (b: bool)
    ensures
        b == is_public(*l),
{
    if text::char_count(l.polyline.as_str()) == 0 {
        return false;
    }
    let mut words = or_empty(&l.line_type);
    words.append(" ");
    words.append(or_empty(&l.name).as_str());
    let w = words.as_str();
    text::has_text(w, "地铁") || text::has_text(w, "公交") || text::has_text(w, "轨道")
        || text::has_text(w, "铁路") || text::has_text(w, "号线") || text::char_count(
        text::trim(w).as_str(),
    ) == 0
}

fn segment_is_public(s: &TransitSegment) -> (b: bool)
    ensures
        b == goes_public(*s),
{
    match &s.bus {
        Some(lines) => {
            let mut i: usize = 0;
            while i < lines.len()
                invariant
                    i <= lines@.len(),
                    s.bus is Some && s.bus->0 == *lines,
                    forall|k: int| 0 <= k < i ==> !is_public(#[trigger] lines@[k]),
                decreases lines@.len() - i,
            {
                if line_is_public(&lines[i]) {
                    return true;
                }
                i = i + 1;
            }
            false
        },
        None => false,
    }
}

/// The means of transport of a journey.
pub fn classify_transit_plan(plan: &TransitPlan) -> (r: &'static str)
    ensures
        r@ == journey_mode(plan.segments@),
{
    let mut taxi = false;
    let mut i: usize = 0;
    while i < plan.segments.len()
        invariant
            i <= plan.segments@.len(),
            forall|k: int| 0 <= k < i ==> !goes_public(#[trigger] plan.segments@[k]),
            taxi == exists|k: int| 0 <= k < i && goes_by_taxi(#[trigger] plan.segments@[k]),
        decreases plan.segments@.len() - i,
    {
        let s = &plan.segments[i];
        if segment_is_public(s) {
            return "公共交通";
        }
        let here = match &s.taxi {
            Some(t) => text::char_count(t.as_str()) > 0,
            None => false,
        };
        if here {
            assert(goes_by_taxi(plan.segments@[i as int]));
            taxi = true;
        }
        i = i + 1;
    }
    if taxi {
        "打车"
    } else {
        "步行骑行"
    }
}

/// The lines of public transport of a part of a journey.
pub open spec fn bus_polylines(lines: Seq<BusLine>) -> Seq<Seq<char>> {
    lines.map_values(|l: BusLine| l.polyline@)
}

/// The coordinates of a part of a journey: on foot, by public transport, by taxi.
pub open spec fn segment_coords(s: TransitSegment) -> Seq<Seq<char>> {
    walked_coords(s) + ridden_coords(s) + (match s.taxi {
        Some(line) => coords_of(line@),
        None => Seq::empty(),
    })
}

pub open spec fn walked_coords(s: TransitSegment) -> Seq<Seq<char>> {
    match s.walking {
        Some(steps) => all_coords(text::views(steps@)),
        None => Seq::empty(),
    }
}

pub open spec fn ridden_coords(s: TransitSegment) -> Seq<Seq<char>> {
    match s.bus {
        Some(lines) => all_coords(bus_polylines(lines@)),
        None => Seq::empty(),
    }
}

/// The coordinates of a journey.
pub open spec fn journey_coords(segments: Seq<TransitSegment>) -> Seq<Seq<char>>
    decreases segments.len(),
{
    if segments.len() == 0 {
        Seq::empty()
    } else {
        journey_coords(segments.drop_last()) + segment_coords(segments.last())
    }
}

fn add_segment_coords(s: &TransitSegment, out: &mut Vec<String>)
    ensures
        text::views(final(out)@) == text::views(old(out)@) + segment_coords(*s),
{
    let ghost before = text::views(out@);
    match &s.walking {
        Some(steps) => add_all_coords(steps, out),
        None => {},
    }
    assert(text::views(out@) =~= before + walked_coords(*s));
    match &s.bus {
        Some(lines) => {
            let mut polylines: Vec<String> = Vec::new();
            let mut i: usize = 0;
            assert(text::views(polylines@) =~= bus_polylines(lines@).take(0));
            while i < lines.len()
                invariant
                    i <= lines@.len(),
                    text::views(polylines@) == bus_polylines(lines@).take(i as int),
                decreases lines@.len() - i,
            {
                let p = text::copy_text(lines[i].polyline.as_str());
                proof {
                    text::lemma_views_push(polylines@, p);
                }
                polylines.push(p);
                assert(text::views(polylines@) =~= bus_polylines(lines@).take(i + 1));
                i = i + 1;
            }
            assert(text::views(polylines@) =~= bus_polylines(lines@));
            add_all_coords(&polylines, out);
        },
        None => {},
    }
    assert(text::views(out@) =~= before + (walked_coords(*s) + ridden_coords(*s)));
    match &s.taxi {
        Some(line) => add_coords(line.as_str(), out),
        None => {},
    }
    assert(text::views(out@) =~= before + segment_coords(*s));
}

/// The line of a journey: from its beginning along its coordinates to its end.
pub open spec fn journey_line(origin: Seq<char>, coords: Seq<Seq<char>>, destination: Seq<char>) -> Seq<
    char,
> {
    text::joined((seq![origin] + coords).push(destination), ";"@)
}

/// What follows the reply to the first (0) or second (1) question.
pub open spec fn transit_step(
    attempt: u32,
    reply: TransitReply,
    origin: Seq<char>,
    destination: Seq<char>,
) -> WayStepModel {
    if reply.status@ == "1"@ {
        match reply.route {
            Some(plans) => if plans@.len() == 0 {
                WayStepModel::Fail("未找到可用公交/地铁方案"@)
            } else {
                let segments = plans@[0].segments@;
                let coords = journey_coords(segments);
                if coords.len() == 0 {
                    WayStepModel::Fail(
                        "两地间无公共交通方案（线路不存在，或该段仅步行且无轨迹）。建议：①把此段 transport 改为「打车」重试 ②或从 routes 中移除该段后重画；不要用相同参数重试"@,
                    )
                } else {
                    WayStepModel::Found {
                        line: journey_line(origin, coords, destination),
                        mode: Some(journey_mode(segments)),
                    }
                }
            },
            None => WayStepModel::Fail("公交路径响应缺 route"@),
        }
    } else {
        refused(attempt, "高德公交路径"@, reply.status@, reply.info@)
    }
}

pub fn after_transit_reply(attempt: u32, reply: &TransitReply, origin: &str, destination: &str) -> (r:
    WayStep)
    ensures
        r@ == transit_step(attempt, *reply, origin@, destination@),
{
    if !text::same(reply.status.as_str(), "1") {
        return refuse(attempt, "高德公交路径", reply.status.as_str(), reply.info.as_str());
    }
    let plans = match &reply.route {
        Some(plans) => plans,
        None => return WayStep::Fail(text::copy_text("公交路径响应缺 route")),
    };
    if plans.len() == 0 {
        return WayStep::Fail(text::copy_text("未找到可用公交/地铁方案"));
    }
    let plan = &plans[0];
    let ghost segments = plan.segments@;
    let first = text::copy_text(origin);
    let ghost from = first@;
    let mut full: Vec<String> = Vec::new();
    full.push(first);
    let mut i: usize = 0;
    assert(text::views(full@) =~= seq![from] + journey_coords(segments.take(0)));
    while i < plan.segments.len()
        invariant
            i <= plan.segments@.len(),
            segments == plan.segments@,
            text::views(full@) == seq![from] + journey_coords(segments.take(i as int)),
        decreases plan.segments@.len() - i,
    {
        assert(segments.take(i + 1).drop_last() =~= segments.take(i as int));
        add_segment_coords(&plan.segments[i], &mut full);
        assert(text::views(full@) =~= seq![from] + journey_coords(segments.take(i + 1)));
        i = i + 1;
    }
    assert(segments.take(segments.len() as int) =~= segments);
    assert(full@.len() == text::views(full@).len());
    if full.len() == 1 {
        return WayStep::Fail(
            text::copy_text(
                "两地间无公共交通方案（线路不存在，或该段仅步行且无轨迹）。建议：①把此段 transport 改为「打车」重试 ②或从 routes 中移除该段后重画；不要用相同参数重试",
            ),
        );
    }
    let last = text::copy_text(destination);
    proof {
        text::lemma_views_push(full@, last);
    }
    full.push(last);
    WayStep::Found {
        line: text::join(&full, ";"),
        mode: Some(text::copy_text(classify_transit_plan(plan))),
    }
}

/// The line of a journey begins where the journey does and ends where it does.
pub proof fn law_journeys_join_their_ends(
    origin: Seq<char>,
    coords: Seq<Seq<char>>,
    destination: Seq<char>,
)
    requires
        coords.len() > 0,
    ensures
        text::has_prefix(journey_line(origin, coords, destination), origin),
        text::has_suffix(journey_line(origin, coords, destination), destination),
{
    let all = (seq![origin] + coords).push(destination);
    lemma_joined_ends(all, ";"@);
}

proof fn lemma_joined_ends(parts: Seq<Seq<char>>, sep: Seq<char>)
    requires
        parts.len() > 0,
    ensures
        text::has_prefix(text::joined(parts, sep), parts[0]),
        text::has_suffix(text::joined(parts, sep), parts.last()),
    decreases parts.len(),
{
    let s = text::joined(parts, sep);
    if parts.len() > 1 {
        lemma_joined_ends(parts.drop_last(), sep);
        let front = text::joined(parts.drop_last(), sep);
        assert(s == front + sep + parts.last());
        assert(s.take(parts[0].len() as int) =~= front.take(parts[0].len() as int));
        assert(s.skip(s.len() - parts.last().len()) =~= parts.last());
    } else {
        assert(s == parts[0]);
        assert(s.take(s.len() as int) =~= s);
        assert(s.skip(0) =~= s);
    }
}

/// The question is asked at most twice.
pub proof fn law_planners_are_asked_twice(
    attempt: u32,
    path: PathReply,
    journey: TransitReply,
    origin: Seq<char>,
    destination: Seq<char>,
)
    ensures
        path_step(attempt, path) is Again ==> attempt == 0,
        transit_step(attempt, journey, origin, destination) is Again ==> attempt == 0,
{
}

// ---- What is asked and what is drawn ----

/// A planner is asked for the way from the first place to the second; that for public transport is
/// told the city too.
pub proof fn law_planners_are_told_both_ends(
    p: Planner,
    key: Seq<char>,
    origin: Seq<char>,
    destination: Seq<char>,
    city: Seq<char>,
)
    ensures
        p == Planner::Transit ==> planner_pairs(p, key, origin, destination, city) == seq![
            ("key"@, key),
            ("origin"@, origin),
            ("destination"@, destination),
            ("city"@, city),
            ("extensions"@, "all"@),
            ("output"@, "JSON"@),
        ],
        p != Planner::Transit ==> planner_pairs(p, key, origin, destination, city) == seq![
            ("key"@, key),
            ("origin"@, origin),
            ("destination"@, destination),
            ("extensions"@, "all"@),
            ("output"@, "JSON"@),
        ],
{
}

/// A line counts as public transport exactly where it has a course, and its kind or name has one of
/// the words for it, or both say nothing.
pub proof fn law_public_lines_say_so(l: BusLine)
    ensures
        ({
            let kind = match l.line_type {
                Some(s) => s@,
                None => ""@,
            };
            let name = match l.name {
                Some(s) => s@,
                None => ""@,
            };
            let words = kind + " "@ + name;
            is_public(l) <==> l.polyline@.len() > 0 && (text::contains(words, "地铁"@)
                || text::contains(words, "公交"@) || text::contains(words, "轨道"@) || text::contains(
                words,
                "铁路"@,
            ) || text::contains(words, "号线"@) || text::trimmed(words).len() == 0)
        }),
{
}

/// A journey with a line of public transport in it is one by public transport; without, one with a
/// course by taxi is one by taxi; and any other is on foot.
pub proof fn law_journeys_have_their_means(segments: Seq<TransitSegment>)
    ensures
        ({
            let public = exists|i: int, j: int|
                0 <= i < segments.len() && segments[i].bus is Some && 0 <= j
                    < segments[i].bus->0@.len() && is_public(#[trigger] segments[i].bus->0@[j]);
            let taxi = exists|i: int|
                0 <= i < segments.len() && (#[trigger] segments[i]).taxi is Some
                    && segments[i].taxi->0@.len() > 0;
            &&& public ==> journey_mode(segments) == "公共交通"@
            &&& !public && taxi ==> journey_mode(segments) == "打车"@
            &&& !public && !taxi ==> journey_mode(segments) == "步行骑行"@
        }),
{
    if exists|i: int, j: int|
        0 <= i < segments.len() && segments[i].bus is Some && 0 <= j < segments[i].bus->0@.len()
            && is_public(#[trigger] segments[i].bus->0@[j]) {
        let (i, j) = choose|i: int, j: int|
            0 <= i < segments.len() && segments[i].bus is Some && 0 <= j < segments[i].bus->0@.len()
                && is_public(#[trigger] segments[i].bus->0@[j]);
        assert(goes_public(segments[i]));
    } else {
        assert forall|i: int| 0 <= i < segments.len() implies !goes_public(#[trigger] segments[i]) by {
            if goes_public(segments[i]) {
                let j = choose|j: int|
                    0 <= j < segments[i].bus->0@.len() && is_public(#[trigger] segments[i].bus->0@[j]);
                assert(is_public(segments[i].bus->0@[j]));
            }
        }
        if exists|i: int|
            0 <= i < segments.len() && (#[trigger] segments[i]).taxi is Some
                && segments[i].taxi->0@.len() > 0 {
            let i = choose|i: int|
                0 <= i < segments.len() && (#[trigger] segments[i]).taxi is Some
                    && segments[i].taxi->0@.len() > 0;
            assert(goes_by_taxi(segments[i]));
        }
    }
}

/// A journey is drawn part by part, and in each part what is walked, then what is ridden, then what is
/// driven by taxi.
pub proof fn law_journeys_are_drawn_in_order(segments: Seq<TransitSegment>, s: TransitSegment)
    ensures
        journey_coords(Seq::empty()).len() == 0,
        journey_coords(segments.push(s)) == journey_coords(segments) + (match s.walking {
            Some(steps) => all_coords(text::views(steps@)),
            None => Seq::empty(),
        }) + (match s.bus {
            Some(lines) => all_coords(Seq::new(lines@.len(), |i: int| lines@[i].polyline@)),
            None => Seq::empty(),
        }) + (match s.taxi {
            Some(line) => coords_of(line@),
            None => Seq::empty(),
        }),
{
    assert(segments.push(s).drop_last() =~= segments);
    match s.bus {
        Some(lines) => {
            assert(bus_polylines(lines@) =~= Seq::new(lines@.len(), |i: int| lines@[i].polyline@));
        },
        None => {},
    }
    let taxi = match s.taxi {
        Some(line) => coords_of(line@),
        None => Seq::empty(),
    };
    assert(journey_coords(segments.push(s)) =~= journey_coords(segments) + walked_coords(s)
        + ridden_coords(s) + taxi);
}

/// The coordinates of lines are those of each line, in order; those of a line are the pieces between
/// its semicolons that are not empty.
pub proof fn law_coordinates_are_kept(lines: Seq<Seq<char>>, line: Seq<char>, parts: Seq<Seq<char>>)
    ensures
        all_coords(lines.push(line)) == all_coords(lines) + coords_of(line),
        coords_of(line) == filled(text::split_at_char(line, ';')),
        filled(parts).len() <= parts.len(),
        forall|i: int| 0 <= i < filled(parts).len() ==> (#[trigger] filled(parts)[i]).len() > 0,
        forall|i: int|
            0 <= i < parts.len() && (#[trigger] parts[i]).len() > 0 ==> filled(parts).contains(
                parts[i],
            ),
    decreases parts.len(),
{
    assert(lines.push(line).drop_last() =~= lines);
    if parts.len() > 0 {
        let front = parts.drop_last();
        law_coordinates_are_kept(lines, line, front);
        let before = filled(front);
        let now = filled(parts);
        assert forall|i: int| 0 <= i < now.len() implies (#[trigger] now[i]).len() > 0 by {
            if i < before.len() {
                assert(now[i] == before[i]);
            }
        }
        assert forall|i: int| 0 <= i < parts.len() && (#[trigger] parts[i]).len()
            > 0 implies now.contains(parts[i]) by {
            if i < front.len() {
                assert(front[i] == parts[i]);
                let k = choose|k: int| 0 <= k < before.len() && before[k] == parts[i];
                assert(now[k] == parts[i]);
            } else {
                assert(now[before.len() as int] == parts[i]);
            }
        }
    }
}

/// A good reply is drawn from its first way or journey; a bad one is asked again once, after twelve
/// hundred milliseconds, where the service says that it is asked too often, and fails otherwise.
pub proof fn law_replies_are_used(
    attempt: u32,
    path: PathReply,
    journey: TransitReply,
    origin: Seq<char>,
    destination: Seq<char>,
)
    ensures
        path.status@ == "1"@ ==> match path.route {
            Some(paths) => if paths@.len() > 0 {
                path_step(attempt, path) == (WayStepModel::Found {
                    line: text::joined(all_coords(text::views(paths@[0]@)), ";"@),
                    mode: None,
                })
            } else {
                path_step(attempt, path) is Fail
            },
            None => path_step(attempt, path) is Fail,
        },
        path.status@ != "1"@ ==> if attempt == 0 && text::contains(path.info@, "QPS"@) {
            path_step(attempt, path) == (WayStepModel::Again { wait_ms: 1200 })
        } else {
            path_step(attempt, path) == WayStepModel::Fail(
                "高德路径"@ + "返回错误: status="@ + path.status@ + " info="@ + path.info@,
            )
        },
        journey.status@ == "1"@ ==> match journey.route {
            Some(plans) => if plans@.len() > 0 && journey_coords(plans@[0].segments@).len() > 0 {
                transit_step(attempt, journey, origin, destination) == (WayStepModel::Found {
                    line: text::joined(
                        (seq![origin] + journey_coords(plans@[0].segments@)).push(destination),
                        ";"@,
                    ),
                    mode: Some(journey_mode(plans@[0].segments@)),
                })
            } else {
                transit_step(attempt, journey, origin, destination) is Fail
            },
            None => transit_step(attempt, journey, origin, destination) is Fail,
        },
        journey.status@ != "1"@ ==> if attempt == 0 && text::contains(journey.info@, "QPS"@) {
            transit_step(attempt, journey, origin, destination) == (WayStepModel::Again {
                wait_ms: 1200,
            })
        } else {
            transit_step(attempt, journey, origin, destination) == WayStepModel::Fail(
                "高德公交路径"@ + "返回错误: status="@ + journey.status@ + " info="@ + journey.info@,
            )
        },
{
}

} // verus!
